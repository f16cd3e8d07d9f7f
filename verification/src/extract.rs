//! Reading a whole image back into a source tree.
//!
//! `extract_tree` is the compute half of extraction: it walks an open
//! image from a directory inode and rebuilds the value-level source tree,
//! leaving host-side materialization (creating files, directories and
//! symlinks) to the caller. Its contract ties the rebuilt tree to the
//! same layout predicate the writer establishes, which makes the
//! write-then-read round trip a theorem rather than a hope.

use vstd::prelude::*;
use crate::codec::{spec_dirent_at, spec_inode_at, DIRENT_SIZE, Inode, InodeType};
use crate::error::Error;
use crate::fs::LINK_TARGET_MAX;
use crate::image::Image;
use crate::store::ReadAt;
use crate::write::{tm_entry, tree_matches, SourceNode};

verus! {

/// Deepest directory nesting extraction will follow; the walk recurses
/// and must not exhaust the stack on adversarial images.
pub const DIR_DEPTH_MAX: u16 = 100;

/// The two trees have the same shape, names and payload bytes.
pub open spec fn node_like(a: SourceNode, b: SourceNode) -> bool
    decreases a,
{
    match (a, b) {
        (SourceNode::File(x), SourceNode::File(y)) => x@ == y@,
        (SourceNode::Symlink(x), SourceNode::Symlink(y)) => x@ == y@,
        (SourceNode::Directory(xs), SourceNode::Directory(ys)) => {
            &&& xs@.len() == ys@.len()
            &&& (forall|k: int|
                0 <= k < xs@.len() ==> (#[trigger] xs@[k]).0@ == ys@[k].0@ && node_like(
                    xs@[k].1,
                    ys@[k].1,
                ))
        },
        _ => false,
    }
}

/// At most one tree (up to payload and name bytes) is serialized at a
/// given inode offset: two trees matching the same image there are alike.
/// Together with the writer's contract this is the write-then-read round
/// trip: whatever a reader reconstructs from a written image is the tree
/// that was written.
pub proof fn lemma_serialized_tree_unique(s: Seq<u8>, off: int, a: SourceNode, b: SourceNode)
    requires
        tree_matches(s, off, a),
        tree_matches(s, off, b),
    ensures
        node_like(a, b),
    decreases a,
{
    reveal(tree_matches);
    reveal(tm_entry);
    let ino = spec_inode_at(s, off);
    match (a, b) {
        (SourceNode::File(x), SourceNode::File(y)) => {
            if x@.len() > 0 {
                assert(x@ =~= y@);
            } else {
                assert(x@ =~= y@);
            }
        },
        (SourceNode::Symlink(x), SourceNode::Symlink(y)) => {
            assert(x@ =~= y@);
        },
        (SourceNode::Directory(xs), SourceNode::Directory(ys)) => {
            assert(16 * xs@.len() == 16 * ys@.len());
            assert(xs@.len() == ys@.len());
            assert forall|k: int|
                0 <= k < xs@.len() implies (#[trigger] xs@[k]).0@ == ys@[k].0@ && node_like(
                xs@[k].1,
                ys@[k].1,
            ) by {
                assert(tm_entry(s, ino, xs@[k].0@, xs@[k].1, k));
                assert(tm_entry(s, ino, ys@[k].0@, ys@[k].1, k));
                let noff = spec_dirent_at(s, ino.offset + 16 * k).name as int;
                crate::image::lemma_name_at_unique(s, noff, xs@[k].0@, ys@[k].0@);
                lemma_serialized_tree_unique(
                    s,
                    spec_dirent_at(s, ino.offset + 16 * k).inode as int,
                    xs@[k].1,
                    ys@[k].1,
                );
            }
        },
        _ => {},
    }
}

/// Read one directory entry back: its name bytes and its subtree.
#[verifier::rlimit(100)]
#[verifier::spinoff_prover]
fn extract_dir_entry<F: ReadAt>(img: &Image<F>, ino: &Inode, k: u64, depth: u16) -> (r: Result<
    (Vec<u8>, SourceNode),
    Error,
>)
    requires
        depth <= DIR_DEPTH_MAX,
    ensures
        r matches Ok(p) ==> tm_entry(img.contents(), *ino, p.0@, p.1, k as int),
    decreases DIR_DEPTH_MAX + 1 - depth, 0int,
{
    let d = match ino.read_dirent(k, img) {
        Ok(d) => d,
        Err(e) => {
            return Err(e);
        },
    };
    let name = match img.read_str(d.name) {
        Ok(v) => v,
        Err(e) => {
            return Err(e);
        },
    };
    let child = match extract_tree(img, d.inode, depth + 1) {
        Ok(c) => c,
        Err(e) => {
            return Err(e);
        },
    };
    proof {
        reveal(tm_entry);
    }
    Ok((name, child))
}

/// Read the subtree rooted at inode offset `off` back into a source tree.
///
/// Payloads are read whole; symlink targets are bounded by
/// `LINK_TARGET_MAX` and directory nesting by `DIR_DEPTH_MAX` (a `Bounds`
/// error beyond either); a dirent table size that is not a multiple of
/// the record size is a `Format` error. A reconstructed tree matches the
/// image exactly where it was read.
#[verifier::rlimit(100)]
#[verifier::spinoff_prover]
pub fn extract_tree<F: ReadAt>(img: &Image<F>, off: u64, depth: u16) -> (r: Result<
    SourceNode,
    Error,
>)
    ensures
        r matches Ok(n) ==> tree_matches(img.contents(), off as int, n),
        depth > DIR_DEPTH_MAX ==> r is Err && (r matches Err(e) ==> e is Bounds),
        (depth <= DIR_DEPTH_MAX && off + 32 <= img.contents().len() && spec_inode_at(
            img.contents(),
            off as int,
        ).inode_type == 0 && spec_inode_at(img.contents(), off as int).size % 16 != 0) ==> r
            is Err && (r matches Err(e) ==> e is Format || e is IO),
        (depth <= DIR_DEPTH_MAX && off + 32 <= img.contents().len() && spec_inode_at(
            img.contents(),
            off as int,
        ).inode_type == 2 && spec_inode_at(img.contents(), off as int).size
            > crate::fs::LINK_TARGET_MAX) ==> r is Err && (r matches Err(e) ==> e is Bounds || e
            is IO),
    decreases DIR_DEPTH_MAX + 1 - depth, 1int,
{
    if depth > DIR_DEPTH_MAX {
        return Err(Error::Bounds("directory tree too deep"));
    }
    let ino = match img.read_inode(off) {
        Ok(i) => i,
        Err(e) => {
            return Err(e);
        },
    };
    let ty = match ino.inode_type() {
        Ok(t) => t,
        Err(e) => {
            return Err(e);
        },
    };
    match ty {
        InodeType::File => {
            if ino.size > usize::MAX as u64 {
                return Err(Error::Bounds("file payload too large"));
            }
            let mut data: Vec<u8> = Vec::new();
            if ino.size > 0 {
                data.resize(ino.size as usize, 0u8);
                match img.read_file(&mut data, ino.offset) {
                    Ok(_) => {},
                    Err(e) => {
                        return Err(e);
                    },
                }
            }
            proof {
                reveal(tree_matches);
            }
            Ok(SourceNode::File(data))
        },
        InodeType::Symlink => {
            if ino.size > LINK_TARGET_MAX {
                return Err(Error::Bounds("link target too long"));
            }
            let mut target: Vec<u8> = Vec::new();
            if ino.size > 0 {
                target.resize(ino.size as usize, 0u8);
                match img.read_file(&mut target, ino.offset) {
                    Ok(_) => {},
                    Err(e) => {
                        return Err(e);
                    },
                }
            }
            proof {
                reveal(tree_matches);
            }
            Ok(SourceNode::Symlink(target))
        },
        InodeType::Directory => {
            if ino.size % (DIRENT_SIZE as u64) != 0 {
                return Err(Error::Format("dirent table size"));
            }
            let count: u64 = ino.size / (DIRENT_SIZE as u64);
            if count > usize::MAX as u64 {
                return Err(Error::Bounds("directory too large"));
            }
            let mut children: Vec<(Vec<u8>, SourceNode)> = Vec::new();
            let mut k: u64 = 0;
            while k < count
                invariant
                    k <= count,
                    count == ino.size / 16,
                    ino.size % 16 == 0,
                    depth <= DIR_DEPTH_MAX,
                    ino == spec_inode_at(img.contents(), off as int),
                    off + 32 <= img.contents().len(),
                    ino.inode_type == 0,
                    children@.len() == k,
                    forall|u: int|
                        0 <= u < k ==> tm_entry(
                            img.contents(),
                            ino,
                            children@[u].0@,
                            (#[trigger] children@[u]).1,
                            u,
                        ),
                decreases count - k,
            {
                let p = match extract_dir_entry(img, &ino, k, depth) {
                    Ok(p) => p,
                    Err(e) => {
                        return Err(e);
                    },
                };
                children.push(p);
                proof {
                    assert forall|u: int|
                        0 <= u < k + 1 implies tm_entry(
                        img.contents(),
                        ino,
                        children@[u].0@,
                        (#[trigger] children@[u]).1,
                        u,
                    ) by {
                        if u == k as int {
                            assert(tm_entry(img.contents(), ino, children@[u].0@, children@[u].1,
                                u));
                        }
                    }
                }
                k = k + 1;
            }
            proof {
                reveal(tree_matches);
                assert(ino.size == 16 * (ino.size / 16)) by (nonlinear_arith)
                    requires
                        ino.size % 16 == 0,
                ;
                assert(tree_matches(img.contents(), off as int, SourceNode::Directory(
                    children,
                )));
            }
            Ok(SourceNode::Directory(children))
        },
    }
}

} // verus!
