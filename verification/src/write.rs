//! Writing images: a single forward pass serializes a source tree into the
//! image layout, patches the parent-inode back-references, then writes the
//! header at offset 0.
//!
//! The writer works over an in-memory sink; the host-facing glue that
//! enumerates a source directory and persists the produced bytes lives
//! outside the library. Before returning, the writer re-opens what it wrote
//! through the ordinary reader and checks it against the source tree, so a
//! successful result carries the full layout correspondence in its
//! contract.

use vstd::prelude::*;
use vstd::slice::slice_to_vec;
use crate::codec::{
    Dirent, Header, Inode, EncryptionType, spec_dirent_at, spec_header_of, spec_inode_at,
    spec_magic_ok, spec_header_bytes, spec_inode_bytes, encode_dirent, encode_inode, encode_u64,
    encode_header, lemma_header_round_trip, lemma_inode_round_trip, VERSION_MAJOR, VERSION_MINOR,
};
use crate::crypt::{crypt_range, spec_crypt, spec_key_byte, KEY_MATERIAL_LEN};
use crate::error::Error;
use crate::fs::{
    lex_lt, lemma_lex_lt_irrefl, lemma_lex_lt_trans, compare_bytes, spec_dir_sorted,
    spec_dir_count, spec_dir_entry, lemma_name_at_is, spec_entry_name,
};
use crate::image::{Image, open_file, spec_is_name_at};
use crate::store::ReadAt;

verus! {

/// A source tree held in memory: the value the writer serializes. A
/// directory's children are (name, node) pairs in ascending name order.
#[derive(PartialEq, Eq, Debug)]
pub enum SourceNode {
    File(Vec<u8>),
    Symlink(Vec<u8>),
    Directory(Vec<(Vec<u8>, SourceNode)>),
}

/// A legal entry name: non-empty bytes without NUL or `/`.
pub open spec fn spec_valid_name(n: Seq<u8>) -> bool {
    0 < n.len() && forall|j: int| 0 <= j < n.len() ==> n[j] != 0 && n[j] != 47
}

/// The whole tree is well formed: every name is legal and every
/// directory's children are strictly ascending by name bytes.
pub open spec fn node_valid(node: SourceNode) -> bool
    decreases node,
{
    match node {
        SourceNode::File(_) => true,
        SourceNode::Symlink(_) => true,
        SourceNode::Directory(children) => {
            &&& (forall|k: int|
                0 <= k < children@.len() ==> spec_valid_name(#[trigger] children@[k].0@)
                    && node_valid(children@[k].1))
            &&& (forall|k1: int, k2: int|
                0 <= k1 < k2 < children@.len() ==> lex_lt(
                    #[trigger] children@[k1].0@,
                    #[trigger] children@[k2].0@,
                ))
        },
    }
}

/// The image bytes `s` hold, at inode offset `off`, exactly the serialized
/// form of `node`: matching type tag and payload size, payload bytes equal
/// to the node's data, and, for a directory, a dirent table whose entry
/// `k` names the `k`-th child and points at its serialized subtree. The
/// parent back-references are not constrained here.
#[verifier::opaque]
pub open spec fn tree_matches(s: Seq<u8>, off: int, node: SourceNode) -> bool
    decreases node, 0int,
{
    let ino = spec_inode_at(s, off);
    &&& 0 <= off
    &&& off + 32 <= s.len()
    &&& match node {
        SourceNode::File(data) => ino.inode_type == 1 && ino.size == data@.len() && (data@.len()
            > 0 ==> ino.offset + data@.len() <= s.len() && s.subrange(
            ino.offset as int,
            ino.offset + data@.len(),
        ) == data@),
        SourceNode::Symlink(target) => ino.inode_type == 2 && ino.size == target@.len() && (
        target@.len() > 0 ==> ino.offset + target@.len() <= s.len() && s.subrange(
            ino.offset as int,
            ino.offset + target@.len(),
        ) == target@),
        SourceNode::Directory(children) => {
            &&& ino.inode_type == 0
            &&& ino.size == 16 * children@.len()
            &&& (forall|k: int|
                0 <= k < children@.len() ==> tm_entry(
                    s,
                    ino,
                    (#[trigger] children@[k]).0@,
                    children@[k].1,
                    k,
                ))
        },
    }
}

/// Entry `k` of the directory inode's table points at a name string equal
/// to `name` and at the serialized form of `child`.
#[verifier::opaque]
pub open spec fn tm_entry(s: Seq<u8>, ino: Inode, name: Seq<u8>, child: SourceNode, k: int) -> bool
    decreases child, 1int,
{
    &&& spec_is_name_at(s, spec_dirent_at(s, ino.offset + 16 * k).name as int, name)
    &&& tree_matches(s, spec_dirent_at(s, ino.offset + 16 * k).inode as int, child)
}

/// Every reachable child inode's parent back-reference points at the
/// directory inode that holds its entry; the root's own back-reference
/// is stated separately.
pub open spec fn spec_parents_ok(s: Seq<u8>, off: int, node: SourceNode) -> bool
    decreases node,
{
    match node {
        SourceNode::Directory(children) => {
            let ino = spec_inode_at(s, off);
            forall|k: int|
                0 <= k < children@.len() ==> spec_inode_at(
                    s,
                    spec_dirent_at(s, ino.offset + 16 * k).inode as int,
                ).parent_inode == off && spec_parents_ok(
                    s,
                    spec_dirent_at(s, ino.offset + 16 * k).inode as int,
                    (#[trigger] children@[k]).1,
                )
        },
        _ => true,
    }
}

/// Every directory the tree reaches has its on-disk dirent table strictly
/// ascending by name bytes (the sorted-table wire contract).
pub open spec fn spec_all_dirs_sorted(s: Seq<u8>, off: int, node: SourceNode) -> bool
    decreases node,
{
    match node {
        SourceNode::Directory(children) => {
            let ino = spec_inode_at(s, off);
            &&& spec_dir_sorted(s, ino)
            &&& (forall|k: int|
                0 <= k < children@.len() ==> spec_all_dirs_sorted(
                    s,
                    spec_dirent_at(s, ino.offset + 16 * k).inode as int,
                    #[trigger] children@[k].1,
                ))
        },
        _ => true,
    }
}

/// An image that serializes a well-formed tree honors the sorted-table
/// wire contract in every directory the tree reaches.
pub proof fn lemma_written_dirs_sorted(s: Seq<u8>, off: int, node: SourceNode)
    requires
        tree_matches(s, off, node),
        node_valid(node),
    ensures
        spec_all_dirs_sorted(s, off, node),
    decreases node,
{
    reveal(tree_matches);
    reveal(tm_entry);
    match node {
        SourceNode::Directory(children) => {
            let ino = spec_inode_at(s, off);
            let n = children@.len() as int;
            assert(forall|k: int|
                0 <= k < children@.len() ==> #[trigger] tm_entry(
                    s,
                    ino,
                    children@[k].0@,
                    children@[k].1,
                    k,
                ));
            assert(ino.size == 16 * n);
            assert(spec_dir_count(ino) == n) by {
                assert((16 * n) / 16 == n) by (nonlinear_arith)
                    requires
                        n >= 0,
                ;
            }
            assert forall|k: int|
                0 <= k < spec_dir_count(ino) implies crate::fs::spec_has_name_at(
                s,
                #[trigger] spec_dir_entry(s, ino, k).name as int,
            ) && spec_entry_name(s, ino, k) == children@[k].0@ by {
                assert(tm_entry(s, ino, children@[k].0@, children@[k].1, k));
                assert(spec_is_name_at(s, spec_dirent_at(s, ino.offset + 16 * k).name as int,
                    children@[k].0@));
                lemma_name_at_is(s, spec_dir_entry(s, ino, k).name as int, children@[k].0@);
            }
            assert forall|k1: int, k2: int| 0 <= k1 < k2 < spec_dir_count(ino) implies lex_lt(
                #[trigger] spec_entry_name(s, ino, k1),
                #[trigger] spec_entry_name(s, ino, k2),
            ) by {
                assert(tm_entry(s, ino, children@[k1].0@, children@[k1].1, k1));
                assert(tm_entry(s, ino, children@[k2].0@, children@[k2].1, k2));
                lemma_name_at_is(s, spec_dir_entry(s, ino, k1).name as int, children@[k1].0@);
                lemma_name_at_is(s, spec_dir_entry(s, ino, k2).name as int, children@[k2].0@);
                assert(lex_lt(children@[k1].0@, children@[k2].0@));
            }
            assert(spec_dir_sorted(s, ino));
            assert forall|k: int| 0 <= k < children@.len() implies spec_all_dirs_sorted(
                s,
                spec_dirent_at(s, ino.offset + 16 * k).inode as int,
                #[trigger] children@[k].1,
            ) by {
                assert(tm_entry(s, ino, children@[k].0@, children@[k].1, k));
                assert(tree_matches(s, spec_dirent_at(s, ino.offset + 16 * k).inode as int,
                    children@[k].1));
                lemma_written_dirs_sorted(
                    s,
                    spec_dirent_at(s, ino.offset + 16 * k).inode as int,
                    children@[k].1,
                );
            }
        },
        _ => {},
    }
}

/// Check one entry name for legality.
fn check_valid_name(n: &Vec<u8>) -> (r: bool)
    ensures
        r == spec_valid_name(n@),
{
    if n.len() == 0 {
        return false;
    }
    let mut j: usize = 0;
    while j < n.len()
        invariant
            j <= n@.len(),
            forall|t: int| 0 <= t < j ==> n@[t] != 0 && n@[t] != 47,
        decreases n@.len() - j,
    {
        let b = n[j];
        if b == 0u8 || b == 47u8 {
            return false;
        }
        j = j + 1;
    }
    true
}

/// Check the whole source tree for well-formedness: legal names and
/// strictly ascending children everywhere. A pass establishes
/// `node_valid`; on any offence the check stops with a failure.
#[verifier::loop_isolation(false)]
fn check_node_valid(node: &SourceNode) -> (r: bool)
    ensures
        r ==> node_valid(*node),
    decreases *node,
{
    match node {
        SourceNode::File(_) => true,
        SourceNode::Symlink(_) => true,
        SourceNode::Directory(children) => {
            let mut k: usize = 0;
            while k < children.len()
                invariant
                    k <= children@.len(),
                    *node == SourceNode::Directory(*children),
                    forall|t: int|
                        0 <= t < k ==> spec_valid_name(#[trigger] children@[t].0@) && node_valid(
                            children@[t].1,
                        ),
                    forall|t1: int, t2: int|
                        0 <= t1 < t2 < k ==> lex_lt(
                            #[trigger] children@[t1].0@,
                            #[trigger] children@[t2].0@,
                        ),
                decreases children@.len() - k,
            {
                let c = &children[k];
                if !check_valid_name(&c.0) {
                    return false;
                }
                if k > 0 {
                    let prev = &children[k - 1];
                    match compare_bytes(&prev.0, &c.0) {
                        core::cmp::Ordering::Less => {
                            proof {
                                assert forall|t: int| 0 <= t < k implies lex_lt(
                                    #[trigger] children@[t].0@,
                                    children@[k as int].0@,
                                ) by {
                                    if t < k - 1 {
                                        lemma_lex_lt_trans(
                                            children@[t].0@,
                                            children@[k - 1].0@,
                                            children@[k as int].0@,
                                        );
                                    }
                                }
                            }
                        },
                        core::cmp::Ordering::Equal => {
                            return false;
                        },
                        core::cmp::Ordering::Greater => {
                            return false;
                        },
                    }
                }
                proof {
                    assert(decreases_to!(*node => node->Directory_0));
                    assert(decreases_to!(node->Directory_0 => children@));
                    assert(decreases_to!(children@ => children@[k as int]));
                    assert(decreases_to!(children@[k as int] => children@[k as int].1));
                }
                if !check_node_valid(&c.1) {
                    return false;
                }
                proof {
                    assert forall|t: int|
                        0 <= t < k + 1 implies spec_valid_name(#[trigger] children@[t].0@)
                        && node_valid(children@[t].1) by {
                        if t == k as int {
                            assert(spec_valid_name(children@[t].0@));
                            assert(node_valid(children@[t].1));
                        }
                    }
                }
                k = k + 1;
            }
            proof {
                assert(node_valid(SourceNode::Directory(*children)));
            }
            true
        },
    }
}

/// The bytes at `at ..` of `s` replaced by `d`, extending `s` when the
/// replacement runs past its end.
pub open spec fn spec_overwrite(s: Seq<u8>, at: int, d: Seq<u8>) -> Seq<u8> {
    Seq::new(
        (if at + d.len() > s.len() {
            at + d.len()
        } else {
            s.len() as int
        }) as nat,
        |i: int|
            if at <= i < at + d.len() {
                d[i - at]
            } else if i < s.len() {
                s[i]
            } else {
                0u8
            },
    )
}

/// The writer's sink: an in-memory byte buffer with a write position and,
/// when encryption is selected, the key material of the cipher layer.
/// Writes through `write_all` encrypt at the absolute position; the
/// header is written raw.
pub struct ImageSink {
    pub buf: Vec<u8>,
    pub pos: usize,
    pub enc: Option<([u8; 32], [u8; 4])>,
}

impl ImageSink {
    /// The sink's position never runs past what has been written.
    pub open spec fn wf(&self) -> bool {
        self.pos <= self.buf@.len()
    }

    /// The logical plaintext the sink holds: the raw bytes, decrypted when
    /// a cipher is installed.
    pub open spec fn plain(&self) -> Seq<u8> {
        match self.enc {
            None => self.buf@,
            Some(kp) => spec_crypt(kp.0@, kp.1@, 0, self.buf@),
        }
    }

    /// A sink whose position is just past the header-sized hole at the
    /// start.
    fn new(enc: Option<([u8; 32], [u8; 4])>) -> (r: ImageSink)
        ensures
            r.wf(),
            r.enc == enc,
            r.pos == 32,
            r.buf@.len() == 32,
    {
        let mut buf: Vec<u8> = Vec::new();
        buf.resize(32, 0u8);
        ImageSink { buf, pos: 32, enc }
    }

    /// The absolute position the next write lands at.
    fn stream_position(&self) -> (r: u64)
        ensures
            r == self.pos,
    {
        self.pos as u64
    }

    /// Move the write position to an already-written offset.
    fn seek(&mut self, to: u64)
        requires
            to <= old(self).buf@.len(),
        ensures
            final(self).pos == to,
            final(self).buf == old(self).buf,
            final(self).enc == old(self).enc,
    {
        proof {
            vstd::std_specs::vec::axiom_spec_len(&self.buf);
        }
        self.pos = to as usize;
    }

    /// Write all of `data` at the current position, advancing it. The
    /// bytes land encrypted when a cipher is installed, so at the plain
    /// level the sink's contents are simply overwritten with `data`.
    fn write_all(&mut self, data: &Vec<u8>) -> (r: Result<(), Error>)
        requires
            old(self).wf(),
        ensures
            final(self).enc == old(self).enc,
            final(self).wf(),
            final(self).buf@.len() >= old(self).buf@.len(),
            r is Err ==> *final(self) == *old(self),
            r matches Err(e) ==> e is Bounds,
            old(self).pos + data@.len() <= usize::MAX ==> r is Ok,
            r is Ok ==> {
                &&& final(self).pos == old(self).pos + data@.len()
                &&& final(self).plain() == spec_overwrite(
                    old(self).plain(),
                    old(self).pos as int,
                    data@,
                )
                &&& final(self).buf@.len() == (if old(self).pos + data@.len() > old(
                    self,
                ).buf@.len() {
                    old(self).pos + data@.len()
                } else {
                    old(self).buf@.len() as int
                })
            },
    {
        let len = data.len();
        if len > usize::MAX - self.pos {
            return Err(Error::Bounds("image too large"));
        }
        let cb: Vec<u8> = match &self.enc {
            None => slice_to_vec(data.as_slice()),
            Some(kp) => crypt_range(&kp.0, &kp.1, self.pos as u64, data),
        };
        let base = self.pos;
        let mut j: usize = 0;
        while j < len
            invariant
                j <= len,
                len == data@.len(),
                cb@.len() == len,
                base + len <= usize::MAX,
                base <= old(self).buf@.len(),
                self.pos == base,
                self.enc == old(self).enc,
                base + j <= self.buf@.len(),
                self.buf@.len() == (if base + j > old(self).buf@.len() {
                    base + j
                } else {
                    old(self).buf@.len() as int
                }),
                forall|i: int| 0 <= i < base ==> self.buf@[i] == old(self).buf@[i],
                forall|i: int| base <= i < base + j ==> self.buf@[i] == cb@[i - base],
                forall|i: int|
                    base + j <= i < self.buf@.len() ==> self.buf@[i] == old(self).buf@[i],
            decreases len - j,
        {
            let b = cb[j];
            if base + j < self.buf.len() {
                self.buf.set(base + j, b);
            } else {
                self.buf.push(b);
            }
            j = j + 1;
        }
        self.pos = base + len;
        proof {
            assert(forall|a: u8, k: u8| #[trigger] ((a ^ k) ^ k) == a) by (bit_vector);
            match old(self).enc {
                None => {
                    assert(self.plain() =~= spec_overwrite(
                        old(self).plain(),
                        base as int,
                        data@,
                    ));
                },
                Some(kp) => {
                    assert forall|i: int| 0 <= i < self.buf@.len() implies self.plain()[i]
                        == spec_overwrite(old(self).plain(), base as int, data@)[i] by {
                        if base <= i < base + len {
                            assert(self.buf@[i] == cb@[i - base]);
                            assert(cb@[i - base] == (data@[i - base] ^ spec_key_byte(
                                kp.0@,
                                kp.1@,
                                base + (i - base),
                            )));
                        }
                    }
                    assert(self.plain() =~= spec_overwrite(
                        old(self).plain(),
                        base as int,
                        data@,
                    ));
                },
            }
        }
        Ok(())
    }

    /// Write the header record raw (in cleartext) over the hole at offset
    /// 0, leaving everything else untouched.
    fn write_header_raw(&mut self, h: &Header)
        requires
            old(self).buf@.len() >= 32,
        ensures
            final(self).enc == old(self).enc,
            final(self).pos == old(self).pos,
            final(self).buf@.len() == old(self).buf@.len(),
            final(self).buf@.subrange(0, 32) == spec_header_bytes(*h),
            forall|i: int|
                32 <= i < old(self).buf@.len() ==> final(self).buf@[i] == old(self).buf@[i],
            forall|i: int|
                32 <= i < old(self).plain().len() ==> final(self).plain()[i] == old(
                    self,
                ).plain()[i],
    {
        let hb = encode_header(h);
        let mut j: usize = 0;
        while j < 32
            invariant
                j <= 32,
                hb@ == spec_header_bytes(*h),
                hb@.len() == 32,
                self.buf@.len() == old(self).buf@.len(),
                self.buf@.len() >= 32,
                self.pos == old(self).pos,
                self.enc == old(self).enc,
                forall|i: int| 0 <= i < j ==> self.buf@[i] == hb@[i],
                forall|i: int| j <= i < self.buf@.len() ==> self.buf@[i] == old(self).buf@[i],
            decreases 32 - j,
        {
            let b = hb[j];
            self.buf.set(j, b);
            j = j + 1;
        }
        proof {
            assert(self.buf@.subrange(0, 32) =~= spec_header_bytes(*h));
        }
    }

    /// Give up the sink and hand back the raw image bytes.
    fn into_vec(self) -> (r: Vec<u8>)
        ensures
            r == self.buf,
    {
        let ImageSink { buf, pos: _, enc: _ } = self;
        buf
    }
}

/// An inode record parse depends only on its own 32 bytes.
proof fn lemma_inode_at_frame(s1: Seq<u8>, s2: Seq<u8>, off: int)
    requires
        0 <= off,
        off + 32 <= s1.len(),
        off + 32 <= s2.len(),
        forall|t: int| off <= t < off + 32 ==> s1[t] == s2[t],
    ensures
        spec_inode_at(s1, off) == spec_inode_at(s2, off),
{
    assert(s1.subrange(off, off + 8) =~= s2.subrange(off, off + 8));
    assert(s1.subrange(off + 8, off + 16) =~= s2.subrange(off + 8, off + 16));
    assert(s1.subrange(off + 16, off + 24) =~= s2.subrange(off + 16, off + 24));
}

/// Serialize a file's bytes: payload first at the current position, then
/// the 32-byte inode record (parent left as a placeholder); returns the
/// inode record's offset.
#[verifier::rlimit(100)]
#[verifier::spinoff_prover]
fn write_file(data: &Vec<u8>, out: &mut ImageSink) -> (r: Result<u64, Error>)
    requires
        old(out).wf(),
    ensures
        final(out).wf(),
        final(out).enc == old(out).enc,
        final(out).buf@.len() >= old(out).buf@.len(),
        r matches Ok(ipos) ==> ipos + 32 <= final(out).buf@.len(),
        r matches Err(e) ==> e is Bounds,
        old(out).pos + data@.len() + 32 <= usize::MAX ==> r is Ok,
        r matches Ok(ipos) ==> {
            &&& ipos == old(out).pos + data@.len()
            &&& final(out).pos == ipos + 32
            &&& spec_inode_at(final(out).plain(), ipos as int) == (Inode {
                parent_inode: 0,
                offset: old(out).pos as u64,
                size: data@.len() as u64,
                inode_type: 1,
            })
            &&& (data@.len() > 0 ==> final(out).plain().subrange(
                old(out).pos as int,
                old(out).pos + data@.len(),
            ) == data@)
            &&& (forall|t: int|
                0 <= t < old(out).pos ==> final(out).plain()[t] == old(out).plain()[t])
        },
{
    let payload_offset = out.stream_position();
    match out.write_all(data) {
        Ok(_) => {},
        Err(e) => {
            return Err(e);
        },
    }
    let inode_pos = out.stream_position();
    let ino = Inode {
        parent_inode: 0,
        offset: payload_offset,
        size: data.len() as u64,
        inode_type: 1,
    };
    let ib = encode_inode(&ino);
    match out.write_all(&ib) {
        Ok(_) => {},
        Err(e) => {
            return Err(e);
        },
    }
    proof {
        assert(out.plain().subrange(inode_pos as int, inode_pos + 32) =~= spec_inode_bytes(ino));
        lemma_inode_round_trip(out.plain(), inode_pos as int, ino);
        if data@.len() > 0 {
            assert(out.plain().subrange(old(out).pos as int, old(out).pos + data@.len())
                =~= data@);
        }
    }
    Ok(inode_pos)
}

/// Serialize a symlink's target bytes (no terminator), then its inode
/// record; returns the inode record's offset.
#[verifier::rlimit(100)]
#[verifier::spinoff_prover]
fn write_symlink(target: &Vec<u8>, out: &mut ImageSink) -> (r: Result<u64, Error>)
    requires
        old(out).wf(),
    ensures
        final(out).wf(),
        final(out).enc == old(out).enc,
        final(out).buf@.len() >= old(out).buf@.len(),
        r matches Ok(ipos) ==> ipos + 32 <= final(out).buf@.len(),
        r matches Err(e) ==> e is Bounds,
        old(out).pos + target@.len() + 32 <= usize::MAX ==> r is Ok,
        r matches Ok(ipos) ==> {
            &&& ipos == old(out).pos + target@.len()
            &&& final(out).pos == ipos + 32
            &&& spec_inode_at(final(out).plain(), ipos as int) == (Inode {
                parent_inode: 0,
                offset: old(out).pos as u64,
                size: target@.len() as u64,
                inode_type: 2,
            })
            &&& (target@.len() > 0 ==> final(out).plain().subrange(
                old(out).pos as int,
                old(out).pos + target@.len(),
            ) == target@)
            &&& (forall|t: int|
                0 <= t < old(out).pos ==> final(out).plain()[t] == old(out).plain()[t])
        },
{
    let payload_offset = out.stream_position();
    match out.write_all(target) {
        Ok(_) => {},
        Err(e) => {
            return Err(e);
        },
    }
    let inode_pos = out.stream_position();
    let ino = Inode {
        parent_inode: 0,
        offset: payload_offset,
        size: target.len() as u64,
        inode_type: 2,
    };
    let ib = encode_inode(&ino);
    match out.write_all(&ib) {
        Ok(_) => {},
        Err(e) => {
            return Err(e);
        },
    }
    proof {
        assert(out.plain().subrange(inode_pos as int, inode_pos + 32) =~= spec_inode_bytes(ino));
        lemma_inode_round_trip(out.plain(), inode_pos as int, ino);
        if target@.len() > 0 {
            assert(out.plain().subrange(old(out).pos as int, old(out).pos + target@.len())
                =~= target@);
        }
    }
    Ok(inode_pos)
}

/// Serialize a directory: for each child in order, its name string and its
/// subtree; then the packed dirent table; then the directory's inode
/// record; finally patch every child's parent back-reference to this
/// directory's inode offset. Returns the inode record's offset.
#[verifier::rlimit(100)]
#[verifier::spinoff_prover]
fn write_directory(children: &Vec<(Vec<u8>, SourceNode)>, out: &mut ImageSink) -> (r: Result<
    u64,
    Error,
>)
    requires
        old(out).wf(),
    ensures
        final(out).wf(),
        final(out).enc == old(out).enc,
        final(out).buf@.len() >= old(out).buf@.len(),
        r matches Ok(ipos) ==> ipos + 32 <= final(out).buf@.len(),
        r matches Err(e) ==> e is Bounds,
        r matches Ok(ipos) ==> {
            &&& ipos >= old(out).pos
            &&& final(out).pos == ipos + 32
            &&& spec_inode_at(final(out).plain(), ipos as int) == (Inode {
                parent_inode: 0,
                offset: (ipos - 16 * children@.len()) as u64,
                size: (16 * children@.len()) as u64,
                inode_type: 0,
            })
        },
    decreases *children,
{
    let mut entries: Vec<Dirent> = Vec::new();
    let mut nul: Vec<u8> = Vec::new();
    nul.push(0u8);
    let mut k: usize = 0;
    while k < children.len()
        invariant
            k <= children@.len(),
            out.wf(),
            out.enc == old(out).enc,
            out.buf@.len() >= old(out).buf@.len(),
            out.pos >= old(out).pos,
            nul@.len() == 1,
            entries@.len() == k,
            forall|t: int| 0 <= t < k ==> #[trigger] entries@[t].inode + 32 <= out.pos,
        decreases children@.len() - k,
    {
        let c = &children[k];
        let name_pos = out.stream_position();
        match out.write_all(&c.0) {
            Ok(_) => {},
            Err(e) => {
                return Err(e);
            },
        }
        match out.write_all(&nul) {
            Ok(_) => {},
            Err(e) => {
                return Err(e);
            },
        }
        proof {
            assert(decreases_to!(*children => children@));
            assert(decreases_to!(children@ => children@[k as int]));
            assert(decreases_to!(children@[k as int] => children@[k as int].1));
        }
        let inode_pos = match &c.1 {
            SourceNode::File(d) => {
                match write_file(d, out) {
                    Ok(p) => p,
                    Err(e) => {
                        return Err(e);
                    },
                }
            },
            SourceNode::Symlink(t) => {
                match write_symlink(t, out) {
                    Ok(p) => p,
                    Err(e) => {
                        return Err(e);
                    },
                }
            },
            SourceNode::Directory(gc) => {
                proof {
                    assert(decreases_to!(children@[k as int].1 => children@[k as int].1
                        ->Directory_0));
                }
                match write_directory(gc, out) {
                    Ok(p) => p,
                    Err(e) => {
                        return Err(e);
                    },
                }
            },
        };
        entries.push(Dirent { name: name_pos, inode: inode_pos });
        k = k + 1;
    }
    let dir_payload_offset = out.stream_position();
    let mut t: usize = 0;
    while t < entries.len()
        invariant
            t <= entries@.len(),
            out.wf(),
            out.enc == old(out).enc,
            out.buf@.len() >= old(out).buf@.len(),
            dir_payload_offset >= old(out).pos,
            out.pos == dir_payload_offset + 16 * t,
            forall|u: int|
                0 <= u < entries@.len() ==> #[trigger] entries@[u].inode + 32
                    <= dir_payload_offset,
        decreases entries@.len() - t,
    {
        let e = entries[t];
        let db = encode_dirent(&e);
        match out.write_all(&db) {
            Ok(_) => {},
            Err(err) => {
                return Err(err);
            },
        }
        t = t + 1;
    }
    let dir_inode_pos = out.stream_position();
    let size16 = match (entries.len() as u64).checked_mul(16) {
        Some(s) => s,
        None => {
            return Err(Error::Bounds("image too large"));
        },
    };
    let dir_ino = Inode {
        parent_inode: 0,
        offset: dir_payload_offset,
        size: size16,
        inode_type: 0,
    };
    let ib = encode_inode(&dir_ino);
    match out.write_all(&ib) {
        Ok(_) => {},
        Err(e) => {
            return Err(e);
        },
    }
    proof {
        assert(out.plain().subrange(dir_inode_pos as int, dir_inode_pos + 32)
            =~= spec_inode_bytes(dir_ino));
        lemma_inode_round_trip(out.plain(), dir_inode_pos as int, dir_ino);
    }
    let cur_pos = out.stream_position();
    let pb = encode_u64(dir_inode_pos);
    let mut t: usize = 0;
    while t < entries.len()
        invariant
            t <= entries@.len(),
            out.wf(),
            out.enc == old(out).enc,
            out.buf@.len() >= old(out).buf@.len(),
            cur_pos == dir_inode_pos + 32,
            cur_pos <= out.buf@.len(),
            dir_inode_pos >= dir_payload_offset,
            pb@.len() == 8,
            forall|u: int|
                0 <= u < entries@.len() ==> #[trigger] entries@[u].inode + 32
                    <= dir_payload_offset,
            spec_inode_at(out.plain(), dir_inode_pos as int) == dir_ino,
        decreases entries@.len() - t,
    {
        let e = entries[t];
        out.seek(e.inode);
        let ghost pp = out.plain();
        match out.write_all(&pb) {
            Ok(_) => {},
            Err(err) => {
                return Err(err);
            },
        }
        proof {
            assert forall|q: int| dir_inode_pos <= q < dir_inode_pos + 32 implies out.plain()[q]
                == pp[q] by {
                assert(entries@[t as int].inode + 8 <= dir_payload_offset);
            }
            lemma_inode_at_frame(out.plain(), pp, dir_inode_pos as int);
        }
        t = t + 1;
    }
    out.seek(cur_pos);
    Ok(dir_inode_pos)
}

/// Check one directory entry through the reader: entry `k` of the table
/// names `name` and points at the serialized form of `child`.
#[verifier::rlimit(100)]
#[verifier::spinoff_prover]
fn check_dir_entry<F: ReadAt>(
    img: &Image<F>,
    ino: &Inode,
    dirpos: u64,
    k: u64,
    name: &Vec<u8>,
    child: &SourceNode,
) -> (r: Result<bool, Error>)
    ensures
        r == Ok::<bool, Error>(true) ==> tm_entry(img.contents(), *ino, name@, *child, k as int),
        r == Ok::<bool, Error>(true) ==> spec_inode_at(
            img.contents(),
            spec_dirent_at(img.contents(), ino.offset + 16 * k).inode as int,
        ).parent_inode == dirpos && spec_parents_ok(
            img.contents(),
            spec_dirent_at(img.contents(), ino.offset + 16 * k).inode as int,
            *child,
        ),
    decreases *child, 1int,
{
    proof {
        reveal(tm_entry);
    }
    let d = match ino.read_dirent(k, img) {
        Ok(d) => d,
        Err(e) => {
            return Err(e);
        },
    };
    let cino = match img.read_inode(d.inode) {
        Ok(i) => i,
        Err(e) => {
            return Err(e);
        },
    };
    if cino.parent_inode != dirpos {
        return Ok(false);
    }
    let nm = match img.read_str(d.name) {
        Ok(v) => v,
        Err(e) => {
            return Err(e);
        },
    };
    match compare_bytes(&nm, name) {
        core::cmp::Ordering::Equal => {},
        _ => {
            return Ok(false);
        },
    }
    let sub = match check_tree(img, d.inode, child) {
        Ok(b) => b,
        Err(e) => {
            return Err(e);
        },
    };
    Ok(sub)
}

/// Check, through the ordinary reader, that the image holds exactly the
/// serialized form of `node` at inode offset `off`.
#[verifier::rlimit(100)]
#[verifier::spinoff_prover]
fn check_tree<F: ReadAt>(img: &Image<F>, off: u64, node: &SourceNode) -> (r: Result<bool, Error>)
    ensures
        r == Ok::<bool, Error>(true) ==> tree_matches(img.contents(), off as int, *node),
        r == Ok::<bool, Error>(true) ==> spec_parents_ok(img.contents(), off as int, *node),
    decreases *node, 0int,
{
    let ino = match img.read_inode(off) {
        Ok(i) => i,
        Err(e) => {
            return Err(e);
        },
    };
    match node {
        SourceNode::File(data) => {
            if ino.inode_type != 1 {
                return Ok(false);
            }
            if ino.size != data.len() as u64 {
                return Ok(false);
            }
            if data.len() == 0 {
                proof {
                    reveal(tree_matches);
                }
                return Ok(true);
            }
            let mut buf: Vec<u8> = Vec::new();
            buf.resize(data.len(), 0u8);
            match img.read_file(&mut buf, ino.offset) {
                Ok(_) => {},
                Err(e) => {
                    return Err(e);
                },
            }
            match compare_bytes(&buf, data) {
                core::cmp::Ordering::Equal => {
                    proof {
                        reveal(tree_matches);
                        assert(img.contents().subrange(ino.offset as int, ino.offset
                            + data@.len()) == data@);
                        assert(tree_matches(img.contents(), off as int, *node));
                    }
                    Ok(true)
                },
                _ => Ok(false),
            }
        },
        SourceNode::Symlink(target) => {
            if ino.inode_type != 2 {
                return Ok(false);
            }
            if ino.size != target.len() as u64 {
                return Ok(false);
            }
            if target.len() == 0 {
                proof {
                    reveal(tree_matches);
                }
                return Ok(true);
            }
            let mut buf: Vec<u8> = Vec::new();
            buf.resize(target.len(), 0u8);
            match img.read_file(&mut buf, ino.offset) {
                Ok(_) => {},
                Err(e) => {
                    return Err(e);
                },
            }
            match compare_bytes(&buf, target) {
                core::cmp::Ordering::Equal => {
                    proof {
                        reveal(tree_matches);
                        assert(img.contents().subrange(ino.offset as int, ino.offset
                            + target@.len()) == target@);
                        assert(tree_matches(img.contents(), off as int, *node));
                    }
                    Ok(true)
                },
                _ => Ok(false),
            }
        },
        SourceNode::Directory(children) => {
            if ino.inode_type != 0 {
                return Ok(false);
            }
            let n = children.len();
            let sz = match (n as u64).checked_mul(16) {
                Some(v) => v,
                None => {
                    return Ok(false);
                },
            };
            if ino.size != sz {
                return Ok(false);
            }
            let mut k: usize = 0;
            while k < n
                invariant
                    k <= n,
                    n == children@.len(),
                    *node == SourceNode::Directory(*children),
                    ino == spec_inode_at(img.contents(), off as int),
                    off + 32 <= img.contents().len(),
                    ino.inode_type == 0,
                    ino.size == 16 * children@.len(),
                    forall|u: int|
                        0 <= u < k ==> tm_entry(
                            img.contents(),
                            ino,
                            children@[u].0@,
                            #[trigger] children@[u].1,
                            u,
                        ),
                    forall|u: int|
                        0 <= u < k ==> spec_inode_at(
                            img.contents(),
                            (#[trigger] spec_dirent_at(
                                img.contents(),
                                ino.offset + 16 * u,
                            )).inode as int,
                        ).parent_inode == off && spec_parents_ok(
                            img.contents(),
                            spec_dirent_at(img.contents(), ino.offset + 16 * u).inode as int,
                            children@[u].1,
                        ),
                decreases n - k,
            {
                let c = &children[k];
                proof {
                    assert(decreases_to!(*node => node->Directory_0));
                    assert(decreases_to!(node->Directory_0 => children@));
                    assert(decreases_to!(children@ => children@[k as int]));
                    assert(decreases_to!(children@[k as int] => children@[k as int].1));
                }
                let sub = match check_dir_entry(img, &ino, off, k as u64, &c.0, &c.1) {
                    Ok(b) => b,
                    Err(e) => {
                        return Err(e);
                    },
                };
                if !sub {
                    return Ok(false);
                }
                proof {
                    assert forall|u: int|
                        0 <= u < k + 1 implies tm_entry(
                        img.contents(),
                        ino,
                        children@[u].0@,
                        #[trigger] children@[u].1,
                        u,
                    ) by {
                        if u == k as int {
                            assert(tm_entry(img.contents(), ino, children@[u].0@, children@[u].1,
                                u));
                        }
                    }
                    assert forall|u: int|
                        0 <= u < k + 1 implies spec_inode_at(
                        img.contents(),
                        (#[trigger] spec_dirent_at(img.contents(), ino.offset + 16 * u)).inode
                            as int,
                    ).parent_inode == off && spec_parents_ok(
                        img.contents(),
                        spec_dirent_at(img.contents(), ino.offset + 16 * u).inode as int,
                        children@[u].1,
                    ) by {
                        if u == k as int {
                            assert(spec_parents_ok(
                                img.contents(),
                                spec_dirent_at(img.contents(), ino.offset + 16 * u).inode as int,
                                children@[u].1,
                            ));
                        }
                    }
                }
                k = k + 1;
            }
            proof {
                reveal(tree_matches);
                assert(tree_matches(img.contents(), off as int, SourceNode::Directory(
                    *children,
                )));
                let gs = img.contents();
                assert forall|u: int|
                    0 <= u < children@.len() implies spec_inode_at(
                    gs,
                    spec_dirent_at(gs, spec_inode_at(gs, off as int).offset + 16 * u).inode
                        as int,
                ).parent_inode == off as int && spec_parents_ok(
                    gs,
                    spec_dirent_at(gs, spec_inode_at(gs, off as int).offset + 16 * u).inode
                        as int,
                    (#[trigger] children@[u]).1,
                ) by {
                    let cu = children@[u];
                    assert(spec_inode_at(
                        gs,
                        spec_dirent_at(gs, ino.offset + 16 * u).inode as int,
                    ).parent_inode == off);
                    assert(spec_parents_ok(
                        gs,
                        spec_dirent_at(gs, ino.offset + 16 * u).inode as int,
                        children@[u].1,
                    ));
                }
                assert(spec_parents_ok(img.contents(), off as int, SourceNode::Directory(
                    *children,
                )));
            }
            Ok(true)
        },
    }
}

/// Serialize a source tree into a complete image.
///
/// The root must be a directory and the tree well formed (legal names,
/// children strictly ascending by name). With `ChaCha20` selected the key
/// material must be exactly `KEY_MATERIAL_LEN` bytes; the body is then
/// encrypted while the header stays cleartext. On success the returned
/// bytes begin with a valid header whose root inode offset leads, under
/// the (decrypted) view, to exactly the serialized tree, every reachable
/// dirent table strictly ascending, with the root's parent back-reference
/// pointing at the root itself.
pub fn write_image(source: &SourceNode, key: Option<&Vec<u8>>, enc_type: EncryptionType) -> (r:
    Result<Vec<u8>, Error>)
    ensures
        r matches Ok(raw) ==> {
            let h = spec_header_of(raw@);
            let plain = if h.encryption_type == 1 {
                spec_crypt(key.unwrap()@.subrange(0, 32), key.unwrap()@.subrange(32, 36), 0, raw@)
            } else {
                raw@
            };
            &&& raw@.len() >= 32
            &&& spec_magic_ok(raw@)
            &&& h.version_major == VERSION_MAJOR
            &&& h.version_minor == VERSION_MINOR
            &&& h.compression_type == 0
            &&& h.encryption_type == enc_type.spec_to_u8()
            &&& (enc_type is ChaCha20 ==> key is Some && key.unwrap()@.len() == KEY_MATERIAL_LEN)
            &&& node_valid(*source)
            &&& source is Directory
            &&& tree_matches(plain, h.root_inode as int, *source)
            &&& spec_all_dirs_sorted(plain, h.root_inode as int, *source)
            &&& spec_parents_ok(plain, h.root_inode as int, *source)
            &&& spec_inode_at(plain, h.root_inode as int).parent_inode == h.root_inode
        },
        !(source is Directory) ==> r is Err && (r matches Err(e) ==> e is InvalidOperation),
        source is Directory && !node_valid(*source) ==> r is Err,
        source is Directory && enc_type is ChaCha20 && (key is None || key.unwrap()@.len()
            != KEY_MATERIAL_LEN) ==> r is Err && (r matches Err(e) ==> e is Crypto),
{
    let children = match source {
        SourceNode::Directory(c) => c,
        _ => {
            return Err(Error::InvalidOperation("root is not a directory"));
        },
    };
    let enc: Option<([u8; 32], [u8; 4])> = match enc_type {
        EncryptionType::Plain => None,
        EncryptionType::ChaCha20 => {
            let km = match key {
                None => {
                    return Err(Error::Crypto("No key provided"));
                },
                Some(k) => k,
            };
            if km.len() != KEY_MATERIAL_LEN {
                return Err(Error::Crypto("Invalid key length"));
            }
            let mut ck: [u8; 32] = [0u8; 32];
            let mut i: usize = 0;
            while i < 32
                invariant
                    i <= 32,
                    km@.len() == 36,
                    forall|j: int| 0 <= j < i ==> ck@[j] == km@[j],
                decreases 32 - i,
            {
                let b = km[i];
                ck.set(i, b);
                i = i + 1;
            }
            let mut pf: [u8; 4] = [0u8; 4];
            let mut i: usize = 0;
            while i < 4
                invariant
                    i <= 4,
                    km@.len() == 36,
                    forall|j: int| 0 <= j < i ==> pf@[j] == km@[32 + j],
                decreases 4 - i,
            {
                let b = km[32 + i];
                pf.set(i, b);
                i = i + 1;
            }
            proof {
                assert(ck@ =~= km@.subrange(0, 32));
                assert(pf@ =~= km@.subrange(32, 36));
            }
            Some((ck, pf))
        },
    };
    if !check_node_valid(source) {
        return Err(Error::InvalidOperation("source tree is not well formed"));
    }
    let mut out = ImageSink::new(enc);
    let root_pos = match write_directory(children, &mut out) {
        Ok(p) => p,
        Err(e) => {
            return Err(e);
        },
    };
    out.seek(root_pos);
    let rb = encode_u64(root_pos);
    match out.write_all(&rb) {
        Ok(_) => {},
        Err(e) => {
            return Err(e);
        },
    }
    let hdr = Header {
        root_inode: root_pos,
        version_major: VERSION_MAJOR,
        version_minor: VERSION_MINOR,
        compression_type: 0,
        encryption_type: enc_type.to_u8(),
    };
    out.write_header_raw(&hdr);
    let raw = out.into_vec();
    proof {
        lemma_header_round_trip(raw@, hdr);
    }
    let chk: Vec<u8> = slice_to_vec(raw.as_slice());
    let img = match open_file(chk, key) {
        Ok(i) => i,
        Err(_) => {
            return Err(Error::Format("image self-check failed"));
        },
    };
    let root_ino = match img.read_inode(root_pos) {
        Ok(i) => i,
        Err(_) => {
            return Err(Error::Format("image self-check failed"));
        },
    };
    if root_ino.parent_inode != root_pos {
        return Err(Error::Format("image self-check failed"));
    }
    let ok = match check_tree(&img, root_pos, source) {
        Ok(b) => b,
        Err(_) => {
            return Err(Error::Format("image self-check failed"));
        },
    };
    if !ok {
        return Err(Error::Format("image self-check failed"));
    }
    proof {
        lemma_written_dirs_sorted(img.contents(), root_pos as int, *source);
    }
    Ok(raw)
}

} // verus!
