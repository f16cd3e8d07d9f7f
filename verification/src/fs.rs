//! Filesystem view over an open image: typed handles for directories,
//! files and symlinks, directory-entry iteration, binary search of the
//! sorted dirent tables, and byte-string path resolution with bounded
//! symlink expansion.

use vstd::prelude::*;
use vstd::slice::{slice_subrange, slice_to_vec};
use crate::codec::{Dirent, Inode, InodeType, spec_dirent_at, spec_inode_at, DIRENT_SIZE};
use crate::error::Error;
use crate::image::{Image, open_file, spec_is_name_at, lemma_name_at_unique};
use crate::store::ReadAt;

verus! {

/// Deepest chain of symlink expansions the resolver will follow. Kept low
/// because expansion recurses and must not exhaust the stack.
pub const LINK_LOOP_MAX: u16 = 100;

/// Longest symlink target the library will read.
pub const LINK_TARGET_MAX: u64 = 1024;

/// Strict lexicographic order on byte strings: `a` comes before `b`.
pub open spec fn lex_lt(a: Seq<u8>, b: Seq<u8>) -> bool
    decreases a.len(),
{
    if b.len() == 0 {
        false
    } else if a.len() == 0 {
        true
    } else if a[0] < b[0] {
        true
    } else if a[0] > b[0] {
        false
    } else {
        lex_lt(a.skip(1), b.skip(1))
    }
}

/// No byte string comes before itself.
pub proof fn lemma_lex_lt_irrefl(a: Seq<u8>)
    ensures
        !lex_lt(a, a),
    decreases a.len(),
{
    if a.len() > 0 {
        lemma_lex_lt_irrefl(a.skip(1));
    }
}

/// Lexicographic order is transitive.
pub proof fn lemma_lex_lt_trans(a: Seq<u8>, b: Seq<u8>, c: Seq<u8>)
    requires
        lex_lt(a, b),
        lex_lt(b, c),
    ensures
        lex_lt(a, c),
    decreases a.len(),
{
    if a.len() == 0 {
    } else {
        if a[0] == b[0] && b[0] == c[0] {
            lemma_lex_lt_trans(a.skip(1), b.skip(1), c.skip(1));
        }
    }
}

/// Two ordered byte strings differ.
pub proof fn lemma_lex_lt_neq(a: Seq<u8>, b: Seq<u8>)
    requires
        lex_lt(a, b),
    ensures
        a != b,
{
    if a == b {
        lemma_lex_lt_irrefl(a);
    }
}

/// A difference at position `i`, after an equal prefix, orders the
/// strings; so does one string ending while the other goes on.
proof fn lemma_lex_lt_at(a: Seq<u8>, b: Seq<u8>, i: int)
    requires
        0 <= i <= a.len(),
        i <= b.len(),
        forall|j: int| 0 <= j < i ==> a[j] == b[j],
        (i < a.len() && i < b.len() && a[i] < b[i]) || (i == a.len() && i < b.len()),
    ensures
        lex_lt(a, b),
    decreases i,
{
    if i == 0 {
    } else {
        lemma_lex_lt_at(a.skip(1), b.skip(1), i - 1);
    }
}

/// Three-way comparison of byte strings in lexicographic order.
pub fn compare_bytes(a: &Vec<u8>, b: &Vec<u8>) -> (r: core::cmp::Ordering)
    ensures
        r == core::cmp::Ordering::Less ==> lex_lt(a@, b@),
        r == core::cmp::Ordering::Equal ==> a@ == b@,
        r == core::cmp::Ordering::Greater ==> lex_lt(b@, a@),
{
    let alen = a.len();
    let blen = b.len();
    let mut i: usize = 0;
    loop
        invariant
            i <= alen,
            i <= blen,
            alen == a@.len(),
            blen == b@.len(),
            forall|j: int| 0 <= j < i ==> a@[j] == b@[j],
        decreases alen - i,
    {
        if i == alen && i == blen {
            proof {
                assert(a@ =~= b@);
            }
            return core::cmp::Ordering::Equal;
        }
        if i == alen {
            proof {
                lemma_lex_lt_at(a@, b@, i as int);
            }
            return core::cmp::Ordering::Less;
        }
        if i == blen {
            proof {
                lemma_lex_lt_at(b@, a@, i as int);
            }
            return core::cmp::Ordering::Greater;
        }
        let x = a[i];
        let y = b[i];
        if x < y {
            proof {
                lemma_lex_lt_at(a@, b@, i as int);
            }
            return core::cmp::Ordering::Less;
        }
        if x > y {
            proof {
                lemma_lex_lt_at(b@, a@, i as int);
            }
            return core::cmp::Ordering::Greater;
        }
        i = i + 1;
    }
}

/// Number of entries in a directory inode's payload table.
pub open spec fn spec_dir_count(dir: Inode) -> int {
    dir.size as int / 16
}

/// Entry number `k` of a directory inode's payload table.
pub open spec fn spec_dir_entry(s: Seq<u8>, dir: Inode, k: int) -> Dirent {
    spec_dirent_at(s, dir.offset + 16 * k)
}

/// A name string starts at offset `off` of `s`.
pub open spec fn spec_has_name_at(s: Seq<u8>, off: int) -> bool {
    exists|nm: Seq<u8>| spec_is_name_at(s, off, nm)
}

/// The name string starting at offset `off` of `s` (meaningful only when
/// one is there; it is then unique).
pub open spec fn spec_name_at(s: Seq<u8>, off: int) -> Seq<u8> {
    choose|nm: Seq<u8>| spec_is_name_at(s, off, nm)
}

/// The name of entry `k` of a directory inode's table.
pub open spec fn spec_entry_name(s: Seq<u8>, dir: Inode, k: int) -> Seq<u8> {
    spec_name_at(s, spec_dir_entry(s, dir, k).name as int)
}

/// A concrete name at an offset is the (unique) name there.
pub proof fn lemma_name_at_is(s: Seq<u8>, off: int, nm: Seq<u8>)
    requires
        spec_is_name_at(s, off, nm),
    ensures
        spec_has_name_at(s, off),
        spec_name_at(s, off) == nm,
{
    lemma_name_at_unique(s, off, spec_name_at(s, off), nm);
}

/// The read-side invariant the writer establishes for every directory:
/// each table entry points at a name string, and the names are strictly
/// ascending in lexicographic byte order (hence unique).
pub open spec fn spec_dir_sorted(s: Seq<u8>, dir: Inode) -> bool {
    &&& (forall|k: int|
        0 <= k < spec_dir_count(dir) ==> spec_has_name_at(
            s,
            #[trigger] spec_dir_entry(s, dir, k).name as int,
        ))
    &&& (forall|k1: int, k2: int|
        0 <= k1 < k2 < spec_dir_count(dir) ==> lex_lt(
            #[trigger] spec_entry_name(s, dir, k1),
            #[trigger] spec_entry_name(s, dir, k2),
        ))
}

/// An inode record that genuinely lies in the image bytes.
pub open spec fn spec_inode_in_image(s: Seq<u8>, ino: Inode) -> bool {
    exists|off: int| 0 <= off && off + 32 <= s.len() && ino == spec_inode_at(s, off)
}

/// Binary search of a directory inode's dirent table for a name, by
/// lexicographic comparison of raw name bytes over the half-open interval
/// of entry numbers. A hit returns the entry's inode; on a table that
/// honors the sorted-table invariant a miss means the name is absent.
#[verifier::rlimit(50)]
pub fn binary_search<F: ReadAt>(img: &Image<F>, inode: &Inode, name: &Vec<u8>) -> (r: Result<
    Option<Inode>,
    Error,
>)
    ensures
        r matches Ok(Some(ino)) ==> exists|k: int|
            0 <= k < spec_dir_count(*inode) && spec_is_name_at(
                img.contents(),
                #[trigger] spec_dir_entry(img.contents(), *inode, k).name as int,
                name@,
            ) && spec_dir_entry(img.contents(), *inode, k).inode + 32 <= img.contents().len()
                && ino == spec_inode_at(
                img.contents(),
                spec_dir_entry(img.contents(), *inode, k).inode as int,
            ),
        (r matches Ok(None) && spec_dir_sorted(img.contents(), *inode)) ==> forall|k: int|
            0 <= k < spec_dir_count(*inode) ==> #[trigger] spec_entry_name(
                img.contents(),
                *inode,
                k,
            ) != name@,
{
    let ghost s = img.contents();
    let count: u64 = inode.size / 16;
    let mut lo: u64 = 0;
    let mut hi: u64 = count;
    while lo < hi
        invariant
            lo <= hi <= count,
            count == spec_dir_count(*inode),
            s == img.contents(),
            spec_dir_sorted(s, *inode) ==> (forall|k: int|
                0 <= k < lo ==> lex_lt(#[trigger] spec_entry_name(s, *inode, k), name@)),
            spec_dir_sorted(s, *inode) ==> (forall|k: int|
                hi <= k < count ==> lex_lt(name@, #[trigger] spec_entry_name(s, *inode, k))),
        decreases hi - lo,
    {
        let mid = lo + (hi - lo) / 2;
        let ent = match inode.read_dirent(mid, img) {
            Ok(d) => d,
            Err(e) => {
                return Err(e);
            },
        };
        let entname = match ent.name(img) {
            Ok(v) => v,
            Err(e) => {
                return Err(e);
            },
        };
        proof {
            assert(ent == spec_dir_entry(s, *inode, mid as int));
            lemma_name_at_is(s, ent.name as int, entname@);
        }
        match compare_bytes(name, &entname) {
            core::cmp::Ordering::Equal => {
                let ino = match ent.inode(img) {
                    Ok(i) => i,
                    Err(e) => {
                        return Err(e);
                    },
                };
                proof {
                    assert(spec_is_name_at(s, spec_dir_entry(s, *inode, mid as int).name as int,
                        name@));
                }
                return Ok(Some(ino));
            },
            core::cmp::Ordering::Less => {
                proof {
                    if spec_dir_sorted(s, *inode) {
                        assert forall|k: int| mid <= k < count implies lex_lt(
                            name@,
                            #[trigger] spec_entry_name(s, *inode, k),
                        ) by {
                            if k > mid {
                                lemma_lex_lt_trans(
                                    name@,
                                    spec_entry_name(s, *inode, mid as int),
                                    spec_entry_name(s, *inode, k),
                                );
                            }
                        }
                    }
                }
                hi = mid;
            },
            core::cmp::Ordering::Greater => {
                proof {
                    if spec_dir_sorted(s, *inode) {
                        assert forall|k: int| 0 <= k < mid + 1 implies lex_lt(
                            #[trigger] spec_entry_name(s, *inode, k),
                            name@,
                        ) by {
                            if k < mid {
                                lemma_lex_lt_trans(
                                    spec_entry_name(s, *inode, k),
                                    spec_entry_name(s, *inode, mid as int),
                                    name@,
                                );
                            }
                        }
                    }
                }
                lo = mid + 1;
            },
        }
    }
    proof {
        if spec_dir_sorted(s, *inode) {
            assert forall|k: int| 0 <= k < count implies #[trigger] spec_entry_name(s, *inode, k)
                != name@ by {
                if k < lo {
                    lemma_lex_lt_neq(spec_entry_name(s, *inode, k), name@);
                } else {
                    lemma_lex_lt_neq(name@, spec_entry_name(s, *inode, k));
                }
            }
        }
    }
    Ok(None)
}

/// Read a symlink inode's target bytes. A target longer than
/// `LINK_TARGET_MAX` is a `Bounds` error; otherwise a buffer of exactly
/// `size` bytes is filled from the payload.
fn get_link<F: ReadAt>(inode: Inode, img: &Image<F>) -> (r: Result<Vec<u8>, Error>)
    ensures
        inode.size > LINK_TARGET_MAX ==> r is Err && (r matches Err(e) ==> e is Bounds),
        r matches Err(e) ==> e is Bounds || e is IO,
        r matches Ok(v) ==> {
            &&& inode.size <= LINK_TARGET_MAX
            &&& v@.len() == inode.size
            &&& (inode.size > 0 ==> inode.offset + inode.size <= img.contents().len() && v@
                == img.contents().subrange(
                inode.offset as int,
                inode.offset + inode.size,
            ))
        },
{
    if inode.size > LINK_TARGET_MAX {
        return Err(Error::Bounds("link target too long"));
    }
    let sz = inode.size as usize;
    let mut res: Vec<u8> = Vec::new();
    res.resize(sz, 0u8);
    match inode.read_exact_at(&mut res, 0, img) {
        Ok(_) => {},
        Err(e) => {
            return Err(e);
        },
    }
    Ok(res)
}

/// The type of the object a directory entry or handle refers to.
#[derive(Copy, Clone, PartialEq, Eq, Structural, Debug)]
pub struct FileType {
    pub ty: InodeType,
}

impl FileType {
    /// True for a directory.
    pub fn is_dir(&self) -> (r: bool)
        ensures
            r == (self.ty == InodeType::Directory),
    {
        self.ty == InodeType::Directory
    }

    /// True for a regular file.
    pub fn is_file(&self) -> (r: bool)
        ensures
            r == (self.ty == InodeType::File),
    {
        self.ty == InodeType::File
    }

    /// True for a symlink.
    pub fn is_symlink(&self) -> (r: bool)
        ensures
            r == (self.ty == InodeType::Symlink),
    {
        self.ty == InodeType::Symlink
    }
}

/// One entry of a directory, lazily yielding its name, type and item.
pub struct DirEntry<'a, F> {
    pub img: &'a Image<F>,
    pub ent: Dirent,
}

/// A typed handle on a directory inode.
pub struct Directory<'a, F> {
    pub img: &'a Image<F>,
    pub inode: Inode,
}

/// A typed handle on a regular-file inode.
pub struct File<'a, F> {
    pub img: &'a Image<F>,
    pub inode: Inode,
}

/// A typed handle on a symlink inode.
pub struct Symlink<'a, F> {
    pub img: &'a Image<F>,
    pub inode: Inode,
}

/// Any of the three typed handles.
pub enum FSItem<'a, F> {
    File(File<'a, F>),
    Directory(Directory<'a, F>),
    Symlink(Symlink<'a, F>),
}

/// Wrap an inode record in the handle matching its recorded type; an
/// undefined type tag is a `Format` error.
pub fn new_fsitem<'a, F: ReadAt>(img: &'a Image<F>, inode: Inode) -> (r: Result<
    FSItem<'a, F>,
    Error,
>)
    ensures
        inode.inode_type > 2 ==> r is Err,
        r matches Ok(it) ==> match it {
            FSItem::File(f) => f.inode == inode && inode.inode_type == 1 && f.img == img,
            FSItem::Directory(d) => d.inode == inode && inode.inode_type == 0 && d.img == img,
            FSItem::Symlink(l) => l.inode == inode && inode.inode_type == 2 && l.img == img,
        },
{
    match inode.inode_type() {
        Ok(InodeType::File) => Ok(FSItem::File(File::new(inode, img))),
        Ok(InodeType::Directory) => Ok(FSItem::Directory(Directory::new(inode, img))),
        Ok(InodeType::Symlink) => Ok(FSItem::Symlink(Symlink::new(inode, img))),
        Err(e) => Err(e),
    }
}

/// A finite, non-restartable sequence of a directory's entries; each step
/// performs one positioned dirent read.
pub struct ReadDir<'a, F> {
    pub dir: Directory<'a, F>,
    pub pos: u64,
}

/// A read-only filesystem over an open image.
pub struct FS<F> {
    pub img: Image<F>,
}

impl<'a, F: ReadAt> DirEntry<'a, F> {
    /// The type of the object this entry refers to.
    pub fn file_type(&self) -> (r: Result<FileType, Error>)
        ensures
            r matches Err(e) ==> e is IO || e is Format,
            (self.ent.inode + 32 <= self.img.contents().len() && spec_inode_at(
                self.img.contents(),
                self.ent.inode as int,
            ).inode_type > 2) ==> r is Err,
            r matches Ok(t) ==> {
                &&& self.ent.inode + 32 <= self.img.contents().len()
                &&& t.ty.spec_to_u8() == spec_inode_at(
                    self.img.contents(),
                    self.ent.inode as int,
                ).inode_type
            },
    {
        let ino = match self.ent.inode(self.img) {
            Ok(i) => i,
            Err(e) => {
                return Err(e);
            },
        };
        match ino.inode_type() {
            Ok(ty) => Ok(FileType { ty }),
            Err(e) => Err(e),
        }
    }

    /// The entry's name bytes (without the NUL terminator).
    pub fn file_name(&self) -> (r: Result<Vec<u8>, Error>)
        ensures
            r matches Ok(v) ==> spec_is_name_at(self.img.contents(), self.ent.name as int, v@),
    {
        self.ent.name(self.img)
    }

    /// The typed handle for the object this entry refers to.
    pub fn item(&self) -> (r: Result<FSItem<'a, F>, Error>)
        ensures
            r matches Ok(it) ==> {
                &&& self.ent.inode + 32 <= self.img.contents().len()
                &&& match it {
                    FSItem::File(f) => f.inode == spec_inode_at(
                        self.img.contents(),
                        self.ent.inode as int,
                    ) && f.inode.inode_type == 1 && f.img == self.img,
                    FSItem::Directory(d) => d.inode == spec_inode_at(
                        self.img.contents(),
                        self.ent.inode as int,
                    ) && d.inode.inode_type == 0 && d.img == self.img,
                    FSItem::Symlink(l) => l.inode == spec_inode_at(
                        self.img.contents(),
                        self.ent.inode as int,
                    ) && l.inode.inode_type == 2 && l.img == self.img,
                }
            },
    {
        let inode = match self.ent.inode(self.img) {
            Ok(i) => i,
            Err(e) => {
                return Err(e);
            },
        };
        new_fsitem(self.img, inode)
    }
}

impl<'a, F: ReadAt> Directory<'a, F> {
    /// Wrap a directory-typed inode record.
    fn new(inode: Inode, img: &'a Image<F>) -> (r: Directory<'a, F>)
        requires
            inode.inode_type == 0,
        ensures
            r.inode == inode,
            r.img == img,
    {
        Directory { inode, img }
    }

    /// Number of entries in this directory (its payload size over the
    /// dirent record size).
    pub fn len(&self) -> (r: u64)
        ensures
            r == spec_dir_count(self.inode),
    {
        self.inode.size / (DIRENT_SIZE as u64)
    }

    /// Resolve a byte-string path against this directory. The answer
    /// agrees with the specification-level resolution of the path from
    /// this directory's inode over the image bytes.
    pub fn resolve(&self, path: &[u8]) -> (r: Result<Option<FSItem<'a, F>>, Error>)
        ensures
            r matches Ok(Some(it)) ==> {
                let res = spec_resolve(
                    self.img.contents(),
                    self.img.header.root_inode,
                    self.inode,
                    path@,
                    0,
                );
                match it {
                    FSItem::File(f) => (res == Resolution::Found(f.inode) || res
                        == Resolution::Unsorted) && f.inode.inode_type == 1 && f.img == self.img,
                    FSItem::Directory(d) => (res == Resolution::Found(d.inode) || res
                        == Resolution::Unsorted) && d.inode.inode_type == 0 && d.img == self.img,
                    FSItem::Symlink(l) => (res == Resolution::Found(l.inode) || res
                        == Resolution::Unsorted) && l.inode.inode_type == 2 && l.img == self.img,
                }
            },
            r matches Ok(None) ==> spec_resolve(
                self.img.contents(),
                self.img.header.root_inode,
                self.inode,
                path@,
                0,
            ) == Resolution::NotFound || spec_resolve(
                self.img.contents(),
                self.img.header.root_inode,
                self.inode,
                path@,
                0,
            ) == Resolution::Unsorted,
    {
        resolve_dir(self.img, self, path)
    }

    /// The entry at position `pos`, or nothing at or past the end.
    pub fn get(&self, pos: u64) -> (r: Result<Option<DirEntry<'a, F>>, Error>)
        ensures
            pos >= spec_dir_count(self.inode) ==> (r matches Ok(o) && o is None),
            r matches Ok(o) ==> (o is None <==> pos >= spec_dir_count(self.inode)),
            r matches Ok(Some(de)) ==> {
                &&& pos < spec_dir_count(self.inode)
                &&& de.ent == spec_dir_entry(self.img.contents(), self.inode, pos as int)
                &&& de.img == self.img
            },
    {
        if pos >= self.len() {
            Ok(None)
        } else {
            match self.inode.read_dirent(pos, self.img) {
                Ok(ent) => Ok(Some(DirEntry { ent, img: self.img })),
                Err(e) => Err(e),
            }
        }
    }

    /// Iterate this directory's entries from the start.
    pub fn iter(&self) -> (r: ReadDir<'a, F>)
        ensures
            r.dir.inode == self.inode,
            r.dir.img == self.img,
            r.pos == 0,
    {
        ReadDir { dir: Directory { img: self.img, inode: self.inode }, pos: 0 }
    }
}

impl<'a, F: ReadAt> File<'a, F> {
    /// Wrap a file-typed inode record.
    fn new(inode: Inode, img: &'a Image<F>) -> (r: File<'a, F>)
        requires
            inode.inode_type == 1,
        ensures
            r.inode == inode,
            r.img == img,
    {
        File { inode, img }
    }

    /// The file's length in bytes.
    pub fn size(&self) -> (r: u64)
        ensures
            r == self.inode.size,
    {
        self.inode.size()
    }

    /// Positioned read of the file's bytes, clamped to its size: fills the
    /// front of `buf` with `min(buf.len(), size - offset)` bytes and
    /// returns how many; an offset past the end reads nothing.
    pub fn read_at(&self, buf: &mut Vec<u8>, offset: u64) -> (r: Result<usize, Error>)
        ensures
            final(buf)@.len() == old(buf)@.len(),
            r matches Ok(n) ==> {
                &&& n == if offset <= self.inode.size {
                    if self.inode.size - offset < old(buf)@.len() {
                        self.inode.size - offset
                    } else {
                        old(buf)@.len() as int
                    }
                } else {
                    0
                }
                &&& (n > 0 ==> self.inode.offset + offset + n <= self.img.contents().len() && (
                forall|j: int|
                    0 <= j < n ==> final(buf)@[j] == self.img.contents()[self.inode.offset + offset
                        + j]))
                &&& (forall|j: int| n <= j < old(buf)@.len() ==> final(buf)@[j] == old(buf)@[j])
            },
    {
        self.inode.read_at(buf, offset, self.img)
    }
}

impl<'a, F: ReadAt> Symlink<'a, F> {
    /// Wrap a symlink-typed inode record.
    fn new(inode: Inode, img: &'a Image<F>) -> (r: Symlink<'a, F>)
        requires
            inode.inode_type == 2,
        ensures
            r.inode == inode,
            r.img == img,
    {
        Symlink { inode, img }
    }

    /// The symlink's target bytes, bounded by `LINK_TARGET_MAX`.
    pub fn get_link(&self) -> (r: Result<Vec<u8>, Error>)
        ensures
            self.inode.size > LINK_TARGET_MAX ==> r is Err && (r matches Err(e) ==> e
                is Bounds),
            r matches Err(e) ==> e is Bounds || e is IO,
            r matches Ok(v) ==> {
                &&& v@.len() == self.inode.size
                &&& (self.inode.size > 0 ==> self.inode.offset + self.inode.size
                    <= self.img.contents().len() && v@ == self.img.contents().subrange(
                    self.inode.offset as int,
                    self.inode.offset + self.inode.size,
                ))
            },
    {
        get_link(self.inode, self.img)
    }
}

impl<'a, F: ReadAt> ReadDir<'a, F> {
    /// The next entry of the directory, an error for an entry that cannot
    /// be read, or nothing once all entries have been yielded.
    pub fn next(&mut self) -> (r: Option<Result<DirEntry<'a, F>, Error>>)
        ensures
            final(self).dir == old(self).dir,
            r is None ==> final(self).pos == old(self).pos && old(self).pos >= spec_dir_count(
                old(self).dir.inode,
            ),
            r matches Some(Err(_)) ==> final(self).pos == old(self).pos + 1,
            r matches Some(Ok(de)) ==> {
                &&& old(self).pos < spec_dir_count(old(self).dir.inode)
                &&& de.ent == spec_dir_entry(
                    old(self).dir.img.contents(),
                    old(self).dir.inode,
                    old(self).pos as int,
                )
                &&& final(self).pos == old(self).pos + 1
            },
    {
        match self.dir.get(self.pos) {
            Err(e) => {
                self.pos = match self.pos.checked_add(1) {
                    Some(p) => p,
                    None => u64::MAX,
                };
                Some(Err(e))
            },
            Ok(None) => None,
            Ok(Some(v)) => {
                self.pos = self.pos + 1;
                Some(Ok(v))
            },
        }
    }
}

impl<F: ReadAt> FS<F> {
    /// Open a filesystem over a byte store, validating the header and
    /// installing the cipher layer its encryption tag selects.
    pub fn open(f: F, key: Option<&Vec<u8>>) -> (r: Result<FS<F>, Error>)
        ensures
            r matches Ok(x) ==> {
                let raw = f.contents();
                let h = crate::codec::spec_header_of(raw);
                &&& raw.len() >= 32
                &&& crate::codec::spec_magic_ok(raw)
                &&& h.version_major == crate::codec::VERSION_MAJOR
                &&& h.version_minor == crate::codec::VERSION_MINOR
                &&& h.compression_type == 0
                &&& h.encryption_type <= 1
                &&& x.img.header == h
                &&& (h.encryption_type == 0 ==> x.img.contents() == raw)
                &&& (h.encryption_type == 1 ==> (key is Some && key.unwrap()@.len()
                    == crate::crypt::KEY_MATERIAL_LEN && x.img.contents()
                    == crate::crypt::spec_crypt(
                    key.unwrap()@.subrange(0, 32),
                    key.unwrap()@.subrange(32, 36),
                    0,
                    raw,
                )))
            },
            !crate::codec::spec_magic_ok(f.contents()) ==> r is Err,
    {
        match open_file(f, key) {
            Ok(img) => Ok(FS { img }),
            Err(e) => Err(e),
        }
    }

    /// The root directory of the image; a root inode that is not a
    /// directory is a `Format` error.
    pub fn get_root(&self) -> (r: Result<Directory<'_, F>, Error>)
        ensures
            r matches Err(e) ==> e is IO || e is Format,
            (self.img.header.root_inode + 32 <= self.img.contents().len() && spec_inode_at(
                self.img.contents(),
                self.img.header.root_inode as int,
            ).inode_type != 0) ==> r is Err,
            r matches Ok(d) ==> {
                &&& self.img.header.root_inode + 32 <= self.img.contents().len()
                &&& d.inode == spec_inode_at(
                    self.img.contents(),
                    self.img.header.root_inode as int,
                )
                &&& d.inode.inode_type == 0
                &&& d.img == &self.img
            },
    {
        let inode = match self.img.root_inode() {
            Ok(i) => i,
            Err(e) => {
                return Err(e);
            },
        };
        match inode.inode_type() {
            Ok(InodeType::Directory) => {},
            Ok(_) => {
                return Err(Error::Format("root inode is not a directory"));
            },
            Err(e) => {
                return Err(e);
            },
        }
        Ok(Directory::new(inode, &self.img))
    }

    /// Resolve a byte-string path against the root directory: the answer
    /// agrees with the specification-level resolution of the path started
    /// at the image's root inode record.
    pub fn resolve(&self, path: &[u8]) -> (r: Result<Option<FSItem<'_, F>>, Error>)
        ensures
            r matches Ok(Some(it)) ==> {
                let res = spec_resolve(
                    self.img.contents(),
                    self.img.header.root_inode,
                    spec_inode_at(self.img.contents(), self.img.header.root_inode as int),
                    path@,
                    0,
                );
                match it {
                    FSItem::File(f) => (res == Resolution::Found(f.inode) || res
                        == Resolution::Unsorted) && f.inode.inode_type == 1,
                    FSItem::Directory(d) => (res == Resolution::Found(d.inode) || res
                        == Resolution::Unsorted) && d.inode.inode_type == 0,
                    FSItem::Symlink(l) => (res == Resolution::Found(l.inode) || res
                        == Resolution::Unsorted) && l.inode.inode_type == 2,
                }
            },
            r matches Ok(None) ==> spec_resolve(
                self.img.contents(),
                self.img.header.root_inode,
                spec_inode_at(self.img.contents(), self.img.header.root_inode as int),
                path@,
                0,
            ) == Resolution::NotFound || spec_resolve(
                self.img.contents(),
                self.img.header.root_inode,
                spec_inode_at(self.img.contents(), self.img.header.root_inode as int),
                path@,
                0,
            ) == Resolution::Unsorted,
    {
        let root = match self.get_root() {
            Ok(d) => d,
            Err(e) => {
                return Err(e);
            },
        };
        resolve_dir(&self.img, &root, path)
    }
}


/// The outcome of resolving a path, at the specification level.
///
/// `Fail` covers the structural dead ends (depth exhausted, traversal
/// through a non-directory, an overlong symlink target); `Unsorted` marks
/// a lookup in a dirent table that violates the sorted-table invariant,
/// where a by-name lookup is not well defined. On images the writer
/// produced, every reachable table is sorted, so `Unsorted` never arises
/// there.
pub enum Resolution {
    Found(Inode),
    NotFound,
    Fail,
    Unsorted,
}

/// End of the path segment starting at `i`: the position of the next `/`,
/// or the path's end.
pub open spec fn spec_seg_end(path: Seq<u8>, i: int) -> int
    decreases path.len() - i,
{
    if i < 0 || i >= path.len() {
        path.len() as int
    } else if path[i] == 47 {
        i
    } else {
        spec_seg_end(path, i + 1)
    }
}

/// A trivial segment (empty or `.`) leaves the current inode unchanged.
pub open spec fn spec_seg_trivial(seg: Seq<u8>) -> bool {
    seg.len() == 0 || seg == seq![46u8]
}

/// The parent segment `..`.
pub open spec fn spec_seg_dotdot(seg: Seq<u8>) -> bool {
    seg == seq![46u8, 46u8]
}

/// The inode the entry named `seg` of `dir`'s table points at, when some
/// entry bears that name (unique on a sorted table).
pub open spec fn spec_lookup(s: Seq<u8>, dir: Inode, seg: Seq<u8>) -> Option<Inode> {
    if exists|k: int|
        0 <= k < spec_dir_count(dir) && spec_is_name_at(
            s,
            #[trigger] spec_dir_entry(s, dir, k).name as int,
            seg,
        ) {
        let k = choose|k: int|
            0 <= k < spec_dir_count(dir) && spec_is_name_at(
                s,
                #[trigger] spec_dir_entry(s, dir, k).name as int,
                seg,
            );
        Some(spec_inode_at(s, spec_dir_entry(s, dir, k).inode as int))
    } else {
        None
    }
}

/// On a sorted table at most one entry bears a given name.
pub proof fn lemma_lookup_unique(s: Seq<u8>, dir: Inode, seg: Seq<u8>, k1: int, k2: int)
    requires
        spec_dir_sorted(s, dir),
        0 <= k1 < spec_dir_count(dir),
        0 <= k2 < spec_dir_count(dir),
        spec_is_name_at(s, spec_dir_entry(s, dir, k1).name as int, seg),
        spec_is_name_at(s, spec_dir_entry(s, dir, k2).name as int, seg),
    ensures
        k1 == k2,
{
    lemma_name_at_is(s, spec_dir_entry(s, dir, k1).name as int, seg);
    lemma_name_at_is(s, spec_dir_entry(s, dir, k2).name as int, seg);
    if k1 < k2 {
        assert(lex_lt(spec_entry_name(s, dir, k1), spec_entry_name(s, dir, k2)));
        lemma_lex_lt_irrefl(seg);
    }
    if k2 < k1 {
        assert(lex_lt(spec_entry_name(s, dir, k2), spec_entry_name(s, dir, k1)));
        lemma_lex_lt_irrefl(seg);
    }
}

/// When no entry of a sorted table bears the name, the lookup misses.
proof fn lemma_lookup_matches_miss(s: Seq<u8>, dir: Inode, seg: Seq<u8>)
    requires
        spec_dir_sorted(s, dir),
        forall|k: int|
            0 <= k < spec_dir_count(dir) ==> #[trigger] spec_entry_name(s, dir, k) != seg,
    ensures
        spec_lookup(s, dir, seg) is None,
{
    if exists|k: int|
        0 <= k < spec_dir_count(dir) && spec_is_name_at(
            s,
            #[trigger] spec_dir_entry(s, dir, k).name as int,
            seg,
        ) {
        let k = choose|k: int|
            0 <= k < spec_dir_count(dir) && spec_is_name_at(
                s,
                #[trigger] spec_dir_entry(s, dir, k).name as int,
                seg,
            );
        lemma_name_at_is(s, spec_dir_entry(s, dir, k).name as int, seg);
        assert(spec_entry_name(s, dir, k) == seg);
        assert(false);
    }
}

/// When entry `kw` of a sorted table bears the name, the lookup yields
/// exactly the inode that entry points at.
proof fn lemma_lookup_matches_hit(s: Seq<u8>, dir: Inode, seg: Seq<u8>, kw: int, next: Inode)
    requires
        spec_dir_sorted(s, dir),
        0 <= kw < spec_dir_count(dir),
        spec_is_name_at(s, spec_dir_entry(s, dir, kw).name as int, seg),
        next == spec_inode_at(s, spec_dir_entry(s, dir, kw).inode as int),
    ensures
        spec_lookup(s, dir, seg) == Some(next),
{
    assert(spec_is_name_at(s, spec_dir_entry(s, dir, kw).name as int, seg));
    let ks = choose|k: int|
        0 <= k < spec_dir_count(dir) && spec_is_name_at(
            s,
            #[trigger] spec_dir_entry(s, dir, k).name as int,
            seg,
        );
    lemma_lookup_unique(s, dir, seg, kw, ks);
}

/// The target bytes of a symlink inode; a link without payload has an
/// empty target.
pub open spec fn spec_link_target(s: Seq<u8>, ino: Inode) -> Seq<u8> {
    if ino.size == 0 {
        Seq::<u8>::empty()
    } else {
        s.subrange(ino.offset as int, ino.offset + ino.size)
    }
}

/// Path resolution over the image bytes, at the specification level.
///
/// Mirrors the algorithm exactly: a leading `/` restarts at the image
/// root; then the segments are walked from the start inode.
#[verifier::opaque]
pub open spec fn spec_resolve(
    s: Seq<u8>,
    root_off: u64,
    start: Inode,
    path: Seq<u8>,
    depth: int,
) -> Resolution
    decreases LINK_LOOP_MAX + 1 - depth, path.len(), 1int,
{
    if depth > LINK_LOOP_MAX {
        Resolution::Fail
    } else {
        let cur = if path.len() > 0 && path[0] == 47 {
            spec_inode_at(s, root_off as int)
        } else {
            start
        };
        spec_resolve_from(s, root_off, cur, path, 0, depth)
    }
}

/// Resolution of the path's tail from segment position `i`, with `cur`
/// the inode reached so far. Trivial segments are skipped; `..` follows
/// the parent back-link; any other segment requires a directory, is
/// looked up by name, and a symlink found there is expanded (bounded by
/// `LINK_TARGET_MAX`) against the directory it was found in, the chain of
/// expansions bounded by `LINK_LOOP_MAX`.
#[verifier::opaque]
pub open spec fn spec_resolve_from(
    s: Seq<u8>,
    root_off: u64,
    cur: Inode,
    path: Seq<u8>,
    i: int,
    depth: int,
) -> Resolution
    decreases LINK_LOOP_MAX + 1 - depth, path.len() - i, 0int,
{
    if depth > LINK_LOOP_MAX || i < 0 {
        Resolution::Fail
    } else {
        let j = spec_seg_end(path, i);
        if j < i || j > path.len() {
            Resolution::Fail
        } else {
            let seg = path.subrange(i, j);
            if spec_seg_trivial(seg) {
                if j >= path.len() {
                    Resolution::Found(cur)
                } else {
                    spec_resolve_from(s, root_off, cur, path, j + 1, depth)
                }
            } else if spec_seg_dotdot(seg) {
                let parent = spec_inode_at(s, cur.parent_inode as int);
                if j >= path.len() {
                    Resolution::Found(parent)
                } else {
                    spec_resolve_from(s, root_off, parent, path, j + 1, depth)
                }
            } else if cur.inode_type != 0 {
                Resolution::Fail
            } else if !spec_dir_sorted(s, cur) {
                Resolution::Unsorted
            } else {
                match spec_lookup(s, cur, seg) {
                    None => Resolution::NotFound,
                    Some(next) => {
                        if next.inode_type == 2 {
                            if next.size > LINK_TARGET_MAX {
                                Resolution::Fail
                            } else {
                                match spec_resolve(
                                    s,
                                    root_off,
                                    cur,
                                    spec_link_target(s, next),
                                    depth + 1,
                                ) {
                                    Resolution::Found(x) => {
                                        if j >= path.len() {
                                            Resolution::Found(x)
                                        } else {
                                            spec_resolve_from(s, root_off, x, path, j + 1, depth)
                                        }
                                    },
                                    other => other,
                                }
                            }
                        } else {
                            if j >= path.len() {
                                Resolution::Found(next)
                            } else {
                                spec_resolve_from(s, root_off, next, path, j + 1, depth)
                            }
                        }
                    },
                }
            }
        }
    }
}


/// Unfolding: resolution starts from the image root on a `/`-rooted path
/// and from the start inode otherwise.
proof fn lemma_resolve_entry(s: Seq<u8>, root_off: u64, start: Inode, path: Seq<u8>, depth: int)
    requires
        depth <= LINK_LOOP_MAX,
    ensures
        spec_resolve(s, root_off, start, path, depth) == spec_resolve_from(
            s,
            root_off,
            if path.len() > 0 && path[0] == 47 {
                spec_inode_at(s, root_off as int)
            } else {
                start
            },
            path,
            0,
            depth,
        ),
{
    reveal_with_fuel(spec_resolve, 2);
    reveal_with_fuel(spec_resolve_from, 2);
    if path.len() > 0 && path[0] == 47 {
        assert(spec_resolve(s, root_off, start, path, depth) == spec_resolve_from(
            s,
            root_off,
            spec_inode_at(s, root_off as int),
            path,
            0,
            depth,
        ));
    } else {
        assert(spec_resolve(s, root_off, start, path, depth) == spec_resolve_from(
            s,
            root_off,
            start,
            path,
            0,
            depth,
        ));
    }
}

/// Unfolding: a trivial segment keeps the current inode.
proof fn lemma_step_trivial(s: Seq<u8>, root_off: u64, cur: Inode, path: Seq<u8>, i: int, j: int, depth: int)
    requires
        depth <= LINK_LOOP_MAX,
        0 <= i <= j <= path.len(),
        j == spec_seg_end(path, i),
        spec_seg_trivial(path.subrange(i, j)),
    ensures
        spec_resolve_from(s, root_off, cur, path, i, depth) == (if j >= path.len() {
            Resolution::Found(cur)
        } else {
            spec_resolve_from(s, root_off, cur, path, j + 1, depth)
        }),
{
    reveal(spec_resolve_from);
}

/// Unfolding: `..` replaces the current inode by its parent record.
proof fn lemma_step_dotdot(s: Seq<u8>, root_off: u64, cur: Inode, path: Seq<u8>, i: int, j: int, depth: int)
    requires
        depth <= LINK_LOOP_MAX,
        0 <= i <= j <= path.len(),
        j == spec_seg_end(path, i),
        spec_seg_dotdot(path.subrange(i, j)),
    ensures
        spec_resolve_from(s, root_off, cur, path, i, depth) == (if j >= path.len() {
            Resolution::Found(spec_inode_at(s, cur.parent_inode as int))
        } else {
            spec_resolve_from(
                s,
                root_off,
                spec_inode_at(s, cur.parent_inode as int),
                path,
                j + 1,
                depth,
            )
        }),
{
    reveal(spec_resolve_from);
    assert(seq![46u8].len() == 1);
    assert(path.subrange(i, j).len() == 2);
    assert(!spec_seg_trivial(path.subrange(i, j)));
}

/// Unfolding: a lookup segment on a directory inode whose table is
/// unsorted, or whose lookup misses.
proof fn lemma_step_lookup_miss(s: Seq<u8>, root_off: u64, cur: Inode, path: Seq<u8>, i: int, j: int, depth: int)
    requires
        depth <= LINK_LOOP_MAX,
        0 <= i <= j <= path.len(),
        j == spec_seg_end(path, i),
        !spec_seg_trivial(path.subrange(i, j)),
        !spec_seg_dotdot(path.subrange(i, j)),
        cur.inode_type == 0,
    ensures
        !spec_dir_sorted(s, cur) ==> spec_resolve_from(s, root_off, cur, path, i, depth)
            == Resolution::Unsorted,
        (spec_dir_sorted(s, cur) && spec_lookup(s, cur, path.subrange(i, j)) is None)
            ==> spec_resolve_from(s, root_off, cur, path, i, depth) == Resolution::NotFound,
{
    reveal(spec_resolve_from);
}

/// Unfolding: a lookup segment whose lookup hits `next`, by `next`'s
/// type.
proof fn lemma_step_lookup_hit(
    s: Seq<u8>,
    root_off: u64,
    cur: Inode,
    path: Seq<u8>,
    i: int,
    j: int,
    depth: int,
    next: Inode,
)
    requires
        depth <= LINK_LOOP_MAX,
        0 <= i <= j <= path.len(),
        j == spec_seg_end(path, i),
        !spec_seg_trivial(path.subrange(i, j)),
        !spec_seg_dotdot(path.subrange(i, j)),
        cur.inode_type == 0,
        spec_dir_sorted(s, cur),
        spec_lookup(s, cur, path.subrange(i, j)) == Some(next),
    ensures
        next.inode_type != 2 ==> spec_resolve_from(s, root_off, cur, path, i, depth) == (if j
            >= path.len() {
            Resolution::Found(next)
        } else {
            spec_resolve_from(s, root_off, next, path, j + 1, depth)
        }),
        (next.inode_type == 2 && next.size <= LINK_TARGET_MAX) ==> spec_resolve_from(
            s,
            root_off,
            cur,
            path,
            i,
            depth,
        ) == (match spec_resolve(
            s,
            root_off,
            cur,
            spec_link_target(s, next),
            depth + 1,
        ) {
            Resolution::Found(x) => if j >= path.len() {
                Resolution::Found(x)
            } else {
                spec_resolve_from(s, root_off, x, path, j + 1, depth)
            },
            other => other,
        }),
{
    reveal_with_fuel(spec_resolve_from, 2);
    reveal_with_fuel(spec_resolve, 2);
}

/// One lookup step of the resolver: search the current directory's table
/// for the segment `path[i..j]` and, when the hit is a symlink, expand it
/// against the current directory. `None` is a miss; a hit hands back the
/// inode the walk continues from. The outcome agrees with the
/// specification-level resolution of the remaining path.
#[verifier::rlimit(100)]
#[verifier::spinoff_prover]
fn lookup_step<F: ReadAt>(
    img: &Image<F>,
    cur: &Inode,
    path: &Vec<u8>,
    i: usize,
    j: usize,
    depth: u16,
) -> (r: Result<Option<Inode>, Error>)
    requires
        depth <= LINK_LOOP_MAX,
        i <= j <= path@.len(),
        j == spec_seg_end(path@, i as int),
        !spec_seg_trivial(path@.subrange(i as int, j as int)),
        !spec_seg_dotdot(path@.subrange(i as int, j as int)),
        cur.inode_type == 0,
    ensures
        r matches Ok(Some(x)) ==> (spec_inode_in_image(img.contents(), x) || x == *cur),
        r matches Ok(Some(x)) ==> spec_resolve_from(
            img.contents(),
            img.header.root_inode,
            *cur,
            path@,
            i as int,
            depth as int,
        ) == (if j == path@.len() {
            Resolution::Found(x)
        } else {
            spec_resolve_from(
                img.contents(),
                img.header.root_inode,
                x,
                path@,
                j + 1,
                depth as int,
            )
        }) || spec_resolve_from(
            img.contents(),
            img.header.root_inode,
            *cur,
            path@,
            i as int,
            depth as int,
        ) == Resolution::Unsorted,
        r matches Ok(None) ==> spec_resolve_from(
            img.contents(),
            img.header.root_inode,
            *cur,
            path@,
            i as int,
            depth as int,
        ) == Resolution::NotFound || spec_resolve_from(
            img.contents(),
            img.header.root_inode,
            *cur,
            path@,
            i as int,
            depth as int,
        ) == Resolution::Unsorted,
    decreases LINK_LOOP_MAX + 1 - depth, 1int,
{
    let ghost s = img.contents();
    let ghost ro = img.header.root_inode;
    let ghost seg = path@.subrange(i as int, j as int);
    proof {
        lemma_step_lookup_miss(s, ro, *cur, path@, i as int, j as int, depth as int);
    }
    let segv: Vec<u8> = slice_to_vec(slice_subrange(path.as_slice(), i, j));
    let found = match binary_search(img, cur, &segv) {
        Ok(o) => o,
        Err(e) => {
            return Err(e);
        },
    };
    let next = match found {
        None => {
            proof {
                if spec_dir_sorted(s, *cur) {
                    assert(segv@ == seg);
                    lemma_lookup_matches_miss(s, *cur, seg);
                }
            }
            return Ok(None);
        },
        Some(x) => x,
    };
    proof {
        if spec_dir_sorted(s, *cur) {
            assert(segv@ == seg);
            let kw = choose|k: int|
                0 <= k < spec_dir_count(*cur) && spec_is_name_at(
                    s,
                    #[trigger] spec_dir_entry(s, *cur, k).name as int,
                    seg,
                ) && spec_dir_entry(s, *cur, k).inode + 32 <= s.len() && next == spec_inode_at(
                    s,
                    spec_dir_entry(s, *cur, k).inode as int,
                );
            lemma_lookup_matches_hit(s, *cur, seg, kw, next);
            lemma_step_lookup_hit(s, ro, *cur, path@, i as int, j as int, depth as int, next);
        }
    }
    let is_link = match next.inode_type() {
        Ok(InodeType::Symlink) => true,
        Ok(_) => false,
        Err(e) => {
            return Err(e);
        },
    };
    if is_link {
        expand_link(img, cur, next, path, i, j, depth)
    } else {
        Ok(Some(next))
    }
}

/// Expand a symlink hit: read its target (bounded by `LINK_TARGET_MAX`)
/// and resolve it against the directory the link was found in, one more
/// level of expansion deep.
#[verifier::rlimit(100)]
#[verifier::spinoff_prover]
fn expand_link<F: ReadAt>(
    img: &Image<F>,
    cur: &Inode,
    next: Inode,
    path: &Vec<u8>,
    i: usize,
    j: usize,
    depth: u16,
) -> (r: Result<Option<Inode>, Error>)
    requires
        depth <= LINK_LOOP_MAX,
        i <= j <= path@.len(),
        j == spec_seg_end(path@, i as int),
        !spec_seg_trivial(path@.subrange(i as int, j as int)),
        !spec_seg_dotdot(path@.subrange(i as int, j as int)),
        cur.inode_type == 0,
        next.inode_type == 2,
        spec_dir_sorted(img.contents(), *cur) ==> spec_lookup(
            img.contents(),
            *cur,
            path@.subrange(i as int, j as int),
        ) == Some(next),
    ensures
        r matches Ok(Some(x)) ==> (spec_inode_in_image(img.contents(), x) || x == *cur),
        r matches Ok(Some(x)) ==> spec_resolve_from(
            img.contents(),
            img.header.root_inode,
            *cur,
            path@,
            i as int,
            depth as int,
        ) == (if j == path@.len() {
            Resolution::Found(x)
        } else {
            spec_resolve_from(
                img.contents(),
                img.header.root_inode,
                x,
                path@,
                j + 1,
                depth as int,
            )
        }) || spec_resolve_from(
            img.contents(),
            img.header.root_inode,
            *cur,
            path@,
            i as int,
            depth as int,
        ) == Resolution::Unsorted,
        r matches Ok(None) ==> spec_resolve_from(
            img.contents(),
            img.header.root_inode,
            *cur,
            path@,
            i as int,
            depth as int,
        ) == Resolution::NotFound || spec_resolve_from(
            img.contents(),
            img.header.root_inode,
            *cur,
            path@,
            i as int,
            depth as int,
        ) == Resolution::Unsorted,
    decreases LINK_LOOP_MAX + 1 - depth, 0int,
{
    let ghost s = img.contents();
    let ghost ro = img.header.root_inode;
    proof {
        lemma_step_lookup_miss(s, ro, *cur, path@, i as int, j as int, depth as int);
        if spec_dir_sorted(s, *cur) {
            lemma_step_lookup_hit(s, ro, *cur, path@, i as int, j as int, depth as int, next);
        }
    }
    let link_path = match get_link(next, img) {
        Ok(v) => v,
        Err(e) => {
            return Err(e);
        },
    };
    let ghost tgt = spec_link_target(s, next);
    proof {
        assert(link_path@ =~= tgt);
    }
    match resolve_path(img, cur, &link_path, depth + 1) {
        Ok(None) => {
            proof {
                if spec_dir_sorted(s, *cur) {
                    let rec = spec_resolve(s, ro, *cur, tgt, depth + 1);
                    assert(rec == Resolution::NotFound || rec == Resolution::Unsorted);
                }
            }
            Ok(None)
        },
        Ok(Some(x)) => {
            proof {
                if spec_dir_sorted(s, *cur) {
                    let rec = spec_resolve(s, ro, *cur, tgt, depth + 1);
                    assert(rec == Resolution::Found(x) || rec == Resolution::Unsorted);
                }
            }
            Ok(Some(x))
        },
        Err(e) => Err(e),
    }
}

/// Resolve a byte-string path against a starting directory inode.
///
/// `/` at the front restarts at the image root; empty segments and `.`
/// are skipped; `..` follows the parent back-link (the root's parent is
/// itself); any other segment requires the current inode to be a
/// directory, is looked up by binary search, and a symlink found there
/// is expanded by recursion, `depth` counting the expansions. A missing
/// name is the normal `None` outcome; traversal through a non-directory
/// is an `InvalidOperation` error; more than `LINK_LOOP_MAX` expansions
/// is a `Bounds` error. Every answer agrees with the specification-level
/// resolution of the same path over the image bytes (up to tables that
/// break the sorted invariant, where a by-name lookup is not defined).
#[verifier::rlimit(100)]
#[verifier::spinoff_prover]
pub fn resolve_path<F: ReadAt>(img: &Image<F>, root: &Inode, path: &Vec<u8>, depth: u16) -> (r:
    Result<Option<Inode>, Error>)
    ensures
        depth > LINK_LOOP_MAX ==> r is Err && (r matches Err(e) ==> e is Bounds),
        r matches Ok(Some(ino)) ==> spec_inode_in_image(img.contents(), ino) || ino == *root,
        r matches Ok(Some(ino)) ==> spec_resolve(
            img.contents(),
            img.header.root_inode,
            *root,
            path@,
            depth as int,
        ) == Resolution::Found(ino) || spec_resolve(
            img.contents(),
            img.header.root_inode,
            *root,
            path@,
            depth as int,
        ) == Resolution::Unsorted,
        r matches Ok(None) ==> spec_resolve(
            img.contents(),
            img.header.root_inode,
            *root,
            path@,
            depth as int,
        ) == Resolution::NotFound || spec_resolve(
            img.contents(),
            img.header.root_inode,
            *root,
            path@,
            depth as int,
        ) == Resolution::Unsorted,
    decreases LINK_LOOP_MAX + 1 - depth, 2int,
{
    if depth > LINK_LOOP_MAX {
        return Err(Error::Bounds("maximum symlink loop count encountered"));
    }
    let ghost s = img.contents();
    let ghost ro = img.header.root_inode;
    let ghost goal = spec_resolve(s, ro, *root, path@, depth as int);
    let plen = path.len();
    let mut cur: Inode = *root;
    if plen > 0 && path[0] == 47u8 {
        cur = match img.root_inode() {
            Ok(i) => i,
            Err(e) => {
                return Err(e);
            },
        };
        proof {
            assert(spec_inode_in_image(s, cur));
        }
    }
    proof {
        lemma_resolve_entry(s, ro, *root, path@, depth as int);
        assert(goal == spec_resolve_from(s, ro, cur, path@, 0, depth as int));
    }
    let mut i: usize = 0;
    loop
        invariant
            i <= plen,
            plen == path@.len(),
            depth <= LINK_LOOP_MAX,
            s == img.contents(),
            ro == img.header.root_inode,
            goal == spec_resolve(s, ro, *root, path@, depth as int),
            spec_inode_in_image(s, cur) || cur == *root,
            goal == spec_resolve_from(s, ro, cur, path@, i as int, depth as int) || goal
                == Resolution::Unsorted,
        decreases plen - i,
    {
        let mut j: usize = i;
        while j < plen && path[j] != 47u8
            invariant
                i <= j <= plen,
                plen == path@.len(),
                spec_seg_end(path@, i as int) == spec_seg_end(path@, j as int),
            decreases plen - j,
        {
            j = j + 1;
        }
        proof {
            assert(spec_seg_end(path@, i as int) == j);
        }
        let ghost seg = path@.subrange(i as int, j as int);
        let next_cur: Inode;
        if j == i || (j - i == 1 && path[i] == 46u8) {
            // empty segment or `.`: stay
            proof {
                if j != i {
                    assert(seg =~= seq![46u8]);
                }
                assert(spec_seg_trivial(seg));
                lemma_step_trivial(s, ro, cur, path@, i as int, j as int, depth as int);
            }
            next_cur = cur;
        } else if j - i == 2 && path[i] == 46u8 && path[i + 1] == 46u8 {
            let p = match cur.parent_inode(img) {
                Ok(p) => p,
                Err(e) => {
                    return Err(e);
                },
            };
            proof {
                assert(seg =~= seq![46u8, 46u8]);
                assert(p == spec_inode_at(s, cur.parent_inode as int));
                lemma_step_dotdot(s, ro, cur, path@, i as int, j as int, depth as int);
            }
            next_cur = p;
        } else {
            proof {
                assert(seg.len() == j - i);
                if seg.len() == 1 {
                    assert(seg[0] == path@[i as int]);
                    assert(path@[i as int] != 46);
                }
                assert(!spec_seg_trivial(seg));
                if seg.len() == 2 {
                    assert(seg[0] == path@[i as int] && seg[1] == path@[i + 1]);
                }
                assert(!spec_seg_dotdot(seg));
            }
            match cur.inode_type() {
                Ok(InodeType::Directory) => {},
                Ok(_) => {
                    return Err(Error::InvalidOperation("path traversal met non-directory"));
                },
                Err(e) => {
                    return Err(e);
                },
            }
            match lookup_step(img, &cur, path, i, j, depth) {
                Ok(None) => {
                    return Ok(None);
                },
                Ok(Some(x)) => {
                    next_cur = x;
                },
                Err(e) => {
                    return Err(e);
                },
            }
        }
        proof {
            if goal != Resolution::Unsorted {
                assert(goal == (if j == plen {
                    Resolution::Found(next_cur)
                } else {
                    spec_resolve_from(s, ro, next_cur, path@, j + 1, depth as int)
                }) || goal == Resolution::Unsorted);
            }
        }
        cur = next_cur;
        if j == plen {
            return Ok(Some(cur));
        }
        i = j + 1;
    }
}

/// Resolve a path against a directory handle and wrap the outcome in a
/// typed handle.
fn resolve_dir<'a, F: ReadAt>(img: &'a Image<F>, root: &Directory<'a, F>, path: &[u8]) -> (r:
    Result<Option<FSItem<'a, F>>, Error>)
    ensures
        r matches Ok(Some(it)) ==> {
            let res = spec_resolve(img.contents(), img.header.root_inode, root.inode, path@, 0);
            match it {
                FSItem::File(f) => (res == Resolution::Found(f.inode) || res
                    == Resolution::Unsorted) && f.inode.inode_type == 1 && f.img == img,
                FSItem::Directory(d) => (res == Resolution::Found(d.inode) || res
                    == Resolution::Unsorted) && d.inode.inode_type == 0 && d.img == img,
                FSItem::Symlink(l) => (res == Resolution::Found(l.inode) || res
                    == Resolution::Unsorted) && l.inode.inode_type == 2 && l.img == img,
            }
        },
        r matches Ok(None) ==> spec_resolve(
            img.contents(),
            img.header.root_inode,
            root.inode,
            path@,
            0,
        ) == Resolution::NotFound || spec_resolve(
            img.contents(),
            img.header.root_inode,
            root.inode,
            path@,
            0,
        ) == Resolution::Unsorted,
{
    let p: Vec<u8> = slice_to_vec(path);
    let inode = match resolve_path(img, &root.inode, &p, 0) {
        Ok(o) => o,
        Err(e) => {
            return Err(e);
        },
    };
    match inode {
        None => Ok(None),
        Some(i) => {
            match new_fsitem(img, i) {
                Ok(it) => Ok(Some(it)),
                Err(e) => Err(e),
            }
        },
    }
}

} // verus!
