//! Opening an image and reading its records.
//!
//! `open_file` validates the 32-byte header, installs the cipher wrapper
//! when the header asks for one, and returns an `Image` handle exposing
//! positioned reads of inodes, directory entries, name strings and file
//! payloads. Every read is specified against the (decrypted) byte contents
//! of the underlying store, and adversarial offsets produce typed errors,
//! never panics.

use vstd::prelude::*;
use vstd::slice::{slice_subrange, slice_to_vec};
use crate::codec::{
    Dirent, Header, Inode, InodeType, spec_dirent_at, spec_header_of, spec_inode_at,
    spec_magic_ok, decode_dirent, decode_header, decode_inode, check_magic,
    VERSION_MAJOR, VERSION_MINOR, DIRENT_SIZE,
};
use crate::crypt::{EncryptChaCha20, KEY_MATERIAL_LEN, spec_crypt};
use crate::error::Error;
use crate::store::ReadAt;

verus! {

/// The store an image reads from: either the raw byte store, or the same
/// store seen through the transparent ChaCha20 layer.
pub enum Store<F> {
    Plain(F),
    ChaCha20(EncryptChaCha20<F>),
}

impl<F: ReadAt> ReadAt for Store<F> {
    /// What readers see: raw bytes, or their decryption.
    open spec fn contents(&self) -> Seq<u8> {
        match self {
            Store::Plain(f) => f.contents(),
            Store::ChaCha20(c) => c.contents(),
        }
    }

    proof fn contents_bounded(&self) {
        match self {
            Store::Plain(f) => f.contents_bounded(),
            Store::ChaCha20(c) => c.contents_bounded(),
        }
    }

    fn read_at(&self, buf: &mut Vec<u8>, offset: u64) -> (r: Result<usize, Error>) {
        match self {
            Store::Plain(f) => f.read_at(buf, offset),
            Store::ChaCha20(c) => c.read_at(buf, offset),
        }
    }
}

/// An open image: the wrapped store and the decoded header.
pub struct Image<F> {
    pub file: Store<F>,
    pub header: Header,
}

/// There is a name string at offset `off` of `s`: `name` is the (NUL-free)
/// run of bytes from `off` up to the first NUL terminator.
pub open spec fn spec_is_name_at(s: Seq<u8>, off: int, name: Seq<u8>) -> bool {
    &&& 0 <= off
    &&& off + name.len() < s.len()
    &&& s[off + name.len()] == 0
    &&& forall|j: int| 0 <= j < name.len() ==> s[off + j] == name[j] && name[j] != 0
}

/// At most one name string lies at a given offset: the run up to the first
/// NUL is unique.
pub proof fn lemma_name_at_unique(s: Seq<u8>, off: int, a: Seq<u8>, b: Seq<u8>)
    requires
        spec_is_name_at(s, off, a),
        spec_is_name_at(s, off, b),
    ensures
        a == b,
{
    if a.len() < b.len() {
        assert(b[a.len() as int] == s[off + a.len()]);
        assert(false);
    }
    if b.len() < a.len() {
        assert(a[b.len() as int] == s[off + b.len()]);
        assert(false);
    }
    assert(a =~= b);
}

/// Relies on `memchr::memchr`: returns the index of the first occurrence
/// of `needle` in the haystack, or nothing when it does not occur.
#[verifier::external_body]
fn find_byte(needle: u8, hay: &Vec<u8>) -> (r: Option<usize>)
    ensures
        match r {
            Some(i) => i < hay@.len() && hay@[i as int] == needle && (forall|j: int|
                0 <= j < i ==> hay@[j] != needle),
            None => forall|j: int| 0 <= j < hay@.len() ==> hay@[j] != needle,
        },
{
    memchr::memchr(needle, hay.as_slice())
}

/// Parsing a record from a copied byte window gives the same record as
/// parsing it in place.
proof fn lemma_inode_at_slice(s: Seq<u8>, off: int)
    requires
        0 <= off,
        off + 32 <= s.len(),
    ensures
        spec_inode_at(s.subrange(off, off + 32), 0) == spec_inode_at(s, off),
{
    let sub = s.subrange(off, off + 32);
    assert(sub.subrange(0, 8) =~= s.subrange(off, off + 8));
    assert(sub.subrange(8, 16) =~= s.subrange(off + 8, off + 16));
    assert(sub.subrange(16, 24) =~= s.subrange(off + 16, off + 24));
}

/// As `lemma_inode_at_slice`, for directory entries.
proof fn lemma_dirent_at_slice(s: Seq<u8>, off: int)
    requires
        0 <= off,
        off + 16 <= s.len(),
    ensures
        spec_dirent_at(s.subrange(off, off + 16), 0) == spec_dirent_at(s, off),
{
    let sub = s.subrange(off, off + 16);
    assert(sub.subrange(0, 8) =~= s.subrange(off, off + 8));
    assert(sub.subrange(8, 16) =~= s.subrange(off + 8, off + 16));
}

/// As `lemma_inode_at_slice`, for the header at offset 0.
proof fn lemma_header_of_slice(s: Seq<u8>)
    requires
        s.len() >= 32,
    ensures
        spec_header_of(s.subrange(0, 32)) == spec_header_of(s),
        spec_magic_ok(s.subrange(0, 32)) == spec_magic_ok(s),
{
    let sub = s.subrange(0, 32);
    assert(sub.subrange(8, 16) =~= s.subrange(8, 16));
    assert(sub.subrange(0, 8) =~= s.subrange(0, 8));
}

/// Read and decode the header record of a raw store.
fn read_header<F: ReadAt>(file: &F) -> (r: Result<(Header, bool), Error>)
    ensures
        r matches Ok(h) ==> file.contents().len() >= 32 && h.0 == spec_header_of(file.contents())
            && h.1 == spec_magic_ok(file.contents()),
        file.contents().len() < 32 ==> r is Err,
        r matches Err(e) ==> e is IO,
{
    let mut buf: Vec<u8> = Vec::new();
    buf.resize(32, 0u8);
    match file.read_exact_at(&mut buf, 0) {
        Ok(_) => {},
        Err(e) => {
            return Err(e);
        },
    }
    proof {
        lemma_header_of_slice(file.contents());
    }
    let ok = check_magic(&buf);
    Ok((decode_header(&buf), ok))
}

/// Open an image over a byte store.
///
/// Validates magic and version, installs the ChaCha20 wrapper when the
/// header selects it (requiring key material of exactly
/// `KEY_MATERIAL_LEN` bytes), and rejects any compression. On success the
/// image's readable contents are the store's bytes, decrypted when
/// encryption is selected.
pub fn open_file<F: ReadAt>(file: F, key: Option<&Vec<u8>>) -> (r: Result<Image<F>, Error>)
    ensures
        match r {
            Ok(img) => {
                let raw = file.contents();
                let h = spec_header_of(raw);
                &&& raw.len() >= 32
                &&& spec_magic_ok(raw)
                &&& h.version_major == VERSION_MAJOR
                &&& h.version_minor == VERSION_MINOR
                &&& h.compression_type == 0
                &&& h.encryption_type <= 1
                &&& img.header == h
                &&& (h.encryption_type == 0 ==> img.file.contents() == raw)
                &&& (h.encryption_type == 1 ==> (key is Some && key.unwrap()@.len()
                    == KEY_MATERIAL_LEN && img.file.contents() == spec_crypt(
                    key.unwrap()@.subrange(0, 32),
                    key.unwrap()@.subrange(32, 36),
                    0,
                    raw,
                )))
            },
            Err(e) => {
                let raw = file.contents();
                let h = spec_header_of(raw);
                ||| e is IO
                ||| (!spec_magic_ok(raw) && e is Format)
                ||| (h.version_major != VERSION_MAJOR && e is Format)
                ||| (h.version_minor != VERSION_MINOR && e is Format)
                ||| (h.encryption_type > 1 && e is Format)
                ||| (h.encryption_type == 1 && (key is None || key.unwrap()@.len()
                    != KEY_MATERIAL_LEN) && e is Crypto)
                ||| (h.compression_type != 0 && e is Format)
            },
        },
        !spec_magic_ok(file.contents()) ==> r is Err,
        file.contents().len() >= 32 && spec_header_of(file.contents()).version_major
            != VERSION_MAJOR ==> r is Err,
        file.contents().len() >= 32 && spec_header_of(file.contents()).version_minor
            != VERSION_MINOR ==> r is Err,
        file.contents().len() >= 32 && spec_header_of(file.contents()).encryption_type > 1 ==> r
            is Err,
        file.contents().len() >= 32 && spec_header_of(file.contents()).encryption_type == 1 && (
        key is None || key.unwrap()@.len() != KEY_MATERIAL_LEN) ==> r is Err,
        file.contents().len() >= 32 && spec_header_of(file.contents()).compression_type != 0
            && spec_header_of(file.contents()).encryption_type == 0 ==> r is Err,
{
    let (header, magic_ok) = match read_header(&file) {
        Ok(h) => h,
        Err(e) => {
            return Err(e);
        },
    };
    if !magic_ok {
        return Err(Error::Format("Wrong magic"));
    }
    if header.version_major != VERSION_MAJOR {
        return Err(Error::Format("Unsupported major version"));
    }
    if header.version_minor != VERSION_MINOR {
        return Err(Error::Format("Unsupported minor version"));
    }
    let enc = match crate::codec::EncryptionType::from_u8(header.encryption_type) {
        Ok(e) => e,
        Err(e) => {
            return Err(e);
        },
    };
    let stream: Store<F> = match enc {
        crate::codec::EncryptionType::Plain => Store::Plain(file),
        crate::codec::EncryptionType::ChaCha20 => {
            match EncryptChaCha20::new(file, key) {
                Ok(c) => Store::ChaCha20(c),
                Err(e) => {
                    return Err(e);
                },
            }
        },
    };
    match crate::codec::CompressionType::from_u8(header.compression_type) {
        Ok(_) => {},
        Err(e) => {
            return Err(e);
        },
    }
    Ok(Image { file: stream, header })
}

impl<F: ReadAt> Image<F> {
    /// The byte contents this image reads: the store's bytes, decrypted
    /// when a cipher layer is installed.
    pub open spec fn contents(&self) -> Seq<u8> {
        self.file.contents()
    }

    /// Read and decode the inode record at absolute offset `off`.
    pub fn read_inode(&self, off: u64) -> (r: Result<Inode, Error>)
        ensures
            r matches Ok(i) ==> off + 32 <= self.contents().len() && i == spec_inode_at(
                self.contents(),
                off as int,
            ),
            off + 32 > self.contents().len() ==> r is Err,
            r matches Err(e) ==> e is IO,
    {
        let mut buf: Vec<u8> = Vec::new();
        buf.resize(32, 0u8);
        match self.file.read_exact_at(&mut buf, off) {
            Ok(_) => {},
            Err(e) => {
                return Err(e);
            },
        }
        proof {
            lemma_inode_at_slice(self.contents(), off as int);
        }
        Ok(decode_inode(&buf, 0))
    }

    /// Read and decode the directory entry at absolute offset `off`.
    pub fn read_dirent(&self, off: u64) -> (r: Result<Dirent, Error>)
        ensures
            r matches Ok(d) ==> off + 16 <= self.contents().len() && d == spec_dirent_at(
                self.contents(),
                off as int,
            ),
            off + 16 > self.contents().len() ==> r is Err,
            r matches Err(e) ==> e is IO,
    {
        let mut buf: Vec<u8> = Vec::new();
        buf.resize(16, 0u8);
        match self.file.read_exact_at(&mut buf, off) {
            Ok(_) => {},
            Err(e) => {
                return Err(e);
            },
        }
        proof {
            lemma_dirent_at_slice(self.contents(), off as int);
        }
        Ok(decode_dirent(&buf, 0))
    }

    /// Read the NUL-terminated name string starting at absolute offset
    /// `off`, scanning forward in fixed-size chunks. The returned bytes
    /// exclude the terminator. Running off the end of the contents before
    /// a terminator is an `IO` error.
    pub fn read_str(&self, off: u64) -> (r: Result<Vec<u8>, Error>)
        ensures
            r matches Ok(v) ==> spec_is_name_at(self.contents(), off as int, v@),
            r matches Err(e) ==> e is IO,
    {
        let mut out: Vec<u8> = Vec::new();
        let mut pos: u64 = off;
        proof {
            self.file.contents_bounded();
        }
        loop
            invariant
                off + out@.len() == pos,
                self.contents().len() <= u64::MAX,
                forall|j: int|
                    0 <= j < out@.len() ==> out@[j] == self.contents()[off + j] && out@[j] != 0,
            decreases self.contents().len() - pos,
        {
            let mut tmp: Vec<u8> = Vec::new();
            tmp.resize(32, 0u8);
            let n = match self.file.read_at(&mut tmp, pos) {
                Ok(n) => n,
                Err(e) => {
                    return Err(e);
                },
            };
            if n == 0 {
                return Err(Error::IO("unexpected end of stream"));
            }
            let chunk: Vec<u8> = slice_to_vec(slice_subrange(tmp.as_slice(), 0, n));
            match find_byte(0u8, &chunk) {
                Some(i) => {
                    let mut k: usize = 0;
                    while k < i
                        invariant
                            k <= i,
                            i < chunk@.len(),
                            off + out@.len() == pos + k,
                            pos + chunk@.len() <= self.contents().len(),
                            chunk@[i as int] == 0,
                            forall|j: int| 0 <= j < i ==> chunk@[j] != 0,
                            forall|j: int|
                                0 <= j < chunk@.len() ==> chunk@[j] == self.contents()[pos + j],
                            forall|j: int|
                                0 <= j < out@.len() ==> (out@[j] == self.contents()[off + j]
                                    && out@[j] != 0),
                        decreases i - k,
                    {
                        let b = chunk[k];
                        out.push(b);
                        k = k + 1;
                    }
                    proof {
                        assert(self.contents()[off + out@.len()] == chunk@[i as int]);
                    }
                    return Ok(out);
                },
                None => {
                    let mut k: usize = 0;
                    while k < n
                        invariant
                            k <= n,
                            n == chunk@.len(),
                            off + out@.len() == pos + k,
                            pos + chunk@.len() <= self.contents().len(),
                            forall|j: int| 0 <= j < n ==> chunk@[j] != 0,
                            forall|j: int|
                                0 <= j < chunk@.len() ==> chunk@[j] == self.contents()[pos + j],
                            forall|j: int|
                                0 <= j < out@.len() ==> (out@[j] == self.contents()[off + j]
                                    && out@[j] != 0),
                        decreases n - k,
                    {
                        let b = chunk[k];
                        out.push(b);
                        k = k + 1;
                    }
                    pos = pos + (n as u64);
                },
            }
        }
    }

    /// Fill `buf` exactly from the contents at absolute offset `off`.
    pub fn read_file(&self, buf: &mut Vec<u8>, off: u64) -> (r: Result<(), Error>)
        ensures
            final(buf)@.len() == old(buf)@.len(),
            (r is Ok && old(buf)@.len() > 0) ==> off + old(buf)@.len() <= self.contents().len()
                && final(buf)@ == self.contents().subrange(off as int, off + old(buf)@.len()),
            old(buf)@.len() == 0 ==> r is Ok,
            r matches Err(e) ==> e is IO,
    {
        self.file.read_exact_at(buf, off)
    }

    /// Read and decode the root inode named by the header.
    pub fn root_inode(&self) -> (r: Result<Inode, Error>)
        ensures
            r matches Ok(i) ==> self.header.root_inode + 32 <= self.contents().len() && i
                == spec_inode_at(self.contents(), self.header.root_inode as int),
            r matches Err(e) ==> e is IO,
    {
        let h = self.header;
        h.root_inode(self)
    }
}

impl Header {
    /// Read and decode the root inode this header names.
    pub fn root_inode<F: ReadAt>(&self, img: &Image<F>) -> (r: Result<Inode, Error>)
        ensures
            r matches Ok(i) ==> self.root_inode + 32 <= img.contents().len() && i == spec_inode_at(
                img.contents(),
                self.root_inode as int,
            ),
            r matches Err(e) ==> e is IO,
    {
        img.read_inode(self.root_inode)
    }
}

impl Inode {
    /// Read and decode the inode record this inode's parent field names.
    pub fn parent_inode<F: ReadAt>(&self, img: &Image<F>) -> (r: Result<Inode, Error>)
        ensures
            r matches Ok(i) ==> self.parent_inode + 32 <= img.contents().len() && i
                == spec_inode_at(img.contents(), self.parent_inode as int),
            r matches Err(e) ==> e is IO,
    {
        img.read_inode(self.parent_inode)
    }

    /// Decode this inode's type tag; an undefined tag is a `Format` error.
    pub fn inode_type(&self) -> (r: Result<InodeType, Error>)
        ensures
            r matches Ok(t) ==> self.inode_type == t.spec_to_u8(),
            r is Err <==> self.inode_type > 2,
            r matches Err(e) ==> e is Format,
            self.inode_type == 0 ==> r == Ok::<InodeType, Error>(InodeType::Directory),
            self.inode_type == 1 ==> r == Ok::<InodeType, Error>(InodeType::File),
            self.inode_type == 2 ==> r == Ok::<InodeType, Error>(InodeType::Symlink),
    {
        InodeType::from_u8(self.inode_type)
    }

    /// This inode's payload length in bytes.
    pub fn size(&self) -> (r: u64)
        ensures
            r == self.size,
    {
        self.size
    }

    /// Read directory entry number `pos` of this directory inode's payload
    /// table. Reading from a non-directory is an `InvalidOperation` error;
    /// an entry lying outside the payload is a `Bounds` error.
    pub fn read_dirent<F: ReadAt>(&self, pos: u64, img: &Image<F>) -> (r: Result<Dirent, Error>)
        ensures
            r matches Ok(d) ==> {
                &&& self.inode_type == 0
                &&& pos * 16 + 16 <= self.size
                &&& self.offset + pos * 16 + 16 <= img.contents().len()
                &&& d == spec_dirent_at(img.contents(), self.offset + pos * 16)
            },
            (self.inode_type == 1 || self.inode_type == 2) ==> r is Err && (r matches Err(e)
                ==> e is InvalidOperation),
            self.inode_type > 2 ==> r is Err && (r matches Err(e) ==> e is Format),
            self.inode_type == 0 && pos * 16 + 16 > self.size ==> r is Err && (r matches Err(e)
                ==> e is Bounds),
            r matches Err(e) ==> e is InvalidOperation || e is Format || e is Bounds || e is IO,
    {
        match self.inode_type() {
            Ok(InodeType::Directory) => {},
            Ok(_) => {
                return Err(Error::InvalidOperation("Reading dirents from non-directory"));
            },
            Err(e) => {
                return Err(e);
            },
        }
        if pos >= self.size / (DIRENT_SIZE as u64) || self.size < DIRENT_SIZE {
            return Err(Error::Bounds("dirent pos is beyond the directory"));
        }
        let offset = pos * (DIRENT_SIZE as u64);
        proof {
            assert(pos * 16 + 16 <= self.size) by (nonlinear_arith)
                requires
                    pos < self.size / 16,
                    self.size >= 16,
            ;
        }
        match self.offset.checked_add(offset) {
            Some(abs) => img.read_dirent(abs),
            None => Err(Error::Bounds("dirent offset overflows")),
        }
    }

    /// Positioned read of this inode's payload, clamped to its size: reads
    /// `min(buf.len(), size - off)` bytes of payload at payload offset
    /// `off` into the front of `buf`, returning how many. An offset past
    /// the size reads nothing.
    pub fn read_at<F: ReadAt>(&self, buf: &mut Vec<u8>, off: u64, img: &Image<F>) -> (r: Result<
        usize,
        Error,
    >)
        ensures
            final(buf)@.len() == old(buf)@.len(),
            r matches Ok(n) ==> {
                &&& n == if off <= self.size {
                    if self.size - off < old(buf)@.len() {
                        self.size - off
                    } else {
                        old(buf)@.len() as int
                    }
                } else {
                    0
                }
                &&& (n > 0 ==> self.offset + off + n <= img.contents().len() && (forall|j: int|
                    0 <= j < n ==> final(buf)@[j] == img.contents()[self.offset + off + j]))
                &&& (forall|j: int| n <= j < old(buf)@.len() ==> final(buf)@[j] == old(buf)@[j])
            },
            r matches Err(e) ==> e is IO || e is Bounds,
    {
        if off > self.size {
            return Ok(0);
        }
        let avail = self.size - off;
        let sz: usize = if (buf.len() as u64) < avail {
            buf.len()
        } else {
            avail as usize
        };
        if sz == 0 {
            return Ok(0);
        }
        let abs = match self.offset.checked_add(off) {
            Some(a) => a,
            None => {
                return Err(Error::Bounds("payload offset overflows"));
            },
        };
        let mut tmp: Vec<u8> = Vec::new();
        tmp.resize(sz, 0u8);
        match img.read_file(&mut tmp, abs) {
            Ok(_) => {},
            Err(e) => {
                return Err(e);
            },
        }
        proof {
            assert forall|j: int| 0 <= j < sz implies tmp@[j] == img.contents()[abs + j] by {
                assert(tmp@[j] == img.contents().subrange(abs as int, abs + sz as int)[j]);
            }
        }
        let mut k: usize = 0;
        while k < sz
            invariant
                k <= sz,
                sz <= buf@.len(),
                buf@.len() == old(buf)@.len(),
                tmp@.len() == sz,
                abs == self.offset + off,
                abs + sz <= img.contents().len(),
                forall|j: int| 0 <= j < sz ==> tmp@[j] == img.contents()[abs + j],
                forall|j: int| 0 <= j < k ==> buf@[j] == tmp@[j],
                forall|j: int| k <= j < buf@.len() ==> buf@[j] == old(buf)@[j],
            decreases sz - k,
        {
            let b = tmp[k];
            buf.set(k, b);
            k = k + 1;
        }
        proof {
            assert forall|j: int| 0 <= j < sz implies buf@[j] == img.contents()[self.offset + off
                + j] by {
                assert(buf@[j] == tmp@[j]);
                assert(tmp@[j] == img.contents()[abs + j]);
            }
        }
        Ok(sz)
    }

    /// Exact positioned read of this inode's payload: fill all of `buf`
    /// from payload offset `off`, or fail. A range that leaves the payload
    /// is an `IO` error (unexpected end).
    pub fn read_exact_at<F: ReadAt>(&self, buf: &mut Vec<u8>, off: u64, img: &Image<F>) -> (r:
        Result<(), Error>)
        ensures
            final(buf)@.len() == old(buf)@.len(),
            off + old(buf)@.len() > self.size ==> r is Err && (r matches Err(e) ==> e is IO),
            r matches Err(e) ==> e is IO || e is Bounds,
            (r is Ok && old(buf)@.len() > 0) ==> {
                &&& off + old(buf)@.len() <= self.size
                &&& self.offset + off + old(buf)@.len() <= img.contents().len()
                &&& final(buf)@ == img.contents().subrange(
                    self.offset + off,
                    self.offset + off + old(buf)@.len(),
                )
            },
    {
        let len_u64 = buf.len() as u64;
        let end = match off.checked_add(len_u64) {
            Some(e) => e,
            None => {
                return Err(Error::IO("unexpected end of stream"));
            },
        };
        if end > self.size {
            return Err(Error::IO("unexpected end of stream"));
        }
        let abs = match self.offset.checked_add(off) {
            Some(a) => a,
            None => {
                return Err(Error::Bounds("payload offset overflows"));
            },
        };
        img.read_file(buf, abs)
    }
}

impl Dirent {
    /// Read and decode the child inode record this entry names.
    pub fn inode<F: ReadAt>(&self, img: &Image<F>) -> (r: Result<Inode, Error>)
        ensures
            r matches Ok(i) ==> self.inode + 32 <= img.contents().len() && i == spec_inode_at(
                img.contents(),
                self.inode as int,
            ),
            r matches Err(e) ==> e is IO,
    {
        img.read_inode(self.inode)
    }

    /// Read the name string this entry points at (without its terminator).
    pub fn name<F: ReadAt>(&self, img: &Image<F>) -> (r: Result<Vec<u8>, Error>)
        ensures
            r matches Ok(v) ==> spec_is_name_at(img.contents(), self.name as int, v@),
            r matches Err(e) ==> e is IO,
    {
        img.read_str(self.name)
    }
}

} // verus!
