//! Layout codec: fixed-size little-endian records (header, inode, directory
//! entry), their byte-level encoders and decoders, and the tagged
//! discriminants validated on decode.
//!
//! All on-disk multi-byte integers are little-endian; all records are fixed
//! size. Nothing here touches a byte store: every function maps plain values
//! to plain values and is specified exactly against the spec-level byte
//! sequences that the rest of the crate reasons about.

use vstd::prelude::*;
use crate::error::Error;

verus! {

/// Size in bytes of the image header record.
pub const HEADER_SIZE: u64 = 32;

/// Size in bytes of an inode record.
pub const INODE_SIZE: u64 = 32;

/// Size in bytes of a directory-entry record.
pub const DIRENT_SIZE: u64 = 16;

/// Only images with this major version can be opened.
pub const VERSION_MAJOR: u8 = 0;

/// Only images with this minor version can be opened.
pub const VERSION_MINOR: u8 = 0;

/// The eight magic bytes `SQUASHFL` that open every image.
pub open spec fn spec_magic() -> Seq<u8> {
    seq![0x53u8, 0x51u8, 0x55u8, 0x41u8, 0x53u8, 0x48u8, 0x46u8, 0x4cu8]
}

/// The magic bytes as a vector, for writing and comparing.
pub fn magic_bytes() -> (v: Vec<u8>)
    ensures
        v@ == spec_magic(),
{
    let mut v: Vec<u8> = Vec::new();
    v.push(0x53u8);
    v.push(0x51u8);
    v.push(0x55u8);
    v.push(0x41u8);
    v.push(0x53u8);
    v.push(0x48u8);
    v.push(0x46u8);
    v.push(0x4cu8);
    proof {
        assert(v@ =~= spec_magic());
    }
    v
}

/// A `u64` in its on-disk (little-endian) order.
#[allow(non_camel_case_types)]
#[derive(Copy, Clone, Debug, PartialEq, Eq, Structural)]
pub struct u64le {
    pub val: u64,
}

impl From<u64> for u64le {
    fn from(v: u64) -> (r: u64le) {
        u64le { val: v }
    }
}

impl vstd::std_specs::convert::FromSpecImpl<u64> for u64le {
    open spec fn obeys_from_spec() -> bool {
        true
    }

    open spec fn from_spec(v: u64) -> u64le {
        u64le { val: v }
    }
}

impl From<u64le> for u64 {
    fn from(v: u64le) -> (r: u64) {
        v.val
    }
}

impl vstd::std_specs::convert::FromSpecImpl<u64le> for u64 {
    open spec fn obeys_from_spec() -> bool {
        true
    }

    open spec fn from_spec(v: u64le) -> u64 {
        v.val
    }
}

/// A `u32` in its on-disk (little-endian) order.
#[allow(non_camel_case_types)]
#[derive(Copy, Clone, Debug, PartialEq, Eq, Structural)]
pub struct u32le {
    pub val: u32,
}

impl From<u32> for u32le {
    fn from(v: u32) -> (r: u32le) {
        u32le { val: v }
    }
}

impl vstd::std_specs::convert::FromSpecImpl<u32> for u32le {
    open spec fn obeys_from_spec() -> bool {
        true
    }

    open spec fn from_spec(v: u32) -> u32le {
        u32le { val: v }
    }
}

impl From<u32le> for u32 {
    fn from(v: u32le) -> (r: u32) {
        v.val
    }
}

impl vstd::std_specs::convert::FromSpecImpl<u32le> for u32 {
    open spec fn obeys_from_spec() -> bool {
        true
    }

    open spec fn from_spec(v: u32le) -> u32 {
        v.val
    }
}

/// The 8 little-endian bytes of `x`.
pub open spec fn spec_u64_le(x: u64) -> Seq<u8> {
    seq![
        (x & 0xff) as u8,
        ((x >> 8) & 0xff) as u8,
        ((x >> 16) & 0xff) as u8,
        ((x >> 24) & 0xff) as u8,
        ((x >> 32) & 0xff) as u8,
        ((x >> 40) & 0xff) as u8,
        ((x >> 48) & 0xff) as u8,
        ((x >> 56) & 0xff) as u8,
    ]
}

/// The `u64` read little-endian from the 8 bytes of `s`.
pub open spec fn spec_u64_of_le(s: Seq<u8>) -> u64
    recommends
        s.len() == 8,
{
    (s[0] as u64) | (s[1] as u64) << 8 | (s[2] as u64) << 16 | (s[3] as u64) << 24 | (s[4] as u64)
        << 32 | (s[5] as u64) << 40 | (s[6] as u64) << 48 | (s[7] as u64) << 56
}

/// The 4 little-endian bytes of `x`.
pub open spec fn spec_u32_le(x: u32) -> Seq<u8> {
    seq![
        (x & 0xff) as u8,
        ((x >> 8) & 0xff) as u8,
        ((x >> 16) & 0xff) as u8,
        ((x >> 24) & 0xff) as u8,
    ]
}

/// The `u32` read little-endian from the 4 bytes of `s`.
pub open spec fn spec_u32_of_le(s: Seq<u8>) -> u32
    recommends
        s.len() == 4,
{
    (s[0] as u32) | (s[1] as u32) << 8 | (s[2] as u32) << 16 | (s[3] as u32) << 24
}

/// Append the little-endian encoding of `x` to `out`.
pub fn push_u64le(out: &mut Vec<u8>, x: u64)
    ensures
        final(out)@ == old(out)@ + spec_u64_le(x),
{
    proof {
        assert(x & 0xff < 256 && (x >> 8) & 0xff < 256 && (x >> 16) & 0xff < 256 && (x >> 24)
            & 0xff < 256 && (x >> 32) & 0xff < 256 && (x >> 40) & 0xff < 256 && (x >> 48) & 0xff
            < 256 && (x >> 56) & 0xff < 256) by (bit_vector);
    }
    out.push((x & 0xff) as u8);
    out.push(((x >> 8) & 0xff) as u8);
    out.push(((x >> 16) & 0xff) as u8);
    out.push(((x >> 24) & 0xff) as u8);
    out.push(((x >> 32) & 0xff) as u8);
    out.push(((x >> 40) & 0xff) as u8);
    out.push(((x >> 48) & 0xff) as u8);
    out.push(((x >> 56) & 0xff) as u8);
    proof {
        assert(out@ =~= old(out)@ + spec_u64_le(x));
    }
}

/// Encode `x` as its 8 little-endian bytes.
pub fn encode_u64(x: u64) -> (r: Vec<u8>)
    ensures
        r@ == spec_u64_le(x),
        r@.len() == 8,
{
    let mut out: Vec<u8> = Vec::new();
    push_u64le(&mut out, x);
    out
}

/// Decode the 8 little-endian bytes of `b` starting at `off`.
pub fn decode_u64(b: &Vec<u8>, off: usize) -> (x: u64)
    requires
        off + 8 <= b@.len(),
    ensures
        x == spec_u64_at(b@, off as int),
{
    let n = b.len();
    let b0 = b[off] as u64;
    let b1 = b[off + 1] as u64;
    let b2 = b[off + 2] as u64;
    let b3 = b[off + 3] as u64;
    let b4 = b[off + 4] as u64;
    let b5 = b[off + 5] as u64;
    let b6 = b[off + 6] as u64;
    let b7 = b[off + 7] as u64;
    proof {
        let s = b@.subrange(off as int, off + 8);
        assert(s[0] == b@[off as int] && s[1] == b@[off + 1] && s[2] == b@[off + 2] && s[3] == b@[
            off + 3] && s[4] == b@[off + 4] && s[5] == b@[off + 5] && s[6] == b@[off + 6] && s[7]
            == b@[off + 7]);
    }
    b0 | b1 << 8 | b2 << 16 | b3 << 24 | b4 << 32 | b5 << 40 | b6 << 48 | b7 << 56
}

/// Encode `x` as its 4 little-endian bytes.
pub fn encode_u32(x: u32) -> (r: Vec<u8>)
    ensures
        r@ == spec_u32_le(x),
        r@.len() == 4,
{
    proof {
        assert(x & 0xff < 256 && (x >> 8) & 0xff < 256 && (x >> 16) & 0xff < 256 && (x >> 24)
            & 0xff < 256) by (bit_vector);
    }
    let mut out: Vec<u8> = Vec::new();
    out.push((x & 0xff) as u8);
    out.push(((x >> 8) & 0xff) as u8);
    out.push(((x >> 16) & 0xff) as u8);
    out.push(((x >> 24) & 0xff) as u8);
    proof {
        assert(out@ =~= spec_u32_le(x));
    }
    out
}

/// Decode the 4 little-endian bytes of `b` starting at `off`.
pub fn decode_u32(b: &Vec<u8>, off: usize) -> (x: u32)
    requires
        off + 4 <= b@.len(),
    ensures
        x == spec_u32_of_le(b@.subrange(off as int, off + 4)),
{
    let n = b.len();
    let b0 = b[off] as u32;
    let b1 = b[off + 1] as u32;
    let b2 = b[off + 2] as u32;
    let b3 = b[off + 3] as u32;
    proof {
        let s = b@.subrange(off as int, off + 4);
        assert(s[0] == b@[off as int] && s[1] == b@[off + 1] && s[2] == b@[off + 2] && s[3] == b@[
            off + 3]);
    }
    b0 | b1 << 8 | b2 << 16 | b3 << 24
}

/// The `u64` encoded little-endian at offset `off` of `s`.
pub open spec fn spec_u64_at(s: Seq<u8>, off: int) -> u64 {
    spec_u64_of_le(s.subrange(off, off + 8))
}

/// Round trip for the 64-bit codec: decoding the little-endian encoding of
/// any `x` gives `x` back.
pub proof fn lemma_u64_codec_round_trip()
    ensures
        forall|x: u64| #[trigger] spec_u64_of_le(spec_u64_le(x)) == x,
{
    assert forall|x: u64| #[trigger] spec_u64_of_le(spec_u64_le(x)) == x by {
        assert(x == ((((x & 0xff) as u8) as u64)
            | ((((x >> 8) & 0xff) as u8) as u64) << 8
            | ((((x >> 16) & 0xff) as u8) as u64) << 16
            | ((((x >> 24) & 0xff) as u8) as u64) << 24
            | ((((x >> 32) & 0xff) as u8) as u64) << 32
            | ((((x >> 40) & 0xff) as u8) as u64) << 40
            | ((((x >> 48) & 0xff) as u8) as u64) << 48
            | ((((x >> 56) & 0xff) as u8) as u64) << 56)) by (bit_vector);
    }
}

/// Round trip for the 32-bit codec: decoding the little-endian encoding of
/// any `x` gives `x` back.
pub proof fn lemma_u32_codec_round_trip()
    ensures
        forall|x: u32| #[trigger] spec_u32_of_le(spec_u32_le(x)) == x,
{
    assert forall|x: u32| #[trigger] spec_u32_of_le(spec_u32_le(x)) == x by {
        assert(x == ((((x & 0xff) as u8) as u32)
            | ((((x >> 8) & 0xff) as u8) as u32) << 8
            | ((((x >> 16) & 0xff) as u8) as u32) << 16
            | ((((x >> 24) & 0xff) as u8) as u32) << 24)) by (bit_vector);
    }
}

/// An inode record (32 bytes on disk): parent back-link, payload offset,
/// payload size and raw type tag. The tag is validated only when the record
/// is used, so adversarial bytes still decode to a well-typed value.
#[derive(Copy, Clone, Debug, PartialEq, Eq, Structural)]
pub struct Inode {
    pub parent_inode: u64,
    pub offset: u64,
    pub size: u64,
    pub inode_type: u8,
}

/// The on-disk encoding of an inode record.
pub open spec fn spec_inode_bytes(i: Inode) -> Seq<u8> {
    spec_u64_le(i.parent_inode) + spec_u64_le(i.offset) + spec_u64_le(i.size) + seq![
        i.inode_type,
        0u8,
        0u8,
        0u8,
        0u8,
        0u8,
        0u8,
        0u8,
    ]
}

/// The inode record encoded at offset `off` of `s`.
pub open spec fn spec_inode_at(s: Seq<u8>, off: int) -> Inode {
    Inode {
        parent_inode: spec_u64_at(s, off),
        offset: spec_u64_at(s, off + 8),
        size: spec_u64_at(s, off + 16),
        inode_type: s[off + 24],
    }
}

/// Parsing an encoded inode record gives the record back, wherever it lies.
pub proof fn lemma_inode_round_trip(s: Seq<u8>, off: int, i: Inode)
    requires
        0 <= off,
        off + 32 <= s.len(),
        s.subrange(off, off + 32) == spec_inode_bytes(i),
    ensures
        spec_inode_at(s, off) == i,
{
    let enc = spec_inode_bytes(i);
    assert(s.subrange(off, off + 8) =~= enc.subrange(0, 8));
    assert(s.subrange(off + 8, off + 16) =~= enc.subrange(8, 16));
    assert(s.subrange(off + 16, off + 24) =~= enc.subrange(16, 24));
    assert(enc.subrange(0, 8) =~= spec_u64_le(i.parent_inode));
    assert(enc.subrange(8, 16) =~= spec_u64_le(i.offset));
    assert(enc.subrange(16, 24) =~= spec_u64_le(i.size));
    assert(s[off + 24] == enc[24]);
    lemma_u64_codec_round_trip();
}

/// Encode an inode record as its 32 on-disk bytes.
pub fn encode_inode(i: &Inode) -> (r: Vec<u8>)
    ensures
        r@ == spec_inode_bytes(*i),
        r@.len() == 32,
{
    let mut out: Vec<u8> = Vec::new();
    push_u64le(&mut out, i.parent_inode);
    push_u64le(&mut out, i.offset);
    push_u64le(&mut out, i.size);
    out.push(i.inode_type);
    let mut k: usize = 0;
    while k < 7
        invariant
            out@ == spec_u64_le(i.parent_inode) + spec_u64_le(i.offset) + spec_u64_le(i.size)
                + seq![i.inode_type] + Seq::new(k as nat, |j: int| 0u8),
            k <= 7,
        decreases 7 - k,
    {
        out.push(0u8);
        k = k + 1;
        proof {
            assert(Seq::new(k as nat, |j: int| 0u8) =~= Seq::new((k - 1) as nat, |j: int| 0u8)
                + seq![0u8]);
        }
    }
    proof {
        assert(out@ =~= spec_inode_bytes(*i));
    }
    out
}

/// Decode the 32 bytes of an inode record.
pub fn decode_inode(b: &Vec<u8>, off: usize) -> (i: Inode)
    requires
        off + 32 <= b@.len(),
    ensures
        i == spec_inode_at(b@, off as int),
{
    let n = b.len();
    Inode {
        parent_inode: decode_u64(b, off),
        offset: decode_u64(b, off + 8),
        size: decode_u64(b, off + 16),
        inode_type: b[off + 24],
    }
}

/// A directory entry (16 bytes on disk): the offset of a NUL-terminated
/// name string and the offset of the child's inode record.
#[derive(Copy, Clone, Debug, PartialEq, Eq, Structural)]
pub struct Dirent {
    pub name: u64,
    pub inode: u64,
}

/// The on-disk encoding of a directory entry.
pub open spec fn spec_dirent_bytes(d: Dirent) -> Seq<u8> {
    spec_u64_le(d.name) + spec_u64_le(d.inode)
}

/// The directory entry encoded at offset `off` of `s`.
pub open spec fn spec_dirent_at(s: Seq<u8>, off: int) -> Dirent {
    Dirent { name: spec_u64_at(s, off), inode: spec_u64_at(s, off + 8) }
}

/// Parsing an encoded directory entry gives the entry back.
pub proof fn lemma_dirent_round_trip(s: Seq<u8>, off: int, d: Dirent)
    requires
        0 <= off,
        off + 16 <= s.len(),
        s.subrange(off, off + 16) == spec_dirent_bytes(d),
    ensures
        spec_dirent_at(s, off) == d,
{
    let enc = spec_dirent_bytes(d);
    assert(s.subrange(off, off + 8) =~= enc.subrange(0, 8));
    assert(s.subrange(off + 8, off + 16) =~= enc.subrange(8, 16));
    assert(enc.subrange(0, 8) =~= spec_u64_le(d.name));
    assert(enc.subrange(8, 16) =~= spec_u64_le(d.inode));
    lemma_u64_codec_round_trip();
}

/// Encode a directory entry as its 16 on-disk bytes.
pub fn encode_dirent(d: &Dirent) -> (r: Vec<u8>)
    ensures
        r@ == spec_dirent_bytes(*d),
        r@.len() == 16,
{
    let mut out: Vec<u8> = Vec::new();
    push_u64le(&mut out, d.name);
    push_u64le(&mut out, d.inode);
    proof {
        assert(out@ =~= spec_dirent_bytes(*d));
    }
    out
}

/// Decode the 16 bytes of a directory entry.
pub fn decode_dirent(b: &Vec<u8>, off: usize) -> (d: Dirent)
    requires
        off + 16 <= b@.len(),
    ensures
        d == spec_dirent_at(b@, off as int),
{
    let n = b.len();
    Dirent { name: decode_u64(b, off), inode: decode_u64(b, off + 8) }
}

/// The parsed fields of the image header (32 bytes at absolute offset 0):
/// root inode offset, format version, and the compression and encryption
/// tags. The magic bytes are checked separately.
#[derive(Copy, Clone, Debug, PartialEq, Eq, Structural)]
pub struct Header {
    pub root_inode: u64,
    pub version_major: u8,
    pub version_minor: u8,
    pub compression_type: u8,
    pub encryption_type: u8,
}

/// The on-disk encoding of the header.
pub open spec fn spec_header_bytes(h: Header) -> Seq<u8> {
    spec_magic() + spec_u64_le(h.root_inode) + seq![
        h.version_major,
        h.version_minor,
        h.compression_type,
        h.encryption_type,
    ] + Seq::new(12, |j: int| 0u8)
}

/// The header fields encoded at the start of `s`.
pub open spec fn spec_header_of(s: Seq<u8>) -> Header {
    Header {
        root_inode: spec_u64_at(s, 8),
        version_major: s[16],
        version_minor: s[17],
        compression_type: s[18],
        encryption_type: s[19],
    }
}

/// True when `s` starts with the image magic.
pub open spec fn spec_magic_ok(s: Seq<u8>) -> bool {
    s.len() >= 32 && s.subrange(0, 8) == spec_magic()
}

/// Parsing an encoded header gives the fields back, and its magic checks.
pub proof fn lemma_header_round_trip(s: Seq<u8>, h: Header)
    requires
        s.len() >= 32,
        s.subrange(0, 32) == spec_header_bytes(h),
    ensures
        spec_header_of(s) == h,
        spec_magic_ok(s),
{
    let enc = spec_header_bytes(h);
    assert(s.subrange(0, 8) =~= enc.subrange(0, 8));
    assert(enc.subrange(0, 8) =~= spec_magic());
    assert(s.subrange(8, 16) =~= enc.subrange(8, 16));
    assert(enc.subrange(8, 16) =~= spec_u64_le(h.root_inode));
    assert(s[16] == enc[16] && s[17] == enc[17] && s[18] == enc[18] && s[19] == enc[19]);
    lemma_u64_codec_round_trip();
}

/// Encode the header as its 32 on-disk bytes.
pub fn encode_header(h: &Header) -> (r: Vec<u8>)
    ensures
        r@ == spec_header_bytes(*h),
        r@.len() == 32,
{
    let mut out = magic_bytes();
    push_u64le(&mut out, h.root_inode);
    out.push(h.version_major);
    out.push(h.version_minor);
    out.push(h.compression_type);
    out.push(h.encryption_type);
    let mut k: usize = 0;
    while k < 12
        invariant
            out@ == spec_magic() + spec_u64_le(h.root_inode) + seq![
                h.version_major,
                h.version_minor,
                h.compression_type,
                h.encryption_type,
            ] + Seq::new(k as nat, |j: int| 0u8),
            k <= 12,
        decreases 12 - k,
    {
        out.push(0u8);
        k = k + 1;
        proof {
            assert(Seq::new(k as nat, |j: int| 0u8) =~= Seq::new((k - 1) as nat, |j: int| 0u8)
                + seq![0u8]);
        }
    }
    proof {
        assert(out@ =~= spec_header_bytes(*h));
    }
    out
}

/// Decode the fields of a 32-byte header record.
pub fn decode_header(b: &Vec<u8>) -> (h: Header)
    requires
        b@.len() == 32,
    ensures
        h == spec_header_of(b@),
{
    Header {
        root_inode: decode_u64(b, 8),
        version_major: b[16],
        version_minor: b[17],
        compression_type: b[18],
        encryption_type: b[19],
    }
}

/// Check that a 32-byte header record begins with the image magic.
pub fn check_magic(b: &Vec<u8>) -> (r: bool)
    requires
        b@.len() == 32,
    ensures
        r == spec_magic_ok(b@),
{
    let m = magic_bytes();
    let mut k: usize = 0;
    let mut ok = true;
    while k < 8
        invariant
            k <= 8,
            m@ == spec_magic(),
            b@.len() == 32,
            ok == (forall|j: int| 0 <= j < k ==> b@[j] == spec_magic()[j]),
        decreases 8 - k,
    {
        if b[k] != m[k] {
            ok = false;
        }
        k = k + 1;
    }
    proof {
        if ok {
            assert(b@.subrange(0, 8) =~= spec_magic());
        } else {
            assert(b@.subrange(0, 8) != spec_magic()) by {
                let j = choose|j: int| 0 <= j < 8 && b@[j] != spec_magic()[j];
                assert(b@.subrange(0, 8)[j] != spec_magic()[j]);
            }
        }
    }
    ok
}

/// What an inode record describes.
#[derive(Copy, Clone, Debug, PartialEq, Eq, Structural)]
pub enum InodeType {
    Directory,
    File,
    Symlink,
}

impl InodeType {
    /// The defined on-disk discriminant of each inode type.
    pub open spec fn spec_to_u8(self) -> u8 {
        match self {
            InodeType::Directory => 0,
            InodeType::File => 1,
            InodeType::Symlink => 2,
        }
    }

    /// Encode this inode type as its on-disk discriminant.
    pub fn to_u8(self) -> (r: u8)
        ensures
            r == self.spec_to_u8(),
    {
        match self {
            InodeType::Directory => 0,
            InodeType::File => 1,
            InodeType::Symlink => 2,
        }
    }

    /// Decode an on-disk discriminant; any value other than the three
    /// defined ones is a `Format` error.
    pub fn from_u8(v: u8) -> (r: Result<InodeType, Error>)
        ensures
            r matches Ok(t) ==> v == t.spec_to_u8(),
            v == 0 ==> r == Ok::<InodeType, Error>(InodeType::Directory),
            v == 1 ==> r == Ok::<InodeType, Error>(InodeType::File),
            v == 2 ==> r == Ok::<InodeType, Error>(InodeType::Symlink),
            r is Err <==> v > 2,
            r matches Err(e) ==> e is Format,
    {
        match v {
            0 => Ok(InodeType::Directory),
            1 => Ok(InodeType::File),
            2 => Ok(InodeType::Symlink),
            _ => Err(Error::Format("InodeType")),
        }
    }
}

/// How the image body is encrypted.
#[derive(Copy, Clone, Debug, PartialEq, Eq, Structural)]
pub enum EncryptionType {
    Plain,
    ChaCha20,
}

impl EncryptionType {
    /// The defined on-disk discriminant of each encryption type.
    pub open spec fn spec_to_u8(self) -> u8 {
        match self {
            EncryptionType::Plain => 0,
            EncryptionType::ChaCha20 => 1,
        }
    }

    /// Encode this encryption type as its on-disk discriminant.
    pub fn to_u8(self) -> (r: u8)
        ensures
            r == self.spec_to_u8(),
    {
        match self {
            EncryptionType::Plain => 0,
            EncryptionType::ChaCha20 => 1,
        }
    }

    /// Decode an on-disk discriminant; any value other than the two defined
    /// ones is a `Format` error.
    pub fn from_u8(v: u8) -> (r: Result<EncryptionType, Error>)
        ensures
            r matches Ok(t) ==> v == t.spec_to_u8(),
            v == 0 ==> r == Ok::<EncryptionType, Error>(EncryptionType::Plain),
            v == 1 ==> r == Ok::<EncryptionType, Error>(EncryptionType::ChaCha20),
            r is Err <==> v > 1,
            r matches Err(e) ==> e is Format,
    {
        match v {
            0 => Ok(EncryptionType::Plain),
            1 => Ok(EncryptionType::ChaCha20),
            _ => Err(Error::Format("EncryptionType")),
        }
    }
}

/// How the image body is compressed; only `None` is defined.
#[derive(Copy, Clone, Debug, PartialEq, Eq, Structural)]
pub enum CompressionType {
    Uncompressed,
}

impl CompressionType {
    /// The defined on-disk discriminant of each compression type.
    pub open spec fn spec_to_u8(self) -> u8 {
        match self {
            CompressionType::Uncompressed => 0,
        }
    }

    /// Encode this compression type as its on-disk discriminant.
    pub fn to_u8(self) -> (r: u8)
        ensures
            r == self.spec_to_u8(),
    {
        match self {
            CompressionType::Uncompressed => 0,
        }
    }

    /// Decode an on-disk discriminant; any value other than `0` is a
    /// `Format` error.
    pub fn from_u8(v: u8) -> (r: Result<CompressionType, Error>)
        ensures
            v == 0 ==> r == Ok::<CompressionType, Error>(CompressionType::Uncompressed),
            r is Err <==> v > 0,
            r matches Err(e) ==> e is Format,
    {
        match v {
            0 => Ok(CompressionType::Uncompressed),
            _ => Err(Error::Format("CompressionType")),
        }
    }
}

} // verus!
