//! Record and discriminant codec tests.

use libsquash::codec::{
    decode_u64, encode_header, encode_u64, u32le, u64le, CompressionType, EncryptionType, Header,
    InodeType,
};
use libsquash::Error;

#[test]
fn test_u64le() {
    let val: u64 = 0x0102030405060708;
    let t: u64le = val.into();

    assert_eq!(t.val, val.to_le());

    let val2: u64 = t.into();

    assert_eq!(val, val2);
}

#[test]
fn tests_test_u64le() {
    let val: u64 = 0x0102030405060708;
    let t: u64le = val.into();

    assert_eq!(t.val, val.to_le());

    let val2: u64 = t.into();

    assert_eq!(val, val2);
}

#[test]
fn test_u32le() {
    let val: u32 = 0x01020304;
    let t: u32le = val.into();

    assert_eq!(t.val, val.to_le());

    let val2: u32 = t.into();

    assert_eq!(val, val2);
}

#[test]
fn tests_test_u32le() {
    let val: u32 = 0x01020304;
    let t: u32le = val.into();

    assert_eq!(t.val, val.to_le());

    let val2: u32 = t.into();

    assert_eq!(val, val2);
}

#[test]
fn test_encryption_type() {
    let v: u8 = 0;
    let t = EncryptionType::from_u8(v);

    assert!(matches!(t, Ok(EncryptionType::Plain)));

    let v: u8 = 1;
    let t: Result<EncryptionType, Error> = EncryptionType::from_u8(v);

    assert!(matches!(t, Ok(EncryptionType::ChaCha20)));

    let v: u8 = 2;
    let t: Result<EncryptionType, Error> = EncryptionType::from_u8(v);

    assert!(matches!(t, Err(_)));

    let v: u8 = EncryptionType::Plain.to_u8();
    assert_eq!(v, 0);

    let v: u8 = EncryptionType::ChaCha20.to_u8();
    assert_eq!(v, 1);
}

#[test]
fn tests_test_encryption_type() {
    let v: u8 = 0;
    let t = EncryptionType::from_u8(v);

    assert!(matches!(t, Ok(EncryptionType::Plain)));

    let v: u8 = 1;
    let t: Result<EncryptionType, Error> = EncryptionType::from_u8(v);

    assert!(matches!(t, Ok(EncryptionType::ChaCha20)));

    let v: u8 = EncryptionType::Plain.to_u8();
    assert_eq!(v, 0);
}

#[test]
fn test_compression_type() {
    let v: u8 = 0;
    let t = CompressionType::from_u8(v);

    assert!(matches!(t, Ok(CompressionType::Uncompressed)));

    let v: u8 = 1;
    let t: Result<CompressionType, Error> = CompressionType::from_u8(v);

    assert!(matches!(t, Err(_)));

    let v: u8 = CompressionType::Uncompressed.to_u8();
    assert_eq!(v, 0);
}

#[test]
fn tests_test_compression_type() {
    let v: u8 = 0;
    let t = CompressionType::from_u8(v);

    assert!(matches!(t, Ok(CompressionType::Uncompressed)));

    let v: u8 = 1;
    let t: Result<CompressionType, Error> = CompressionType::from_u8(v);

    assert!(matches!(t, Err(_)));

    let v: u8 = CompressionType::Uncompressed.to_u8();
    assert_eq!(v, 0);
}

#[test]
fn test_inode_type() {
    let v: u8 = 0;
    let t = InodeType::from_u8(v);

    assert!(matches!(t, Ok(InodeType::Directory)));

    let v: u8 = 1;
    let t = InodeType::from_u8(v);

    assert!(matches!(t, Ok(InodeType::File)));

    let v: u8 = 2;
    let t = InodeType::from_u8(v);

    assert!(matches!(t, Ok(InodeType::Symlink)));

    let v: u8 = 3;
    let t: Result<InodeType, Error> = InodeType::from_u8(v);

    assert!(matches!(t, Err(_)));

    let v: u8 = InodeType::Directory.to_u8();
    assert_eq!(v, 0);

    let v: u8 = InodeType::File.to_u8();
    assert_eq!(v, 1);

    let v: u8 = InodeType::Symlink.to_u8();
    assert_eq!(v, 2);
}

#[test]
fn tests_test_inode_type() {
    let v: u8 = 0;
    let t = InodeType::from_u8(v);

    assert!(matches!(t, Ok(InodeType::Directory)));

    let v: u8 = 1;
    let t = InodeType::from_u8(v);

    assert!(matches!(t, Ok(InodeType::File)));

    let v: u8 = 2;
    let t = InodeType::from_u8(v);

    assert!(matches!(t, Ok(InodeType::Symlink)));

    let v: u8 = 3;
    let t: Result<InodeType, Error> = InodeType::from_u8(v);

    assert!(matches!(t, Err(_)));

    let v: u8 = InodeType::Directory.to_u8();
    assert_eq!(v, 0);

    let v: u8 = InodeType::File.to_u8();
    assert_eq!(v, 1);

    let v: u8 = InodeType::Symlink.to_u8();
    assert_eq!(v, 2);
}

#[test]
fn integer_codec_round_trip_and_layout() {
    let x: u64 = 0x0102030405060708;
    let enc = encode_u64(x);
    assert_eq!(enc, vec![0x08, 0x07, 0x06, 0x05, 0x04, 0x03, 0x02, 0x01]);
    assert_eq!(decode_u64(&enc, 0), x);

    let zero = encode_u64(0);
    assert_eq!(zero, vec![0; 8]);
    assert_eq!(decode_u64(&zero, 0), 0);

    let max = encode_u64(u64::MAX);
    assert_eq!(max, vec![0xff; 8]);
    assert_eq!(decode_u64(&max, 0), u64::MAX);
}

#[test]
fn header_layout_exact() {
    let h = Header {
        root_inode: 0x20,
        version_major: 0,
        version_minor: 0,
        compression_type: 0,
        encryption_type: 1,
    };
    let b = encode_header(&h);
    assert_eq!(b.len(), 32);
    assert_eq!(&b[0..8], b"SQUASHFL");
    assert_eq!(&b[8..16], &[0x20, 0, 0, 0, 0, 0, 0, 0]);
    assert_eq!(&b[16..20], &[0, 0, 0, 1]);
    assert_eq!(&b[20..32], &[0u8; 12]);
}
