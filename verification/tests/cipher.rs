//! Encrypted-image scenarios: the cipher layer preserves random access and
//! the key material rules are enforced.

use libsquash::fs::{FSItem, FS};
use libsquash::write::{write_image, SourceNode};
use libsquash::{EncryptionType, Error};

fn test_key() -> Vec<u8> {
    vec![
        64, 60, 203, 113, 201, 153, 102, 4, 55, 136, 199, 178, 247, 227, 180, 200, 127, 74, 31,
        45, 33, 211, 31, 37, 95, 239, 116, 26, 100, 38, 110, 186, 191, 93, 50, 95,
    ]
}

fn sample_tree() -> SourceNode {
    SourceNode::Directory(vec![
        (b"a".to_vec(), SourceNode::File((0u8..=255).collect())),
        (b"b".to_vec(), SourceNode::Symlink(b"a".to_vec())),
    ])
}

#[test]
fn encrypted_round_trip() {
    let key = test_key();
    let raw = write_image(&sample_tree(), Some(&key), EncryptionType::ChaCha20).unwrap();
    let fs = FS::open(raw, Some(&key)).unwrap();
    let root = fs.get_root().unwrap();
    assert_eq!(root.len(), 2);
    match root.resolve(b"b").unwrap().unwrap() {
        FSItem::File(f) => {
            assert_eq!(f.size(), 256);
            let mut buf = vec![0u8; 256];
            assert_eq!(f.read_at(&mut buf, 0).unwrap(), 256);
            let want: Vec<u8> = (0u8..=255).collect();
            assert_eq!(buf, want);
        }
        _ => panic!("expected a file"),
    }
}

#[test]
fn encrypted_body_differs_from_plaintext() {
    let key = test_key();
    let plain = write_image(&sample_tree(), None, EncryptionType::Plain).unwrap();
    let enc = write_image(&sample_tree(), Some(&key), EncryptionType::ChaCha20).unwrap();
    assert_eq!(plain.len(), enc.len());
    // The header stays cleartext but for the encryption tag.
    assert_eq!(&plain[0..19], &enc[0..19]);
    assert_eq!(plain[19], 0);
    assert_eq!(enc[19], 1);
    // The body really is transformed.
    assert_ne!(&plain[32..], &enc[32..]);
}

#[test]
fn cipher_reads_are_positionally_consistent() {
    let key = test_key();
    let raw = write_image(&sample_tree(), Some(&key), EncryptionType::ChaCha20).unwrap();
    let fs = FS::open(raw, Some(&key)).unwrap();
    let root = fs.get_root().unwrap();
    let f = match root.resolve(b"a").unwrap().unwrap() {
        FSItem::File(f) => f,
        _ => panic!("expected a file"),
    };
    // Two overlapping reads agree byte for byte on the overlap.
    let mut one = vec![0u8; 64];
    assert_eq!(f.read_at(&mut one, 0).unwrap(), 64);
    let mut two = vec![0u8; 64];
    assert_eq!(f.read_at(&mut two, 32).unwrap(), 64);
    assert_eq!(&one[32..64], &two[0..32]);
    let want: Vec<u8> = (0u8..96).collect();
    assert_eq!(&one[..], &want[0..64]);
    assert_eq!(&two[..], &want[32..96]);
}

#[test]
fn key_material_rules() {
    let key = test_key();
    let raw = write_image(&sample_tree(), Some(&key), EncryptionType::ChaCha20).unwrap();

    // No key at all.
    match FS::open(raw.clone(), None) {
        Err(Error::Crypto(_)) => {}
        _ => panic!("expected a crypto error"),
    }
    // Wrong key length.
    let short = vec![1u8; 16];
    match FS::open(raw.clone(), Some(&short)) {
        Err(Error::Crypto(_)) => {}
        _ => panic!("expected a crypto error"),
    }
    // A wrong key of the right length opens (the cipher is unauthenticated)
    // but decrypts to bytes the validator treats as garbage somewhere down
    // the line; nothing may panic.
    let mut wrong = test_key();
    wrong[0] ^= 1;
    if let Ok(fs) = FS::open(raw.clone(), Some(&wrong)) {
        if let Ok(root) = fs.get_root() {
            let _ = root.resolve(b"a");
        }
    }
    // Writing demands the same rules.
    match write_image(&sample_tree(), None, EncryptionType::ChaCha20) {
        Err(Error::Crypto(_)) => {}
        _ => panic!("expected a crypto error"),
    }
    match write_image(&sample_tree(), Some(&short), EncryptionType::ChaCha20) {
        Err(Error::Crypto(_)) => {}
        _ => panic!("expected a crypto error"),
    }
}
