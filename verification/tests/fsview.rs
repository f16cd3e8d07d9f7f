//! End-to-end scenarios: write a tree, open the image, traverse it.

use libsquash::fs::{FSItem, FS};
use libsquash::write::{write_image, SourceNode};
use libsquash::{EncryptionType, Error};

fn minimal_tree() -> SourceNode {
    SourceNode::Directory(vec![
        (b"a".to_vec(), SourceNode::File(vec![0x01, 0x02, 0x03])),
        (b"b".to_vec(), SourceNode::Symlink(b"a".to_vec())),
    ])
}

fn read_all(f: &libsquash::fs::File<'_, Vec<u8>>) -> Vec<u8> {
    let mut buf = vec![0u8; f.size() as usize];
    let n = f.read_at(&mut buf, 0).unwrap();
    assert_eq!(n as u64, f.size());
    buf
}

#[test]
fn minimal_tree_resolves() {
    let raw = write_image(&minimal_tree(), None, EncryptionType::Plain).unwrap();
    let fs = FS::open(raw, None).unwrap();
    let root = fs.get_root().unwrap();
    assert_eq!(root.len(), 2);

    let e0 = root.get(0).unwrap().unwrap();
    assert_eq!(e0.file_name().unwrap(), b"a".to_vec());
    assert!(e0.file_type().unwrap().is_file());
    let e1 = root.get(1).unwrap().unwrap();
    assert_eq!(e1.file_name().unwrap(), b"b".to_vec());
    assert!(e1.file_type().unwrap().is_symlink());
    assert!(root.get(2).unwrap().is_none());

    match root.resolve(b"a").unwrap().unwrap() {
        FSItem::File(f) => {
            assert_eq!(f.size(), 3);
            assert_eq!(read_all(&f), vec![0x01, 0x02, 0x03]);
        }
        _ => panic!("expected a file"),
    }
    // The symlink is followed transparently to the same file.
    match root.resolve(b"b").unwrap().unwrap() {
        FSItem::File(f) => assert_eq!(read_all(&f), vec![0x01, 0x02, 0x03]),
        _ => panic!("expected a file through the symlink"),
    }
    match root.resolve(b"b").unwrap().unwrap() {
        FSItem::File(_) => {}
        _ => panic!("expected a file"),
    }
    // The symlink handle itself can be read through position 1.
    match e1.item().unwrap() {
        FSItem::Symlink(s) => assert_eq!(s.get_link().unwrap(), b"a".to_vec()),
        _ => panic!("expected a symlink"),
    }
    // Missing names are a normal non-error outcome.
    assert!(root.resolve(b"c").unwrap().is_none());
}

#[test]
fn dirent_iteration_in_order() {
    let raw = write_image(&minimal_tree(), None, EncryptionType::Plain).unwrap();
    let fs = FS::open(raw, None).unwrap();
    let root = fs.get_root().unwrap();
    let mut it = root.iter();
    let mut names: Vec<Vec<u8>> = Vec::new();
    while let Some(e) = it.next() {
        names.push(e.unwrap().file_name().unwrap());
    }
    assert_eq!(names, vec![b"a".to_vec(), b"b".to_vec()]);
}

#[test]
fn absolute_and_relative_paths() {
    let tree = SourceNode::Directory(vec![(
        b"x".to_vec(),
        SourceNode::Directory(vec![(b"y".to_vec(), SourceNode::File(vec![7, 8]))]),
    )]);
    let raw = write_image(&tree, None, EncryptionType::Plain).unwrap();
    let fs = FS::open(raw, None).unwrap();
    let root = fs.get_root().unwrap();

    for path in [b"x/y".as_slice(), b"/x/y".as_slice()] {
        match root.resolve(path).unwrap().unwrap() {
            FSItem::File(f) => assert_eq!(read_all(&f), vec![7, 8]),
            _ => panic!("expected a file"),
        }
    }
    let x = match root.resolve(b"x").unwrap().unwrap() {
        FSItem::Directory(d) => d,
        _ => panic!("expected a directory"),
    };
    for path in [b"y".as_slice(), b"/x/y".as_slice(), b"../x/y".as_slice()] {
        match x.resolve(path).unwrap().unwrap() {
            FSItem::File(f) => assert_eq!(read_all(&f), vec![7, 8]),
            _ => panic!("expected a file"),
        }
    }
    // Empty segments and dots are skipped.
    match root.resolve(b"x//.//y").unwrap().unwrap() {
        FSItem::File(f) => assert_eq!(read_all(&f), vec![7, 8]),
        _ => panic!("expected a file"),
    }
}

#[test]
fn dot_dot_at_root_is_root() {
    let raw = write_image(&minimal_tree(), None, EncryptionType::Plain).unwrap();
    let fs = FS::open(raw, None).unwrap();
    let root = fs.get_root().unwrap();
    match root.resolve(b"..").unwrap().unwrap() {
        FSItem::Directory(d) => assert_eq!(d.len(), 2),
        _ => panic!("the parent of the root is the root"),
    }
    match root.resolve(b"").unwrap().unwrap() {
        FSItem::Directory(d) => assert_eq!(d.len(), 2),
        _ => panic!("the empty path resolves to the start"),
    }
}

#[test]
fn symlink_cycle_is_bounded() {
    let tree = SourceNode::Directory(vec![
        (b"a".to_vec(), SourceNode::Symlink(b"b".to_vec())),
        (b"b".to_vec(), SourceNode::Symlink(b"a".to_vec())),
    ]);
    let raw = write_image(&tree, None, EncryptionType::Plain).unwrap();
    let fs = FS::open(raw, None).unwrap();
    let root = fs.get_root().unwrap();
    match root.resolve(b"a") {
        Err(Error::Bounds(_)) => {}
        other => panic!("expected a bounds error, got {:?}", other.is_ok()),
    }
}

#[test]
fn symlink_target_length_is_bounded() {
    let tree = SourceNode::Directory(vec![(
        b"long".to_vec(),
        SourceNode::Symlink(vec![b'x'; 1025]),
    )]);
    let raw = write_image(&tree, None, EncryptionType::Plain).unwrap();
    let fs = FS::open(raw, None).unwrap();
    let root = fs.get_root().unwrap();
    let e = root.get(0).unwrap().unwrap();
    match e.item().unwrap() {
        FSItem::Symlink(s) => match s.get_link() {
            Err(Error::Bounds(_)) => {}
            _ => panic!("expected a bounds error"),
        },
        _ => panic!("expected a symlink"),
    }
    // A target of exactly the bound still reads.
    let tree = SourceNode::Directory(vec![(
        b"edge".to_vec(),
        SourceNode::Symlink(vec![b'x'; 1024]),
    )]);
    let raw = write_image(&tree, None, EncryptionType::Plain).unwrap();
    let fs = FS::open(raw, None).unwrap();
    let root = fs.get_root().unwrap();
    match root.get(0).unwrap().unwrap().item().unwrap() {
        FSItem::Symlink(s) => assert_eq!(s.get_link().unwrap().len(), 1024),
        _ => panic!("expected a symlink"),
    }
}

#[test]
fn traversal_through_file_is_invalid() {
    let raw = write_image(&minimal_tree(), None, EncryptionType::Plain).unwrap();
    let fs = FS::open(raw, None).unwrap();
    let root = fs.get_root().unwrap();
    match root.resolve(b"a/oops") {
        Err(Error::InvalidOperation(_)) => {}
        _ => panic!("expected an invalid-operation error"),
    }
}

#[test]
fn corrupt_header_is_rejected() {
    let good = write_image(&minimal_tree(), None, EncryptionType::Plain).unwrap();

    let mut bad = good.clone();
    bad[0] ^= 0xff;
    assert!(matches!(FS::open(bad, None), Err(Error::Format(_))));

    let mut bad = good.clone();
    bad[16] = 1;
    assert!(matches!(FS::open(bad, None), Err(Error::Format(_))));

    let mut bad = good.clone();
    bad[19] = 42;
    assert!(matches!(FS::open(bad, None), Err(Error::Format(_))));

    let mut bad = good.clone();
    bad[18] = 1;
    assert!(matches!(FS::open(bad, None), Err(Error::Format(_))));

    assert!(matches!(FS::open(vec![1, 2, 3], None), Err(_)));
    assert!(FS::open(good, None).is_ok());
}

#[test]
fn truncated_image_is_a_typed_error() {
    let good = write_image(&minimal_tree(), None, EncryptionType::Plain).unwrap();
    // Keep the header but cut the body: opening still works (lazy reads),
    // while traversal hits a typed error, never a panic.
    let cut = good[..32].to_vec();
    let fs = FS::open(cut, None).unwrap();
    match fs.get_root() {
        Err(Error::IO(_)) => {}
        _ => panic!("expected an unexpected-end error"),
    }
}

#[test]
fn adversarial_bytes_never_panic() {
    // Arbitrary buffers either fail to open or traverse to typed errors.
    let mut probes: Vec<Vec<u8>> = vec![
        Vec::new(),
        vec![0u8; 31],
        vec![0u8; 32],
        vec![0xffu8; 64],
    ];
    let good = write_image(&minimal_tree(), None, EncryptionType::Plain).unwrap();
    for i in 0..good.len() {
        let mut m = good.clone();
        m[i] = m[i].wrapping_add(0x55);
        probes.push(m);
    }
    for p in probes {
        if let Ok(fs) = FS::open(p, None) {
            if let Ok(root) = fs.get_root() {
                let _ = root.resolve(b"a");
                let _ = root.resolve(b"b/../a");
                let mut it = root.iter();
                for _ in 0..4 {
                    match it.next() {
                        Some(Ok(e)) => {
                            let _ = e.file_name();
                            let _ = e.file_type();
                            let _ = e.item();
                        }
                        Some(Err(_)) => {}
                        None => break,
                    }
                }
            }
        }
    }
}

#[test]
fn writer_rejects_bad_trees() {
    // The root must be a directory.
    match write_image(&SourceNode::File(vec![1]), None, EncryptionType::Plain) {
        Err(Error::InvalidOperation(_)) => {}
        _ => panic!("expected an invalid-operation error"),
    }
    // Children must be strictly ascending by name.
    let unsorted = SourceNode::Directory(vec![
        (b"b".to_vec(), SourceNode::File(vec![])),
        (b"a".to_vec(), SourceNode::File(vec![])),
    ]);
    assert!(write_image(&unsorted, None, EncryptionType::Plain).is_err());
    let dup = SourceNode::Directory(vec![
        (b"a".to_vec(), SourceNode::File(vec![])),
        (b"a".to_vec(), SourceNode::File(vec![])),
    ]);
    assert!(write_image(&dup, None, EncryptionType::Plain).is_err());
    // Names cannot be empty or hold `/` or NUL.
    for bad in [b"".to_vec(), b"a/b".to_vec(), b"a\0b".to_vec()] {
        let t = SourceNode::Directory(vec![(bad, SourceNode::File(vec![]))]);
        assert!(write_image(&t, None, EncryptionType::Plain).is_err());
    }
}

#[test]
fn empty_payloads_round_trip() {
    let tree = SourceNode::Directory(vec![
        (b"dir".to_vec(), SourceNode::Directory(Vec::new())),
        (b"empty".to_vec(), SourceNode::File(Vec::new())),
    ]);
    let raw = write_image(&tree, None, EncryptionType::Plain).unwrap();
    let fs = FS::open(raw, None).unwrap();
    let root = fs.get_root().unwrap();
    match root.resolve(b"dir").unwrap().unwrap() {
        FSItem::Directory(d) => assert_eq!(d.len(), 0),
        _ => panic!("expected a directory"),
    }
    match root.resolve(b"empty").unwrap().unwrap() {
        FSItem::File(f) => {
            assert_eq!(f.size(), 0);
            let mut buf = vec![9u8; 4];
            assert_eq!(f.read_at(&mut buf, 0).unwrap(), 0);
            assert_eq!(buf, vec![9u8; 4]);
        }
        _ => panic!("expected a file"),
    }
}

#[test]
fn file_reads_clamp_to_size() {
    let tree = SourceNode::Directory(vec![(
        b"f".to_vec(),
        SourceNode::File((0u8..10).collect()),
    )]);
    let raw = write_image(&tree, None, EncryptionType::Plain).unwrap();
    let fs = FS::open(raw, None).unwrap();
    let root = fs.get_root().unwrap();
    let f = match root.resolve(b"f").unwrap().unwrap() {
        FSItem::File(f) => f,
        _ => panic!("expected a file"),
    };
    let mut buf = vec![0u8; 4];
    assert_eq!(f.read_at(&mut buf, 8).unwrap(), 2);
    assert_eq!(&buf[..2], &[8, 9]);
    assert_eq!(f.read_at(&mut buf, 100).unwrap(), 0);
    assert_eq!(f.read_at(&mut buf, 2).unwrap(), 4);
    assert_eq!(buf, vec![2, 3, 4, 5]);
}

#[test]
fn nested_tree_round_trips() {
    let tree = SourceNode::Directory(vec![
        (
            b"docs".to_vec(),
            SourceNode::Directory(vec![
                (b"deep".to_vec(), SourceNode::Directory(vec![(
                    b"leaf".to_vec(),
                    SourceNode::File(b"bottom".to_vec()),
                )])),
                (b"readme".to_vec(), SourceNode::File(b"hello".to_vec())),
            ]),
        ),
        (b"link".to_vec(), SourceNode::Symlink(b"docs/readme".to_vec())),
        (b"zzz".to_vec(), SourceNode::File(vec![0xaa; 300])),
    ]);
    let raw = write_image(&tree, None, EncryptionType::Plain).unwrap();
    let fs = FS::open(raw, None).unwrap();
    let root = fs.get_root().unwrap();
    match root.resolve(b"docs/deep/leaf").unwrap().unwrap() {
        FSItem::File(f) => assert_eq!(read_all(&f), b"bottom".to_vec()),
        _ => panic!("expected a file"),
    }
    match root.resolve(b"link").unwrap().unwrap() {
        FSItem::File(f) => assert_eq!(read_all(&f), b"hello".to_vec()),
        _ => panic!("expected a file through the symlink"),
    }
    match root.resolve(b"zzz").unwrap().unwrap() {
        FSItem::File(f) => assert_eq!(read_all(&f), vec![0xaa; 300]),
        _ => panic!("expected a file"),
    }
    // Binary search takes no NUL-less prefix of a sibling for a hit.
    assert!(root.resolve(b"doc").unwrap().is_none());
    assert!(root.resolve(b"docsx").unwrap().is_none());
}

#[test]
fn write_then_extract_round_trips() {
    let tree = SourceNode::Directory(vec![
        (
            b"docs".to_vec(),
            SourceNode::Directory(vec![
                (b"a".to_vec(), SourceNode::File(b"alpha".to_vec())),
                (b"b".to_vec(), SourceNode::Symlink(b"a".to_vec())),
            ]),
        ),
        (b"empty".to_vec(), SourceNode::Directory(Vec::new())),
        (b"top".to_vec(), SourceNode::File((0u8..200).collect())),
    ]);
    let raw = libsquash::write_image(&tree, None, EncryptionType::Plain).unwrap();
    let img = libsquash::open_file(raw, None).unwrap();
    let root = img.header.root_inode;
    let back = libsquash::extract_tree(&img, root, 0).unwrap();
    assert_eq!(back, tree);
}

#[test]
fn encrypted_write_then_extract_round_trips() {
    let key: Vec<u8> = (0u8..36).collect();
    let tree = SourceNode::Directory(vec![(
        b"payload".to_vec(),
        SourceNode::File((0u8..=255).rev().collect()),
    )]);
    let raw = libsquash::write_image(&tree, Some(&key), EncryptionType::ChaCha20).unwrap();
    let img = libsquash::open_file(raw, Some(&key)).unwrap();
    let root = img.header.root_inode;
    let back = libsquash::extract_tree(&img, root, 0).unwrap();
    assert_eq!(back, tree);
}

#[test]
fn fs_resolve_from_root() {
    let raw = write_image(&minimal_tree(), None, EncryptionType::Plain).unwrap();
    let fs = FS::open(raw, None).unwrap();
    match fs.resolve(b"/a").unwrap().unwrap() {
        FSItem::File(f) => assert_eq!(read_all(&f), vec![0x01, 0x02, 0x03]),
        _ => panic!("expected a file"),
    }
    assert!(fs.resolve(b"missing").unwrap().is_none());
}

#[test]
fn trivial_segments_do_not_require_a_directory() {
    // Empty and `.` segments skip without the directory check, so a
    // trailing `/` or `/.` after a file still yields the file; only a
    // real name under a file is an invalid traversal.
    let raw = write_image(&minimal_tree(), None, EncryptionType::Plain).unwrap();
    let fs = FS::open(raw, None).unwrap();
    let root = fs.get_root().unwrap();
    for path in [b"a/".as_slice(), b"a/.".as_slice(), b"a//".as_slice()] {
        match root.resolve(path).unwrap().unwrap() {
            FSItem::File(f) => assert_eq!(f.size(), 3),
            _ => panic!("expected the file"),
        }
    }
}
