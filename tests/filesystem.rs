use ghafuse::attr::{FileKind, FILE_SIZE};
use ghafuse::fs::GhaFs;
use ghafuse::github::{Asset, Release, Timestamp};
use ghafuse::tree::{find_release_mapping, generate_release_mappings, ReleaseMapping};

fn asset(id: u32, name: &str, size: u64) -> Asset {
    Asset {
        url: format!("https://api.example/assets/{}", id),
        id,
        name: name.to_string(),
        content_type: "application/octet-stream".to_string(),
        size,
        browser_download_url: format!("https://example/download/{}", name),
    }
}

fn release(id: u32, tag: &str, assets: Vec<Asset>) -> Release {
    let at = Timestamp { seconds: 1_600_000_000, nanos: 0 };
    Release {
        url: format!("https://api.example/releases/{}", id),
        id,
        tag_name: tag.to_string(),
        created_at: at,
        published_at: at,
        assets,
    }
}

fn listing(fs: &GhaFs, ino: u64, offset: u64) -> Vec<(u64, u64, FileKind, String)> {
    fs.readdir(ino, offset)
        .expect("a directory")
        .into_iter()
        .map(|e| (e.ino, e.offset, e.kind, e.name))
        .collect()
}

fn one_release() -> Vec<Release> {
    vec![release(
        7,
        "v1.0",
        vec![asset(70, "app.bin", 10), asset(71, "app.sig", 5)],
    )]
}

#[test]
fn one_release_two_assets() {
    let fs = GhaFs::new(&one_release()).unwrap();
    let root = listing(&fs, 1, 0);
    assert_eq!(root.len(), 3);
    assert_eq!(root[0], (1, 1, FileKind::Directory, ".".to_string()));
    assert_eq!(root[1], (1, 2, FileKind::Directory, "..".to_string()));
    let x = root[2].0;
    assert_eq!(root[2], (x, 3, FileKind::Directory, "v1.0".to_string()));
    assert_eq!(x, 2);

    let dir = fs.lookup(1, "v1.0").unwrap();
    assert_eq!(dir.ino, x);
    assert_eq!(dir.kind, FileKind::Directory);
    assert_eq!(dir.size, 0);

    let tag = listing(&fs, x, 0);
    assert_eq!(tag.len(), 4);
    assert_eq!(tag[0], (x, 1, FileKind::Directory, ".".to_string()));
    assert_eq!(tag[1], (1, 2, FileKind::Directory, "..".to_string()));
    let y = tag[2].0;
    let z = tag[3].0;
    assert_eq!(tag[2], (y, 3, FileKind::RegularFile, "app.bin".to_string()));
    assert_eq!(tag[3], (z, 4, FileKind::RegularFile, "app.sig".to_string()));
    assert_eq!((y, z), (3, 4));

    let content = fs.read(y, 0).unwrap();
    assert!(!content.is_empty());
    assert_eq!(content, b"HelloWorld-3\n".to_vec());
    assert_eq!(fs.read(y, 100).unwrap(), Vec::<u8>::new());
}

#[test]
fn empty_catalog() {
    let fs = GhaFs::new(&[]).unwrap();
    let root = listing(&fs, 1, 0);
    assert_eq!(
        root,
        vec![
            (1, 1, FileKind::Directory, ".".to_string()),
            (1, 2, FileKind::Directory, "..".to_string()),
        ]
    );
    assert_eq!(fs.lookup(1, "anything"), None);
    assert_eq!(fs.getattr(2), None);
    assert_eq!(fs.read(2, 0), None);
}

#[test]
fn root_attributes() {
    let fs = GhaFs::new(&one_release()).unwrap();
    let root = fs.getattr(1).unwrap();
    assert_eq!(root.ino, 1);
    assert_eq!(root.kind, FileKind::Directory);
    assert_eq!(root.nlink, 2);
    assert_eq!(root.perm, 0o755);
    assert_eq!(fs.read(1, 0), None);
}

#[test]
fn attributes_of_known_and_unknown() {
    let fs = GhaFs::new(&one_release()).unwrap();
    let tag = fs.getattr(2).unwrap();
    assert_eq!((tag.ino, tag.kind, tag.size, tag.nlink), (2, FileKind::Directory, 0, 1));
    let file = fs.getattr(4).unwrap();
    assert_eq!((file.ino, file.kind, file.size), (4, FileKind::RegularFile, FILE_SIZE));
    assert_eq!(file.perm, 0o644);
    assert_eq!(file.rdev, 4);
    assert_eq!(fs.getattr(5), None);
    assert_eq!(fs.getattr(0), None);
    assert_eq!(fs.getattr(u64::MAX), None);
}

#[test]
fn lookup_files_and_misses() {
    let fs = GhaFs::new(&one_release()).unwrap();
    let sig = fs.lookup(2, "app.sig").unwrap();
    assert_eq!((sig.ino, sig.kind, sig.size), (4, FileKind::RegularFile, FILE_SIZE));
    assert_eq!(fs.lookup(2, "missing"), None);
    assert_eq!(fs.lookup(1, "app.sig"), None);
    assert_eq!(fs.lookup(3, "app.sig"), None);
    assert_eq!(fs.lookup(99, "v1.0"), None);
}

#[test]
fn listing_resumes_after_offset() {
    let rels = vec![
        release(1, "a", vec![]),
        release(2, "b", vec![asset(1, "x", 1)]),
        release(3, "c", vec![]),
    ];
    let fs = GhaFs::new(&rels).unwrap();
    let full = listing(&fs, 1, 0);
    assert_eq!(full.len(), 5);
    for k in 0..=6u64 {
        let rest = listing(&fs, 1, k);
        let expected: Vec<_> = full.iter().skip(k as usize).cloned().collect();
        assert_eq!(rest, expected);
    }
    let names: Vec<_> = full.iter().map(|e| e.3.clone()).collect();
    assert_eq!(names, vec![".", "..", "a", "b", "c"]);
    let inos: Vec<_> = full.iter().map(|e| e.0).collect();
    assert_eq!(inos, vec![1, 1, 2, 3, 5]);
    assert_eq!(fs.readdir(4, 0).is_none(), true);
    assert!(fs.readdir(77, 0).is_none());
}

#[test]
fn release_without_assets_lists_only_dots() {
    let fs = GhaFs::new(&[release(1, "empty", vec![])]).unwrap();
    assert_eq!(
        listing(&fs, 2, 0),
        vec![
            (2, 1, FileKind::Directory, ".".to_string()),
            (1, 2, FileKind::Directory, "..".to_string()),
        ]
    );
}

#[test]
fn duplicate_names_keep_first() {
    let rels = vec![
        release(1, "v1", vec![asset(1, "a", 1), asset(2, "a", 2), asset(3, "b", 3)]),
        release(2, "v1", vec![asset(4, "c", 1)]),
        release(3, "v2", vec![asset(5, "a", 1)]),
    ];
    let fs = GhaFs::new(&rels).unwrap();
    let root = listing(&fs, 1, 0);
    let names: Vec<_> = root.iter().map(|e| (e.0, e.3.clone())).collect();
    assert_eq!(
        names,
        vec![
            (1, ".".to_string()),
            (1, "..".to_string()),
            (2, "v1".to_string()),
            (5, "v2".to_string()),
        ]
    );
    let v1 = listing(&fs, 2, 0);
    let files: Vec<_> = v1.iter().skip(2).map(|e| (e.0, e.3.clone())).collect();
    assert_eq!(files, vec![(3, "a".to_string()), (4, "b".to_string())]);
    assert_eq!(fs.lookup(2, "c"), None);
    assert_eq!(fs.lookup(5, "a").unwrap().ino, 6);
}

#[test]
fn read_offsets() {
    let fs = GhaFs::new(&one_release()).unwrap();
    let whole = fs.read(4, 0).unwrap();
    assert_eq!(whole, b"HelloWorld-4\n".to_vec());
    assert_eq!(fs.read(4, 5).unwrap(), b"World-4\n".to_vec());
    assert_eq!(fs.read(4, 12).unwrap(), b"\n".to_vec());
    assert_eq!(fs.read(4, 13).unwrap(), Vec::<u8>::new());
    assert_eq!(fs.read(4, u64::MAX).unwrap(), Vec::<u8>::new());
    for n1 in 0..14u64 {
        for n2 in n1..14u64 {
            let a = fs.read(4, n1).unwrap();
            let b = fs.read(4, n2).unwrap();
            assert_eq!(b, a[(n2 - n1) as usize..].to_vec());
        }
    }
    assert_eq!(fs.read(2, 0), None);
    assert_eq!(fs.read(9, 0), None);
}

#[test]
fn placeholder_fits_declared_size() {
    let content = ghafuse::attr::placeholder_content(u64::MAX);
    assert_eq!(content, b"HelloWorld-18446744073709551615\n".to_vec());
    assert_eq!(content.len() as u64, FILE_SIZE);
    assert_eq!(ghafuse::attr::decimal_digits(0), b"0".to_vec());
    assert_eq!(ghafuse::attr::decimal_digits(1234), b"1234".to_vec());
}

#[test]
fn rebuild_gives_same_tree() {
    let a = GhaFs::new(&one_release()).unwrap();
    let b = GhaFs::new(&one_release()).unwrap();
    assert_eq!(listing(&a, 1, 0), listing(&b, 1, 0));
    assert_eq!(listing(&a, 2, 0), listing(&b, 2, 0));
}

#[test]
fn mappings_of_catalog() {
    let rels = one_release();
    let mappings = generate_release_mappings(&rels).unwrap();
    assert_eq!(mappings.len(), 1);
    assert_eq!(mappings[0].0, "v1.0");
    assert_eq!(mappings[0].1.ino, 2);
    assert_eq!(
        mappings[0].1.asset_mappings,
        vec![("app.bin".to_string(), 3), ("app.sig".to_string(), 4)]
    );
    assert_eq!(find_release_mapping(&mappings, 2).unwrap().ino, 2);
    assert!(find_release_mapping(&mappings, 3).is_none());
    let m = ReleaseMapping::new(9, vec![]);
    assert_eq!(m.ino, 9);
    assert!(m.asset_mappings.is_empty());
}
