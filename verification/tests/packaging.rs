use std::io::Read;

use skyline_update::archive::{package_bundle, BundleFile};

fn extract_all(bytes: &[u8]) -> Vec<(String, Vec<u8>)> {
    let mut ar = tar::Archive::new(bytes);
    let mut out = Vec::new();
    for entry in ar.entries().unwrap() {
        let mut entry = entry.unwrap();
        let name = entry.path().unwrap().to_str().unwrap().to_string();
        let mut data = Vec::new();
        entry.read_to_end(&mut data).unwrap();
        out.push((name, data));
    }
    out
}

#[test]
fn packaged_bundle_extracts_to_the_original_tree() {
    let files = vec![
        BundleFile { path: "plugins/foo/assets/a.txt".to_string(), data: b"hello world".to_vec() },
        BundleFile {
            path: "plugins/foo/assets/sub/b.bin".to_string(),
            data: vec![0, 1, 2, 254, 255],
        },
        BundleFile { path: "plugins/foo/assets/sub/deep/c".to_string(), data: vec![] },
    ];
    let bytes = package_bundle("plugins/foo/assets", &files).unwrap();
    let extracted = extract_all(&bytes);
    assert_eq!(extracted.len(), 3);
    assert_eq!(extracted[0].0, "a.txt");
    assert_eq!(extracted[0].1, b"hello world".to_vec());
    assert_eq!(extracted[1].0, "sub/b.bin");
    assert_eq!(extracted[1].1, vec![0, 1, 2, 254, 255]);
    assert_eq!(extracted[2].0, "sub/deep/c");
    assert!(extracted[2].1.is_empty());
}

#[test]
fn empty_bundle_packages_to_an_empty_archive() {
    let bytes = package_bundle("plugins/foo/assets", &vec![]).unwrap();
    assert!(extract_all(&bytes).is_empty());
}

#[test]
fn file_outside_the_bundle_root_fails_packaging() {
    let files = vec![
        BundleFile { path: "plugins/foo/other/a.txt".to_string(), data: vec![1] },
    ];
    assert!(package_bundle("plugins/foo/assets", &files).is_err());
}

#[test]
fn file_equal_to_the_bundle_root_fails_packaging() {
    let files = vec![BundleFile { path: "plugins/foo/assets".to_string(), data: vec![1] }];
    assert!(package_bundle("plugins/foo/assets", &files).is_err());
}
