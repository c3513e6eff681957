//! Archive layout normalization and decompressor selection.

use llvmenv::archive::{decompressor_for, unpack_target, Decompressor};
use llvmenv::error::Error;

#[test]
fn unpack_target_strips_first_component() {
    assert_eq!(unpack_target("dest", "X-1.0/a.txt"), "dest/a.txt");
    assert_eq!(unpack_target("dest", "X-1.0/sub/a.txt"), "dest/sub/a.txt");
    assert_eq!(unpack_target("dest", "./X-1.0/a.txt"), "dest/a.txt");
    assert_eq!(unpack_target("dest", "X-1.0//a.txt"), "dest/a.txt");
}

#[test]
fn unpack_target_of_top_entry_is_destination() {
    assert_eq!(unpack_target("dest", "X-1.0/"), "dest");
    assert_eq!(unpack_target("dest", "X-1.0"), "dest");
    assert_eq!(unpack_target("dest", ""), "dest");
}

#[test]
fn unpack_synthetic_archive_drops_top_folder() {
    let content = b"hello";
    let mut header = tar::Header::new_gnu();
    header.set_path("X-1.0/a.txt").unwrap();
    header.set_size(content.len() as u64);
    header.set_cksum();
    let mut builder = tar::Builder::new(Vec::new());
    builder.append(&header, &content[..]).unwrap();
    let data = builder.into_inner().unwrap();

    let dir = tempfile::tempdir().unwrap();
    let dest = dir.path().to_str().unwrap().to_string();
    let mut archive = tar::Archive::new(&data[..]);
    for entry in archive.entries().unwrap() {
        let mut entry = entry.unwrap();
        let recorded = entry.path().unwrap().to_str().unwrap().to_string();
        let target = unpack_target(&dest, &recorded);
        entry.unpack(std::path::Path::new(&target)).unwrap();
    }
    assert!(dir.path().join("a.txt").exists());
    assert!(!dir.path().join("X-1.0").exists());
}

#[test]
fn decompressor_follows_suffix() {
    assert_eq!(
        decompressor_for("http://a/x.tar.gz").unwrap(),
        Decompressor::Gzip
    );
    assert_eq!(decompressor_for("http://a/x.tgz").unwrap(), Decompressor::Gzip);
    assert_eq!(decompressor_for("http://a/x.taz").unwrap(), Decompressor::Gzip);
    assert_eq!(decompressor_for("http://a/x.tar.xz").unwrap(), Decompressor::Xz);
    assert!(matches!(
        decompressor_for("http://a/x.tar.bz2").unwrap_err(),
        Error::UnsupportedArchiveFormat { .. }
    ));
    assert!(matches!(
        decompressor_for("http://a/x.zip").unwrap_err(),
        Error::UnsupportedArchiveFormat { .. }
    ));
}
