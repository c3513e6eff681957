//! Build listing, version detection, and marker-file resolution.

use llvmenv::builds::{
    builds, marker_path, parse_version, seek_build, Build, MarkerFile, ScanEntry, Version,
};
use llvmenv::error::{Error, FileIoConvert};

#[test]
fn test_parse_version() {
    // A Debian-style suffix after the three numbers is ignored.
    let version = "clang version 6.0.1-svn331815-1~exp1~20180510084719.80 (branches/release_60)";
    assert_eq!(parse_version(version).unwrap(), Version::new(6, 0, 1));

    let version = "clang version 10.0.0 \
        (https://github.com/llvm-mirror/clang 65acf43270ea2894dffa0d0b292b92402f80c8cb)";
    assert_eq!(parse_version(version).unwrap(), Version::new(10, 0, 0));

    let version = "123+456y0";
    assert!(matches!(
        parse_version(version).unwrap_err(),
        Error::InvalidVersion { .. }
    ));
    assert_eq!(
        parse_version("foo 123.456.789 bar").unwrap(),
        Version::new(123, 456, 789)
    );
}

#[test]
fn parse_version_finds_first_group() {
    assert_eq!(
        parse_version("version 6.0.1-svn331815-1~exp1").unwrap(),
        Version::new(6, 0, 1)
    );
    assert_eq!(parse_version("1.2.3").unwrap(), Version::new(1, 2, 3));
}

#[test]
fn parse_version_rejects_oversized_numbers() {
    assert!(matches!(
        parse_version("99999999999999999999.0.0").unwrap_err(),
        Error::InvalidVersion { .. }
    ));
}

#[test]
fn builds_baseline_first() {
    let scanned = vec![
        ScanEntry { name: "zeta".to_string(), has_bin: true },
        ScanEntry { name: "alpha".to_string(), has_bin: true },
        ScanEntry { name: "nobin".to_string(), has_bin: false },
    ];
    let bs = builds(&scanned, "/data");
    let names: Vec<&str> = bs.iter().map(|b| b.name()).collect();
    assert_eq!(names, vec!["system", "alpha", "zeta"]);
    assert_eq!(bs[0].prefix(), "/usr");
    assert_eq!(bs[1].prefix(), "/data/alpha");
    assert_eq!(bs[2].prefix(), "/data/zeta");
}

#[test]
fn builds_of_empty_scan_is_baseline_alone() {
    let bs = builds(&Vec::new(), "/data");
    assert_eq!(bs.len(), 1);
    assert_eq!(bs[0].name(), "system");
}

fn marker(dir: &str, content: Option<&str>) -> MarkerFile {
    MarkerFile {
        dir: dir.to_string(),
        content: content.map(|c| c.to_string()),
    }
}

#[test]
fn seek_local_overrides_stale_global() {
    // A marker two directories up names "foo", which exists; the global
    // marker names "bar", which does not.
    let locals = vec![
        marker("/home/u/proj/sub", None),
        marker("/home/u/proj", None),
        marker("/home/u", Some("foo\n")),
    ];
    let global = marker("/cfg", Some("bar"));
    let installed = vec!["foo".to_string()];
    let b = seek_build(&locals, &global, &installed, "/data");
    assert_eq!(b.name(), "foo");
    assert_eq!(b.prefix(), "/data/foo");
    assert_eq!(b.env_path(), Some("/home/u/.llvmenv"));
}

#[test]
fn seek_falls_back_to_baseline() {
    // No local markers, and the global marker names a build that is absent.
    let locals = vec![marker("/home/u/proj", None), marker("/home/u", None)];
    let global = marker("/cfg", Some("missing"));
    let b = seek_build(&locals, &global, &Vec::new(), "/data");
    assert_eq!(b.name(), "system");
    assert_eq!(b.prefix(), "/usr");
    assert_eq!(b.env_path(), None);
}

#[test]
fn seek_skips_stale_local_marker() {
    let locals = vec![
        marker("/a/b", Some("gone")),
        marker("/a", Some("real")),
    ];
    let global = marker("/cfg", None);
    let installed = vec!["real".to_string()];
    let b = seek_build(&locals, &global, &installed, "/data");
    assert_eq!(b.name(), "real");
    assert_eq!(b.env_path(), Some("/a/.llvmenv"));
}

#[test]
fn seek_uses_global_when_no_local_hit() {
    let locals = vec![marker("/a/b", None)];
    let global = marker("/cfg", Some("g"));
    let installed = vec!["g".to_string()];
    let b = seek_build(&locals, &global, &installed, "/data");
    assert_eq!(b.name(), "g");
    assert_eq!(b.prefix(), "/data/g");
    assert_eq!(b.env_path(), Some("/cfg/.llvmenv"));
}

#[test]
fn seek_reads_markers_by_trimming() {
    let locals = vec![marker("/a", Some("  spaced \n"))];
    let global = marker("/cfg", None);
    let installed = vec!["spaced".to_string()];
    let b = seek_build(&locals, &global, &installed, "/data");
    assert_eq!(b.name(), "spaced");
}

#[test]
fn seek_ignores_blank_marker() {
    // A marker of pure whitespace trims to the empty name, which no build
    // carries, so the search continues.
    let locals = vec![marker("/a/b", Some("   \n")), marker("/a", Some("real"))];
    let global = marker("/cfg", None);
    let installed = vec!["real".to_string()];
    let b = seek_build(&locals, &global, &installed, "/data");
    assert_eq!(b.name(), "real");
}

#[test]
fn seek_accepts_baseline_marker() {
    // The reserved name resolves even though no scan ever lists it.
    let locals = vec![marker("/a", Some("system"))];
    let global = marker("/cfg", None);
    let b = seek_build(&locals, &global, &Vec::new(), "/data");
    assert_eq!(b.name(), "system");
    assert_eq!(b.prefix(), "/usr");
    assert_eq!(b.env_path(), Some("/a/.llvmenv"));
}

#[test]
fn build_constructors() {
    let sys = Build::system();
    assert_eq!(sys.name(), "system");
    assert_eq!(sys.prefix(), "/usr");

    let b = Build::from_name("mine", "/data");
    assert_eq!(b.name(), "mine");
    assert_eq!(b.prefix(), "/data/mine");

    let s = Build::from_name("system", "/data");
    assert_eq!(s.prefix(), "/usr");

    let p = Build::from_path("/data/other");
    assert_eq!(p.name(), "other");
    assert_eq!(p.prefix(), "/data/other");
}

#[test]
fn marker_path_appends_marker_name() {
    assert_eq!(marker_path("/a/b"), "/a/b/.llvmenv");
}

#[test]
fn with_converts_io_errors() {
    let ok: Result<u32, std::io::Error> = Ok(7);
    assert_eq!(ok.with("/p").unwrap(), 7);
    let err: Result<u32, std::io::Error> =
        Err(std::io::Error::new(std::io::ErrorKind::NotFound, "x"));
    assert!(matches!(err.with("/p").unwrap_err(), Error::FileIo { .. }));
}

#[test]
fn invalid_version_keeps_text() {
    match Error::invalid_version("junk") {
        Error::InvalidVersion { version } => assert_eq!(version, "junk"),
        _ => unreachable!(),
    }
}
