//! URL classification behaviour.

use llvmenv::error::Error;
use llvmenv::resource::{get_filename_from_url, Resource};

#[test]
fn test_get_filename_from_url() {
    let url = "http://releases.llvm.org/6.0.1/llvm-6.0.1.src.tar.xz";
    assert_eq!(get_filename_from_url(url).unwrap(), "llvm-6.0.1.src.tar.xz");
}

#[test]
fn test_with_git_branches() {
    let github_mirror = "https://github.com/llvm-mirror/llvm";
    let git = Resource::from_url(github_mirror).unwrap();
    assert_eq!(
        git,
        Some(Resource::Git {
            url: github_mirror.into(),
            branch: None,
        })
    );
    assert_eq!(
        Resource::from_url("https://github.com/llvm-mirror/llvm#release_80").unwrap(),
        Some(Resource::Git {
            url: "https://github.com/llvm-mirror/llvm".into(),
            branch: Some("release_80".into()),
        })
    );
}

#[test]
fn archive_suffixes_classify_as_tar() {
    let urls = [
        "http://releases.llvm.org/6.0.1/llvm-6.0.1.src.tar.xz",
        "http://example.com/dl/llvm-9.0.0.src.tar.gz",
        "http://example.com/dl/llvm.tar.bz2",
        "http://example.com/dl/llvm.tar.Z",
        "http://example.com/dl/llvm.tgz",
        "http://example.com/dl/llvm.taz",
    ];
    for url in urls.iter() {
        assert_eq!(
            Resource::from_url(url).unwrap(),
            Some(Resource::Tar { url: (*url).into() }),
            "unexpected classification for {}",
            url
        );
    }
}

#[test]
fn trunk_classifies_as_svn() {
    assert_eq!(
        Resource::from_url("http://host/svn-project/trunk").unwrap(),
        Some(Resource::Svn {
            url: "http://host/svn-project/trunk".into(),
        })
    );
}

#[test]
fn git_suffix_strips_fragment_into_branch() {
    assert_eq!(
        Resource::from_url("https://github.com/org/repo.git#release_80").unwrap(),
        Some(Resource::Git {
            url: "https://github.com/org/repo.git".into(),
            branch: Some("release_80".into()),
        })
    );
}

#[test]
fn llvm_org_paths_decide_kind() {
    assert_eq!(
        Resource::from_url("http://llvm.org/svn/llvm-project/llvm").unwrap(),
        Some(Resource::Svn {
            url: "http://llvm.org/svn/llvm-project/llvm".into(),
        })
    );
    assert_eq!(
        Resource::from_url("http://llvm.org/git/llvm").unwrap(),
        Some(Resource::Git {
            url: "http://llvm.org/git/llvm".into(),
            branch: None,
        })
    );
}

#[test]
fn host_alone_is_enough_for_a_hosting_service() {
    // The parser serializes an empty path as `/`.
    assert_eq!(
        Resource::from_url("https://github.com").unwrap(),
        Some(Resource::Git {
            url: "https://github.com/".into(),
            branch: None,
        })
    );
}

#[test]
fn unknown_host_needs_probe() {
    assert_eq!(Resource::from_url("https://example.com/repo").unwrap(), None);
    assert_eq!(Resource::from_url("mailto:user@example.com").unwrap(), None);
}

#[test]
fn unparseable_url_is_rejected() {
    assert!(matches!(
        Resource::from_url("not a url").unwrap_err(),
        Error::InvalidUrl { .. }
    ));
    assert!(matches!(
        get_filename_from_url("not a url").unwrap_err(),
        Error::InvalidUrl { .. }
    ));
}

#[test]
fn probe_outcome_decides_between_git_and_svn() {
    assert_eq!(
        Resource::from_probe("https://example.com/x#br", true).unwrap(),
        Resource::Git {
            url: "https://example.com/x".into(),
            branch: Some("br".into()),
        }
    );
    assert_eq!(
        Resource::from_probe("https://example.com/x#br", false).unwrap(),
        Resource::Svn {
            url: "https://example.com/x#br".into(),
        }
    );
}
