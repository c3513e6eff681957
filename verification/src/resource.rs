//! Remote LLVM/Clang sources: classify a URL as a Subversion repository, a
//! git repository, or a tar archive.
//!
//! Classification is a chain of rules, first match wins: recognized archive
//! suffixes, a final `trunk` segment, a `.git` suffix, known git-hosting
//! domains, and the `llvm.org` `/svn` and `/git` path prefixes.  A URL that
//! none of the rules decides needs a network probe with git; the probe itself
//! is run by the caller and its outcome is handed to [`Resource::from_probe`].

use vstd::prelude::*;

use crate::error::Error;
use crate::text::{
    ends_with, last_segment, last_segment_of, seq_ends_with, seq_starts_with, starts_with, str_eq,
};

verus! {

/// The pieces of a parsed URL that classification reads, as plain strings.
pub struct UrlParts {
    /// Host, lower-cased and punycoded by the parser, if the URL has one.
    pub host: Option<String>,
    /// Path, percent-encoded; starts with `/` unless the URL is opaque.
    pub path: String,
    /// Fragment (the part after `#`), if any.
    pub fragment: Option<String>,
    /// The URL serialized with its fragment removed.
    pub base: String,
    /// True for URLs whose path is opaque (no `/`-separated segments).
    pub opaque: bool,
}

/// The view of [`UrlParts`]: the same pieces over character sequences.
pub struct UrlView {
    pub host: Option<Seq<char>>,
    pub path: Seq<char>,
    pub fragment: Option<Seq<char>>,
    pub base: Seq<char>,
    pub opaque: bool,
}

impl View for UrlParts {
    type V = UrlView;

    open spec fn view(&self) -> UrlView {
        UrlView {
            host: match self.host {
                Some(h) => Some(h@),
                None => None,
            },
            path: self.path@,
            fragment: match self.fragment {
                Some(f) => Some(f@),
                None => None,
            },
            base: self.base@,
            opaque: self.opaque,
        }
    }
}

/// What the URL parser returns on a given string: `None` when the string is
/// not a URL, otherwise the parsed pieces.
pub uninterp spec fn url_parse_of(s: Seq<char>) -> Option<UrlView>;

/// Relies on `url::Url::parse` and its accessors `host_str`, `path`,
/// `fragment` and `cannot_be_a_base`, and on the serialization left by
/// `set_fragment(None)`: all of them are functions of the URL string alone.
#[verifier::external_body]
fn parse_url(s: &str) -> (r: Option<UrlParts>)
    ensures
        r is Some <==> url_parse_of(s@) is Some,
        r matches Some(p) ==> url_parse_of(s@) == Some(p@),
{
    let mut u = match url::Url::parse(s) {
        Ok(u) => u,
        Err(_) => return None,
    };
    let host = u.host_str().map(|h| h.to_string());
    let path = u.path().to_string();
    let fragment = u.fragment().map(|f| f.to_string());
    let opaque = u.cannot_be_a_base();
    u.set_fragment(None);
    Some(UrlParts { host, path, fragment, base: String::from(u), opaque })
}

/// A remote LLVM/Clang resource.
#[derive(Debug, PartialEq)]
pub enum Resource {
    /// Remote Subversion repository.
    Svn { url: String },
    /// Remote git repository, with an optional branch to check out.
    Git { url: String, branch: Option<String> },
    /// Tar archive.
    Tar { url: String },
}

/// The view of [`Resource`] over character sequences.
pub enum ResourceView {
    Svn { url: Seq<char> },
    Git { url: Seq<char>, branch: Option<Seq<char>> },
    Tar { url: Seq<char> },
}

impl View for Resource {
    type V = ResourceView;

    open spec fn view(&self) -> ResourceView {
        match self {
            Resource::Svn { url } => ResourceView::Svn { url: url@ },
            Resource::Git { url, branch } => ResourceView::Git {
                url: url@,
                branch: match branch {
                    Some(b) => Some(b@),
                    None => None,
                },
            },
            Resource::Tar { url } => ResourceView::Tar { url: url@ },
        }
    }
}

/// What the classification rules say about one URL.
pub enum Classification {
    /// The string is not a URL at all.
    Invalid,
    /// One of the rules decided the resource.
    Resolved(ResourceView),
    /// No rule applied; only the network probe can decide.
    NeedsProbe,
}

/// `name` ends in one of the recognized archive suffixes.
pub open spec fn is_archive_name(name: Seq<char>) -> bool {
    ||| seq_ends_with(name, ".tar.gz"@)
    ||| seq_ends_with(name, ".tar.xz"@)
    ||| seq_ends_with(name, ".tar.bz2"@)
    ||| seq_ends_with(name, ".tar.Z"@)
    ||| seq_ends_with(name, ".tgz"@)
    ||| seq_ends_with(name, ".taz"@)
}

/// The classification chain, over the URL string and what the parser made of
/// it.  Rules on the final path segment apply only to non-opaque URLs, which
/// are the ones that have path segments at all.
pub open spec fn spec_classify(url: Seq<char>, parsed: Option<UrlView>) -> Classification {
    match parsed {
        None => Classification::Invalid,
        Some(v) => {
            let name = last_segment_of(v.path);
            if !v.opaque && is_archive_name(name) {
                Classification::Resolved(ResourceView::Tar { url })
            } else if !v.opaque && seq_ends_with(name, "trunk"@) {
                Classification::Resolved(ResourceView::Svn { url })
            } else if !v.opaque && seq_ends_with(name, ".git"@) {
                Classification::Resolved(ResourceView::Git { url: v.base, branch: v.fragment })
            } else if v.host == Some("github.com"@) || v.host == Some("gitlab.com"@) {
                Classification::Resolved(ResourceView::Git { url: v.base, branch: v.fragment })
            } else if v.host == Some("llvm.org"@) && seq_starts_with(v.path, "/svn"@) {
                Classification::Resolved(ResourceView::Svn { url })
            } else if v.host == Some("llvm.org"@) && seq_starts_with(v.path, "/git"@) {
                Classification::Resolved(ResourceView::Git { url: v.base, branch: v.fragment })
            } else {
                Classification::NeedsProbe
            }
        },
    }
}

/// Any URL whose final path segment carries a recognized archive suffix is
/// classified as an archive, with the URL itself kept unchanged.
pub proof fn lemma_archive_suffix_is_tar(url: Seq<char>, v: UrlView)
    requires
        !v.opaque,
        is_archive_name(last_segment_of(v.path)),
    ensures
        spec_classify(url, Some(v)) == Classification::Resolved(ResourceView::Tar { url }),
{
}

/// Does `name` end in one of the recognized archive suffixes?
pub fn is_archive(name: &str) -> (r: bool)
    ensures
        r == is_archive_name(name@),
{
    ends_with(name, ".tar.gz") || ends_with(name, ".tar.xz") || ends_with(name, ".tar.bz2")
        || ends_with(name, ".tar.Z") || ends_with(name, ".tgz") || ends_with(name, ".taz")
}

/// The final path segment of a URL, the part the suffix rules look at.
pub fn get_filename_from_url(url_str: &str) -> (r: Result<String, Error>)
    ensures
        (match url_parse_of(url_str@) {
            None => (r matches Err(e) && (e matches Error::InvalidUrl { url } && url@
                == url_str@)),
            Some(v) => {
                if v.opaque {
                    r matches Err(e) && (e matches Error::InvalidUrl { url } && url@ == url_str@)
                } else {
                    r matches Ok(f) && f@ == last_segment_of(v.path)
                }
            },
        }),
{
    let p = match parse_url(url_str) {
        None => {
            return Err(Error::InvalidUrl { url: String::from_str(url_str) });
        },
        Some(p) => p,
    };
    if p.opaque {
        return Err(Error::InvalidUrl { url: String::from_str(url_str) });
    }
    Ok(String::from_str(last_segment(p.path.as_str())))
}

impl Resource {
    /// Classify `url_str` by the pure rules alone.
    ///
    /// `Ok(Some(_))` is a decided resource, `Ok(None)` means only the network
    /// probe can tell a git repository from a Subversion one, and `Err` is
    /// returned exactly when the string cannot be parsed as a URL.
    pub fn from_url(url_str: &str) -> (r: Result<Option<Resource>, Error>)
        ensures
            (match r {
                Ok(Some(res)) => spec_classify(url_str@, url_parse_of(url_str@))
                    == Classification::Resolved(res@),
                Ok(None) => spec_classify(url_str@, url_parse_of(url_str@))
                    is NeedsProbe,
                Err(e) => spec_classify(url_str@, url_parse_of(url_str@)) is Invalid && (e matches
                    Error::InvalidUrl { url } && url@ == url_str@),
            }),
    {
        let p = match parse_url(url_str) {
            None => {
                return Err(Error::InvalidUrl { url: String::from_str(url_str) });
            },
            Some(p) => p,
        };
        let ghost v: UrlView = p@;
        let UrlParts { host, path, fragment, base, opaque } = p;
        if !opaque {
            let filename = last_segment(path.as_str());
            if is_archive(filename) {
                return Ok(Some(Resource::Tar { url: String::from_str(url_str) }));
            }
            if ends_with(filename, "trunk") {
                return Ok(Some(Resource::Svn { url: String::from_str(url_str) }));
            }
            if ends_with(filename, ".git") {
                return Ok(Some(Resource::Git { url: base, branch: fragment }));
            }
        }
        match &host {
            Some(h) => {
                if str_eq(h.as_str(), "github.com") || str_eq(h.as_str(), "gitlab.com") {
                    return Ok(Some(Resource::Git { url: base, branch: fragment }));
                }
                if str_eq(h.as_str(), "llvm.org") {
                    if starts_with(path.as_str(), "/svn") {
                        return Ok(Some(Resource::Svn { url: String::from_str(url_str) }));
                    }
                    if starts_with(path.as_str(), "/git") {
                        return Ok(Some(Resource::Git { url: base, branch: fragment }));
                    }
                }
            },
            None => {},
        }
        Ok(None)
    }

    /// The decision taken after the network probe: a listing that succeeded
    /// means a git repository, a listing that failed means Subversion.
    pub fn from_probe(url_str: &str, listing_ok: bool) -> (r: Result<Resource, Error>)
        ensures
            (match url_parse_of(url_str@) {
                None => (r matches Err(e) && (e matches Error::InvalidUrl { url } && url@
                    == url_str@)),
                Some(v) => {
                    if listing_ok {
                        r matches Ok(res) && res@ == (ResourceView::Git {
                            url: v.base,
                            branch: v.fragment,
                        })
                    } else {
                        r matches Ok(res) && res@ == (ResourceView::Svn { url: url_str@ })
                    }
                },
            }),
    {
        let p = match parse_url(url_str) {
            None => {
                return Err(Error::InvalidUrl { url: String::from_str(url_str) });
            },
            Some(p) => p,
        };
        if listing_ok {
            Ok(Resource::Git { url: p.base, branch: p.fragment })
        } else {
            Ok(Resource::Svn { url: String::from_str(url_str) })
        }
    }
}

} // verus!
