//! Error type shared by the whole crate.

use vstd::prelude::*;

verus! {

/// Everything that can go wrong while classifying, fetching, listing or
/// resolving builds. Failures of external tools carry the command line and,
/// where it was captured, the tool's output.
#[derive(Debug)]
pub enum Error {
    /// An I/O operation on `path` failed.
    FileIo { path: String },
    /// No platform configuration/cache/data directory could be determined.
    UnsupportedOS,
    /// No `major.minor.patch` version could be read out of `version`.
    InvalidVersion { version: String },
    /// `url` could not be parsed, or no classification rule applied to it.
    InvalidUrl { url: String },
    /// The archive at `url` uses a compression this crate cannot decode.
    UnsupportedArchiveFormat { url: String },
    /// An HTTP request for `url` came back with a non-success `status`.
    HttpError { url: String, status: u16 },
    /// An external command exited with a nonzero code.
    CommandError { errno: i32, cmd: String, stdout: Option<String>, stderr: Option<String> },
    /// An external command could not be started at all.
    CommandNotFound { cmd: String },
    /// An external command was killed by a signal before it could exit.
    CommandTerminatedBySignal { cmd: String, stdout: Option<String>, stderr: Option<String> },
    /// Unpacking an archive entry to `path` failed for a reason other than
    /// the file already being there.
    ArchiveUnpackFailure { path: String },
    /// A marker file exists at `path` but its content could not be read.
    MarkerUnreadable { path: String },
    /// A build was looked up by `name` but no such build is installed.
    BuildNotFound { name: String },
}

impl Error {
    /// The error used whenever version detection fails on the text `version`.
    pub fn invalid_version(version: &str) -> (r: Error)
        ensures
            r matches Error::InvalidVersion { version: v } && v@ == version@,
    {
        Error::InvalidVersion { version: String::from_str(version) }
    }
}

/// `std::io::Error`, declared so results carrying it can be converted here.
#[verifier::external_type_specification]
#[verifier::external_body]
pub struct ExIoError(std::io::Error);

/// Conversion of I/O results into this crate's [`Error`], recording the path
/// the operation was about.
pub trait FileIoConvert<T>: Sized {
    /// Did the underlying operation succeed?
    spec fn io_ok(&self) -> bool;

    /// The value of a successful operation.
    spec fn io_val(self) -> T
        recommends
            self.io_ok(),
    ;

    /// Keep a success; turn a failure into [`Error::FileIo`] carrying `path`.
    fn with(self, path: &str) -> (r: Result<T, Error>)
        ensures
            self.io_ok() ==> (r matches Ok(v) && v == self.io_val()),
            !self.io_ok() ==> (r matches Err(e) && (e matches Error::FileIo { path: p } && p@
                == path@)),
    ;
}

impl<T> FileIoConvert<T> for Result<T, std::io::Error> {
    open spec fn io_ok(&self) -> bool {
        self is Ok
    }

    open spec fn io_val(self) -> T {
        self->Ok_0
    }

    fn with(self, path: &str) -> (r: Result<T, Error>) {
        match self {
            Ok(v) => Ok(v),
            Err(_) => Err(Error::FileIo { path: String::from_str(path) }),
        }
    }
}

} // verus!
