//! What can go wrong, by kind, with the text that a variant reports.

use vstd::prelude::*;

verus! {

/// The broad kinds of failure.
#[derive(Debug, Clone, Copy, PartialEq, Eq, Structural)]
pub enum ErrorKind {
    /// The filter configuration is malformed.
    Config,
    /// An invoked tool ended with a failure status.
    ExternalTool,
    /// The destination exists already.
    OutputConflict,
    /// A file or package that should be on disk is not.
    Layout,
    /// Output of a tool, or a version, could not be read.
    Parse,
    /// A condition that the filter itself must keep was broken.
    Integrity,
}

/// A failure of the filter.
#[derive(Debug, Clone)]
pub enum Error {
    /// The tier is none of the curated ones.
    InvalidTier(String),
    /// An exclude rule lacks the `#` between package and path.
    MissingExcludeSeparator(String),
    /// An exclude pattern is an absolute path.
    AbsoluteExclude(String),
    /// An exclude pattern is no valid glob.
    InvalidExcludePattern(String),
    /// A tool ended with a failure status; its diagnostic output.
    ToolFailed(String),
    /// The output path exists already.
    OutputExists(String),
    /// A package directory lacks one of the files it must hold.
    MissingFile(String),
    /// A package that is needed has no directory in the vendored tree.
    PackageNotVendored(String),
    /// A line of the edge listing has fewer than two tokens.
    IncompleteTreeLine(String),
    /// A version token of the edge listing lacks its `v`.
    MissingVersionPrefix(String),
    /// A version is no semantic version.
    InvalidVersion { version: String, package: String },
    /// A package manifest could not be read as TOML.
    InvalidManifest(String),
    /// A time is no number of seconds since the epoch.
    InvalidTimestamp(String),
    /// Two packages would share one directory.
    DuplicateDirectory(String),
    /// Paths were removed from a package, yet its checksums stayed as they were.
    ChecksumsUnchanged(String),
}

/// An [`Error`] with the texts of its strings.
pub enum ErrorView {
    InvalidTier(Seq<char>),
    MissingExcludeSeparator(Seq<char>),
    AbsoluteExclude(Seq<char>),
    InvalidExcludePattern(Seq<char>),
    ToolFailed(Seq<char>),
    OutputExists(Seq<char>),
    MissingFile(Seq<char>),
    PackageNotVendored(Seq<char>),
    IncompleteTreeLine(Seq<char>),
    MissingVersionPrefix(Seq<char>),
    InvalidVersion { version: Seq<char>, package: Seq<char> },
    InvalidManifest(Seq<char>),
    InvalidTimestamp(Seq<char>),
    DuplicateDirectory(Seq<char>),
    ChecksumsUnchanged(Seq<char>),
}

impl View for Error {
    type V = ErrorView;

    open spec fn view(&self) -> ErrorView {
        match self {
            Error::InvalidTier(s) => ErrorView::InvalidTier(s@),
            Error::MissingExcludeSeparator(s) => ErrorView::MissingExcludeSeparator(s@),
            Error::AbsoluteExclude(s) => ErrorView::AbsoluteExclude(s@),
            Error::InvalidExcludePattern(s) => ErrorView::InvalidExcludePattern(s@),
            Error::ToolFailed(s) => ErrorView::ToolFailed(s@),
            Error::OutputExists(s) => ErrorView::OutputExists(s@),
            Error::MissingFile(s) => ErrorView::MissingFile(s@),
            Error::PackageNotVendored(s) => ErrorView::PackageNotVendored(s@),
            Error::IncompleteTreeLine(s) => ErrorView::IncompleteTreeLine(s@),
            Error::MissingVersionPrefix(s) => ErrorView::MissingVersionPrefix(s@),
            Error::InvalidVersion { version, package } => ErrorView::InvalidVersion {
                version: version@,
                package: package@,
            },
            Error::InvalidManifest(s) => ErrorView::InvalidManifest(s@),
            Error::InvalidTimestamp(s) => ErrorView::InvalidTimestamp(s@),
            Error::DuplicateDirectory(s) => ErrorView::DuplicateDirectory(s@),
            Error::ChecksumsUnchanged(s) => ErrorView::ChecksumsUnchanged(s@),
        }
    }
}

impl ErrorView {
    /// The kind that a failure belongs to.
    pub open spec fn kind(self) -> ErrorKind {
        match self {
            ErrorView::InvalidTier(_) => ErrorKind::Config,
            ErrorView::MissingExcludeSeparator(_) => ErrorKind::Config,
            ErrorView::AbsoluteExclude(_) => ErrorKind::Config,
            ErrorView::InvalidExcludePattern(_) => ErrorKind::Config,
            ErrorView::ToolFailed(_) => ErrorKind::ExternalTool,
            ErrorView::OutputExists(_) => ErrorKind::OutputConflict,
            ErrorView::MissingFile(_) => ErrorKind::Layout,
            ErrorView::PackageNotVendored(_) => ErrorKind::Layout,
            ErrorView::IncompleteTreeLine(_) => ErrorKind::Parse,
            ErrorView::MissingVersionPrefix(_) => ErrorKind::Parse,
            ErrorView::InvalidVersion { .. } => ErrorKind::Parse,
            ErrorView::InvalidManifest(_) => ErrorKind::Parse,
            ErrorView::InvalidTimestamp(_) => ErrorKind::Parse,
            ErrorView::DuplicateDirectory(_) => ErrorKind::Integrity,
            ErrorView::ChecksumsUnchanged(_) => ErrorKind::Integrity,
        }
    }
}

impl ErrorView {
    /// What a failure says to whoever reads it, in one line.
    pub open spec fn message(self) -> Seq<char> {
        match self {
            ErrorView::InvalidTier(t) => "Invalid tier "@ + t,
            ErrorView::MissingExcludeSeparator(s) => "Missing '#' in crate exclude "@ + s,
            ErrorView::AbsoluteExclude(p) => "Invalid absolute path in exclude "@ + p,
            ErrorView::InvalidExcludePattern(p) => "Invalid pattern in exclude "@ + p,
            ErrorView::ToolFailed(output) => "Failed to execute: "@ + output,
            ErrorView::OutputExists(p) => "Refusing to operate on extant path: "@ + p,
            ErrorView::MissingFile(p) => "Missing "@ + p,
            ErrorView::PackageNotVendored(d) => "Package "@ + d + " was not vendored"@,
            ErrorView::IncompleteTreeLine(l) => "Invalid output received from cargo tree: "@ + l,
            ErrorView::MissingVersionPrefix(v) => "Invalid version: "@ + v,
            ErrorView::InvalidVersion { version, package } => "Cannot parse version "@ + version + " for "@ + package,
            ErrorView::InvalidManifest(_) => "Cannot parse manifest"@,
            ErrorView::InvalidTimestamp(t) => "Invalid timestamp "@ + t,
            ErrorView::DuplicateDirectory(d) => "Two packages share the directory "@ + d,
            ErrorView::ChecksumsUnchanged(p) => "Exclude "@ + p + " matched on disk, but no checksum was removed"@,
        }
    }
}

/// Three texts in a row.
fn joined(a: &str, b: &str, c: &str) -> (r: String)
    ensures
        r@ == a@ + b@ + c@,
{
    let mut out = String::from_str(a);
    out.append(b);
    out.append(c);
    out
}

impl Error {
    /// What the failure says to whoever reads it, in one line.
    pub fn message(&self) -> (r: String)
        ensures
            r@ == self@.message(),
    {
        let r = match self {
            Error::InvalidTier(t) => joined("Invalid tier ", t.as_str(), ""),
            Error::MissingExcludeSeparator(s) => joined("Missing '#' in crate exclude ", s.as_str(), ""),
            Error::AbsoluteExclude(p) => joined("Invalid absolute path in exclude ", p.as_str(), ""),
            Error::InvalidExcludePattern(p) => joined("Invalid pattern in exclude ", p.as_str(), ""),
            Error::ToolFailed(output) => joined("Failed to execute: ", output.as_str(), ""),
            Error::OutputExists(p) => joined("Refusing to operate on extant path: ", p.as_str(), ""),
            Error::MissingFile(p) => joined("Missing ", p.as_str(), ""),
            Error::PackageNotVendored(d) => joined("Package ", d.as_str(), " was not vendored"),
            Error::IncompleteTreeLine(l) => joined("Invalid output received from cargo tree: ", l.as_str(), ""),
            Error::MissingVersionPrefix(v) => joined("Invalid version: ", v.as_str(), ""),
            Error::InvalidVersion { version, package } => {
                let head = joined("Cannot parse version ", version.as_str(), " for ");
                joined(head.as_str(), package.as_str(), "")
            },
            Error::InvalidManifest(_) => joined("Cannot parse manifest", "", ""),
            Error::InvalidTimestamp(t) => joined("Invalid timestamp ", t.as_str(), ""),
            Error::DuplicateDirectory(d) => joined("Two packages share the directory ", d.as_str(), ""),
            Error::ChecksumsUnchanged(p) => joined("Exclude ", p.as_str(), " matched on disk, but no checksum was removed"),
        };
        proof {
            reveal_strlit("");
            assert(""@ =~= Seq::<char>::empty());
            assert(r@ =~= self@.message());
        }
        r
    }

    /// The kind that this failure belongs to.
    pub fn kind(&self) -> (r: ErrorKind)
        ensures
            r == self@.kind(),
    {
        match self {
            Error::InvalidTier(_) => ErrorKind::Config,
            Error::MissingExcludeSeparator(_) => ErrorKind::Config,
            Error::AbsoluteExclude(_) => ErrorKind::Config,
            Error::InvalidExcludePattern(_) => ErrorKind::Config,
            Error::ToolFailed(_) => ErrorKind::ExternalTool,
            Error::OutputExists(_) => ErrorKind::OutputConflict,
            Error::MissingFile(_) => ErrorKind::Layout,
            Error::PackageNotVendored(_) => ErrorKind::Layout,
            Error::IncompleteTreeLine(_) => ErrorKind::Parse,
            Error::MissingVersionPrefix(_) => ErrorKind::Parse,
            Error::InvalidVersion { .. } => ErrorKind::Parse,
            Error::InvalidManifest(_) => ErrorKind::Parse,
            Error::InvalidTimestamp(_) => ErrorKind::Parse,
            Error::DuplicateDirectory(_) => ErrorKind::Integrity,
            Error::ChecksumsUnchanged(_) => ErrorKind::Integrity,
        }
    }
}

} // verus!
