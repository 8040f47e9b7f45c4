//! Where the result goes and in what form.

use vstd::prelude::*;
use crate::error::{Error, ErrorView};
use crate::text::str_eq;

verus! {

/// The default directory path.
pub const VENDOR_DEFAULT_PATH: &'static str = "vendor";

/// The default path of an uncompressed archive.
pub const VENDOR_DEFAULT_PATH_TAR: &'static str = "vendor.tar";

/// The default path of an archive compressed with zstd.
pub const VENDOR_DEFAULT_PATH_TAR_ZSTD: &'static str = "vendor.tar.zstd";

/// The default path of an archive compressed with gzip.
pub const VENDOR_DEFAULT_PATH_TAR_GZ: &'static str = "vendor.tar.gz";

/// The form in which the result is written.
#[derive(Debug, Clone, Copy, PartialEq, Eq, Structural)]
pub enum OutputTarget {
    /// A directory.
    Dir,
    /// An uncompressed archive.
    Tar,
    /// An archive compressed with gzip.
    TarGzip,
    /// An archive compressed with zstd, by a compressor that is run beside.
    TarZstd,
}

impl OutputTarget {
    /// The name of a form.
    pub open spec fn name(self) -> Seq<char> {
        match self {
            OutputTarget::Dir => "dir"@,
            OutputTarget::Tar => "tar"@,
            OutputTarget::TarGzip => "tar.gz"@,
            OutputTarget::TarZstd => "tar.zstd"@,
        }
    }

    /// The path to which a form is written where none is given.
    pub open spec fn spec_default_path(self) -> Seq<char> {
        match self {
            OutputTarget::Dir => VENDOR_DEFAULT_PATH@,
            OutputTarget::Tar => VENDOR_DEFAULT_PATH_TAR@,
            OutputTarget::TarGzip => VENDOR_DEFAULT_PATH_TAR_GZ@,
            OutputTarget::TarZstd => VENDOR_DEFAULT_PATH_TAR_ZSTD@,
        }
    }

    /// The form that a name stands for.
    pub open spec fn spec_from_name(name: Seq<char>) -> Option<OutputTarget> {
        if name == "dir"@ {
            Some(OutputTarget::Dir)
        } else if name == "tar"@ {
            Some(OutputTarget::Tar)
        } else if name == "tar.gz"@ {
            Some(OutputTarget::TarGzip)
        } else if name == "tar.zstd"@ {
            Some(OutputTarget::TarZstd)
        } else {
            None
        }
    }

    /// The name of the form.
    pub fn as_str(&self) -> (r: &'static str)
        ensures
            r@ == self.name(),
    {
        match self {
            OutputTarget::Dir => "dir",
            OutputTarget::Tar => "tar",
            OutputTarget::TarGzip => "tar.gz",
            OutputTarget::TarZstd => "tar.zstd",
        }
    }

    /// The name of the form, as a string of its own.
    pub fn to_string(&self) -> (r: String)
        ensures
            r@ == self.name(),
    {
        String::from_str(self.as_str())
    }

    /// Reads a form from its name.
    pub fn from_name(name: &str) -> (r: Option<OutputTarget>)
        ensures
            r == OutputTarget::spec_from_name(name@),
    {
        if str_eq(name, "dir") {
            Some(OutputTarget::Dir)
        } else if str_eq(name, "tar") {
            Some(OutputTarget::Tar)
        } else if str_eq(name, "tar.gz") {
            Some(OutputTarget::TarGzip)
        } else if str_eq(name, "tar.zstd") {
            Some(OutputTarget::TarZstd)
        } else {
            None
        }
    }

    /// The path to which the form is written where none is given.
    pub fn default_path(&self) -> (r: &'static str)
        ensures
            r@ == self.spec_default_path(),
    {
        match self {
            OutputTarget::Dir => VENDOR_DEFAULT_PATH,
            OutputTarget::Tar => VENDOR_DEFAULT_PATH_TAR,
            OutputTarget::TarGzip => VENDOR_DEFAULT_PATH_TAR_GZ,
            OutputTarget::TarZstd => VENDOR_DEFAULT_PATH_TAR_ZSTD,
        }
    }

    /// Whether the form is an archive.
    pub fn is_archive(&self) -> (r: bool)
        ensures
            r == (*self != OutputTarget::Dir),
    {
        match self {
            OutputTarget::Dir => false,
            _ => true,
        }
    }
}

/// The path to write to: the one that is given, else the default of the
/// form, which is a directory where no form is given either.
pub fn output_path(given: Option<&str>, format: Option<OutputTarget>) -> (r: String)
    ensures
        r@ == match given {
            Some(p) => p@,
            None => match format {
                Some(f) => f.spec_default_path(),
                None => OutputTarget::Dir.spec_default_path(),
            },
        },
{
    match given {
        Some(p) => String::from_str(p),
        None => match format {
            Some(f) => String::from_str(f.default_path()),
            None => String::from_str(OutputTarget::Dir.default_path()),
        },
    }
}

/// Refuses a path that exists already: nothing is ever written over.
pub fn check_output(path: &str, exists: bool) -> (r: Result<(), Error>)
    ensures
        exists ==> r is Err && r->Err_0@ == ErrorView::OutputExists(path@),
        !exists ==> r is Ok,
{
    if exists {
        Err(Error::OutputExists(String::from_str(path)))
    } else {
        Ok(())
    }
}

/// What a tool that was run reports: nothing where it ended well, else a
/// failure with what it wrote as its diagnostics.
pub fn check_tool(succeeded: bool, diagnostics: &str) -> (r: Result<(), Error>)
    ensures
        succeeded ==> r is Ok,
        !succeeded ==> r is Err && r->Err_0@ == ErrorView::ToolFailed(diagnostics@),
{
    if succeeded {
        Ok(())
    } else {
        Err(Error::ToolFailed(String::from_str(diagnostics)))
    }
}

} // verus!
