//! Removing excluded paths from a package that stays: what to do with each
//! exclude pattern, and what becomes of the checksum file afterwards.

use vstd::prelude::*;
use crate::checksum::{file_views, prune_outcome, ChecksumManifest};
use crate::error::{Error, ErrorView};
use crate::text::string_views;

verus! {

/// What to do with an exclude pattern once its matches on disk are known.
#[derive(Debug, Clone, Copy, PartialEq, Eq, Structural)]
pub enum PruneStep {
    /// Nothing matched: warn of it and go on.
    Warn,
    /// Remove every match, a directory with all that it holds.
    Remove,
}

/// The course of pruning one package: the patterns whose matches were
/// removed, and those that matched nothing.
#[derive(Debug, Clone)]
pub struct PathPruner {
    pub removed: Vec<String>,
    pub unmatched: Vec<String>,
}

/// Whether a path is absolute as `camino` judges it: independent of the
/// current directory, on the target that the library is built for.
pub uninterp spec fn path_absolute(path: Seq<char>) -> bool;

/// Calls `Utf8Path::is_absolute` of `camino`. The result is named; it goes
/// by the path alone, on the target that the library is built for.
#[verifier::external_body]
fn path_is_absolute(path: &str) -> (r: bool)
    ensures
        r == path_absolute(path@),
{
    camino::Utf8Path::new(path).is_absolute()
}

/// Whether a pattern may be used, given whether it is an absolute path: an
/// absolute one is refused.
pub fn judge_exclude(pattern: &str, absolute: bool) -> (r: Result<(), Error>)
    ensures
        absolute ==> r is Err && r->Err_0@ == ErrorView::AbsoluteExclude(pattern@),
        !absolute ==> r is Ok,
{
    if absolute {
        Err(Error::AbsoluteExclude(String::from_str(pattern)))
    } else {
        Ok(())
    }
}

/// Whether a pattern may be used: one that is an absolute path is refused,
/// every other one is let through.
pub fn check_exclude(pattern: &str) -> (r: Result<(), Error>)
    ensures
        path_absolute(pattern@) ==> r is Err && r->Err_0@ == ErrorView::AbsoluteExclude(pattern@),
        !path_absolute(pattern@) ==> r is Ok,
{
    judge_exclude(pattern, path_is_absolute(pattern))
}

impl PathPruner {
    /// The start of pruning a package: nothing removed, nothing unmatched.
    pub fn new() -> (r: PathPruner)
        ensures
            r.removed@.len() == 0,
            r.unmatched@.len() == 0,
    {
        PathPruner { removed: Vec::new(), unmatched: Vec::new() }
    }

    /// Takes note of how many paths on disk `pattern` matched, and says
    /// what to do: with no match the pattern is put down as unmatched and
    /// is to be warned of; else its matches are to be removed.
    pub fn record(&mut self, pattern: &str, matched: usize) -> (r: PruneStep)
        ensures
            r == (if matched == 0 { PruneStep::Warn } else { PruneStep::Remove }),
            matched == 0 ==> {
                &&& final(self).removed == old(self).removed
                &&& string_views(final(self).unmatched@) == string_views(old(self).unmatched@).push(pattern@)
            },
            matched != 0 ==> {
                &&& final(self).unmatched == old(self).unmatched
                &&& string_views(final(self).removed@) == string_views(old(self).removed@).push(pattern@)
            },
    {
        if matched == 0 {
            self.unmatched.push(String::from_str(pattern));
            proof {
                assert(string_views(self.unmatched@) =~= string_views(old(self).unmatched@).push(pattern@));
            }
            PruneStep::Warn
        } else {
            self.removed.push(String::from_str(pattern));
            proof {
                assert(string_views(self.removed@) =~= string_views(old(self).removed@).push(pattern@));
            }
            PruneStep::Remove
        }
    }

    /// Whether anything was removed, so that the checksum file has to be
    /// brought in line.
    pub fn removed_any(&self) -> (r: bool)
        ensures
            r == (self.removed@.len() > 0),
    {
        self.removed.len() > 0
    }

    /// Brings the checksum file in line with what was removed. Where
    /// nothing was removed it stays as it is. It fails where something was
    /// removed and yet no entry goes.
    pub fn finish(&self, manifest: &mut ChecksumManifest) -> (r: Result<(), Error>)
        ensures
            prune_outcome(
                file_views(old(manifest).files@),
                string_views(self.removed@),
                file_views(final(manifest).files@),
                match r {
                    Ok(()) => Ok(()),
                    Err(e) => Err(e@),
                },
            ),
            self.removed@.len() == 0 ==> r is Ok && file_views(final(manifest).files@) == file_views(old(manifest).files@),
            final(manifest).package == old(manifest).package,
            old(manifest).wf() ==> final(manifest).wf(),
    {
        proof {
            if self.removed@.len() == 0 {
                assert(string_views(self.removed@) =~= Seq::<Seq<char>>::empty());
                crate::checksum::lemma_pruned_nothing(file_views(manifest.files@));
            }
        }
        manifest.prune_checksums(&self.removed)
    }
}

} // verus!
