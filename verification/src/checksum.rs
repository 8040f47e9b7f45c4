//! The checksum file of a vendored package: the digest of each of its
//! files, and the digest of the package as a whole.

use vstd::prelude::*;
use sha2::Digest;
use crate::error::{Error, ErrorView};
use crate::text::{chars_of, has_prefix, hex, hex_string, path_has_prefix, string_views};

verus! {

/// The digest of one file of a package.
#[derive(Debug, Clone)]
pub struct FileDigest {
    /// The path of the file, relative to the package, with `/` between its
    /// components.
    pub path: String,
    /// The digest of the file's content, in hexadecimal.
    pub digest: String,
}

/// What the checksum file of a package holds.
#[derive(Debug, Clone)]
pub struct ChecksumManifest {
    pub files: Vec<FileDigest>,
    /// The digest of the package as the registry served it.
    pub package: Option<String>,
}

/// A [`FileDigest`] with the texts of its strings.
pub struct FileView {
    pub path: Seq<char>,
    pub digest: Seq<char>,
}

impl View for FileDigest {
    type V = FileView;

    open spec fn view(&self) -> FileView {
        FileView { path: self.path@, digest: self.digest@ }
    }
}

/// The views of a sequence of file digests.
pub open spec fn file_views(v: Seq<FileDigest>) -> Seq<FileView> {
    Seq::new(v.len(), |i: int| v[i]@)
}

/// No path occurs twice.
pub open spec fn distinct_paths(files: Seq<FileView>) -> bool {
    forall|i: int, j: int| 0 <= i < j < files.len() ==> (#[trigger] files[i]).path != (#[trigger] files[j]).path
}

/// The SHA-256 digest of a sequence of bytes.
pub uninterp spec fn sha256(data: Seq<u8>) -> Seq<u8>;

/// Whether `glob` takes a text as a pattern. `glob` goes by what separates
/// the components of a path on the target that the library is built for,
/// and so does this.
pub uninterp spec fn glob_accepts(pattern: Seq<char>) -> bool;

/// Whether a pattern that `glob` takes matches a text, with the options
/// that `glob` has by default, on the target that the library is built for.
pub uninterp spec fn glob_match(pattern: Seq<char>, text: Seq<char>) -> bool;

/// Calls `Sha256::digest` and copies the bytes that it returns. The result
/// is named; nothing more is claimed of it.
#[verifier::external_body]
fn sha256_bytes(data: &[u8]) -> (r: Vec<u8>)
    ensures
        r@ == sha256(data@),
{
    sha2::Sha256::digest(data).to_vec()
}

/// Calls `glob::Pattern::new` and says whether it took the pattern. The
/// result is named.
#[verifier::external_body]
fn glob_compiles(pattern: &str) -> (r: bool)
    ensures
        r == glob_accepts(pattern@),
{
    glob::Pattern::new(pattern).is_ok()
}

/// Calls `glob::Pattern::matches` on the pattern that `glob::Pattern::new`
/// makes of `pattern`. The result is named.
#[verifier::external_body]
fn glob_matches(pattern: &str, text: &str) -> (r: bool)
    requires
        glob_accepts(pattern@),
    ensures
        r == glob_match(pattern@, text@),
{
    glob::Pattern::new(pattern).unwrap().matches(text)
}

/// The digest of `data` in hexadecimal.
pub fn digest_hex(data: &[u8]) -> (r: String)
    ensures
        r@ == hex(sha256(data@)),
{
    let bytes = sha256_bytes(data);
    hex_string(&bytes)
}


/// Whether one pattern takes the file at `path` away: the file lies at or
/// below the pattern taken as a path, or the pattern matches it as a glob.
pub open spec fn pattern_hits(pattern: Seq<char>, path: Seq<char>) -> bool {
    has_prefix(path, pattern) || glob_match(pattern, path)
}

/// Whether one of `patterns` takes the file at `path` away.
pub open spec fn hit(patterns: Seq<Seq<char>>, path: Seq<char>) -> bool {
    exists|i: int| 0 <= i < patterns.len() && pattern_hits(#[trigger] patterns[i], path)
}

/// The entries that none of `patterns` takes away, in their order.
pub open spec fn pruned(files: Seq<FileView>, patterns: Seq<Seq<char>>) -> Seq<FileView>
    decreases files.len(),
{
    if files.len() == 0 {
        Seq::<FileView>::empty()
    } else {
        let before = pruned(files.drop_last(), patterns);
        if hit(patterns, files.last().path) {
            before
        } else {
            before.push(files.last())
        }
    }
}

/// Whether the pattern at `i` is one that `glob` does not take.
pub open spec fn refused_at(patterns: Seq<Seq<char>>, i: int) -> bool {
    !glob_accepts(patterns[i])
}

/// What `prune_checksums` does to the entries `before`, leaving `after`.
pub open spec fn prune_outcome(before: Seq<FileView>, patterns: Seq<Seq<char>>, after: Seq<FileView>, r: Result<(), ErrorView>) -> bool {
    match r {
        Ok(()) => {
            &&& forall|i: int| 0 <= i < patterns.len() ==> !refused_at(patterns, i)
            &&& after == pruned(before, patterns)
            &&& patterns.len() > 0 ==> after.len() < before.len()
        },
        Err(ErrorView::InvalidExcludePattern(p)) => {
            &&& after == before
            &&& exists|i: int| {
                &&& 0 <= i < patterns.len()
                &&& #[trigger] refused_at(patterns, i)
                &&& forall|k: int| 0 <= k < i ==> !refused_at(patterns, k)
                &&& p == patterns[i]
            }
        },
        Err(ErrorView::ChecksumsUnchanged(p)) => {
            &&& after == before
            &&& forall|i: int| 0 <= i < patterns.len() ==> !refused_at(patterns, i)
            &&& patterns.len() > 0
            &&& pruned(before, patterns).len() >= before.len()
            &&& p == patterns[0]
        },
        Err(_) => false,
    }
}

/// Whether one of `patterns`, each of which `glob` takes, takes the file at
/// `path` away.
fn is_hit(patterns: &Vec<String>, path: &str) -> (r: bool)
    requires
        forall|i: int| 0 <= i < patterns.len() ==> !refused_at(string_views(patterns@), i),
    ensures
        r == hit(string_views(patterns@), path@),
{
    let ghost ps = string_views(patterns@);
    let path_chars = chars_of(path);
    let mut i: usize = 0;
    while i < patterns.len()
        invariant
            0 <= i <= patterns.len(),
            ps == string_views(patterns@),
            path_chars@ == path@,
            forall|k: int| 0 <= k < patterns.len() ==> !refused_at(ps, k),
            forall|k: int| 0 <= k < i ==> !pattern_hits(#[trigger] ps[k], path@),
        decreases patterns.len() - i,
    {
        let pattern = patterns[i].as_str();
        proof {
            assert(ps[i as int] == pattern@);
            assert(!refused_at(ps, i as int));
        }
        let pattern_chars = chars_of(pattern);
        if path_has_prefix(&path_chars, &pattern_chars) || glob_matches(pattern, path) {
            proof {
                assert(pattern_hits(ps[i as int], path@));
            }
            return true;
        }
        i = i + 1;
    }
    false
}

/// The entries before `k`, pruned, and the entry at `k`.
proof fn lemma_pruned_step(files: Seq<FileView>, patterns: Seq<Seq<char>>, k: int)
    requires
        0 <= k < files.len(),
    ensures
        pruned(files.take(k + 1), patterns) == if hit(patterns, files[k].path) {
            pruned(files.take(k), patterns)
        } else {
            pruned(files.take(k), patterns).push(files[k])
        },
{
    assert(files.take(k + 1).drop_last() =~= files.take(k));
    assert(files.take(k + 1).last() == files[k]);
}

/// Pruning takes entries away and adds none: what stays was there, none of
/// the patterns takes it away, and paths stay distinct.
pub proof fn lemma_pruned(files: Seq<FileView>, patterns: Seq<Seq<char>>)
    ensures
        pruned(files, patterns).len() <= files.len(),
        forall|i: int| 0 <= i < pruned(files, patterns).len() ==> {
            &&& files.contains(#[trigger] pruned(files, patterns)[i])
            &&& !hit(patterns, pruned(files, patterns)[i].path)
        },
        pruned(files, patterns).len() == files.len() ==> pruned(files, patterns) == files,
        distinct_paths(files) ==> distinct_paths(pruned(files, patterns)),
    decreases files.len(),
{
    if files.len() > 0 {
        let front = files.drop_last();
        lemma_pruned(front, patterns);
        let before = pruned(front, patterns);
        let now = pruned(files, patterns);
        assert forall|i: int| 0 <= i < now.len() implies files.contains(#[trigger] now[i]) && !hit(patterns, now[i].path) by {
            if i < before.len() {
                assert(now[i] == before[i]);
                assert(front.contains(before[i]));
                let j = choose|j: int| 0 <= j < front.len() && front[j] == before[i];
                assert(files[j] == now[i]);
            } else {
                assert(files[files.len() - 1] == now[i]);
            }
        }
        if now.len() == files.len() {
            assert(now =~= files);
        }
        if distinct_paths(files) {
            assert(distinct_paths(front)) by {
                assert forall|i: int, j: int| 0 <= i < j < front.len() implies (#[trigger] front[i]).path != (#[trigger] front[j]).path by {
                    assert(front[i] == files[i]);
                    assert(front[j] == files[j]);
                }
            }
            assert forall|i: int, j: int| 0 <= i < j < now.len() implies (#[trigger] now[i]).path != (#[trigger] now[j]).path by {
                if j < before.len() {
                    assert(now[i] == before[i]);
                    assert(now[j] == before[j]);
                } else {
                    assert(now[i] == before[i]);
                    assert(front.contains(before[i]));
                    let m = choose|m: int| 0 <= m < front.len() && front[m] == before[i];
                    assert(files[m] == front[m]);
                    assert(now[j] == files[files.len() - 1]);
                }
            }
        }
    }
}


impl ChecksumManifest {
    /// Every file has one entry: no path occurs twice.
    pub open spec fn wf(&self) -> bool {
        distinct_paths(file_views(self.files@))
    }

    /// The digest of the package as a whole, as text.
    pub open spec fn package_view(&self) -> Option<Seq<char>> {
        match self.package {
            Some(p) => Some(p@),
            None => None,
        }
    }

    /// Takes away the entries of the files that were removed from the
    /// package.
    ///
    /// `patterns` holds the exclude patterns that matched something on disk,
    /// and whose matches were removed there. With no pattern nothing
    /// changes. An entry goes where one of the patterns takes its path
    /// away; the digest of the package stays. It fails, and changes
    /// nothing, on the first pattern that is no glob, and where patterns
    /// were given and yet every entry would stay.
    pub fn prune_checksums(&mut self, patterns: &Vec<String>) -> (r: Result<(), Error>)
        ensures
            prune_outcome(
                file_views(old(self).files@),
                string_views(patterns@),
                file_views(final(self).files@),
                match r {
                    Ok(()) => Ok(()),
                    Err(e) => Err(e@),
                },
            ),
            final(self).package == old(self).package,
            old(self).wf() ==> final(self).wf(),
    {
        let ghost ps = string_views(patterns@);
        let ghost all = file_views(self.files@);
        let mut k: usize = 0;
        while k < patterns.len()
            invariant
                0 <= k <= patterns.len(),
                ps == string_views(patterns@),
                forall|m: int| 0 <= m < k ==> !refused_at(ps, m),
            decreases patterns.len() - k,
        {
            proof {
                assert(ps[k as int] == patterns[k as int]@);
            }
            if !glob_compiles(patterns[k].as_str()) {
                let e = Error::InvalidExcludePattern(patterns[k].clone());
                proof {
                    assert(refused_at(ps, k as int));
                }
                return Err(e);
            }
            k = k + 1;
        }
        if patterns.len() == 0 {
            proof {
                lemma_pruned_nothing(all);
                assert(ps =~= Seq::<Seq<char>>::empty());
            }
            return Ok(());
        }
        let mut kept: usize = 0;
        let mut i: usize = 0;
        proof {
            assert(all.take(0) =~= Seq::<FileView>::empty());
        }
        while i < self.files.len()
            invariant
                0 <= i <= self.files.len(),
                *self == *old(self),
                all == file_views(self.files@),
                ps == string_views(patterns@),
                forall|m: int| 0 <= m < patterns.len() ==> !refused_at(ps, m),
                kept == pruned(all.take(i as int), ps).len(),
                kept <= i,
            decreases self.files.len() - i,
        {
            proof {
                lemma_pruned_step(all, ps, i as int);
                assert(all[i as int] == self.files[i as int]@);
            }
            if !is_hit(patterns, self.files[i].path.as_str()) {
                kept = kept + 1;
            }
            i = i + 1;
        }
        proof {
            assert(all.take(self.files.len() as int) =~= all);
        }
        if kept == self.files.len() {
            return Err(Error::ChecksumsUnchanged(patterns[0].clone()));
        }
        let ghost mut done: int = 0;
        let mut j: usize = 0;
        proof {
            assert(all.skip(0) =~= all);
            assert(pruned(all.take(0), ps) + all.skip(0) =~= all);
        }
        while j < self.files.len()
            invariant
                0 <= j <= self.files.len(),
                0 <= done <= all.len(),
                self.package == old(self).package,
                ps == string_views(patterns@),
                forall|m: int| 0 <= m < patterns.len() ==> !refused_at(ps, m),
                j == pruned(all.take(done), ps).len(),
                self.files.len() - j == all.len() - done,
                file_views(self.files@) == pruned(all.take(done), ps) + all.skip(done),
            decreases self.files.len() - j,
        {
            let ghost now = file_views(self.files@);
            proof {
                assert(now[j as int] == all.skip(done)[0]);
                assert(all.skip(done)[0] == all[done]);
                assert(now[j as int] == self.files[j as int]@);
                lemma_pruned_step(all, ps, done);
            }
            if is_hit(patterns, self.files[j].path.as_str()) {
                self.files.remove(j);
                proof {
                    assert(file_views(self.files@) =~= now.remove(j as int));
                    assert(now.remove(j as int) =~= pruned(all.take(done + 1), ps) + all.skip(done + 1));
                }
            } else {
                proof {
                    assert(now =~= pruned(all.take(done + 1), ps) + all.skip(done + 1));
                }
                j = j + 1;
            }
            proof {
                done = done + 1;
            }
        }
        proof {
            assert(all.take(done) =~= all);
            assert(file_views(self.files@) =~= pruned(all, ps));
            lemma_pruned(all, ps);
        }
        Ok(())
    }
}

/// With no pattern every entry stays.
pub proof fn lemma_pruned_nothing(files: Seq<FileView>)
    ensures
        pruned(files, Seq::<Seq<char>>::empty()) == files,
    decreases files.len(),
{
    if files.len() > 0 {
        lemma_pruned_nothing(files.drop_last());
        assert(pruned(files, Seq::<Seq<char>>::empty()) =~= files);
    }
}


/// After pruning no entry lies at or below a pattern that was removed, and
/// no such pattern matches an entry as a glob.
pub proof fn lemma_nothing_left_below(files: Seq<FileView>, patterns: Seq<Seq<char>>, i: int, k: int)
    requires
        0 <= i < pruned(files, patterns).len(),
        0 <= k < patterns.len(),
    ensures
        !has_prefix(pruned(files, patterns)[i].path, patterns[k]),
        !glob_match(patterns[k], pruned(files, patterns)[i].path),
{
    lemma_pruned(files, patterns);
    let path = pruned(files, patterns)[i].path;
    assert(!hit(patterns, path));
    assert(!pattern_hits(patterns[k], path));
}

/// Pruning keeps every entry that no pattern takes away, as it was.
pub proof fn lemma_pruned_keeps(files: Seq<FileView>, patterns: Seq<Seq<char>>, f: FileView)
    requires
        files.contains(f),
        !hit(patterns, f.path),
    ensures
        pruned(files, patterns).contains(f),
    decreases files.len(),
{
    let front = files.drop_last();
    let i = choose|i: int| 0 <= i < files.len() && files[i] == f;
    if i < front.len() {
        assert(front[i] == f);
        lemma_pruned_keeps(front, patterns, f);
        let k = choose|k: int| 0 <= k < pruned(front, patterns).len() && pruned(front, patterns)[k] == f;
        assert(pruned(files, patterns)[k] == f);
    } else {
        assert(files.last() == f);
        assert(pruned(files, patterns)[pruned(front, patterns).len() as int] == f);
    }
}

/// Pruning that has something to take. Where `glob` takes every pattern
/// and some entry is taken away by one of them, as an entry below `tests`
/// is by the pattern `tests`, pruning succeeds; afterwards there are fewer
/// entries, none of them is taken away by a pattern, and every entry that
/// no pattern takes away is still there, with the digest that it had.
pub proof fn lemma_prune_takes_effect(
    before: Seq<FileView>,
    patterns: Seq<Seq<char>>,
    after: Seq<FileView>,
    r: Result<(), ErrorView>,
    taken: FileView,
)
    requires
        prune_outcome(before, patterns, after, r),
        forall|i: int| 0 <= i < patterns.len() ==> glob_accepts(#[trigger] patterns[i]),
        before.contains(taken),
        hit(patterns, taken.path),
    ensures
        r is Ok,
        after.len() < before.len(),
        forall|i: int| 0 <= i < after.len() ==> !hit(patterns, (#[trigger] after[i]).path),
        forall|f: FileView| before.contains(f) && !hit(patterns, f.path) ==> #[trigger] after.contains(f),
{
    lemma_pruned(before, patterns);
    let left = pruned(before, patterns);
    if left.len() >= before.len() {
        assert(left == before);
        let i = choose|i: int| 0 <= i < before.len() && before[i] == taken;
        assert(!hit(patterns, left[i].path));
    }
    assert forall|i: int| 0 <= i < patterns.len() implies !refused_at(patterns, i) by {
        assert(glob_accepts(patterns[i]));
    }
    assert forall|f: FileView| before.contains(f) && !hit(patterns, f.path) implies #[trigger] left.contains(f) by {
        lemma_pruned_keeps(before, patterns, f);
    }
}

} // verus!
