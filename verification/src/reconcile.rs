//! Matching the packages that are needed with the directories of the
//! vendored tree: which directory each needed package was written to, and
//! what to do with each directory that is found.

use vstd::prelude::*;
use crate::error::{Error, ErrorView};
use crate::package::{package_views, PackageRecord, PackageView};
use crate::text::str_eq;
use crate::version::{semver_valid, Precedence, Version, VersionView};

verus! {

/// The directory of a needed package, with the package's name and version.
#[derive(Debug, Clone)]
pub struct DirectoryKey {
    pub dir: String,
    pub name: String,
    pub version: Version,
}

/// A [`DirectoryKey`] with the texts of its strings.
pub struct KeyView {
    pub dir: Seq<char>,
    pub name: Seq<char>,
    pub version: VersionView,
}

impl View for DirectoryKey {
    type V = KeyView;

    open spec fn view(&self) -> KeyView {
        KeyView { dir: self.dir@, name: self.name@, version: self.version@ }
    }
}

/// The views of a sequence of keys.
pub open spec fn key_views(v: Seq<DirectoryKey>) -> Seq<KeyView> {
    Seq::new(v.len(), |i: int| v[i]@)
}

/// The directory names of a sequence of keys.
pub open spec fn dirs(keys: Seq<KeyView>) -> Seq<Seq<char>> {
    Seq::new(keys.len(), |i: int| keys[i].dir)
}

/// Whether a package is one that the vendored tree holds: one that does not
/// lie at a local path.
pub open spec fn vendored(p: PackageView) -> bool {
    p.source is Some
}

/// The place in `packages` of the vendored package of the name `name` that
/// has the highest version, or -1 where there is none. The packages are
/// gone through in order, and a later one takes the place of an earlier one
/// only where it is higher.
pub open spec fn highest(packages: Seq<PackageView>, name: Seq<char>) -> int
    decreases packages.len(),
{
    if packages.len() == 0 {
        -1
    } else {
        let before = highest(packages.drop_last(), name);
        let last = packages.last();
        if !vendored(last) || last.name != name {
            before
        } else if before < 0 {
            packages.len() - 1
        } else if last.version.order(packages[before].version) == Precedence::Higher {
            packages.len() - 1
        } else {
            before
        }
    }
}

/// The name of a directory that holds the version in it.
pub open spec fn versioned_dir(p: PackageView) -> Seq<char> {
    p.name + seq!['-'] + p.version.text()
}

/// The directory of the package at `i`: its bare name where it is the
/// highest version of its name and directories are not always versioned,
/// else its name, a hyphen and its version.
pub open spec fn dir_of(packages: Seq<PackageView>, i: int, versioned_dirs: bool) -> Seq<char> {
    if !versioned_dirs && highest(packages, packages[i].name) == i {
        packages[i].name
    } else {
        versioned_dir(packages[i])
    }
}

/// The keys of the vendored packages among the first `n`, in their order.
pub open spec fn keys_upto(packages: Seq<PackageView>, versioned_dirs: bool, n: int) -> Seq<KeyView>
    decreases n,
{
    if n <= 0 {
        Seq::<KeyView>::empty()
    } else {
        let before = keys_upto(packages, versioned_dirs, n - 1);
        let p = packages[n - 1];
        if vendored(p) {
            before.push(KeyView { dir: dir_of(packages, n - 1, versioned_dirs), name: p.name, version: p.version })
        } else {
            before
        }
    }
}

/// The keys of all the vendored packages.
pub open spec fn keys_of(packages: Seq<PackageView>, versioned_dirs: bool) -> Seq<KeyView> {
    keys_upto(packages, versioned_dirs, packages.len() as int)
}

/// Whether the vendored package at `i` has a version that cannot be ordered.
pub open spec fn unordered_at(packages: Seq<PackageView>, i: int) -> bool {
    vendored(packages[i]) && !semver_valid(packages[i].version)
}

/// Whether the key at `j` has the directory of a key before it.
pub open spec fn repeats_at(keys: Seq<KeyView>, j: int) -> bool {
    exists|k: int| 0 <= k < j && (#[trigger] keys[k]).dir == keys[j].dir
}

/// What `package_filenames` returns for a list of packages.
pub open spec fn reconciled(packages: Seq<PackageView>, versioned_dirs: bool, r: Result<Seq<KeyView>, ErrorView>) -> bool {
    let keys = keys_of(packages, versioned_dirs);
    match r {
        Ok(got) => {
            &&& forall|i: int| 0 <= i < packages.len() ==> !unordered_at(packages, i)
            &&& forall|j: int| 0 <= j < keys.len() ==> !repeats_at(keys, j)
            &&& got == keys
        },
        Err(ErrorView::InvalidVersion { version, package }) => exists|i: int| {
            &&& 0 <= i < packages.len()
            &&& #[trigger] unordered_at(packages, i)
            &&& forall|k: int| 0 <= k < i ==> !unordered_at(packages, k)
            &&& version == packages[i].version.text()
            &&& package == packages[i].name
        },
        Err(ErrorView::DuplicateDirectory(dir)) => {
            &&& forall|i: int| 0 <= i < packages.len() ==> !unordered_at(packages, i)
            &&& exists|j: int| {
                &&& 0 <= j < keys.len()
                &&& #[trigger] repeats_at(keys, j)
                &&& forall|k: int| 0 <= k < j ==> !repeats_at(keys, k)
                &&& dir == keys[j].dir
            }
        },
        Err(_) => false,
    }
}

/// The place of the highest vendored version of `name`, where every
/// vendored version can be ordered.
fn find_highest(packages: &Vec<PackageRecord>, name: &str) -> (r: Option<usize>)
    requires
        forall|i: int| 0 <= i < packages.len() ==> !unordered_at(package_views(packages@), i),
    ensures
        match r {
            Some(i) => i < packages.len() && highest(package_views(packages@), name@) == i,
            None => highest(package_views(packages@), name@) == -1,
        },
{
    let ghost all = package_views(packages@);
    let mut best: Option<usize> = None;
    let mut i: usize = 0;
    proof {
        assert(all.take(0) =~= Seq::<PackageView>::empty());
    }
    while i < packages.len()
        invariant
            0 <= i <= packages.len(),
            all == package_views(packages@),
            forall|k: int| 0 <= k < packages.len() ==> !unordered_at(all, k),
            match best {
                Some(b) => b < i && highest(all.take(i as int), name@) == b,
                None => highest(all.take(i as int), name@) == -1,
            },
        decreases packages.len() - i,
    {
        proof {
            assert(all.take(i + 1).drop_last() =~= all.take(i as int));
            assert(all.take(i + 1).last() == all[i as int]);
            assert(all[i as int] == packages[i as int]@);
            assert(!unordered_at(all, i as int));
        }
        let p = &packages[i];
        if p.is_remote() && str_eq(p.name.as_str(), name) {
            match best {
                None => {
                    best = Some(i);
                },
                Some(b) => {
                    proof {
                        assert(all.take(i + 1)[b as int] == all[b as int]);
                        assert(all[b as int] == packages[b as int]@);
                        assert(!unordered_at(all, b as int));
                        lemma_highest_is_vendored(all.take(i as int), name@);
                        assert(all.take(i as int)[b as int] == all[b as int]);
                    }
                    match p.version.compare(&packages[b].version) {
                        Precedence::Higher => {
                            best = Some(i);
                        },
                        _ => {},
                    }
                },
            }
        }
        i = i + 1;
    }
    proof {
        assert(all.take(packages.len() as int) =~= all);
    }
    best
}

/// The highest version of a name is a vendored package of that name.
pub proof fn lemma_highest_is_vendored(packages: Seq<PackageView>, name: Seq<char>)
    ensures
        -1 <= highest(packages, name) < packages.len(),
        highest(packages, name) >= 0 ==> vendored(packages[highest(packages, name)]) && packages[highest(packages, name)].name == name,
    decreases packages.len(),
{
    if packages.len() > 0 {
        lemma_highest_is_vendored(packages.drop_last(), name);
    }
}

/// Whether one of `keys` has the directory `dir`.
fn holds_dir(keys: &Vec<DirectoryKey>, dir: &str) -> (r: bool)
    ensures
        r == exists|k: int| 0 <= k < keys.len() && (#[trigger] key_views(keys@)[k]).dir == dir@,
{
    let mut i: usize = 0;
    while i < keys.len()
        invariant
            0 <= i <= keys.len(),
            forall|k: int| 0 <= k < i ==> (#[trigger] key_views(keys@)[k]).dir != dir@,
        decreases keys.len() - i,
    {
        if str_eq(keys[i].dir.as_str(), dir) {
            proof {
                assert(key_views(keys@)[i as int].dir == dir@);
            }
            return true;
        }
        i = i + 1;
    }
    false
}

/// Gives each vendored package the name of the directory that it was
/// written to.
///
/// Of the packages of one name the highest version has the bare name, the
/// others the name, a hyphen and the version; with `versioned_dirs` every
/// package has the latter. Packages at a local path get no directory. It
/// fails on the first vendored package whose version cannot be ordered,
/// and else on the first directory that two packages would share.
pub fn package_filenames(packages: &Vec<PackageRecord>, versioned_dirs: bool) -> (r: Result<Vec<DirectoryKey>, Error>)
    ensures
        reconciled(
            package_views(packages@),
            versioned_dirs,
            match r {
                Ok(keys) => Ok(key_views(keys@)),
                Err(e) => Err(e@),
            },
        ),
{
    let ghost all = package_views(packages@);
    let mut i: usize = 0;
    while i < packages.len()
        invariant
            0 <= i <= packages.len(),
            all == package_views(packages@),
            forall|k: int| 0 <= k < i ==> !unordered_at(all, k),
        decreases packages.len() - i,
    {
        proof {
            assert(all[i as int] == packages[i as int]@);
        }
        if packages[i].is_remote() && !packages[i].version.is_valid() {
            let e = Error::InvalidVersion {
                version: packages[i].version.to_text(),
                package: packages[i].name.clone(),
            };
            proof {
                assert(unordered_at(all, i as int));
            }
            return Err(e);
        }
        i = i + 1;
    }
    let ghost keys = keys_of(all, versioned_dirs);
    let mut out: Vec<DirectoryKey> = Vec::new();
    let mut j: usize = 0;
    proof {
        assert(key_views(out@) =~= keys_upto(all, versioned_dirs, 0));
    }
    while j < packages.len()
        invariant
            0 <= j <= packages.len(),
            all == package_views(packages@),
            keys == keys_of(all, versioned_dirs),
            forall|k: int| 0 <= k < packages.len() ==> !unordered_at(all, k),
            key_views(out@) == keys_upto(all, versioned_dirs, j as int),
            forall|m: int| 0 <= m < out.len() ==> !repeats_at(key_views(out@), m),
        decreases packages.len() - j,
    {
        let p = &packages[j];
        proof {
            assert(all[j as int] == p@);
        }
        if p.is_remote() {
            let top = find_highest(packages, p.name.as_str());
            let bare = !versioned_dirs && match top {
                Some(t) => t == j,
                None => false,
            };
            let dir = if bare {
                p.name.clone()
            } else {
                let mut d = p.name.clone();
                d.append("-");
                d.append(p.version.to_text().as_str());
                proof {
                    reveal_strlit("-");
                    assert("-"@ =~= seq!['-']);
                    assert(d@ =~= versioned_dir(p@));
                }
                d
            };
            assert(dir@ == dir_of(all, j as int, versioned_dirs));
            let ghost before = key_views(out@);
            let repeated = holds_dir(&out, dir.as_str());
            let key = DirectoryKey { dir, name: p.name.clone(), version: p.version.duplicate() };
            out.push(key);
            proof {
                assert(key_views(out@) =~= before.push(key@));
                assert(key_views(out@) == keys_upto(all, versioned_dirs, j + 1));
                lemma_keys_prefix(all, versioned_dirs, j + 1, packages.len() as int);
            }
            if repeated {
                proof {
                    let at = before.len() as int;
                    let k0 = choose|k: int| 0 <= k < before.len() && (#[trigger] before[k]).dir == key@.dir;
                    assert(keys[k0] == before[k0]);
                    assert(keys[at] == key@);
                    assert(repeats_at(keys, at));
                    assert forall|m: int| 0 <= m < at implies !repeats_at(keys, m) by {
                        assert(!repeats_at(before, m));
                        if repeats_at(keys, m) {
                            let k1 = choose|k: int| 0 <= k < m && (#[trigger] keys[k]).dir == keys[m].dir;
                            assert(before[k1] == keys[k1]);
                            assert(before[m] == keys[m]);
                        }
                    }
                }
                return Err(Error::DuplicateDirectory(out[out.len() - 1].dir.clone()));
            }
            proof {
                let now = key_views(out@);
                assert forall|m: int| 0 <= m < out.len() implies !repeats_at(now, m) by {
                    if m < before.len() {
                        assert(!repeats_at(before, m));
                        if repeats_at(now, m) {
                            let k1 = choose|k: int| 0 <= k < m && (#[trigger] now[k]).dir == now[m].dir;
                            assert(before[k1] == now[k1]);
                            assert(before[m] == now[m]);
                        }
                    } else {
                        if repeats_at(now, m) {
                            let k1 = choose|k: int| 0 <= k < m && (#[trigger] now[k]).dir == now[m].dir;
                            assert(before[k1] == now[k1]);
                        }
                    }
                }
            }
        }
        j = j + 1;
    }
    Ok(out)
}

/// The keys of the first packages are the first of the keys of more packages.
pub proof fn lemma_keys_prefix(packages: Seq<PackageView>, versioned_dirs: bool, n: int, m: int)
    requires
        0 <= n <= m,
    ensures
        keys_upto(packages, versioned_dirs, n).len() <= keys_upto(packages, versioned_dirs, m).len(),
        forall|k: int| 0 <= k < keys_upto(packages, versioned_dirs, n).len() ==> keys_upto(packages, versioned_dirs, n)[k] == keys_upto(packages, versioned_dirs, m)[k],
    decreases m - n,
{
    if n < m {
        lemma_keys_prefix(packages, versioned_dirs, n, m - 1);
    }
}


/// Where no vendored package before `n` has the name, none is the highest.
proof fn lemma_highest_none(packages: Seq<PackageView>, name: Seq<char>, n: int)
    requires
        0 <= n <= packages.len(),
        forall|k: int| 0 <= k < n ==> !(vendored(#[trigger] packages[k]) && packages[k].name == name),
    ensures
        highest(packages.take(n), name) == -1,
    decreases n,
{
    if n > 0 {
        assert(packages.take(n).drop_last() =~= packages.take(n - 1));
        assert(packages.take(n).last() == packages[n - 1]);
        lemma_highest_none(packages, name, n - 1);
    }
}

/// Packages of other names, and packages at local paths, leave the highest
/// version of a name where it is.
proof fn lemma_highest_skips(packages: Seq<PackageView>, name: Seq<char>, from: int, to: int)
    requires
        0 <= from <= to <= packages.len(),
        forall|k: int| from <= k < to ==> !(vendored(#[trigger] packages[k]) && packages[k].name == name),
    ensures
        highest(packages.take(to), name) == highest(packages.take(from), name),
    decreases to - from,
{
    if from < to {
        assert(packages.take(to).drop_last() =~= packages.take(to - 1));
        assert(packages.take(to).last() == packages[to - 1]);
        lemma_highest_skips(packages, name, from, to - 1);
    }
}

/// Two versions of one name. Where the packages at `high` and `low` are
/// the only vendored ones of their name and the one at `high` is the higher
/// version, it has the bare name as its directory, and the other one has
/// its name, a hyphen and its version, whichever of the two comes first.
/// Where directories are always versioned, both have the name, a hyphen and
/// the version.
pub proof fn lemma_two_versions(packages: Seq<PackageView>, high: int, low: int, versioned_dirs: bool)
    requires
        0 <= high < packages.len(),
        0 <= low < packages.len(),
        high != low,
        vendored(packages[high]),
        vendored(packages[low]),
        packages[high].name == packages[low].name,
        packages[high].version.order(packages[low].version) == Precedence::Higher,
        forall|k: int| 0 <= k < packages.len() && k != high && k != low ==> !(vendored(#[trigger] packages[k]) && packages[k].name == packages[high].name),
    ensures
        dir_of(packages, high, versioned_dirs) == if versioned_dirs {
            versioned_dir(packages[high])
        } else {
            packages[high].name
        },
        dir_of(packages, low, versioned_dirs) == versioned_dir(packages[low]),
{
    crate::version::lemma_order_mirror(packages[high].version, packages[low].version);
    if high < low {
        lemma_two_in_order(packages, high, low, versioned_dirs);
    } else {
        lemma_two_in_order(packages, low, high, versioned_dirs);
    }
}

/// Two versions of one name, the one at `i` before the one at `j`. The
/// later one has the bare name where it is the higher; else the earlier one
/// has it, also where the two stand the same.
pub proof fn lemma_two_in_order(packages: Seq<PackageView>, i: int, j: int, versioned_dirs: bool)
    requires
        0 <= i < j < packages.len(),
        vendored(packages[i]),
        vendored(packages[j]),
        packages[i].name == packages[j].name,
        forall|k: int| 0 <= k < packages.len() && k != i && k != j ==> !(vendored(#[trigger] packages[k]) && packages[k].name == packages[i].name),
    ensures
        versioned_dirs ==> {
            &&& dir_of(packages, i, versioned_dirs) == versioned_dir(packages[i])
            &&& dir_of(packages, j, versioned_dirs) == versioned_dir(packages[j])
        },
        !versioned_dirs && packages[j].version.order(packages[i].version) == Precedence::Higher ==> {
            &&& dir_of(packages, j, versioned_dirs) == packages[j].name
            &&& dir_of(packages, i, versioned_dirs) == versioned_dir(packages[i])
        },
        !versioned_dirs && packages[j].version.order(packages[i].version) != Precedence::Higher ==> {
            &&& dir_of(packages, i, versioned_dirs) == packages[i].name
            &&& dir_of(packages, j, versioned_dirs) == versioned_dir(packages[j])
        },
{
    let name = packages[i].name;
    lemma_highest_none(packages, name, i);
    assert(packages.take(i + 1).drop_last() =~= packages.take(i));
    assert(packages.take(i + 1).last() == packages[i]);
    assert(highest(packages.take(i + 1), name) == i);
    lemma_highest_skips(packages, name, i + 1, j);
    assert(packages.take(j + 1).drop_last() =~= packages.take(j));
    assert(packages.take(j + 1).last() == packages[j]);
    assert(packages.take(j + 1)[i] == packages[i]);
    lemma_highest_skips(packages, name, j + 1, packages.len() as int);
    assert(packages.take(packages.len() as int) =~= packages);
}

/// One version of a name. Where the package at `i` is the only vendored one
/// of its name, its directory is the bare name, unless directories are
/// always versioned.
pub proof fn lemma_one_version(packages: Seq<PackageView>, i: int, versioned_dirs: bool)
    requires
        0 <= i < packages.len(),
        vendored(packages[i]),
        forall|k: int| 0 <= k < packages.len() && k != i ==> !(vendored(#[trigger] packages[k]) && packages[k].name == packages[i].name),
    ensures
        dir_of(packages, i, versioned_dirs) == if versioned_dirs {
            versioned_dir(packages[i])
        } else {
            packages[i].name
        },
{
    let name = packages[i].name;
    lemma_highest_none(packages, name, i);
    assert(packages.take(i + 1).drop_last() =~= packages.take(i));
    assert(packages.take(i + 1).last() == packages[i]);
    lemma_highest_skips(packages, name, i + 1, packages.len() as int);
    assert(packages.take(packages.len() as int) =~= packages);
}

} // verus!
