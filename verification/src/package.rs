//! Packages as the dependency graph reports them, and sets of them.

use vstd::prelude::*;
use crate::version::{Version, VersionView};

verus! {

/// A package that the edge listing reports: its name and its version.
#[derive(Debug, Clone)]
pub struct RequiredPackage {
    pub name: String,
    pub version: Version,
}

/// A [`RequiredPackage`] with the texts of its strings.
pub struct RequiredView {
    pub name: Seq<char>,
    pub version: VersionView,
}

impl View for RequiredPackage {
    type V = RequiredView;

    open spec fn view(&self) -> RequiredView {
        RequiredView { name: self.name@, version: self.version@ }
    }
}

/// The views of a sequence of required packages.
pub open spec fn required_views(v: Seq<RequiredPackage>) -> Seq<RequiredView> {
    Seq::new(v.len(), |i: int| v[i]@)
}

/// A package of the dependency graph. Its identity is its name, its version
/// and where it comes from; `source` is empty for a package that lies at a
/// local path. The other fields are carried along for whoever regenerates
/// the package.
#[derive(Debug, Clone)]
pub struct PackageRecord {
    pub name: String,
    pub version: Version,
    pub source: Option<String>,
    pub edition: String,
    pub features: Vec<String>,
    pub manifest: String,
}

/// What identifies a package.
pub struct PackageId {
    pub name: Seq<char>,
    pub version: VersionView,
    pub source: Option<Seq<char>>,
}

/// A [`PackageRecord`] with the texts of its strings.
pub struct PackageView {
    pub name: Seq<char>,
    pub version: VersionView,
    pub source: Option<Seq<char>>,
    pub edition: Seq<char>,
    pub features: Seq<Seq<char>>,
    pub manifest: Seq<char>,
}

impl PackageView {
    /// The identity of the package.
    pub open spec fn id(self) -> PackageId {
        PackageId { name: self.name, version: self.version, source: self.source }
    }

    /// The name and version under which the edge listing would report it.
    pub open spec fn required(self) -> RequiredView {
        RequiredView { name: self.name, version: self.version }
    }
}

impl View for PackageRecord {
    type V = PackageView;

    open spec fn view(&self) -> PackageView {
        PackageView {
            name: self.name@,
            version: self.version@,
            source: match self.source {
                Some(s) => Some(s@),
                None => None,
            },
            edition: self.edition@,
            features: crate::text::string_views(self.features@),
            manifest: self.manifest@,
        }
    }
}

/// The views of a sequence of packages.
pub open spec fn package_views(v: Seq<PackageRecord>) -> Seq<PackageView> {
    Seq::new(v.len(), |i: int| v[i]@)
}

/// Whether one of `packages` has the identity `id`.
pub open spec fn has_id(packages: Seq<PackageView>, id: PackageId) -> bool {
    exists|i: int| 0 <= i < packages.len() && (#[trigger] packages[i]).id() == id
}

/// No two of `packages` share an identity.
pub open spec fn distinct_ids(packages: Seq<PackageView>) -> bool {
    forall|i: int, j: int| 0 <= i < j < packages.len() ==> (#[trigger] packages[i]).id() != (#[trigger] packages[j]).id()
}

/// `acc` with `p` at its end, unless a package of that identity is there.
pub open spec fn add_package(acc: Seq<PackageView>, p: PackageView) -> Seq<PackageView> {
    if has_id(acc, p.id()) {
        acc
    } else {
        acc.push(p)
    }
}

/// The union of two package lists by identity: `acc`, then each package of
/// `more` whose identity was not seen before it, in the order of `more`.
pub open spec fn merged(acc: Seq<PackageView>, more: Seq<PackageView>) -> Seq<PackageView>
    decreases more.len(),
{
    if more.len() == 0 {
        acc
    } else {
        add_package(merged(acc, more.drop_last()), more.last())
    }
}

impl RequiredPackage {
    /// Whether the two are the same name and version.
    pub fn same(&self, other: &RequiredPackage) -> (r: bool)
        ensures
            r == (self@ == other@),
    {
        self.name == other.name && self.version.same(&other.version)
    }
}

impl PackageRecord {
    /// Whether the two packages have the same identity.
    pub fn same_id(&self, other: &PackageRecord) -> (r: bool)
        ensures
            r == (self@.id() == other@.id()),
    {
        let same_source = match &self.source {
            Some(a) => match &other.source {
                Some(b) => crate::text::str_eq(a.as_str(), b.as_str()),
                None => false,
            },
            None => other.source.is_none(),
        };
        self.name == other.name && self.version.same(&other.version) && same_source
    }

    /// A copy of the package.
    pub fn duplicate(&self) -> (r: PackageRecord)
        ensures
            r@ == self@,
    {
        PackageRecord {
            name: self.name.clone(),
            version: self.version.duplicate(),
            source: match &self.source {
                Some(s) => Some(s.clone()),
                None => None,
            },
            edition: self.edition.clone(),
            features: crate::text::copy_strings(&self.features),
            manifest: self.manifest.clone(),
        }
    }

    /// Whether the package comes from a registry or another remote source,
    /// and not from a local path.
    pub fn is_remote(&self) -> (r: bool)
        ensures
            r == self@.source is Some,
    {
        self.source.is_some()
    }
}


/// Whether one of `packages` has the identity of `p`.
pub fn holds_package(packages: &Vec<PackageRecord>, p: &PackageRecord) -> (r: bool)
    ensures
        r == has_id(package_views(packages@), p@.id()),
{
    let mut i: usize = 0;
    while i < packages.len()
        invariant
            0 <= i <= packages.len(),
            forall|k: int| 0 <= k < i ==> (#[trigger] package_views(packages@)[k]).id() != p@.id(),
        decreases packages.len() - i,
    {
        if packages[i].same_id(p) {
            proof {
                assert(package_views(packages@)[i as int].id() == p@.id());
            }
            return true;
        }
        i = i + 1;
    }
    false
}

/// Adds to `into` each package of `more` whose identity it does not hold
/// yet: the union of the two by identity.
pub fn merge_packages(into: &mut Vec<PackageRecord>, more: &Vec<PackageRecord>)
    ensures
        package_views(final(into)@) == merged(package_views(old(into)@), package_views(more@)),
{
    let ghost start = package_views(into@);
    let ghost all = package_views(more@);
    let mut i: usize = 0;
    proof {
        assert(all.take(0) =~= Seq::<PackageView>::empty());
    }
    while i < more.len()
        invariant
            0 <= i <= more.len(),
            all == package_views(more@),
            package_views(into@) == merged(start, all.take(i as int)),
        decreases more.len() - i,
    {
        proof {
            assert(all.take(i + 1).drop_last() =~= all.take(i as int));
            assert(all.take(i + 1).last() == more[i as int]@);
        }
        if !holds_package(into, &more[i]) {
            let ghost before = package_views(into@);
            let copy = more[i].duplicate();
            into.push(copy);
            proof {
                assert(package_views(into@) =~= before.push(more[i as int]@));
            }
        }
        i = i + 1;
    }
    proof {
        assert(all.take(more.len() as int) =~= all);
    }
}

/// What adding one package does to the identities.
pub proof fn lemma_add_package(acc: Seq<PackageView>, p: PackageView, id: PackageId)
    requires
        distinct_ids(acc),
    ensures
        distinct_ids(add_package(acc, p)),
        has_id(add_package(acc, p), id) <==> (has_id(acc, id) || id == p.id()),
{
    let r = add_package(acc, p);
    if has_id(acc, p.id()) {
    } else {
        assert forall|i: int, j: int| 0 <= i < j < r.len() implies (#[trigger] r[i]).id() != (#[trigger] r[j]).id() by {
            if j == acc.len() {
                assert(acc[i] == r[i]);
            } else {
                assert(acc[i] == r[i]);
                assert(acc[j] == r[j]);
            }
        }
        if has_id(r, id) {
            let i = choose|i: int| 0 <= i < r.len() && (#[trigger] r[i]).id() == id;
            if i < acc.len() {
                assert(acc[i].id() == id);
            }
        }
        if has_id(acc, id) {
            let i = choose|i: int| 0 <= i < acc.len() && (#[trigger] acc[i]).id() == id;
            assert(r[i].id() == id);
        }
        if id == p.id() {
            assert(r[acc.len() as int].id() == id);
        }
    }
}

/// A union holds an identity exactly when one of the two lists holds it,
/// whatever their order, and holds no identity twice where the first list
/// held none twice.
pub proof fn lemma_merged_ids(acc: Seq<PackageView>, more: Seq<PackageView>, id: PackageId)
    requires
        distinct_ids(acc),
    ensures
        distinct_ids(merged(acc, more)),
        has_id(merged(acc, more), id) <==> (has_id(acc, id) || has_id(more, id)),
    decreases more.len(),
{
    if more.len() == 0 {
    } else {
        let front = more.drop_last();
        lemma_merged_ids(acc, front, id);
        lemma_add_package(merged(acc, front), more.last(), id);
        if has_id(more, id) {
            let i = choose|i: int| 0 <= i < more.len() && (#[trigger] more[i]).id() == id;
            if i < front.len() {
                assert(front[i].id() == id);
            }
        }
        if has_id(front, id) {
            let i = choose|i: int| 0 <= i < front.len() && (#[trigger] front[i]).id() == id;
            assert(more[i].id() == id);
        }
        if id == more.last().id() {
            assert(more[more.len() - 1].id() == id);
        }
    }
}

} // verus!
