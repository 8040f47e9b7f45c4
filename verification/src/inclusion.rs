//! Which packages are needed: the answers of the dependency graph for each
//! platform, narrowed to the kinds that the filter keeps, and joined.

use vstd::prelude::*;
use crate::config::VendorFilter;
use crate::dep_kinds::{get_required_packages, keep_required, narrows, needs_edge_listing, required_from_outputs, retain_required};
use crate::error::{Error, ErrorView};
use crate::package::{
    distinct_ids, has_id, holds_package, lemma_merged_ids, merge_packages, merged, package_views, PackageId,
    PackageRecord, PackageView, RequiredView,
};
use crate::text::string_views;

verus! {

/// What was asked of the dependency graph for one platform: the packages
/// that it reports for all the manifests, and, where the filter narrows the
/// kinds, the edge listing of each manifest.
#[derive(Debug, Clone)]
pub struct PlatformQuery {
    pub packages: Vec<PackageRecord>,
    pub tree_outputs: Vec<String>,
}

/// A [`PlatformQuery`] with the texts of its strings.
pub struct QueryView {
    pub packages: Seq<PackageView>,
    pub tree_outputs: Seq<Seq<char>>,
}

impl View for PlatformQuery {
    type V = QueryView;

    open spec fn view(&self) -> QueryView {
        QueryView { packages: package_views(self.packages@), tree_outputs: string_views(self.tree_outputs@) }
    }
}

/// The views of a sequence of queries.
pub open spec fn query_views(v: Seq<PlatformQuery>) -> Seq<QueryView> {
    Seq::new(v.len(), |i: int| v[i]@)
}

/// The packages that one platform needs: all that the graph reports, or,
/// where the kinds are narrowed, those of them that the edge listings
/// report too.
pub open spec fn included(narrowed: bool, query: QueryView) -> Result<Seq<PackageView>, ErrorView> {
    if narrowed {
        match required_from_outputs(Seq::<RequiredView>::empty(), query.tree_outputs) {
            Ok(required) => Ok(keep_required(query.packages, required)),
            Err(e) => Err(e),
        }
    } else {
        Ok(query.packages)
    }
}

/// The packages that all the platforms need together: the union, by
/// identity, of what each needs; or the failure of the first platform whose
/// edge listing cannot be read.
pub open spec fn inclusion(narrowed: bool, queries: Seq<QueryView>) -> Result<Seq<PackageView>, ErrorView>
    decreases queries.len(),
{
    if queries.len() == 0 {
        Ok(Seq::<PackageView>::empty())
    } else {
        match inclusion(narrowed, queries.drop_last()) {
            Err(e) => Err(e),
            Ok(before) => match included(narrowed, queries.last()) {
                Err(e) => Err(e),
                Ok(more) => Ok(merged(before, more)),
            },
        }
    }
}

/// Once the platforms up to some point have failed, all of them fail the
/// same way.
pub proof fn lemma_inclusion_failure_stays(narrowed: bool, queries: Seq<QueryView>, k: int)
    requires
        0 <= k <= queries.len(),
        inclusion(narrowed, queries.take(k)) is Err,
    ensures
        inclusion(narrowed, queries) == inclusion(narrowed, queries.take(k)),
    decreases queries.len() - k,
{
    if k == queries.len() {
        assert(queries.take(k) =~= queries);
    } else {
        assert(queries.take(k + 1).drop_last() =~= queries.take(k));
        lemma_inclusion_failure_stays(narrowed, queries, k + 1);
    }
}

/// Works out the packages that are needed, from what the dependency graph
/// answered for each platform.
pub fn resolve_inclusion(config: &VendorFilter, queries: &Vec<PlatformQuery>) -> (r: Result<Vec<PackageRecord>, Error>)
    ensures
        match r {
            Ok(packages) => inclusion(narrows(config.keep_dep_kinds), query_views(queries@)) == Ok::<Seq<PackageView>, ErrorView>(package_views(packages@)),
            Err(e) => inclusion(narrows(config.keep_dep_kinds), query_views(queries@)) == Err::<Seq<PackageView>, ErrorView>(e@),
        },
{
    let narrowed = needs_edge_listing(config);
    let ghost all = query_views(queries@);
    let mut out: Vec<PackageRecord> = Vec::new();
    let mut i: usize = 0;
    proof {
        assert(all.take(0) =~= Seq::<QueryView>::empty());
        assert(package_views(out@) =~= Seq::<PackageView>::empty());
    }
    while i < queries.len()
        invariant
            0 <= i <= queries.len(),
            all == query_views(queries@),
            narrowed == narrows(config.keep_dep_kinds),
            inclusion(narrowed, all.take(i as int)) == Ok::<Seq<PackageView>, ErrorView>(package_views(out@)),
        decreases queries.len() - i,
    {
        let query = &queries[i];
        proof {
            assert(all.take(i + 1).drop_last() =~= all.take(i as int));
            assert(all.take(i + 1).last() == query@);
        }
        if narrowed {
            let required = match get_required_packages(&query.tree_outputs) {
                Ok(required) => required,
                Err(e) => {
                    proof {
                        assert(inclusion(narrowed, all.take(i + 1)) == Err::<Seq<PackageView>, ErrorView>(e@));
                        lemma_inclusion_failure_stays(narrowed, all, i + 1);
                    }
                    return Err(e);
                },
            };
            let mut kept: Vec<PackageRecord> = Vec::new();
            proof {
                assert(package_views(kept@) =~= Seq::<PackageView>::empty());
                assert(Seq::<PackageView>::empty() + query@.packages =~= query@.packages);
            }
            merge_all(&mut kept, &query.packages);
            retain_required(&mut kept, &required);
            merge_packages(&mut out, &kept);
        } else {
            merge_packages(&mut out, &query.packages);
        }
        i = i + 1;
    }
    proof {
        assert(all.take(queries.len() as int) =~= all);
    }
    Ok(out)
}

/// Puts a copy of each of `more` at the end of `into`.
fn merge_all(into: &mut Vec<PackageRecord>, more: &Vec<PackageRecord>)
    ensures
        package_views(final(into)@) == package_views(old(into)@) + package_views(more@),
{
    let ghost start = package_views(into@);
    let ghost all = package_views(more@);
    let mut i: usize = 0;
    proof {
        assert(start + all.take(0) =~= start);
    }
    while i < more.len()
        invariant
            0 <= i <= more.len(),
            all == package_views(more@),
            package_views(into@) == start + all.take(i as int),
        decreases more.len() - i,
    {
        let ghost before = package_views(into@);
        into.push(more[i].duplicate());
        proof {
            assert(package_views(into@) =~= before.push(more[i as int]@));
            assert(all.take(i + 1) =~= all.take(i as int).push(more[i as int]@));
        }
        i = i + 1;
    }
    proof {
        assert(all.take(more.len() as int) =~= all);
    }
}


/// The packages of `universe` whose identity is not among `needed`, in
/// their order: those in whose place a stub is put.
pub open spec fn not_needed(universe: Seq<PackageView>, needed: Seq<PackageView>) -> Seq<PackageView>
    decreases universe.len(),
{
    if universe.len() == 0 {
        Seq::<PackageView>::empty()
    } else {
        let before = not_needed(universe.drop_last(), needed);
        if has_id(needed, universe.last().id()) {
            before
        } else {
            before.push(universe.last())
        }
    }
}

/// Compares what is needed with all that the manifests can bring in, and
/// returns the packages that are left out.
pub fn left_out(universe: &Vec<PackageRecord>, needed: &Vec<PackageRecord>) -> (r: Vec<PackageRecord>)
    ensures
        package_views(r@) == not_needed(package_views(universe@), package_views(needed@)),
{
    let ghost all = package_views(universe@);
    let mut out: Vec<PackageRecord> = Vec::new();
    let mut i: usize = 0;
    proof {
        assert(all.take(0) =~= Seq::<PackageView>::empty());
        assert(package_views(out@) =~= Seq::<PackageView>::empty());
    }
    while i < universe.len()
        invariant
            0 <= i <= universe.len(),
            all == package_views(universe@),
            package_views(out@) == not_needed(all.take(i as int), package_views(needed@)),
        decreases universe.len() - i,
    {
        proof {
            assert(all.take(i + 1).drop_last() =~= all.take(i as int));
            assert(all.take(i + 1).last() == universe[i as int]@);
        }
        if !holds_package(needed, &universe[i]) {
            let ghost before = package_views(out@);
            out.push(universe[i].duplicate());
            proof {
                assert(package_views(out@) =~= before.push(universe[i as int]@));
            }
        }
        i = i + 1;
    }
    proof {
        assert(all.take(universe.len() as int) =~= all);
    }
    out
}

/// What is needed is what some platform needs. Where the inclusion can be
/// worked out, every platform's own can, no identity is in it twice, and an
/// identity is in it exactly where some platform needs a package of that
/// identity.
pub proof fn lemma_inclusion_ids(narrowed: bool, queries: Seq<QueryView>, id: PackageId)
    requires
        inclusion(narrowed, queries) is Ok,
    ensures
        distinct_ids(inclusion(narrowed, queries)->Ok_0),
        forall|k: int| 0 <= k < queries.len() ==> included(narrowed, #[trigger] queries[k]) is Ok,
        has_id(inclusion(narrowed, queries)->Ok_0, id) <==> exists|k: int| 0 <= k < queries.len() && has_id(included(narrowed, #[trigger] queries[k])->Ok_0, id),
    decreases queries.len(),
{
    if queries.len() > 0 {
        let front = queries.drop_last();
        let last = queries.last();
        lemma_inclusion_ids(narrowed, front, id);
        let before = inclusion(narrowed, front)->Ok_0;
        let more = included(narrowed, last)->Ok_0;
        lemma_merged_ids(before, more, id);
        assert forall|k: int| 0 <= k < queries.len() implies included(narrowed, #[trigger] queries[k]) is Ok by {
            if k < front.len() {
                assert(queries[k] == front[k]);
            }
        }
        if has_id(before, id) {
            let k = choose|k: int| 0 <= k < front.len() && has_id(included(narrowed, #[trigger] front[k])->Ok_0, id);
            assert(queries[k] == front[k]);
        }
        if has_id(more, id) {
            assert(queries[queries.len() - 1] == last);
        }
        if exists|k: int| 0 <= k < queries.len() && has_id(included(narrowed, #[trigger] queries[k])->Ok_0, id) {
            let k = choose|k: int| 0 <= k < queries.len() && has_id(included(narrowed, #[trigger] queries[k])->Ok_0, id);
            if k < front.len() {
                assert(queries[k] == front[k]);
            }
        }
    }
}

} // verus!
