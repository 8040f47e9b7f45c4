//! The whole of a run, from what the dependency graph answered to what is
//! to be done with each directory of the vendored tree.

use vstd::prelude::*;
use crate::config::VendorFilter;
use crate::dep_kinds::narrows;
use crate::directory::{action_views, key_at, missing_at, plan, plan_directory, planned, with_prune, Action, ActionView};
use crate::error::{Error, ErrorView};
use crate::exclude::{any_package, exclude_views, patterns_for, CrateExclude, ExcludeView};
use crate::inclusion::{
    included, inclusion, lemma_inclusion_ids, query_views, resolve_inclusion, PlatformQuery, QueryView,
};
use crate::package::{has_id, package_views, PackageId, PackageView};
use crate::reconcile::{dir_of, key_views, keys_of, keys_upto, package_filenames, reconciled, vendored, KeyView};
use crate::text::string_views;

verus! {

/// What a run gives for the directories `entries`: the failure of the first
/// step that fails, or what is to be done with each directory, given the
/// packages that the platforms need and the directories they were written to.
pub open spec fn run_planned(
    narrowed: bool,
    queries: Seq<QueryView>,
    versioned_dirs: bool,
    entries: Seq<Seq<char>>,
    rules: Seq<ExcludeView>,
    r: Result<Seq<ActionView>, ErrorView>,
) -> bool {
    match inclusion(narrowed, queries) {
        Err(e) => r == Err::<Seq<ActionView>, ErrorView>(e),
        Ok(needed) => exists|keys: Result<Seq<KeyView>, ErrorView>| #[trigger] reconciled(needed, versioned_dirs, keys) && planned_with(keys, entries, rules, r),
    }
}

/// What a run gives once the directories of the needed packages are known,
/// or are known to fail.
pub open spec fn planned_with(
    keys: Result<Seq<KeyView>, ErrorView>,
    entries: Seq<Seq<char>>,
    rules: Seq<ExcludeView>,
    r: Result<Seq<ActionView>, ErrorView>,
) -> bool {
    match keys {
        Err(e) => r == Err::<Seq<ActionView>, ErrorView>(e),
        Ok(keys) => planned(entries, keys, rules, r),
    }
}

/// The outcome of a run with the texts of its strings.
pub open spec fn outcome_view(r: Result<Vec<Action>, Error>) -> Result<Seq<ActionView>, ErrorView> {
    match r {
        Ok(actions) => Ok(action_views(actions@)),
        Err(e) => Err(e@),
    }
}

/// Decides what is to be done with each directory of the vendored tree,
/// from what the dependency graph answered for each platform: works out the
/// packages that are needed, the directory of each, and from those the plan.
pub fn plan_run(
    config: &VendorFilter,
    queries: &Vec<PlatformQuery>,
    versioned_dirs: bool,
    entries: &Vec<String>,
    rules: &Vec<CrateExclude>,
) -> (r: Result<Vec<Action>, Error>)
    ensures
        run_planned(
            narrows(config.keep_dep_kinds),
            query_views(queries@),
            versioned_dirs,
            string_views(entries@),
            exclude_views(rules@),
            outcome_view(r),
        ),
{
    let ghost narrowed = narrows(config.keep_dep_kinds);
    let ghost qs = query_views(queries@);
    let ghost es = string_views(entries@);
    let ghost rs = exclude_views(rules@);
    let needed = match resolve_inclusion(config, queries) {
        Ok(needed) => needed,
        Err(e) => {
            return Err(e);
        },
    };
    let ghost wanted = package_views(needed@);
    assert(inclusion(narrowed, qs) is Ok && inclusion(narrowed, qs)->Ok_0 == wanted);
    match package_filenames(&needed, versioned_dirs) {
        Err(e) => {
            proof {
                let keys = Err::<Seq<KeyView>, ErrorView>(e@);
                assert(reconciled(wanted, versioned_dirs, keys));
                let shown = Err::<Seq<ActionView>, ErrorView>(e@);
                assert(planned_with(keys, es, rs, shown));
                assert(exists|keys: Result<Seq<KeyView>, ErrorView>| #[trigger] reconciled(wanted, versioned_dirs, keys) && planned_with(keys, es, rs, shown));
                assert(run_planned(narrowed, qs, versioned_dirs, es, rs, Err::<Seq<ActionView>, ErrorView>(e@)));
            }
            Err(e)
        },
        Ok(keys) => {
            let r = plan_directory(entries, &keys, rules);
            proof {
                let found = Ok::<Seq<KeyView>, ErrorView>(key_views(keys@));
                let shown = outcome_view(r);
                assert(reconciled(wanted, versioned_dirs, found));
                assert(planned(es, key_views(keys@), rs, shown));
                assert(planned_with(found, es, rs, shown));
                assert(exists|keys: Result<Seq<KeyView>, ErrorView>| #[trigger] reconciled(wanted, versioned_dirs, keys) && planned_with(keys, es, rs, shown));
                assert(run_planned(narrowed, qs, versioned_dirs, es, rs, shown));
            }
            r
        },
    }
}

/// A key is found for a directory exactly where one of the keys has it.
pub proof fn lemma_key_at_found(keys: Seq<KeyView>, dir: Seq<char>)
    ensures
        key_at(keys, dir) < keys.len(),
        key_at(keys, dir) >= 0 ==> keys[key_at(keys, dir)].dir == dir,
        key_at(keys, dir) >= 0 <==> exists|k: int| 0 <= k < keys.len() && (#[trigger] keys[k]).dir == dir,
    decreases keys.len(),
{
    if keys.len() > 0 {
        let front = keys.drop_last();
        lemma_key_at_found(front, dir);
        if key_at(front, dir) >= 0 {
            let k = choose|k: int| 0 <= k < front.len() && (#[trigger] front[k]).dir == dir;
            assert(keys[k].dir == dir);
        } else if keys.last().dir == dir {
            assert(keys[keys.len() - 1].dir == dir);
        } else {
            if exists|k: int| 0 <= k < keys.len() && (#[trigger] keys[k]).dir == dir {
                let k = choose|k: int| 0 <= k < keys.len() && (#[trigger] keys[k]).dir == dir;
                assert(front[k].dir == dir);
            }
        }
    }
}

/// Every vendored package among the first `n` has its directory among the
/// keys of the first `n`.
pub proof fn lemma_key_of_package(packages: Seq<PackageView>, versioned_dirs: bool, n: int, i: int)
    requires
        0 <= i < n <= packages.len(),
        vendored(packages[i]),
    ensures
        exists|k: int| 0 <= k < keys_upto(packages, versioned_dirs, n).len() && (#[trigger] keys_upto(packages, versioned_dirs, n)[k]).dir == dir_of(packages, i, versioned_dirs),
    decreases n,
{
    let now = keys_upto(packages, versioned_dirs, n);
    let before = keys_upto(packages, versioned_dirs, n - 1);
    if i == n - 1 {
        assert(now[before.len() as int].dir == dir_of(packages, i, versioned_dirs));
    } else {
        lemma_key_of_package(packages, versioned_dirs, n - 1, i);
        let k = choose|k: int| 0 <= k < before.len() && (#[trigger] before[k]).dir == dir_of(packages, i, versioned_dirs);
        assert(now[k] == before[k]);
    }
}

/// Every key of the first `n` packages is the directory of a vendored
/// package among them.
pub proof fn lemma_package_of_key(packages: Seq<PackageView>, versioned_dirs: bool, n: int, k: int)
    requires
        0 <= n <= packages.len(),
        0 <= k < keys_upto(packages, versioned_dirs, n).len(),
    ensures
        exists|i: int| 0 <= i < n && vendored(#[trigger] packages[i]) && keys_upto(packages, versioned_dirs, n)[k].dir == dir_of(packages, i, versioned_dirs),
    decreases n,
{
    let now = keys_upto(packages, versioned_dirs, n);
    let before = keys_upto(packages, versioned_dirs, n - 1);
    if k < before.len() {
        lemma_package_of_key(packages, versioned_dirs, n - 1, k);
        let i = choose|i: int| 0 <= i < n - 1 && vendored(#[trigger] packages[i]) && before[k].dir == dir_of(packages, i, versioned_dirs);
        assert(now[k] == before[k]);
        assert(vendored(packages[i]));
    } else {
        assert(vendored(packages[n - 1]));
    }
}

/// A plan holds a stub for a directory exactly where the directory is among
/// the entries and no key has it.
pub proof fn lemma_plan_stubs(entries: Seq<Seq<char>>, keys: Seq<KeyView>, rules: Seq<ExcludeView>, dir: Seq<char>)
    ensures
        plan(entries, keys, rules).contains(ActionView::Stub { dir }) <==> (entries.contains(dir) && key_at(keys, dir) < 0),
    decreases entries.len(),
{
    let stub = ActionView::Stub { dir };
    if entries.len() > 0 {
        let front = entries.drop_last();
        let last = entries.last();
        let before = plan(front, keys, rules);
        let now = plan(entries, keys, rules);
        lemma_plan_stubs(front, keys, rules, dir);
        assert(entries.contains(dir) <==> (front.contains(dir) || dir == last)) by {
            if entries.contains(dir) {
                let i = choose|i: int| 0 <= i < entries.len() && entries[i] == dir;
                if i < front.len() {
                    assert(front[i] == dir);
                }
            }
            if front.contains(dir) {
                let i = choose|i: int| 0 <= i < front.len() && front[i] == dir;
                assert(entries[i] == dir);
            }
            if dir == last {
                assert(entries[entries.len() - 1] == dir);
            }
        }
        let k = key_at(keys, last);
        if k < 0 {
            assert(now == before.push(ActionView::Stub { dir: last }));
            lemma_push_contains(before, ActionView::Stub { dir: last }, stub);
        } else {
            let first = with_prune(before, last, patterns_for(rules, keys[k].name));
            if first != before {
                lemma_push_contains(before, ActionView::Prune { dir: last, patterns: patterns_for(rules, keys[k].name) }, stub);
            }
            if now != first {
                lemma_push_contains(first, ActionView::Prune { dir: last, patterns: patterns_for(rules, any_package()) }, stub);
            }
        }
    }
}

/// What a sequence holds once one more is put at its end.
pub proof fn lemma_push_contains<A>(s: Seq<A>, x: A, y: A)
    ensures
        s.push(x).contains(y) <==> (s.contains(y) || y == x),
{
    let t = s.push(x);
    if t.contains(y) {
        let i = choose|i: int| 0 <= i < t.len() && t[i] == y;
        if i < s.len() {
            assert(s[i] == y);
        }
    }
    if s.contains(y) {
        let i = choose|i: int| 0 <= i < s.len() && s[i] == y;
        assert(t[i] == y);
    }
    if y == x {
        assert(t[s.len() as int] == y);
    }
}

/// What is needed stays, and what is not needed is replaced by a stub.
/// After a run that succeeds, the directory of every needed package that
/// the vendored tree holds is among the entries and gets no stub; and every
/// entry that is the directory of no such package gets one.
pub proof fn lemma_needed_stays_and_rest_is_stubbed(
    needed: Seq<PackageView>,
    versioned_dirs: bool,
    entries: Seq<Seq<char>>,
    rules: Seq<ExcludeView>,
    keys: Seq<KeyView>,
    actions: Seq<ActionView>,
)
    requires
        reconciled(needed, versioned_dirs, Ok(keys)),
        planned(entries, keys, rules, Ok(actions)),
    ensures
        forall|i: int| 0 <= i < needed.len() && vendored(#[trigger] needed[i]) ==> {
            &&& entries.contains(dir_of(needed, i, versioned_dirs))
            &&& !actions.contains(ActionView::Stub { dir: dir_of(needed, i, versioned_dirs) })
        },
        forall|dir: Seq<char>| #[trigger] entries.contains(dir) && (forall|i: int| 0 <= i < needed.len() && vendored(#[trigger] needed[i]) ==> dir_of(needed, i, versioned_dirs) != dir) ==> actions.contains(ActionView::Stub { dir }),
{
    assert(keys == keys_of(needed, versioned_dirs));
    assert forall|i: int| 0 <= i < needed.len() && vendored(#[trigger] needed[i]) implies entries.contains(dir_of(needed, i, versioned_dirs)) && !actions.contains(ActionView::Stub { dir: dir_of(needed, i, versioned_dirs) }) by {
        let dir = dir_of(needed, i, versioned_dirs);
        lemma_key_of_package(needed, versioned_dirs, needed.len() as int, i);
        let k = choose|k: int| 0 <= k < keys.len() && (#[trigger] keys[k]).dir == dir;
        assert(!missing_at(keys, entries, k));
        lemma_key_at_found(keys, dir);
        lemma_plan_stubs(entries, keys, rules, dir);
    }
    assert forall|dir: Seq<char>| #[trigger] entries.contains(dir) && (forall|i: int| 0 <= i < needed.len() && vendored(#[trigger] needed[i]) ==> dir_of(needed, i, versioned_dirs) != dir) implies actions.contains(ActionView::Stub { dir }) by {
        lemma_key_at_found(keys, dir);
        if key_at(keys, dir) >= 0 {
            let k = key_at(keys, dir);
            lemma_package_of_key(needed, versioned_dirs, needed.len() as int, k);
            let i = choose|i: int| 0 <= i < needed.len() && vendored(#[trigger] needed[i]) && keys[k].dir == dir_of(needed, i, versioned_dirs);
            assert(vendored(needed[i]));
        }
        lemma_plan_stubs(entries, keys, rules, dir);
    }
}

/// Whether a package of the identity `id` is among `needed`, with its
/// directory among the entries and no stub planned for it.
pub open spec fn stays(
    needed: Seq<PackageView>,
    versioned_dirs: bool,
    entries: Seq<Seq<char>>,
    actions: Seq<ActionView>,
    id: PackageId,
) -> bool {
    exists|i: int| {
        &&& 0 <= i < needed.len()
        &&& (#[trigger] needed[i]).id() == id
        &&& entries.contains(dir_of(needed, i, versioned_dirs))
        &&& !actions.contains(ActionView::Stub { dir: dir_of(needed, i, versioned_dirs) })
    }
}

/// Whether `dir` is the directory of one of `needed` that the vendored tree
/// holds.
pub open spec fn is_needed_dir(needed: Seq<PackageView>, versioned_dirs: bool, dir: Seq<char>) -> bool {
    exists|i: int| 0 <= i < needed.len() && vendored(#[trigger] needed[i]) && dir_of(needed, i, versioned_dirs) == dir
}

/// From the answers of the dependency graph to the directories. After a
/// run that succeeds, every package that some platform needs and that the
/// vendored tree holds has a directory among the entries, and that
/// directory gets no stub; and every entry that is the directory of no
/// needed package gets a stub, as the directory of a package does that only
/// platforms need for which nothing was asked.
pub proof fn lemma_run_keeps_what_a_platform_needs(
    narrowed: bool,
    queries: Seq<QueryView>,
    versioned_dirs: bool,
    entries: Seq<Seq<char>>,
    rules: Seq<ExcludeView>,
    actions: Seq<ActionView>,
)
    requires
        run_planned(narrowed, queries, versioned_dirs, entries, rules, Ok(actions)),
    ensures
        inclusion(narrowed, queries) is Ok,
        forall|k: int, p: PackageView| 0 <= k < queries.len() && vendored(p) && #[trigger] included(narrowed, queries[k])->Ok_0.contains(p) ==> stays(inclusion(narrowed, queries)->Ok_0, versioned_dirs, entries, actions, p.id()),
        forall|dir: Seq<char>| #[trigger] entries.contains(dir) && !is_needed_dir(inclusion(narrowed, queries)->Ok_0, versioned_dirs, dir) ==> actions.contains(ActionView::Stub { dir }),
{
    let needed = inclusion(narrowed, queries)->Ok_0;
    let keys = choose|keys: Result<Seq<KeyView>, ErrorView>| #[trigger] reconciled(needed, versioned_dirs, keys) && planned_with(keys, entries, rules, Ok(actions));
    assert(keys is Ok);
    lemma_needed_stays_and_rest_is_stubbed(needed, versioned_dirs, entries, rules, keys->Ok_0, actions);
    assert forall|k: int, p: PackageView| 0 <= k < queries.len() && vendored(p) && #[trigger] included(narrowed, queries[k])->Ok_0.contains(p) implies stays(needed, versioned_dirs, entries, actions, p.id()) by {
        lemma_inclusion_ids(narrowed, queries, p.id());
        let listed = included(narrowed, queries[k])->Ok_0;
        let m = choose|m: int| 0 <= m < listed.len() && listed[m] == p;
        assert(listed[m].id() == p.id());
        assert(has_id(listed, p.id()));
        assert(has_id(needed, p.id()));
        let i = choose|i: int| 0 <= i < needed.len() && (#[trigger] needed[i]).id() == p.id();
        assert(vendored(needed[i]));
    }
    assert forall|dir: Seq<char>| #[trigger] entries.contains(dir) && !is_needed_dir(needed, versioned_dirs, dir) implies actions.contains(ActionView::Stub { dir }) by {
        assert forall|i: int| 0 <= i < needed.len() && vendored(#[trigger] needed[i]) implies dir_of(needed, i, versioned_dirs) != dir by {
            if dir_of(needed, i, versioned_dirs) == dir {
                assert(is_needed_dir(needed, versioned_dirs, dir));
            }
        }
    }
}

} // verus!
