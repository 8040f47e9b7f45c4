//! Going through the vendored tree: for each directory found there, whether
//! to put a stub in its place or to prune paths inside it.

use vstd::prelude::*;
use crate::error::{Error, ErrorView};
use crate::exclude::{any_package, exclude_views, excludes_for, patterns_for, CrateExclude, ExcludeView};
use crate::reconcile::{key_views, DirectoryKey, KeyView};
use crate::text::{str_eq, string_views};

verus! {

/// What is to be done with one directory of the vendored tree.
#[derive(Debug, Clone)]
pub enum Action {
    /// No needed package lies here: replace the directory by a stub.
    Stub { dir: String },
    /// A needed package lies here: remove what the patterns match inside it.
    Prune { dir: String, patterns: Vec<String> },
}

/// An [`Action`] with the texts of its strings.
pub enum ActionView {
    Stub { dir: Seq<char> },
    Prune { dir: Seq<char>, patterns: Seq<Seq<char>> },
}

impl View for Action {
    type V = ActionView;

    open spec fn view(&self) -> ActionView {
        match self {
            Action::Stub { dir } => ActionView::Stub { dir: dir@ },
            Action::Prune { dir, patterns } => ActionView::Prune { dir: dir@, patterns: string_views(patterns@) },
        }
    }
}

/// The views of a sequence of actions.
pub open spec fn action_views(v: Seq<Action>) -> Seq<ActionView> {
    Seq::new(v.len(), |i: int| v[i]@)
}

/// The place of the first key whose directory is `dir`, or -1.
pub open spec fn key_at(keys: Seq<KeyView>, dir: Seq<char>) -> int
    decreases keys.len(),
{
    if keys.len() == 0 {
        -1
    } else {
        let before = key_at(keys.drop_last(), dir);
        if before >= 0 {
            before
        } else if keys.last().dir == dir {
            keys.len() - 1
        } else {
            -1
        }
    }
}

/// `acc` with a pruning of `dir` by `patterns` at its end, where there are
/// patterns.
pub open spec fn with_prune(acc: Seq<ActionView>, dir: Seq<char>, patterns: Seq<Seq<char>>) -> Seq<ActionView> {
    if patterns.len() > 0 {
        acc.push(ActionView::Prune { dir, patterns })
    } else {
        acc
    }
}

/// `acc` with what is to be done with the directory `entry`. A directory
/// that is no key gets a stub. One that is a key is pruned by the rules for
/// its package's name, and after that by the rules for every package: two
/// passes, which are not merged.
pub open spec fn with_entry(acc: Seq<ActionView>, entry: Seq<char>, keys: Seq<KeyView>, rules: Seq<ExcludeView>) -> Seq<ActionView> {
    let k = key_at(keys, entry);
    if k < 0 {
        acc.push(ActionView::Stub { dir: entry })
    } else {
        with_prune(
            with_prune(acc, entry, patterns_for(rules, keys[k].name)),
            entry,
            patterns_for(rules, any_package()),
        )
    }
}

/// What is to be done with the directories `entries`, in their order.
pub open spec fn plan(entries: Seq<Seq<char>>, keys: Seq<KeyView>, rules: Seq<ExcludeView>) -> Seq<ActionView>
    decreases entries.len(),
{
    if entries.len() == 0 {
        Seq::<ActionView>::empty()
    } else {
        with_entry(plan(entries.drop_last(), keys, rules), entries.last(), keys, rules)
    }
}

/// Whether the directory of the key at `k` is missing from `entries`.
pub open spec fn missing_at(keys: Seq<KeyView>, entries: Seq<Seq<char>>, k: int) -> bool {
    !entries.contains(keys[k].dir)
}

/// What `plan_directory` returns.
pub open spec fn planned(entries: Seq<Seq<char>>, keys: Seq<KeyView>, rules: Seq<ExcludeView>, r: Result<Seq<ActionView>, ErrorView>) -> bool {
    match r {
        Ok(actions) => {
            &&& forall|k: int| 0 <= k < keys.len() ==> !missing_at(keys, entries, k)
            &&& actions == plan(entries, keys, rules)
        },
        Err(ErrorView::PackageNotVendored(dir)) => exists|k: int| {
            &&& 0 <= k < keys.len()
            &&& #[trigger] missing_at(keys, entries, k)
            &&& forall|m: int| 0 <= m < k ==> !missing_at(keys, entries, m)
            &&& dir == keys[k].dir
        },
        Err(_) => false,
    }
}

/// The place of the first key whose directory is `dir`.
pub fn find_key(keys: &Vec<DirectoryKey>, dir: &str) -> (r: Option<usize>)
    ensures
        match r {
            Some(k) => k < keys.len() && key_at(key_views(keys@), dir@) == k,
            None => key_at(key_views(keys@), dir@) == -1,
        },
{
    let ghost all = key_views(keys@);
    let mut i: usize = 0;
    proof {
        assert(all.take(0) =~= Seq::<KeyView>::empty());
    }
    while i < keys.len()
        invariant
            0 <= i <= keys.len(),
            all == key_views(keys@),
            key_at(all.take(i as int), dir@) == -1,
        decreases keys.len() - i,
    {
        proof {
            assert(all.take(i + 1).drop_last() =~= all.take(i as int));
            assert(all.take(i + 1).last() == keys[i as int]@);
        }
        if str_eq(keys[i].dir.as_str(), dir) {
            proof {
                lemma_key_at_stays(all, dir@, i + 1);
            }
            return Some(i);
        }
        i = i + 1;
    }
    proof {
        assert(all.take(keys.len() as int) =~= all);
    }
    None
}

/// Once a key is found among the first keys, it is the one found among all.
pub proof fn lemma_key_at_stays(keys: Seq<KeyView>, dir: Seq<char>, n: int)
    requires
        0 <= n <= keys.len(),
        key_at(keys.take(n), dir) >= 0,
    ensures
        key_at(keys, dir) == key_at(keys.take(n), dir),
    decreases keys.len() - n,
{
    if n == keys.len() {
        assert(keys.take(n) =~= keys);
    } else {
        assert(keys.take(n + 1).drop_last() =~= keys.take(n));
        lemma_key_at_stays(keys, dir, n + 1);
    }
}

/// Puts a pruning of `dir` by `patterns` at the end of `out`, where there
/// are patterns.
fn push_prune(out: &mut Vec<Action>, dir: &str, patterns: Vec<String>)
    ensures
        action_views(final(out)@) == with_prune(action_views(old(out)@), dir@, string_views(patterns@)),
{
    if patterns.len() > 0 {
        let action = Action::Prune { dir: String::from_str(dir), patterns };
        out.push(action);
        proof {
            assert(action_views(out@) =~= action_views(old(out)@).push(action@));
        }
    }
}

/// Decides what is to be done with each directory of the vendored tree.
///
/// `entries` holds the names of all the directories, read before anything
/// is changed. It fails on the first key whose directory is not among them.
pub fn plan_directory(entries: &Vec<String>, keys: &Vec<DirectoryKey>, rules: &Vec<CrateExclude>) -> (r: Result<Vec<Action>, Error>)
    ensures
        planned(
            string_views(entries@),
            key_views(keys@),
            exclude_views(rules@),
            match r {
                Ok(actions) => Ok(action_views(actions@)),
                Err(e) => Err(e@),
            },
        ),
{
    let ghost es = string_views(entries@);
    let ghost ks = key_views(keys@);
    let ghost rs = exclude_views(rules@);
    let mut k: usize = 0;
    while k < keys.len()
        invariant
            0 <= k <= keys.len(),
            es == string_views(entries@),
            ks == key_views(keys@),
            forall|m: int| 0 <= m < k ==> !missing_at(ks, es, m),
        decreases keys.len() - k,
    {
        proof {
            assert(ks[k as int] == keys[k as int]@);
        }
        if !crate::text::contains_text(entries, keys[k].dir.as_str()) {
            let e = Error::PackageNotVendored(keys[k].dir.clone());
            proof {
                assert(missing_at(ks, es, k as int));
                assert(e@ == ErrorView::PackageNotVendored(ks[k as int].dir));
            }
            return Err(e);
        }
        k = k + 1;
    }
    let mut out: Vec<Action> = Vec::new();
    let mut i: usize = 0;
    proof {
        assert(es.take(0) =~= Seq::<Seq<char>>::empty());
        assert(action_views(out@) =~= Seq::<ActionView>::empty());
    }
    while i < entries.len()
        invariant
            0 <= i <= entries.len(),
            es == string_views(entries@),
            ks == key_views(keys@),
            rs == exclude_views(rules@),
            action_views(out@) == plan(es.take(i as int), ks, rs),
        decreases entries.len() - i,
    {
        let entry = entries[i].as_str();
        proof {
            assert(es.take(i + 1).drop_last() =~= es.take(i as int));
            assert(es.take(i + 1).last() == entry@);
        }
        match find_key(keys, entry) {
            None => {
                let action = Action::Stub { dir: String::from_str(entry) };
                let ghost before = action_views(out@);
                out.push(action);
                proof {
                    assert(action_views(out@) =~= before.push(action@));
                }
            },
            Some(at) => {
                proof {
                    assert(ks[at as int] == keys[at as int]@);
                    reveal_strlit("*");
                }
                push_prune(&mut out, entry, excludes_for(rules, keys[at].name.as_str()));
                push_prune(&mut out, entry, excludes_for(rules, "*"));
            },
        }
        i = i + 1;
    }
    proof {
        assert(es.take(entries.len() as int) =~= es);
    }
    Ok(out)
}

} // verus!
