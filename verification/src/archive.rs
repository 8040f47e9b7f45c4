//! What goes into an archive of the result, and in what order.
//!
//! The order is that of the full paths, never that in which the file system
//! hands the entries out, so that the same tree gives the same archive.

use vstd::prelude::*;
use vstd::relations::{sorted_by, total_ordering};
use vstd::seq_lib::{lemma_sorted_unique, to_multiset_build};
use crate::error::{Error, ErrorView};
use crate::text::{
    chars_le, chars_of, lemma_lex_antisymmetric, lemma_lex_reflexive, lemma_lex_total, lemma_lex_transitive, lex_le,
    string_views,
};

verus! {

/// The time that the gzip header holds: always the same, whatever the clock
/// says.
pub const GZIP_MTIME: u32 = 0;

/// The level at which gzip compresses: always the same.
pub const GZIP_LEVEL: u32 = 6;

/// The owner and the group of every entry of an archive.
pub const ARCHIVE_OWNER: u64 = 0;

/// What an entry of the tree is.
#[derive(Debug, Clone, Copy, PartialEq, Eq, Structural)]
pub enum EntryKind {
    /// A file of the usual kind.
    File,
    /// A file that may be run.
    Executable,
    /// A directory.
    Dir,
    /// A symbolic link. It is archived as a link and not followed.
    Symlink,
    /// A device, a socket or another special file. It is left out of the
    /// archive, with a warning.
    Other,
}

/// An entry of the tree that is archived: its path below the top of the
/// tree, and what it is.
#[derive(Debug, Clone)]
pub struct TreeEntry {
    pub path: String,
    pub kind: EntryKind,
}

/// A [`TreeEntry`] with the text of its path.
pub struct EntryView {
    pub path: Seq<char>,
    pub kind: EntryKind,
}

impl View for TreeEntry {
    type V = EntryView;

    open spec fn view(&self) -> EntryView {
        EntryView { path: self.path@, kind: self.kind }
    }
}

/// The views of a sequence of entries.
pub open spec fn entry_views(v: Seq<TreeEntry>) -> Seq<EntryView> {
    Seq::new(v.len(), |i: int| v[i]@)
}

impl EntryKind {
    /// The place of a kind among the kinds, by which two entries of one
    /// path are ordered.
    pub open spec fn rank(self) -> int {
        match self {
            EntryKind::File => 0,
            EntryKind::Executable => 1,
            EntryKind::Dir => 2,
            EntryKind::Symlink => 3,
            EntryKind::Other => 4,
        }
    }

    /// The permissions with which an entry of a kind is archived, whatever
    /// they are on disk: a file can be read by all and written by its
    /// owner; a file that may be run, and a directory, can be entered or
    /// run by all besides; a link is open to all.
    pub open spec fn spec_mode(self) -> u32 {
        match self {
            EntryKind::File => 0o644,
            EntryKind::Executable => 0o755,
            EntryKind::Dir => 0o755,
            EntryKind::Symlink => 0o777,
            EntryKind::Other => 0,
        }
    }

    /// The permissions with which an entry of the kind is archived.
    pub fn mode(&self) -> (r: u32)
        ensures
            r == self.spec_mode(),
    {
        match self {
            EntryKind::File => 0o644,
            EntryKind::Executable => 0o755,
            EntryKind::Dir => 0o755,
            EntryKind::Symlink => 0o777,
            EntryKind::Other => 0,
        }
    }

    /// The place of the kind among the kinds.
    pub fn place(&self) -> (r: u8)
        ensures
            r == self.rank(),
    {
        match self {
            EntryKind::File => 0,
            EntryKind::Executable => 1,
            EntryKind::Dir => 2,
            EntryKind::Symlink => 3,
            EntryKind::Other => 4,
        }
    }
}

/// Whether the entry `x` comes before or at the entry `y`: by their paths,
/// and by their kinds where the paths are the same.
pub open spec fn entry_le(x: EntryView, y: EntryView) -> bool {
    if x.path == y.path {
        x.kind.rank() <= y.kind.rank()
    } else {
        lex_le(x.path, y.path)
    }
}

/// The order of entries, as a relation.
pub open spec fn entry_order() -> spec_fn(EntryView, EntryView) -> bool {
    |x: EntryView, y: EntryView| entry_le(x, y)
}

/// The order of entries is a total order: of two entries one comes first,
/// and only an entry itself comes at its own place.
pub proof fn lemma_entry_order_total()
    ensures
        total_ordering(entry_order()),
{
    let r = entry_order();
    assert forall|x: EntryView| #[trigger] r(x, x) by {}
    assert forall|x: EntryView, y: EntryView| #[trigger] r(x, y) && #[trigger] r(y, x) implies x == y by {
        if x.path != y.path {
            lemma_lex_antisymmetric(x.path, y.path);
        }
    }
    assert forall|x: EntryView, y: EntryView, z: EntryView| #[trigger] r(x, y) && #[trigger] r(y, z) implies r(x, z) by {
        if x.path == y.path {
        } else if y.path == z.path {
        } else {
            lemma_lex_transitive(x.path, y.path, z.path);
            if x.path == z.path {
                lemma_lex_antisymmetric(x.path, y.path);
            }
        }
    }
    assert forall|x: EntryView, y: EntryView| #[trigger] r(x, y) || #[trigger] r(y, x) by {
        lemma_lex_total(x.path, y.path);
    }
}

/// Whether the entry of the path `a` and the kind `ka` comes before or at
/// the entry of the path `b` and the kind `kb`.
fn entry_before(a: &Vec<char>, ka: EntryKind, b: &Vec<char>, kb: EntryKind) -> (r: bool)
    ensures
        r == entry_le(EntryView { path: a@, kind: ka }, EntryView { path: b@, kind: kb }),
{
    let forth = chars_le(a, b);
    let back = chars_le(b, a);
    if forth && back {
        proof {
            lemma_lex_antisymmetric(a@, b@);
        }
        ka.place() <= kb.place()
    } else {
        proof {
            if a@ == b@ {
                lemma_lex_reflexive(a@);
            }
        }
        forth
    }
}


/// An entry with the characters of its path at hand, so that they are
/// taken out of the string once only.
struct Keyed {
    key: Vec<char>,
    entry: TreeEntry,
}

/// The entries of a sequence of keyed entries.
spec fn keyed_views(v: Seq<Keyed>) -> Seq<EntryView> {
    Seq::new(v.len(), |i: int| v[i].entry@)
}

/// Every key holds the characters of the path of its entry.
spec fn all_keyed(v: Seq<Keyed>) -> bool {
    forall|i: int| 0 <= i < v.len() ==> (#[trigger] v[i]).key@ == v[i].entry.path@
}

/// Every entry comes before or at each of those before it.
spec fn descending(s: Seq<EntryView>) -> bool {
    forall|i: int, j: int| 0 <= i < j < s.len() ==> entry_le(#[trigger] s[j], #[trigger] s[i])
}

/// Every entry of `low` comes before or at every entry of `high`.
spec fn all_below(low: Seq<EntryView>, high: Seq<EntryView>) -> bool {
    forall|i: int, k: int| 0 <= i < low.len() && 0 <= k < high.len() ==> entry_le(#[trigger] low[i], #[trigger] high[k])
}

/// Turns a sequence that falls into one that rises: takes the entries off
/// the end of `falling` and puts them, one after the other, behind `out`.
fn pour(falling: Vec<Keyed>, out: Vec<Keyed>) -> (r: Vec<Keyed>)
    requires
        all_keyed(falling@),
        all_keyed(out@),
        descending(keyed_views(falling@)),
        sorted_by(keyed_views(out@), entry_order()),
        all_below(keyed_views(out@), keyed_views(falling@)),
    ensures
        all_keyed(r@),
        sorted_by(keyed_views(r@), entry_order()),
        keyed_views(r@).to_multiset() == keyed_views(out@).to_multiset().add(keyed_views(falling@).to_multiset()),
{
    let ghost whole = keyed_views(out@).to_multiset().add(keyed_views(falling@).to_multiset());
    let mut falling = falling;
    let mut out = out;
    while falling.len() > 0
        invariant
            all_keyed(falling@),
            all_keyed(out@),
            descending(keyed_views(falling@)),
            sorted_by(keyed_views(out@), entry_order()),
            all_below(keyed_views(out@), keyed_views(falling@)),
            keyed_views(out@).to_multiset().add(keyed_views(falling@).to_multiset()) == whole,
        decreases falling.len(),
    {
        let ghost high = keyed_views(falling@);
        let ghost low = keyed_views(out@);
        let ghost old_falling = falling@;
        let ghost old_out = out@;
        let e = match falling.pop() {
            Some(e) => e,
            None => {
                return out;
            },
        };
        out.push(e);
        proof {
            let n = high.len() - 1;
            assert(e == old_falling[n]);
            assert(high =~= keyed_views(falling@).push(e.entry@));
            assert(keyed_views(out@) =~= low.push(e.entry@));
            to_multiset_build(keyed_views(falling@), e.entry@);
            to_multiset_build(low, e.entry@);
            assert(keyed_views(out@).to_multiset().add(keyed_views(falling@).to_multiset()) =~= whole) by {
                broadcast use vstd::multiset::group_multiset_axioms;
            }
            assert forall|i: int| 0 <= i < falling.len() implies (#[trigger] falling@[i]).key@ == falling@[i].entry.path@ by {
                assert(falling@[i] == old_falling[i]);
            }
            assert forall|i: int| 0 <= i < out.len() implies (#[trigger] out@[i]).key@ == out@[i].entry.path@ by {
                if i < old_out.len() {
                    assert(out@[i] == old_out[i]);
                }
            }
            let now = keyed_views(out@);
            let rest = keyed_views(falling@);
            assert forall|i: int, j: int| 0 <= i < j < rest.len() implies entry_le(#[trigger] rest[j], #[trigger] rest[i]) by {
                assert(rest[i] == high[i]);
                assert(rest[j] == high[j]);
            }
            let le = entry_order();
            assert forall|i: int, j: int| 0 <= i < j < now.len() implies #[trigger] le(now[i], now[j]) by {
                if j < low.len() {
                    assert(le(low[i], low[j]));
                } else {
                    assert(now[i] == low[i]);
                    assert(entry_le(low[i], high[n]));
                }
            }
            assert forall|i: int, k: int| 0 <= i < now.len() && 0 <= k < rest.len() implies entry_le(#[trigger] now[i], #[trigger] rest[k]) by {
                assert(rest[k] == high[k]);
                if i < low.len() {
                    assert(now[i] == low[i]);
                    assert(entry_le(low[i], high[k]));
                } else {
                    assert(entry_le(high[n], high[k]));
                }
            }
        }
    }
    proof {
        assert(keyed_views(falling@) =~= Seq::<EntryView>::empty());
        keyed_views(falling@).to_multiset_ensures();
        assert(keyed_views(out@).to_multiset() =~= whole) by {
            broadcast use vstd::multiset::group_multiset_axioms;
        }
    }
    out
}

/// Whether the entry of `a` comes before or at the entry of `b`.
fn keyed_before(a: &Keyed, b: &Keyed) -> (r: bool)
    requires
        a.key@ == a.entry.path@,
        b.key@ == b.entry.path@,
    ensures
        r == entry_le(a.entry@, b.entry@),
{
    entry_before(&a.key, a.entry.kind, &b.key, b.entry.kind)
}

/// Joins two sequences that are in order into one that is.
fn merge(a: Vec<Keyed>, b: Vec<Keyed>) -> (r: Vec<Keyed>)
    requires
        all_keyed(a@),
        all_keyed(b@),
        sorted_by(keyed_views(a@), entry_order()),
        sorted_by(keyed_views(b@), entry_order()),
    ensures
        all_keyed(r@),
        sorted_by(keyed_views(r@), entry_order()),
        keyed_views(r@).to_multiset() == keyed_views(a@).to_multiset().add(keyed_views(b@).to_multiset()),
{
    let ghost whole = keyed_views(a@).to_multiset().add(keyed_views(b@).to_multiset());
    let mut a = a;
    let mut b = b;
    let mut falling: Vec<Keyed> = Vec::new();
    proof {
        assert(keyed_views(falling@) =~= Seq::<EntryView>::empty());
        keyed_views(falling@).to_multiset_ensures();
        assert(keyed_views(a@).to_multiset().add(keyed_views(b@).to_multiset()).add(keyed_views(falling@).to_multiset()) =~= whole) by {
            broadcast use vstd::multiset::group_multiset_axioms;
        }
    }
    while a.len() > 0 || b.len() > 0
        invariant
            all_keyed(a@),
            all_keyed(b@),
            all_keyed(falling@),
            sorted_by(keyed_views(a@), entry_order()),
            sorted_by(keyed_views(b@), entry_order()),
            descending(keyed_views(falling@)),
            all_below(keyed_views(a@), keyed_views(falling@)),
            all_below(keyed_views(b@), keyed_views(falling@)),
            keyed_views(a@).to_multiset().add(keyed_views(b@).to_multiset()).add(keyed_views(falling@).to_multiset()) == whole,
        decreases a.len() + b.len(),
    {
        let ghost va = keyed_views(a@);
        let ghost vb = keyed_views(b@);
        let ghost vf = keyed_views(falling@);
        let ghost old_a = a@;
        let ghost old_b = b@;
        let ghost old_f = falling@;
        let from_a = if b.len() == 0 {
            true
        } else if a.len() == 0 {
            false
        } else {
            keyed_before(&b[b.len() - 1], &a[a.len() - 1])
        };
        let e = if from_a {
            match a.pop() {
                Some(e) => e,
                None => {
                    return falling;
                },
            }
        } else {
            match b.pop() {
                Some(e) => e,
                None => {
                    return falling;
                },
            }
        };
        falling.push(e);
        proof {
            lemma_entry_order_total();
            let le = entry_order();
            let x = e.entry@;
            let na = keyed_views(a@);
            let nb = keyed_views(b@);
            let nf = keyed_views(falling@);
            assert(nf =~= vf.push(x));
            to_multiset_build(vf, x);
            if from_a {
                assert(va =~= na.push(x));
                assert(nb =~= vb);
                to_multiset_build(na, x);
            } else {
                assert(vb =~= nb.push(x));
                assert(na =~= va);
                to_multiset_build(nb, x);
            }
            assert(na.to_multiset().add(nb.to_multiset()).add(nf.to_multiset()) =~= whole) by {
                broadcast use vstd::multiset::group_multiset_axioms;
            }
            assert forall|i: int| 0 <= i < a.len() implies (#[trigger] a@[i]).key@ == a@[i].entry.path@ by {
                assert(a@[i] == old_a[i]);
            }
            assert forall|i: int| 0 <= i < b.len() implies (#[trigger] b@[i]).key@ == b@[i].entry.path@ by {
                assert(b@[i] == old_b[i]);
            }
            assert forall|i: int| 0 <= i < falling.len() implies (#[trigger] falling@[i]).key@ == falling@[i].entry.path@ by {
                if i < old_f.len() {
                    assert(falling@[i] == old_f[i]);
                } else if from_a {
                    assert(e == old_a[old_a.len() - 1]);
                } else {
                    assert(e == old_b[old_b.len() - 1]);
                }
            }
            assert forall|i: int, j: int| 0 <= i < j < na.len() implies #[trigger] le(na[i], na[j]) by {
                assert(na[i] == va[i]);
                assert(na[j] == va[j]);
                assert(le(va[i], va[j]));
            }
            assert forall|i: int, j: int| 0 <= i < j < nb.len() implies #[trigger] le(nb[i], nb[j]) by {
                assert(nb[i] == vb[i]);
                assert(nb[j] == vb[j]);
                assert(le(vb[i], vb[j]));
            }
            // the entry that was taken is the last of its own sequence, and
            // no entry of the other sequence comes after it
            assert forall|i: int| 0 <= i < na.len() implies entry_le(#[trigger] na[i], x) by {
                assert(na[i] == va[i]);
                if from_a {
                    assert(le(va[i], va[va.len() - 1]));
                } else {
                    let last_a = va[va.len() - 1];
                    assert(le(va[i], last_a) || i == va.len() - 1);
                    assert(le(x, last_a) || le(last_a, x));
                    assert(le(va[i], last_a) && le(last_a, x) ==> le(va[i], x));
                }
            }
            assert forall|i: int| 0 <= i < nb.len() implies entry_le(#[trigger] nb[i], x) by {
                assert(nb[i] == vb[i]);
                if from_a {
                    let last_b = vb[vb.len() - 1];
                    assert(le(vb[i], last_b) || i == vb.len() - 1);
                    assert(le(vb[i], last_b) && le(last_b, x) ==> le(vb[i], x));
                } else {
                    assert(le(vb[i], vb[vb.len() - 1]));
                }
            }
            assert forall|i: int, j: int| 0 <= i < j < nf.len() implies entry_le(#[trigger] nf[j], #[trigger] nf[i]) by {
                assert(nf[i] == vf[i]);
                if j < vf.len() {
                    assert(nf[j] == vf[j]);
                } else if from_a {
                    assert(entry_le(va[va.len() - 1], vf[i]));
                } else {
                    assert(entry_le(vb[vb.len() - 1], vf[i]));
                }
            }
            assert forall|i: int, k: int| 0 <= i < na.len() && 0 <= k < nf.len() implies entry_le(#[trigger] na[i], #[trigger] nf[k]) by {
                assert(na[i] == va[i]);
                if k < vf.len() {
                    assert(nf[k] == vf[k]);
                    assert(entry_le(va[i], vf[k]));
                }
            }
            assert forall|i: int, k: int| 0 <= i < nb.len() && 0 <= k < nf.len() implies entry_le(#[trigger] nb[i], #[trigger] nf[k]) by {
                assert(nb[i] == vb[i]);
                if k < vf.len() {
                    assert(nf[k] == vf[k]);
                    assert(entry_le(vb[i], vf[k]));
                }
            }
        }
    }
    let ghost vf = keyed_views(falling@);
    let out: Vec<Keyed> = Vec::new();
    proof {
        assert(keyed_views(a@) =~= Seq::<EntryView>::empty());
        assert(keyed_views(b@) =~= Seq::<EntryView>::empty());
        assert(keyed_views(out@) =~= Seq::<EntryView>::empty());
        keyed_views(out@).to_multiset_ensures();
        assert(vf.to_multiset() =~= whole) by {
            broadcast use vstd::multiset::group_multiset_axioms;
        }
        assert(keyed_views(out@).to_multiset().add(vf.to_multiset()) =~= whole) by {
            broadcast use vstd::multiset::group_multiset_axioms;
        }
    }
    pour(falling, out)
}

/// Puts keyed entries in order: each half first, then the two together.
fn sort_keyed(v: Vec<Keyed>) -> (r: Vec<Keyed>)
    requires
        all_keyed(v@),
    ensures
        all_keyed(r@),
        sorted_by(keyed_views(r@), entry_order()),
        keyed_views(r@).to_multiset() == keyed_views(v@).to_multiset(),
    decreases v.len(),
{
    if v.len() <= 1 {
        return v;
    }
    let ghost whole = keyed_views(v@);
    let mid = v.len() / 2;
    let mut left = v;
    let right = left.split_off(mid);
    proof {
        assert(whole =~= keyed_views(left@) + keyed_views(right@));
        vstd::seq_lib::lemma_multiset_commutative(keyed_views(left@), keyed_views(right@));
        assert forall|i: int| 0 <= i < left.len() implies (#[trigger] left@[i]).key@ == left@[i].entry.path@ by {
            assert(left@[i] == v@[i]);
        }
        assert forall|i: int| 0 <= i < right.len() implies (#[trigger] right@[i]).key@ == right@[i].entry.path@ by {
            assert(right@[i] == v@[mid + i]);
        }
    }
    let left = sort_keyed(left);
    let right = sort_keyed(right);
    merge(left, right)
}

/// Puts the entries of a tree in order. What comes out holds what went in,
/// each entry as often as before, and is in the order of the entries.
pub fn sort_entries(entries: Vec<TreeEntry>) -> (r: Vec<TreeEntry>)
    ensures
        sorted_by(entry_views(r@), entry_order()),
        entry_views(r@).to_multiset() == entry_views(entries@).to_multiset(),
{
    let ghost input = entry_views(entries@);
    let mut rest = entries;
    let mut keyed: Vec<Keyed> = Vec::new();
    proof {
        assert(keyed_views(keyed@) =~= Seq::<EntryView>::empty());
        keyed_views(keyed@).to_multiset_ensures();
        assert(keyed_views(keyed@).to_multiset().add(input.to_multiset()) =~= input.to_multiset()) by {
            broadcast use vstd::multiset::group_multiset_axioms;
        }
    }
    while rest.len() > 0
        invariant
            all_keyed(keyed@),
            keyed_views(keyed@).to_multiset().add(entry_views(rest@).to_multiset()) == input.to_multiset(),
        decreases rest.len(),
    {
        let ghost before_rest = entry_views(rest@);
        let ghost before = keyed_views(keyed@);
        let ghost old_keyed = keyed@;
        let e = match rest.pop() {
            Some(e) => e,
            None => {
                return rest;
            },
        };
        let item = Keyed { key: chars_of(e.path.as_str()), entry: e };
        keyed.push(item);
        proof {
            assert(before_rest =~= entry_views(rest@).push(e@));
            assert(keyed_views(keyed@) =~= before.push(e@));
            to_multiset_build(entry_views(rest@), e@);
            to_multiset_build(before, e@);
            assert(keyed_views(keyed@).to_multiset().add(entry_views(rest@).to_multiset()) =~= input.to_multiset()) by {
                broadcast use vstd::multiset::group_multiset_axioms;
            }
            assert forall|i: int| 0 <= i < keyed.len() implies (#[trigger] keyed@[i]).key@ == keyed@[i].entry.path@ by {
                if i < old_keyed.len() {
                    assert(keyed@[i] == old_keyed[i]);
                }
            }
        }
    }
    proof {
        assert(entry_views(rest@) =~= Seq::<EntryView>::empty());
        entry_views(rest@).to_multiset_ensures();
        assert(keyed_views(keyed@).to_multiset() =~= input.to_multiset()) by {
            broadcast use vstd::multiset::group_multiset_axioms;
        }
    }
    let mut sorted = sort_keyed(keyed);
    let ghost order = keyed_views(sorted@);
    let mut falling: Vec<TreeEntry> = Vec::new();
    while sorted.len() > 0
        invariant
            sorted.len() + falling.len() == order.len(),
            forall|i: int| 0 <= i < sorted.len() ==> (#[trigger] sorted@[i]).entry@ == order[i],
            forall|k: int| 0 <= k < falling.len() ==> (#[trigger] falling@[k])@ == order[order.len() - 1 - k],
        decreases sorted.len(),
    {
        let ghost old_sorted = sorted@;
        let ghost old_falling = falling@;
        match sorted.pop() {
            Some(item) => {
                falling.push(item.entry);
                proof {
                    assert forall|i: int| 0 <= i < sorted.len() implies (#[trigger] sorted@[i]).entry@ == order[i] by {
                        assert(sorted@[i] == old_sorted[i]);
                    }
                    assert forall|k: int| 0 <= k < falling.len() implies (#[trigger] falling@[k])@ == order[order.len() - 1 - k] by {
                        if k < old_falling.len() {
                            assert(falling@[k] == old_falling[k]);
                        } else {
                            assert(item == old_sorted[old_sorted.len() - 1]);
                        }
                    }
                }
            },
            None => {},
        }
    }
    let mut out: Vec<TreeEntry> = Vec::new();
    while falling.len() > 0
        invariant
            out.len() + falling.len() == order.len(),
            forall|i: int| 0 <= i < out.len() ==> (#[trigger] out@[i])@ == order[i],
            forall|k: int| 0 <= k < falling.len() ==> (#[trigger] falling@[k])@ == order[order.len() - 1 - k],
        decreases falling.len(),
    {
        let ghost old_out = out@;
        let ghost old_falling = falling@;
        match falling.pop() {
            Some(e) => {
                out.push(e);
                proof {
                    assert forall|i: int| 0 <= i < out.len() implies (#[trigger] out@[i])@ == order[i] by {
                        if i < old_out.len() {
                            assert(out@[i] == old_out[i]);
                        } else {
                            assert(e == old_falling[old_falling.len() - 1]);
                        }
                    }
                    assert forall|k: int| 0 <= k < falling.len() implies (#[trigger] falling@[k])@ == order[order.len() - 1 - k] by {
                        assert(falling@[k] == old_falling[k]);
                    }
                }
            },
            None => {},
        }
    }
    proof {
        assert(entry_views(out@) =~= order);
    }
    out
}

/// An entry as it is written into the archive.
#[derive(Debug, Clone)]
pub struct ArchiveItem {
    /// The path of the entry below the top of the tree.
    pub source: String,
    /// The path of the entry inside the archive.
    pub name: String,
    pub kind: EntryKind,
    /// The permissions of the entry.
    pub mode: u32,
    pub uid: u64,
    pub gid: u64,
    /// The time of the entry's last change, in seconds since the epoch.
    pub mtime: u64,
}

/// An [`ArchiveItem`] with the texts of its strings.
pub struct ItemView {
    pub source: Seq<char>,
    pub name: Seq<char>,
    pub kind: EntryKind,
    pub mode: u32,
    pub uid: u64,
    pub gid: u64,
    pub mtime: u64,
}

impl View for ArchiveItem {
    type V = ItemView;

    open spec fn view(&self) -> ItemView {
        ItemView {
            source: self.source@,
            name: self.name@,
            kind: self.kind,
            mode: self.mode,
            uid: self.uid,
            gid: self.gid,
            mtime: self.mtime,
        }
    }
}

/// The views of a sequence of items.
pub open spec fn item_views(v: Seq<ArchiveItem>) -> Seq<ItemView> {
    Seq::new(v.len(), |i: int| v[i]@)
}

/// What is to be written into an archive, in order, and the paths of what
/// is left out.
#[derive(Debug, Clone)]
pub struct ArchivePlan {
    pub items: Vec<ArchiveItem>,
    pub skipped: Vec<String>,
}

/// The path of an entry inside the archive: its own path, below the prefix
/// where one is given.
pub open spec fn archived_name(path: Seq<char>, prefix: Option<Seq<char>>) -> Seq<char> {
    match prefix {
        Some(p) => p + seq!['/'] + path,
        None => path,
    }
}

/// The item of an entry: with the permissions of its kind, owned by nobody
/// in particular, and last changed at the one time that all the items
/// share.
pub open spec fn item_of(e: EntryView, prefix: Option<Seq<char>>, mtime: u64) -> ItemView {
    ItemView {
        source: e.path,
        name: archived_name(e.path, prefix),
        kind: e.kind,
        mode: e.kind.spec_mode(),
        uid: ARCHIVE_OWNER,
        gid: ARCHIVE_OWNER,
        mtime,
    }
}

/// The items of the entries `order`, in their order, special files left out.
pub open spec fn items_of(order: Seq<EntryView>, prefix: Option<Seq<char>>, mtime: u64) -> Seq<ItemView>
    decreases order.len(),
{
    if order.len() == 0 {
        Seq::<ItemView>::empty()
    } else {
        let before = items_of(order.drop_last(), prefix, mtime);
        if order.last().kind == EntryKind::Other {
            before
        } else {
            before.push(item_of(order.last(), prefix, mtime))
        }
    }
}

/// The paths of the special files among `order`, in their order.
pub open spec fn skipped_of(order: Seq<EntryView>) -> Seq<Seq<char>>
    decreases order.len(),
{
    if order.len() == 0 {
        Seq::<Seq<char>>::empty()
    } else {
        let before = skipped_of(order.drop_last());
        if order.last().kind == EntryKind::Other {
            before.push(order.last().path)
        } else {
            before
        }
    }
}

/// Whether `items` and `skipped` are the plan for the entries `entries`:
/// what the entries give when they are put in order.
pub open spec fn is_plan(entries: Seq<EntryView>, prefix: Option<Seq<char>>, mtime: u64, items: Seq<ItemView>, skipped: Seq<Seq<char>>) -> bool {
    exists|order: Seq<EntryView>| {
        &&& sorted_by(order, entry_order())
        &&& #[trigger] order.to_multiset() == entries.to_multiset()
        &&& items == items_of(order, prefix, mtime)
        &&& skipped == skipped_of(order)
    }
}

/// Plans an archive of the tree whose entries are `entries`, in whatever
/// order they were found. Every item has the time `mtime`.
pub fn plan_archive(entries: Vec<TreeEntry>, prefix: Option<&str>, mtime: u64) -> (r: ArchivePlan)
    ensures
        is_plan(
            entry_views(entries@),
            match prefix {
                Some(p) => Some(p@),
                None => None,
            },
            mtime,
            item_views(r.items@),
            string_views(r.skipped@),
        ),
{
    let ghost given = match prefix {
        Some(p) => Some(p@),
        None => None,
    };
    let sorted = sort_entries(entries);
    let ghost order = entry_views(sorted@);
    let mut items: Vec<ArchiveItem> = Vec::new();
    let mut skipped: Vec<String> = Vec::new();
    let mut i: usize = 0;
    proof {
        assert(order.take(0) =~= Seq::<EntryView>::empty());
        assert(item_views(items@) =~= Seq::<ItemView>::empty());
        assert(string_views(skipped@) =~= Seq::<Seq<char>>::empty());
    }
    while i < sorted.len()
        invariant
            0 <= i <= sorted.len(),
            order == entry_views(sorted@),
            given == match prefix {
                Some(p) => Some(p@),
                None => None,
            },
            item_views(items@) == items_of(order.take(i as int), given, mtime),
            string_views(skipped@) == skipped_of(order.take(i as int)),
        decreases sorted.len() - i,
    {
        let e = &sorted[i];
        proof {
            assert(order.take(i + 1).drop_last() =~= order.take(i as int));
            assert(order.take(i + 1).last() == e@);
        }
        match e.kind {
            EntryKind::Other => {
                let ghost before = string_views(skipped@);
                skipped.push(e.path.clone());
                proof {
                    assert(string_views(skipped@) =~= before.push(e.path@));
                }
            },
            _ => {
                let name = match prefix {
                    Some(p) => {
                        let mut n = String::from_str(p);
                        n.append("/");
                        n.append(e.path.as_str());
                        proof {
                            reveal_strlit("/");
                            assert("/"@ =~= seq!['/']);
                        }
                        n
                    },
                    None => e.path.clone(),
                };
                let item = ArchiveItem {
                    source: e.path.clone(),
                    name,
                    kind: e.kind,
                    mode: e.kind.mode(),
                    uid: ARCHIVE_OWNER,
                    gid: ARCHIVE_OWNER,
                    mtime,
                };
                let ghost before = item_views(items@);
                items.push(item);
                proof {
                    assert(item_views(items@) =~= before.push(item@));
                }
            },
        }
        i = i + 1;
    }
    proof {
        assert(order.take(sorted.len() as int) =~= order);
        assert(order.to_multiset() == entry_views(entries@).to_multiset());
    }
    ArchivePlan { items, skipped }
}

/// The same tree gives the same archive. Two plans for the same entries,
/// found in whatever order, with the same prefix and the same time, hold
/// the same items in the same order and leave the same paths out.
pub proof fn lemma_plan_is_reproducible(
    first: Seq<EntryView>,
    second: Seq<EntryView>,
    prefix: Option<Seq<char>>,
    mtime: u64,
    items_a: Seq<ItemView>,
    skipped_a: Seq<Seq<char>>,
    items_b: Seq<ItemView>,
    skipped_b: Seq<Seq<char>>,
)
    requires
        first.to_multiset() == second.to_multiset(),
        is_plan(first, prefix, mtime, items_a, skipped_a),
        is_plan(second, prefix, mtime, items_b, skipped_b),
    ensures
        items_a == items_b,
        skipped_a == skipped_b,
{
    let a = choose|order: Seq<EntryView>| {
        &&& sorted_by(order, entry_order())
        &&& #[trigger] order.to_multiset() == first.to_multiset()
        &&& items_a == items_of(order, prefix, mtime)
        &&& skipped_a == skipped_of(order)
    };
    let b = choose|order: Seq<EntryView>| {
        &&& sorted_by(order, entry_order())
        &&& #[trigger] order.to_multiset() == second.to_multiset()
        &&& items_b == items_of(order, prefix, mtime)
        &&& skipped_b == skipped_of(order)
    };
    lemma_entry_order_total();
    lemma_sorted_unique(a, b, entry_order());
}


/// The value of a decimal digit, or nothing for another character.
pub open spec fn digit_value(c: char) -> Option<nat> {
    if c == '0' {
        Some(0)
    } else if c == '1' {
        Some(1)
    } else if c == '2' {
        Some(2)
    } else if c == '3' {
        Some(3)
    } else if c == '4' {
        Some(4)
    } else if c == '5' {
        Some(5)
    } else if c == '6' {
        Some(6)
    } else if c == '7' {
        Some(7)
    } else if c == '8' {
        Some(8)
    } else if c == '9' {
        Some(9)
    } else {
        None
    }
}

/// The number that a run of decimal digits writes, or nothing where one of
/// the characters is no digit.
pub open spec fn digits_value(s: Seq<char>) -> Option<nat>
    decreases s.len(),
{
    if s.len() == 0 {
        Some(0)
    } else {
        match (digits_value(s.drop_last()), digit_value(s.last())) {
            (Some(high), Some(low)) => Some(high * 10 + low),
            _ => None,
        }
    }
}

/// A text without the line ends that follow it.
pub open spec fn without_line_end(s: Seq<char>) -> Seq<char>
    decreases s.len(),
{
    if s.len() > 0 && (s.last() == '\n' || s.last() == '\r') {
        without_line_end(s.drop_last())
    } else {
        s
    }
}

/// The time that a text writes, in seconds since the epoch: the number that
/// its digits write, before which a `+` may stand, where there is a digit
/// and the number is not too large.
pub open spec fn epoch_of(text: Seq<char>) -> Option<u64> {
    let digits = if text.len() > 0 && text[0] == '+' {
        text.skip(1)
    } else {
        text
    };
    if digits.len() == 0 {
        None
    } else {
        match digits_value(digits) {
            Some(n) => if n <= u64::MAX {
                Some(n as u64)
            } else {
                None
            },
            None => None,
        }
    }
}

/// What the digits up to `k` write is no more than what all of them write;
/// and where they write nothing, neither do all of them.
pub proof fn lemma_digits_grow(s: Seq<char>, k: int)
    requires
        0 <= k <= s.len(),
    ensures
        digits_value(s.take(k)) is None ==> digits_value(s) is None,
        digits_value(s) is Some ==> digits_value(s.take(k))->0 <= digits_value(s)->0,
    decreases s.len() - k,
{
    if k == s.len() {
        assert(s.take(k) =~= s);
    } else {
        assert(s.take(k + 1).drop_last() =~= s.take(k));
        lemma_digits_grow(s, k + 1);
    }
}

/// The value of the digit `c`.
fn digit_of(c: char) -> (r: Option<u64>)
    ensures
        r is Some == digit_value(c) is Some,
        r is Some ==> r->0 == digit_value(c)->0 && r->0 < 10,
{
    if c == '0' {
        Some(0)
    } else if c == '1' {
        Some(1)
    } else if c == '2' {
        Some(2)
    } else if c == '3' {
        Some(3)
    } else if c == '4' {
        Some(4)
    } else if c == '5' {
        Some(5)
    } else if c == '6' {
        Some(6)
    } else if c == '7' {
        Some(7)
    } else if c == '8' {
        Some(8)
    } else if c == '9' {
        Some(9)
    } else {
        None
    }
}

/// Reads a time in seconds since the epoch.
pub fn parse_epoch(text: &str) -> (r: Option<u64>)
    ensures
        r == epoch_of(text@),
{
    let chars = chars_of(text);
    let start: usize = if chars.len() > 0 && chars[0] == '+' {
        1
    } else {
        0
    };
    if start == chars.len() {
        return None;
    }
    let ghost digits = chars@.skip(start as int);
    let mut value: u64 = 0;
    let mut i: usize = start;
    proof {
        assert(digits.take(0) =~= Seq::<char>::empty());
        assert(chars@.skip(0) =~= chars@);
    }
    while i < chars.len()
        invariant
            start <= i <= chars.len(),
            start < chars.len(),
            chars@ == text@,
            start == (if chars@.len() > 0 && chars@[0] == '+' { 1int } else { 0int }),
            digits == chars@.skip(start as int),
            digits == (if text@.len() > 0 && text@[0] == '+' { text@.skip(1) } else { text@ }),
            digits_value(digits.take(i - start)) == Some(value as nat),
        decreases chars.len() - i,
    {
        proof {
            let k = i - start;
            assert(digits.take(k + 1).drop_last() =~= digits.take(k));
            assert(digits.take(k + 1).last() == chars@[i as int]);
            lemma_digits_grow(digits, k + 1);
        }
        let d = match digit_of(chars[i]) {
            Some(d) => d,
            None => {
                return None;
            },
        };
        if value > (u64::MAX - d) / 10 {
            proof {
                assert(value * 10 + d > u64::MAX) by (nonlinear_arith)
                    requires
                        value > (u64::MAX - d) / 10,
                        0 <= d < 10,
                ;
            }
            return None;
        }
        assert(value * 10 + d <= u64::MAX) by (nonlinear_arith)
            requires
                value <= (u64::MAX - d) / 10,
                0 <= d < 10,
        ;
        value = value * 10 + d;
        i = i + 1;
    }
    proof {
        assert(digits.take(chars.len() - start) =~= digits);
    }
    Some(value)
}

/// The time that the items of an archive share: the one that is given,
/// where one is; else the time of the latest commit. `given` holds the
/// override as it was set, `commit` what the version control printed for
/// the latest commit. It fails where the text that counts is no time.
pub fn archive_timestamp(given: Option<&str>, commit: &str) -> (r: Result<u64, Error>)
    ensures
        match given {
            Some(g) => match epoch_of(g@) {
                Some(t) => r == Ok::<u64, Error>(t),
                None => r is Err && r->Err_0@ == ErrorView::InvalidTimestamp(g@),
            },
            None => match epoch_of(without_line_end(commit@)) {
                Some(t) => r == Ok::<u64, Error>(t),
                None => r is Err && r->Err_0@ == ErrorView::InvalidTimestamp(commit@),
            },
        },
{
    match given {
        Some(g) => match parse_epoch(g) {
            Some(t) => Ok(t),
            None => Err(Error::InvalidTimestamp(String::from_str(g))),
        },
        None => {
            let chars = chars_of(commit);
            let mut end: usize = chars.len();
            proof {
                assert(chars@.take(end as int) =~= chars@);
            }
            while end > 0 && (chars[end - 1] == '\n' || chars[end - 1] == '\r')
                invariant
                    0 <= end <= chars.len(),
                    without_line_end(chars@) == without_line_end(chars@.take(end as int)),
                decreases end,
            {
                proof {
                    assert(chars@.take(end as int).last() == chars@[end - 1]);
                    assert(chars@.take(end as int).drop_last() =~= chars@.take(end - 1));
                }
                end = end - 1;
            }
            proof {
                if end > 0 {
                    assert(chars@.take(end as int).last() == chars@[end - 1]);
                }
                assert(commit@.subrange(0, end as int) =~= chars@.take(end as int));
            }
            match parse_epoch(commit.substring_char(0, end)) {
                Some(t) => Ok(t),
                None => Err(Error::InvalidTimestamp(String::from_str(commit))),
            }
        },
    }
}

/// Whether the version control has to be asked for the time of the latest
/// commit: only where no time is given.
pub fn needs_commit_time(given: Option<&str>) -> (r: bool)
    ensures
        r == given is None,
{
    given.is_none()
}

} // verus!
