//! Matching target triples against patterns, and expanding a list of patterns
//! over the triples that are known.

use vstd::prelude::*;
use crate::text::{chars_of, split, split_spans, span_eq, pieces, Span, lemma_split_chars, lemma_split_injective, str_views, string_views, add_unique, lemma_add_unique, push_unique};

verus! {

/// The character that separates the segments of a triple.
pub open spec fn separator() -> char {
    '-'
}

/// The segment that stands for any segment.
pub open spec fn star() -> Seq<char> {
    seq!['*']
}

/// Whether a pattern holds a wildcard at all.
pub open spec fn is_wildcard(pattern: Seq<char>) -> bool {
    pattern.contains('*')
}

/// A pattern segment matches a triple segment when it is the wildcard or the
/// same text.
pub open spec fn segment_matches(segment: Seq<char>, pattern: Seq<char>) -> bool {
    pattern == star() || pattern == segment
}

/// A triple matches a pattern when both have the same number of segments and
/// each segment of the pattern matches the segment of the triple at its place.
pub open spec fn matches(triple: Seq<char>, pattern: Seq<char>) -> bool {
    let ts = split(triple, separator());
    let ps = split(pattern, separator());
    &&& ts.len() == ps.len()
    &&& forall|i: int| 0 <= i < ts.len() ==> segment_matches(#[trigger] ts[i], ps[i])
}

/// Whether the span of `p` is the lone wildcard.
fn span_is_star(p: &Vec<char>, x: Span) -> (r: bool)
    requires
        x.within(p@.len()),
    ensures
        r == (x.of(p@) == star()),
{
    if x.end - x.start == 1 {
        let c = p[x.start];
        proof {
            assert(x.of(p@)[0] == c);
            if c == '*' {
                assert(x.of(p@) =~= star());
            } else {
                assert(star()[0] == '*');
            }
        }
        c == '*'
    } else {
        proof {
            assert(star().len() == 1);
        }
        false
    }
}

/// Decides whether `triple` matches `pattern`.
pub fn triple_matches(triple: &str, pattern: &str) -> (r: bool)
    ensures
        r == matches(triple@, pattern@),
{
    let t = chars_of(triple);
    let p = chars_of(pattern);
    let ts = split_spans(&t, 0, t.len(), '-');
    let ps = split_spans(&p, 0, p.len(), '-');
    proof {
        assert(t@.subrange(0, t@.len() as int) == t@);
        assert(p@.subrange(0, p@.len() as int) == p@);
    }
    if ts.len() != ps.len() {
        return false;
    }
    let ghost tsv = split(triple@, separator());
    let ghost psv = split(pattern@, separator());
    let mut i: usize = 0;
    while i < ts.len()
        invariant
            0 <= i <= ts.len(),
            ts.len() == ps.len(),
            tsv == pieces(ts@, t@),
            psv == pieces(ps@, p@),
            tsv == split(triple@, separator()),
            psv == split(pattern@, separator()),
            forall|k: int| 0 <= k < ts.len() ==> (#[trigger] ts[k]).within(t@.len()),
            forall|k: int| 0 <= k < ps.len() ==> (#[trigger] ps[k]).within(p@.len()),
            forall|k: int| 0 <= k < i ==> segment_matches(#[trigger] tsv[k], psv[k]),
        decreases ts.len() - i,
    {
        let star = span_is_star(&p, ps[i]);
        let same = span_eq(&p, ps[i], &t, ts[i]);
        proof {
            assert(tsv[i as int] == ts[i as int].of(t@));
            assert(psv[i as int] == ps[i as int].of(p@));
        }
        if !(star || same) {
            proof {
                assert(!segment_matches(tsv[i as int], psv[i as int]));
            }
            return false;
        }
        i = i + 1;
    }
    true
}

/// A pattern without a wildcard matches a triple exactly when the two are the
/// same text.
pub proof fn lemma_literal_pattern_matches_itself_only(triple: Seq<char>, pattern: Seq<char>)
    requires
        !is_wildcard(pattern),
    ensures
        matches(triple, pattern) <==> triple == pattern,
{
    let ts = split(triple, separator());
    let ps = split(pattern, separator());
    if matches(triple, pattern) {
        assert(ts =~= ps) by {
            assert forall|i: int| 0 <= i < ts.len() implies ts[i] == ps[i] by {
                assert(segment_matches(ts[i], ps[i]));
                if ps[i] == star() {
                    assert(ps[i][0] == '*');
                    assert(ps[i].contains('*'));
                    lemma_split_chars(pattern, separator(), i, '*');
                }
            }
        }
        lemma_split_injective(triple, pattern, separator());
    }
    if triple == pattern {
        assert(matches(triple, pattern));
    }
}

/// A pattern matches only triples that have as many segments as it has.
pub proof fn lemma_match_keeps_segment_count(triple: Seq<char>, pattern: Seq<char>)
    requires
        matches(triple, pattern),
    ensures
        split(triple, separator()).len() == split(pattern, separator()).len(),
{
}


/// `acc`, and after it each of `known` that matches `pattern` and that is
/// not there yet, in the order of `known`.
pub open spec fn add_matching(acc: Seq<Seq<char>>, known: Seq<Seq<char>>, pattern: Seq<char>) -> Seq<Seq<char>>
    decreases known.len(),
{
    if known.len() == 0 {
        acc
    } else {
        let before = add_matching(acc, known.drop_last(), pattern);
        if matches(known.last(), pattern) {
            add_unique(before, known.last())
        } else {
            before
        }
    }
}

/// What one pattern adds: itself where it holds no wildcard, listed among
/// `known` or not, else every one of `known` that it matches.
pub open spec fn add_pattern(acc: Seq<Seq<char>>, pattern: Seq<char>, known: Seq<Seq<char>>) -> Seq<Seq<char>> {
    if is_wildcard(pattern) {
        add_matching(acc, known, pattern)
    } else {
        add_unique(acc, pattern)
    }
}

/// The platforms that a list of patterns stands for, each once, in the order
/// in which the patterns bring them.
pub open spec fn expand(patterns: Seq<Seq<char>>, known: Seq<Seq<char>>) -> Seq<Seq<char>>
    decreases patterns.len(),
{
    if patterns.len() == 0 {
        Seq::<Seq<char>>::empty()
    } else {
        add_pattern(expand(patterns.drop_last(), known), patterns.last(), known)
    }
}

/// Whether `pattern` holds a wildcard.
pub fn has_wildcard(pattern: &str) -> (r: bool)
    ensures
        r == is_wildcard(pattern@),
{
    let p = chars_of(pattern);
    let mut i: usize = 0;
    while i < p.len()
        invariant
            0 <= i <= p.len(),
            p@ == pattern@,
            forall|k: int| 0 <= k < i ==> p@[k] != '*',
        decreases p.len() - i,
    {
        if p[i] == '*' {
            proof {
                assert(pattern@[i as int] == '*');
            }
            return true;
        }
        i = i + 1;
    }
    false
}

/// Expands `patterns` over the triples in `known`.
pub fn expand_platforms(patterns: &Vec<&str>, known: &Vec<&str>) -> (r: Vec<String>)
    ensures
        string_views(r@) == expand(str_views(patterns@), str_views(known@)),
{
    let mut out: Vec<String> = Vec::new();
    let ghost ps = str_views(patterns@);
    let ghost ks = str_views(known@);
    let mut i: usize = 0;
    proof {
        assert(ps.take(0) =~= Seq::<Seq<char>>::empty());
        assert(string_views(out@) =~= Seq::<Seq<char>>::empty());
    }
    while i < patterns.len()
        invariant
            0 <= i <= patterns.len(),
            ps == str_views(patterns@),
            ks == str_views(known@),
            string_views(out@) == expand(ps.take(i as int), ks),
        decreases patterns.len() - i,
    {
        let pattern: &str = patterns[i];
        let ghost before = string_views(out@);
        proof {
            assert(ps.take(i + 1).drop_last() =~= ps.take(i as int));
            assert(ps.take(i + 1).last() == pattern@);
        }
        if has_wildcard(pattern) {
            let mut j: usize = 0;
            proof {
                assert(ks.take(0) =~= Seq::<Seq<char>>::empty());
            }
            while j < known.len()
                invariant
                    0 <= j <= known.len(),
                    ks == str_views(known@),
                    string_views(out@) == add_matching(before, ks.take(j as int), pattern@),
                decreases known.len() - j,
            {
                let triple: &str = known[j];
                proof {
                    assert(ks.take(j + 1).drop_last() =~= ks.take(j as int));
                    assert(ks.take(j + 1).last() == triple@);
                }
                if triple_matches(triple, pattern) {
                    push_unique(&mut out, triple);
                }
                j = j + 1;
            }
            proof {
                assert(ks.take(known.len() as int) =~= ks);
            }
        } else {
            push_unique(&mut out, pattern);
        }
        i = i + 1;
    }
    proof {
        assert(ps.take(patterns.len() as int) =~= ps);
    }
    out
}

/// One pattern without a wildcard expands to itself alone, whatever is known.
pub proof fn lemma_expand_literal(pattern: Seq<char>, known: Seq<Seq<char>>)
    requires
        !is_wildcard(pattern),
    ensures
        expand(seq![pattern], known) == seq![pattern],
{
    let ps = seq![pattern];
    assert(ps.drop_last() =~= Seq::<Seq<char>>::empty());
    assert(ps.last() == pattern);
    let e = Seq::<Seq<char>>::empty();
    assert(expand(ps.drop_last(), known) == e);
    assert(!e.contains(pattern));
    assert(add_unique(e, pattern) =~= seq![pattern]);
}

/// What `add_matching` holds: what was there, and each known triple that the
/// pattern matches; nothing twice.
pub proof fn lemma_add_matching(acc: Seq<Seq<char>>, known: Seq<Seq<char>>, pattern: Seq<char>)
    requires
        acc.no_duplicates(),
    ensures
        add_matching(acc, known, pattern).no_duplicates(),
        forall|x: Seq<char>| add_matching(acc, known, pattern).contains(x) <==> (acc.contains(x) || (known.contains(x) && matches(x, pattern))),
    decreases known.len(),
{
    if known.len() == 0 {
    } else {
        let front = known.drop_last();
        let before = add_matching(acc, front, pattern);
        lemma_add_matching(acc, front, pattern);
        lemma_add_unique(before, known.last());
        assert forall|x: Seq<char>| known.contains(x) <==> (front.contains(x) || x == known.last()) by {
            if known.contains(x) {
                let i = choose|i: int| 0 <= i < known.len() && known[i] == x;
                if i < front.len() {
                    assert(front[i] == x);
                }
            }
            if front.contains(x) {
                let i = choose|i: int| 0 <= i < front.len() && front[i] == x;
                assert(known[i] == x);
            }
            if x == known.last() {
                assert(known[known.len() - 1] == x);
            }
        }
    }
}

/// What an expansion holds. Nothing occurs twice in it, and a platform is in
/// it exactly when some pattern brings it: a pattern without a wildcard
/// brings itself, one with a wildcard brings the known triples it matches.
pub proof fn lemma_expand_members(patterns: Seq<Seq<char>>, known: Seq<Seq<char>>)
    ensures
        expand(patterns, known).no_duplicates(),
        forall|x: Seq<char>| expand(patterns, known).contains(x) <==> exists|i: int| 0 <= i < patterns.len() && brings(#[trigger] patterns[i], known, x),
    decreases patterns.len(),
{
    if patterns.len() == 0 {
    } else {
        let front = patterns.drop_last();
        let last = patterns.last();
        let before = expand(front, known);
        lemma_expand_members(front, known);
        lemma_add_matching(before, known, last);
        lemma_add_unique(before, last);
        let now = expand(patterns, known);
        assert forall|x: Seq<char>| now.contains(x) <==> exists|i: int| 0 <= i < patterns.len() && brings(#[trigger] patterns[i], known, x) by {
            if now.contains(x) {
                if before.contains(x) {
                    let i = choose|i: int| 0 <= i < front.len() && brings(#[trigger] front[i], known, x);
                    assert(patterns[i] == front[i]);
                } else {
                    assert(brings(patterns[patterns.len() - 1], known, x));
                }
            }
            if exists|i: int| 0 <= i < patterns.len() && brings(#[trigger] patterns[i], known, x) {
                let i = choose|i: int| 0 <= i < patterns.len() && brings(#[trigger] patterns[i], known, x);
                if i < front.len() {
                    assert(front[i] == patterns[i]);
                    assert(before.contains(x));
                } else {
                    assert(brings(last, known, x));
                }
            }
        }
    }
}

/// Whether `pattern` brings the platform `x` into an expansion over `known`.
pub open spec fn brings(pattern: Seq<char>, known: Seq<Seq<char>>, x: Seq<char>) -> bool {
    if is_wildcard(pattern) {
        known.contains(x) && matches(x, pattern)
    } else {
        x == pattern
    }
}

} // verus!
