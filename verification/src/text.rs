//! Small verified operations on character sequences that the rest of the
//! library builds on: splitting, searching and comparing.

use vstd::prelude::*;

verus! {

/// The characters of a string slice, in order.
pub fn chars_of(s: &str) -> (r: Vec<char>)
    ensures
        r@ == s@,
{
    let mut out: Vec<char> = Vec::new();
    for c in it: s.chars()
        invariant
            it.seq() == s@,
            out@ == it.seq().take(it.index()),
    {
        out.push(c);
    }
    out
}

/// Whether two string slices hold the same characters.
pub fn str_eq(a: &str, b: &str) -> (r: bool)
    ensures
        r == (a@ == b@),
{
    let x = a.as_bytes();
    let y = b.as_bytes();
    proof {
        vstd::utf8::encode_utf8_decode_utf8(a@);
        vstd::utf8::encode_utf8_decode_utf8(b@);
    }
    if x.len() != y.len() {
        return false;
    }
    let mut i: usize = 0;
    while i < x.len()
        invariant
            0 <= i <= x.len(),
            x.len() == y.len(),
            x@ == vstd::utf8::encode_utf8(a@),
            y@ == vstd::utf8::encode_utf8(b@),
            forall|k: int| 0 <= k < i ==> x@[k] == y@[k],
        decreases x.len() - i,
    {
        if x[i] != y[i] {
            return false;
        }
        i = i + 1;
    }
    proof {
        assert(x@ =~= y@);
    }
    true
}

/// The position of the first occurrence of `c` in `s`, or the length of `s`
/// where `c` does not occur.
pub open spec fn first_index(s: Seq<char>, c: char) -> int
    decreases s.len(),
{
    if s.len() == 0 {
        0
    } else if s[0] == c {
        0
    } else {
        1 + first_index(s.skip(1), c)
    }
}

/// `first_index` is the one position before which `c` does not occur and at
/// which it occurs or the sequence ends.
pub proof fn lemma_first_index(s: Seq<char>, c: char, i: int)
    requires
        0 <= i <= s.len(),
        forall|j: int| 0 <= j < i ==> s[j] != c,
        i == s.len() || s[i] == c,
    ensures
        first_index(s, c) == i,
    decreases s.len(),
{
    if s.len() == 0 {
    } else if s[0] == c {
        if i > 0 {
            assert(s[0] != c);
        }
    } else {
        assert(i > 0);
        let t = s.skip(1);
        assert forall|j: int| 0 <= j < i - 1 implies t[j] != c by {
            assert(t[j] == s[j + 1]);
        }
        lemma_first_index(t, c, i - 1);
    }
}

/// `first_index` lies within the sequence, nothing before it is `c`, and it
/// points at `c` unless it is the length.
pub proof fn lemma_first_index_props(s: Seq<char>, c: char)
    ensures
        0 <= first_index(s, c) <= s.len(),
        forall|j: int| 0 <= j < first_index(s, c) ==> s[j] != c,
        first_index(s, c) < s.len() ==> s[first_index(s, c)] == c,
    decreases s.len(),
{
    if s.len() == 0 {
    } else if s[0] == c {
    } else {
        let t = s.skip(1);
        lemma_first_index_props(t, c);
        assert forall|j: int| 0 <= j < first_index(s, c) implies s[j] != c by {
            if j > 0 {
                assert(t[j - 1] == s[j]);
            }
        }
        if first_index(s, c) < s.len() {
            assert(t[first_index(t, c)] == s[first_index(t, c) + 1]);
        }
    }
}

/// The pieces of `s` between occurrences of `sep`. There is always at least
/// one piece; `n` separators give `n + 1` pieces, empty ones included.
pub open spec fn split(s: Seq<char>, sep: char) -> Seq<Seq<char>>
    decreases s.len(),
{
    let i = first_index(s, sep);
    if 0 <= i < s.len() {
        seq![s.take(i)] + split(s.skip(i + 1), sep)
    } else {
        seq![s]
    }
}

/// No piece of a split holds the separator.
pub proof fn lemma_split_pieces(s: Seq<char>, sep: char)
    ensures
        split(s, sep).len() >= 1,
        forall|k: int| 0 <= k < split(s, sep).len() ==> !(#[trigger] split(s, sep)[k]).contains(sep),
    decreases s.len(),
{
    let i = first_index(s, sep);
    lemma_first_index_props(s, sep);
    if 0 <= i < s.len() {
        lemma_split_pieces(s.skip(i + 1), sep);
        let rest = split(s.skip(i + 1), sep);
        assert forall|k: int| 0 <= k < split(s, sep).len() implies !(#[trigger] split(s, sep)[k]).contains(sep) by {
            if k == 0 {
                assert(split(s, sep)[0] == s.take(i));
                if s.take(i).contains(sep) {
                    let j = choose|j: int| 0 <= j < s.take(i).len() && s.take(i)[j] == sep;
                    assert(s[j] == sep);
                }
            } else {
                assert(split(s, sep)[k] == rest[k - 1]);
            }
        }
    } else {
        assert(split(s, sep)[0] == s);
        if s.contains(sep) {
            let j = choose|j: int| 0 <= j < s.len() && s[j] == sep;
            assert(s[j] == sep);
        }
    }
}

/// A half-open range of positions in a character vector.
#[derive(Clone, Copy, Debug)]
pub struct Span {
    pub start: usize,
    pub end: usize,
}

impl Span {
    /// The characters of `s` that the span covers.
    pub open spec fn of(self, s: Seq<char>) -> Seq<char> {
        s.subrange(self.start as int, self.end as int)
    }

    /// The span lies inside a sequence of length `len`.
    pub open spec fn within(self, len: nat) -> bool {
        self.start <= self.end <= len
    }
}

/// The pieces that a list of spans cuts out of `s`.
pub open spec fn pieces(spans: Seq<Span>, s: Seq<char>) -> Seq<Seq<char>> {
    Seq::new(spans.len(), |k: int| spans[k].of(s))
}

/// Cuts the part of `s` from `from` to `to` at each `sep`, and returns the
/// spans of the pieces.
pub fn split_spans(s: &Vec<char>, from: usize, to: usize, sep: char) -> (r: Vec<Span>)
    requires
        from <= to <= s.len(),
    ensures
        pieces(r@, s@) == split(s@.subrange(from as int, to as int), sep),
        forall|k: int| 0 <= k < r.len() ==> from <= (#[trigger] r[k]).start && r[k].end <= to && r[k].within(s@.len()),
{
    let mut out: Vec<Span> = Vec::new();
    let mut start: usize = from;
    let mut j: usize = from;
    let ghost whole = s@.subrange(from as int, to as int);
    proof {
        assert(s@.subrange(start as int, to as int) == whole);
        assert(pieces(out@, s@) == Seq::<Seq<char>>::empty());
    }
    while j < to
        invariant
            from <= start <= j <= to <= s.len(),
            whole == s@.subrange(from as int, to as int),
            forall|k: int| start <= k < j ==> s@[k] != sep,
            split(whole, sep) == pieces(out@, s@) + split(s@.subrange(start as int, to as int), sep),
            forall|k: int| 0 <= k < out.len() ==> from <= (#[trigger] out[k]).start && out[k].end <= to && out[k].within(s@.len()),
        decreases to - j,
    {
        if s[j] == sep {
            let ghost tail = s@.subrange(start as int, to as int);
            let ghost before = pieces(out@, s@);
            proof {
                assert forall|k: int| 0 <= k < j - start implies tail[k] != sep by {
                    assert(tail[k] == s@[start + k]);
                }
                lemma_first_index(tail, sep, j - start);
                assert(tail.take(j - start) == s@.subrange(start as int, j as int));
                assert(tail.skip(j - start + 1) == s@.subrange(j + 1, to as int));
            }
            out.push(Span { start, end: j });
            proof {
                assert(pieces(out@, s@) == before + seq![s@.subrange(start as int, j as int)]);
            }
            start = j + 1;
        }
        j = j + 1;
    }
    let ghost tail = s@.subrange(start as int, to as int);
    let ghost before = pieces(out@, s@);
    proof {
        assert forall|k: int| 0 <= k < tail.len() implies tail[k] != sep by {
            assert(tail[k] == s@[start + k]);
        }
        lemma_first_index(tail, sep, tail.len() as int);
        assert(split(tail, sep) == seq![tail]);
    }
    out.push(Span { start, end: to });
    proof {
        assert(pieces(out@, s@) == before + seq![tail]);
    }
    out
}


/// Every character of a piece of a split occurs in the sequence that was split.
pub proof fn lemma_split_chars(s: Seq<char>, sep: char, k: int, c: char)
    requires
        0 <= k < split(s, sep).len(),
        split(s, sep)[k].contains(c),
    ensures
        s.contains(c),
    decreases s.len(),
{
    let i = first_index(s, sep);
    lemma_first_index_props(s, sep);
    if 0 <= i < s.len() {
        if k == 0 {
            let piece = s.take(i);
            let j = choose|j: int| 0 <= j < piece.len() && piece[j] == c;
            assert(s[j] == c);
        } else {
            let rest = s.skip(i + 1);
            assert(split(s, sep)[k] == split(rest, sep)[k - 1]);
            lemma_split_chars(rest, sep, k - 1, c);
            let j = choose|j: int| 0 <= j < rest.len() && rest[j] == c;
            assert(s[j + i + 1] == c);
        }
    } else {
        assert(split(s, sep)[0] == s);
    }
}

/// Two sequences that split into the same pieces are the same sequence.
pub proof fn lemma_split_injective(a: Seq<char>, b: Seq<char>, sep: char)
    requires
        split(a, sep) == split(b, sep),
    ensures
        a == b,
    decreases a.len(),
{
    let i = first_index(a, sep);
    let j = first_index(b, sep);
    lemma_first_index_props(a, sep);
    lemma_first_index_props(b, sep);
    lemma_split_pieces(a.skip(i + 1), sep);
    lemma_split_pieces(b.skip(j + 1), sep);
    if 0 <= i < a.len() {
        let ra = split(a.skip(i + 1), sep);
        assert(split(a, sep).len() == 1 + ra.len());
        assert(0 <= j < b.len());
        let rb = split(b.skip(j + 1), sep);
        assert(split(a, sep)[0] == a.take(i));
        assert(split(b, sep)[0] == b.take(j));
        assert(a.take(i).len() == b.take(j).len());
        assert(i == j);
        assert(ra =~= rb) by {
            assert(ra.len() == rb.len());
            assert forall|k: int| 0 <= k < ra.len() implies ra[k] == rb[k] by {
                assert(ra[k] == split(a, sep)[k + 1]);
                assert(rb[k] == split(b, sep)[k + 1]);
            }
        }
        lemma_split_injective(a.skip(i + 1), b.skip(j + 1), sep);
        assert(a =~= b) by {
            assert forall|k: int| 0 <= k < a.len() implies a[k] == b[k] by {
                if k < i {
                    assert(a.take(i)[k] == b.take(j)[k]);
                } else if k > i {
                    assert(a.skip(i + 1)[k - i - 1] == b.skip(j + 1)[k - i - 1]);
                }
            }
            assert(a.skip(i + 1).len() == b.skip(j + 1).len());
        }
    } else {
        assert(split(a, sep).len() == 1);
        assert(!(0 <= j < b.len()));
        assert(split(a, sep)[0] == a);
        assert(split(b, sep)[0] == b);
    }
}

/// Whether two spans, each of its own vector, cover the same characters.
pub fn span_eq(a: &Vec<char>, x: Span, b: &Vec<char>, y: Span) -> (r: bool)
    requires
        x.within(a@.len()),
        y.within(b@.len()),
    ensures
        r == (x.of(a@) == y.of(b@)),
{
    if x.end - x.start != y.end - y.start {
        proof {
            assert(x.of(a@).len() != y.of(b@).len());
        }
        return false;
    }
    let n: usize = x.end - x.start;
    let mut k: usize = 0;
    while k < n
        invariant
            x.within(a@.len()),
            y.within(b@.len()),
            n == x.end - x.start,
            n == y.end - y.start,
            0 <= k <= n,
            forall|m: int| 0 <= m < k ==> (#[trigger] x.of(a@)[m]) == y.of(b@)[m],
        decreases n - k,
    {
        if a[x.start + k] != b[y.start + k] {
            proof {
                assert(x.of(a@)[k as int] == a@[x.start + k]);
                assert(y.of(b@)[k as int] == b@[y.start + k]);
            }
            return false;
        }
        proof {
            assert(x.of(a@)[k as int] == a@[x.start + k]);
            assert(y.of(b@)[k as int] == b@[y.start + k]);
        }
        k = k + 1;
    }
    proof {
        assert(x.of(a@) =~= y.of(b@));
    }
    true
}


/// The texts of a sequence of string slices.
pub open spec fn str_views(v: Seq<&str>) -> Seq<Seq<char>> {
    Seq::new(v.len(), |i: int| v[i]@)
}

/// The texts of a sequence of owned strings.
pub open spec fn string_views(v: Seq<String>) -> Seq<Seq<char>> {
    Seq::new(v.len(), |i: int| v[i]@)
}

/// `acc` with `x` at its end, unless `acc` holds `x` already.
pub open spec fn add_unique<A>(acc: Seq<A>, x: A) -> Seq<A> {
    if acc.contains(x) {
        acc
    } else {
        acc.push(x)
    }
}

/// Adding keeps a sequence free of repetitions, and the result holds what
/// was there and the new item.
pub proof fn lemma_add_unique<A>(acc: Seq<A>, x: A)
    requires
        acc.no_duplicates(),
    ensures
        add_unique(acc, x).no_duplicates(),
        forall|y: A| add_unique(acc, x).contains(y) <==> (acc.contains(y) || y == x),
{
    let r = add_unique(acc, x);
    if acc.contains(x) {
    } else {
        assert forall|i: int, j: int| 0 <= i < r.len() && 0 <= j < r.len() && i != j implies r[i] != r[j] by {
            if i == acc.len() {
                assert(acc[j] == r[j]);
                assert(acc.contains(acc[j]));
            } else if j == acc.len() {
                assert(acc[i] == r[i]);
                assert(acc.contains(acc[i]));
            }
        }
        assert forall|y: A| r.contains(y) <==> (acc.contains(y) || y == x) by {
            if r.contains(y) {
                let i = choose|i: int| 0 <= i < r.len() && r[i] == y;
                if i < acc.len() {
                    assert(acc[i] == y);
                }
            }
            if acc.contains(y) {
                let i = choose|i: int| 0 <= i < acc.len() && acc[i] == y;
                assert(r[i] == y);
            }
            if y == x {
                assert(r[acc.len() as int] == x);
            }
        }
    }
}

/// Whether one of the strings of `v` holds the text of `x`.
pub fn contains_text(v: &Vec<String>, x: &str) -> (r: bool)
    ensures
        r == string_views(v@).contains(x@),
{
    let mut i: usize = 0;
    while i < v.len()
        invariant
            0 <= i <= v.len(),
            forall|k: int| 0 <= k < i ==> string_views(v@)[k] != x@,
        decreases v.len() - i,
    {
        if str_eq(v[i].as_str(), x) {
            proof {
                assert(string_views(v@)[i as int] == x@);
            }
            return true;
        }
        i = i + 1;
    }
    false
}

/// Puts a copy of `x` at the end of `v` unless `v` holds its text already.
pub fn push_unique(v: &mut Vec<String>, x: &str)
    ensures
        string_views(final(v)@) == add_unique(string_views(old(v)@), x@),
{
    if !contains_text(v, x) {
        let ghost before = string_views(v@);
        v.push(String::from_str(x));
        proof {
            assert(string_views(v@) =~= before.push(x@));
        }
    }
}


/// The character of a decimal digit.
pub open spec fn digit_char(d: nat) -> char
    recommends
        d < 10,
{
    if d == 0 {
        '0'
    } else if d == 1 {
        '1'
    } else if d == 2 {
        '2'
    } else if d == 3 {
        '3'
    } else if d == 4 {
        '4'
    } else if d == 5 {
        '5'
    } else if d == 6 {
        '6'
    } else if d == 7 {
        '7'
    } else if d == 8 {
        '8'
    } else {
        '9'
    }
}

/// A number in decimal, without leading zeros.
pub open spec fn decimal(n: nat) -> Seq<char>
    decreases n,
{
    if n < 10 {
        seq![digit_char(n)]
    } else {
        decimal(n / 10).push(digit_char(n % 10))
    }
}

/// The one-character string of a decimal digit.
fn digit_str(d: u64) -> (r: &'static str)
    requires
        d < 10,
    ensures
        r@ == seq![digit_char(d as nat)],
{
    proof {
        reveal_strlit("0");
        reveal_strlit("1");
        reveal_strlit("2");
        reveal_strlit("3");
        reveal_strlit("4");
        reveal_strlit("5");
        reveal_strlit("6");
        reveal_strlit("7");
        reveal_strlit("8");
        reveal_strlit("9");
    }
    let r = if d == 0 {
        "0"
    } else if d == 1 {
        "1"
    } else if d == 2 {
        "2"
    } else if d == 3 {
        "3"
    } else if d == 4 {
        "4"
    } else if d == 5 {
        "5"
    } else if d == 6 {
        "6"
    } else if d == 7 {
        "7"
    } else if d == 8 {
        "8"
    } else {
        "9"
    };
    assert(r@ =~= seq![digit_char(d as nat)]);
    r
}

/// Writes a number in decimal.
pub fn decimal_string(n: u64) -> (r: String)
    ensures
        r@ == decimal(n as nat),
    decreases n,
{
    if n < 10 {
        String::from_str(digit_str(n))
    } else {
        let mut head = decimal_string(n / 10);
        head.append(digit_str(n % 10));
        proof {
            assert(decimal(n as nat / 10).push(digit_char(n as nat % 10)) =~= decimal(n as nat / 10) + seq![digit_char(n as nat % 10)]);
        }
        head
    }
}


/// A line without the carriage return at its end, where it has one.
pub open spec fn strip_cr(line: Seq<char>) -> Seq<char> {
    if line.len() > 0 && line.last() == '\r' {
        line.drop_last()
    } else {
        line
    }
}

/// The lines of a text. A line ends at a line feed, or at a carriage return
/// and a line feed together; neither belongs to the line. What follows the
/// last line feed is a line of its own unless it is empty, and keeps a
/// carriage return at its end.
pub open spec fn lines(s: Seq<char>) -> Seq<Seq<char>> {
    let parts = split(s, '\n');
    let ended = Seq::new((parts.len() - 1) as nat, |i: int| strip_cr(parts[i]));
    if parts.last().len() == 0 {
        ended
    } else {
        ended.push(parts.last())
    }
}

/// The spans of the lines of `s`.
pub fn line_spans(s: &Vec<char>) -> (r: Vec<Span>)
    ensures
        pieces(r@, s@) == lines(s@),
        forall|k: int| 0 <= k < r.len() ==> (#[trigger] r[k]).within(s@.len()),
{
    let parts = split_spans(s, 0, s.len(), '\n');
    proof {
        assert(s@.subrange(0, s@.len() as int) == s@);
        lemma_split_pieces(s@, '\n');
    }
    let ghost texts = split(s@, '\n');
    let n = parts.len();
    let mut out: Vec<Span> = Vec::new();
    let mut i: usize = 0;
    while i + 1 < n
        invariant
            n == parts.len(),
            n >= 1,
            0 <= i < n,
            texts == pieces(parts@, s@),
            forall|k: int| 0 <= k < parts.len() ==> (#[trigger] parts[k]).within(s@.len()),
            forall|k: int| 0 <= k < out.len() ==> (#[trigger] out[k]).within(s@.len()),
            out.len() == i,
            forall|k: int| 0 <= k < i ==> (#[trigger] out[k]).of(s@) == strip_cr(texts[k]),
        decreases n - i,
    {
        let part = parts[i];
        proof {
            assert(texts[i as int] == part.of(s@));
        }
        let line = if part.end > part.start && s[part.end - 1] == '\r' {
            proof {
                assert(part.of(s@).last() == s@[part.end - 1]);
                assert(part.of(s@).drop_last() =~= s@.subrange(part.start as int, part.end - 1));
            }
            Span { start: part.start, end: part.end - 1 }
        } else {
            proof {
                if part.end > part.start {
                    assert(part.of(s@).last() == s@[part.end - 1]);
                }
            }
            part
        };
        out.push(line);
        i = i + 1;
    }
    let last = parts[n - 1];
    proof {
        assert(texts[n - 1] == last.of(s@));
        assert(texts.last() == texts[n - 1]);
    }
    if last.end > last.start {
        out.push(last);
    }
    proof {
        assert(pieces(out@, s@) =~= lines(s@));
    }
    out
}

/// Whether `needle` occurs in `hay` as one run of characters.
pub open spec fn contains_run(hay: Seq<char>, needle: Seq<char>) -> bool {
    exists|i: int| 0 <= i && i + needle.len() <= hay.len() && #[trigger] hay.subrange(i, i + needle.len()) == needle
}

/// Whether the text of `needle` occurs within the span `x` of `hay`.
pub fn span_contains(hay: &Vec<char>, x: Span, needle: &Vec<char>) -> (r: bool)
    requires
        x.within(hay@.len()),
    ensures
        r == contains_run(x.of(hay@), needle@),
{
    let n = needle.len();
    let len = x.end - x.start;
    if n > len {
        return false;
    }
    let ghost text = x.of(hay@);
    let whole = Span { start: 0, end: n };
    proof {
        assert(whole.of(needle@) == needle@);
    }
    let mut i: usize = 0;
    loop
        invariant
            x.within(hay@.len()),
            n == needle.len(),
            len == x.end - x.start,
            n <= len,
            0 <= i <= len - n,
            text == x.of(hay@),
            whole == (Span { start: 0, end: n }),
            whole.of(needle@) == needle@,
            forall|k: int| 0 <= k < i ==> #[trigger] text.subrange(k, k + n) != needle@,
        ensures
            forall|k: int| 0 <= k <= len - n ==> #[trigger] text.subrange(k, k + n) != needle@,
        decreases len - n - i,
    {
        let here = Span { start: x.start + i, end: x.start + i + n };
        proof {
            assert(here.of(hay@) =~= text.subrange(i as int, i + n));
        }
        if span_eq(hay, here, needle, whole) {
            return true;
        }
        if i == len - n {
            break;
        }
        i = i + 1;
    }
    false
}


/// The number of bytes that a character takes in UTF-8.
pub open spec fn char_width(c: char) -> nat {
    if (c as u32) < 0x80 {
        1
    } else if (c as u32) < 0x800 {
        2
    } else if (c as u32) < 0x10000 {
        3
    } else {
        4
    }
}

/// The number of bytes that a text takes in UTF-8.
pub open spec fn utf8_len(s: Seq<char>) -> nat
    decreases s.len(),
{
    if s.len() == 0 {
        0
    } else {
        utf8_len(s.drop_last()) + char_width(s.last())
    }
}

/// Whether the span `x` of `s` takes fewer than `limit` bytes in UTF-8.
pub fn span_shorter_than(s: &Vec<char>, x: Span, limit: usize) -> (r: bool)
    requires
        x.within(s@.len()),
        limit <= usize::MAX - 4,
    ensures
        r == (utf8_len(x.of(s@)) < limit),
{
    if limit == 0 {
        return false;
    }
    let ghost text = x.of(s@);
    let mut i: usize = x.start;
    let mut bytes: usize = 0;
    proof {
        assert(text.take(0) =~= Seq::<char>::empty());
    }
    while i < x.end
        invariant
            x.within(s@.len()),
            limit <= usize::MAX - 4,
            x.start <= i <= x.end,
            text == x.of(s@),
            bytes == utf8_len(text.take(i - x.start)),
            bytes < limit,
        decreases x.end - i,
    {
        let c = s[i];
        let code = c as u32;
        let width: usize = if code < 0x80 {
            1
        } else if code < 0x800 {
            2
        } else if code < 0x10000 {
            3
        } else {
            4
        };
        proof {
            let k = i - x.start;
            assert(text.take(k + 1).drop_last() =~= text.take(k));
            assert(text.take(k + 1).last() == c);
        }
        bytes = bytes + width;
        i = i + 1;
        if bytes >= limit {
            proof {
                lemma_utf8_len_grows(text, i - x.start);
            }
            return false;
        }
    }
    proof {
        assert(text.take(x.end - x.start) =~= text);
    }
    true
}

/// A text takes at least as many bytes as any of its beginnings.
pub proof fn lemma_utf8_len_grows(s: Seq<char>, k: int)
    requires
        0 <= k <= s.len(),
    ensures
        utf8_len(s.take(k)) <= utf8_len(s),
    decreases s.len() - k,
{
    if k == s.len() {
        assert(s.take(k) =~= s);
    } else {
        lemma_utf8_len_grows(s, k + 1);
        assert(s.take(k + 1).drop_last() =~= s.take(k));
    }
}


/// A copy of a list of strings.
pub fn copy_strings(v: &Vec<String>) -> (r: Vec<String>)
    ensures
        string_views(r@) == string_views(v@),
{
    let mut out: Vec<String> = Vec::new();
    let mut i: usize = 0;
    while i < v.len()
        invariant
            0 <= i <= v.len(),
            out.len() == i,
            forall|k: int| 0 <= k < i ==> out[k]@ == v[k]@,
        decreases v.len() - i,
    {
        out.push(v[i].clone());
        i = i + 1;
    }
    proof {
        assert(string_views(out@) =~= string_views(v@));
    }
    out
}


/// The character of a hexadecimal digit, in lower case.
pub open spec fn hex_char(d: nat) -> char
    recommends
        d < 16,
{
    if d < 10 {
        digit_char(d)
    } else if d == 10 {
        'a'
    } else if d == 11 {
        'b'
    } else if d == 12 {
        'c'
    } else if d == 13 {
        'd'
    } else if d == 14 {
        'e'
    } else {
        'f'
    }
}

/// Bytes in hexadecimal: two digits for each byte, the high one first.
pub open spec fn hex(bytes: Seq<u8>) -> Seq<char>
    decreases bytes.len(),
{
    if bytes.len() == 0 {
        Seq::<char>::empty()
    } else {
        hex(bytes.drop_last()).push(hex_char(bytes.last() as nat / 16)).push(hex_char(bytes.last() as nat % 16))
    }
}

/// The one-character string of a hexadecimal digit.
fn hex_str(d: u8) -> (r: &'static str)
    requires
        d < 16,
    ensures
        r@ == seq![hex_char(d as nat)],
{
    if d < 10 {
        digit_str(d as u64)
    } else {
        proof {
            reveal_strlit("a");
            reveal_strlit("b");
            reveal_strlit("c");
            reveal_strlit("d");
            reveal_strlit("e");
            reveal_strlit("f");
        }
        let r = if d == 10 {
            "a"
        } else if d == 11 {
            "b"
        } else if d == 12 {
            "c"
        } else if d == 13 {
            "d"
        } else if d == 14 {
            "e"
        } else {
            "f"
        };
        assert(r@ =~= seq![hex_char(d as nat)]);
        r
    }
}

/// Writes bytes in hexadecimal.
pub fn hex_string(bytes: &Vec<u8>) -> (r: String)
    ensures
        r@ == hex(bytes@),
{
    let mut out = String::new();
    let mut i: usize = 0;
    proof {
        assert(bytes@.take(0) =~= Seq::<u8>::empty());
    }
    while i < bytes.len()
        invariant
            0 <= i <= bytes.len(),
            out@ == hex(bytes@.take(i as int)),
        decreases bytes.len() - i,
    {
        let b = bytes[i];
        let ghost before = out@;
        out.append(hex_str(b / 16));
        out.append(hex_str(b % 16));
        proof {
            assert(bytes@.take(i + 1).drop_last() =~= bytes@.take(i as int));
            assert(bytes@.take(i + 1).last() == b);
            assert(out@ =~= before.push(hex_char(b as nat / 16)).push(hex_char(b as nat % 16)));
        }
        i = i + 1;
    }
    proof {
        assert(bytes@.take(bytes.len() as int) =~= bytes@);
    }
    out
}

/// The components of a path: what stands between slashes, empty pieces
/// left out, so that a slash at the end and slashes in a row do not count.
pub open spec fn components(path: Seq<char>) -> Seq<Seq<char>> {
    split(path, '/').filter(|p: Seq<char>| p.len() > 0)
}

/// Whether `path` lies at or below `base`: whether the components of `base`
/// are the first components of `path`.
pub open spec fn has_prefix(path: Seq<char>, base: Seq<char>) -> bool {
    let p = components(path);
    let b = components(base);
    b.len() <= p.len() && p.take(b.len() as int) == b
}

/// The spans of the components of the path `s`.
pub fn component_spans(s: &Vec<char>) -> (r: Vec<Span>)
    ensures
        pieces(r@, s@) == components(s@),
        forall|k: int| 0 <= k < r.len() ==> (#[trigger] r[k]).within(s@.len()),
{
    let parts = split_spans(s, 0, s.len(), '/');
    proof {
        assert(s@.subrange(0, s@.len() as int) == s@);
    }
    let ghost texts = split(s@, '/');
    let ghost full = |p: Seq<char>| p.len() > 0;
    let mut out: Vec<Span> = Vec::new();
    let mut i: usize = 0;
    proof {
        assert(texts.take(0) =~= Seq::<Seq<char>>::empty());
        assert(pieces(out@, s@) =~= texts.take(0).filter(full));
    }
    while i < parts.len()
        invariant
            0 <= i <= parts.len(),
            texts == pieces(parts@, s@),
            full == |p: Seq<char>| p.len() > 0,
            forall|k: int| 0 <= k < parts.len() ==> (#[trigger] parts[k]).within(s@.len()),
            forall|k: int| 0 <= k < out.len() ==> (#[trigger] out[k]).within(s@.len()),
            pieces(out@, s@) == texts.take(i as int).filter(full),
        decreases parts.len() - i,
    {
        let part = parts[i];
        let ghost before = pieces(out@, s@);
        proof {
            assert(texts[i as int] == part.of(s@));
            assert(texts.take(i + 1) =~= texts.take(i as int).push(texts[i as int]));
            texts.take(i as int).lemma_filter_push(texts[i as int], full);
        }
        if part.end > part.start {
            out.push(part);
            proof {
                assert(pieces(out@, s@) =~= before.push(part.of(s@)));
            }
        }
        i = i + 1;
    }
    proof {
        assert(texts.take(parts.len() as int) =~= texts);
    }
    out
}

/// Whether the path `path` lies at or below the path `base`.
pub fn path_has_prefix(path: &Vec<char>, base: &Vec<char>) -> (r: bool)
    ensures
        r == has_prefix(path@, base@),
{
    let p = component_spans(path);
    let b = component_spans(base);
    let ghost ps = components(path@);
    let ghost bs = components(base@);
    if b.len() > p.len() {
        return false;
    }
    let mut i: usize = 0;
    while i < b.len()
        invariant
            0 <= i <= b.len() <= p.len(),
            ps == pieces(p@, path@),
            bs == pieces(b@, base@),
            ps == components(path@),
            bs == components(base@),
            forall|k: int| 0 <= k < p.len() ==> (#[trigger] p[k]).within(path@.len()),
            forall|k: int| 0 <= k < b.len() ==> (#[trigger] b[k]).within(base@.len()),
            forall|k: int| 0 <= k < i ==> #[trigger] ps[k] == bs[k],
        decreases b.len() - i,
    {
        proof {
            assert(ps[i as int] == p[i as int].of(path@));
            assert(bs[i as int] == b[i as int].of(base@));
        }
        if !span_eq(path, p[i], base, b[i]) {
            proof {
                assert(ps.take(bs.len() as int)[i as int] == ps[i as int]);
            }
            return false;
        }
        i = i + 1;
    }
    proof {
        assert(ps.take(bs.len() as int) =~= bs);
    }
    true
}

/// Whether the text `a` comes before the text `b`, or is `b`, in the order
/// of a dictionary: the first character in which they differ decides, and a
/// text comes before every text that it begins.
pub open spec fn lex_le(a: Seq<char>, b: Seq<char>) -> bool
    decreases a.len(),
{
    if a.len() == 0 {
        true
    } else if b.len() == 0 {
        false
    } else if a[0] != b[0] {
        (a[0] as u32) < (b[0] as u32)
    } else {
        lex_le(a.skip(1), b.skip(1))
    }
}

/// Every text comes before or at itself.
pub proof fn lemma_lex_reflexive(a: Seq<char>)
    ensures
        lex_le(a, a),
    decreases a.len(),
{
    if a.len() > 0 {
        lemma_lex_reflexive(a.skip(1));
    }
}

/// Two texts of which each comes before or at the other are one text.
pub proof fn lemma_lex_antisymmetric(a: Seq<char>, b: Seq<char>)
    requires
        lex_le(a, b),
        lex_le(b, a),
    ensures
        a == b,
    decreases a.len(),
{
    if a.len() == 0 {
        assert(b.len() == 0);
        assert(a =~= b);
    } else {
        assert(b.len() > 0);
        assert(a[0] == b[0]);
        lemma_lex_antisymmetric(a.skip(1), b.skip(1));
        assert(a =~= seq![a[0]] + a.skip(1));
        assert(b =~= seq![b[0]] + b.skip(1));
    }
}

/// The order of texts carries over.
pub proof fn lemma_lex_transitive(a: Seq<char>, b: Seq<char>, c: Seq<char>)
    requires
        lex_le(a, b),
        lex_le(b, c),
    ensures
        lex_le(a, c),
    decreases a.len(),
{
    if a.len() > 0 {
        assert(b.len() > 0);
        assert(c.len() > 0);
        if a[0] == b[0] && b[0] == c[0] {
            lemma_lex_transitive(a.skip(1), b.skip(1), c.skip(1));
        }
    }
}

/// Of two texts one comes before or at the other.
pub proof fn lemma_lex_total(a: Seq<char>, b: Seq<char>)
    ensures
        lex_le(a, b) || lex_le(b, a),
    decreases a.len(),
{
    if a.len() > 0 && b.len() > 0 {
        if a[0] == b[0] {
            lemma_lex_total(a.skip(1), b.skip(1));
        } else if (a[0] as u32) == (b[0] as u32) {
            vstd::utf8::char_u32_cast(a[0], a[0] as u32);
            vstd::utf8::char_u32_cast(b[0], b[0] as u32);
        }
    }
}

/// Whether the text of `a` comes before or at the text of `b`.
pub fn chars_le(a: &Vec<char>, b: &Vec<char>) -> (r: bool)
    ensures
        r == lex_le(a@, b@),
{
    let mut i: usize = 0;
    proof {
        assert(a@.skip(0) =~= a@);
        assert(b@.skip(0) =~= b@);
    }
    while i < a.len()
        invariant
            0 <= i <= a.len(),
            i <= b.len(),
            lex_le(a@, b@) == lex_le(a@.skip(i as int), b@.skip(i as int)),
        decreases a.len() - i,
    {
        proof {
            assert(a@.skip(i as int)[0] == a@[i as int]);
            assert(a@.skip(i as int).skip(1) =~= a@.skip(i + 1));
        }
        if i >= b.len() {
            return false;
        }
        proof {
            assert(b@.skip(i as int)[0] == b@[i as int]);
            assert(b@.skip(i as int).skip(1) =~= b@.skip(i + 1));
        }
        if a[i] != b[i] {
            return (a[i] as u32) < (b[i] as u32);
        }
        i = i + 1;
    }
    true
}


} // verus!
