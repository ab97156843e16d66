//! Character-level rules shared by the text formats: white space, trimming,
//! case-insensitive keywords, decimal numbers, lines and separators.

use vstd::prelude::*;
use vstd::string::*;

verus! {

broadcast use vstd::string::group_string_axioms;

// ---------------------------------------------------------------------------
// Searching

/// Position of the first `x` in `s`, or `s.len()` when there is none.
pub open spec fn find_first<A>(s: Seq<A>, x: A) -> int
    decreases s.len(),
{
    if s.len() == 0 {
        0
    } else if s[0] == x {
        0
    } else {
        1 + find_first(s.drop_first(), x)
    }
}

/// `find_first` is the position of the first occurrence.
pub proof fn lemma_find_first<A>(s: Seq<A>, x: A)
    ensures
        0 <= find_first(s, x) <= s.len(),
        find_first(s, x) < s.len() ==> s[find_first(s, x)] == x,
        forall|i: int| 0 <= i < find_first(s, x) ==> s[i] != x,
    decreases s.len(),
{
    if s.len() > 0 && s[0] != x {
        lemma_find_first(s.drop_first(), x);
        assert forall|i: int| 0 <= i < find_first(s, x) implies s[i] != x by {
            if i > 0 {
                assert(s[i] == s.drop_first()[i - 1]);
            }
        }
    }
}

/// A position before which `x` does not occur, and at which it occurs or the sequence ends,
/// is `find_first`.
pub proof fn lemma_find_first_at<A>(s: Seq<A>, x: A, k: int)
    requires
        0 <= k <= s.len(),
        forall|i: int| 0 <= i < k ==> s[i] != x,
        k < s.len() ==> s[k] == x,
    ensures
        find_first(s, x) == k,
    decreases k,
{
    if k > 0 {
        assert forall|i: int| 0 <= i < k - 1 implies s.drop_first()[i] != x by {
            assert(s.drop_first()[i] == s[i + 1]);
        }
        lemma_find_first_at(s.drop_first(), x, k - 1);
    }
}

/// Position of the first `x` in `t[from..to]`, counted from the start of `t`.
pub fn find_char(t: &Vec<char>, from: usize, to: usize, x: char) -> (k: usize)
    requires
        from <= to <= t.len(),
    ensures
        from <= k <= to,
        k - from == find_first(t@.subrange(from as int, to as int), x),
{
    let mut k = from;
    while k < to && t[k] != x
        invariant
            from <= k <= to <= t.len(),
            forall|i: int| from <= i < k ==> t@[i] != x,
        decreases to - k,
    {
        k = k + 1;
    }
    proof {
        let s = t@.subrange(from as int, to as int);
        assert forall|i: int| 0 <= i < k - from implies s[i] != x by {
            assert(s[i] == t@[from + i]);
        }
        lemma_find_first_at(s, x, k - from);
    }
    k
}

// ---------------------------------------------------------------------------
// White space and trimming

/// Unicode `White_Space`, the set that `char::is_whitespace` and `str::trim` use.
pub open spec fn is_white_space(c: char) -> bool {
    ||| ('\u{9}' <= c && c <= '\u{d}')
    ||| c == ' '
    ||| c == '\u{85}'
    ||| c == '\u{a0}'
    ||| c == '\u{1680}'
    ||| ('\u{2000}' <= c && c <= '\u{200a}')
    ||| c == '\u{2028}'
    ||| c == '\u{2029}'
    ||| c == '\u{202f}'
    ||| c == '\u{205f}'
    ||| c == '\u{3000}'
}

/// Whether `c` is white space.
pub fn is_white_space_char(c: char) -> (b: bool)
    ensures
        b == is_white_space(c),
{
    ('\u{9}' <= c && c <= '\u{d}') || c == ' ' || c == '\u{85}' || c == '\u{a0}' || c
        == '\u{1680}' || ('\u{2000}' <= c && c <= '\u{200a}') || c == '\u{2028}' || c
        == '\u{2029}' || c == '\u{202f}' || c == '\u{205f}' || c == '\u{3000}'
}

/// The double quote character.
pub open spec fn is_quote(c: char) -> bool {
    c == '"'
}

/// `s` without its leading characters that satisfy `p`.
pub open spec fn strip_start(s: Seq<char>, p: spec_fn(char) -> bool) -> Seq<char>
    decreases s.len(),
{
    if s.len() > 0 && p(s[0]) {
        strip_start(s.drop_first(), p)
    } else {
        s
    }
}

/// `s` without its trailing characters that satisfy `p`.
pub open spec fn strip_end(s: Seq<char>, p: spec_fn(char) -> bool) -> Seq<char>
    decreases s.len(),
{
    if s.len() > 0 && p(s.last()) {
        strip_end(s.drop_last(), p)
    } else {
        s
    }
}

/// Stripping from the end never removes a first character that is not stripped.
pub proof fn lemma_strip_end_keeps_first(s: Seq<char>, p: spec_fn(char) -> bool)
    requires
        s.len() > 0,
        !p(s[0]),
    ensures
        strip_end(s, p).len() > 0,
    decreases s.len(),
{
    if p(s.last()) {
        assert(s.len() > 1);
        assert(s.drop_last()[0] == s[0]);
        lemma_strip_end_keeps_first(s.drop_last(), p);
    }
}

/// What appending keeps and where the appended part lies.
pub proof fn lemma_append_parts(o: Seq<char>, e: Seq<char>, k: int)
    requires
        0 <= k <= e.len(),
    ensures
        (o + e).take(o.len() as int) == o,
        (o + e).skip(o.len() as int) == e,
        (o + e).skip((o + e).len() - k) == e.skip(e.len() - k),
{
    assert((o + e).take(o.len() as int) =~= o);
    assert((o + e).skip(o.len() as int) =~= e);
    assert((o + e).skip((o + e).len() - k) =~= e.skip(e.len() - k));
}

/// `str::trim`: leading and trailing white space removed.
pub open spec fn trim(s: Seq<char>) -> Seq<char> {
    strip_end(strip_start(s, |c: char| is_white_space(c)), |c: char| is_white_space(c))
}

/// `str::trim_matches('"')`: leading and trailing double quotes removed.
pub open spec fn trim_quotes(s: Seq<char>) -> Seq<char> {
    strip_end(strip_start(s, |c: char| is_quote(c)), |c: char| is_quote(c))
}

/// How every format cleans a description: trimmed, then stripped of surrounding quotes.
pub open spec fn clean_description(s: Seq<char>) -> Seq<char> {
    trim_quotes(trim(s))
}

/// Stripping a prefix of `k` characters that all satisfy `p`, followed by one that does not.
pub proof fn lemma_strip_start(s: Seq<char>, p: spec_fn(char) -> bool, k: int)
    requires
        0 <= k <= s.len(),
        forall|i: int| 0 <= i < k ==> p(s[i]),
        k < s.len() ==> !p(s[k]),
    ensures
        strip_start(s, p) == s.skip(k),
    decreases k,
{
    if k > 0 {
        assert(s.drop_first().skip(k - 1) =~= s.skip(k));
        assert forall|i: int| 0 <= i < k - 1 implies p(s.drop_first()[i]) by {
            assert(s.drop_first()[i] == s[i + 1]);
        }
        lemma_strip_start(s.drop_first(), p, k - 1);
    } else {
        assert(s.skip(0) =~= s);
    }
}

/// Stripping a suffix that starts at `k`, all of whose characters satisfy `p`, preceded by
/// one that does not.
pub proof fn lemma_strip_end(s: Seq<char>, p: spec_fn(char) -> bool, k: int)
    requires
        0 <= k <= s.len(),
        forall|i: int| k <= i < s.len() ==> p(s[i]),
        k > 0 ==> !p(s[k - 1]),
    ensures
        strip_end(s, p) == s.take(k),
    decreases s.len() - k,
{
    if k < s.len() {
        assert(s.drop_last().take(k) =~= s.take(k));
        assert forall|i: int| k <= i < s.drop_last().len() implies p(s.drop_last()[i]) by {
            assert(s.drop_last()[i] == s[i]);
        }
        lemma_strip_end(s.drop_last(), p, k);
    } else {
        assert(s.take(k) =~= s);
    }
}

/// Bounds of `trim(t[lo..hi])` within `t`.
pub fn trim_bounds(t: &Vec<char>, lo: usize, hi: usize) -> (r: (usize, usize))
    requires
        lo <= hi <= t.len(),
    ensures
        lo <= r.0 <= r.1 <= hi,
        t@.subrange(r.0 as int, r.1 as int) == trim(t@.subrange(lo as int, hi as int)),
{
    let ghost p = |c: char| is_white_space(c);
    let mut a = lo;
    while a < hi && is_white_space_char(t[a])
        invariant
            lo <= a <= hi <= t.len(),
            forall|i: int| lo <= i < a ==> is_white_space(t@[i]),
        decreases hi - a,
    {
        a = a + 1;
    }
    let mut b = hi;
    while b > a && is_white_space_char(t[b - 1])
        invariant
            lo <= a <= b <= hi <= t.len(),
            forall|i: int| b <= i < hi ==> is_white_space(t@[i]),
        decreases b - a,
    {
        b = b - 1;
    }
    proof {
        let s = t@.subrange(lo as int, hi as int);
        assert forall|i: int| 0 <= i < a - lo implies p(s[i]) by {
            assert(s[i] == t@[lo + i]);
        }
        lemma_strip_start(s, p, a - lo);
        assert(s.skip(a - lo) =~= t@.subrange(a as int, hi as int));
        let s2 = t@.subrange(a as int, hi as int);
        assert forall|i: int| b - a <= i < s2.len() implies p(s2[i]) by {
            assert(s2[i] == t@[a + i]);
        }
        lemma_strip_end(s2, p, b - a);
        assert(s2.take(b - a) =~= t@.subrange(a as int, b as int));
    }
    (a, b)
}

/// Bounds of `trim_quotes(t[lo..hi])` within `t`.
pub fn trim_quotes_bounds(t: &Vec<char>, lo: usize, hi: usize) -> (r: (usize, usize))
    requires
        lo <= hi <= t.len(),
    ensures
        lo <= r.0 <= r.1 <= hi,
        t@.subrange(r.0 as int, r.1 as int) == trim_quotes(t@.subrange(lo as int, hi as int)),
{
    let ghost p = |c: char| is_quote(c);
    let mut a = lo;
    while a < hi && t[a] == '"'
        invariant
            lo <= a <= hi <= t.len(),
            forall|i: int| lo <= i < a ==> is_quote(t@[i]),
        decreases hi - a,
    {
        a = a + 1;
    }
    let mut b = hi;
    while b > a && t[b - 1] == '"'
        invariant
            lo <= a <= b <= hi <= t.len(),
            forall|i: int| b <= i < hi ==> is_quote(t@[i]),
        decreases b - a,
    {
        b = b - 1;
    }
    proof {
        let s = t@.subrange(lo as int, hi as int);
        assert forall|i: int| 0 <= i < a - lo implies p(s[i]) by {
            assert(s[i] == t@[lo + i]);
        }
        lemma_strip_start(s, p, a - lo);
        assert(s.skip(a - lo) =~= t@.subrange(a as int, hi as int));
        let s2 = t@.subrange(a as int, hi as int);
        assert forall|i: int| b - a <= i < s2.len() implies p(s2[i]) by {
            assert(s2[i] == t@[a + i]);
        }
        lemma_strip_end(s2, p, b - a);
        assert(s2.take(b - a) =~= t@.subrange(a as int, b as int));
    }
    (a, b)
}

/// Bounds of `clean_description(t[lo..hi])` within `t`.
pub fn clean_bounds(t: &Vec<char>, lo: usize, hi: usize) -> (r: (usize, usize))
    requires
        lo <= hi <= t.len(),
    ensures
        lo <= r.0 <= r.1 <= hi,
        t@.subrange(r.0 as int, r.1 as int) == clean_description(
            t@.subrange(lo as int, hi as int),
        ),
{
    let (a, b) = trim_bounds(t, lo, hi);
    trim_quotes_bounds(t, a, b)
}

// ---------------------------------------------------------------------------
// Case-insensitive keywords

/// `c` lowercases to `k`, where `k` is a character of a lowercase ASCII keyword.
pub open spec fn char_matches(c: char, k: char) -> bool {
    c == k || ('a' <= k && k <= 'z' && c as u32 + 32 == k as u32)
}

/// `s.to_lowercase() == kw` for a keyword `kw` made of lowercase ASCII letters other than
/// `k`, and of `_`: the only characters that lowercase to such a letter are the letter and its
/// ASCII capital.
pub open spec fn matches_keyword(s: Seq<char>, kw: Seq<char>) -> bool {
    &&& s.len() == kw.len()
    &&& forall|i: int| 0 <= i < s.len() ==> char_matches(#[trigger] s[i], kw[i])
}

/// Whether `t[lo..hi]` matches the keyword `kw`.
pub fn matches_keyword_at(t: &Vec<char>, lo: usize, hi: usize, kw: &str) -> (b: bool)
    requires
        lo <= hi <= t.len(),
    ensures
        b == matches_keyword(t@.subrange(lo as int, hi as int), kw@),
{
    let n = kw.unicode_len();
    if hi - lo != n {
        return false;
    }
    let mut i: usize = 0;
    while i < n
        invariant
            lo <= hi <= t.len(),
            hi - lo == n == kw@.len(),
            0 <= i <= n,
            forall|j: int| 0 <= j < i ==> char_matches(t@[lo + j], kw@[j]),
        decreases n - i,
    {
        let c = t[lo + i];
        let k = kw.get_char(i);
        if !(c == k || ('a' <= k && k <= 'z' && (c as u32) == (k as u32) - 32)) {
            assert(!char_matches(t@.subrange(lo as int, hi as int)[i as int], kw@[i as int]));
            return false;
        }
        i = i + 1;
    }
    assert forall|j: int| 0 <= j < n implies char_matches(
        #[trigger] t@.subrange(lo as int, hi as int)[j],
        kw@[j],
    ) by {
        assert(t@.subrange(lo as int, hi as int)[j] == t@[lo + j]);
    }
    true
}

// ---------------------------------------------------------------------------
// Decimal numbers

/// An ASCII decimal digit.
pub open spec fn is_digit(c: char) -> bool {
    '0' <= c && c <= '9'
}

/// Every character is a decimal digit.
pub open spec fn all_digits(s: Seq<char>) -> bool {
    forall|i: int| 0 <= i < s.len() ==> is_digit(#[trigger] s[i])
}

/// The value of a string of decimal digits.
pub open spec fn digits_value(s: Seq<char>) -> int
    decreases s.len(),
{
    if s.len() == 0 {
        0
    } else {
        digits_value(s.drop_last()) * 10 + (s.last() as int - '0' as int)
    }
}

/// `s` without one leading `+`.
pub open spec fn unsigned_digits(s: Seq<char>) -> Seq<char> {
    if s.len() > 0 && s[0] == '+' {
        s.drop_first()
    } else {
        s
    }
}

/// `str::parse::<u64>`: an optional `+`, then one or more decimal digits whose value fits
/// in `u64`.
pub open spec fn parse_decimal(s: Seq<char>) -> Option<u64> {
    let d = unsigned_digits(s);
    if d.len() > 0 && all_digits(d) && digits_value(d) <= u64::MAX {
        Some(digits_value(d) as u64)
    } else {
        None
    }
}

/// What the formats read from a numeric field: the trimmed field parsed as `u64`.
pub open spec fn parse_u64_spec(s: Seq<char>) -> Option<u64> {
    parse_decimal(trim(s))
}

/// The value of digits grows as digits are appended.
pub proof fn lemma_digits_value_prefix(s: Seq<char>, k: int)
    requires
        0 <= k <= s.len(),
        all_digits(s),
    ensures
        0 <= digits_value(s.take(k)) <= digits_value(s),
    decreases s.len(),
{
    if s.len() > 0 {
        if k < s.len() {
            assert(s.drop_last().take(k) =~= s.take(k));
            lemma_digits_value_prefix(s.drop_last(), k);
        } else {
            assert(s.take(k) =~= s);
            lemma_digits_value_prefix(s.drop_last(), k - 1);
            assert(s.drop_last().take(k - 1) =~= s.drop_last());
        }
    } else {
        assert(s.take(k) =~= s);
    }
}

/// `parse_decimal(t[lo..hi])`.
pub fn parse_decimal_at(t: &Vec<char>, lo: usize, hi: usize) -> (r: Option<u64>)
    requires
        lo <= hi <= t.len(),
    ensures
        r == parse_decimal(t@.subrange(lo as int, hi as int)),
{
    let ghost s = t@.subrange(lo as int, hi as int);
    let start = if lo < hi && t[lo] == '+' {
        lo + 1
    } else {
        lo
    };
    let ghost d = unsigned_digits(s);
    assert(d =~= t@.subrange(start as int, hi as int));
    if start == hi {
        return None;
    }
    let mut v: u64 = 0;
    let mut i = start;
    while i < hi
        invariant
            lo <= start < hi <= t.len(),
            start <= i <= hi,
            d == t@.subrange(start as int, hi as int),
            d == unsigned_digits(t@.subrange(lo as int, hi as int)),
            all_digits(d.take(i - start)),
            v as int == digits_value(d.take(i - start)),
        decreases hi - i,
    {
        let c = t[i];
        if !('0' <= c && c <= '9') {
            assert(!is_digit(d[i - start]));
            return None;
        }
        let dv = (c as u32 - 48) as u64;
        proof {
            assert(d.take(i - start + 1).drop_last() =~= d.take(i - start));
            assert(d.take(i - start + 1).last() == c);
            assert(all_digits(d.take(i - start + 1)));
        }
        if v > 1844674407370955161 || (v == 1844674407370955161 && dv > 5) {
            proof {
                assert(digits_value(d.take(i - start + 1)) > u64::MAX);
                if all_digits(d) {
                    lemma_digits_value_prefix(d, i - start + 1);
                }
            }
            return None;
        }
        v = v * 10 + dv;
        i = i + 1;
    }
    assert(d.take(i - start) =~= d);
    Some(v)
}

/// `parse_u64_spec(t[lo..hi])`.
pub fn parse_u64_at(t: &Vec<char>, lo: usize, hi: usize) -> (r: Option<u64>)
    requires
        lo <= hi <= t.len(),
    ensures
        r == parse_u64_spec(t@.subrange(lo as int, hi as int)),
{
    let (a, b) = trim_bounds(t, lo, hi);
    parse_decimal_at(t, a, b)
}

/// The characters of a string slice, in order.
pub fn chars_of(s: &str) -> (v: Vec<char>)
    ensures
        v@ == s@,
{
    let mut v: Vec<char> = Vec::new();
    for c in it: s.chars()
        invariant
            v@ == it.seq().take(it.index() as int),
            it.seq() == s@,
    {
        v.push(c);
    }
    v
}

/// The ASCII digit for `d < 10`.
pub open spec fn digit_char(d: int) -> char {
    (d + 48) as char
}

/// The decimal writing of `n`, as `{}` formats an integer.
pub open spec fn decimal(n: nat) -> Seq<char>
    decreases n,
{
    if n < 10 {
        seq![digit_char(n as int)]
    } else {
        decimal(n / 10) + seq![digit_char((n % 10) as int)]
    }
}

// ---------------------------------------------------------------------------
// Lines and separated fields

/// A line without the `\r` that ends it, as `BufRead::lines` drops it before `\n`.
pub open spec fn strip_cr(l: Seq<char>) -> Seq<char> {
    if l.len() > 0 && l.last() == '\r' {
        l.drop_last()
    } else {
        l
    }
}

/// `BufRead::lines`: the text cut at each `\n`, a `\r` before it dropped, and no empty
/// line after a final `\n`.
pub open spec fn lines(t: Seq<char>) -> Seq<Seq<char>>
    decreases t.len(),
{
    if t.len() == 0 {
        seq![]
    } else {
        let k = find_first(t, '\n');
        if k >= t.len() {
            seq![t]
        } else {
            proof {
                lemma_find_first(t, '\n');
            }
            seq![strip_cr(t.take(k))] + lines(t.skip(k + 1))
        }
    }
}

/// `str::split(sep)`: the pieces between separators; one more piece than separators.
pub open spec fn split_on(s: Seq<char>, sep: char) -> Seq<Seq<char>>
    decreases s.len(),
{
    let k = find_first(s, sep);
    if k >= s.len() {
        seq![s]
    } else {
        proof {
            lemma_find_first(s, sep);
        }
        seq![s.take(k)] + split_on(s.skip(k + 1), sep)
    }
}

/// The first line of `t[pos..]`: its bounds, and where the next one starts.
pub fn next_line(t: &Vec<char>, pos: usize) -> (r: (usize, usize, usize))
    requires
        pos < t.len(),
    ensures
        pos <= r.0 <= r.1 <= t.len(),
        pos < r.2 <= t.len(),
        lines(t@.subrange(pos as int, t@.len() as int)) == seq![
            t@.subrange(r.0 as int, r.1 as int),
        ] + lines(t@.subrange(r.2 as int, t@.len() as int)),
{
    let len = t.len();
    let ghost s = t@.subrange(pos as int, len as int);
    let k = find_char(t, pos, len, '\n');
    proof {
        lemma_find_first(s, '\n');
    }
    if k == len {
        assert(t@.subrange(len as int, len as int) =~= Seq::<char>::empty());
        assert(lines(Seq::<char>::empty()) =~= Seq::<Seq<char>>::empty());
        assert(seq![s] + Seq::<Seq<char>>::empty() =~= seq![s]);
        (pos, len, len)
    } else {
        assert(s.take(k - pos) =~= t@.subrange(pos as int, k as int));
        assert(s.skip(k - pos + 1) =~= t@.subrange(k + 1, len as int));
        if k > pos && t[k - 1] == '\r' {
            assert(strip_cr(s.take(k - pos)) =~= t@.subrange(pos as int, k - 1));
            (pos, k - 1, k + 1)
        } else {
            (pos, k, k + 1)
        }
    }
}

/// `split_on` always gives at least one piece.
pub proof fn lemma_split_on_nonempty(s: Seq<char>, sep: char)
    ensures
        split_on(s, sep).len() >= 1,
{
    lemma_find_first(s, sep);
}

/// The bounds within `t` of the first `n` pieces of `split_on(t[lo..hi], sep)`, or `None`
/// when there are fewer than `n`.
pub fn split_prefix(t: &Vec<char>, lo: usize, hi: usize, sep: char, n: usize) -> (r: Option<
    Vec<(usize, usize)>,
>)
    requires
        lo <= hi <= t.len(),
    ensures
        match r {
            None => split_on(t@.subrange(lo as int, hi as int), sep).len() < n,
            Some(p) => {
                &&& split_on(t@.subrange(lo as int, hi as int), sep).len() >= n
                &&& p@.len() == n
                &&& forall|i: int|
                    0 <= i < n ==> {
                        &&& lo <= (#[trigger] p@[i]).0 <= p@[i].1 <= hi
                        &&& t@.subrange(p@[i].0 as int, p@[i].1 as int) == split_on(
                            t@.subrange(lo as int, hi as int),
                            sep,
                        )[i]
                    }
            },
        },
{
    let ghost whole = split_on(t@.subrange(lo as int, hi as int), sep);
    let mut parts: Vec<(usize, usize)> = Vec::new();
    let ghost mut prefix: Seq<Seq<char>> = seq![];
    let mut pos = lo;
    assert(whole == prefix + split_on(t@.subrange(pos as int, hi as int), sep));
    while parts.len() < n
        invariant
            lo <= pos <= hi <= t.len(),
            whole == split_on(t@.subrange(lo as int, hi as int), sep),
            whole == prefix + split_on(t@.subrange(pos as int, hi as int), sep),
            prefix.len() == parts@.len() <= n,
            forall|i: int|
                0 <= i < parts@.len() ==> {
                    &&& lo <= (#[trigger] parts@[i]).0 <= parts@[i].1 <= hi
                    &&& t@.subrange(parts@[i].0 as int, parts@[i].1 as int) == prefix[i]
                },
        decreases n - parts@.len(),
    {
        let ghost s = t@.subrange(pos as int, hi as int);
        let k = find_char(t, pos, hi, sep);
        proof {
            lemma_find_first(s, sep);
        }
        if k == hi {
            proof {
                assert(split_on(s, sep) == seq![s]);
                prefix = prefix.push(s);
                assert(whole =~= prefix);
            }
            parts.push((pos, hi));
            if parts.len() < n {
                return None;
            }
            return Some(parts);
        }
        proof {
            assert(s.take(k - pos) =~= t@.subrange(pos as int, k as int));
            assert(s.skip(k - pos + 1) =~= t@.subrange(k + 1, hi as int));
            assert(split_on(s, sep) == seq![t@.subrange(pos as int, k as int)] + split_on(
                t@.subrange(k + 1, hi as int),
                sep,
            ));
            let old_prefix = prefix;
            prefix = prefix.push(t@.subrange(pos as int, k as int));
            assert(whole =~= prefix + split_on(t@.subrange(k + 1, hi as int), sep));
        }
        parts.push((pos, k));
        pos = k + 1;
    }
    proof {
        lemma_split_on_nonempty(t@.subrange(pos as int, hi as int), sep);
    }
    Some(parts)
}

/// How many pieces `split_on(t[lo..hi], sep)` has, counted up to `cap`.
pub fn count_pieces(t: &Vec<char>, lo: usize, hi: usize, sep: char, cap: usize) -> (n: usize)
    requires
        lo <= hi <= t.len(),
    ensures
        n == (if split_on(t@.subrange(lo as int, hi as int), sep).len() < cap {
            split_on(t@.subrange(lo as int, hi as int), sep).len() as int
        } else {
            cap as int
        }),
{
    let ghost whole = split_on(t@.subrange(lo as int, hi as int), sep);
    let mut count: usize = 0;
    let mut pos = lo;
    while count < cap
        invariant
            lo <= pos <= hi <= t.len(),
            count <= cap,
            whole == split_on(t@.subrange(lo as int, hi as int), sep),
            whole.len() == count + split_on(t@.subrange(pos as int, hi as int), sep).len(),
        decreases cap - count,
    {
        let ghost s = t@.subrange(pos as int, hi as int);
        let k = find_char(t, pos, hi, sep);
        proof {
            lemma_find_first(s, sep);
        }
        if k == hi {
            assert(split_on(s, sep) == seq![s]);
            return count + 1;
        }
        proof {
            assert(s.skip(k - pos + 1) =~= t@.subrange(k + 1, hi as int));
            assert(split_on(s, sep).len() == 1 + split_on(t@.subrange(k + 1, hi as int), sep).len());
        }
        count = count + 1;
        pos = k + 1;
    }
    proof {
        lemma_split_on_nonempty(t@.subrange(pos as int, hi as int), sep);
    }
    count
}

/// Whether the characters `t` are exactly those of `lit`.
pub fn equals_str(t: &Vec<char>, lit: &str) -> (b: bool)
    ensures
        b == (t@ == lit@),
{
    let n = lit.unicode_len();
    if t.len() != n {
        return false;
    }
    let mut i: usize = 0;
    while i < n
        invariant
            t@.len() == n == lit@.len(),
            0 <= i <= n,
            forall|j: int| 0 <= j < i ==> t@[j] == lit@[j],
        decreases n - i,
    {
        if t[i] != lit.get_char(i) {
            return false;
        }
        i = i + 1;
    }
    assert(t@ =~= lit@);
    true
}

// ---------------------------------------------------------------------------
// Facts about what the writers produce, for reading it back

/// `x` does not occur in `s`.
pub open spec fn lacks<A>(s: Seq<A>, x: A) -> bool {
    forall|i: int| 0 <= i < s.len() ==> s[i] != x
}

/// Text that starts and ends with a character other than white space is its own trim.
pub proof fn lemma_trim_unchanged(s: Seq<char>)
    requires
        s.len() > 0,
        !is_white_space(s[0]),
        !is_white_space(s.last()),
    ensures
        trim(s) == s,
{
    let p = |c: char| is_white_space(c);
    lemma_strip_start(s, p, 0);
    assert(s.skip(0) =~= s);
    lemma_strip_end(s, p, s.len() as int);
    assert(s.take(s.len() as int) =~= s);
}

/// The decimal writing of a number is a non-empty string of digits worth that number.
pub proof fn lemma_decimal(n: nat)
    ensures
        decimal(n).len() > 0,
        all_digits(decimal(n)),
        digits_value(decimal(n)) == n,
    decreases n,
{
    let s = decimal(n);
    let d = (n % 10) as int;
    assert(digit_char(d) as int == d + 48);
    assert('0' as int == 48);
    if n < 10 {
        assert(s.last() == digit_char(d));
        assert(digits_value(Seq::<char>::empty()) == 0);
        assert(s.drop_last() =~= Seq::<char>::empty());
        assert(digits_value(s) == d);
    } else {
        lemma_decimal(n / 10);
        assert(s.drop_last() =~= decimal(n / 10));
        assert(s.last() == digit_char(d));
        assert(digits_value(s) == digits_value(decimal(n / 10)) * 10 + d);
        assert forall|i: int| 0 <= i < s.len() implies is_digit(#[trigger] s[i]) by {
            if i < s.len() - 1 {
                assert(s[i] == decimal(n / 10)[i]);
            }
        }
    }
}

/// Reading back the decimal writing of a number gives the number.
pub proof fn lemma_parse_decimal(n: u64)
    ensures
        parse_u64_spec(decimal(n as nat)) == Some(n),
{
    let s = decimal(n as nat);
    lemma_decimal(n as nat);
    assert(is_digit(s[0]) && is_digit(s.last()));
    lemma_trim_unchanged(s);
}

/// A piece without the separator, then the separator, then the rest: the piece is the first
/// of the split.
pub proof fn lemma_split_cons(a: Seq<char>, rest: Seq<char>, sep: char)
    requires
        lacks(a, sep),
    ensures
        split_on(a + seq![sep] + rest, sep) == seq![a] + split_on(rest, sep),
{
    let s = a + seq![sep] + rest;
    lemma_find_first_at(s, sep, a.len() as int);
    assert(s.take(a.len() as int) =~= a);
    assert(s.skip(a.len() as int + 1) =~= rest);
}

/// Text without the separator splits into itself alone.
pub proof fn lemma_split_single(a: Seq<char>, sep: char)
    requires
        lacks(a, sep),
    ensures
        split_on(a, sep) == seq![a],
{
    lemma_find_first_at(a, sep, a.len() as int);
}

/// A line without `\n` that does not end in `\r`, then `\n`, then the rest: the line is the
/// first of the lines.
pub proof fn lemma_lines_cons(a: Seq<char>, rest: Seq<char>)
    requires
        lacks(a, '\n'),
        a.len() > 0 ==> a.last() != '\r',
    ensures
        lines(a + seq!['\n'] + rest) == seq![a] + lines(rest),
{
    let s = a + seq!['\n'] + rest;
    lemma_find_first_at(s, '\n', a.len() as int);
    assert(s.take(a.len() as int) =~= a);
    assert(s.skip(a.len() as int + 1) =~= rest);
}

/// Surrounding plain text with double quotes, then cleaning it, gives it back.
pub proof fn lemma_clean_quoted(d: Seq<char>)
    requires
        forall|i: int| 0 <= i < d.len() ==> d[i] != '"',
    ensures
        clean_description(seq!['"'] + d + seq!['"']) == d,
{
    let q = seq!['"'] + d + seq!['"'];
    let pw = |c: char| is_white_space(c);
    let pq = |c: char| is_quote(c);
    lemma_trim_unchanged(q);
    if d.len() == 0 {
        lemma_strip_start(q, pq, 2);
        assert(q.skip(2) =~= Seq::<char>::empty());
        lemma_strip_end(Seq::<char>::empty(), pq, 0);
        assert(Seq::<char>::empty().take(0) =~= d);
    } else {
        assert(q[1] == d[0]);
        lemma_strip_start(q, pq, 1);
        let r = q.skip(1);
        assert(r =~= d + seq!['"']);
        assert(r[d.len() - 1] == d.last());
        lemma_strip_end(r, pq, d.len() as int);
        assert(r.take(d.len() as int) =~= d);
    }
}

/// A space in front of text that starts and ends with a character other than white space
/// is trimmed away.
pub proof fn lemma_trim_after_space(s: Seq<char>)
    requires
        s.len() > 0,
        !is_white_space(s[0]),
        !is_white_space(s.last()),
    ensures
        trim(seq![' '] + s) == s,
{
    let p = |c: char| is_white_space(c);
    let t = seq![' '] + s;
    assert(t[1] == s[0]);
    lemma_strip_start(t, p, 1);
    assert(t.skip(1) =~= s);
    lemma_strip_end(s, p, s.len() as int);
    assert(s.take(s.len() as int) =~= s);
}

} // verus!
