//! Small text helpers: characters of a string, splitting, decimal numbers.

use vstd::prelude::*;

verus! {

/// Appends one character; the contract states what `String::push` documents.
#[verifier::external_body]
pub fn push_char(s: &mut String, c: char)
    ensures
        final(s)@ == old(s)@.push(c),
{
    s.push(c);
}

/// The characters of `s`, as a vector.
pub fn str_chars(s: &str) -> (v: Vec<char>)
    ensures
        v@ == s@,
{
    let n = s.unicode_len();
    let mut v: Vec<char> = Vec::new();
    let mut i: usize = 0;
    while i < n
        invariant
            n == s@.len(),
            0 <= i <= n,
            v@ == s@.take(i as int),
        decreases n - i,
    {
        v.push(s.get_char(i));
        assert(v@ =~= s@.take(i + 1));
        i = i + 1;
    }
    assert(s@.take(n as int) =~= s@);
    v
}

/// A string holding the characters `v`.
pub fn string_from_chars(v: &Vec<char>) -> (s: String)
    ensures
        s@ == v@,
{
    let mut s = String::new();
    let mut i: usize = 0;
    while i < v.len()
        invariant
            0 <= i <= v@.len(),
            s@ == v@.take(i as int),
        decreases v@.len() - i,
    {
        push_char(&mut s, v[i]);
        assert(s@ =~= v@.take(i + 1));
        i = i + 1;
    }
    assert(v@.take(v@.len() as int) =~= v@);
    s
}

/// The Unicode `White_Space` characters (as `char::is_whitespace` documents).
pub open spec fn is_ws(c: char) -> bool {
    ||| '\u{9}' <= c <= '\u{d}'
    ||| c == ' '
    ||| c == '\u{85}'
    ||| c == '\u{a0}'
    ||| c == '\u{1680}'
    ||| '\u{2000}' <= c <= '\u{200a}'
    ||| c == '\u{2028}'
    ||| c == '\u{2029}'
    ||| c == '\u{202f}'
    ||| c == '\u{205f}'
    ||| c == '\u{3000}'
}

pub fn is_whitespace(c: char) -> (b: bool)
    ensures
        b == is_ws(c),
{
    ('\u{9}' <= c && c <= '\u{d}') || c == ' ' || c == '\u{85}' || c == '\u{a0}' || c == '\u{1680}'
        || ('\u{2000}' <= c && c <= '\u{200a}') || c == '\u{2028}' || c == '\u{2029}' || c
        == '\u{202f}' || c == '\u{205f}' || c == '\u{3000}'
}

/// `c` separates pieces: whitespace when `sep` is `None`, else the character `sep`.
pub open spec fn is_sep(c: char, sep: Option<char>) -> bool {
    match sep {
        None => is_ws(c),
        Some(d) => c == d,
    }
}

/// The pieces of `s` between separators, empty pieces included: `n`
/// separators give `n + 1` pieces (as `str::split` does).
pub open spec fn split_seq(s: Seq<char>, sep: Option<char>) -> Seq<Seq<char>>
    decreases s.len(),
{
    if s.len() == 0 {
        seq![Seq::empty()]
    } else {
        let r = split_seq(s.drop_last(), sep);
        if is_sep(s.last(), sep) {
            r.push(Seq::empty())
        } else {
            r.update(r.len() - 1, r.last().push(s.last()))
        }
    }
}

pub proof fn lemma_split_nonempty(s: Seq<char>, sep: Option<char>)
    ensures
        split_seq(s, sep).len() >= 1,
    decreases s.len(),
{
    if s.len() > 0 {
        lemma_split_nonempty(s.drop_last(), sep);
    }
}

/// The non-empty pieces of `ts`, in order.
pub open spec fn nonempty(ts: Seq<Seq<char>>) -> Seq<Seq<char>>
    decreases ts.len(),
{
    if ts.len() == 0 {
        Seq::empty()
    } else if ts.last().len() > 0 {
        nonempty(ts.drop_last()).push(ts.last())
    } else {
        nonempty(ts.drop_last())
    }
}

/// The whitespace-separated words of `s` (as `str::split_whitespace` yields them).
pub open spec fn words(s: Seq<char>) -> Seq<Seq<char>> {
    nonempty(split_seq(s, None))
}

pub proof fn lemma_deep_push(old_v: Vec<Vec<char>>, new_v: Vec<Vec<char>>, x: Vec<char>)
    requires
        new_v@ == old_v@.push(x),
    ensures
        new_v.deep_view() == old_v.deep_view().push(x@),
{
    assert(x.deep_view() =~= x@);
    assert(new_v.deep_view() =~= old_v.deep_view().push(x@));
}

/// Split `s` into pieces at each separator (see [`split_seq`]).
pub fn split_chars(s: &Vec<char>, sep: Option<char>) -> (pieces: Vec<Vec<char>>)
    ensures
        pieces.deep_view() == split_seq(s@, sep),
{
    let mut pieces: Vec<Vec<char>> = Vec::new();
    let mut cur: Vec<char> = Vec::new();
    let mut i: usize = 0;
    assert(pieces.deep_view().push(cur@) =~= seq![Seq::<char>::empty()]);
    assert(s@.take(0) =~= Seq::<char>::empty());
    while i < s.len()
        invariant
            0 <= i <= s@.len(),
            pieces.deep_view().push(cur@) == split_seq(s@.take(i as int), sep),
        decreases s@.len() - i,
    {
        let c = s[i];
        let ghost before = pieces.deep_view().push(cur@);
        let ghost old_pieces = pieces;
        assert(s@.take(i + 1).drop_last() =~= s@.take(i as int));
        assert(s@.take(i + 1).last() == c);
        let is_separator = match sep {
            None => is_whitespace(c),
            Some(d) => c == d,
        };
        if is_separator {
            let done = cur;
            pieces.push(done);
            proof {
                lemma_deep_push(old_pieces, pieces, done);
            }
            cur = Vec::new();
            assert(pieces.deep_view().push(cur@) =~= before.push(Seq::empty()));
        } else {
            let ghost old_cur = cur@;
            cur.push(c);
            assert(pieces.deep_view().push(cur@) =~= before.update(before.len() - 1, before.last().push(c)));
        }
        i = i + 1;
    }
    let ghost old_pieces = pieces;
    let last = cur;
    pieces.push(last);
    proof {
        lemma_deep_push(old_pieces, pieces, last);
    }
    assert(s@.take(s@.len() as int) =~= s@);
    pieces
}

/// The non-empty pieces of `ts`.
pub fn keep_nonempty(ts: Vec<Vec<char>>) -> (out: Vec<Vec<char>>)
    ensures
        out.deep_view() == nonempty(ts.deep_view()),
{
    let mut out: Vec<Vec<char>> = Vec::new();
    let mut i: usize = 0;
    while i < ts.len()
        invariant
            0 <= i <= ts@.len(),
            out.deep_view() == nonempty(ts.deep_view().take(i as int)),
        decreases ts@.len() - i,
    {
        assert(ts.deep_view().take(i + 1).drop_last() =~= ts.deep_view().take(i as int));
        assert(ts.deep_view().take(i + 1).last() == ts[i as int]@);
        if ts[i].len() > 0 {
            out.push(ts[i].clone());
            assert(out.deep_view() =~= nonempty(ts.deep_view().take(i as int)).push(ts[i as int]@));
        }
        i = i + 1;
    }
    assert(ts.deep_view().take(ts@.len() as int) =~= ts.deep_view());
    out
}

/// The whitespace-separated words of `s`.
pub fn split_words(s: &str) -> (w: Vec<Vec<char>>)
    ensures
        w.deep_view() == words(s@),
{
    let cs = str_chars(s);
    let pieces = split_chars(&cs, None);
    keep_nonempty(pieces)
}

// ---- Decimal numbers ------------------------------------------------------

pub open spec fn is_digit(c: char) -> bool {
    '0' <= c <= '9'
}

pub open spec fn digit_value(c: char) -> nat {
    ((c as u32) - ('0' as u32)) as nat
}

pub open spec fn digit_char(d: nat) -> char {
    (('0' as u32) + d) as char
}

/// The value of the decimal digits `d`.
pub open spec fn decimal_value(d: Seq<char>) -> nat
    decreases d.len(),
{
    if d.len() == 0 {
        0
    } else {
        decimal_value(d.drop_last()) * 10 + digit_value(d.last())
    }
}

/// Every character of `d` is an ASCII digit.
pub open spec fn all_digits(d: Seq<char>) -> bool {
    forall|i: int| 0 <= i < d.len() ==> is_digit(#[trigger] d[i])
}

/// `s` parsed as a `u32` the way `str::parse::<u32>` does: an optional leading
/// `+`, then one or more ASCII digits, and a value that fits in `u32`.
pub open spec fn parse_u32_spec(s: Seq<char>) -> Option<u32> {
    let d = if s.len() > 0 && s[0] == '+' {
        s.skip(1)
    } else {
        s
    };
    if d.len() > 0 && all_digits(d) && decimal_value(d) <= u32::MAX {
        Some(decimal_value(d) as u32)
    } else {
        None
    }
}

/// Parse decimal text as a `u32` (see [`parse_u32_spec`]).
pub fn parse_u32(s: &Vec<char>) -> (r: Option<u32>)
    ensures
        r == parse_u32_spec(s@),
{
    let start: usize = if s.len() > 0 && s[0] == '+' {
        1
    } else {
        0
    };
    let ghost d = if s@.len() > 0 && s@[0] == '+' {
        s@.skip(1)
    } else {
        s@
    };
    assert(d =~= s@.skip(start as int));
    if start >= s.len() {
        return None;
    }
    let mut value: u64 = 0;
    let mut i: usize = start;
    while i < s.len()
        invariant
            start <= i <= s@.len(),
            d == s@.skip(start as int),
            d == (if s@.len() > 0 && s@[0] == '+' {
                s@.skip(1)
            } else {
                s@
            }),
            forall|j: int| 0 <= j < i - start ==> is_digit(#[trigger] d[j]),
            value == decimal_value(d.take(i - start)),
            value <= u32::MAX,
        decreases s@.len() - i,
    {
        let c = s[i];
        if !('0' <= c && c <= '9') {
            assert(!is_digit(d[i - start]));
            return None;
        }
        assert(d.take(i + 1 - start).drop_last() =~= d.take(i - start));
        let dv: u64 = ((c as u32) - ('0' as u32)) as u64;
        assert(d.take(i + 1 - start).last() == c);
        value = value * 10 + dv;
        assert(decimal_value(d.take(i + 1 - start)) == value);
        if value > 4294967295 {
            proof {
                lemma_decimal_grows(d, i + 1 - start, d.len() as int);
                assert(d.take(d.len() as int) =~= d);
            }
            return None;
        }
        i = i + 1;
    }
    assert(d.take(s@.len() - start) =~= d);
    Some(value as u32)
}

/// Appending digits never decreases a decimal value.
pub proof fn lemma_decimal_grows(d: Seq<char>, j: int, k: int)
    requires
        0 <= j <= k <= d.len(),
    ensures
        decimal_value(d.take(k)) >= decimal_value(d.take(j)),
    decreases k - j,
{
    if j < k {
        lemma_decimal_grows(d, j, k - 1);
        assert(d.take(k).drop_last() =~= d.take(k - 1));
    }
}

/// Decimal text of `n`, most significant digit first, without leading zeros.
pub open spec fn decimal_text(n: nat) -> Seq<char>
    decreases n,
{
    if n < 10 {
        seq![digit_char(n)]
    } else {
        decimal_text(n / 10).push(digit_char(n % 10))
    }
}

/// Append the decimal text of `n` to `out`.
pub fn push_decimal(out: &mut String, n: u64)
    ensures
        final(out)@ == old(out)@ + decimal_text(n as nat),
    decreases n,
{
    if n >= 10 {
        push_decimal(out, n / 10);
    }
    let d: u32 = (n % 10) as u32;
    push_char(out, crate::types::char_from_ascii(48 + d));
    assert(final(out)@ =~= old(out)@ + decimal_text(n as nat));
}

// ---- Lines, trimming, splitting once -----------------------------------------

/// `s` without leading whitespace.
pub open spec fn trim_start_seq(s: Seq<char>) -> Seq<char>
    decreases s.len(),
{
    if s.len() > 0 && is_ws(s[0]) {
        trim_start_seq(s.skip(1))
    } else {
        s
    }
}

/// `s` without trailing whitespace.
pub open spec fn trim_end_seq(s: Seq<char>) -> Seq<char>
    decreases s.len(),
{
    if s.len() > 0 && is_ws(s.last()) {
        trim_end_seq(s.drop_last())
    } else {
        s
    }
}

/// `s` without leading and trailing whitespace (as `str::trim` gives it).
pub open spec fn trim_seq(s: Seq<char>) -> Seq<char> {
    trim_end_seq(trim_start_seq(s))
}

/// `l` without one final carriage return.
pub open spec fn strip_cr(l: Seq<char>) -> Seq<char> {
    if l.len() > 0 && l.last() == '\r' {
        l.drop_last()
    } else {
        l
    }
}

/// The lines of `s` as `str::lines` yields them: split at `\n`, each line that
/// ended in `\n` without one final `\r`, and no empty last line after a final `\n`.
pub open spec fn lines_seq(s: Seq<char>) -> Seq<Seq<char>> {
    let ps = split_seq(s, Some('\n'));
    let body = Seq::new((ps.len() - 1) as nat, |i: int| strip_cr(ps[i]));
    if ps.last().len() > 0 {
        body.push(ps.last())
    } else {
        body
    }
}

/// The index of the first `c` in `s`, if any.
pub open spec fn first_index(s: Seq<char>, c: char) -> Option<int>
    decreases s.len(),
{
    if s.len() == 0 {
        None
    } else {
        match first_index(s.drop_last(), c) {
            Some(i) => Some(i),
            None => if s.last() == c {
                Some(s.len() - 1)
            } else {
                None
            },
        }
    }
}

pub proof fn lemma_first_index(s: Seq<char>, c: char)
    ensures
        first_index(s, c) matches Some(i) ==> 0 <= i < s.len() && s[i] == c && forall|j: int|
            0 <= j < i ==> s[j] != c,
        first_index(s, c) is None ==> forall|j: int| 0 <= j < s.len() ==> s[j] != c,
    decreases s.len(),
{
    if s.len() > 0 {
        lemma_first_index(s.drop_last(), c);
        assert forall|j: int| 0 <= j < s.len() - 1 implies s[j] == s.drop_last()[j] by {}
    }
}

/// `s` split at its first `c` (as `str::split_once` does), if it holds one.
pub open spec fn split_once_seq(s: Seq<char>, c: char) -> Option<(Seq<char>, Seq<char>)> {
    match first_index(s, c) {
        Some(i) => Some((s.take(i), s.skip(i + 1))),
        None => None,
    }
}

/// `s` without leading and trailing whitespace.
pub fn trim_chars(s: &Vec<char>) -> (t: Vec<char>)
    ensures
        t@ == trim_seq(s@),
{
    let mut i: usize = 0;
    assert(s@.skip(0) =~= s@);
    while i < s.len() && is_whitespace(s[i])
        invariant
            0 <= i <= s@.len(),
            trim_start_seq(s@) == trim_start_seq(s@.skip(i as int)),
        decreases s@.len() - i,
    {
        assert(s@.skip(i as int).skip(1) =~= s@.skip(i + 1));
        i = i + 1;
    }
    let mut j: usize = s.len();
    while j > i && is_whitespace(s[j - 1])
        invariant
            i <= j <= s@.len(),
            trim_start_seq(s@) == s@.skip(i as int),
            trim_seq(s@) == trim_end_seq(s@.subrange(i as int, j as int)),
        decreases j,
    {
        assert(s@.subrange(i as int, j as int).drop_last() =~= s@.subrange(i as int, j - 1));
        j = j - 1;
    }
    let mut t: Vec<char> = Vec::new();
    let mut k: usize = i;
    while k < j
        invariant
            i <= k <= j <= s@.len(),
            t@ == s@.subrange(i as int, k as int),
        decreases j - k,
    {
        t.push(s[k]);
        assert(t@ =~= s@.subrange(i as int, k + 1));
        k = k + 1;
    }
    if i < s.len() {
        assert(s@.skip(i as int) =~= s@.subrange(i as int, s@.len() as int));
    }
    t
}

/// The characters `s[from..to]`.
pub fn sub_chars(s: &Vec<char>, from: usize, to: usize) -> (t: Vec<char>)
    requires
        from <= to <= s@.len(),
    ensures
        t@ == s@.subrange(from as int, to as int),
{
    let mut t: Vec<char> = Vec::new();
    let mut k: usize = from;
    while k < to
        invariant
            from <= k <= to <= s@.len(),
            t@ == s@.subrange(from as int, k as int),
        decreases to - k,
    {
        t.push(s[k]);
        assert(t@ =~= s@.subrange(from as int, k + 1));
        k = k + 1;
    }
    t
}

/// `s` split at its first `c`.
pub fn split_once_chars(s: &Vec<char>, c: char) -> (r: Option<(Vec<char>, Vec<char>)>)
    ensures
        match (r, split_once_seq(s@, c)) {
            (Some((a, b)), Some((x, y))) => a@ == x && b@ == y,
            (None, None) => true,
            _ => false,
        },
{
    proof {
        lemma_first_index(s@, c);
    }
    let mut i: usize = 0;
    while i < s.len()
        invariant
            0 <= i <= s@.len(),
            forall|j: int| 0 <= j < i ==> s@[j] != c,
            first_index(s@, c) matches Some(k) ==> 0 <= k < s@.len() && s@[k] == c && forall|j: int|
                0 <= j < k ==> s@[j] != c,
            first_index(s@, c) is None ==> forall|j: int| 0 <= j < s@.len() ==> s@[j] != c,
        decreases s@.len() - i,
    {
        if s[i] == c {
            assert(first_index(s@, c) == Some(i as int)) by {
                if first_index(s@, c) is None {
                    assert(s@[i as int] != c);
                } else {
                    let k = first_index(s@, c).unwrap();
                    if k < i {
                        assert(s@[k] != c);
                    } else if k > i {
                        assert(s@[i as int] != c);
                    }
                }
            }
            let a = sub_chars(s, 0, i);
            let b = sub_chars(s, i + 1, s.len());
            assert(b@ =~= s@.skip(i + 1));
            assert(a@ =~= s@.take(i as int));
            return Some((a, b));
        }
        i = i + 1;
    }
    None
}

/// The lines of `s` (see [`lines_seq`]).
pub fn split_lines(s: &Vec<char>) -> (ls: Vec<Vec<char>>)
    ensures
        ls.deep_view() == lines_seq(s@),
{
    let ps = split_chars(s, Some('\n'));
    proof {
        lemma_split_nonempty(s@, Some('\n'));
    }
    let n = ps.len();
    let mut out: Vec<Vec<char>> = Vec::new();
    let mut i: usize = 0;
    while i + 1 < n
        invariant
            n == ps@.len(),
            n >= 1,
            ps.deep_view() == split_seq(s@, Some('\n')),
            0 <= i <= n - 1,
            out.deep_view() == Seq::new(i as nat, |k: int| strip_cr(ps.deep_view()[k])),
        decreases n - i,
    {
        let l = &ps[i];
        let ghost lv = ps.deep_view()[i as int];
        assert(l@ == lv);
        let stripped = if l.len() > 0 && l[l.len() - 1] == '\r' {
            sub_chars(l, 0, l.len() - 1)
        } else {
            l.clone()
        };
        assert(stripped@ =~= strip_cr(lv));
        let ghost old_out = out;
        out.push(stripped);
        proof {
            lemma_deep_push(old_out, out, stripped);
        }
        assert(out.deep_view() =~= Seq::new((i + 1) as nat, |k: int| strip_cr(ps.deep_view()[k])));
        i = i + 1;
    }
    let last = &ps[n - 1];
    assert(last@ == ps.deep_view().last());
    if last.len() > 0 {
        let ghost old_out = out;
        let l = last.clone();
        out.push(l);
        proof {
            lemma_deep_push(old_out, out, l);
        }
    }
    out
}

} // verus!
