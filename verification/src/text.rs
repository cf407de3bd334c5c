//! Text as sequences of characters: conversion to and from strings,
//! whitespace, trimming, splitting into words and into lines.

use vstd::prelude::*;

verus! {

/// `String::push` of the standard library, taken on trust: it appends the
/// character to the end of the string and changes nothing else.
pub assume_specification[ String::push ](s: &mut String, ch: char)
    ensures
        final(s)@ == old(s)@.push(ch),
;

/// Whether `c` has the Unicode property `White_Space`.
pub open spec fn is_space(c: char) -> bool {
    ||| '\u{9}' <= c <= '\u{d}'
    ||| c == ' '
    ||| c == '\u{85}'
    ||| c == '\u{a0}'
    ||| c == '\u{1680}'
    ||| '\u{2000}' <= c <= '\u{200a}'
    ||| c == '\u{2028}'
    ||| c == '\u{2029}'
    ||| c == '\u{202f}'
    ||| c == '\u{205f}'
    ||| c == '\u{3000}'
}

/// Index of the first character at or after `i` that is no whitespace, or the
/// length of `s` where there is none.
pub open spec fn skip_spaces(s: Seq<char>, i: int) -> int
    decreases s.len() - i,
{
    if 0 <= i < s.len() && is_space(s[i]) {
        skip_spaces(s, i + 1)
    } else {
        i
    }
}

/// End of the run of whitespace that ends just before `j`, walking backwards.
pub open spec fn back_spaces(s: Seq<char>, j: int) -> int
    decreases j,
{
    if 0 < j <= s.len() && is_space(s[j - 1]) {
        back_spaces(s, j - 1)
    } else {
        j
    }
}

/// Index of the first whitespace character at or after `i`, or the length of
/// `s` where there is none.
pub open spec fn word_end(s: Seq<char>, i: int) -> int
    decreases s.len() - i,
{
    if 0 <= i < s.len() && !is_space(s[i]) {
        word_end(s, i + 1)
    } else {
        i
    }
}

/// `s` without its leading whitespace.
pub open spec fn trim_start(s: Seq<char>) -> Seq<char> {
    s.subrange(skip_spaces(s, 0), s.len() as int)
}

/// `s` without its trailing whitespace.
pub open spec fn trim_end(s: Seq<char>) -> Seq<char> {
    s.subrange(0, back_spaces(s, s.len() as int))
}

/// `s` without leading and trailing whitespace.
pub open spec fn trim(s: Seq<char>) -> Seq<char> {
    trim_end(trim_start(s))
}

/// The maximal runs of characters of `s` that hold no whitespace, in order.
pub open spec fn words(s: Seq<char>) -> Seq<Seq<char>>
    decreases s.len(),
{
    let a = skip_spaces(s, 0);
    let b = word_end(s, a);
    if 0 <= a < b <= s.len() {
        seq![s.subrange(a, b)] + words(s.subrange(b, s.len() as int))
    } else {
        Seq::empty()
    }
}

/// Index of the first occurrence of `c` in `s` at or after `i`, or the length
/// of `s` where there is none.
pub open spec fn find_from(s: Seq<char>, c: char, i: int) -> int
    decreases s.len() - i,
{
    if 0 <= i < s.len() && s[i] != c {
        find_from(s, c, i + 1)
    } else {
        i
    }
}

/// `skip_spaces` stops within the text, passes over whitespace only, and stops
/// at a character that is none.
pub proof fn lemma_skip_spaces_bounds(s: Seq<char>, i: int)
    requires
        0 <= i <= s.len(),
    ensures
        i <= skip_spaces(s, i) <= s.len(),
        forall|k: int| i <= k < skip_spaces(s, i) ==> is_space(#[trigger] s[k]),
        skip_spaces(s, i) < s.len() ==> !is_space(s[skip_spaces(s, i)]),
    decreases s.len() - i,
{
    if i < s.len() && is_space(s[i]) {
        lemma_skip_spaces_bounds(s, i + 1);
    }
}

/// `back_spaces` stops within the text, passes over whitespace only, and stops
/// behind a character that is none.
pub proof fn lemma_back_spaces_bounds(s: Seq<char>, j: int)
    requires
        0 <= j <= s.len(),
    ensures
        0 <= back_spaces(s, j) <= j,
        forall|k: int| back_spaces(s, j) <= k < j ==> is_space(#[trigger] s[k]),
        back_spaces(s, j) > 0 ==> !is_space(s[back_spaces(s, j) - 1]),
    decreases j,
{
    if 0 < j && is_space(s[j - 1]) {
        lemma_back_spaces_bounds(s, j - 1);
    }
}

/// `word_end` stops within the text, passes over no whitespace, and stops at
/// a whitespace character.
pub proof fn lemma_word_end_bounds(s: Seq<char>, i: int)
    requires
        0 <= i <= s.len(),
    ensures
        i <= word_end(s, i) <= s.len(),
        forall|k: int| i <= k < word_end(s, i) ==> !is_space(#[trigger] s[k]),
        word_end(s, i) < s.len() ==> is_space(s[word_end(s, i)]),
    decreases s.len() - i,
{
    if i < s.len() && !is_space(s[i]) {
        lemma_word_end_bounds(s, i + 1);
    }
}

/// `find_from` stops within the text, passes over no occurrence of the
/// character, and stops at one.
pub proof fn lemma_find_from_bounds(s: Seq<char>, c: char, i: int)
    requires
        0 <= i <= s.len(),
    ensures
        i <= find_from(s, c, i) <= s.len(),
        forall|k: int| i <= k < find_from(s, c, i) ==> #[trigger] s[k] != c,
        find_from(s, c, i) < s.len() ==> s[find_from(s, c, i)] == c,
    decreases s.len() - i,
{
    if i < s.len() && s[i] != c {
        lemma_find_from_bounds(s, c, i + 1);
    }
}

/// The views of the strings of `v`, in order.
pub open spec fn texts(v: Seq<String>) -> Seq<Seq<char>> {
    v.map_values(|s: String| s@)
}

/// Scanning a suffix of `s` is scanning `s` from where the suffix starts.
pub proof fn lemma_scan_suffix(s: Seq<char>, p: int, i: int)
    requires
        0 <= p <= s.len(),
        0 <= i <= s.len() - p,
    ensures
        skip_spaces(s.subrange(p, s.len() as int), i) + p == skip_spaces(s, p + i),
        word_end(s.subrange(p, s.len() as int), i) + p == word_end(s, p + i),
    decreases s.len() - p - i,
{
    let t = s.subrange(p, s.len() as int);
    if i < t.len() {
        assert(t[i] == s[p + i]);
        lemma_scan_suffix(s, p, i + 1);
    }
}

/// Trimming leaves a text that trimming does not change.
pub proof fn lemma_trim_idempotent(s: Seq<char>)
    ensures
        trim(trim(s)) == trim(s),
        trim(s).len() > 0 ==> !is_space(trim(s)[0]) && !is_space(trim(s).last()),
        trim(s).len() <= s.len(),
{
    lemma_skip_spaces_bounds(s, 0);
    let t = trim_start(s);
    lemma_back_spaces_bounds(t, t.len() as int);
    let u = trim(s);
    lemma_skip_spaces_bounds(u, 0);
    if u.len() > 0 {
        assert(u[0] == t[0]);
        assert(t[0] == s[skip_spaces(s, 0)]);
        assert(u.last() == t[back_spaces(t, t.len() as int) - 1]);
        assert(skip_spaces(u, 0) == 0);
        assert(trim_start(u) == u);
        assert(back_spaces(u, u.len() as int) == u.len());
        assert(trim_end(u) == u);
    } else {
        assert(skip_spaces(u, 0) == 0);
        assert(trim_start(u) == u);
        assert(trim_end(u) == u);
    }
}

/// Whether `c` is whitespace.
pub fn is_space_char(c: char) -> (out: bool)
    ensures
        out == is_space(c),
{
    ('\u{9}' <= c && c <= '\u{d}') || c == ' ' || c == '\u{85}' || c == '\u{a0}' || c == '\u{1680}'
        || ('\u{2000}' <= c && c <= '\u{200a}') || c == '\u{2028}' || c == '\u{2029}' || c
        == '\u{202f}' || c == '\u{205f}' || c == '\u{3000}'
}

/// The characters of `s`, in order.
pub fn chars_of(s: &str) -> (out: Vec<char>)
    ensures
        out@ == s@,
{
    let mut out: Vec<char> = Vec::new();
    for c in it: s.chars()
        invariant
            it.seq() == s@,
            out@ == it.seq().take(it.index() as int),
    {
        out.push(c);
    }
    out
}

/// The string made of the characters `v[from..to]`.
pub fn string_of_range(v: &Vec<char>, from: usize, to: usize) -> (out: String)
    requires
        from <= to <= v.len(),
    ensures
        out@ == v@.subrange(from as int, to as int),
{
    let mut out = String::new();
    let mut i: usize = from;
    while i < to
        invariant
            from <= i <= to <= v.len(),
            out@ == v@.subrange(from as int, i as int),
        decreases to - i,
    {
        out.push(v[i]);
        i += 1;
        assert(v@.subrange(from as int, i as int) == v@.subrange(from as int, i - 1).push(
            v@[i - 1],
        ));
    }
    out
}

/// The string made of the characters of `v`.
pub fn string_of(v: &Vec<char>) -> (out: String)
    ensures
        out@ == v@,
{
    let out = string_of_range(v, 0, v.len());
    assert(v@.subrange(0, v.len() as int) == v@);
    out
}

/// Index of the first character of `v` at or after `i` that is no whitespace.
pub fn skip_spaces_from(v: &Vec<char>, i: usize) -> (j: usize)
    requires
        i <= v.len(),
    ensures
        j == skip_spaces(v@, i as int),
        i <= j <= v.len(),
{
    let mut j: usize = i;
    while j < v.len() && is_space_char(v[j])
        invariant
            i <= j <= v.len(),
            skip_spaces(v@, i as int) == skip_spaces(v@, j as int),
        decreases v.len() - j,
    {
        j += 1;
    }
    j
}

/// Index of the first whitespace character of `v` at or after `i`.
pub fn word_end_from(v: &Vec<char>, i: usize) -> (j: usize)
    requires
        i <= v.len(),
    ensures
        j == word_end(v@, i as int),
        i <= j <= v.len(),
{
    let mut j: usize = i;
    while j < v.len() && !is_space_char(v[j])
        invariant
            i <= j <= v.len(),
            word_end(v@, i as int) == word_end(v@, j as int),
        decreases v.len() - j,
    {
        j += 1;
    }
    j
}

/// Index of the first occurrence of `c` in `v` at or after `i`.
pub fn find_char_from(v: &Vec<char>, c: char, i: usize) -> (j: usize)
    requires
        i <= v.len(),
    ensures
        j == find_from(v@, c, i as int),
        i <= j <= v.len(),
{
    let mut j: usize = i;
    while j < v.len() && v[j] != c
        invariant
            i <= j <= v.len(),
            find_from(v@, c, i as int) == find_from(v@, c, j as int),
        decreases v.len() - j,
    {
        j += 1;
    }
    j
}

/// The bounds of `v` without its leading and trailing whitespace.
pub fn trim_bounds(v: &Vec<char>) -> (out: (usize, usize))
    ensures
        out.0 <= out.1 <= v.len(),
        v@.subrange(out.0 as int, out.1 as int) == trim(v@),
{
    let a = skip_spaces_from(v, 0);
    let ghost t = trim_start(v@);
    let mut b: usize = v.len();
    while b > a && is_space_char(v[b - 1])
        invariant
            a <= b <= v.len(),
            a == skip_spaces(v@, 0),
            t == v@.subrange(a as int, v.len() as int),
            back_spaces(t, t.len() as int) == back_spaces(t, b - a),
        decreases b,
    {
        assert(t[b - a - 1] == v@[b - 1]);
        b -= 1;
    }
    proof {
        if b > a {
            assert(t[b - a - 1] == v@[b - 1]);
        }
        assert(t.subrange(0, b - a) == v@.subrange(a as int, b as int));
    }
    (a, b)
}

/// A copy of `v[from..to]`.
pub fn slice_of(v: &Vec<char>, from: usize, to: usize) -> (out: Vec<char>)
    requires
        from <= to <= v.len(),
    ensures
        out@ == v@.subrange(from as int, to as int),
{
    let mut out: Vec<char> = Vec::new();
    let mut i: usize = from;
    while i < to
        invariant
            from <= i <= to <= v.len(),
            out@ == v@.subrange(from as int, i as int),
        decreases to - i,
    {
        out.push(v[i]);
        i += 1;
        assert(v@.subrange(from as int, i as int) == v@.subrange(from as int, i - 1).push(
            v@[i - 1],
        ));
    }
    out
}

/// The words of `v`: its maximal runs of characters that are no whitespace.
pub fn split_words(v: &Vec<char>) -> (out: Vec<String>)
    ensures
        texts(out@) == words(v@),
{
    let mut out: Vec<String> = Vec::new();
    let mut pos: usize = 0;
    let n = v.len();
    proof {
        assert(v@.subrange(0, n as int) == v@);
        assert(texts(out@) == Seq::<Seq<char>>::empty());
        assert(Seq::<Seq<char>>::empty() + words(v@) == words(v@));
    }
    loop
        invariant
            pos <= n == v.len(),
            words(v@) == texts(out@) + words(v@.subrange(pos as int, n as int)),
        decreases n - pos,
    {
        let ghost rest = v@.subrange(pos as int, n as int);
        let a = skip_spaces_from(v, pos);
        let b = word_end_from(v, a);
        proof {
            lemma_scan_suffix(v@, pos as int, 0);
            lemma_skip_spaces_bounds(rest, 0);
            lemma_scan_suffix(v@, pos as int, a - pos);
        }
        if a == b {
            assert(words(rest) == Seq::<Seq<char>>::empty());
            assert(texts(out@) + Seq::<Seq<char>>::empty() == texts(out@));
            return out;
        }
        let word = string_of_range(v, a, b);
        proof {
            let before = texts(out@);
            assert(rest.subrange(a - pos, b - pos) == v@.subrange(a as int, b as int));
            assert(rest.subrange(b - pos, rest.len() as int) == v@.subrange(b as int, n as int));
            assert(texts(out@.push(word)) == before.push(word@));
            assert(before + (seq![word@] + words(v@.subrange(b as int, n as int)))
                == before.push(word@) + words(v@.subrange(b as int, n as int)));
        }
        out.push(word);
        pos = b;
    }
}

/// Whether `a` and `b` hold the same characters.
pub fn same_text(a: &Vec<char>, b: &Vec<char>) -> (out: bool)
    ensures
        out == (a@ == b@),
{
    if a.len() != b.len() {
        return false;
    }
    let mut i: usize = 0;
    while i < a.len()
        invariant
            i <= a.len() == b.len(),
            a@.take(i as int) == b@.take(i as int),
        decreases a.len() - i,
    {
        if a[i] != b[i] {
            return false;
        }
        i += 1;
        assert(a@.take(i as int) == a@.take(i - 1).push(a@[i - 1]));
        assert(b@.take(i as int) == b@.take(i - 1).push(b@[i - 1]));
    }
    assert(a@.take(a.len() as int) == a@);
    assert(b@.take(b.len() as int) == b@);
    true
}

/// The decimal digit for `d`.
pub open spec fn digit(d: int) -> char {
    if d == 0 {
        '0'
    } else if d == 1 {
        '1'
    } else if d == 2 {
        '2'
    } else if d == 3 {
        '3'
    } else if d == 4 {
        '4'
    } else if d == 5 {
        '5'
    } else if d == 6 {
        '6'
    } else if d == 7 {
        '7'
    } else if d == 8 {
        '8'
    } else {
        '9'
    }
}

/// The decimal numeral of `n`, without leading zeros.
pub open spec fn decimal(n: nat) -> Seq<char>
    decreases n,
{
    if n < 10 {
        seq![digit(n as int)]
    } else {
        decimal(n / 10).push(digit((n % 10) as int))
    }
}

/// The decimal numeral of `n`, with a minus sign where `n` is negative.
pub open spec fn signed_decimal(n: int) -> Seq<char> {
    if n < 0 {
        seq!['-'] + decimal((-n) as nat)
    } else {
        decimal(n as nat)
    }
}

/// A text of `n` spaces.
pub open spec fn spaces(n: nat) -> Seq<char> {
    Seq::new(n, |i: int| ' ')
}

/// The decimal digit for `d`.
pub fn digit_char(d: u8) -> (out: char)
    requires
        d < 10,
    ensures
        out == digit(d as int),
{
    if d == 0 {
        '0'
    } else if d == 1 {
        '1'
    } else if d == 2 {
        '2'
    } else if d == 3 {
        '3'
    } else if d == 4 {
        '4'
    } else if d == 5 {
        '5'
    } else if d == 6 {
        '6'
    } else if d == 7 {
        '7'
    } else if d == 8 {
        '8'
    } else {
        '9'
    }
}

/// Appends the decimal numeral of `n` to `out`.
pub fn push_decimal(out: &mut Vec<char>, n: u128)
    ensures
        final(out)@ == old(out)@ + decimal(n as nat),
    decreases n,
{
    if n >= 10 {
        push_decimal(out, n / 10);
    }
    let d = (n % 10) as u8;
    out.push(digit_char(d));
    proof {
        if n < 10 {
            assert(old(out)@.push(digit(d as int)) == old(out)@ + seq![digit(d as int)]);
        } else {
            assert((old(out)@ + decimal((n / 10) as nat)).push(digit(d as int)) == old(out)@
                + decimal((n / 10) as nat).push(digit(d as int)));
        }
    }
}

/// Appends the decimal numeral of `n` to `out`, with its sign where negative.
pub fn push_signed_decimal(out: &mut Vec<char>, n: i32)
    ensures
        final(out)@ == old(out)@ + signed_decimal(n as int),
{
    if n < 0 {
        out.push('-');
        let m: u128 = (-(n as i64)) as u128;
        push_decimal(out, m);
        assert(old(out)@.push('-') + decimal(m as nat) == old(out)@ + (seq!['-'] + decimal(
            m as nat,
        )));
    } else {
        push_decimal(out, n as u128);
    }
}

/// Appends `n` spaces to `out`.
pub fn push_spaces(out: &mut Vec<char>, n: usize)
    ensures
        final(out)@ == old(out)@ + spaces(n as nat),
{
    let mut i: usize = 0;
    assert(out@ + spaces(0) == out@);
    while i < n
        invariant
            i <= n,
            out@ == old(out)@ + spaces(i as nat),
        decreases n - i,
    {
        out.push(' ');
        i += 1;
        assert(spaces(i as nat) == spaces((i - 1) as nat).push(' '));
        assert((old(out)@ + spaces((i - 1) as nat)).push(' ') == old(out)@ + spaces(
            (i - 1) as nat,
        ).push(' '));
    }
}

/// Appends the characters of `s` to `out`.
pub fn push_str(out: &mut Vec<char>, s: &str)
    ensures
        final(out)@ == old(out)@ + s@,
{
    let mut more = chars_of(s);
    out.append(&mut more);
}

/// Whether `a` and `b` are the same text.
pub fn same_str(a: &str, b: &str) -> (out: bool)
    ensures
        out == (a@ == b@),
{
    let x = chars_of(a);
    let y = chars_of(b);
    same_text(&x, &y)
}

/// The lines of `text`. A line ends with a line feed; a carriage return just
/// before that line feed belongs to the line's end too. What follows the last
/// line feed is a line where it is not empty.
pub open spec fn lines_of(text: Seq<char>) -> Seq<Seq<char>>
    decreases text.len(),
{
    let n = find_from(text, '\n', 0);
    let raw = text.subrange(0, n);
    if text.len() == 0 {
        Seq::empty()
    } else if 0 <= n < text.len() {
        let line = if raw.len() > 0 && raw.last() == '\r' {
            raw.drop_last()
        } else {
            raw
        };
        seq![line] + lines_of(text.subrange(n + 1, text.len() as int))
    } else {
        seq![text]
    }
}

/// Searching a suffix of `s` is searching `s` from where the suffix starts.
pub proof fn lemma_find_suffix(s: Seq<char>, c: char, p: int, i: int)
    requires
        0 <= p <= s.len(),
        0 <= i <= s.len() - p,
    ensures
        find_from(s.subrange(p, s.len() as int), c, i) + p == find_from(s, c, p + i),
    decreases s.len() - p - i,
{
    let t = s.subrange(p, s.len() as int);
    if i < t.len() {
        assert(t[i] == s[p + i]);
        lemma_find_suffix(s, c, p, i + 1);
    }
}

/// The lines of `text`.
pub fn split_lines(text: &str) -> (out: Vec<String>)
    ensures
        texts(out@) == lines_of(text@),
{
    let v = chars_of(text);
    let n = v.len();
    let mut out: Vec<String> = Vec::new();
    let mut pos: usize = 0;
    proof {
        assert(v@.subrange(0, n as int) == v@);
        assert(texts(out@) == Seq::<Seq<char>>::empty());
        assert(Seq::<Seq<char>>::empty() + lines_of(v@) == lines_of(v@));
    }
    while pos < n
        invariant
            pos <= n == v.len(),
            v@ == text@,
            lines_of(v@) == texts(out@) + lines_of(v@.subrange(pos as int, n as int)),
        decreases n - pos,
    {
        let ghost rest = v@.subrange(pos as int, n as int);
        let ghost before = texts(out@);
        let end = find_char_from(&v, '\n', pos);
        proof {
            lemma_find_suffix(v@, '\n', pos as int, 0);
            assert(rest.subrange(0, end - pos) == v@.subrange(pos as int, end as int));
        }
        if end < n {
            let stop = if end > pos && v[end - 1] == '\r' {
                end - 1
            } else {
                end
            };
            let line = string_of_range(&v, pos, stop);
            proof {
                let raw = rest.subrange(0, end - pos);
                if end > pos && v@[end - 1] == '\r' {
                    assert(raw.last() == v@[end - 1]);
                    assert(raw.drop_last() == v@.subrange(pos as int, stop as int));
                } else if end > pos {
                    assert(raw.last() == v@[end - 1]);
                }
                assert(rest.subrange(end - pos + 1, rest.len() as int) == v@.subrange(
                    end + 1,
                    n as int,
                ));
                assert(texts(out@.push(line)) == before.push(line@));
                assert(before + (seq![line@] + lines_of(v@.subrange(end + 1, n as int)))
                    == before.push(line@) + lines_of(v@.subrange(end + 1, n as int)));
            }
            out.push(line);
            pos = end + 1;
        } else {
            let line = string_of_range(&v, pos, n);
            proof {
                assert(texts(out@.push(line)) == before.push(line@));
                assert(before + seq![rest] == before.push(rest));
                assert(v@.subrange(n as int, n as int) == Seq::<char>::empty());
                assert(before.push(rest) + lines_of(Seq::<char>::empty()) == before.push(rest));
            }
            out.push(line);
            pos = n;
        }
    }
    proof {
        assert(v@.subrange(n as int, n as int) == Seq::<char>::empty());
        assert(texts(out@) + lines_of(Seq::<char>::empty()) == texts(out@));
    }
    out
}

/// Every word of a text is non-empty and holds no whitespace.
pub proof fn lemma_words_sound(s: Seq<char>)
    ensures
        forall|i: int|
            0 <= i < words(s).len() ==> (#[trigger] words(s)[i]).len() > 0 && forall|k: int|
                0 <= k < words(s)[i].len() ==> !is_space(#[trigger] words(s)[i][k]),
    decreases s.len(),
{
    lemma_skip_spaces_bounds(s, 0);
    let a = skip_spaces(s, 0);
    lemma_word_end_bounds(s, a);
    let b = word_end(s, a);
    if a < b {
        let rest = s.subrange(b, s.len() as int);
        lemma_words_sound(rest);
        let first = s.subrange(a, b);
        assert forall|i: int| 0 <= i < words(s).len() implies (#[trigger] words(s)[i]).len() > 0
            && forall|k: int|
            0 <= k < words(s)[i].len() ==> !is_space(#[trigger] words(s)[i][k]) by {
            if i == 0 {
                assert(words(s)[0] == first);
                assert forall|k: int| 0 <= k < first.len() implies !is_space(
                    #[trigger] first[k],
                ) by {
                    assert(first[k] == s[a + k]);
                }
            } else {
                assert(words(s)[i] == words(rest)[i - 1]);
            }
        }
    }
}

} // verus!
