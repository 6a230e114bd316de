//! Character-sequence utilities with their mathematical meaning.
//!
//! Strings are viewed as `Seq<char>` (their Unicode scalar values).  The
//! functions here give the library substring search, prefixes and suffixes,
//! whitespace handling, line splitting and decimal formatting, each proved
//! against a spec function.
use vstd::prelude::*;

verus! {

// ---------------------------------------------------------------------------
// Specifications
// ---------------------------------------------------------------------------

/// `needle` occurs in `hay` at position `i`.
pub open spec fn occurs_at(hay: Seq<char>, needle: Seq<char>, i: int) -> bool {
    0 <= i && i + needle.len() <= hay.len() && hay.subrange(i, i + needle.len()) =~= needle
}

/// `needle` is a (contiguous) substring of `hay`; the empty sequence is a
/// substring of every sequence.
pub open spec fn is_substring(hay: Seq<char>, needle: Seq<char>) -> bool {
    exists|i: int| occurs_at(hay, needle, i)
}

/// `prefix` is a prefix of `s`.
pub open spec fn is_prefix(s: Seq<char>, prefix: Seq<char>) -> bool {
    prefix.len() <= s.len() && s.subrange(0, prefix.len() as int) =~= prefix
}

/// `suffix` is a suffix of `s`.
pub open spec fn is_suffix(s: Seq<char>, suffix: Seq<char>) -> bool {
    suffix.len() <= s.len() && s.subrange(s.len() - suffix.len(), s.len() as int) =~= suffix
}

/// The Unicode `White_Space` property, as `char::is_whitespace` documents it.
pub open spec fn is_white_space(c: char) -> bool {
    ||| ('\u{9}' <= c && c <= '\u{d}')
    ||| c == ' '
    ||| c == '\u{85}'
    ||| c == '\u{a0}'
    ||| c == '\u{1680}'
    ||| ('\u{2000}' <= c && c <= '\u{200a}')
    ||| c == '\u{2028}'
    ||| c == '\u{2029}'
    ||| c == '\u{202f}'
    ||| c == '\u{205f}'
    ||| c == '\u{3000}'
}

/// `s` with every white-space character removed.
pub open spec fn without_white_space(s: Seq<char>) -> Seq<char>
    decreases s.len(),
{
    if s.len() == 0 {
        s
    } else if is_white_space(s.last()) {
        without_white_space(s.drop_last())
    } else {
        without_white_space(s.drop_last()).push(s.last())
    }
}

/// The decimal digit for `d < 10`.
pub open spec fn digit_char(d: nat) -> char {
    if d == 0 { '0' }
    else if d == 1 { '1' }
    else if d == 2 { '2' }
    else if d == 3 { '3' }
    else if d == 4 { '4' }
    else if d == 5 { '5' }
    else if d == 6 { '6' }
    else if d == 7 { '7' }
    else if d == 8 { '8' }
    else { '9' }
}

/// The decimal notation of `n`, without sign or leading zeros ("0" for zero).
pub open spec fn decimal(n: nat) -> Seq<char>
    decreases n,
{
    if n < 10 {
        seq![digit_char(n)]
    } else {
        decimal(n / 10).push(digit_char(n % 10))
    }
}

/// The value of a character that is an ASCII decimal digit.
pub open spec fn digit_value(c: char) -> nat {
    (c as nat - '0' as nat) as nat
}

pub open spec fn is_digit(c: char) -> bool {
    '0' <= c && c <= '9'
}

/// The number written by the decimal digits `s` (0 for the empty sequence).
pub open spec fn digits_value(s: Seq<char>) -> nat
    decreases s.len(),
{
    if s.len() == 0 {
        0
    } else {
        digits_value(s.drop_last()) * 10 + digit_value(s.last())
    }
}

/// The value that `str::parse::<u16>` gives for `s`: an optional `+`,
/// then one or more decimal digits whose value fits in 16 bits.
pub open spec fn sign_stripped(s: Seq<char>) -> Seq<char> {
    if s.len() > 0 && s[0] == '+' { s.drop_first() } else { s }
}

pub open spec fn parsed_u16(s: Seq<char>) -> Option<u16> {
    let digits = sign_stripped(s);
    if digits.len() > 0 && (forall|i: int| 0 <= i < digits.len() ==> is_digit(#[trigger] digits[i]))
        && digits_value(digits) <= 0xffff {
        Some(digits_value(digits) as u16)
    } else {
        None
    }
}

/// The part of `line` without one trailing carriage return.
pub open spec fn strip_cr(line: Seq<char>) -> Seq<char> {
    if line.len() > 0 && line.last() == '\r' { line.drop_last() } else { line }
}

/// Position of the first `'\n'` in `s`, if any.
pub open spec fn first_newline(s: Seq<char>) -> Option<int>
    decreases s.len(),
{
    if s.len() == 0 {
        None
    } else if s[0] == '\n' {
        Some(0)
    } else {
        match first_newline(s.drop_first()) {
            Some(k) => Some(k + 1),
            None => None,
        }
    }
}

/// The lines of `s` as `str::lines` yields them: split at `'\n'`, each
/// without its terminator and without a `'\r'` that precedes the `'\n'`; the
/// last line needs no terminator and an empty remainder yields no line.
pub open spec fn lines(s: Seq<char>) -> Seq<Seq<char>>
    decreases s.len(),
{
    if s.len() == 0 {
        Seq::empty()
    } else {
        match first_newline(s) {
            Some(k) => {
                if 0 <= k < s.len() {
                    seq![strip_cr(s.subrange(0, k))] + lines(s.subrange(k + 1, s.len() as int))
                } else {
                    Seq::empty()
                }
            },
            None => seq![s],
        }
    }
}

/// The Unicode lower-case form of `s`, as `str::to_lowercase` returns it.
pub uninterp spec fn lowercase(s: Seq<char>) -> Seq<char>;

// ---------------------------------------------------------------------------
// Trusted conversions of std
// ---------------------------------------------------------------------------

/// `String::push`: appends one character.
#[verifier::external_body]
pub(crate) fn push_char(s: &mut String, c: char)
    ensures
        final(s)@ == old(s)@.push(c),
{
    s.push(c);
}

/// `str::to_lowercase`: the Unicode lower-case form of `s`.  Its result is
/// named `lowercase`; nothing more is claimed of it.
#[verifier::external_body]
pub(crate) fn to_lowercase(s: &str) -> (res: String)
    ensures
        res@ == lowercase(s@),
{
    s.to_lowercase()
}

// ---------------------------------------------------------------------------
// Executable functions
// ---------------------------------------------------------------------------

/// The characters of `s`, in order.
pub fn chars_of(s: &str) -> (res: Vec<char>)
    ensures
        res@ == s@,
{
    let mut res: Vec<char> = Vec::new();
    for c in it: s.chars()
        invariant
            res@ == it.seq().take(it.index() as int),
    {
        res.push(c);
    }
    res
}

/// A `String` holding the characters of `v`.
pub fn string_from_chars(v: &Vec<char>) -> (res: String)
    ensures
        res@ == v@,
{
    let mut res = String::new();
    let mut i: usize = 0;
    while i < v.len()
        invariant
            i <= v.len(),
            res@ == v@.take(i as int),
        decreases v.len() - i,
    {
        push_char(&mut res, v[i]);
        assert(v@.take(i + 1) =~= v@.take(i as int).push(v@[i as int]));
        i += 1;
    }
    assert(v@.take(v.len() as int) =~= v@);
    res
}

/// A `String` equal to the string slice `s`.
pub fn string_of(s: &str) -> (res: String)
    ensures
        res@ == s@,
{
    s.to_owned()
}

proof fn lemma_digits_value_push(s: Seq<char>, c: char)
    ensures
        digits_value(s.push(c)) == digits_value(s) * 10 + digit_value(c),
{
    assert(s.push(c).drop_last() =~= s);
}

proof fn lemma_digits_value_prefix(s: Seq<char>, k: int)
    requires
        0 <= k <= s.len(),
        forall|i: int| 0 <= i < s.len() ==> is_digit(#[trigger] s[i]),
    ensures
        digits_value(s.take(k)) <= digits_value(s),
    decreases s.len() - k,
{
    if k < s.len() {
        lemma_digits_value_prefix(s, k + 1);
        assert(s.take(k + 1) =~= s.take(k).push(s[k]));
        lemma_digits_value_push(s.take(k), s[k]);
    } else {
        assert(s.take(k) =~= s);
    }
}

/// `str::parse::<u16>`: an optional `+` followed by decimal digits whose
/// value fits in 16 bits; `None` for anything else.
pub fn parse_u16(s: &str) -> (res: Option<u16>)
    ensures
        res == parsed_u16(s@),
{
    let chars = chars_of(s);
    let start: usize = if chars.len() > 0 && chars[0] == '+' { 1 } else { 0 };
    let ghost digits = sign_stripped(s@);
    assert(digits =~= chars@.skip(start as int));
    if start >= chars.len() {
        return None;
    }
    let mut value: u32 = 0;
    let mut i: usize = start;
    while i < chars.len()
        invariant
            chars@ == s@,
            digits == chars@.skip(start as int),
            digits == sign_stripped(s@),
            start <= i <= chars.len(),
            forall|k: int| 0 <= k < i - start ==> is_digit(#[trigger] digits[k]),
            value as nat == digits_value(digits.take(i - start)),
            value <= 0xffff,
        decreases chars.len() - i,
    {
        let c = chars[i];
        if !('0' <= c && c <= '9') {
            assert(!is_digit(digits[i - start]));
            assert(!(forall|k: int| 0 <= k < digits.len() ==> is_digit(#[trigger] digits[k])));
            assert(parsed_u16(s@) is None);
            return None;
        }
        let d = (c as u32) - ('0' as u32);
        proof {
            assert(digits.take(i - start + 1) =~= digits.take(i - start).push(c));
            lemma_digits_value_push(digits.take(i - start), c);
        }
        let next = value * 10 + d;
        if next > 0xffff {
            proof {
                if forall|k: int| 0 <= k < digits.len() ==> is_digit(#[trigger] digits[k]) {
                    lemma_digits_value_prefix(digits, i - start + 1);
                    assert(digits_value(digits) > 0xffff);
                }
                assert(parsed_u16(s@) is None);
            }
            return None;
        }
        value = next;
        i += 1;
    }
    assert(digits.take(digits.len() as int) =~= digits);
    Some(value as u16)
}

/// The number of bytes of the UTF-8 encoding of `s` (`str::len`).
pub fn byte_length(s: &str) -> (n: usize)
    ensures
        n as nat == vstd::utf8::encode_utf8(s@).len(),
{
    let b = s.as_bytes();
    proof {
        vstd::slice::axiom_spec_len(b);
    }
    b.len()
}

/// The number of bytes of the UTF-8 encoding of `c`.
pub fn utf8_width(c: char) -> (w: usize)
    ensures
        w as nat == vstd::utf8::encode_utf8(seq![c]).len(),
        1 <= w <= 4,
{
    let v = c as u32;
    assert(seq![c].drop_first() =~= Seq::<char>::empty());
    assert(seq![c][0] == c);
    assert(vstd::utf8::encode_utf8(Seq::<char>::empty()) =~= Seq::<u8>::empty());
    assert(vstd::utf8::encode_utf8(seq![c]) == vstd::utf8::encode_scalar(v) + vstd::utf8::encode_utf8(
        Seq::<char>::empty(),
    ));
    if v <= 0x7f {
        1
    } else if v <= 0x7ff {
        2
    } else if v <= 0xffff {
        proof {
            vstd::utf8::char_is_scalar(c);
        }
        3
    } else {
        proof {
            vstd::utf8::char_is_scalar(c);
        }
        4
    }
}

/// The encoding of a concatenation is the concatenation of the encodings.
pub proof fn lemma_encode_utf8_concat(a: Seq<char>, b: Seq<char>)
    ensures
        vstd::utf8::encode_utf8(a + b) == vstd::utf8::encode_utf8(a) + vstd::utf8::encode_utf8(b),
    decreases a.len(),
{
    if a.len() > 0 {
        lemma_encode_utf8_concat(a.drop_first(), b);
        assert((a + b).drop_first() =~= a.drop_first() + b);
        assert((a + b)[0] == a[0]);
        assert(vstd::utf8::encode_utf8(a + b) =~= vstd::utf8::encode_scalar(a[0] as u32) + (vstd::utf8::encode_utf8(
            a.drop_first(),
        ) + vstd::utf8::encode_utf8(b)));
    } else {
        assert(a + b =~= b);
    }
}

/// Every character takes at least one byte.
pub proof fn lemma_encode_utf8_single(c: char)
    ensures
        vstd::utf8::encode_utf8(seq![c]).len() >= 1,
{
    assert(seq![c].drop_first() =~= Seq::<char>::empty());
    assert(seq![c][0] == c);
    vstd::utf8::char_is_scalar(c);
}

/// A copy of a vector of strings.
pub fn clone_strings(v: &Vec<String>) -> (res: Vec<String>)
    ensures
        res@ == v@,
{
    let mut res: Vec<String> = Vec::new();
    let mut i: usize = 0;
    while i < v.len()
        invariant
            i <= v.len(),
            res@ == v@.take(i as int),
        decreases v.len() - i,
    {
        res.push(v[i].clone());
        assert(res@ =~= v@.take(i + 1));
        i += 1;
    }
    assert(res@ =~= v@);
    res
}

/// Whether two character vectors are equal.
pub fn chars_eq(a: &Vec<char>, b: &Vec<char>) -> (res: bool)
    ensures
        res == (a@ == b@),
{
    if a.len() != b.len() {
        return false;
    }
    let mut i: usize = 0;
    while i < a.len()
        invariant
            a.len() == b.len(),
            i <= a.len(),
            forall|k: int| 0 <= k < i ==> a@[k] == b@[k],
        decreases a.len() - i,
    {
        if a[i] != b[i] {
            return false;
        }
        i += 1;
    }
    assert(a@ =~= b@);
    true
}

/// Whether two string slices hold the same characters.
pub fn str_eq(a: &str, b: &str) -> (res: bool)
    ensures
        res == (a@ == b@),
{
    let x = chars_of(a);
    let y = chars_of(b);
    chars_eq(&x, &y)
}

/// Whether `needle` occurs in `hay` starting at index `i`.
pub fn occurs_at_exec(hay: &Vec<char>, needle: &Vec<char>, i: usize) -> (res: bool)
    requires
        i + needle.len() <= hay.len(),
    ensures
        res == occurs_at(hay@, needle@, i as int),
{
    let mut k: usize = 0;
    while k < needle.len()
        invariant
            i + needle.len() <= hay.len(),
            k <= needle.len(),
            forall|m: int| 0 <= m < k ==> hay@[i + m] == needle@[m],
        decreases needle.len() - k,
    {
        if hay[i + k] != needle[k] {
            assert(hay@.subrange(i as int, i + needle.len())[k as int] != needle@[k as int]);
            return false;
        }
        k += 1;
    }
    assert(hay@.subrange(i as int, i + needle.len()) =~= needle@);
    true
}

/// Whether `needle` is a substring of `hay`.
pub fn contains_chars(hay: &Vec<char>, needle: &Vec<char>) -> (res: bool)
    ensures
        res == is_substring(hay@, needle@),
{
    if needle.len() > hay.len() {
        assert(!is_substring(hay@, needle@));
        return false;
    }
    let last = hay.len() - needle.len();
    let mut i: usize = 0;
    while i <= last
        invariant
            last == hay.len() - needle.len(),
            needle.len() <= hay.len(),
            forall|j: int| 0 <= j < i ==> !occurs_at(hay@, needle@, j),
        decreases last + 1 - i,
    {
        if occurs_at_exec(hay, needle, i) {
            return true;
        }
        i += 1;
    }
    assert forall|j: int| !occurs_at(hay@, needle@, j) by {
        if 0 <= j && j + needle.len() <= hay.len() {
            assert(j < i);
        }
    }
    false
}

/// `str::contains` with a string pattern.
pub fn str_contains(hay: &str, needle: &str) -> (res: bool)
    ensures
        res == is_substring(hay@, needle@),
{
    let h = chars_of(hay);
    let n = chars_of(needle);
    contains_chars(&h, &n)
}

/// Whether `prefix` is a prefix of `s`.
pub fn starts_with_chars(s: &Vec<char>, prefix: &Vec<char>) -> (res: bool)
    ensures
        res == is_prefix(s@, prefix@),
{
    if prefix.len() > s.len() {
        return false;
    }
    let r = occurs_at_exec(s, prefix, 0);
    r
}

/// Whether `suffix` is a suffix of `s`.
pub fn ends_with_chars(s: &Vec<char>, suffix: &Vec<char>) -> (res: bool)
    ensures
        res == is_suffix(s@, suffix@),
{
    if suffix.len() > s.len() {
        return false;
    }
    let r = occurs_at_exec(s, suffix, s.len() - suffix.len());
    r
}

/// `str::starts_with` with a string pattern.
pub fn str_starts_with(s: &str, prefix: &str) -> (res: bool)
    ensures
        res == is_prefix(s@, prefix@),
{
    let a = chars_of(s);
    let b = chars_of(prefix);
    starts_with_chars(&a, &b)
}

/// `str::ends_with` with a string pattern.
pub fn str_ends_with(s: &str, suffix: &str) -> (res: bool)
    ensures
        res == is_suffix(s@, suffix@),
{
    let a = chars_of(s);
    let b = chars_of(suffix);
    ends_with_chars(&a, &b)
}

/// `char::is_whitespace`.
pub fn char_is_whitespace(c: char) -> (res: bool)
    ensures
        res == is_white_space(c),
{
    ('\u{9}' <= c && c <= '\u{d}') || c == ' ' || c == '\u{85}' || c == '\u{a0}' || c
        == '\u{1680}' || ('\u{2000}' <= c && c <= '\u{200a}') || c == '\u{2028}' || c
        == '\u{2029}' || c == '\u{202f}' || c == '\u{205f}' || c == '\u{3000}'
}

/// The characters of `s` that are not white space, in order.
pub fn remove_whitespace(s: &str) -> (res: String)
    ensures
        res@ == without_white_space(s@),
{
    let v = chars_of(s);
    let mut res = String::new();
    let mut i: usize = 0;
    while i < v.len()
        invariant
            i <= v.len(),
            res@ == without_white_space(v@.take(i as int)),
        decreases v.len() - i,
    {
        let c = v[i];
        assert(v@.take(i + 1).drop_last() =~= v@.take(i as int));
        if !char_is_whitespace(c) {
            push_char(&mut res, c);
        }
        i += 1;
    }
    assert(v@.take(v.len() as int) =~= v@);
    res
}

/// The character sequences of a sequence of strings.
pub open spec fn string_views(v: Seq<String>) -> Seq<Seq<char>> {
    Seq::new(v.len(), |i: int| v[i]@)
}

proof fn lemma_first_newline_at(t: Seq<char>, k: int)
    requires
        0 <= k < t.len(),
        t[k] == '\n',
        forall|j: int| 0 <= j < k ==> t[j] != '\n',
    ensures
        first_newline(t) == Some(k),
    decreases k,
{
    if k > 0 {
        lemma_first_newline_at(t.drop_first(), k - 1);
    }
}

proof fn lemma_no_newline(t: Seq<char>)
    requires
        forall|j: int| 0 <= j < t.len() ==> t[j] != '\n',
    ensures
        first_newline(t) == None::<int>,
    decreases t.len(),
{
    if t.len() > 0 {
        lemma_no_newline(t.drop_first());
    }
}

/// `s` without one trailing carriage return.
fn strip_cr_chars(line: &Vec<char>) -> (res: Vec<char>)
    ensures
        res@ == strip_cr(line@),
{
    let mut res = line.clone();
    if res.len() > 0 && res[res.len() - 1] == '\r' {
        res.pop();
    }
    res
}

/// The lines of `s`, as `str::lines` yields them.
pub fn split_lines(s: &str) -> (res: Vec<String>)
    ensures
        string_views(res@) == lines(s@),
{
    let v = chars_of(s);
    let ghost full = v@;
    let mut res: Vec<String> = Vec::new();
    let mut current: Vec<char> = Vec::new();
    let mut start: usize = 0;
    let mut i: usize = 0;
    assert(full.subrange(0, full.len() as int) =~= full);
    assert(string_views(res@) =~= Seq::<Seq<char>>::empty());
    assert(string_views(res@) + lines(full) =~= lines(full));
    while i < v.len()
        invariant
            v@ == full,
            start <= i <= v.len(),
            current@ == full.subrange(start as int, i as int),
            forall|j: int| start <= j < i ==> full[j] != '\n',
            string_views(res@) + lines(full.subrange(start as int, full.len() as int)) == lines(full),
        decreases v.len() - i,
    {
        if v[i] == '\n' {
            let ghost t = full.subrange(start as int, full.len() as int);
            proof {
                lemma_first_newline_at(t, i - start);
                assert(t.subrange(0, i - start) =~= full.subrange(start as int, i as int));
                assert(t.subrange(i - start + 1, t.len() as int) =~= full.subrange(i + 1, full.len() as int));
            }
            let line = strip_cr_chars(&current);
            let line_s = string_from_chars(&line);
            let ghost before = string_views(res@);
            res.push(line_s);
            assert(string_views(res@) =~= before.push(line@));
            assert(string_views(res@) + lines(full.subrange(i + 1, full.len() as int)) =~= before + lines(t));
            current = Vec::new();
            start = i + 1;
        } else {
            current.push(v[i]);
            assert(current@ =~= full.subrange(start as int, i + 1));
        }
        i += 1;
    }
    if start < v.len() {
        let ghost t = full.subrange(start as int, full.len() as int);
        proof {
            lemma_no_newline(t);
        }
        let line_s = string_from_chars(&current);
        let ghost before = string_views(res@);
        res.push(line_s);
        assert(string_views(res@) =~= before.push(t));
        assert(lines(t) =~= seq![t]);
    } else {
        assert(full.subrange(start as int, full.len() as int) =~= Seq::<char>::empty());
    }
    assert(string_views(res@) =~= lines(full));
    res
}

/// The character of the decimal digit `d`.
pub fn digit_exec(d: usize) -> (c: char)
    requires
        d < 10,
    ensures
        c == digit_char(d as nat),
        is_digit(c),
{
    if d == 0 { '0' }
    else if d == 1 { '1' }
    else if d == 2 { '2' }
    else if d == 3 { '3' }
    else if d == 4 { '4' }
    else if d == 5 { '5' }
    else if d == 6 { '6' }
    else if d == 7 { '7' }
    else if d == 8 { '8' }
    else { '9' }
}

/// Appends the decimal notation of `n` to `res`.
pub fn push_decimal(res: &mut String, n: usize)
    ensures
        final(res)@ == old(res)@ + decimal(n as nat),
    decreases n,
{
    if n >= 10 {
        push_decimal(res, n / 10);
    }
    let c = digit_exec(n % 10);
    push_char(res, c);
    proof {
        if n >= 10 {
            assert(decimal(n as nat) == decimal((n / 10) as nat).push(digit_char((n % 10) as nat)));
        }
    }
    assert(final(res)@ =~= old(res)@ + decimal(n as nat));
}

/// The decimal notation of `n`.
pub fn usize_to_decimal(n: usize) -> (res: String)
    ensures
        res@ == decimal(n as nat),
{
    let mut res = String::new();
    push_decimal(&mut res, n);
    assert(res@ =~= decimal(n as nat));
    res
}


/// The position of the last occurrence of `c` in `s`.
pub open spec fn last_index_of(s: Seq<char>, c: char) -> Option<int>
    decreases s.len(),
{
    if s.len() == 0 {
        None
    } else if s.last() == c {
        Some(s.len() - 1)
    } else {
        last_index_of(s.drop_last(), c)
    }
}

/// The part of `s` after the last occurrence of `c`; all of `s` when `c`
/// does not occur in it.  This is the last piece of `str::split(c)`.
pub open spec fn after_last(s: Seq<char>, c: char) -> Seq<char> {
    match last_index_of(s, c) {
        Some(k) => s.subrange(k + 1, s.len() as int),
        None => s,
    }
}

/// `last_index_of` finds the last occurrence, or reports that there is none.
pub(crate) proof fn lemma_last_index_of(s: Seq<char>, c: char)
    ensures
        match last_index_of(s, c) {
            Some(k) => 0 <= k < s.len() && s[k] == c && forall|j: int| k < j < s.len() ==> s[j] != c,
            None => forall|j: int| 0 <= j < s.len() ==> s[j] != c,
        },
    decreases s.len(),
{
    if s.len() > 0 {
        let d = s.drop_last();
        lemma_last_index_of(d, c);
        if s.last() != c {
            assert forall|j: int| 0 <= j < s.len() - 1 implies s[j] == d[j] by {}
        }
    }
}

/// The last occurrence is the one after which `c` does not occur.
pub(crate) proof fn lemma_last_index_unique(s: Seq<char>, c: char, k: int)
    requires
        0 <= k < s.len(),
        s[k] == c,
        forall|j: int| k < j < s.len() ==> s[j] != c,
    ensures
        last_index_of(s, c) == Some(k),
    decreases s.len(),
{
    if s.last() != c {
        lemma_last_index_unique(s.drop_last(), c, k);
    }
}

/// The last piece of `s` split at `c`.
pub fn split_last_piece(s: &str, c: char) -> (res: String)
    ensures
        res@ == after_last(s@, c),
{
    let chars = chars_of(s);
    let mut k: usize = chars.len();
    while k > 0
        invariant
            chars@ == s@,
            k <= chars.len(),
            forall|j: int| k <= j < chars.len() ==> chars@[j] != c,
        decreases k,
    {
        if chars[k - 1] == c {
            proof {
                lemma_last_index_unique(chars@, c, k - 1);
            }
            let mut res = String::new();
            let mut i: usize = k;
            while i < chars.len()
                invariant
                    chars@ == s@,
                    1 <= k <= i <= chars.len(),
                    res@ == chars@.subrange(k as int, i as int),
                decreases chars.len() - i,
            {
                push_char(&mut res, chars[i]);
                assert(chars@.subrange(k as int, i + 1) =~= chars@.subrange(k as int, i as int).push(chars@[i as int]));
                i += 1;
            }
            return res;
        }
        k -= 1;
    }
    proof {
        lemma_last_index_of(chars@, c);
        if last_index_of(chars@, c) is Some {
            let j = last_index_of(chars@, c)->0;
            assert(chars@[j] == c);
        }
    }
    string_of(s)
}

/// Appending `v` adds exactly `v` to what a sequence contains.
pub proof fn lemma_contains_push<A>(s: Seq<A>, v: A)
    ensures
        forall|x: A| #[trigger] s.push(v).contains(x) <==> (s.contains(x) || x == v),
{
    assert forall|x: A| #[trigger] s.push(v).contains(x) <==> (s.contains(x) || x == v) by {
        if s.contains(x) {
            let i = choose|i: int| 0 <= i < s.len() && s[i] == x;
            assert(s.push(v)[i] == x);
        }
        if x == v {
            assert(s.push(v)[s.len() as int] == v);
        }
        if s.push(v).contains(x) {
            let i = choose|i: int| 0 <= i < s.push(v).len() && s.push(v)[i] == x;
            if i < s.len() {
                assert(s[i] == x);
            }
        }
    }
}

/// A concatenation contains what either part contains.
pub proof fn lemma_contains_concat<A>(a: Seq<A>, b: Seq<A>)
    ensures
        forall|x: A| #[trigger] (a + b).contains(x) <==> (a.contains(x) || b.contains(x)),
{
    assert forall|x: A| #[trigger] (a + b).contains(x) <==> (a.contains(x) || b.contains(x)) by {
        if (a + b).contains(x) {
            let i = choose|i: int| 0 <= i < (a + b).len() && (a + b)[i] == x;
            if i < a.len() {
                assert(a[i] == x);
            } else {
                assert(b[i - a.len()] == x);
            }
        }
        if a.contains(x) {
            let i = choose|i: int| 0 <= i < a.len() && a[i] == x;
            assert((a + b)[i] == x);
        }
        if b.contains(x) {
            let i = choose|i: int| 0 <= i < b.len() && b[i] == x;
            assert((a + b)[i + a.len()] == x);
        }
    }
}

/// Adds `s` to `acc` unless `acc` holds it already.
pub fn push_distinct(acc: &mut Vec<String>, s: &String)
    requires
        string_views(old(acc)@).no_duplicates(),
    ensures
        string_views(final(acc)@).no_duplicates(),
        forall|p: Seq<char>| #[trigger] string_views(final(acc)@).contains(p) <==> (string_views(old(acc)@).contains(p) || p == s@),
{
    let ghost before = string_views(acc@);
    let mut k: usize = 0;
    while k < acc.len()
        invariant
            before == string_views(acc@),
            before.no_duplicates(),
            k <= acc.len(),
            forall|m: int| 0 <= m < k ==> before[m] != s@,
        decreases acc.len() - k,
    {
        if acc[k] == *s {
            assert(before[k as int] == s@);
            return;
        }
        k += 1;
    }
    acc.push(s.clone());
    assert(string_views(acc@) =~= before.push(s@));
    proof {
        lemma_contains_push(before, s@);
    }
}

proof fn lemma_digit_char_value(k: nat)
    requires
        k < 10,
    ensures
        digit_value(digit_char(k)) == k,
        is_digit(digit_char(k)),
{
}

/// The decimal notation of `n` is a non-empty string of digits whose value
/// is `n`.
pub proof fn lemma_decimal_digits(n: nat)
    ensures
        decimal(n).len() >= 1,
        forall|i: int| 0 <= i < decimal(n).len() ==> is_digit(#[trigger] decimal(n)[i]),
        digits_value(decimal(n)) == n,
    decreases n,
{
    if n < 10 {
        lemma_digit_char_value(n);
        let s = seq![digit_char(n)];
        assert(decimal(n) == s);
        assert(s.drop_last() =~= Seq::<char>::empty());
        assert(s.last() == digit_char(n));
        assert(digits_value(s) == digits_value(s.drop_last()) * 10 + digit_value(s.last()));
        assert(digits_value(Seq::<char>::empty()) == 0);
    } else {
        lemma_digit_char_value(n % 10);
        lemma_decimal_digits(n / 10);
        let d = decimal(n / 10);
        let s = decimal(n);
        assert(s == d.push(digit_char(n % 10)));
        assert(s.drop_last() =~= d);
        assert forall|i: int| 0 <= i < s.len() implies is_digit(#[trigger] s[i]) by {
            if i < d.len() {
                assert(s[i] == d[i]);
            }
        }
        assert((n / 10) * 10 + n % 10 == n) by (nonlinear_arith);
        assert(s.last() == digit_char(n % 10));
        assert(digits_value(s) == digits_value(d) * 10 + digit_value(digit_char(n % 10)));
    }
}

/// Reading back the decimal notation of a 16-bit number gives the number.
pub proof fn lemma_parse_decimal_u16(p: u16)
    ensures
        parsed_u16(decimal(p as nat)) == Some(p),
{
    lemma_decimal_digits(p as nat);
    let d = decimal(p as nat);
    assert(is_digit(d[0]));
    assert(sign_stripped(d) == d);
}

} // verus!
