//! Character-sequence helpers shared by the parsers and formatters:
//! decimal rendering, decimal parsing (as `str::parse` for unsigned
//! integers does it), substring search and lexicographic comparison.

use vstd::prelude::*;

verus! {

broadcast use vstd::string::group_string_axioms;

// ---------------------------------------------------------------------
// Building strings
// ---------------------------------------------------------------------

/// Appends one character to a string (`String::push`).
#[verifier::external_body]
pub(crate) fn push_char(s: &mut String, c: char)
    ensures
        final(s)@ == old(s)@.push(c),
{
    s.push(c)
}

/// The characters of `s`, in order.
pub fn chars_of(s: &str) -> (r: Vec<char>)
    ensures
        r@ == s@,
{
    let mut r: Vec<char> = Vec::new();
    for c in it: s.chars()
        invariant
            r@ == it.seq().take(it.index()),
    {
        r.push(c);
    }
    r
}

/// Appends the characters `t[from..to]` to `s`.
pub fn push_range(s: &mut String, t: &Vec<char>, from: usize, to: usize)
    requires
        from <= to <= t@.len(),
    ensures
        final(s)@ == old(s)@ + t@.subrange(from as int, to as int),
{
    let mut i = from;
    while i < to
        invariant
            from <= i <= to <= t@.len(),
            s@ == old(s)@ + t@.subrange(from as int, i as int),
        decreases to - i,
    {
        push_char(s, t[i]);
        i = i + 1;
        assert(s@ =~= old(s)@ + t@.subrange(from as int, i as int));
    }
}

/// The string holding exactly the characters `t[from..to]`.
pub fn string_of_range(t: &Vec<char>, from: usize, to: usize) -> (r: String)
    requires
        from <= to <= t@.len(),
    ensures
        r@ == t@.subrange(from as int, to as int),
{
    let mut r = String::new();
    push_range(&mut r, t, from, to);
    assert(r@ =~= t@.subrange(from as int, to as int));
    r
}

// ---------------------------------------------------------------------
// Decimal numbers
// ---------------------------------------------------------------------

/// The character of decimal digit `d`.
pub open spec fn digit_char(d: int) -> char {
    if d == 0 {
        '0'
    } else if d == 1 {
        '1'
    } else if d == 2 {
        '2'
    } else if d == 3 {
        '3'
    } else if d == 4 {
        '4'
    } else if d == 5 {
        '5'
    } else if d == 6 {
        '6'
    } else if d == 7 {
        '7'
    } else if d == 8 {
        '8'
    } else {
        '9'
    }
}

/// The decimal rendering of `n`: no sign, no leading zeros, `"0"` for zero.
pub open spec fn decimal(n: nat) -> Seq<char>
    decreases n,
{
    if n < 10 {
        seq![digit_char(n as int)]
    } else {
        decimal(n / 10).push(digit_char((n % 10) as int))
    }
}

pub open spec fn is_ascii_digit(c: char) -> bool {
    '0' <= c && c <= '9'
}

pub open spec fn all_digits(s: Seq<char>) -> bool {
    forall|i: int| 0 <= i < s.len() ==> #[trigger] is_ascii_digit(s[i])
}

/// The value of a digit character.
pub open spec fn digit_value(c: char) -> nat {
    ((c as u32) - ('0' as u32)) as nat
}

/// The value of a sequence of decimal digits, most significant first.
pub open spec fn digits_value(s: Seq<char>) -> nat
    decreases s.len(),
{
    if s.len() == 0 {
        0
    } else {
        digits_value(s.drop_last()) * 10 + digit_value(s.last())
    }
}

/// The digits that `str::parse` reads for an unsigned integer: a single
/// leading `+` is skipped.
pub open spec fn unsigned_digits(s: Seq<char>) -> Seq<char> {
    if s.len() > 0 && s[0] == '+' {
        s.drop_first()
    } else {
        s
    }
}

/// What `str::parse` gives for an unsigned integer type whose largest value
/// is `max`: the value when `s` is an optional `+` followed by at least one
/// decimal digit and nothing else, and the value does not exceed `max`.
pub open spec fn parse_unsigned(s: Seq<char>, max: nat) -> Option<nat> {
    let d = unsigned_digits(s);
    if d.len() > 0 && all_digits(d) && digits_value(d) <= max {
        Some(digits_value(d))
    } else {
        None
    }
}

pub proof fn lemma_digit_char_is_digit(d: int)
    requires
        0 <= d < 10,
    ensures
        is_ascii_digit(digit_char(d)),
        digit_value(digit_char(d)) == d,
        digit_char(d) != '-' && digit_char(d) != ' ' && digit_char(d) != ',',
{
}

/// Every character of a decimal rendering is a digit, and reading it back
/// gives the number.
pub proof fn lemma_decimal_digits(n: nat)
    ensures
        decimal(n).len() > 0,
        all_digits(decimal(n)),
        digits_value(decimal(n)) == n,
    decreases n,
{
    if n < 10 {
        lemma_digit_char_is_digit(n as int);
        assert(decimal(n).drop_last() =~= Seq::<char>::empty());
        assert(digits_value(Seq::<char>::empty()) == 0);
        assert(decimal(n).last() == digit_char(n as int));
    } else {
        lemma_decimal_digits(n / 10);
        lemma_digit_char_is_digit((n % 10) as int);
        assert(decimal(n).drop_last() =~= decimal(n / 10));
        assert(decimal(n).last() == digit_char((n % 10) as int));
        assert(digits_value(decimal(n)) == digits_value(decimal(n / 10)) * 10 + digit_value(
            digit_char((n % 10) as int),
        ));
        assert((n / 10) * 10 + n % 10 == n);
    }
}

/// A prefix of a digit sequence never has a larger value.
pub proof fn lemma_digits_value_prefix(s: Seq<char>, i: int)
    requires
        0 <= i <= s.len(),
        all_digits(s),
    ensures
        digits_value(s.take(i)) <= digits_value(s),
    decreases s.len(),
{
    if i < s.len() {
        let p = s.drop_last();
        assert(all_digits(p)) by {
            assert forall|k: int| 0 <= k < p.len() implies #[trigger] is_ascii_digit(p[k]) by {
                assert(p[k] == s[k]);
            }
        }
        lemma_digits_value_prefix(p, i);
        assert(p.take(i) =~= s.take(i));
    } else {
        assert(s.take(i) =~= s);
    }
}

/// The character of digit `d`.
pub fn digit(d: u64) -> (c: char)
    requires
        d < 10,
    ensures
        c == digit_char(d as int),
{
    if d == 0 {
        '0'
    } else if d == 1 {
        '1'
    } else if d == 2 {
        '2'
    } else if d == 3 {
        '3'
    } else if d == 4 {
        '4'
    } else if d == 5 {
        '5'
    } else if d == 6 {
        '6'
    } else if d == 7 {
        '7'
    } else if d == 8 {
        '8'
    } else {
        '9'
    }
}

/// Appends the decimal rendering of `n` (the `Display` of unsigned integers).
pub fn push_decimal(s: &mut String, n: u64)
    ensures
        final(s)@ == old(s)@ + decimal(n as nat),
    decreases n,
{
    if n >= 10 {
        push_decimal(s, n / 10);
    }
    push_char(s, digit(n % 10));
    assert(s@ =~= old(s)@ + decimal(n as nat));
}

/// A lower-case hexadecimal digit.
pub open spec fn hex_digit(d: int) -> char {
    if d < 10 {
        digit_char(d)
    } else if d == 10 {
        'a'
    } else if d == 11 {
        'b'
    } else if d == 12 {
        'c'
    } else if d == 13 {
        'd'
    } else if d == 14 {
        'e'
    } else {
        'f'
    }
}

/// `format!("{:02x}", b)`.
pub open spec fn hex_byte(b: u8) -> Seq<char> {
    seq![hex_digit((b / 16) as int), hex_digit((b % 16) as int)]
}

pub fn hex_digit_char(d: u8) -> (c: char)
    requires
        d < 16,
    ensures
        c == hex_digit(d as int),
{
    if d < 10 {
        digit(d as u64)
    } else if d == 10 {
        'a'
    } else if d == 11 {
        'b'
    } else if d == 12 {
        'c'
    } else if d == 13 {
        'd'
    } else if d == 14 {
        'e'
    } else {
        'f'
    }
}

/// Appends `format!("{:02x}", b)`.
pub fn push_hex_byte(s: &mut String, b: u8)
    ensures
        final(s)@ == old(s)@ + hex_byte(b),
{
    push_char(s, hex_digit_char(b / 16));
    push_char(s, hex_digit_char(b % 16));
    assert(s@ =~= old(s)@ + hex_byte(b));
}

/// The decimal rendering of a byte.
pub open spec fn decimal_u8(b: u8) -> Seq<char> {
    decimal(b as nat)
}

/// Appends the decimal rendering of a byte.
pub fn push_decimal_u8(s: &mut String, b: u8)
    ensures
        final(s)@ == old(s)@ + decimal_u8(b),
{
    push_decimal(s, b as u64);
}

/// Appends the decimal rendering of a `usize`.
pub fn push_decimal_usize(s: &mut String, n: usize)
    ensures
        final(s)@ == old(s)@ + decimal(n as nat),
{
    push_decimal(s, n as u64);
}

/// Reads `t[from..to]` as `str::parse` reads an unsigned integer whose
/// largest value is `max`.
pub fn parse_unsigned_range(t: &Vec<char>, from: usize, to: usize, max: u64) -> (r: Option<u64>)
    requires
        from <= to <= t@.len(),
        max <= 0xffff_ffff,
    ensures
        match r {
            Some(v) => parse_unsigned(t@.subrange(from as int, to as int), max as nat) == Some(
                v as nat,
            ),
            None => parse_unsigned(t@.subrange(from as int, to as int), max as nat) is None,
        },
{
    let ghost s = t@.subrange(from as int, to as int);
    let mut start = from;
    if from < to && t[from] == '+' {
        start = from + 1;
    }
    let ghost d = t@.subrange(start as int, to as int);
    assert(d =~= unsigned_digits(s));
    if start == to {
        return None;
    }
    let mut acc: u64 = 0;
    let mut i = start;
    while i < to
        invariant
            from <= start <= i <= to <= t@.len(),
            start < to,
            max <= 0xffff_ffff,
            d == t@.subrange(start as int, to as int),
            d == unsigned_digits(s),
            s == t@.subrange(from as int, to as int),
            acc <= max,
            acc == digits_value(t@.subrange(start as int, i as int)),
            all_digits(t@.subrange(start as int, i as int)),
        decreases to - i,
    {
        let c = t[i];
        if !('0' <= c && c <= '9') {
            assert(d[i - start] == c);
            assert(!is_ascii_digit(d[i - start]));
            return None;
        }
        let ghost prefix = t@.subrange(start as int, i as int + 1);
        assert(prefix.drop_last() =~= t@.subrange(start as int, i as int));
        assert(prefix.last() == c);
        let v = (c as u32 - '0' as u32) as u64;
        acc = acc * 10 + v;
        assert(all_digits(prefix)) by {
            assert forall|k: int| 0 <= k < prefix.len() implies #[trigger] is_ascii_digit(
                prefix[k],
            ) by {
                if k < prefix.len() - 1 {
                    assert(prefix[k] == t@.subrange(start as int, i as int)[k]);
                }
            }
        }
        if acc > max {
            proof {
                let k = i - start + 1;
                if all_digits(d) {
                    lemma_digits_value_prefix(d, k);
                    assert(d.take(k) =~= prefix);
                }
            }
            return None;
        }
        i = i + 1;
    }
    assert(t@.subrange(start as int, i as int) =~= d);
    Some(acc)
}

/// Whether two texts are equal.
pub fn text_eq(a: &str, b: &str) -> (r: bool)
    ensures
        r == (a@ == b@),
{
    let x = chars_of(a);
    let y = chars_of(b);
    if x.len() != y.len() {
        assert(x@.len() != y@.len());
        return false;
    }
    let mut i: usize = 0;
    while i < x.len()
        invariant
            x@ == a@,
            y@ == b@,
            x@.len() == y@.len(),
            0 <= i <= x@.len(),
            forall|j: int| 0 <= j < i ==> x@[j] == y@[j],
        decreases x@.len() - i,
    {
        if x[i] != y[i] {
            assert(x@[i as int] != y@[i as int]);
            return false;
        }
        i = i + 1;
    }
    assert(x@ =~= y@);
    true
}

// ---------------------------------------------------------------------
// Searching
// ---------------------------------------------------------------------

/// `needle` occurs in `hay` at position `i`.
pub open spec fn matches_at(hay: Seq<char>, needle: Seq<char>, i: int) -> bool {
    0 <= i && i + needle.len() <= hay.len() && hay.subrange(i, i + needle.len()) == needle
}

/// The first position at or after `i` where `needle` occurs in `hay`
/// (`hay[i..].find(needle)`, counted from the start of `hay`).
pub open spec fn find_from(hay: Seq<char>, needle: Seq<char>, i: nat) -> Option<nat>
    decreases hay.len() - i,
{
    if i + needle.len() > hay.len() {
        None
    } else if matches_at(hay, needle, i as int) {
        Some(i)
    } else if i >= hay.len() {
        None
    } else {
        find_from(hay, needle, i + 1)
    }
}

/// `hay.find(needle)`.
pub open spec fn find(hay: Seq<char>, needle: Seq<char>) -> Option<nat> {
    find_from(hay, needle, 0)
}

/// `hay.contains(needle)`.
pub open spec fn contains(hay: Seq<char>, needle: Seq<char>) -> bool {
    find(hay, needle) is Some
}

/// When `needle` occurs at `k` and nowhere in `[i, k)`, the search from `i`
/// finds `k`.
pub proof fn lemma_find_from_first(hay: Seq<char>, needle: Seq<char>, i: nat, k: nat)
    requires
        i <= k,
        matches_at(hay, needle, k as int),
        forall|j: int| i <= j < k ==> !#[trigger] matches_at(hay, needle, j),
    ensures
        find_from(hay, needle, i) == Some(k),
    decreases k - i,
{
    if i < k {
        lemma_find_from_first(hay, needle, i + 1, k);
    }
}

/// When `needle` occurs nowhere at or after `i`, the search from `i` finds
/// nothing.
pub proof fn lemma_find_from_none(hay: Seq<char>, needle: Seq<char>, i: nat)
    requires
        forall|j: int| i <= j ==> !#[trigger] matches_at(hay, needle, j),
    ensures
        find_from(hay, needle, i) is None,
    decreases hay.len() - i,
{
    if i + needle.len() <= hay.len() && i < hay.len() {
        lemma_find_from_none(hay, needle, i + 1);
    }
}

/// What a search returns: a match, with no earlier one.
pub proof fn lemma_find_from_result(hay: Seq<char>, needle: Seq<char>, i: nat)
    ensures
        match find_from(hay, needle, i) {
            Some(k) => i <= k && matches_at(hay, needle, k as int) && forall|j: int|
                i <= j < k ==> !#[trigger] matches_at(hay, needle, j),
            None => forall|j: int| i <= j ==> !#[trigger] matches_at(hay, needle, j),
        },
    decreases hay.len() - i,
{
    if i + needle.len() > hay.len() {
    } else if matches_at(hay, needle, i as int) {
    } else if i >= hay.len() {
        assert(hay.subrange(i as int, i + needle.len() as int) =~= needle);
    } else {
        lemma_find_from_result(hay, needle, i + 1);
    }
}

/// Whether `needle` occurs in `hay` at position `i`.
pub fn matches_at_exec(hay: &Vec<char>, needle: &Vec<char>, i: usize) -> (r: bool)
    ensures
        r == matches_at(hay@, needle@, i as int),
{
    if i > hay.len() || needle.len() > hay.len() - i {
        return false;
    }
    let mut k: usize = 0;
    let hl = hay.len();
    while k < needle.len()
        invariant
            hl == hay@.len(),
            i + needle@.len() <= hay@.len(),
            0 <= k <= needle@.len(),
            forall|j: int| 0 <= j < k ==> hay@[i + j] == needle@[j],
        decreases needle.len() - k,
    {
        assert(i + k < hay@.len());
        if hay[i + k] != needle[k] {
            assert(hay@.subrange(i as int, i + needle@.len())[k as int] != needle@[k as int]);
            return false;
        }
        k = k + 1;
    }
    assert(hay@.subrange(i as int, i + needle@.len()) =~= needle@);
    true
}

/// `hay[from..].find(needle)`, counted from the start of `hay`.
pub fn find_from_exec(hay: &Vec<char>, needle: &Vec<char>, from: usize) -> (r: Option<usize>)
    ensures
        match r {
            Some(k) => find_from(hay@, needle@, from as nat) == Some(k as nat),
            None => find_from(hay@, needle@, from as nat) is None,
        },
{
    let mut i = from;
    loop
        invariant
            from <= i,
            find_from(hay@, needle@, from as nat) == find_from(hay@, needle@, i as nat),
        decreases hay@.len() + 1 - i,
    {
        if i > hay.len() || needle.len() > hay.len() - i {
            return None;
        }
        if matches_at_exec(hay, needle, i) {
            return Some(i);
        }
        if i >= hay.len() {
            return None;
        }
        i = i + 1;
    }
}

/// A separator of the flags field: a comma or a space.
pub open spec fn is_field_separator(c: char) -> bool {
    c == ',' || c == ' '
}

/// The first position at or after `i` holding a comma or a space.
pub open spec fn find_separator_from(s: Seq<char>, i: nat) -> Option<nat>
    decreases s.len() - i,
{
    if i >= s.len() {
        None
    } else if is_field_separator(s[i as int]) {
        Some(i)
    } else {
        find_separator_from(s, i + 1)
    }
}

pub fn find_separator_from_exec(s: &Vec<char>, from: usize) -> (r: Option<usize>)
    ensures
        match r {
            Some(k) => find_separator_from(s@, from as nat) == Some(k as nat),
            None => find_separator_from(s@, from as nat) is None,
        },
{
    let mut i = from;
    while i < s.len()
        invariant
            from <= i,
            find_separator_from(s@, from as nat) == find_separator_from(s@, i as nat),
        decreases s@.len() - i,
    {
        if s[i] == ',' || s[i] == ' ' {
            return Some(i);
        }
        i = i + 1;
    }
    None
}

// ---------------------------------------------------------------------
// Trimming
// ---------------------------------------------------------------------

/// A character with the Unicode `White_Space` property (`char::is_whitespace`).
pub open spec fn is_white_space(c: char) -> bool {
    ('\u{9}' <= c && c <= '\u{d}') || c == ' ' || c == '\u{85}' || c == '\u{a0}' || c
        == '\u{1680}' || ('\u{2000}' <= c && c <= '\u{200a}') || c == '\u{2028}' || c
        == '\u{2029}' || c == '\u{202f}' || c == '\u{205f}' || c == '\u{3000}'
}

pub fn is_white_space_exec(c: char) -> (r: bool)
    ensures
        r == is_white_space(c),
{
    ('\u{9}' <= c && c <= '\u{d}') || c == ' ' || c == '\u{85}' || c == '\u{a0}' || c
        == '\u{1680}' || ('\u{2000}' <= c && c <= '\u{200a}') || c == '\u{2028}' || c
        == '\u{2029}' || c == '\u{202f}' || c == '\u{205f}' || c == '\u{3000}'
}

/// First position in `[i, end)` whose character is not white space, or `end`.
pub open spec fn trim_start_from(s: Seq<char>, i: int, end: int) -> int
    decreases end - i,
{
    if i >= end {
        end
    } else if is_white_space(s[i]) {
        trim_start_from(s, i + 1, end)
    } else {
        i
    }
}

/// One past the last position in `[start, j)` whose character is not white
/// space, or `start`.
pub open spec fn trim_end_from(s: Seq<char>, start: int, j: int) -> int
    decreases j - start,
{
    if j <= start {
        start
    } else if is_white_space(s[j - 1]) {
        trim_end_from(s, start, j - 1)
    } else {
        j
    }
}

/// `s[from..to].trim()`: the text without leading and trailing white space.
pub open spec fn trimmed(s: Seq<char>, from: int, to: int) -> Seq<char> {
    let a = trim_start_from(s, from, to);
    s.subrange(a, trim_end_from(s, a, to))
}

pub proof fn lemma_trim_bounds(s: Seq<char>, from: int, to: int)
    requires
        0 <= from <= to <= s.len(),
    ensures
        from <= trim_start_from(s, from, to) <= to,
        trim_start_from(s, from, to) <= trim_end_from(s, trim_start_from(s, from, to), to) <= to,
    decreases to - from,
{
    if from < to && is_white_space(s[from]) {
        lemma_trim_bounds(s, from + 1, to);
    }
    lemma_trim_end_bounds(s, trim_start_from(s, from, to), to);
}

proof fn lemma_trim_end_bounds(s: Seq<char>, start: int, j: int)
    requires
        start <= j,
    ensures
        start <= trim_end_from(s, start, j) <= j,
    decreases j - start,
{
    if j > start && is_white_space(s[j - 1]) {
        lemma_trim_end_bounds(s, start, j - 1);
    }
}

/// Appends `t[from..to].trim()` to `s`.
pub fn push_trimmed(s: &mut String, t: &Vec<char>, from: usize, to: usize)
    requires
        from <= to <= t@.len(),
    ensures
        final(s)@ == old(s)@ + trimmed(t@, from as int, to as int),
{
    let mut a = from;
    while a < to && is_white_space_exec(t[a])
        invariant
            from <= a <= to <= t@.len(),
            trim_start_from(t@, from as int, to as int) == trim_start_from(t@, a as int, to as int),
        decreases to - a,
    {
        a = a + 1;
    }
    let mut b = to;
    while b > a && is_white_space_exec(t[b - 1])
        invariant
            a <= b <= to <= t@.len(),
            trim_end_from(t@, a as int, to as int) == trim_end_from(t@, a as int, b as int),
        decreases b - a,
    {
        b = b - 1;
    }
    push_range(s, t, a, b);
}

// ---------------------------------------------------------------------
// Ordering
// ---------------------------------------------------------------------

/// Lexicographic order of character sequences, by code point (the order of
/// `str` comparison).
pub open spec fn lex_lt(a: Seq<char>, b: Seq<char>) -> bool
    decreases a.len(),
{
    if a.len() == 0 {
        b.len() > 0
    } else if b.len() == 0 {
        false
    } else if a[0] != b[0] {
        a[0] < b[0]
    } else {
        lex_lt(a.drop_first(), b.drop_first())
    }
}

pub proof fn lemma_lex_irreflexive(a: Seq<char>)
    ensures
        !lex_lt(a, a),
    decreases a.len(),
{
    if a.len() > 0 {
        lemma_lex_irreflexive(a.drop_first());
    }
}

pub proof fn lemma_lex_asymmetric(a: Seq<char>, b: Seq<char>)
    ensures
        lex_lt(a, b) ==> !lex_lt(b, a),
    decreases a.len(),
{
    if a.len() > 0 && b.len() > 0 && a[0] == b[0] {
        lemma_lex_asymmetric(a.drop_first(), b.drop_first());
    }
}

pub proof fn lemma_lex_total(a: Seq<char>, b: Seq<char>)
    ensures
        a != b ==> lex_lt(a, b) || lex_lt(b, a),
    decreases a.len(),
{
    if a.len() == 0 {
        if b.len() == 0 {
            assert(a =~= b);
        }
    } else if b.len() > 0 && a[0] == b[0] {
        lemma_lex_total(a.drop_first(), b.drop_first());
        if a.drop_first() == b.drop_first() {
            assert(a.drop_first().len() == a.len() - 1);
            assert(b.drop_first().len() == b.len() - 1);
            assert(a.len() == b.len());
            assert(a =~= b) by {
                assert forall|k: int| 0 <= k < a.len() implies a[k] == b[k] by {
                    if k > 0 {
                        assert(a[k] == a.drop_first()[k - 1]);
                        assert(b[k] == b.drop_first()[k - 1]);
                    }
                }
            }
        }
    }
}

pub proof fn lemma_lex_transitive(a: Seq<char>, b: Seq<char>, c: Seq<char>)
    requires
        lex_lt(a, b),
        lex_lt(b, c),
    ensures
        lex_lt(a, c),
    decreases a.len(),
{
    if a.len() > 0 && b.len() > 0 && c.len() > 0 && a[0] == b[0] && b[0] == c[0] {
        lemma_lex_transitive(a.drop_first(), b.drop_first(), c.drop_first());
    }
}

/// `a < b` for strings given by their characters.
pub fn lex_less(a: &Vec<char>, b: &Vec<char>) -> (r: bool)
    ensures
        r == lex_lt(a@, b@),
{
    let mut i: usize = 0;
    assert(a@.skip(0) =~= a@);
    assert(b@.skip(0) =~= b@);
    while i < a.len() && i < b.len()
        invariant
            0 <= i <= a@.len(),
            i <= b@.len(),
            lex_lt(a@, b@) == lex_lt(a@.skip(i as int), b@.skip(i as int)),
        decreases a@.len() - i,
    {
        if a[i] != b[i] {
            return a[i] < b[i];
        }
        assert(a@.skip(i as int).drop_first() =~= a@.skip(i + 1));
        assert(b@.skip(i as int).drop_first() =~= b@.skip(i + 1));
        i = i + 1;
    }
    i < b.len()
}

} // verus!
