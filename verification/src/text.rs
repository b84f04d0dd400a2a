//! Text rendering and scanning over character sequences: hexadecimal and decimal
//! digits, trimming, case folding and substring search.

use vstd::prelude::*;
use vstd::string::*;

verus! {

/// What `str::to_uppercase` returns for a given text.
pub uninterp spec fn uppercase_of(s: Seq<char>) -> Seq<char>;

/// What `str::to_lowercase` returns for a given text.
pub uninterp spec fn lowercase_of(s: Seq<char>) -> Seq<char>;

/// Appends one character to a string with `String::push`: the string afterwards is
/// the string before followed by that character.
#[verifier::external_body]
pub(crate) fn push_char(s: &mut String, c: char)
    ensures
        final(s)@ == old(s)@.push(c),
{
    s.push(c)
}

/// Whether every character of a text is an ASCII character.
pub open spec fn is_ascii_text(s: Seq<char>) -> bool {
    forall|i: int| 0 <= i < s.len() ==> #[trigger] s[i] <= '\u{7f}'
}

/// A character with the ASCII lower-case letters folded to upper case.
pub open spec fn ascii_upper(c: char) -> char {
    if 'a' <= c <= 'z' {
        ((c as u8 - 32) as u8) as char
    } else {
        c
    }
}

/// A text with the ASCII lower-case letters folded to upper case.
pub open spec fn ascii_upper_text(s: Seq<char>) -> Seq<char> {
    Seq::new(s.len(), |i: int| ascii_upper(s[i]))
}

/// A text with the ASCII upper-case letters folded to lower case.
pub open spec fn ascii_lower_text(s: Seq<char>) -> Seq<char> {
    Seq::new(s.len(), |i: int| ascii_lower(s[i]))
}

/// Upper-cases a text with `str::to_uppercase`. The result is named, not
/// described, but for a text of ASCII characters alone: by the Unicode case
/// mapping that the function follows, the letters `a` to `z` of such a text
/// become `A` to `Z` and every other character stays as it is.
#[verifier::external_body]
pub(crate) fn upper(s: &str) -> (r: String)
    ensures
        r@ == uppercase_of(s@),
        is_ascii_text(s@) ==> r@ == ascii_upper_text(s@),
{
    s.to_uppercase()
}

/// Lower-cases a text with `str::to_lowercase`. The result is named, not
/// described, but for a text of ASCII characters alone: by the Unicode case
/// mapping that the function follows, the letters `A` to `Z` of such a text
/// become `a` to `z` and every other character stays as it is.
#[verifier::external_body]
pub(crate) fn lower(s: &str) -> (r: String)
    ensures
        r@ == lowercase_of(s@),
        is_ascii_text(s@) ==> r@ == ascii_lower_text(s@),
{
    s.to_lowercase()
}

/// The upper-case hexadecimal digit for a value below sixteen.
pub open spec fn hex_char_upper(n: int) -> char {
    if n == 0 { '0' } else if n == 1 { '1' } else if n == 2 { '2' } else if n == 3 { '3' }
    else if n == 4 { '4' } else if n == 5 { '5' } else if n == 6 { '6' } else if n == 7 { '7' }
    else if n == 8 { '8' } else if n == 9 { '9' } else if n == 10 { 'A' } else if n == 11 { 'B' }
    else if n == 12 { 'C' } else if n == 13 { 'D' } else if n == 14 { 'E' } else { 'F' }
}

/// The lower-case hexadecimal digit for a value below sixteen.
pub open spec fn hex_char_lower(n: int) -> char {
    if n == 0 { '0' } else if n == 1 { '1' } else if n == 2 { '2' } else if n == 3 { '3' }
    else if n == 4 { '4' } else if n == 5 { '5' } else if n == 6 { '6' } else if n == 7 { '7' }
    else if n == 8 { '8' } else if n == 9 { '9' } else if n == 10 { 'a' } else if n == 11 { 'b' }
    else if n == 12 { 'c' } else if n == 13 { 'd' } else if n == 14 { 'e' } else { 'f' }
}

/// The decimal digit for a value below ten.
pub open spec fn dec_char(n: int) -> char {
    hex_char_upper(if 0 <= n < 10 { n } else { 0 })
}

/// Two upper-case hexadecimal digits of a byte, high nibble first.
pub open spec fn hex_upper(b: u8) -> Seq<char> {
    seq![hex_char_upper(b as int / 16), hex_char_upper(b as int % 16)]
}

/// Two lower-case hexadecimal digits of a byte, high nibble first.
pub open spec fn hex_lower(b: u8) -> Seq<char> {
    seq![hex_char_lower(b as int / 16), hex_char_lower(b as int % 16)]
}

/// The bytes in upper-case hexadecimal, two digits each, nothing between them.
pub open spec fn hex_concat(s: Seq<u8>) -> Seq<char>
    decreases s.len(),
{
    if s.len() == 0 {
        Seq::empty()
    } else {
        hex_concat(s.drop_last()) + hex_upper(s.last())
    }
}

/// The bytes in lower-case hexadecimal, two digits each, nothing between them.
pub open spec fn hex_concat_lower(s: Seq<u8>) -> Seq<char>
    decreases s.len(),
{
    if s.len() == 0 {
        Seq::empty()
    } else {
        hex_concat_lower(s.drop_last()) + hex_lower(s.last())
    }
}

/// The bytes in upper-case hexadecimal, two digits each, one space between bytes.
pub open spec fn hex_spaced(s: Seq<u8>) -> Seq<char>
    decreases s.len(),
{
    if s.len() == 0 {
        Seq::empty()
    } else if s.len() == 1 {
        hex_upper(s[0])
    } else {
        hex_spaced(s.drop_last()).push(' ') + hex_upper(s.last())
    }
}

/// The decimal numeral of a natural number, without leading zeros.
pub open spec fn dec_string(n: nat) -> Seq<char>
    decreases n,
{
    if n < 10 {
        seq![dec_char(n as int)]
    } else {
        dec_string(n / 10).push(dec_char((n % 10) as int))
    }
}

/// The upper-case hexadecimal digit for a value below sixteen.
pub fn hex_digit_upper(n: u8) -> (c: char)
    requires
        n < 16,
    ensures
        c == hex_char_upper(n as int),
{
    if n == 0 { '0' } else if n == 1 { '1' } else if n == 2 { '2' } else if n == 3 { '3' }
    else if n == 4 { '4' } else if n == 5 { '5' } else if n == 6 { '6' } else if n == 7 { '7' }
    else if n == 8 { '8' } else if n == 9 { '9' } else if n == 10 { 'A' } else if n == 11 { 'B' }
    else if n == 12 { 'C' } else if n == 13 { 'D' } else if n == 14 { 'E' } else { 'F' }
}

/// Appends the two upper-case hexadecimal digits of a byte.
pub fn push_hex_upper(out: &mut String, b: u8)
    ensures
        final(out)@ == old(out)@ + hex_upper(b),
{
    push_char(out, hex_digit_upper(b / 16));
    push_char(out, hex_digit_upper(b % 16));
    assert(out@ =~= old(out)@ + hex_upper(b));
}

/// Appends a text.
pub fn push_str(out: &mut String, s: &str)
    ensures
        final(out)@ == old(out)@ + s@,
{
    out.append(s);
}

/// Upper-case hexadecimal of the bytes, nothing between them.
pub fn hex_string(data: &[u8]) -> (r: String)
    ensures
        r@ == hex_concat(data@),
{
    let mut out = String::new();
    let mut i: usize = 0;
    while i < data.len()
        invariant
            i <= data.len(),
            out@ == hex_concat(data@.take(i as int)),
        decreases data.len() - i,
    {
        push_hex_upper(&mut out, data[i]);
        i += 1;
        assert(data@.take(i as int).drop_last() =~= data@.take(i - 1));
    }
    assert(data@.take(data.len() as int) =~= data@);
    out
}

/// Upper-case hexadecimal of the bytes, one space between bytes.
pub fn hex_string_spaced(data: &[u8]) -> (r: String)
    ensures
        r@ == hex_spaced(data@),
{
    let mut out = String::new();
    let mut i: usize = 0;
    while i < data.len()
        invariant
            i <= data.len(),
            out@ == hex_spaced(data@.take(i as int)),
        decreases data.len() - i,
    {
        if i > 0 {
            push_char(&mut out, ' ');
        }
        push_hex_upper(&mut out, data[i]);
        i += 1;
        assert(data@.take(i as int).drop_last() =~= data@.take(i - 1));
        assert(out@ =~= hex_spaced(data@.take(i as int)));
    }
    assert(data@.take(data.len() as int) =~= data@);
    out
}

/// Appends the decimal numeral of a number.
pub fn push_dec(out: &mut String, n: u64)
    ensures
        final(out)@ == old(out)@ + dec_string(n as nat),
    decreases n,
{
    if n >= 10 {
        push_dec(out, n / 10);
    }
    let d: u8 = (n % 10) as u8;
    push_char(out, hex_digit_upper(d));
    assert(out@ =~= old(out)@ + dec_string(n as nat));
}

/// The decimal numeral of a number.
pub fn dec_to_string(n: u64) -> (r: String)
    ensures
        r@ == dec_string(n as nat),
{
    let mut out = String::new();
    push_dec(&mut out, n);
    assert(out@ =~= dec_string(n as nat));
    out
}

/// The characters of a text, in order.
pub fn to_chars(s: &str) -> (r: Vec<char>)
    ensures
        r@ == s@,
{
    let mut out: Vec<char> = Vec::new();
    for c in it: s.chars()
        invariant
            it.seq() == s@,
            out@ == it.seq().take(it.index() as int),
    {
        out.push(c);
        assert(out@ =~= it.seq().take(it.index() + 1));
    }
    assert(s@.take(s@.len() as int) =~= s@);
    out
}

/// The text made of the characters from `from` up to `to`.
pub fn chars_to_string(v: &Vec<char>, from: usize, to: usize) -> (r: String)
    requires
        from <= to <= v.len(),
    ensures
        r@ == v@.subrange(from as int, to as int),
{
    let mut out = String::new();
    let mut i: usize = from;
    while i < to
        invariant
            from <= i <= to <= v.len(),
            out@ == v@.subrange(from as int, i as int),
        decreases to - i,
    {
        push_char(&mut out, v[i]);
        i += 1;
        assert(out@ =~= v@.subrange(from as int, i as int));
    }
    out
}

/// Whether two texts hold the same characters.
pub fn str_eq(a: &str, b: &str) -> (r: bool)
    ensures
        r == (a@ == b@),
{
    let x = a.to_owned();
    let y = b.to_owned();
    x == y
}

/// Whether a character is an ASCII decimal digit.
pub open spec fn is_digit(c: char) -> bool {
    '0' <= c <= '9'
}

/// The value of an ASCII decimal digit.
pub open spec fn digit_value(c: char) -> nat {
    (c as nat - '0' as nat) as nat
}

/// The number that a run of decimal digits denotes; zero for the empty run.
pub open spec fn digits_value(s: Seq<char>) -> nat
    decreases s.len(),
{
    if s.len() == 0 {
        0
    } else {
        digits_value(s.drop_last()) * 10 + digit_value(s.last())
    }
}

/// Whether every character is an ASCII decimal digit.
pub open spec fn all_digits(s: Seq<char>) -> bool {
    forall|i: int| 0 <= i < s.len() ==> is_digit(#[trigger] s[i])
}

/// An unsigned decimal numeral as the standard integer parsers read it: an optional
/// `+`, then at least one digit, and a value of at most `max`.
pub open spec fn parse_bounded(s: Seq<char>, max: nat) -> Option<nat> {
    let d = if s.len() > 0 && s[0] == '+' { s.drop_first() } else { s };
    if d.len() > 0 && all_digits(d) && digits_value(d) <= max {
        Some(digits_value(d))
    } else {
        None
    }
}

/// A numeral that fits the machine's `usize`.
pub open spec fn parse_usize_spec(s: Seq<char>) -> Option<nat> {
    parse_bounded(s, usize::MAX as nat)
}

/// A numeral is a text of ASCII characters without letters: folding its case
/// changes nothing.
pub proof fn lemma_numeral_has_no_letters(s: Seq<char>, max: nat)
    requires
        parse_bounded(s, max) is Some,
    ensures
        is_ascii_text(s),
        ascii_upper_text(s) == s,
        ascii_lower_text(s) == s,
        s.len() > 0,
        is_digit(s.last()),
{
    let d = if s.len() > 0 && s[0] == '+' { s.drop_first() } else { s };
    assert forall|i: int| 0 <= i < s.len() implies (#[trigger] s[i] == '+' || is_digit(s[i])) by {
        if s[0] == '+' {
            if i > 0 {
                assert(d[i - 1] == s[i]);
            }
        } else {
            assert(d[i] == s[i]);
        }
    }
    assert(is_digit(d.last()));
    assert(d.last() == s.last());
    assert(ascii_upper_text(s) =~= s);
    assert(ascii_lower_text(s) =~= s);
}

/// The number that the first digits of a run denote is never more than the number
/// that the whole run denotes.
pub proof fn lemma_digits_value_monotone(s: Seq<char>, i: int)
    requires
        0 <= i <= s.len(),
    ensures
        digits_value(s.take(i)) <= digits_value(s),
    decreases s.len() - i,
{
    if i < s.len() {
        lemma_digits_value_monotone(s, i + 1);
        assert(s.take(i + 1).drop_last() =~= s.take(i));
    } else {
        assert(s.take(i) =~= s);
    }
}

/// Whether a character is an ASCII decimal digit.
pub fn is_digit_char(c: char) -> (r: bool)
    ensures
        r == is_digit(c),
{
    '0' <= c && c <= '9'
}

/// Reads an unsigned decimal numeral of at most `max`.
pub fn parse_u64_bounded(s: &str, max: u64) -> (r: Option<u64>)
    ensures
        r is Some == parse_bounded(s@, max as nat) is Some,
        r is Some ==> r.unwrap() as nat == parse_bounded(s@, max as nat).unwrap(),
{
    let v = to_chars(s);
    let start: usize = if v.len() > 0 && v[0] == '+' { 1 } else { 0 };
    let ghost d = v@.subrange(start as int, v.len() as int);
    assert(d =~= if s@.len() > 0 && s@[0] == '+' { s@.drop_first() } else { s@ });
    if start == v.len() {
        return None;
    }
    let mut acc: u64 = 0;
    let mut i: usize = start;
    while i < v.len()
        invariant
            start <= i <= v.len(),
            d == v@.subrange(start as int, v.len() as int),
            d == (if s@.len() > 0 && s@[0] == '+' { s@.drop_first() } else { s@ }),
            acc as nat == digits_value(d.take(i - start)),
            acc <= max,
            forall|j: int| 0 <= j < i - start ==> is_digit(#[trigger] d[j]),
        decreases v.len() - i,
    {
        let c = v[i];
        assert(d[i - start] == c);
        if !is_digit_char(c) {
            return None;
        }
        let dv: u64 = (c as u32 - '0' as u32) as u64;
        proof {
            assert(d.take(i - start + 1).drop_last() =~= d.take(i - start));
            assert(d.take(i - start + 1).last() == c);
            lemma_digits_value_monotone(d, i - start + 1);
        }
        if dv > max {
            return None;
        }
        if acc > (max - dv) / 10 {
            assert(acc as nat * 10 + dv as nat > max as nat) by (nonlinear_arith)
                requires acc > (max - dv) / 10, dv <= max, acc <= max,
            ;
            return None;
        }
        assert(acc * 10 + dv <= max) by (nonlinear_arith)
            requires acc <= (max - dv) / 10, dv <= max,
        ;
        acc = acc * 10 + dv;
        i += 1;
    }
    assert(d.take(i - start) =~= d);
    Some(acc)
}

/// Reads an unsigned decimal numeral that fits `usize`.
pub fn parse_usize(s: &str) -> (r: Option<usize>)
    ensures
        r is Some == parse_usize_spec(s@) is Some,
        r is Some ==> r.unwrap() as nat == parse_usize_spec(s@).unwrap(),
{
    match parse_u64_bounded(s, usize::MAX as u64) {
        Some(n) => Some(n as usize),
        None => None,
    }
}

/// The characters that Unicode gives the property `White_Space`.
pub open spec fn is_whitespace(c: char) -> bool {
    let n = c as u32;
    (0x09 <= n <= 0x0D) || n == 0x20 || n == 0x85 || n == 0xA0 || n == 0x1680
        || (0x2000 <= n <= 0x200A) || n == 0x2028 || n == 0x2029 || n == 0x202F
        || n == 0x205F || n == 0x3000
}

/// Whether a character has the Unicode property `White_Space`.
pub fn is_whitespace_char(c: char) -> (r: bool)
    ensures
        r == is_whitespace(c),
{
    let n: u32 = c as u32;
    (0x09 <= n && n <= 0x0D) || n == 0x20 || n == 0x85 || n == 0xA0 || n == 0x1680
        || (0x2000 <= n && n <= 0x200A) || n == 0x2028 || n == 0x2029 || n == 0x202F
        || n == 0x205F || n == 0x3000
}

/// The first position from `from` on, before `to`, that holds no white space.
pub open spec fn trim_start_idx(s: Seq<char>, from: int, to: int) -> int
    decreases to - from,
{
    if 0 <= from < to <= s.len() && is_whitespace(s[from]) {
        trim_start_idx(s, from + 1, to)
    } else {
        from
    }
}

/// The end of the last character before `to`, not before `from`, that is no white space.
pub open spec fn trim_end_idx(s: Seq<char>, from: int, to: int) -> int
    decreases to - from,
{
    if 0 <= from < to <= s.len() && is_whitespace(s[to - 1]) {
        trim_end_idx(s, from, to - 1)
    } else {
        to
    }
}

/// The part of `s` between `from` and `to` without leading and trailing white space.
pub open spec fn trim_range(s: Seq<char>, from: int, to: int) -> Seq<char> {
    let a = trim_start_idx(s, from, to);
    s.subrange(a, trim_end_idx(s, a, to))
}

/// A text without its leading and trailing white space.
pub open spec fn trim_spec(s: Seq<char>) -> Seq<char> {
    trim_range(s, 0, s.len() as int)
}

/// The bounds of the part of `v` between `from` and `to` that is left after trimming.
pub fn trim_bounds(v: &Vec<char>, from: usize, to: usize) -> (r: (usize, usize))
    requires
        from <= to <= v.len(),
    ensures
        from <= r.0 <= r.1 <= to,
        r.0 == trim_start_idx(v@, from as int, to as int),
        r.1 == trim_end_idx(v@, r.0 as int, to as int),
        v@.subrange(r.0 as int, r.1 as int) == trim_range(v@, from as int, to as int),
{
    let mut a: usize = from;
    while a < to && is_whitespace_char(v[a])
        invariant
            from <= a <= to <= v.len(),
            trim_start_idx(v@, a as int, to as int) == trim_start_idx(v@, from as int, to as int),
        decreases to - a,
    {
        a += 1;
    }
    let mut b: usize = to;
    while a < b && is_whitespace_char(v[b - 1])
        invariant
            a <= b <= to <= v.len(),
            trim_end_idx(v@, a as int, b as int) == trim_end_idx(v@, a as int, to as int),
        decreases b - a,
    {
        b -= 1;
    }
    (a, b)
}

/// A text without its leading and trailing white space.
pub fn trim(s: &str) -> (r: String)
    ensures
        r@ == trim_spec(s@),
{
    let v = to_chars(s);
    let (a, b) = trim_bounds(&v, 0, v.len());
    chars_to_string(&v, a, b)
}

/// A character with the ASCII upper-case letters folded to lower case.
pub open spec fn ascii_lower(c: char) -> char {
    if 'A' <= c <= 'Z' {
        ((c as u8 + 32) as u8) as char
    } else {
        c
    }
}

/// A character with the ASCII upper-case letters folded to lower case.
pub fn ascii_lower_char(c: char) -> (r: char)
    ensures
        r == ascii_lower(c),
{
    if 'A' <= c && c <= 'Z' {
        ((c as u8) + 32) as char
    } else {
        c
    }
}

/// Equality of two texts up to the case of ASCII letters.
pub open spec fn eq_ignore_ascii_case_spec(a: Seq<char>, b: Seq<char>) -> bool {
    a.len() == b.len() && forall|i: int|
        0 <= i < a.len() ==> ascii_lower(#[trigger] a[i]) == ascii_lower(b[i])
}

/// Whether `a[a0..a1]` and `b` are equal up to the case of ASCII letters.
pub fn range_eq_ignore_ascii_case(a: &Vec<char>, a0: usize, a1: usize, b: &Vec<char>) -> (r: bool)
    requires
        a0 <= a1 <= a.len(),
    ensures
        r == eq_ignore_ascii_case_spec(a@.subrange(a0 as int, a1 as int), b@),
{
    if a1 - a0 != b.len() {
        return false;
    }
    let ghost x = a@.subrange(a0 as int, a1 as int);
    let mut i: usize = 0;
    while i < b.len()
        invariant
            a0 <= a1 <= a.len(),
            a1 - a0 == b.len(),
            i <= b.len(),
            x == a@.subrange(a0 as int, a1 as int),
            forall|j: int| 0 <= j < i ==> ascii_lower(#[trigger] x[j]) == ascii_lower(b@[j]),
        decreases b.len() - i,
    {
        assert(x[i as int] == a@[a0 + i]);
        if ascii_lower_char(a[a0 + i]) != ascii_lower_char(b[i]) {
            return false;
        }
        i += 1;
    }
    true
}

/// Equality of two texts up to the case of ASCII letters.
pub fn eq_ignore_ascii_case(a: &str, b: &str) -> (r: bool)
    ensures
        r == eq_ignore_ascii_case_spec(a@, b@),
{
    let x = to_chars(a);
    let y = to_chars(b);
    assert(x@.subrange(0, x.len() as int) =~= x@);
    range_eq_ignore_ascii_case(&x, 0, x.len(), &y)
}

/// Whether a character occurs in a text.
pub fn contains_char(s: &str, c: char) -> (r: bool)
    ensures
        r == s@.contains(c),
{
    let v = to_chars(s);
    let mut i: usize = 0;
    while i < v.len()
        invariant
            i <= v.len(),
            v@ == s@,
            forall|j: int| 0 <= j < i ==> v@[j] != c,
        decreases v.len() - i,
    {
        if v[i] == c {
            return true;
        }
        i += 1;
    }
    false
}

/// Whether `pat` stands in `s` at position `i`.
pub open spec fn occurs_at(s: Seq<char>, pat: Seq<char>, i: int) -> bool {
    0 <= i && i + pat.len() <= s.len() && s.subrange(i, i + pat.len()) == pat
}

/// The first position at or after `i` where `pat` stands in `s`.
pub open spec fn find_from(s: Seq<char>, pat: Seq<char>, i: int) -> Option<int>
    decreases s.len() + 1 - i,
{
    if i < 0 || i + pat.len() > s.len() {
        None
    } else if occurs_at(s, pat, i) {
        Some(i)
    } else {
        find_from(s, pat, i + 1)
    }
}

/// The first position where `pat` stands in `s`.
pub open spec fn find_spec(s: Seq<char>, pat: Seq<char>) -> Option<int> {
    find_from(s, pat, 0)
}

/// Whether `pat` stands somewhere in `s`.
pub open spec fn contains_spec(s: Seq<char>, pat: Seq<char>) -> bool {
    find_spec(s, pat) is Some
}

/// Whether `pat` stands in `s` at position `i`.
pub fn occurs_at_chars(s: &Vec<char>, pat: &Vec<char>, i: usize) -> (r: bool)
    requires
        i + pat.len() <= s.len(),
    ensures
        r == occurs_at(s@, pat@, i as int),
{
    let mut k: usize = 0;
    while k < pat.len()
        invariant
            k <= pat.len(),
            i + pat.len() <= s.len(),
            forall|j: int| 0 <= j < k ==> s@[i + j] == pat@[j],
        decreases pat.len() - k,
    {
        if s[i + k] != pat[k] {
            assert(s@.subrange(i as int, i + pat.len())[k as int] != pat@[k as int]);
            return false;
        }
        k += 1;
    }
    assert(s@.subrange(i as int, i + pat.len()) =~= pat@);
    true
}

/// The first position where `pat` stands in `s`, counted in characters.
pub fn find_chars(s: &Vec<char>, pat: &Vec<char>) -> (r: Option<usize>)
    ensures
        r is Some == find_spec(s@, pat@) is Some,
        r is Some ==> r.unwrap() as int == find_spec(s@, pat@).unwrap(),
        r is Some ==> r.unwrap() + pat.len() <= s.len(),
{
    if pat.len() > s.len() {
        return None;
    }
    if pat.len() == 0 {
        assert(s@.subrange(0, 0) =~= pat@);
        return Some(0);
    }
    let last: usize = s.len() - pat.len();
    let mut i: usize = 0;
    while i <= last
        invariant
            pat.len() > 0,
            last == s.len() - pat.len(),
            i <= last + 1,
            find_from(s@, pat@, i as int) == find_spec(s@, pat@),
        decreases last + 1 - i,
    {
        if occurs_at_chars(s, pat, i) {
            return Some(i);
        }
        i += 1;
    }
    None
}

/// Whether `pat` stands somewhere in `s`.
pub fn contains_str(s: &str, pat: &str) -> (r: bool)
    ensures
        r == contains_spec(s@, pat@),
{
    let x = to_chars(s);
    let y = to_chars(pat);
    find_chars(&x, &y).is_some()
}

/// The position of the first `sep` at or after `from`, or the length of `s`.
pub open spec fn next_sep(s: Seq<char>, sep: char, from: int) -> int
    decreases s.len() - from,
{
    if 0 <= from < s.len() && s[from] != sep {
        next_sep(s, sep, from + 1)
    } else {
        from
    }
}

/// Whether one of the comma-separated entries of `list` from `start` on, trimmed,
/// equals `query` up to the case of ASCII letters.
pub open spec fn list_has_from(list: Seq<char>, query: Seq<char>, start: int) -> bool
    decreases list.len() - start,
{
    let end = next_sep(list, ',', start);
    if start < 0 || start > list.len() || end < start {
        false
    } else if eq_ignore_ascii_case_spec(trim_range(list, start, end), query) {
        true
    } else if end < list.len() {
        list_has_from(list, query, end + 1)
    } else {
        false
    }
}

/// Whether one of the comma-separated entries of `list`, trimmed, equals `query`
/// up to the case of ASCII letters.
pub open spec fn list_has_spec(list: Seq<char>, query: Seq<char>) -> bool {
    list_has_from(list, query, 0)
}

/// Whether one of the comma-separated entries of `list`, trimmed, equals `query`
/// up to the case of ASCII letters.
pub fn list_has(list: &str, query: &str) -> (r: bool)
    ensures
        r == list_has_spec(list@, query@),
{
    let v = to_chars(list);
    let q = to_chars(query);
    let mut start: usize = 0;
    loop
        invariant
            v@ == list@,
            q@ == query@,
            start <= v.len(),
            list_has_from(v@, q@, start as int) == list_has_spec(list@, query@),
        decreases v.len() - start,
    {
        let mut end: usize = start;
        while end < v.len() && v[end] != ','
            invariant
                start <= end <= v.len(),
                next_sep(v@, ',', end as int) == next_sep(v@, ',', start as int),
            decreases v.len() - end,
        {
            end += 1;
        }
        let (a, b) = trim_bounds(&v, start, end);
        if range_eq_ignore_ascii_case(&v, a, b, &q) {
            return true;
        }
        if end < v.len() {
            start = end + 1;
        } else {
            return false;
        }
    }
}

/// A text without its spaces and line feeds.
pub open spec fn remove_blanks(s: Seq<char>) -> Seq<char>
    decreases s.len(),
{
    if s.len() == 0 {
        Seq::empty()
    } else if s.last() == ' ' || s.last() == '\n' {
        remove_blanks(s.drop_last())
    } else {
        remove_blanks(s.drop_last()).push(s.last())
    }
}

/// The characters of a text without its spaces and line feeds.
pub fn strip_blanks(s: &str) -> (r: Vec<char>)
    ensures
        r@ == remove_blanks(s@),
{
    let v = to_chars(s);
    let mut out: Vec<char> = Vec::new();
    let mut i: usize = 0;
    while i < v.len()
        invariant
            i <= v.len(),
            out@ == remove_blanks(v@.take(i as int)),
        decreases v.len() - i,
    {
        if v[i] != ' ' && v[i] != '\n' {
            out.push(v[i]);
        }
        i += 1;
        assert(v@.take(i as int).drop_last() =~= v@.take(i - 1));
    }
    assert(v@.take(v.len() as int) =~= v@);
    out
}

} // verus!
