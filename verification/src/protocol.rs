//! The schema-driven field decoder: a schema element and a run of bytes give a tree
//! of decoded fields.

use vstd::prelude::*;
use vstd::string::*;
use vstd::slice::*;
use crate::decoded::{DecodedField, field_view, fields_view, FieldView};
use crate::frame_fun::{
    bcd_text, bin2bcd, bin_text, da_text, da_to_text, data_str, first_nul, FrameFun, ip_text,
    labelled, le_number, maybe_strip33, time_text, utf8_lossy,
};
use crate::text::{
    all_digits, ascii_upper_text, chars_to_string, contains_char, dec_string, dec_to_string,
    hex_concat, hex_spaced, is_ascii_text, is_digit_char, lemma_numeral_has_no_letters, lower,
    lowercase_of, next_sep, occurs_at, parse_usize, parse_usize_spec, push_char, push_dec,
    push_str, str_eq, to_chars, trim, trim_spec, upper, uppercase_of,
};
use crate::xmlconfig::{
    element_view, elements_view, ElementView, index_of_attr, named, opt_element_view,
    ProtocolConfigManager, text_ref_view, text_view, XmlElement,
};

verus! {

/// Whether a regular expression finds a match in a text, as the `regex` crate
/// decides it; `false` for a pattern that it does not accept.
pub uninterp spec fn regex_matches(pattern: Seq<char>, text: Seq<char>) -> bool;

/// The text of capture group `group` of the leftmost match of a regular expression
/// in a text, as the `regex` crate finds it; `None` where there is no match, the
/// group took no part in it, or the pattern is not accepted.
pub uninterp spec fn regex_capture_of(pattern: Seq<char>, text: Seq<char>, group: nat) -> Option<
    Seq<char>,
>;

/// Compiles the pattern with `Regex::new` and asks `Regex::is_match`; the answer is
/// named, not described. A pattern that does not compile gives `false`.
#[verifier::external_body]
pub(crate) fn regex_is_match(pattern: &str, text: &str) -> (r: bool)
    ensures
        r == regex_matches(pattern@, text@),
{
    match regex::Regex::new(pattern) {
        Ok(re) => re.is_match(text),
        Err(_) => false,
    }
}

/// Compiles the pattern with `Regex::new`, takes the leftmost match with
/// `Regex::captures` and hands out one group of it with `Captures::get`; the result
/// is named, not described. A pattern that does not compile gives `None`.
#[verifier::external_body]
pub(crate) fn regex_capture(pattern: &str, text: &str, group: usize) -> (r: Option<String>)
    ensures
        text_view(r) == regex_capture_of(pattern@, text@, group as nat),
{
    match regex::Regex::new(pattern) {
        Ok(re) => match re.captures(text) {
            Some(c) => match c.get(group) {
                Some(m) => Some(m.as_str().to_string()),
                None => None,
            },
            None => None,
        },
        Err(_) => None,
    }
}

/// The label of an item: its id and its name, joined by `_` where both are there.
pub open spec fn item_label(id: Option<Seq<char>>, name: Option<Seq<char>>) -> Seq<char> {
    let a = match id {
        Some(i) => i,
        None => Seq::empty(),
    };
    match name {
        Some(n) => if a.len() > 0 { a.push('_') + n } else { n },
        None => a,
    }
}

/// The text `[<name>]: <text>`.
pub open spec fn bracketed(name: Seq<char>, text: Seq<char>) -> Seq<char> {
    seq!['['] + name + "]: "@ + text
}

/// This text, or another where it is empty.
pub open spec fn or_if_empty(text: Seq<char>, other: Seq<char>) -> Seq<char> {
    if text.len() == 0 { other } else { text }
}

/// An optional text, or the given one where it is missing.
pub open spec fn text_or(o: Option<Seq<char>>, default: Seq<char>) -> Seq<char> {
    match o {
        Some(t) => t,
        None => default,
    }
}

/// The number that an optional text holds, or zero.
pub open spec fn number_or_zero(o: Option<Seq<char>>) -> nat {
    match o {
        Some(t) => match parse_usize_spec(t) {
            Some(n) => n,
            None => 0,
        },
        None => 0,
    }
}

/// The literal length that an element declares.
pub open spec fn static_length(e: ElementView) -> Option<nat> {
    match e.child_text("length"@) {
        Some(t) => parse_usize_spec(t),
        None => None,
    }
}

/// Whether a length text is the sentinel for a length that has to be resolved.
pub open spec fn is_unknown(t: Seq<char>) -> bool {
    uppercase_of(t) == "UNKNOWN"@
}

/// The number of decimal places that an element declares.
pub open spec fn decimal_places(e: ElementView) -> nat {
    number_or_zero(e.child_text("decimal"@))
}

/// Whether an element declares a sign bit.
pub open spec fn is_signed(e: ElementView) -> bool {
    e.child_text("sign"@) == Some("yes"@)
}

/// Whether an element asks for a single instance.
pub open spec fn is_single(e: ElementView) -> bool {
    match e.child_text("single"@) {
        Some(t) => lowercase_of(t) == "yes"@,
        None => false,
    }
}

/// A field without children.
pub open spec fn leaf_field(
    label: Seq<char>,
    data: Seq<char>,
    description: Seq<char>,
    start: int,
    end: int,
    color: Option<Seq<char>>,
) -> FieldView {
    FieldView { frame_domain: label, data, description, start, end, color, children: None }
}

/// The entry of a value table for a raw value: the first with that key, or else the
/// first with the key `other`.
pub open spec fn value_entry(values: Seq<ElementView>, raw: Seq<char>) -> Option<ElementView> {
    match index_of_attr(values, "key"@, raw) {
        Some(i) => Some(values[i]),
        None => match index_of_attr(values, "key"@, "other"@) {
            Some(i) => Some(values[i]),
            None => None,
        },
    }
}

/// The label that a value table gives a raw value: the text of its entry, or the
/// raw value itself where the entry has no text.
pub open spec fn value_label(values: Seq<ElementView>, raw: Seq<char>) -> Option<Seq<char>> {
    match value_entry(values, raw) {
        Some(e) => Some(text_or(e.value, raw)),
        None => None,
    }
}

/// The colour of the entry that a value table gives a raw value.
pub open spec fn value_color(values: Seq<ElementView>, raw: Seq<char>) -> Option<Seq<char>> {
    match value_entry(values, raw) {
        Some(e) => e.attribute("color"@),
        None => None,
    }
}

/// A rendered value behind its name, `<name>: <value>`, and behind it the label of
/// its table entry where it has one, `<name>: <value> - <label>`.
pub open spec fn labelled_text(name: Seq<char>, shown: Seq<char>, label: Option<Seq<char>>) -> Seq<
    char,
> {
    match label {
        Some(l) => name + ": "@ + shown + " - "@ + l,
        None => name + ": "@ + shown,
    }
}

/// The text of a scalar by the primitive that the element's `type` names, `BCD`
/// where it names none; `None` for a type that is no primitive.
#[verifier::opaque]
pub open spec fn simple_type_text(e: ElementView, data: Seq<u8>, need_delete: bool) -> Option<
    Seq<char>,
> {
    let t = uppercase_of(text_or(e.child_text("type"@), "BCD"@));
    let dp = decimal_places(e);
    let sign = is_signed(e);
    if t == "BCD"@ {
        Some(bcd_text(data, dp, need_delete, sign))
    } else if t == "BIN"@ {
        Some(bin_text(data, dp, need_delete, sign, true))
    } else if t == "BIN_FF"@ {
        Some(bin_text(data, dp, need_delete, sign, false))
    } else if t == "ASCII"@ {
        Some(utf8_lossy(data.take(first_nul(data) as int)))
    } else if t == "PORT"@ {
        Some(if data.len() == 2 { dec_string(le_number(data, false)) } else { Seq::empty() })
    } else if t == "IP"@ {
        Some(if data.len() == 4 { ip_text(data) } else { Seq::empty() })
    } else if t == "BIN_BE"@ {
        Some(bin_text(data.reverse(), dp, need_delete, sign, true))
    } else if t == "NORMAL"@ {
        Some(data_str(data, need_delete, true, false))
    } else {
        None
    }
}

/// Each byte as a BCD byte.
pub open spec fn to_bcd(s: Seq<u8>) -> Seq<u8> {
    Seq::new(s.len(), |i: int| bin2bcd(s[i]))
}

/// The bytes that a time is read from: at most the first six, binary ones turned
/// into BCD.
pub open spec fn time_window(data: Seq<u8>, kind: Seq<char>) -> Seq<u8> {
    let w = data.take(if data.len() >= 6 { 6 } else { data.len() as int });
    if kind == "BIN"@ || kind == "Bin"@ || kind == "bin"@ { to_bcd(w) } else { w }
}

/// The text of a timestamp element.
#[verifier::opaque]
pub open spec fn time_item_text(e: ElementView, data: Seq<u8>, need_delete: bool) -> Seq<char> {
    time_text(
        time_window(data, text_or(e.child_text("type"@), "BCD"@)),
        text_or(e.child_text("time"@), "ssmmhhWWDDMMYYCC"@),
        need_delete,
    )
}

/// The bits that a bit id names: `a-b` for a range, `a` for one bit.
pub open spec fn bit_range(id: Seq<char>) -> Option<(nat, nat)> {
    if id.contains('-') {
        let i = next_sep(id, '-', 0);
        let j = next_sep(id, '-', i + 1);
        match (parse_usize_spec(id.subrange(0, i)), parse_usize_spec(id.subrange(i + 1, j))) {
            (Some(a), Some(b)) => Some((a, b)),
            _ => None,
        }
    } else {
        match parse_usize_spec(id) {
            Some(a) => Some((a, a)),
            None => None,
        }
    }
}

/// The binary digit of bit `k` of the bytes, bit 0 being the most significant bit
/// of the first byte.
pub open spec fn bit_char(data: Seq<u8>, k: int) -> char {
    if (data[k / 8] >> ((7 - k % 8) as u8)) & 1 == 1 { '1' } else { '0' }
}

/// The binary digits of bits `start` to `end` of the bytes, in order.
pub open spec fn bits_of(data: Seq<u8>, start: int, end: int) -> Seq<char> {
    Seq::new((end - start + 1) as nat, |i: int| bit_char(data, start + i))
}

/// The field of one declared bit or bit range: none where the declaration names
/// no bits or bits beyond the bytes. The field covers the bytes that hold the bits.
#[verifier::opaque]
pub open spec fn bit_field(bit: ElementView, data: Seq<u8>, index: int, need_delete: bool) -> Option<
    FieldView,
> {
    match bit.attribute("id"@) {
        None => None,
        Some(id) => match bit_range(id) {
            None => None,
            Some((start, end)) => if start <= end && end / 8 < data.len() {
                let bits = bits_of(maybe_strip33(data, need_delete), start as int, end as int);
                let values = bit.items("value"@);
                let label = "bit"@ + id;
                Some(
                    leaf_field(
                        label,
                        bits,
                        labelled_text(
                            text_or(bit.child_text("name"@), label),
                            bits,
                            value_label(values, bits),
                        ),
                        index + start / 8,
                        index + end / 8 + 1,
                        value_color(values, bits),
                    ),
                )
            } else {
                None
            },
        },
    }
}

/// The fields of the declared bits from `i` on, after those in `acc`.
pub open spec fn bit_fields_from(
    bits: Seq<ElementView>,
    i: int,
    data: Seq<u8>,
    index: int,
    need_delete: bool,
    acc: Seq<FieldView>,
) -> Seq<FieldView>
    decreases bits.len() - i,
{
    if i < 0 || i >= bits.len() {
        acc
    } else {
        bit_fields_from(
            bits,
            i + 1,
            data,
            index,
            need_delete,
            match bit_field(bits[i], data, index, need_delete) {
                Some(f) => acc.push(f),
                None => acc,
            },
        )
    }
}

/// The fields of a bitfield group: one for each declared bit or bit range.
pub open spec fn bitwise_fields(e: ElementView, data: Seq<u8>, index: int, need_delete: bool) -> Seq<
    FieldView,
> {
    bit_fields_from(e.items("bit"@), 0, data, index, need_delete, Seq::empty())
}

/// The text and the child fields of a scalar element: a value with its unit, a
/// time, a bitfield group, or a plain value.
#[verifier::opaque]
pub open spec fn single_item_parts(e: ElementView, data: Seq<u8>, index: int, need_delete: bool) -> (
    Seq<char>,
    Option<Seq<FieldView>>,
) {
    if e.has_child("unit"@) {
        let unit = text_or(e.child_text("unit"@), Seq::empty());
        match simple_type_text(e, data, need_delete) {
            Some(v) => (v.push(' ') + unit, None),
            None => {
                let v = bcd_text(data, decimal_places(e), need_delete, is_signed(e));
                (if v == "无效数据"@ { v } else { v.push(' ') + unit }, None)
            },
        }
    } else if e.has_child("time"@) {
        (
            time_text(
                time_window(data, text_or(e.child_text("type"@), Seq::empty())),
                text_or(e.child_text("time"@), Seq::empty()),
                need_delete,
            ),
            None,
        )
    } else if e.has_child("splitbit"@) {
        (
            Seq::empty(),
            Some(bitwise_fields(e.child("splitbit"@).unwrap(), data, index, need_delete)),
        )
    } else {
        match simple_type_text(e, data, need_delete) {
            Some(v) => (v, None),
            None => (bcd_text(data, decimal_places(e), need_delete, is_signed(e)), None),
        }
    }
}

/// The pattern for the leading token of a rendered value: what stands before the
/// first white space.
pub open spec fn token_pattern() -> Seq<char> {
    "^([^\\s]+)\\s"@
}

/// The leading token of a rendered value, or the whole of it where the pattern
/// finds none.
pub open spec fn leading_token(shown: Seq<char>) -> Seq<char> {
    text_or(regex_capture_of(token_pattern(), shown, 1), shown)
}

/// The text, the child fields and the colour of an enumerated measurement: the
/// scalar, and behind it the label that the value table gives its leading token.
#[verifier::opaque]
pub open spec fn value_item_parts(e: ElementView, data: Seq<u8>, index: int, need_delete: bool) -> (
    Seq<char>,
    Option<Seq<FieldView>>,
    Option<Seq<char>>,
) {
    let (shown, sub) = single_item_parts(e, data, index, need_delete);
    let raw = leading_token(shown);
    let values = e.items("value"@);
    (
        labelled_text(text_or(e.child_text("name"@), raw), shown, value_label(values, raw)),
        sub,
        value_color(values, raw),
    )
}

/// The result codes of a frame analysis.
#[derive(Debug)]
pub enum AnalysicErr {
    ErrOk,
    ErrLength,
    ErrFcs,
    ErrItem,
}

/// The protocols that a frame can belong to.
#[derive(Debug)]
pub enum ProtocolInfo {
    ProtocolCSG13,
    ProtocolCSG16,
    ProtocolDLT64507,
    ProtocolMoudle,
    ProtocolMS,
    ProtocolHis,
}

impl ProtocolInfo {
    /// The name of the protocol.
    pub open spec fn name_spec(&self) -> Seq<char> {
        match self {
            ProtocolInfo::ProtocolCSG13 => "CSG13"@,
            ProtocolInfo::ProtocolCSG16 => "CSG16"@,
            ProtocolInfo::ProtocolDLT64507 => "DLT/645-2007"@,
            ProtocolInfo::ProtocolMoudle => "moudle"@,
            ProtocolInfo::ProtocolMS => "MS"@,
            ProtocolInfo::ProtocolHis => "His"@,
        }
    }

    /// The name of the protocol.
    pub fn name(&self) -> (r: &'static str)
        ensures
            r@ == self.name_spec(),
    {
        match self {
            ProtocolInfo::ProtocolCSG13 => "CSG13",
            ProtocolInfo::ProtocolCSG16 => "CSG16",
            ProtocolInfo::ProtocolDLT64507 => "DLT/645-2007",
            ProtocolInfo::ProtocolMoudle => "moudle",
            ProtocolInfo::ProtocolMS => "MS",
            ProtocolInfo::ProtocolHis => "His",
        }
    }
}

/// The text `[<name>]: <text>`.
pub fn bracket(name: &str, text: &str) -> (r: String)
    ensures
        r@ == bracketed(name@, text@),
{
    let mut out = String::new();
    push_char(&mut out, '[');
    push_str(&mut out, name);
    push_str(&mut out, "]: ");
    push_str(&mut out, text);
    assert(out@ =~= bracketed(name@, text@));
    out
}

/// A rendered value with the label of its table entry behind it.
pub fn label_text(name: &str, shown: &str, label: &Option<String>) -> (r: String)
    ensures
        r@ == labelled_text(name@, shown@, text_view(*label)),
{
    let mut out = String::new();
    push_str(&mut out, name);
    push_str(&mut out, ": ");
    push_str(&mut out, shown);
    match label {
        Some(l) => {
            push_str(&mut out, " - ");
            push_str(&mut out, l.as_str());
            assert(out@ =~= name@ + ": "@ + shown@ + " - "@ + l@);
        },
        None => {
            assert(out@ =~= name@ + ": "@ + shown@);
        },
    }
    out
}

/// A field without children.
pub fn leaf(
    label: String,
    data: String,
    description: String,
    start: usize,
    end: usize,
    color: Option<String>,
) -> (r: DecodedField)
    ensures
        r@ == leaf_field(
            label@,
            data@,
            description@,
            start as int,
            end as int,
            text_view(color),
        ),
{
    DecodedField { frame_domain: label, data, description, start, end, color, children: None }
}

/// The number that an optional text holds, or zero.
pub fn number_or_zero_of(o: &Option<String>) -> (r: usize)
    ensures
        r as nat == number_or_zero(text_view(*o)),
{
    match o {
        Some(t) => match parse_usize(t.as_str()) {
            Some(n) => n,
            None => 0,
        },
        None => 0,
    }
}

/// The number of decimal places that an element declares.
pub fn decimal_places_of(e: &XmlElement) -> (r: usize)
    ensures
        r as nat == decimal_places(e@),
{
    let t = e.get_child_text("decimal");
    number_or_zero_of(&t)
}

/// Whether an element declares a sign bit.
pub fn is_signed_of(e: &XmlElement) -> (r: bool)
    ensures
        r == is_signed(e@),
{
    match e.get_child_text("sign") {
        Some(t) => str_eq(t.as_str(), "yes"),
        None => false,
    }
}

/// Whether an element asks for a single instance.
pub fn is_single_of(e: &XmlElement) -> (r: bool)
    ensures
        r == is_single(e@),
{
    match e.get_child_text("single") {
        Some(t) => {
            let l = lower(t.as_str());
            str_eq(l.as_str(), "yes")
        },
        None => false,
    }
}

/// The literal length that an element declares.
pub fn static_length_of(e: &XmlElement) -> (r: Option<usize>)
    ensures
        r is Some == static_length(e@) is Some,
        r is Some ==> r.unwrap() as nat == static_length(e@).unwrap(),
{
    match e.get_child_text("length") {
        Some(t) => parse_usize(t.as_str()),
        None => None,
    }
}

/// Whether a length text is the sentinel for a length that has to be resolved.
/// A text of ASCII characters is the sentinel where it reads `UNKNOWN` up to the
/// case of its letters; a numeral never is.
pub fn is_unknown_text(t: &str) -> (r: bool)
    ensures
        r == is_unknown(t@),
        is_ascii_text(t@) ==> r == (ascii_upper_text(t@) == "UNKNOWN"@),
        parse_usize_spec(t@) is Some ==> !r,
{
    let u = upper(t);
    proof {
        if parse_usize_spec(t@) is Some {
            lemma_numeral_has_no_letters(t@, usize::MAX as nat);
            reveal_strlit("UNKNOWN");
            assert("UNKNOWN"@.last() == 'N');
        }
    }
    str_eq(u.as_str(), "UNKNOWN")
}

/// The position of the first element that carries the attribute `key` with `value`.
pub fn find_index_by_attr(l: &Vec<XmlElement>, key: &str, value: &str) -> (r: Option<usize>)
    ensures
        r is Some == index_of_attr(elements_view(l@), key@, value@) is Some,
        r is Some ==> r.unwrap() as int == index_of_attr(elements_view(l@), key@, value@).unwrap()
            && r.unwrap() < l@.len(),
{
    let ghost v = elements_view(l@);
    let mut i: usize = 0;
    assert(v.subrange(0, v.len() as int) =~= v);
    while i < l.len()
        invariant
            i <= l.len(),
            v == elements_view(l@),
            index_of_attr(v, key@, value@) == (match index_of_attr(
                v.subrange(i as int, v.len() as int),
                key@,
                value@,
            ) {
                Some(k) => Some(k + i),
                None => None,
            }),
        decreases l.len() - i,
    {
        let ghost rest = v.subrange(i as int, v.len() as int);
        assert(rest[0] == element_view(l@[i as int]));
        let hit = match l[i].get_attribute(key) {
            Some(x) => str_eq(x.as_str(), value),
            None => false,
        };
        if hit {
            return Some(i);
        }
        assert(rest.drop_first() =~= v.subrange(i + 1, v.len() as int));
        i += 1;
    }
    None
}

/// The position of the entry of a value table for a raw value.
pub fn value_entry_index(values: &Vec<XmlElement>, raw: &str) -> (r: Option<usize>)
    ensures
        r is Some == value_entry(elements_view(values@), raw@) is Some,
        r is Some ==> r.unwrap() < values@.len() && element_view(values@[r.unwrap() as int])
            == value_entry(elements_view(values@), raw@).unwrap(),
{
    match find_index_by_attr(values, "key", raw) {
        Some(i) => Some(i),
        None => find_index_by_attr(values, "key", "other"),
    }
}

/// The label and the colour that a value table gives a raw value.
pub fn value_label_color(values: &Vec<XmlElement>, raw: &str) -> (r: (Option<String>, Option<String>))
    ensures
        text_view(r.0) == value_label(elements_view(values@), raw@),
        text_view(r.1) == value_color(elements_view(values@), raw@),
{
    match value_entry_index(values, raw) {
        Some(i) => {
            let e = &values[i];
            let label = match &e.value {
                Some(t) => t.clone(),
                None => raw.to_owned(),
            };
            let color = match e.get_attribute("color") {
                Some(c) => Some(c.clone()),
                None => None,
            };
            (Some(label), color)
        },
        None => (None, None),
    }
}

/// Each byte as a BCD byte, for at most the first six bytes, where the kind says
/// binary; else those bytes as they are.
pub fn time_window_of(data: &[u8], kind: &str) -> (r: Vec<u8>)
    ensures
        r@ == time_window(data@, kind@),
{
    let n: usize = if data.len() >= 6 { 6 } else { data.len() };
    let w = slice_subrange(data, 0, n);
    assert(w@ =~= data@.take(n as int));
    if str_eq(kind, "BIN") || str_eq(kind, "Bin") || str_eq(kind, "bin") {
        let b = FrameFun::binary_to_bcd(w);
        assert(b@ =~= to_bcd(w@));
        b
    } else {
        slice_to_vec(w)
    }
}

/// The bits that a bit id names.
pub fn bit_range_of(id: &str) -> (r: Option<(usize, usize)>)
    ensures
        r is Some == bit_range(id@) is Some,
        r is Some ==> r.unwrap().0 as nat == bit_range(id@).unwrap().0 && r.unwrap().1 as nat
            == bit_range(id@).unwrap().1,
{
    if contains_char(id, '-') {
        let v = to_chars(id);
        let mut i: usize = 0;
        while i < v.len() && v[i] != '-'
            invariant
                i <= v.len(),
                next_sep(v@, '-', i as int) == next_sep(v@, '-', 0),
            decreases v.len() - i,
        {
            i += 1;
        }
        assert(v@.contains('-'));
        assert(i < v.len()) by {
            let w = choose|w: int| 0 <= w < v@.len() && v@[w] == '-';
            lemma_next_sep_first(v@, '-', 0, w);
        }
        let mut j: usize = i + 1;
        while j < v.len() && v[j] != '-'
            invariant
                i + 1 <= j <= v.len(),
                next_sep(v@, '-', j as int) == next_sep(v@, '-', i + 1),
            decreases v.len() - j,
        {
            j += 1;
        }
        let left = chars_to_string(&v, 0, i);
        let right = chars_to_string(&v, i + 1, j);
        match (parse_usize(left.as_str()), parse_usize(right.as_str())) {
            (Some(a), Some(b)) => Some((a, b)),
            _ => None,
        }
    } else {
        match parse_usize(id) {
            Some(a) => Some((a, a)),
            None => None,
        }
    }
}

/// The first separator at or after `from` does not come after an occurrence at `w`.
pub proof fn lemma_next_sep_first(s: Seq<char>, sep: char, from: int, w: int)
    requires
        0 <= from <= w < s.len(),
        s[w] == sep,
    ensures
        next_sep(s, sep, from) <= w,
    decreases w - from,
{
    if from < w && s[from] != sep {
        lemma_next_sep_first(s, sep, from + 1, w);
    }
}

/// The binary digits of bits `start` to `end` of the bytes, in order.
pub fn bits_text_of(data: &Vec<u8>, start: usize, end: usize) -> (r: String)
    requires
        start <= end,
        end / 8 < data@.len(),
    ensures
        r@ == bits_of(data@, start as int, end as int),
{
    let mut out = String::new();
    let mut k: usize = start;
    let ghost all = bits_of(data@, start as int, end as int);
    loop
        invariant_except_break
            start <= k <= end,
            out@ == all.take(k - start),
        invariant
            all == bits_of(data@, start as int, end as int),
            end / 8 < data@.len(),
        ensures
            out@ == all,
        decreases end - k,
    {
        let byte: u8 = data[k / 8];
        let shift: u8 = (7 - k % 8) as u8;
        let c: char = if (byte >> shift) & 1 == 1 { '1' } else { '0' };
        push_char(&mut out, c);
        assert(out@ =~= all.take(k - start + 1));
        if k == end {
            assert(all.take(end - start + 1) =~= all);
            break ;
        }
        k += 1;
    }
    out
}

/// The text for a point bitmap, in the wording of the field decoder.
pub open spec fn pn_text(da: Seq<u8>) -> Seq<char> {
    da_text(
        da,
        "Pn=测量点:0(终端)"@,
        "Pn=测量点:FFFF(除了终端信息点以外的所有测量点)"@,
        "Pn=测量点"@,
        ""@,
    )
}

/// The label of group `i` of a sequence.
pub open spec fn group_label(i: int, what: Seq<char>) -> Seq<char> {
    "第"@ + dec_string((i + 1) as nat) + "组"@ + what
}

/// A field for bytes that are shown but not interpreted.
pub open spec fn opaque_field(label: Seq<char>, data: Seq<u8>, start: int, end: int) -> FieldView {
    leaf_field(label, hex_spaced(data), hex_concat(data), start, end, None)
}

/// The smaller of two numbers.
pub open spec fn min_of(a: int, b: int) -> int {
    if a <= b { a } else { b }
}

/// The fields of a sequence of two-byte point bitmaps; one opaque field where the
/// bytes are no whole number of bitmaps.
#[verifier::opaque]
pub open spec fn pn_fields(data: Seq<u8>, index: int, item_len: int) -> Seq<FieldView> {
    if data.len() % 2 == 0 {
        Seq::new(
            data.len() / 2,
            |i: int|
                leaf_field(
                    group_label(i, "信息点"@),
                    hex_spaced(data.subrange(2 * i, 2 * i + 2)),
                    pn_text(data.subrange(2 * i, 2 * i + 2)),
                    index + 2 * i,
                    index + 2 * i + 2,
                    None,
                ),
        )
    } else {
        seq![opaque_field("PN"@, data, index, index + min_of(item_len, data.len() as int))]
    }
}

/// The fields of a port of two bytes followed by an address: first the address,
/// then the port.
#[verifier::opaque]
pub open spec fn ip_port_fields(data: Seq<u8>, index: int) -> Seq<FieldView> {
    let p = min_of(2, data.len() as int);
    let port = data.take(p);
    let ip = data.skip(p);
    seq![
        leaf_field(
            "IP地址"@,
            hex_spaced(ip),
            if ip.len() == 4 { ip_text(ip) } else { Seq::empty() },
            index + p,
            index + data.len(),
            None,
        ),
        leaf_field(
            "端口号"@,
            hex_spaced(port),
            if port.len() == 2 { dec_string(le_number(port, false)) } else { Seq::empty() },
            index,
            index + p,
            None,
        ),
    ]
}

/// The label of group `i + 1`.
pub fn group_label_of(i: usize, what: &str) -> (r: String)
    requires
        i < usize::MAX,
    ensures
        r@ == group_label(i as int, what@),
{
    let mut out = String::new();
    push_str(&mut out, "第");
    push_dec(&mut out, (i + 1) as u64);
    push_str(&mut out, "组");
    push_str(&mut out, what);
    assert(out@ =~= group_label(i as int, what@));
    out
}

/// A field for bytes that are shown but not interpreted.
pub fn opaque(label: String, data: &[u8], start: usize, end: usize) -> (r: DecodedField)
    ensures
        r@ == opaque_field(label@, data@, start as int, end as int),
{
    leaf(
        label,
        FrameFun::get_data_str_with_space(data),
        FrameFun::get_data_str_order(data),
        start,
        end,
        None,
    )
}

/// The field decoder.
pub struct FrameAnalisyic;

impl FrameAnalisyic {
    /// The label of an item: its id and its name, joined by `_` where both are there.
    pub fn get_item_name_str(item_id: Option<&String>, item_name: Option<String>) -> (r: String)
        ensures
            r@ == item_label(text_ref_view(item_id), text_view(item_name)),
    {
        let mut name_str = String::new();
        match item_id {
            Some(id) => {
                push_str(&mut name_str, id.as_str());
            },
            None => {},
        }
        assert(name_str@ =~= match text_ref_view(item_id) {
            Some(i) => i,
            None => Seq::empty(),
        });
        match item_name {
            Some(name) => {
                if name_str.as_str().unicode_len() != 0 {
                    push_char(&mut name_str, '_');
                }
                push_str(&mut name_str, name.as_str());
                assert(name_str@ =~= item_label(text_ref_view(item_id), text_view(item_name)));
            },
            None => {},
        }
        name_str
    }

    /// The label of the entry that a value table gives a raw value, and a copy of
    /// that entry: the first entry with that key, or else the first with the key
    /// `other`.
    pub fn find_value_from_elements(value_elements: &Vec<XmlElement>, search_value: &str) -> (r: (
        Option<String>,
        Option<XmlElement>,
    ))
        ensures
            text_view(r.0) == value_label(elements_view(value_elements@), search_value@),
            opt_element_view(r.1) == value_entry(elements_view(value_elements@), search_value@),
    {
        match value_entry_index(value_elements, search_value) {
            Some(i) => {
                let e = &value_elements[i];
                let label = match &e.value {
                    Some(t) => t.clone(),
                    None => search_value.to_owned(),
                };
                (Some(label), Some(e.duplicate()))
            },
            None => (None, None),
        }
    }

    /// The text of a scalar by the primitive that the element's `type` names.
    pub fn prase_simple_type_data(
        data_item_elem: &XmlElement,
        data_segment: &[u8],
        index: usize,
        need_delete: bool,
        protocol: &str,
        region: &str,
        dir: Option<u8>,
    ) -> (r: Option<String>)
        ensures
            text_view(r) == simple_type_text(data_item_elem@, data_segment@, need_delete),
    {
        reveal(simple_type_text);
        let decimal = decimal_places_of(data_item_elem);
        let sign = is_signed_of(data_item_elem);
        let subitem_type = match data_item_elem.get_child_text("type") {
            Some(t) => t,
            None => "BCD".to_owned(),
        };
        let t = upper(subitem_type.as_str());
        if str_eq(t.as_str(), "BCD") {
            Some(FrameFun::bcd_to_decimal(data_segment, decimal, need_delete, sign))
        } else if str_eq(t.as_str(), "BIN") {
            Some(FrameFun::bin_to_decimal(data_segment, decimal, need_delete, sign, true))
        } else if str_eq(t.as_str(), "BIN_FF") {
            Some(FrameFun::bin_to_decimal(data_segment, decimal, need_delete, sign, false))
        } else if str_eq(t.as_str(), "ASCII") {
            Some(FrameFun::ascii_to_str(data_segment))
        } else if str_eq(t.as_str(), "PORT") {
            Some(FrameFun::prase_port(data_segment))
        } else if str_eq(t.as_str(), "IP") {
            Some(FrameFun::prase_ip_str(data_segment))
        } else if str_eq(t.as_str(), "BIN_BE") {
            Some(FrameFun::prase_bin_be_deciml(data_segment, decimal, need_delete, sign, true))
        } else if str_eq(t.as_str(), "NORMAL") {
            Some(FrameFun::get_data_str(data_segment, need_delete, true, false))
        } else {
            None
        }
    }

    /// The fields of a bitfield group, one for each declared bit or bit range, and
    /// the number of bytes of the group.
    pub fn parse_bitwise_data(
        splitbit_elem: &XmlElement,
        data_segment: &[u8],
        index: usize,
        need_delete: bool,
        protocol: &str,
        region: &str,
        dir: Option<u8>,
    ) -> (r: (Vec<DecodedField>, usize))
        requires
            index + data_segment@.len() <= usize::MAX,
        ensures
            fields_view(r.0@) == bitwise_fields(
                splitbit_elem@,
                data_segment@,
                index as int,
                need_delete,
            ),
            r.1 == data_segment@.len(),
    {
        reveal(bit_field);
        let mut out: Vec<DecodedField> = Vec::new();
        let all_bits = splitbit_elem.get_items("bit");
        let bytes: Vec<u8> = if need_delete {
            FrameFun::frame_delete_33h(data_segment)
        } else {
            slice_to_vec(data_segment)
        };
        let ghost bits = elements_view(all_bits@);
        let mut i: usize = 0;
        assert(fields_view(out@) =~= Seq::empty());
        while i < all_bits.len()
            invariant
                i <= all_bits.len(),
                index + data_segment@.len() <= usize::MAX,
                bits == elements_view(all_bits@),
                bytes@ == maybe_strip33(data_segment@, need_delete),
                bit_fields_from(
                    bits,
                    i as int,
                    data_segment@,
                    index as int,
                    need_delete,
                    fields_view(out@),
                ) == bitwise_fields(splitbit_elem@, data_segment@, index as int, need_delete),
            decreases all_bits.len() - i,
        {
            reveal(bit_field);
            let bit_elem = &all_bits[i];
            let ghost before = fields_view(out@);
            assert(bits[i as int] == bit_elem@);
            match bit_elem.get_attribute("id") {
                None => {},
                Some(id) => match bit_range_of(id.as_str()) {
                    None => {},
                    Some((start, end)) => {
                        if start <= end && end / 8 < data_segment.len() {
                            let bit_value = bits_text_of(&bytes, start, end);
                            let values = bit_elem.get_items("value");
                            let (label, color) = value_label_color(&values, bit_value.as_str());
                            let mut bit_id = String::new();
                            push_str(&mut bit_id, "bit");
                            push_str(&mut bit_id, id.as_str());
                            assert(bit_id@ =~= "bit"@ + id@);
                            let name = match bit_elem.get_child_text("name") {
                                Some(n) => n,
                                None => bit_id.clone(),
                            };
                            let description = label_text(
                                name.as_str(),
                                bit_value.as_str(),
                                &label,
                            );
                            let f = leaf(
                                bit_id,
                                bit_value,
                                description,
                                index + start / 8,
                                index + end / 8 + 1,
                                color,
                            );
                            out.push(f);
                            assert(fields_view(out@) =~= before.push(f@));
                        }
                    },
                },
            }
            i += 1;
        }
        (out, data_segment.len())
    }

    /// The text of a timestamp element, and the number of bytes given.
    pub fn prase_time_item(
        data_item_elem: &XmlElement,
        data_segment: &[u8],
        index: usize,
        need_delete: bool,
        protocol: &str,
        region: &str,
        dir: Option<u8>,
    ) -> (r: (String, Option<Vec<DecodedField>>, usize))
        ensures
            r.0@ == time_item_text(data_item_elem@, data_segment@, need_delete),
            r.1 is None,
            r.2 == data_segment@.len(),
    {
        reveal(time_item_text);
        let format = match data_item_elem.get_child_text("time") {
            Some(t) => t,
            None => "ssmmhhWWDDMMYYCC".to_owned(),
        };
        let kind = match data_item_elem.get_child_text("type") {
            Some(t) => t,
            None => "BCD".to_owned(),
        };
        let window = time_window_of(data_segment, kind.as_str());
        let text = FrameFun::parse_time_data(window.as_slice(), format.as_str(), need_delete);
        (text, None, data_segment.len())
    }

    /// The text and the child fields of a scalar element, and the number of bytes
    /// given.
    pub fn prase_singal_item(
        data_item_elem: &XmlElement,
        data_segment: &[u8],
        index: usize,
        need_delete: bool,
        protocol: &str,
        region: &str,
        dir: Option<u8>,
    ) -> (r: (String, Option<Vec<DecodedField>>, usize))
        requires
            index + data_segment@.len() <= usize::MAX,
        ensures
            r.0@ == single_item_parts(data_item_elem@, data_segment@, index as int, need_delete).0,
            opt_fields_view(r.1) == single_item_parts(
                data_item_elem@,
                data_segment@,
                index as int,
                need_delete,
            ).1,
            r.2 == data_segment@.len(),
    {
        reveal(single_item_parts);
        let n = data_segment.len();
        if data_item_elem.has_child("unit") {
            let unit = match data_item_elem.get_child_text("unit") {
                Some(u) => u,
                None => String::new(),
            };
            let simple = Self::prase_simple_type_data(
                data_item_elem,
                data_segment,
                index,
                need_delete,
                protocol,
                region,
                dir,
            );
            match simple {
                Some(v) => {
                    let mut out = v;
                    push_char(&mut out, ' ');
                    push_str(&mut out, unit.as_str());
                    (out, None, n)
                },
                None => {
                    let decimal = decimal_places_of(data_item_elem);
                    let sign = is_signed_of(data_item_elem);
                    let mut out = FrameFun::bcd_to_decimal(data_segment, decimal, need_delete, sign);
                    if !str_eq(out.as_str(), "无效数据") {
                        push_char(&mut out, ' ');
                        push_str(&mut out, unit.as_str());
                    }
                    (out, None, n)
                },
            }
        } else if data_item_elem.has_child("time") {
            let format = match data_item_elem.get_child_text("time") {
                Some(t) => t,
                None => String::new(),
            };
            let kind = match data_item_elem.get_child_text("type") {
                Some(t) => t,
                None => String::new(),
            };
            let window = time_window_of(data_segment, kind.as_str());
            (
                FrameFun::parse_time_data(window.as_slice(), format.as_str(), need_delete),
                None,
                n,
            )
        } else {
            match data_item_elem.get_child("splitbit") {
                Some(splitbit_elem) => {
                    let (fields, len) = Self::parse_bitwise_data(
                        splitbit_elem,
                        data_segment,
                        index,
                        need_delete,
                        protocol,
                        region,
                        dir,
                    );
                    (String::new(), Some(fields), n)
                },
                None => {
                    let simple = Self::prase_simple_type_data(
                        data_item_elem,
                        data_segment,
                        index,
                        need_delete,
                        protocol,
                        region,
                        dir,
                    );
                    match simple {
                        Some(v) => (v, None, n),
                        None => {
                            let decimal = decimal_places_of(data_item_elem);
                            let sign = is_signed_of(data_item_elem);
                            (
                                FrameFun::bcd_to_decimal(data_segment, decimal, need_delete, sign),
                                None,
                                n,
                            )
                        },
                    }
                },
            }
        }
    }

    /// The text, the child fields and the colour of an enumerated measurement, and
    /// the number of bytes given. Where the value table has no entry for the leading
    /// token of the value and none under the key `other`, the text is the name,
    /// a colon and the bare value, with no label behind it, and there is no
    /// colour.
    pub fn prase_value_item(
        data_item_elem: &XmlElement,
        data_segment: &[u8],
        index: usize,
        need_delete: bool,
        protocol: &str,
        region: &str,
        dir: Option<u8>,
    ) -> (r: (String, Option<Vec<DecodedField>>, usize, Option<String>))
        requires
            index + data_segment@.len() <= usize::MAX,
        ensures
            r.0@ == value_item_parts(data_item_elem@, data_segment@, index as int, need_delete).0,
            opt_fields_view(r.1) == value_item_parts(
                data_item_elem@,
                data_segment@,
                index as int,
                need_delete,
            ).1,
            r.2 == data_segment@.len(),
            text_view(r.3) == value_item_parts(
                data_item_elem@,
                data_segment@,
                index as int,
                need_delete,
            ).2,
            ({
                let e = data_item_elem@;
                let shown = single_item_parts(e, data_segment@, index as int, need_delete).0;
                let raw = leading_token(shown);
                index_of_attr(e.items("value"@), "key"@, raw) is None && index_of_attr(
                    e.items("value"@),
                    "key"@,
                    "other"@,
                ) is None ==> r.0@ == text_or(e.child_text("name"@), raw) + ": "@ + shown && r.3 is None
            }),
    {
        reveal(value_item_parts);
        let (shown, sub, len) = Self::prase_singal_item(
            data_item_elem,
            data_segment,
            index,
            need_delete,
            protocol,
            region,
            dir,
        );
        let raw = match regex_capture("^([^\\s]+)\\s", shown.as_str(), 1) {
            Some(t) => t,
            None => shown.clone(),
        };
        let name = match data_item_elem.get_child_text("name") {
            Some(n) => n,
            None => raw.clone(),
        };
        let values = data_item_elem.get_items("value");
        let (label, color) = value_label_color(&values, raw.as_str());
        (label_text(name.as_str(), shown.as_str(), &label), sub, len, color)
    }

    /// The text for a point bitmap.
    pub fn prase_da_data(da: &[u8]) -> (r: String)
        ensures
            r@ == pn_text(da@),
    {
        da_to_text(
            da,
            "Pn=测量点:0(终端)",
            "Pn=测量点:FFFF(除了终端信息点以外的所有测量点)",
            "Pn=测量点",
            "",
        )
    }

    /// The fields of a sequence of two-byte point bitmaps.
    pub fn prase_pn_type(
        data_segment: &[u8],
        index: usize,
        item_len: usize,
        protocol: &str,
        region: &str,
        dir: Option<u8>,
    ) -> (r: Vec<DecodedField>)
        requires
            index + data_segment@.len() <= usize::MAX,
        ensures
            fields_view(r@) == pn_fields(data_segment@, index as int, item_len as int),
    {
        reveal(pn_fields);
        let mut out: Vec<DecodedField> = Vec::new();
        let n = data_segment.len();
        if n % 2 == 0 {
            let mut i: usize = 0;
            let ghost want = pn_fields(data_segment@, index as int, item_len as int);
            while i < n / 2
                invariant
                    i <= n / 2,
                    n == data_segment@.len(),
                    n % 2 == 0,
                    index + n <= usize::MAX,
                    want == pn_fields(data_segment@, index as int, item_len as int),
                    out@.len() == i,
                    forall|k: int| 0 <= k < i ==> field_view(#[trigger] out@[k]) == want[k],
                decreases n / 2 - i,
            {
                reveal(pn_fields);
                let sub = slice_subrange(data_segment, 2 * i, 2 * i + 2);
                let f = leaf(
                    group_label_of(i, "信息点"),
                    FrameFun::get_data_str_with_space(sub),
                    Self::prase_da_data(sub),
                    index + 2 * i,
                    index + 2 * i + 2,
                    None,
                );
                out.push(f);
                i += 1;
            }
            assert(fields_view(out@) =~= want);
        } else {
            let end: usize = if item_len <= n { index + item_len } else { index + n };
            let f = opaque("PN".to_owned(), data_segment, index, end);
            out.push(f);
            assert(fields_view(out@) =~= seq![f@]);
        }
        out
    }

    /// The fields of a port of two bytes followed by an address.
    pub fn prase_ip_and_port(
        data_segment: &[u8],
        index: usize,
        item_len: usize,
        protocol: &str,
        region: &str,
        dir: Option<u8>,
    ) -> (r: Vec<DecodedField>)
        requires
            index + data_segment@.len() <= usize::MAX,
        ensures
            fields_view(r@) == ip_port_fields(data_segment@, index as int),
    {
        reveal(ip_port_fields);
        let n = data_segment.len();
        let p: usize = if n >= 2 { 2 } else { n };
        let port = slice_subrange(data_segment, 0, p);
        let ip = slice_subrange(data_segment, p, n);
        assert(port@ =~= data_segment@.take(p as int));
        assert(ip@ =~= data_segment@.skip(p as int));
        let mut out: Vec<DecodedField> = Vec::new();
        let f1 = leaf(
            "IP地址".to_owned(),
            FrameFun::get_data_str_with_space(ip),
            FrameFun::prase_ip_str(ip),
            index + p,
            index + n,
            None,
        );
        let f2 = leaf(
            "端口号".to_owned(),
            FrameFun::get_data_str_with_space(port),
            FrameFun::prase_port(port),
            index,
            index + p,
            None,
        );
        out.push(f1);
        out.push(f2);
        assert(fields_view(out@) =~= seq![f1@, f2@]);
        out
    }
}

/// The contents of an optional list of fields.
pub open spec fn opt_fields_view(o: Option<Vec<DecodedField>>) -> Option<Seq<FieldView>> {
    match o {
        Some(l) => Some(fields_view(l@)),
        None => None,
    }
}

/// What a decode is asked under: the schema repository, the protocol, the region
/// and the direction.
pub struct Query {
    pub repo: ProtocolConfigManager,
    pub protocol: Seq<char>,
    pub region: Seq<char>,
    pub dir: Option<u8>,
}

impl Query {
    /// The item that an id resolves to under this query.
    #[verifier::opaque]
    pub open spec fn item(self, id: Seq<char>) -> Option<ElementView> {
        self.repo.config_xml(id, self.protocol, self.region, self.dir)
    }

    /// The template that a name resolves to under this query.
    #[verifier::opaque]
    pub open spec fn template(self, name: Seq<char>) -> Option<ElementView> {
        self.repo.template(name, self.protocol, self.region, self.dir)
    }
}

/// What is known of one resolved sibling of a record: its name, where it ends
/// within the record, its length, and its schema element.
pub struct EntryView {
    pub name: Seq<char>,
    pub end: nat,
    pub len: nat,
    pub node: ElementView,
}

/// The newest entry of a resolution context with the given name.
pub open spec fn context_lookup(ctx: Seq<EntryView>, name: Seq<char>) -> Option<EntryView>
    decreases ctx.len(),
{
    if ctx.len() == 0 {
        None
    } else if ctx.last().name == name {
        Some(ctx.last())
    } else {
        context_lookup(ctx.drop_last(), name)
    }
}

/// The pattern of a sentinel rule, `RANGE(<sibling>)`.
pub open spec fn range_pattern() -> Seq<char> {
    "^RANGE\\(([^)]+)\\)$"@
}

/// The pattern of an arithmetic rule: a number, an operator, an operand.
pub open spec fn rule_pattern() -> Seq<char> {
    "(\\d+)\\s*([+\\-*/])\\s*(.+)"@
}

/// The pattern of a run of digits.
pub open spec fn digits_pattern() -> Seq<char> {
    "(\\d+)"@
}

/// The pattern that a length rule has to meet to be evaluated on an element
/// without record children.
pub open spec fn valid_pattern() -> Seq<char> {
    "^\\s*\\d+\\s*[\\+\\-\\*/]\\s*(\\d+|[^\\s]*)\\s*$"@
}

/// The result of an arithmetic length rule. Sums and products stop at the largest
/// machine number, a difference stops at zero, and a division by zero gives zero.
#[verifier::opaque]
pub open spec fn apply_rule(number: nat, op: Seq<char>, operand: nat) -> nat {
    if op == "+"@ {
        min_of((number + operand) as int, usize::MAX as int) as nat
    } else if op == "-"@ {
        if number >= operand { (number - operand) as nat } else { 0 }
    } else if op == "*"@ {
        min_of((number * operand) as int, usize::MAX as int) as nat
    } else if op == "/"@ {
        if operand == 0 { 0 } else { number / operand }
    } else {
        0
    }
}

/// The offset from `from` of the first byte equal to `byte`, looking from offset
/// `i` on.
pub open spec fn scan_from(data: Seq<u8>, from: int, byte: u8, i: int) -> Option<nat>
    decreases data.len() - from - i,
{
    if from < 0 || i < 0 || from + i >= data.len() {
        None
    } else if data[from + i] == byte {
        Some(i as nat)
    } else {
        scan_from(data, from, byte, i + 1)
    }
}

/// The length that a sentinel rule gives: the offset, from the end of the named
/// sibling, of the next byte that equals the sibling's last byte.
#[verifier::opaque]
pub open spec fn sentinel_length(data: Seq<u8>, ctx: Seq<EntryView>, name: Seq<char>) -> Option<nat> {
    match context_lookup(ctx, name) {
        Some(en) => if 1 <= en.end <= data.len() {
            scan_from(data, en.end as int, data[en.end - 1], 0)
        } else {
            None
        },
        None => None,
    }
}

/// The number that a decoded sibling shows: the first run of digits in the
/// description of the last field that carries the sibling's name.
#[verifier::opaque]
pub open spec fn shown_number(fields: Seq<FieldView>, name: Seq<char>) -> nat {
    let description = match last_labelled(fields, name) {
        Some(f) => f.description,
        None => Seq::empty(),
    };
    number_or_zero(regex_capture_of(digits_pattern(), description, 1))
}

/// The last field of a list that carries the given label.
pub open spec fn last_labelled(fields: Seq<FieldView>, name: Seq<char>) -> Option<FieldView>
    decreases fields.len(),
{
    if fields.len() == 0 {
        None
    } else if fields.last().frame_domain == name {
        Some(fields.last())
    } else {
        last_labelled(fields.drop_last(), name)
    }
}

/// The literal length of the item that a reference resolves to; zero where it
/// resolves to none or the item declares no literal length.
pub open spec fn referenced_length(q: Query, item: ElementView) -> nat {
    match item.value {
        Some(id) => match q.item(id) {
            Some(el) => match static_length(el) {
                Some(n) => n,
                None => 0,
            },
            None => 0,
        },
        None => 0,
    }
}

/// The sum of the literal lengths of the items that a list of references resolves
/// to, stopping at the largest machine number.
pub open spec fn box_length(q: Query, items: Seq<ElementView>) -> nat
    decreases items.len(),
{
    if items.len() == 0 {
        0
    } else {
        min_of(
            (box_length(q, items.drop_last()) + referenced_length(q, items.last())) as int,
            usize::MAX as int,
        ) as nat
    }
}

/// The name under which child `i` of a record enters the resolution context.
#[verifier::opaque]
pub open spec fn child_name(sub: ElementView, i: int) -> Seq<char> {
    let default = "splitByLength"@ + dec_string(i as nat);
    match sub.child("name"@) {
        Some(n) => text_or(n.value, default),
        None => match sub.child("item"@) {
            Some(it) => text_or(it.value, default),
            None => default,
        },
    }
}

/// Whether a type name is one of the primitives that end a template delegation.
pub open spec fn is_primitive(up: Seq<char>) -> bool {
    up == "BCD"@ || up == "BIN"@ || up == "ASCII"@ || up == "BIN_BE"@
}

/// A text with every occurrence of `pat` from `i` on replaced by `with`, read from
/// the left, no occurrence overlapping another.
pub open spec fn replace_from(s: Seq<char>, pat: Seq<char>, with: Seq<char>, i: int) -> Seq<char>
    decreases s.len() - i,
{
    if i < 0 || i >= s.len() || pat.len() == 0 {
        if 0 <= i <= s.len() { s.skip(i) } else { Seq::empty() }
    } else if occurs_at(s, pat, i) {
        with + replace_from(s, pat, with, i + pat.len())
    } else {
        seq![s[i]] + replace_from(s, pat, with, i + 1)
    }
}

/// A text with every occurrence of `pat` replaced by `with`.
pub open spec fn replace_all(s: Seq<char>, pat: Seq<char>, with: Seq<char>) -> Seq<char> {
    replace_from(s, pat, with, 0)
}

/// The label of instance `i` of a repeated template, counted from one: the
/// template's name with `%d` replaced by the instance number where it holds one,
/// else `<name> #<number>`; for a template without a name, the number of the group
/// of data.
#[verifier::opaque]
pub open spec fn instance_label(name: Option<Seq<char>>, i: int) -> Seq<char> {
    match name {
        Some(s) => {
            let r = replace_all(s, "%d"@, dec_string((i + 1) as nat));
            if s.contains('%') && r != s { r } else { s + " #"@ + dec_string((i + 1) as nat) }
        },
        None => group_label(i, "数据内容"@),
    }
}

/// A field under a new label, its description without the `<id>_` of the template.
pub open spec fn relabel_one(f: FieldView, label: Seq<char>, id: Option<Seq<char>>) -> FieldView {
    FieldView {
        frame_domain: label,
        description: match id {
            Some(a) => replace_all(f.description, a.push('_'), Seq::empty()),
            None => f.description,
        },
        ..f
    }
}

/// Fields under a new label.
#[verifier::opaque]
pub open spec fn relabel(fields: Seq<FieldView>, label: Seq<char>, id: Option<Seq<char>>) -> Seq<
    FieldView,
> {
    Seq::new(fields.len(), |i: int| relabel_one(fields[i], label, id))
}

/// The fields of a sequence of four-byte data identifiers, each with the name of
/// the item that it resolves to; one opaque field where the bytes are no whole
/// number of identifiers.
#[verifier::opaque]
pub open spec fn item_fields(q: Query, data: Seq<u8>, index: int, item_len: int) -> Seq<FieldView> {
    if data.len() % 4 == 0 {
        Seq::new(
            data.len() / 4,
            |i: int|
                {
                    let g = data.subrange(4 * i, 4 * i + 4);
                    let id = hex_concat(g.reverse());
                    leaf_field(
                        group_label(i, "数据标识"@),
                        hex_spaced(g),
                        match q.item(id) {
                            Some(el) => match el.child_text("name"@) {
                                Some(n) => id.push(' ') + n,
                                None => id,
                            },
                            None => id,
                        },
                        index + 4 * i,
                        index + 4 * i + 4,
                        None,
                    )
                },
        )
    } else {
        seq![opaque_field("ITEM"@, data, index, index + min_of(item_len, data.len() as int))]
    }
}

/// The number of bytes that a decode of an element takes from the bytes given: its
/// literal length where it declares one that the bytes can meet, else all of them.
pub open spec fn consumed_length(e: ElementView, data: Seq<u8>) -> nat {
    match static_length(e) {
        Some(n) => if n <= data.len() { n } else { data.len() },
        None => data.len(),
    }
}

/// The length that an arithmetic or sentinel rule gives within a record.
pub open spec fn rule_length(
    q: Query,
    rules: Seq<char>,
    data: Seq<u8>,
    ctx: Seq<EntryView>,
    fuel: nat,
) -> nat
    decreases fuel, 3nat, 0nat,
{
    if data.len() == 0 {
        0
    } else {
        let ranged = match regex_capture_of(range_pattern(), rules, 1) {
            Some(name) => sentinel_length(data, ctx, name),
            None => None,
        };
        match ranged {
            Some(n) => n,
            None => match (
                regex_capture_of(rule_pattern(), rules, 1),
                regex_capture_of(rule_pattern(), rules, 2),
                regex_capture_of(rule_pattern(), rules, 3),
            ) {
                (Some(num), Some(op), Some(text)) => {
                    let operand_text = trim_spec(text);
                    let number = number_or_zero(Some(num));
                    if all_digits(operand_text) {
                        apply_rule(number, op, number_or_zero(Some(operand_text)))
                    } else {
                        match context_lookup(ctx, operand_text) {
                            None => apply_rule(number, op, 0),
                            Some(en) => if en.len > data.len() || en.end > data.len() || en.end
                                < en.len {
                                0
                            } else {
                                apply_rule(
                                    number,
                                    op,
                                    shown_number(
                                        decoded_item(
                                            q,
                                            en.node,
                                            data.subrange(en.end - en.len, en.end as int),
                                            0,
                                            false,
                                            fuel,
                                        ),
                                        operand_text,
                                    ),
                                )
                            },
                        }
                    }
                },
                _ => 0,
            },
        }
    }
}

/// Whether every element from position `i` on declares a literal length.
pub open spec fn all_literal(items: Seq<ElementView>, i: int) -> bool {
    forall|k: int| i <= k < items.len() ==> static_length(#[trigger] items[k]) is Some
}

/// Where a record of children with literal lengths ends: behind the child at
/// `pos`, each child from position `i` on takes its length, or what is left of
/// `total` bytes where that is less.
pub open spec fn literal_end(items: Seq<ElementView>, i: int, total: nat, pos: nat) -> nat
    decreases items.len() - i,
{
    if i < 0 || i >= items.len() {
        pos
    } else {
        let left = if pos <= total { (total - pos) as nat } else { 0 };
        literal_end(
            items,
            i + 1,
            total,
            pos + min_of(text_number(static_length(items[i])) as int, left as int) as nat,
        )
    }
}

/// The number that a literal length holds; zero for none.
pub open spec fn text_number(n: Option<nat>) -> nat {
    match n {
        Some(v) => v,
        None => 0,
    }
}

/// The sum of the literal lengths of the elements from position `i` on.
pub open spec fn literal_sum(items: Seq<ElementView>, i: int) -> nat
    decreases items.len() - i,
{
    if i < 0 || i >= items.len() {
        0
    } else {
        text_number(static_length(items[i])) + literal_sum(items, i + 1)
    }
}

/// A record of children with literal lengths whose sum fits the bytes that are
/// left ends exactly that sum behind its start: the length of the record is the
/// sum of the lengths of its children.
pub proof fn lemma_literal_end_is_sum(items: Seq<ElementView>, i: int, total: nat, pos: nat)
    requires
        0 <= i <= items.len(),
        pos + literal_sum(items, i) <= total,
    ensures
        literal_end(items, i, total, pos) == pos + literal_sum(items, i),
    decreases items.len() - i,
{
    if i < items.len() {
        lemma_literal_end_is_sum(
            items,
            i + 1,
            total,
            pos + text_number(static_length(items[i])),
        );
    }
}

/// The length of one child of a record, never more than the bytes that are left
/// from `pos` on: its literal length; for the sentinel `UNKNOWN`, what its length
/// rule gives, or without a rule the length of its own structure; without a
/// length, the lengths of the items that it refers to, or all that is left.
pub open spec fn child_length(
    q: Query,
    sub: ElementView,
    data: Seq<u8>,
    pos: nat,
    ctx: Seq<EntryView>,
    fuel: nat,
) -> nat
    decreases fuel, 4nat, 0nat,
{
    let left = if pos <= data.len() { (data.len() - pos) as nat } else { 0 };
    let raw = match sub.child_text("length"@) {
        Some(t) => if is_unknown(t) {
            let rules = text_or(sub.child_text("lengthrule"@), Seq::empty());
            if rules.len() > 0 {
                rule_length(q, rules, data, ctx, fuel)
            } else {
                item_length(q, sub, data.skip(pos as int), None, fuel)
            }
        } else {
            number_or_zero(Some(t))
        },
        None => {
            let items = sub.items("item"@);
            if items.len() > 0 { box_length(q, items) } else { left }
        },
    };
    min_of(raw as int, left as int) as nat
}

/// The length of a record from child `i` on, `pos` bytes being taken already.
pub open spec fn record_length(
    q: Query,
    items: Seq<ElementView>,
    i: int,
    data: Seq<u8>,
    pos: nat,
    ctx: Seq<EntryView>,
    fuel: nat,
) -> nat
    decreases fuel, 5nat, items.len() - i,
{
    if i < 0 || i >= items.len() {
        pos
    } else {
        let l = child_length(q, items[i], data, pos, ctx, fuel);
        record_length(
            q,
            items,
            i + 1,
            data,
            pos + l,
            ctx.push(EntryView { name: child_name(items[i], i), end: pos + l, len: l, node: items[i] }),
            fuel,
        )
    }
}

/// The resolved length of an element over the bytes that are left, never more
/// than those: the sum of the lengths of its record children; without such
/// children, what its length rule gives, or else the length of the template that
/// its type names.
pub open spec fn item_length(
    q: Query,
    e: ElementView,
    data: Seq<u8>,
    items: Option<Seq<ElementView>>,
    fuel: nat,
) -> nat
    decreases fuel, 1nat, 0nat,
{
    if fuel == 0 {
        0
    } else {
        let budget = (fuel - 1) as nat;
        let all = match items {
            Some(l) => l,
            None => e.items("splitByLength"@),
        };
        let raw = raw_length(q, e, all, data, budget);
        min_of(raw as int, data.len() as int) as nat
    }
}

/// The length of an element or a template that declares `UNKNOWN` or no length;
/// its literal length otherwise.
pub open spec fn declared_length(q: Query, e: ElementView, data: Seq<u8>, absent: nat, fuel: nat) -> nat
    decreases fuel, 2nat, 0nat,
{
    match e.child_text("length"@) {
        Some(t) => if is_unknown(t) {
            item_length(q, e, data, None, fuel)
        } else {
            number_or_zero(Some(t))
        },
        None => absent,
    }
}

/// The fields of the items that a list of references resolves to, from reference
/// `i` on: each item decoded over the next bytes by its own length; a reference
/// that does not resolve takes the rest of the bytes as one opaque field.
pub open spec fn item_box_from(
    q: Query,
    items: Seq<ElementView>,
    i: int,
    data: Seq<u8>,
    pos: nat,
    index: int,
    need_delete: bool,
    acc: Seq<FieldView>,
    fuel: nat,
) -> (Seq<FieldView>, nat)
    decreases fuel, 3nat, items.len() - i,
{
    if i < 0 || i >= items.len() || pos > data.len() {
        (acc, pos)
    } else {
        match items[i].value {
            None => item_box_from(q, items, i + 1, data, pos, index, need_delete, acc, fuel),
            Some(id) => match q.item(id) {
                Some(el) => {
                    let left = data.skip(pos as int);
                    let l = min_of(declared_length(q, el, left, 0, fuel) as int, left.len() as int) as nat;
                    item_box_from(
                        q,
                        items,
                        i + 1,
                        data,
                        pos + l,
                        index,
                        need_delete,
                        acc + decoded_item(
                            q,
                            el,
                            data.subrange(pos as int, (pos + l) as int),
                            index + pos,
                            need_delete,
                            fuel,
                        ),
                        fuel,
                    )
                },
                None => item_box_from(
                    q,
                    items,
                    i + 1,
                    data,
                    data.len(),
                    index,
                    need_delete,
                    acc.push(
                        opaque_field(id, data.skip(pos as int), index + pos, index + data.len()),
                    ),
                    fuel,
                ),
            },
        }
    }
}

/// The fields of the instances of a repeated template from byte `pos` on, `i`
/// instances being decoded already.
pub open spec fn template_from(
    q: Query,
    tpl: ElementView,
    data: Seq<u8>,
    unit: nat,
    pos: nat,
    i: nat,
    index: int,
    need_delete: bool,
    acc: Seq<FieldView>,
    fuel: nat,
) -> Seq<FieldView>
    decreases fuel, 3nat, data.len() - pos,
{
    if unit == 0 || pos + unit > data.len() {
        acc
    } else {
        let sub = data.subrange(pos as int, (pos + unit) as int);
        let label = instance_label(tpl.child_text("name"@), i as int);
        let value = decoded_item(q, tpl, sub, index + pos, need_delete, fuel);
        let add = if value.len() > 0 {
            relabel(value, label, tpl.attribute("id"@))
        } else {
            seq![
                FieldView {
                    frame_domain: label,
                    data: hex_spaced(sub),
                    description: bracketed(label, hex_concat(sub.reverse())),
                    start: index + pos,
                    end: index + pos + unit,
                    color: None,
                    children: Some(Seq::empty()),
                },
            ]
        };
        template_from(
            q,
            tpl,
            data,
            unit,
            pos + unit,
            i + 1,
            index,
            need_delete,
            acc + add,
            fuel,
        )
    }
}

/// The unit length of a template over the bytes given.
pub open spec fn template_unit(q: Query, tpl: ElementView, data: Seq<u8>, fuel: nat) -> nat
    decreases fuel, 3nat, 0nat,
{
    declared_length(q, tpl, data, item_length(q, tpl, data, None, fuel), fuel)
}

/// The text and the fields of a value whose type names a template. Where the
/// template or the element that names it is marked as single, the template is
/// decoded once over the bytes, however many units they hold. Else, where the
/// bytes are a whole number of the template's unit length, there is one decode
/// of the template for each unit, and else one opaque field.
pub open spec fn template_parts(
    q: Query,
    tpl: ElementView,
    data: Seq<u8>,
    item_len: int,
    index: int,
    need_delete: bool,
    caller_single: bool,
    fuel: nat,
) -> (Seq<char>, Seq<FieldView>)
    decreases fuel, 4nat, 0nat,
{
    let unit = template_unit(q, tpl, data, fuel);
    let all = hex_concat(data);
    if is_single(tpl) || caller_single {
        (all, decoded_item(q, tpl, data, index, need_delete, fuel))
    } else if unit > 0 && data.len() % unit == 0 {
        (all, template_from(q, tpl, data, unit, 0, 0, index, need_delete, Seq::empty(), fuel))
    } else {
        (
            all,
            seq![
                leaf_field(
                    instance_label(tpl.child_text("name"@), 0),
                    hex_spaced(data),
                    all,
                    index,
                    index + min_of(item_len, data.len() as int),
                    None,
                ),
            ],
        )
    }
}

/// The text and the child fields of an element with a type: a primitive, one of
/// the built-in composites, or a named template. An embedded frame, a value of
/// the type `FRAME645` or `FRAMECSG13`, is not read here: it gives one field
/// under the name of the type that holds the bytes of the frame and has nothing
/// below it. Reading the frames is a pass of its own over the decoded fields,
/// `FrameAnalisyic::expand_embedded`, which puts the fields of each frame in the
/// place of that field.
pub open spec fn type_item_parts(
    q: Query,
    e: ElementView,
    data: Seq<u8>,
    index: int,
    need_delete: bool,
    single_len: int,
    fuel: nat,
) -> (Seq<char>, Option<Seq<FieldView>>)
    decreases fuel, 5nat, 0nat,
{
    let content = maybe_strip33(data, need_delete);
    match simple_type_text(e, data, false) {
        Some(v) => (v, Some(Seq::empty())),
        None => {
            let t = text_or(e.child_text("type"@), Seq::empty());
            if t == "PN"@ {
                (Seq::empty(), Some(pn_fields(content, index, single_len)))
            } else if t == "ITEM"@ {
                (Seq::empty(), Some(item_fields(q, content, index, single_len)))
            } else if t == "FRAME645"@ || t == "FRAMECSG13"@ {
                (
                    Seq::empty(),
                    Some(seq![opaque_field(t, content, index, index + content.len())]),
                )
            } else if t == "IPWITHPORT"@ {
                (Seq::empty(), Some(ip_port_fields(content, index)))
            } else {
                match q.template(t) {
                    Some(tpl) => {
                        let (text, fields) = template_parts(
                            q,
                            tpl,
                            content,
                            single_len,
                            index,
                            false,
                            is_single(e),
                            fuel,
                        );
                        (text, Some(fields))
                    },
                    None => single_item_parts(e, content, index, false),
                }
            }
        },
    }
}

/// The field of one child of a record over the bytes resolved for it.
pub open spec fn split_child_field(
    q: Query,
    item: ElementView,
    content: Seq<u8>,
    start: int,
    need_delete: bool,
    fuel: nat,
) -> FieldView
    decreases fuel, 6nat, 0nat,
{
    let sub_name = item_label(item.attribute("id"@), item.child_text("name"@));
    let hex = hex_concat(content);
    let (text, sub, color) = if item.has_child("unit"@) && item.has_child("value"@) {
        value_item_parts(item, content, start, need_delete)
    } else if item.has_child("unit"@) {
        let (t, s) = single_item_parts(item, content, start, need_delete);
        (bracketed(sub_name, or_if_empty(t, hex)), s, None)
    } else if item.has_child("value"@) {
        value_item_parts(item, content, start, need_delete)
    } else if item.has_child("time"@) {
        (
            bracketed(sub_name, or_if_empty(time_item_text(item, content, need_delete), hex)),
            None,
            None,
        )
    } else if item.has_child("splitbit"@) {
        (
            Seq::empty(),
            Some(bitwise_fields(item.child("splitbit"@).unwrap(), content, start, need_delete)),
            None,
        )
    } else if item.has_child("splitByLength"@) {
        (Seq::empty(), Some(split_fields(q, item, content, start, need_delete, fuel).0), None)
    } else if item.has_child("type"@) {
        let (t, s) = type_item_parts(
            q,
            item,
            content,
            start,
            need_delete,
            content.len() as int,
            fuel,
        );
        (bracketed(sub_name, or_if_empty(t, hex)), s, None)
    } else if item.has_child("item"@) {
        (
            Seq::empty(),
            Some(
                item_box_from(
                    q,
                    item.items("item"@),
                    0,
                    content,
                    0,
                    start,
                    need_delete,
                    Seq::empty(),
                    fuel,
                ).0,
            ),
            None,
        )
    } else {
        let (t, s) = single_item_parts(item, content, start, need_delete);
        (bracketed(sub_name, or_if_empty(t, hex)), s, None)
    };
    FieldView {
        frame_domain: sub_name,
        data: hex_spaced(content),
        description: if sub is None { text } else { or_if_empty(text, bracketed(sub_name, hex)) },
        start,
        end: start + content.len(),
        color,
        children: sub,
    }
}

/// The fields of a record from child `i` on, and the bytes taken: each child gets
/// the next bytes by its resolved length and gives one field.
pub open spec fn split_fields_from(
    q: Query,
    items: Seq<ElementView>,
    i: int,
    data: Seq<u8>,
    pos: nat,
    ctx: Seq<EntryView>,
    index: int,
    need_delete: bool,
    acc: Seq<FieldView>,
    fuel: nat,
) -> (Seq<FieldView>, nat)
    decreases fuel, 7nat, items.len() - i,
{
    if i < 0 || i >= items.len() || pos > data.len() {
        (acc, pos)
    } else {
        let l = child_length(q, items[i], data, pos, ctx, fuel);
        let f = split_child_field(
            q,
            items[i],
            data.subrange(pos as int, (pos + l) as int),
            index + pos,
            need_delete,
            fuel,
        );
        split_fields_from(
            q,
            items,
            i + 1,
            data,
            pos + l,
            ctx.push(EntryView { name: child_name(items[i], i), end: pos + l, len: l, node: items[i] }),
            index,
            need_delete,
            acc.push(f),
            fuel,
        )
    }
}

/// The fields of an ordered record and the bytes that they take: one field for
/// each declared child, after one for the bitfield group of the record where it
/// has one. No bytes, or a nesting deeper than `fuel`, give no field.
pub open spec fn split_fields(
    q: Query,
    e: ElementView,
    data: Seq<u8>,
    index: int,
    need_delete: bool,
    fuel: nat,
) -> (Seq<FieldView>, nat)
    decreases fuel, 2nat, 0nat,
{
    if fuel == 0 || data.len() == 0 {
        (Seq::empty(), 0)
    } else {
        let head = if e.has_child("splitbit"@) {
            seq![
                FieldView {
                    frame_domain: item_label(e.attribute("id"@), e.child_text("name"@)),
                    data: hex_spaced(data),
                    description: hex_concat(data),
                    start: index,
                    end: index + data.len(),
                    color: None,
                    children: Some(bitwise_fields(e, data, index, need_delete)),
                },
            ]
        } else {
            Seq::empty()
        };
        split_fields_from(
            q,
            e.items("splitByLength"@),
            0,
            data,
            0,
            Seq::empty(),
            index,
            need_delete,
            head,
            (fuel - 1) as nat,
        )
    }
}

/// The fields of the parts of a composite record from part `i` on, and the bytes
/// taken: each part with a literal length is decoded over the next bytes; a part
/// without one is passed over, and a part that the bytes cannot meet ends the
/// record.
pub open spec fn all_items_from(
    q: Query,
    items: Seq<ElementView>,
    i: int,
    data: Seq<u8>,
    pos: nat,
    index: int,
    need_delete: bool,
    acc: Seq<FieldView>,
    fuel: nat,
) -> (Seq<FieldView>, nat)
    decreases fuel, 3nat, items.len() - i,
{
    if i < 0 || i >= items.len() || pos > data.len() {
        (acc, pos)
    } else {
        match static_length(items[i]) {
            None => all_items_from(q, items, i + 1, data, pos, index, need_delete, acc, fuel),
            Some(l) => if l > data.len() - pos {
                (acc, pos)
            } else {
                all_items_from(
                    q,
                    items,
                    i + 1,
                    data,
                    pos + l,
                    index,
                    need_delete,
                    acc + decoded_item(
                        q,
                        items[i],
                        data.subrange(pos as int, (pos + l) as int),
                        index + pos,
                        need_delete,
                        fuel,
                    ),
                    fuel,
                )
            },
        }
    }
}

/// The length handed to the decode of a typed element.
pub open spec fn type_length(q: Query, e: ElementView, data: Seq<u8>, fuel: nat) -> nat
    decreases fuel, 6nat, 0nat,
{
    if e.has_child("length"@) {
        match e.child_text("length"@) {
            Some(t) => if is_unknown(t) {
                item_length(q, e, data, None, fuel)
            } else {
                match parse_usize_spec(t) {
                    Some(n) => n,
                    None => data.len(),
                }
            },
            None => {
                let items = e.items("item"@);
                if items.len() > 0 { box_length(q, items) } else { 0 }
            },
        }
    } else {
        data.len()
    }
}

/// The description, the child fields and the colour that the shape of an element
/// gives over the bytes taken for it.
pub open spec fn item_parts(
    q: Query,
    e: ElementView,
    seg: Seq<u8>,
    index: int,
    need_delete: bool,
    name: Seq<char>,
    plain: Seq<char>,
    fuel: nat,
) -> (Seq<char>, Option<Seq<FieldView>>, Option<Seq<char>>)
    decreases fuel, 8nat, 0nat,
{
    if e.items("dataItem"@).len() > 0 {
        (
            plain,
            Some(
                all_items_from(
                    q,
                    e.items("dataItem"@),
                    0,
                    seg,
                    0,
                    index,
                    need_delete,
                    Seq::empty(),
                    fuel,
                ).0,
            ),
            None,
        )
    } else if e.has_child("unit"@) && e.has_child("value"@) {
        value_item_parts(e, seg, index, need_delete)
    } else if e.has_child("unit"@) {
        let (t, s) = single_item_parts(e, seg, index, need_delete);
        (bracketed(name, t), s, None)
    } else if e.has_child("value"@) {
        value_item_parts(e, seg, index, need_delete)
    } else if e.has_child("time"@) {
        (bracketed(name, time_item_text(e, seg, need_delete)), None, None)
    } else if e.has_child("splitbit"@) {
        (plain, Some(bitwise_fields(e, seg, index, need_delete)), None)
    } else if e.has_child("splitByLength"@) {
        (plain, Some(split_fields(q, e, seg, index, need_delete, fuel).0), None)
    } else if e.has_child("itembox"@) {
        (
            plain,
            Some(
                item_box_from(
                    q,
                    e.items("item"@),
                    0,
                    seg,
                    0,
                    index,
                    need_delete,
                    Seq::empty(),
                    fuel,
                ).0,
            ),
            None,
        )
    } else if e.has_child("indelength"@) {
        match index_of_attr(e.children, "len"@, dec_string(seg.len())) {
            Some(i) => (
                plain,
                Some(decoded_item(q, e.children[i], seg, index, need_delete, fuel)),
                None,
            ),
            None => (plain, None, None),
        }
    } else if e.has_child("type"@) {
        let (t, s) = type_item_parts(
            q,
            e,
            seg,
            index,
            need_delete,
            type_length(q, e, seg, fuel) as int,
            fuel,
        );
        (bracketed(name, t), s, None)
    } else {
        let (t, s) = single_item_parts(e, seg, index, need_delete);
        (bracketed(name, t), s, None)
    }
}

/// The decode of an element over a run of bytes that starts at the absolute
/// offset `index`: no field for no bytes; else one field that covers the bytes
/// taken, labelled by the element, with the wire bytes in hexadecimal and what
/// the shape of the element gives. A nesting deeper than `fuel` leaves the field
/// without interpretation. Frames embedded in the bytes are left as one field
/// each; `FrameAnalisyic::expand_embedded` reads them.
pub open spec fn decoded_item(
    q: Query,
    e: ElementView,
    data: Seq<u8>,
    index: int,
    need_delete: bool,
    fuel: nat,
) -> Seq<FieldView>
    decreases fuel, 0nat, 0nat,
{
    if data.len() == 0 {
        Seq::empty()
    } else {
        let len = consumed_length(e, data);
        let seg = data.take(len as int);
        let name = item_label(e.attribute("id"@), e.child_text("name"@));
        let shown = data_str(seg, need_delete, true, false);
        let plain = match e.child_text("name"@) {
            Some(n) => bracketed(n, shown),
            None => shown,
        };
        let (description, children, color) = if fuel == 0 {
            (plain, None, None)
        } else {
            item_parts(q, e, seg, index, need_delete, name, plain, (fuel - 1) as nat)
        };
        seq![
            FieldView {
                frame_domain: name,
                data: hex_spaced(seg),
                description,
                start: index,
                end: index + len,
                color,
                children,
            },
        ]
    }
}

/// The query that the arguments of a decode make.
pub open spec fn query_of(
    repo: &ProtocolConfigManager,
    protocol: Seq<char>,
    region: Seq<char>,
    dir: Option<u8>,
) -> Query {
    Query { repo: *repo, protocol, region, dir }
}

/// One resolved sibling of a record.
pub struct ContextEntry<'a> {
    pub name: String,
    pub end: usize,
    pub len: usize,
    pub node: &'a XmlElement,
}

/// The content of a context entry.
pub open spec fn entry_view(e: ContextEntry) -> EntryView {
    EntryView { name: e.name@, end: e.end as nat, len: e.len as nat, node: e.node@ }
}

/// The content of a resolution context.
pub open spec fn context_view(l: Seq<ContextEntry>) -> Seq<EntryView> {
    Seq::new(l.len(), |i: int| entry_view(l[i]))
}

/// The position of the newest entry with the given name.
pub fn lookup_context(ctx: &Vec<ContextEntry>, name: &str) -> (r: Option<usize>)
    ensures
        r is Some == context_lookup(context_view(ctx@), name@) is Some,
        r is Some ==> r.unwrap() < ctx@.len() && entry_view(ctx@[r.unwrap() as int])
            == context_lookup(context_view(ctx@), name@).unwrap(),
{
    let ghost v = context_view(ctx@);
    let mut i: usize = ctx.len();
    assert(v.take(i as int) =~= v);
    while i > 0
        invariant
            i <= ctx.len(),
            v == context_view(ctx@),
            context_lookup(v.take(i as int), name@) == context_lookup(v, name@),
        decreases i,
    {
        assert(v.take(i as int).last() == entry_view(ctx@[i - 1]));
        if str_eq(ctx[i - 1].name.as_str(), name) {
            return Some(i - 1);
        }
        assert(v.take(i as int).drop_last() =~= v.take(i - 1));
        i -= 1;
    }
    None
}

/// The result of an arithmetic length rule.
pub fn apply_length_rule(number: usize, op: &str, operand: usize) -> (r: usize)
    ensures
        r as nat == apply_rule(number as nat, op@, operand as nat),
{
    reveal(apply_rule);
    if str_eq(op, "+") {
        if number > usize::MAX - operand {
            usize::MAX
        } else {
            number + operand
        }
    } else if str_eq(op, "-") {
        if number >= operand {
            number - operand
        } else {
            0
        }
    } else if str_eq(op, "*") {
        if operand != 0 && number > usize::MAX / operand {
            assert(number * operand > usize::MAX) by (nonlinear_arith)
                requires
                    operand > 0,
                    number > (usize::MAX as int) / (operand as int),
            ;
            usize::MAX
        } else {
            assert(number * operand <= usize::MAX) by (nonlinear_arith)
                requires
                    operand == 0 || number <= (usize::MAX as int) / (operand as int),
            ;
            number * operand
        }
    } else if str_eq(op, "/") {
        if operand == 0 {
            0
        } else {
            number / operand
        }
    } else {
        0
    }
}

/// The offset from `from` of the first byte equal to `byte`.
pub fn scan_for(data: &[u8], from: usize, byte: u8) -> (r: Option<usize>)
    requires
        from <= data@.len(),
    ensures
        r is Some == scan_from(data@, from as int, byte, 0) is Some,
        r is Some ==> r.unwrap() as nat == scan_from(data@, from as int, byte, 0).unwrap(),
{
    let mut i: usize = 0;
    while i < data.len() - from
        invariant
            from <= data@.len(),
            i <= data@.len() - from,
            scan_from(data@, from as int, byte, i as int) == scan_from(data@, from as int, byte, 0),
        decreases data.len() - from - i,
    {
        if data[from + i] == byte {
            return Some(i);
        }
        i += 1;
    }
    None
}

/// A text with every occurrence of `pat` replaced by `with`.
pub fn replace_text(s: &str, pat: &str, with: &str) -> (r: String)
    ensures
        r@ == replace_all(s@, pat@, with@),
{
    let v = to_chars(s);
    let p = to_chars(pat);
    let mut out = String::new();
    if p.len() == 0 {
        push_str(&mut out, s);
        assert(out@ =~= s@.skip(0));
        return out;
    }
    let mut i: usize = 0;
    while i < v.len()
        invariant
            v@ == s@,
            p@ == pat@,
            p.len() > 0,
            i <= v.len(),
            out@ + replace_from(v@, p@, with@, i as int) == replace_all(s@, pat@, with@),
        decreases v.len() - i,
    {
        let ghost before = out@;
        if p.len() <= v.len() - i && crate::text::occurs_at_chars(&v, &p, i) {
            push_str(&mut out, with);
            assert(before + (with@ + replace_from(v@, p@, with@, i + p.len())) =~= out@
                + replace_from(v@, p@, with@, i + p.len()));
            i += p.len();
        } else {
            push_char(&mut out, v[i]);
            assert(before + (seq![v@[i as int]] + replace_from(v@, p@, with@, i + 1)) =~= out@
                + replace_from(v@, p@, with@, i + 1));
            i += 1;
        }
    }
    assert(replace_from(v@, p@, with@, v.len() as int) =~= Seq::<char>::empty());
    assert(out@ + Seq::<char>::empty() =~= out@);
    out
}

/// The label of instance `i` of a repeated template.
pub fn instance_label_of(name: &Option<String>, i: usize) -> (r: String)
    requires
        i < usize::MAX,
    ensures
        r@ == instance_label(text_view(*name), i as int),
{
    reveal(instance_label);
    match name {
        Some(s) => {
            let number = dec_to_string((i + 1) as u64);
            let replaced = replace_text(s.as_str(), "%d", number.as_str());
            if contains_char(s.as_str(), '%') && !str_eq(replaced.as_str(), s.as_str()) {
                replaced
            } else {
                let mut out = s.clone();
                push_str(&mut out, " #");
                push_str(&mut out, number.as_str());
                out
            }
        },
        None => group_label_of(i, "数据内容"),
    }
}

/// The name under which child `i` of a record enters the resolution context.
pub fn child_name_of(sub: &XmlElement, i: usize) -> (r: String)
    ensures
        r@ == child_name(sub@, i as int),
{
    reveal(child_name);
    let mut default = String::new();
    push_str(&mut default, "splitByLength");
    push_dec(&mut default, i as u64);
    assert(default@ =~= "splitByLength"@ + dec_string(i as nat));
    match sub.get_child("name") {
        Some(n) => match &n.value {
            Some(t) => t.clone(),
            None => default,
        },
        None => match sub.get_child("item") {
            Some(it) => match &it.value {
                Some(t) => t.clone(),
                None => default,
            },
            None => default,
        },
    }
}

/// Fields under a new label, their descriptions without the `<id>_` of the
/// template.
pub fn relabel_fields(fields: Vec<DecodedField>, label: &str, id: Option<&String>) -> (r: Vec<
    DecodedField,
>)
    ensures
        fields_view(r@) == relabel(fields_view(fields@), label@, text_ref_view(id)),
{
    reveal(relabel);
    let ghost want = relabel(fields_view(fields@), label@, text_ref_view(id));
    let n = fields.len();
    let mut rest = fields;
    let mut back: Vec<DecodedField> = Vec::new();
    while rest.len() > 0
        invariant
            rest@.len() + back@.len() == n,
            n == fields@.len(),
            rest@ == fields@.take(rest@.len() as int),
            want == relabel(fields_view(fields@), label@, text_ref_view(id)),
            forall|k: int|
                0 <= k < back@.len() ==> field_view(#[trigger] back@[k]) == want[n - 1 - k],
        decreases rest.len(),
    {
        reveal(relabel);
        let ghost m = rest@.len();
        let mut f = rest.pop().unwrap();
        assert(f == fields@[m - 1]);
        let ghost f0 = f;
        f.frame_domain = label.to_owned();
        match id {
            Some(a) => {
                let mut pat = a.clone();
                push_char(&mut pat, '_');
                f.description = replace_text(f.description.as_str(), pat.as_str(), "");
            },
            None => {},
        }
        proof {
            reveal_strlit("");
            assert(""@ =~= Seq::<char>::empty());
            assert(f.data == f0.data && f.start == f0.start && f.end == f0.end && f.color
                == f0.color && f.children == f0.children);
        }
        assert(field_view(f) == relabel_one(field_view(f0), label@, text_ref_view(id)));
        back.push(f);
        assert(rest@ =~= fields@.take(m - 1));
    }
    let mut out: Vec<DecodedField> = Vec::new();
    while back.len() > 0
        invariant
            back@.len() + out@.len() == n,
            want.len() == n,
            forall|k: int|
                0 <= k < back@.len() ==> field_view(#[trigger] back@[k]) == want[n - 1 - k],
            forall|k: int| 0 <= k < out@.len() ==> field_view(#[trigger] out@[k]) == want[k],
        decreases back.len(),
    {
        reveal(relabel);
        let f = back.pop().unwrap();
        out.push(f);
    }
    assert(fields_view(out@) =~= want);
    out
}

/// The length of the first `i + 1` references is that of the first `i` and of
/// reference `i`.
pub proof fn lemma_box_length_step(q: Query, v: Seq<ElementView>, i: int)
    requires
        0 <= i < v.len(),
    ensures
        box_length(q, v.take(i + 1)) == min_of(
            (box_length(q, v.take(i)) + referenced_length(q, v[i])) as int,
            usize::MAX as int,
        ) as nat,
{
    assert(v.take(i + 1).drop_last() =~= v.take(i));
    assert(v.take(i + 1).last() == v[i]);
}

/// The item that an id resolves to under the query that the arguments make.
pub fn lookup_item(
    repo: &ProtocolConfigManager,
    id: &str,
    protocol: &str,
    region: &str,
    dir: Option<u8>,
) -> (r: Option<XmlElement>)
    requires
        repo.wf(),
    ensures
        opt_element_view(r) == query_of(repo, protocol@, region@, dir).item(id@),
{
    reveal(Query::item);
    repo.get_config_xml(id, protocol, region, dir)
}

/// The template that a name resolves to under the query that the arguments make.
pub fn lookup_template(
    repo: &ProtocolConfigManager,
    name: &str,
    protocol: &str,
    region: &str,
    dir: Option<u8>,
) -> (r: Option<XmlElement>)
    requires
        repo.wf(),
    ensures
        opt_element_view(r) == query_of(repo, protocol@, region@, dir).template(name@),
{
    reveal(Query::template);
    repo.get_template_element(name, protocol, region, dir)
}

/// The literal length of the item that a reference resolves to.
pub fn referenced_length_of(
    repo: &ProtocolConfigManager,
    item: &XmlElement,
    protocol: &str,
    region: &str,
    dir: Option<u8>,
) -> (r: usize)
    requires
        repo.wf(),
    ensures
        r as nat == referenced_length(query_of(repo, protocol@, region@, dir), item@),
{
    match &item.value {
        Some(id) => match lookup_item(repo, id.as_str(), protocol, region, dir) {
            Some(el) => match static_length_of(&el) {
                Some(n) => n,
                None => 0,
            },
            None => 0,
        },
        None => 0,
    }
}

impl FrameAnalisyic {
    /// The sum of the literal lengths of the items that a list of references
    /// resolves to.
    #[verifier::rlimit(100)]
    #[verifier::spinoff_prover]
    pub fn caculate_item_box_length(
        repo: &ProtocolConfigManager,
        all_items: &Vec<XmlElement>,
        protocol: &str,
        region: &str,
        dir: Option<u8>,
    ) -> (r: usize)
        requires
            repo.wf(),
        ensures
            r as nat == box_length(
                query_of(repo, protocol@, region@, dir),
                elements_view(all_items@),
            ),
    {
        let ghost q = query_of(repo, protocol@, region@, dir);
        let ghost v = elements_view(all_items@);
        let mut pos: usize = 0;
        let mut i: usize = 0;
        while i < all_items.len()
            invariant
                repo.wf(),
                i <= all_items.len(),
                q == query_of(repo, protocol@, region@, dir),
                v == elements_view(all_items@),
                pos as nat == box_length(q, v.take(i as int)),
            decreases all_items.len() - i,
        {
            let item_elem = &all_items[i];
            proof {
                lemma_box_length_step(q, v, i as int);
            }
            let one: usize = referenced_length_of(repo, item_elem, protocol, region, dir);
            pos = if pos > usize::MAX - one { usize::MAX } else { pos + one };
            i += 1;
        }
        assert(v.take(v.len() as int) =~= v);
        pos
    }

    /// The fields of a sequence of four-byte data identifiers.
    #[verifier::rlimit(100)]
    #[verifier::spinoff_prover]
    pub fn prase_item_type(
        repo: &ProtocolConfigManager,
        data_segment: &[u8],
        index: usize,
        item_len: usize,
        protocol: &str,
        region: &str,
        dir: Option<u8>,
    ) -> (r: Vec<DecodedField>)
        requires
            repo.wf(),
            index + data_segment@.len() <= usize::MAX,
        ensures
            fields_view(r@) == item_fields(
                query_of(repo, protocol@, region@, dir),
                data_segment@,
                index as int,
                item_len as int,
            ),
    {
        reveal(item_fields);
        let mut out: Vec<DecodedField> = Vec::new();
        let n = data_segment.len();
        let ghost q = query_of(repo, protocol@, region@, dir);
        if n % 4 == 0 {
            let mut i: usize = 0;
            let ghost want = item_fields(q, data_segment@, index as int, item_len as int);
            while i < n / 4
                invariant
                    repo.wf(),
                    i <= n / 4,
                    n == data_segment@.len(),
                    n % 4 == 0,
                    index + n <= usize::MAX,
                    q == query_of(repo, protocol@, region@, dir),
                    want == item_fields(q, data_segment@, index as int, item_len as int),
                    out@.len() == i,
                    forall|k: int| 0 <= k < i ==> field_view(#[trigger] out@[k]) == want[k],
                decreases n / 4 - i,
            {
                reveal(item_fields);
                let sub = slice_subrange(data_segment, 4 * i, 4 * i + 4);
                let item_id = FrameFun::get_data_str(sub, false, true, false);
                assert(item_id@ == hex_concat(sub@.reverse()));
                let mut description = item_id.clone();
                match lookup_item(repo, item_id.as_str(), protocol, region, dir) {
                    Some(el) => match el.get_child_text("name") {
                        Some(name) => {
                            push_char(&mut description, ' ');
                            push_str(&mut description, name.as_str());
                        },
                        None => {},
                    },
                    None => {},
                }
                let f = leaf(
                    group_label_of(i, "数据标识"),
                    FrameFun::get_data_str_with_space(sub),
                    description,
                    index + 4 * i,
                    index + 4 * i + 4,
                    None,
                );
                out.push(f);
                i += 1;
            }
            assert(fields_view(out@) =~= want);
        } else {
            let end: usize = if item_len <= n { index + item_len } else { index + n };
            let f = opaque("ITEM".to_owned(), data_segment, index, end);
            out.push(f);
            assert(fields_view(out@) =~= seq![f@]);
        }
        out
    }
}

/// The number that a decoded sibling shows.
pub fn shown_number_of(fields: &Vec<DecodedField>, name: &str) -> (r: usize)
    ensures
        r as nat == shown_number(fields_view(fields@), name@),
{
    reveal(shown_number);
    let ghost v = fields_view(fields@);
    let mut i: usize = fields.len();
    let mut description = String::new();
    assert(v.take(i as int) =~= v);
    while i > 0
        invariant
            i <= fields.len(),
            v == fields_view(fields@),
            description@ == Seq::<char>::empty(),
            last_labelled(v.take(i as int), name@) == last_labelled(v, name@),
        decreases i,
    {
        reveal(shown_number);
        assert(v.take(i as int).last() == field_view(fields@[i - 1]));
        if str_eq(fields[i - 1].frame_domain.as_str(), name) {
            let d = regex_capture("(\\d+)", fields[i - 1].description.as_str(), 1);
            return number_or_zero_of(&d);
        }
        assert(v.take(i as int).drop_last() =~= v.take(i - 1));
        i -= 1;
    }
    let d = regex_capture("(\\d+)", description.as_str(), 1);
    number_or_zero_of(&d)
}

/// Whether every character of a text is an ASCII digit.
pub fn all_digits_of(s: &str) -> (r: bool)
    ensures
        r == all_digits(s@),
{
    let v = to_chars(s);
    let mut i: usize = 0;
    while i < v.len()
        invariant
            i <= v.len(),
            v@ == s@,
            forall|j: int| 0 <= j < i ==> crate::text::is_digit(#[trigger] v@[j]),
        decreases v.len() - i,
    {
        if !is_digit_char(v[i]) {
            return false;
        }
        i += 1;
    }
    true
}

/// Whether an upper-case type name is one of the primitives that end a template
/// delegation.
pub fn is_primitive_name(up: &str) -> (r: bool)
    ensures
        r == is_primitive(up@),
{
    str_eq(up, "BCD") || str_eq(up, "BIN") || str_eq(up, "ASCII") || str_eq(up, "BIN_BE")
}

/// The length that a sentinel rule gives.
pub fn sentinel_length_of(data: &[u8], ctx: &Vec<ContextEntry>, name: &str) -> (r: Option<usize>)
    ensures
        r is Some == sentinel_length(data@, context_view(ctx@), name@) is Some,
        r is Some ==> r.unwrap() as nat == sentinel_length(
            data@,
            context_view(ctx@),
            name@,
        ).unwrap(),
{
    reveal(sentinel_length);
    match lookup_context(ctx, name) {
        Some(k) => {
            let end = ctx[k].end;
            if 1 <= end && end <= data.len() {
                scan_for(data, end, data[end - 1])
            } else {
                None
            }
        },
        None => None,
    }
}

/// The length that an arithmetic or sentinel rule gives within a record.
#[verifier::rlimit(100)]
#[verifier::spinoff_prover]
pub fn rule_length_of(
    repo: &ProtocolConfigManager,
    rules: &str,
    data: &[u8],
    ctx: &Vec<ContextEntry>,
    protocol: &str,
    region: &str,
    dir: Option<u8>,
    fuel: usize,
) -> (r: usize)
    requires
        repo.wf(),
    ensures
        r as nat == rule_length(
            query_of(repo, protocol@, region@, dir),
            rules@,
            data@,
            context_view(ctx@),
            fuel as nat,
        ),
    decreases fuel, 3nat, 0nat,
{
    if data.len() == 0 {
        return 0;
    }
    let ranged = match regex_capture("^RANGE\\(([^)]+)\\)$", rules, 1) {
        Some(name) => sentinel_length_of(data, ctx, name.as_str()),
        None => None,
    };
    match ranged {
        Some(n) => n,
        None => {
            let c1 = regex_capture("(\\d+)\\s*([+\\-*/])\\s*(.+)", rules, 1);
            let c2 = regex_capture("(\\d+)\\s*([+\\-*/])\\s*(.+)", rules, 2);
            let c3 = regex_capture("(\\d+)\\s*([+\\-*/])\\s*(.+)", rules, 3);
            match (c1, c2, c3) {
                (Some(num), Some(op), Some(text)) => {
                    let operand_text = trim(text.as_str());
                    let number = number_or_zero_of(&Some(num));
                    if all_digits_of(operand_text.as_str()) {
                        let operand = number_or_zero_of(&Some(operand_text));
                        apply_length_rule(number, op.as_str(), operand)
                    } else {
                        match lookup_context(ctx, operand_text.as_str()) {
                            None => apply_length_rule(number, op.as_str(), 0),
                            Some(k) => {
                                let en = &ctx[k];
                                if en.len > data.len() || en.end > data.len() || en.end < en.len {
                                    0
                                } else {
                                    let seg = slice_subrange(data, en.end - en.len, en.end);
                                    let fields = decode_item(
                                        repo,
                                        en.node,
                                        seg,
                                        0,
                                        false,
                                        protocol,
                                        region,
                                        dir,
                                        fuel,
                                    );
                                    let operand = shown_number_of(
                                        &fields,
                                        operand_text.as_str(),
                                    );
                                    apply_length_rule(number, op.as_str(), operand)
                                }
                            },
                        }
                    }
                },
                _ => 0,
            }
        },
    }
}

/// The length of one child of a record, never more than the bytes that are left
/// from `pos` on.
#[verifier::rlimit(100)]
#[verifier::spinoff_prover]
pub fn child_length_of(
    repo: &ProtocolConfigManager,
    sub: &XmlElement,
    data: &[u8],
    pos: usize,
    ctx: &Vec<ContextEntry>,
    protocol: &str,
    region: &str,
    dir: Option<u8>,
    fuel: usize,
) -> (r: usize)
    requires
        repo.wf(),
        pos <= data@.len(),
    ensures
        r as nat == child_length(
            query_of(repo, protocol@, region@, dir),
            sub@,
            data@,
            pos as nat,
            context_view(ctx@),
            fuel as nat,
        ),
        pos + r <= data@.len(),
        static_length(sub@) is Some ==> r as int == min_of(
            static_length(sub@).unwrap() as int,
            data@.len() - pos,
        ),
    decreases fuel, 4nat, 0nat,
{
    let left: usize = data.len() - pos;
    let raw: usize = match sub.get_child_text("length") {
        Some(t) => {
            if is_unknown_text(t.as_str()) {
                let rules = match sub.get_child_text("lengthrule") {
                    Some(r) => r,
                    None => String::new(),
                };
                if rules.as_str().unicode_len() > 0 {
                    rule_length_of(repo, rules.as_str(), data, ctx, protocol, region, dir, fuel)
                } else {
                    let rest = slice_subrange(data, pos, data.len());
                    assert(rest@ =~= data@.skip(pos as int));
                    item_length_of(repo, sub, rest, None, protocol, region, dir, fuel)
                }
            } else {
                number_or_zero_of(&Some(t))
            }
        },
        None => {
            let items = sub.get_items("item");
            if items.len() > 0 {
                FrameAnalisyic::caculate_item_box_length(repo, &items, protocol, region, dir)
            } else {
                left
            }
        },
    };
    if raw <= left {
        raw
    } else {
        left
    }
}

/// The length of a record: the sum of the lengths of its children, each resolved
/// over what the children before it left.
#[verifier::rlimit(100)]
#[verifier::spinoff_prover]
pub fn record_length_of(
    repo: &ProtocolConfigManager,
    items: &Vec<XmlElement>,
    data: &[u8],
    protocol: &str,
    region: &str,
    dir: Option<u8>,
    fuel: usize,
) -> (r: usize)
    requires
        repo.wf(),
    ensures
        r as nat == record_length(
            query_of(repo, protocol@, region@, dir),
            elements_view(items@),
            0,
            data@,
            0,
            Seq::empty(),
            fuel as nat,
        ),
        r <= data@.len(),
        all_literal(elements_view(items@), 0) ==> r as nat == literal_end(
            elements_view(items@),
            0,
            data@.len(),
            0,
        ),
    decreases fuel, 5nat, 1nat,
{
    let ghost q = query_of(repo, protocol@, region@, dir);
    let ghost v = elements_view(items@);
    let mut ctx: Vec<ContextEntry> = Vec::new();
    let mut pos: usize = 0;
    let mut i: usize = 0;
    let n: usize = data.len();
    assert(context_view(ctx@) =~= Seq::empty());
    while i < items.len()
        invariant
            repo.wf(),
            i <= items.len(),
            n == data@.len(),
            pos <= data@.len(),
            q == query_of(repo, protocol@, region@, dir),
            v == elements_view(items@),
            record_length(q, v, i as int, data@, pos as nat, context_view(ctx@), fuel as nat)
                == record_length(q, v, 0, data@, 0, Seq::empty(), fuel as nat),
            all_literal(v, 0) ==> literal_end(v, i as int, n as nat, pos as nat) == literal_end(
                v,
                0,
                n as nat,
                0,
            ),
        decreases items.len() - i,
    {
        let sub = &items[i];
        assert(v[i as int] == sub@);
        let ghost cv = context_view(ctx@);
        let l = child_length_of(repo, sub, data, pos, &ctx, protocol, region, dir, fuel);
        let entry = ContextEntry { name: child_name_of(sub, i), end: pos + l, len: l, node: sub };
        ctx.push(entry);
        assert(context_view(ctx@) =~= cv.push(entry_view(entry)));
        assert(record_length(q, v, i as int, data@, pos as nat, cv, fuel as nat) == record_length(
            q,
            v,
            i + 1,
            data@,
            (pos + l) as nat,
            cv.push(entry_view(entry)),
            fuel as nat,
        ));
        pos = pos + l;
        i += 1;
    }
    pos
}

/// The resolved length of an element over the bytes that are left, never more
/// than those. `items` stands for the record children of the element where it is
/// given.
#[verifier::rlimit(100)]
#[verifier::spinoff_prover]
pub fn item_length_of(
    repo: &ProtocolConfigManager,
    e: &XmlElement,
    data: &[u8],
    items: Option<&Vec<XmlElement>>,
    protocol: &str,
    region: &str,
    dir: Option<u8>,
    fuel: usize,
) -> (r: usize)
    requires
        repo.wf(),
    ensures
        r as nat == item_length(
            query_of(repo, protocol@, region@, dir),
            e@,
            data@,
            match items {
                Some(l) => Some(elements_view(l@)),
                None => None,
            },
            fuel as nat,
        ),
        r <= data@.len(),
        fuel > 0 ==> ({
            let all = match items {
                Some(l) => elements_view(l@),
                None => e@.items("splitByLength"@),
            };
            all.len() > 0 && all_literal(all, 0) ==> r as int == min_of(
                literal_end(all, 0, data@.len(), 0) as int,
                data@.len() as int,
            )
        }),
    decreases fuel, 1nat, 0nat,
{
    if fuel == 0 {
        return 0;
    }
    let budget: usize = fuel - 1;
    let raw: usize = match items {
        Some(l) => length_over(repo, e, l, data, protocol, region, dir, budget),
        None => {
            let own = e.get_items("splitByLength");
            length_over(repo, e, &own, data, protocol, region, dir, budget)
        },
    };
    if raw <= data.len() {
        raw
    } else {
        data.len()
    }
}

/// The length of an element with the given record children, before it is held to
/// the bytes that are left.
pub open spec fn raw_length(
    q: Query,
    e: ElementView,
    all: Seq<ElementView>,
    data: Seq<u8>,
    budget: nat,
) -> nat
    decreases budget, 6nat, 0nat,
{
    if all.len() == 0 {
        if e.has_child("type"@) {
            match e.child_text("lengthrule"@) {
                Some(rules) => if regex_matches(valid_pattern(), rules) {
                    rule_length(q, rules, data, Seq::empty(), budget)
                } else {
                    0
                },
                None => match e.child_text("type"@) {
                    Some(t) => {
                        let up = uppercase_of(t);
                        if is_primitive(up) {
                            0
                        } else {
                            match q.template(up) {
                                Some(tpl) => item_length(
                                    q,
                                    tpl,
                                    data,
                                    Some(tpl.items("splitByLength"@)),
                                    budget,
                                ),
                                None => 0,
                            }
                        }
                    },
                    None => 0,
                },
            }
        } else {
            0
        }
    } else {
        record_length(q, all, 0, data, 0, Seq::empty(), budget)
    }
}

/// The length of an element with the given record children, before it is held to
/// the bytes that are left.
#[verifier::rlimit(100)]
#[verifier::spinoff_prover]
pub fn length_over(
    repo: &ProtocolConfigManager,
    e: &XmlElement,
    all: &Vec<XmlElement>,
    data: &[u8],
    protocol: &str,
    region: &str,
    dir: Option<u8>,
    budget: usize,
) -> (r: usize)
    requires
        repo.wf(),
    ensures
        r as nat == raw_length(
            query_of(repo, protocol@, region@, dir),
            e@,
            elements_view(all@),
            data@,
            budget as nat,
        ),
        all@.len() > 0 && all_literal(elements_view(all@), 0) ==> r as nat == literal_end(
            elements_view(all@),
            0,
            data@.len(),
            0,
        ),
    decreases budget, 6nat, 0nat,
{
    if all.len() == 0 {
        if e.has_child("type") {
            match e.get_child_text("lengthrule") {
                Some(rules) => {
                    if regex_is_match(
                        "^\\s*\\d+\\s*[\\+\\-\\*/]\\s*(\\d+|[^\\s]*)\\s*$",
                        rules.as_str(),
                    ) {
                        let ctx: Vec<ContextEntry> = Vec::new();
                        assert(context_view(ctx@) =~= Seq::empty());
                        rule_length_of(
                            repo,
                            rules.as_str(),
                            data,
                            &ctx,
                            protocol,
                            region,
                            dir,
                            budget,
                        )
                    } else {
                        0
                    }
                },
                None => match e.get_child_text("type") {
                    Some(t) => {
                        let up = upper(t.as_str());
                        if is_primitive_name(up.as_str()) {
                            0
                        } else {
                            match lookup_template(repo, up.as_str(), protocol, region, dir) {
                                Some(tpl) => {
                                    let items = tpl.get_items("splitByLength");
                                    item_length_of(
                                        repo,
                                        &tpl,
                                        data,
                                        Some(&items),
                                        protocol,
                                        region,
                                        dir,
                                        budget,
                                    )
                                },
                                None => 0,
                            }
                        }
                    },
                    None => 0,
                },
            }
        } else {
            0
        }
    } else {
        record_length_of(repo, all, data, protocol, region, dir, budget)
    }
}

/// The contents of two lists of fields, one after the other.
pub proof fn lemma_fields_view_concat(a: Seq<DecodedField>, b: Seq<DecodedField>)
    ensures
        fields_view(a + b) == fields_view(a) + fields_view(b),
{
    assert(fields_view(a + b) =~= fields_view(a) + fields_view(b));
}

/// The contents of a list of fields with one more field.
pub proof fn lemma_fields_view_push(a: Seq<DecodedField>, f: DecodedField)
    ensures
        fields_view(a.push(f)) == fields_view(a).push(field_view(f)),
{
    assert(fields_view(a.push(f)) =~= fields_view(a).push(field_view(f)));
}

/// The literal length of an element, or what its structure resolves to for the
/// sentinel `UNKNOWN`; `absent` where it declares no length.
#[verifier::rlimit(100)]
#[verifier::spinoff_prover]
pub fn declared_length_of(
    repo: &ProtocolConfigManager,
    e: &XmlElement,
    data: &[u8],
    absent: usize,
    protocol: &str,
    region: &str,
    dir: Option<u8>,
    fuel: usize,
) -> (r: usize)
    requires
        repo.wf(),
    ensures
        r as nat == declared_length(
            query_of(repo, protocol@, region@, dir),
            e@,
            data@,
            absent as nat,
            fuel as nat,
        ),
    decreases fuel, 2nat, 0nat,
{
    match e.get_child_text("length") {
        Some(t) => {
            if is_unknown_text(t.as_str()) {
                item_length_of(repo, e, data, None, protocol, region, dir, fuel)
            } else {
                number_or_zero_of(&Some(t))
            }
        },
        None => absent,
    }
}

/// The unit length of a template over the bytes given.
#[verifier::rlimit(100)]
#[verifier::spinoff_prover]
pub fn template_unit_of(
    repo: &ProtocolConfigManager,
    tpl: &XmlElement,
    data: &[u8],
    protocol: &str,
    region: &str,
    dir: Option<u8>,
    fuel: usize,
) -> (r: usize)
    requires
        repo.wf(),
    ensures
        r as nat == template_unit(
            query_of(repo, protocol@, region@, dir),
            tpl@,
            data@,
            fuel as nat,
        ),
    decreases fuel, 3nat, 0nat,
{
    let absent = item_length_of(repo, tpl, data, None, protocol, region, dir, fuel);
    declared_length_of(repo, tpl, data, absent, protocol, region, dir, fuel)
}

/// The length handed to the decode of a typed element.
#[verifier::rlimit(100)]
#[verifier::spinoff_prover]
pub fn type_length_of(
    repo: &ProtocolConfigManager,
    e: &XmlElement,
    data: &[u8],
    protocol: &str,
    region: &str,
    dir: Option<u8>,
    fuel: usize,
) -> (r: usize)
    requires
        repo.wf(),
    ensures
        r as nat == type_length(query_of(repo, protocol@, region@, dir), e@, data@, fuel as nat),
    decreases fuel, 6nat, 0nat,
{
    if e.has_child("length") {
        match e.get_child_text("length") {
            Some(t) => {
                if is_unknown_text(t.as_str()) {
                    item_length_of(repo, e, data, None, protocol, region, dir, fuel)
                } else {
                    match parse_usize(t.as_str()) {
                        Some(n) => n,
                        None => data.len(),
                    }
                }
            },
            None => {
                let items = e.get_items("item");
                if items.len() > 0 {
                    FrameAnalisyic::caculate_item_box_length(repo, &items, protocol, region, dir)
                } else {
                    0
                }
            },
        }
    } else {
        data.len()
    }
}

/// The fields of the items that a list of references resolves to, and the bytes
/// taken.
#[verifier::rlimit(100)]
#[verifier::spinoff_prover]
pub fn decode_item_box(
    repo: &ProtocolConfigManager,
    items: &Vec<XmlElement>,
    data: &[u8],
    index: usize,
    need_delete: bool,
    protocol: &str,
    region: &str,
    dir: Option<u8>,
    fuel: usize,
) -> (r: (Vec<DecodedField>, usize))
    requires
        repo.wf(),
        index + data@.len() <= usize::MAX,
    ensures
        (fields_view(r.0@), r.1 as nat) == item_box_from(
            query_of(repo, protocol@, region@, dir),
            elements_view(items@),
            0,
            data@,
            0,
            index as int,
            need_delete,
            Seq::empty(),
            fuel as nat,
        ),
        r.1 <= data@.len(),
    decreases fuel, 3nat, 0nat,
{
    let ghost q = query_of(repo, protocol@, region@, dir);
    let ghost v = elements_view(items@);
    let ghost want = item_box_from(
        q,
        v,
        0,
        data@,
        0,
        index as int,
        need_delete,
        Seq::empty(),
        fuel as nat,
    );
    let mut out: Vec<DecodedField> = Vec::new();
    let mut pos: usize = 0;
    let mut i: usize = 0;
    assert(fields_view(out@) =~= Seq::empty());
    while i < items.len()
        invariant
            repo.wf(),
            index + data@.len() <= usize::MAX,
            i <= items.len(),
            pos <= data@.len(),
            q == query_of(repo, protocol@, region@, dir),
            v == elements_view(items@),
            item_box_from(
                q,
                v,
                i as int,
                data@,
                pos as nat,
                index as int,
                need_delete,
                fields_view(out@),
                fuel as nat,
            ) == want,
        decreases items.len() - i,
    {
        let item = &items[i];
        assert(v[i as int] == item@);
        let ghost before = out@;
        match &item.value {
            None => {},
            Some(id) => {
                match lookup_item(repo, id.as_str(), protocol, region, dir) {
                    Some(el) => {
                        let left = slice_subrange(data, pos, data.len());
                        assert(left@ =~= data@.skip(pos as int));
                        let raw = declared_length_of(
                            repo,
                            &el,
                            left,
                            0,
                            protocol,
                            region,
                            dir,
                            fuel,
                        );
                        let l: usize = if raw <= left.len() { raw } else { left.len() };
                        let seg = slice_subrange(data, pos, pos + l);
                        let mut cur = decode_item(
                            repo,
                            &el,
                            seg,
                            index + pos,
                            need_delete,
                            protocol,
                            region,
                            dir,
                            fuel,
                        );
                        proof {
                            lemma_fields_view_concat(before, cur@);
                        }
                        out.append(&mut cur);
                        pos = pos + l;
                    },
                    None => {
                        let left = slice_subrange(data, pos, data.len());
                        assert(left@ =~= data@.skip(pos as int));
                        let f = opaque(id.clone(), left, index + pos, index + data.len());
                        proof {
                            lemma_fields_view_push(before, f);
                        }
                        out.push(f);
                        pos = data.len();
                    },
                }
            },
        }
        i += 1;
    }
    (out, pos)
}

/// The fields of the parts of a composite record, and the bytes taken.
#[verifier::rlimit(100)]
#[verifier::spinoff_prover]
pub fn decode_parts(
    repo: &ProtocolConfigManager,
    items: &Vec<XmlElement>,
    data: &[u8],
    index: usize,
    need_delete: bool,
    protocol: &str,
    region: &str,
    dir: Option<u8>,
    fuel: usize,
) -> (r: (Vec<DecodedField>, usize))
    requires
        repo.wf(),
        index + data@.len() <= usize::MAX,
    ensures
        (fields_view(r.0@), r.1 as nat) == all_items_from(
            query_of(repo, protocol@, region@, dir),
            elements_view(items@),
            0,
            data@,
            0,
            index as int,
            need_delete,
            Seq::empty(),
            fuel as nat,
        ),
        r.1 <= data@.len(),
    decreases fuel, 3nat, 0nat,
{
    let ghost q = query_of(repo, protocol@, region@, dir);
    let ghost v = elements_view(items@);
    let ghost want = all_items_from(
        q,
        v,
        0,
        data@,
        0,
        index as int,
        need_delete,
        Seq::empty(),
        fuel as nat,
    );
    let mut out: Vec<DecodedField> = Vec::new();
    let mut pos: usize = 0;
    let mut i: usize = 0;
    assert(fields_view(out@) =~= Seq::empty());
    while i < items.len()
        invariant
            repo.wf(),
            index + data@.len() <= usize::MAX,
            i <= items.len(),
            pos <= data@.len(),
            q == query_of(repo, protocol@, region@, dir),
            v == elements_view(items@),
            want == all_items_from(
                q,
                v,
                0,
                data@,
                0,
                index as int,
                need_delete,
                Seq::empty(),
                fuel as nat,
            ),
            all_items_from(
                q,
                v,
                i as int,
                data@,
                pos as nat,
                index as int,
                need_delete,
                fields_view(out@),
                fuel as nat,
            ) == want,
        decreases items.len() - i,
    {
        let item = &items[i];
        assert(v[i as int] == item@);
        let ghost before = out@;
        match static_length_of(item) {
            None => {},
            Some(l) => {
                if l > data.len() - pos {
                    assert(all_items_from(
                        q,
                        v,
                        i as int,
                        data@,
                        pos as nat,
                        index as int,
                        need_delete,
                        fields_view(out@),
                        fuel as nat,
                    ) == (fields_view(out@), pos as nat));
                    return (out, pos);
                }
                let seg = slice_subrange(data, pos, pos + l);
                let mut cur = decode_item(
                    repo,
                    item,
                    seg,
                    index + pos,
                    need_delete,
                    protocol,
                    region,
                    dir,
                    fuel,
                );
                proof {
                    lemma_fields_view_concat(before, cur@);
                }
                out.append(&mut cur);
                pos = pos + l;
            },
        }
        i += 1;
    }
    (out, pos)
}

/// The text and the fields of a value whose type names a template.
#[verifier::rlimit(100)]
#[verifier::spinoff_prover]
pub fn decode_template(
    repo: &ProtocolConfigManager,
    tpl: &XmlElement,
    data: &[u8],
    item_len: usize,
    index: usize,
    need_delete: bool,
    caller_single: bool,
    protocol: &str,
    region: &str,
    dir: Option<u8>,
    fuel: usize,
) -> (r: (String, Vec<DecodedField>))
    requires
        repo.wf(),
        index + data@.len() <= usize::MAX,
    ensures
        (r.0@, fields_view(r.1@)) == template_parts(
            query_of(repo, protocol@, region@, dir),
            tpl@,
            data@,
            item_len as int,
            index as int,
            need_delete,
            caller_single,
            fuel as nat,
        ),
    decreases fuel, 4nat, 0nat,
{
    let ghost q = query_of(repo, protocol@, region@, dir);
    let unit = template_unit_of(repo, tpl, data, protocol, region, dir, fuel);
    let all = FrameFun::get_data_str_order(data);
    let name = tpl.get_child_text("name");
    let mut out: Vec<DecodedField> = Vec::new();
    if is_single_of(tpl) || caller_single {
        let once = decode_item(repo, tpl, data, index, need_delete, protocol, region, dir, fuel);
        (all, once)
    } else if unit > 0 && data.len() % unit == 0 {
        let ghost want = template_from(
            q,
            tpl@,
            data@,
            unit as nat,
            0,
            0,
            index as int,
            need_delete,
            Seq::empty(),
            fuel as nat,
        );
        let mut pos: usize = 0;
        let mut i: usize = 0;
        assert(fields_view(out@) =~= Seq::empty());
        while pos < data.len() && data.len() - pos >= unit
            invariant
                repo.wf(),
                index + data@.len() <= usize::MAX,
                unit > 0,
                pos <= data@.len(),
                i <= pos,
                q == query_of(repo, protocol@, region@, dir),
                text_view(name) == tpl@.child_text("name"@),
                template_from(
                    q,
                    tpl@,
                    data@,
                    unit as nat,
                    pos as nat,
                    i as nat,
                    index as int,
                    need_delete,
                    fields_view(out@),
                    fuel as nat,
                ) == want,
            decreases data.len() - pos,
        {
            let ghost before = out@;
            let sub = slice_subrange(data, pos, pos + unit);
            let label = instance_label_of(&name, i);
            let value = decode_item(
                repo,
                tpl,
                sub,
                index + pos,
                need_delete,
                protocol,
                region,
                dir,
                fuel,
            );
            if value.len() > 0 {
                let mut renamed = relabel_fields(value, label.as_str(), tpl.get_attribute("id"));
                proof {
                    lemma_fields_view_concat(before, renamed@);
                }
                out.append(&mut renamed);
            } else {
                let rev = FrameFun::get_data_str(sub, false, true, false);
                let kids: Vec<DecodedField> = Vec::new();
                assert(fields_view(kids@) =~= Seq::empty());
                let f = DecodedField {
                    frame_domain: label.clone(),
                    data: FrameFun::get_data_str_with_space(sub),
                    description: bracket(label.as_str(), rev.as_str()),
                    start: index + pos,
                    end: index + pos + unit,
                    color: None,
                    children: Some(kids),
                };
                proof {
                    lemma_fields_view_push(before, f);
                    assert(fields_view(before).push(field_view(f)) =~= fields_view(before)
                        + seq![field_view(f)]);
                }
                out.push(f);
            }
            pos = pos + unit;
            i += 1;
        }
        (all, out)
    } else {
        let end: usize = if item_len <= data.len() { index + item_len } else { index + data.len() };
        let f = leaf(
            instance_label_of(&name, 0),
            FrameFun::get_data_str_with_space(data),
            all.clone(),
            index,
            end,
            None,
        );
        out.push(f);
        assert(fields_view(out@) =~= seq![f@]);
        (all, out)
    }
}

/// The text and the child fields of an element with a type. An embedded frame
/// is left as one field that holds its bytes.
#[verifier::rlimit(100)]
#[verifier::spinoff_prover]
pub fn decode_type_item(
    repo: &ProtocolConfigManager,
    e: &XmlElement,
    data: &[u8],
    index: usize,
    need_delete: bool,
    single_len: usize,
    protocol: &str,
    region: &str,
    dir: Option<u8>,
    fuel: usize,
) -> (r: (String, Option<Vec<DecodedField>>))
    requires
        repo.wf(),
        index + data@.len() <= usize::MAX,
    ensures
        (r.0@, opt_fields_view(r.1)) == type_item_parts(
            query_of(repo, protocol@, region@, dir),
            e@,
            data@,
            index as int,
            need_delete,
            single_len as int,
            fuel as nat,
        ),
    decreases fuel, 5nat, 0nat,
{
    let content: Vec<u8> = if need_delete {
        FrameFun::frame_delete_33h(data)
    } else {
        slice_to_vec(data)
    };
    assert(content@ == maybe_strip33(data@, need_delete));
    match FrameAnalisyic::prase_simple_type_data(e, data, index, false, protocol, region, dir) {
        Some(v) => {
            let kids: Vec<DecodedField> = Vec::new();
            assert(fields_view(kids@) =~= Seq::empty());
            (v, Some(kids))
        },
        None => {
            let t = match e.get_child_text("type") {
                Some(t) => t,
                None => String::new(),
            };
            if str_eq(t.as_str(), "PN") {
                (
                    String::new(),
                    Some(
                        FrameAnalisyic::prase_pn_type(
                            content.as_slice(),
                            index,
                            single_len,
                            protocol,
                            region,
                            dir,
                        ),
                    ),
                )
            } else if str_eq(t.as_str(), "ITEM") {
                (
                    String::new(),
                    Some(
                        FrameAnalisyic::prase_item_type(
                            repo,
                            content.as_slice(),
                            index,
                            single_len,
                            protocol,
                            region,
                            dir,
                        ),
                    ),
                )
            } else if str_eq(t.as_str(), "FRAME645") || str_eq(t.as_str(), "FRAMECSG13") {
                let mut kids: Vec<DecodedField> = Vec::new();
                let f = opaque(t, content.as_slice(), index, index + content.len());
                kids.push(f);
                assert(fields_view(kids@) =~= seq![f@]);
                (String::new(), Some(kids))
            } else if str_eq(t.as_str(), "IPWITHPORT") {
                (
                    String::new(),
                    Some(
                        FrameAnalisyic::prase_ip_and_port(
                            content.as_slice(),
                            index,
                            single_len,
                            protocol,
                            region,
                            dir,
                        ),
                    ),
                )
            } else {
                match lookup_template(repo, t.as_str(), protocol, region, dir) {
                    Some(tpl) => {
                        let (text, fields) = decode_template(
                            repo,
                            &tpl,
                            content.as_slice(),
                            single_len,
                            index,
                            false,
                            is_single_of(e),
                            protocol,
                            region,
                            dir,
                            fuel,
                        );
                        (text, Some(fields))
                    },
                    None => {
                        let (text, sub, _len) = FrameAnalisyic::prase_singal_item(
                            e,
                            content.as_slice(),
                            index,
                            false,
                            protocol,
                            region,
                            dir,
                        );
                        (text, sub)
                    },
                }
            }
        },
    }
}

/// This text, or another where it is empty.
pub fn or_if_empty_of(text: String, other: &str) -> (r: String)
    ensures
        r@ == or_if_empty(text@, other@),
{
    if text.as_str().unicode_len() == 0 {
        other.to_owned()
    } else {
        text
    }
}

/// The field of one child of a record over the bytes resolved for it.
#[verifier::rlimit(100)]
#[verifier::spinoff_prover]
pub fn decode_split_child(
    repo: &ProtocolConfigManager,
    item: &XmlElement,
    content: &[u8],
    start: usize,
    need_delete: bool,
    protocol: &str,
    region: &str,
    dir: Option<u8>,
    fuel: usize,
) -> (r: DecodedField)
    requires
        repo.wf(),
        start + content@.len() <= usize::MAX,
    ensures
        r@ == split_child_field(
            query_of(repo, protocol@, region@, dir),
            item@,
            content@,
            start as int,
            need_delete,
            fuel as nat,
        ),
    decreases fuel, 6nat, 0nat,
{
    let sub_name = FrameAnalisyic::get_item_name_str(
        item.get_attribute("id"),
        item.get_child_text("name"),
    );
    let hex = FrameFun::get_data_str_order(content);
    let has_unit = item.has_child("unit");
    let has_value = item.has_child("value");
    let (text, sub, color): (String, Option<Vec<DecodedField>>, Option<String>) = if has_unit
        && has_value || (!has_unit && has_value) {
        let (t, s, _l, c) = FrameAnalisyic::prase_value_item(
            item,
            content,
            start,
            need_delete,
            protocol,
            region,
            dir,
        );
        (t, s, c)
    } else if has_unit {
        let (t, s, _l) = FrameAnalisyic::prase_singal_item(
            item,
            content,
            start,
            need_delete,
            protocol,
            region,
            dir,
        );
        let t = or_if_empty_of(t, hex.as_str());
        (bracket(sub_name.as_str(), t.as_str()), s, None)
    } else if item.has_child("time") {
        let (t, _s, _l) = FrameAnalisyic::prase_time_item(
            item,
            content,
            start,
            need_delete,
            protocol,
            region,
            dir,
        );
        let t = or_if_empty_of(t, hex.as_str());
        (bracket(sub_name.as_str(), t.as_str()), None, None)
    } else if item.has_child("splitbit") {
        match item.get_child("splitbit") {
            Some(split_elem) => {
                let (fields, _l) = FrameAnalisyic::parse_bitwise_data(
                    split_elem,
                    content,
                    start,
                    need_delete,
                    protocol,
                    region,
                    dir,
                );
                (String::new(), Some(fields), None)
            },
            None => (String::new(), None, None),
        }
    } else if item.has_child("splitByLength") {
        let (fields, _l) = decode_split(
            repo,
            item,
            content,
            start,
            need_delete,
            protocol,
            region,
            dir,
            fuel,
        );
        (String::new(), Some(fields), None)
    } else if item.has_child("type") {
        let (t, s) = decode_type_item(
            repo,
            item,
            content,
            start,
            need_delete,
            content.len(),
            protocol,
            region,
            dir,
            fuel,
        );
        let t = or_if_empty_of(t, hex.as_str());
        (bracket(sub_name.as_str(), t.as_str()), s, None)
    } else if item.has_child("item") {
        let items = item.get_items("item");
        let (fields, _l) = decode_item_box(
            repo,
            &items,
            content,
            start,
            need_delete,
            protocol,
            region,
            dir,
            fuel,
        );
        (String::new(), Some(fields), None)
    } else {
        let (t, s, _l) = FrameAnalisyic::prase_singal_item(
            item,
            content,
            start,
            need_delete,
            protocol,
            region,
            dir,
        );
        let t = or_if_empty_of(t, hex.as_str());
        (bracket(sub_name.as_str(), t.as_str()), s, None)
    };
    let description = if sub.is_none() {
        text
    } else {
        let fallback = bracket(sub_name.as_str(), hex.as_str());
        or_if_empty_of(text, fallback.as_str())
    };
    DecodedField {
        frame_domain: sub_name,
        data: FrameFun::get_data_str_with_space(content),
        description,
        start,
        end: start + content.len(),
        color,
        children: sub,
    }
}

/// The fields of an ordered record and the bytes that they take.
#[verifier::rlimit(100)]
#[verifier::spinoff_prover]
pub fn decode_split(
    repo: &ProtocolConfigManager,
    e: &XmlElement,
    data: &[u8],
    index: usize,
    need_delete: bool,
    protocol: &str,
    region: &str,
    dir: Option<u8>,
    fuel: usize,
) -> (r: (Vec<DecodedField>, usize))
    requires
        repo.wf(),
        index + data@.len() <= usize::MAX,
    ensures
        (fields_view(r.0@), r.1 as nat) == split_fields(
            query_of(repo, protocol@, region@, dir),
            e@,
            data@,
            index as int,
            need_delete,
            fuel as nat,
        ),
        r.1 <= data@.len(),
    decreases fuel, 2nat, 0nat,
{
    let ghost q = query_of(repo, protocol@, region@, dir);
    let mut out: Vec<DecodedField> = Vec::new();
    if fuel == 0 || data.len() == 0 {
        assert(fields_view(out@) =~= Seq::empty());
        return (out, 0);
    }
    let budget: usize = fuel - 1;
    if e.has_child("splitbit") {
        let (bits, _l) = FrameAnalisyic::parse_bitwise_data(
            e,
            data,
            index,
            need_delete,
            protocol,
            region,
            dir,
        );
        let f = DecodedField {
            frame_domain: FrameAnalisyic::get_item_name_str(
                e.get_attribute("id"),
                e.get_child_text("name"),
            ),
            data: FrameFun::get_data_str_with_space(data),
            description: FrameFun::get_data_str_order(data),
            start: index,
            end: index + data.len(),
            color: None,
            children: Some(bits),
        };
        out.push(f);
        assert(fields_view(out@) =~= seq![f@]);
    } else {
        assert(fields_view(out@) =~= Seq::empty());
    }
    let items = e.get_items("splitByLength");
    let ghost v = elements_view(items@);
    let ghost want = split_fields(q, e@, data@, index as int, need_delete, fuel as nat);
    let mut ctx: Vec<ContextEntry> = Vec::new();
    let mut pos: usize = 0;
    let mut i: usize = 0;
    assert(context_view(ctx@) =~= Seq::empty());
    while i < items.len()
        invariant
            repo.wf(),
            index + data@.len() <= usize::MAX,
            i <= items.len(),
            pos <= data@.len(),
            budget + 1 == fuel,
            q == query_of(repo, protocol@, region@, dir),
            v == elements_view(items@),
            split_fields_from(
                q,
                v,
                i as int,
                data@,
                pos as nat,
                context_view(ctx@),
                index as int,
                need_delete,
                fields_view(out@),
                budget as nat,
            ) == want,
        decreases items.len() - i,
    {
        let item = &items[i];
        assert(v[i as int] == item@);
        let ghost before = out@;
        let ghost cv = context_view(ctx@);
        let l = child_length_of(repo, item, data, pos, &ctx, protocol, region, dir, budget);
        let content = slice_subrange(data, pos, pos + l);
        let f = decode_split_child(
            repo,
            item,
            content,
            index + pos,
            need_delete,
            protocol,
            region,
            dir,
            budget,
        );
        let entry = ContextEntry { name: child_name_of(item, i), end: pos + l, len: l, node: item };
        ctx.push(entry);
        assert(context_view(ctx@) =~= cv.push(entry_view(entry)));
        proof {
            lemma_fields_view_push(before, f);
            assert(split_fields_from(
                q,
                v,
                i as int,
                data@,
                pos as nat,
                cv,
                index as int,
                need_delete,
                fields_view(before),
                budget as nat,
            ) == split_fields_from(
                q,
                v,
                i + 1,
                data@,
                (pos + l) as nat,
                cv.push(entry_view(entry)),
                index as int,
                need_delete,
                fields_view(before).push(field_view(f)),
                budget as nat,
            ));
        }
        out.push(f);
        pos = pos + l;
        i += 1;
    }
    (out, pos)
}

/// The description, the child fields and the colour that the shape of an element
/// gives over the bytes taken for it.
#[verifier::rlimit(100)]
#[verifier::spinoff_prover]
pub fn decode_parts_of(
    repo: &ProtocolConfigManager,
    e: &XmlElement,
    seg: &[u8],
    index: usize,
    need_delete: bool,
    name: &str,
    plain: String,
    protocol: &str,
    region: &str,
    dir: Option<u8>,
    fuel: usize,
) -> (r: (String, Option<Vec<DecodedField>>, Option<String>))
    requires
        repo.wf(),
        index + seg@.len() <= usize::MAX,
    ensures
        (r.0@, opt_fields_view(r.1), text_view(r.2)) == item_parts(
            query_of(repo, protocol@, region@, dir),
            e@,
            seg@,
            index as int,
            need_delete,
            name@,
            plain@,
            fuel as nat,
        ),
    decreases fuel, 8nat, 0nat,
{
    let data_items = e.get_items("dataItem");
    let has_unit = e.has_child("unit");
    let has_value = e.has_child("value");
    if data_items.len() > 0 {
        let (fields, _l) = decode_parts(
            repo,
            &data_items,
            seg,
            index,
            need_delete,
            protocol,
            region,
            dir,
            fuel,
        );
        (plain, Some(fields), None)
    } else if (has_unit && has_value) || (!has_unit && has_value) {
        let (t, s, _l, c) = FrameAnalisyic::prase_value_item(
            e,
            seg,
            index,
            need_delete,
            protocol,
            region,
            dir,
        );
        (t, s, c)
    } else if has_unit {
        let (t, s, _l) = FrameAnalisyic::prase_singal_item(
            e,
            seg,
            index,
            need_delete,
            protocol,
            region,
            dir,
        );
        (bracket(name, t.as_str()), s, None)
    } else if e.has_child("time") {
        let (t, _s, _l) = FrameAnalisyic::prase_time_item(
            e,
            seg,
            index,
            need_delete,
            protocol,
            region,
            dir,
        );
        (bracket(name, t.as_str()), None, None)
    } else if e.has_child("splitbit") {
        let (fields, _l) = FrameAnalisyic::parse_bitwise_data(
            e,
            seg,
            index,
            need_delete,
            protocol,
            region,
            dir,
        );
        (plain, Some(fields), None)
    } else if e.has_child("splitByLength") {
        let (fields, _l) = decode_split(
            repo,
            e,
            seg,
            index,
            need_delete,
            protocol,
            region,
            dir,
            fuel,
        );
        (plain, Some(fields), None)
    } else if e.has_child("itembox") {
        let items = e.get_items("item");
        let (fields, _l) = decode_item_box(
            repo,
            &items,
            seg,
            index,
            need_delete,
            protocol,
            region,
            dir,
            fuel,
        );
        (plain, Some(fields), None)
    } else if e.has_child("indelength") {
        let wanted = dec_to_string(seg.len() as u64);
        match find_index_by_attr(&e.children, "len", wanted.as_str()) {
            Some(i) => {
                let fields = decode_item(
                    repo,
                    &e.children[i],
                    seg,
                    index,
                    need_delete,
                    protocol,
                    region,
                    dir,
                    fuel,
                );
                (plain, Some(fields), None)
            },
            None => (plain, None, None),
        }
    } else if e.has_child("type") {
        let l = type_length_of(repo, e, seg, protocol, region, dir, fuel);
        let (t, s) = decode_type_item(
            repo,
            e,
            seg,
            index,
            need_delete,
            l,
            protocol,
            region,
            dir,
            fuel,
        );
        (bracket(name, t.as_str()), s, None)
    } else {
        let (t, s, _l) = FrameAnalisyic::prase_singal_item(
            e,
            seg,
            index,
            need_delete,
            protocol,
            region,
            dir,
        );
        (bracket(name, t.as_str()), s, None)
    }
}

/// The decode of an element over a run of bytes, to a nesting depth of `fuel`.
#[verifier::rlimit(100)]
#[verifier::spinoff_prover]
pub fn decode_item(
    repo: &ProtocolConfigManager,
    e: &XmlElement,
    data: &[u8],
    index: usize,
    need_delete: bool,
    protocol: &str,
    region: &str,
    dir: Option<u8>,
    fuel: usize,
) -> (r: Vec<DecodedField>)
    requires
        repo.wf(),
        index + data@.len() <= usize::MAX,
    ensures
        fields_view(r@) == decoded_item(
            query_of(repo, protocol@, region@, dir),
            e@,
            data@,
            index as int,
            need_delete,
            fuel as nat,
        ),
    decreases fuel, 0nat, 0nat,
{
    let mut out: Vec<DecodedField> = Vec::new();
    if data.len() == 0 {
        assert(fields_view(out@) =~= Seq::empty());
        return out;
    }
    let len: usize = match static_length_of(e) {
        Some(n) => if n <= data.len() { n } else { data.len() },
        None => data.len(),
    };
    let seg = slice_subrange(data, 0, len);
    assert(seg@ =~= data@.take(len as int));
    let name_text = e.get_child_text("name");
    let shown = FrameFun::get_data_str(seg, need_delete, true, false);
    let plain = match &name_text {
        Some(n) => bracket(n.as_str(), shown.as_str()),
        None => shown,
    };
    let name = FrameAnalisyic::get_item_name_str(e.get_attribute("id"), name_text);
    let (description, children, color) = if fuel == 0 {
        (plain, None, None)
    } else {
        decode_parts_of(
            repo,
            e,
            seg,
            index,
            need_delete,
            name.as_str(),
            plain,
            protocol,
            region,
            dir,
            fuel - 1,
        )
    };
    let f = DecodedField {
        frame_domain: name,
        data: FrameFun::get_data_str_with_space(seg),
        description,
        start: index,
        end: index + len,
        color,
        children,
    };
    out.push(f);
    assert(fields_view(out@) =~= seq![f@]);
    out
}

/// The nesting depth to which the public decoders interpret a schema.
pub const DECODE_DEPTH: usize = 64;

impl FrameAnalisyic {
    /// Decodes an element over a run of bytes under a protocol: the wire offset is
    /// taken off values for the protocol `DLT/645-2007` and for no other. Frames
    /// embedded in the bytes are left as one field each, which holds the bytes
    /// of the frame; `FrameAnalisyic::decode_with_frames` decodes and reads them
    /// as well.
    pub fn prase_data(
        repo: &ProtocolConfigManager,
        data_item_elem: &XmlElement,
        protocol: &str,
        region: &str,
        data_segment: &[u8],
        index: usize,
        dir: Option<u8>,
    ) -> (r: Vec<DecodedField>)
        requires
            repo.wf(),
            index + data_segment@.len() <= usize::MAX,
        ensures
            fields_view(r@) == decoded_item(
                query_of(repo, protocol@, region@, dir),
                data_item_elem@,
                data_segment@,
                index as int,
                protocol@ == "DLT/645-2007"@,
                DECODE_DEPTH as nat,
            ),
    {
        let need_delete = str_eq(protocol, "DLT/645-2007");
        decode_item(
            repo,
            data_item_elem,
            data_segment,
            index,
            need_delete,
            protocol,
            region,
            dir,
            DECODE_DEPTH,
        )
    }

    /// Decodes an element over a run of bytes that starts at the absolute offset
    /// `index`. An element that declares a literal length takes exactly that
    /// many bytes where as many are given: its one field starts at the offset
    /// and ends that many bytes later. Frames embedded in the bytes are left as
    /// one field each; `FrameAnalisyic::expand_embedded` reads them.
    pub fn prase_data_item(
        repo: &ProtocolConfigManager,
        data_item_elem: &XmlElement,
        data_segment: &[u8],
        index: usize,
        need_delete: bool,
        protocol: &str,
        region: &str,
        dir: Option<u8>,
    ) -> (r: Vec<DecodedField>)
        requires
            repo.wf(),
            index + data_segment@.len() <= usize::MAX,
        ensures
            fields_view(r@) == decoded_item(
                query_of(repo, protocol@, region@, dir),
                data_item_elem@,
                data_segment@,
                index as int,
                need_delete,
                DECODE_DEPTH as nat,
            ),
            data_segment@.len() > 0 && static_length(data_item_elem@) is Some && static_length(
                data_item_elem@,
            ).unwrap() <= data_segment@.len() ==> r@.len() == 1 && r@[0].start == index && r@[0].end
                == index + static_length(data_item_elem@).unwrap(),
    {
        proof {
            if data_segment@.len() > 0 && static_length(data_item_elem@) is Some && static_length(
                data_item_elem@,
            ).unwrap() <= data_segment@.len() {
                lemma_static_length_is_consumed(
                    query_of(repo, protocol@, region@, dir),
                    data_item_elem@,
                    data_segment@,
                    index as int,
                    need_delete,
                    DECODE_DEPTH as nat,
                    static_length(data_item_elem@).unwrap(),
                );
            }
        }
        decode_item(
            repo,
            data_item_elem,
            data_segment,
            index,
            need_delete,
            protocol,
            region,
            dir,
            DECODE_DEPTH,
        )
    }

    /// Decodes the parts of a composite record, and gives the bytes taken.
    pub fn process_all_item(
        repo: &ProtocolConfigManager,
        data_item_elem: &XmlElement,
        data_segment: &[u8],
        index: usize,
        need_delete: bool,
        protocol: &str,
        region: &str,
        dir: Option<u8>,
    ) -> (r: (Vec<DecodedField>, usize))
        requires
            repo.wf(),
            index + data_segment@.len() <= usize::MAX,
        ensures
            (fields_view(r.0@), r.1 as nat) == all_items_from(
                query_of(repo, protocol@, region@, dir),
                data_item_elem@.items("dataItem"@),
                0,
                data_segment@,
                0,
                index as int,
                need_delete,
                Seq::empty(),
                DECODE_DEPTH as nat,
            ),
            r.1 <= data_segment@.len(),
    {
        let items = data_item_elem.get_items("dataItem");
        decode_parts(
            repo,
            &items,
            data_segment,
            index,
            need_delete,
            protocol,
            region,
            dir,
            DECODE_DEPTH,
        )
    }

    /// Decodes an ordered record, and gives the bytes taken. There is one field
    /// for each child; the fields of the children lie one behind the other from
    /// the offset given, without gap or overlap, and take exactly the length
    /// that the record resolves to.
    pub fn prase_split_by_length_item(
        repo: &ProtocolConfigManager,
        data_item_elem: &XmlElement,
        data_segment: &[u8],
        index: usize,
        need_delete: bool,
        protocol: &str,
        region: &str,
        dir: Option<u8>,
    ) -> (r: (Vec<DecodedField>, usize))
        requires
            repo.wf(),
            index + data_segment@.len() <= usize::MAX,
        ensures
            (fields_view(r.0@), r.1 as nat) == split_fields(
                query_of(repo, protocol@, region@, dir),
                data_item_elem@,
                data_segment@,
                index as int,
                need_delete,
                DECODE_DEPTH as nat,
            ),
            r.1 <= data_segment@.len(),
            data_segment@.len() > 0 && data_item_elem@.items("splitByLength"@).len() > 0 ==> r.0@.len()
                == data_item_elem@.items("splitByLength"@).len() + (if data_item_elem@.has_child(
                "splitbit"@,
            ) {
                1int
            } else {
                0int
            }) && r.1 as nat == item_length(
                query_of(repo, protocol@, region@, dir),
                data_item_elem@,
                data_segment@,
                None,
                DECODE_DEPTH as nat,
            ) && contiguous(
                fields_view(r.0@),
                if data_item_elem@.has_child("splitbit"@) { 1int } else { 0int },
                index as int,
                index + r.1,
            ),
    {
        proof {
            if data_segment@.len() > 0 && data_item_elem@.items("splitByLength"@).len() > 0 {
                lemma_split_matches_length(
                    query_of(repo, protocol@, region@, dir),
                    data_item_elem@,
                    data_segment@,
                    index as int,
                    need_delete,
                    DECODE_DEPTH as nat,
                );
            }
        }
        decode_split(
            repo,
            data_item_elem,
            data_segment,
            index,
            need_delete,
            protocol,
            region,
            dir,
            DECODE_DEPTH,
        )
    }

    /// Decodes a list of references to items, and gives the bytes taken.
    pub fn prase_item_box(
        repo: &ProtocolConfigManager,
        data_item_elem: &XmlElement,
        data_segment: &[u8],
        index: usize,
        need_delete: bool,
        protocol: &str,
        region: &str,
        dir: Option<u8>,
    ) -> (r: (Vec<DecodedField>, usize))
        requires
            repo.wf(),
            index + data_segment@.len() <= usize::MAX,
        ensures
            (fields_view(r.0@), r.1 as nat) == item_box_from(
                query_of(repo, protocol@, region@, dir),
                data_item_elem@.items("item"@),
                0,
                data_segment@,
                0,
                index as int,
                need_delete,
                Seq::empty(),
                DECODE_DEPTH as nat,
            ),
            r.1 <= data_segment@.len(),
    {
        let items = data_item_elem.get_items("item");
        decode_item_box(
            repo,
            &items,
            data_segment,
            index,
            need_delete,
            protocol,
            region,
            dir,
            DECODE_DEPTH,
        )
    }

    /// Decodes an element with a type, and gives the number of bytes given. An
    /// embedded frame is left as one field that holds its bytes;
    /// `FrameAnalisyic::expand_embedded` reads it.
    pub fn prase_type_item(
        repo: &ProtocolConfigManager,
        item_element: &XmlElement,
        data_segment: &[u8],
        index: usize,
        need_delete: bool,
        singal_length: usize,
        protocol: &str,
        region: &str,
        dir: Option<u8>,
    ) -> (r: (String, Option<Vec<DecodedField>>, usize))
        requires
            repo.wf(),
            index + data_segment@.len() <= usize::MAX,
        ensures
            (r.0@, opt_fields_view(r.1)) == type_item_parts(
                query_of(repo, protocol@, region@, dir),
                item_element@,
                data_segment@,
                index as int,
                need_delete,
                singal_length as int,
                DECODE_DEPTH as nat,
            ),
            r.2 == data_segment@.len(),
    {
        let (text, sub) = decode_type_item(
            repo,
            item_element,
            data_segment,
            index,
            need_delete,
            singal_length,
            protocol,
            region,
            dir,
            DECODE_DEPTH,
        );
        (text, sub, data_segment.len())
    }

    /// Decodes a value whose type names a template, and gives the number of bytes
    /// given.
    pub fn prase_template_type(
        repo: &ProtocolConfigManager,
        item_element: &XmlElement,
        data_segment: &[u8],
        item_len: usize,
        need_delete: bool,
        index: usize,
        protocol: &str,
        region: &str,
        dir: Option<u8>,
        is_singal: bool,
    ) -> (r: (String, Vec<DecodedField>, usize))
        requires
            repo.wf(),
            index + data_segment@.len() <= usize::MAX,
        ensures
            (r.0@, fields_view(r.1@)) == template_parts(
                query_of(repo, protocol@, region@, dir),
                item_element@,
                data_segment@,
                item_len as int,
                index as int,
                need_delete,
                is_singal,
                DECODE_DEPTH as nat,
            ),
            r.2 == data_segment@.len(),
    {
        let (text, fields) = decode_template(
            repo,
            item_element,
            data_segment,
            item_len,
            index,
            need_delete,
            is_singal,
            protocol,
            region,
            dir,
            DECODE_DEPTH,
        );
        (text, fields, data_segment.len())
    }
}

/// An element that declares a literal length takes exactly that many bytes where
/// the bytes given are at least as many: its decode is one field that starts at
/// the offset given and ends that many bytes later, whatever the nesting depth.
pub proof fn lemma_static_length_is_consumed(
    q: Query,
    e: ElementView,
    data: Seq<u8>,
    index: int,
    need_delete: bool,
    fuel: nat,
    len: nat,
)
    requires
        static_length(e) == Some(len),
        data.len() >= len,
        data.len() > 0,
    ensures
        decoded_item(q, e, data, index, need_delete, fuel).len() == 1,
        decoded_item(q, e, data, index, need_delete, fuel)[0].start == index,
        decoded_item(q, e, data, index, need_delete, fuel)[0].end == index + len,
        decoded_item(q, e, data, index, need_delete, fuel)[0].data == hex_spaced(
            data.take(len as int),
        ),
{
}

/// Every decode gives at most one field, which starts at the offset given and
/// ends within the bytes given.
pub proof fn lemma_decode_stays_in_bounds(
    q: Query,
    e: ElementView,
    data: Seq<u8>,
    index: int,
    need_delete: bool,
    fuel: nat,
)
    ensures
        decoded_item(q, e, data, index, need_delete, fuel).len() == (if data.len() == 0 {
            0nat
        } else {
            1nat
        }),
        data.len() > 0 ==> decoded_item(q, e, data, index, need_delete, fuel)[0].start == index
            && index <= decoded_item(q, e, data, index, need_delete, fuel)[0].end <= index
            + data.len(),
{
}

/// Whether the fields from position `from` on lie one behind the other from
/// `start` to `end`, without gap or overlap.
pub open spec fn contiguous(fields: Seq<FieldView>, from: int, start: int, end: int) -> bool
    decreases fields.len() - from,
{
    if from < 0 || from >= fields.len() {
        start == end
    } else {
        fields[from].start == start && start <= fields[from].end && contiguous(
            fields,
            from + 1,
            fields[from].end,
            end,
        )
    }
}

/// Fields that lie one behind the other still do so with one more field that
/// starts where they end.
pub proof fn lemma_contiguous_push(
    fields: Seq<FieldView>,
    from: int,
    start: int,
    end: int,
    f: FieldView,
)
    requires
        0 <= from <= fields.len(),
        contiguous(fields, from, start, end),
        f.start == end,
        f.start <= f.end,
    ensures
        contiguous(fields.push(f), from, start, f.end),
    decreases fields.len() - from,
{
    if from < fields.len() {
        lemma_contiguous_push(fields, from + 1, fields[from].end, end, f);
        assert(fields.push(f)[from] == fields[from]);
    } else {
        assert(fields.push(f)[from] == f);
        assert(contiguous(fields.push(f), from + 1, f.end, f.end));
    }
}

/// The length of a child of a record is never more than the bytes that are left.
pub proof fn lemma_child_length_bound(
    q: Query,
    sub: ElementView,
    data: Seq<u8>,
    pos: nat,
    ctx: Seq<EntryView>,
    fuel: nat,
)
    requires
        pos <= data.len(),
    ensures
        pos + child_length(q, sub, data, pos, ctx, fuel) <= data.len(),
{
}

/// The field of a child of a record covers exactly the bytes resolved for it.
pub proof fn lemma_split_child_range(
    q: Query,
    item: ElementView,
    content: Seq<u8>,
    start: int,
    need_delete: bool,
    fuel: nat,
)
    ensures
        split_child_field(q, item, content, start, need_delete, fuel).start == start,
        split_child_field(q, item, content, start, need_delete, fuel).end == start + content.len(),
        split_child_field(q, item, content, start, need_delete, fuel).data == hex_spaced(content),
{
}

/// The fields of the children of a record lie one behind the other, without gap or
/// overlap, and take exactly the length that the record resolves to, which is
/// never more than the bytes given.
#[verifier::rlimit(100)]
#[verifier::spinoff_prover]
pub proof fn lemma_record_is_contiguous(
    q: Query,
    items: Seq<ElementView>,
    i: int,
    data: Seq<u8>,
    pos: nat,
    ctx: Seq<EntryView>,
    index: int,
    need_delete: bool,
    acc: Seq<FieldView>,
    from: int,
    fuel: nat,
)
    requires
        0 <= i <= items.len(),
        pos <= data.len(),
        0 <= from <= acc.len(),
        contiguous(acc, from, index, index + pos),
    ensures
        ({
            let (fields, total) = split_fields_from(
                q,
                items,
                i,
                data,
                pos,
                ctx,
                index,
                need_delete,
                acc,
                fuel,
            );
            &&& total == record_length(q, items, i, data, pos, ctx, fuel)
            &&& pos <= total <= data.len()
            &&& fields.len() == acc.len() + items.len() - i
            &&& contiguous(fields, from, index, index + total)
        }),
    decreases items.len() - i,
{
    if i < items.len() {
        let l = child_length(q, items[i], data, pos, ctx, fuel);
        let f = split_child_field(
            q,
            items[i],
            data.subrange(pos as int, (pos + l) as int),
            index + pos,
            need_delete,
            fuel,
        );
        lemma_child_length_bound(q, items[i], data, pos, ctx, fuel);
        lemma_split_child_range(
            q,
            items[i],
            data.subrange(pos as int, (pos + l) as int),
            index + pos,
            need_delete,
            fuel,
        );
        lemma_contiguous_push(acc, from, index, index + pos, f);
        let entry = EntryView { name: child_name(items[i], i), end: pos + l, len: l, node: items[i] };
        assert(split_fields_from(q, items, i, data, pos, ctx, index, need_delete, acc, fuel)
            == split_fields_from(
            q,
            items,
            i + 1,
            data,
            pos + l,
            ctx.push(entry),
            index,
            need_delete,
            acc.push(f),
            fuel,
        ));
        assert(record_length(q, items, i, data, pos, ctx, fuel) == record_length(
            q,
            items,
            i + 1,
            data,
            pos + l,
            ctx.push(entry),
            fuel,
        ));
        lemma_record_is_contiguous(
            q,
            items,
            i + 1,
            data,
            pos + l,
            ctx.push(EntryView { name: child_name(items[i], i), end: pos + l, len: l, node: items[i] }),
            index,
            need_delete,
            acc.push(f),
            from,
            fuel,
        );
    }
}

/// For an element with record children, the fields of the children take exactly
/// the length that the element resolves to: there is one field for each child,
/// and they lie one behind the other from the offset given, behind the one field
/// of the element's own bitfield group where it has one.
pub proof fn lemma_split_matches_length(
    q: Query,
    e: ElementView,
    data: Seq<u8>,
    index: int,
    need_delete: bool,
    fuel: nat,
)
    requires
        fuel > 0,
        data.len() > 0,
        e.items("splitByLength"@).len() > 0,
    ensures
        split_fields(q, e, data, index, need_delete, fuel).1 == item_length(q, e, data, None, fuel),
        split_fields(q, e, data, index, need_delete, fuel).1 <= data.len(),
        split_fields(q, e, data, index, need_delete, fuel).0.len() == e.items(
            "splitByLength"@,
        ).len() + (if e.has_child("splitbit"@) { 1int } else { 0int }),
        contiguous(
            split_fields(q, e, data, index, need_delete, fuel).0,
            if e.has_child("splitbit"@) { 1int } else { 0int },
            index,
            index + split_fields(q, e, data, index, need_delete, fuel).1,
        ),
{
    let head = if e.has_child("splitbit"@) {
        seq![
            FieldView {
                frame_domain: item_label(e.attribute("id"@), e.child_text("name"@)),
                data: hex_spaced(data),
                description: hex_concat(data),
                start: index,
                end: index + data.len(),
                color: None,
                children: Some(bitwise_fields(e, data, index, need_delete)),
            },
        ]
    } else {
        Seq::empty()
    };
    let from = if e.has_child("splitbit"@) { 1int } else { 0int };
    assert(contiguous(head, from, index, index + 0));
    lemma_record_is_contiguous(
        q,
        e.items("splitByLength"@),
        0,
        data,
        0,
        Seq::empty(),
        index,
        need_delete,
        head,
        from,
        (fuel - 1) as nat,
    );
}

/// The literal length of the item that a reference resolves to once the reference
/// is trimmed; zero where it resolves to none or the item declares no literal
/// length.
pub open spec fn trimmed_reference_length(q: Query, item: ElementView) -> nat {
    match item.value {
        Some(id) => match q.item(trim_spec(id)) {
            Some(el) => match static_length(el) {
                Some(n) => n,
                None => 0,
            },
            None => 0,
        },
        None => 0,
    }
}

/// The sum of the literal lengths of the items that a list of references resolves
/// to, each reference trimmed, stopping at the largest machine number.
pub open spec fn trimmed_box_length(q: Query, items: Seq<ElementView>) -> nat
    decreases items.len(),
{
    if items.len() == 0 {
        0
    } else {
        min_of(
            (trimmed_box_length(q, items.drop_last()) + trimmed_reference_length(q, items.last())) as int,
            usize::MAX as int,
        ) as nat
    }
}

/// The length of the first references is that of one fewer and of the last.
pub proof fn lemma_trimmed_box_length_step(q: Query, v: Seq<ElementView>, i: int)
    requires
        0 <= i < v.len(),
    ensures
        trimmed_box_length(q, v.take(i + 1)) == min_of(
            (trimmed_box_length(q, v.take(i)) + trimmed_reference_length(q, v[i])) as int,
            usize::MAX as int,
        ) as nat,
{
    assert(v.take(i + 1).drop_last() =~= v.take(i));
    assert(v.take(i + 1).last() == v[i]);
}

/// The literal length of the item that a trimmed reference resolves to.
pub fn trimmed_reference_length_of(
    repo: &ProtocolConfigManager,
    item: &XmlElement,
    protocol: &str,
    region: &str,
    dir: Option<u8>,
) -> (r: usize)
    requires
        repo.wf(),
    ensures
        r as nat == trimmed_reference_length(query_of(repo, protocol@, region@, dir), item@),
{
    match &item.value {
        Some(id) => {
            let t = trim(id.as_str());
            match lookup_item(repo, t.as_str(), protocol, region, dir) {
                Some(el) => match static_length_of(&el) {
                    Some(n) => n,
                    None => 0,
                },
                None => 0,
            }
        },
        None => 0,
    }
}

/// The position of the first entry with the given key.
pub open spec fn index_of_key(
    l: Seq<(String, (String, String, u32, Vec<usize>))>,
    key: Seq<char>,
    i: int,
) -> Option<int>
    decreases l.len() - i,
{
    if i < 0 || i >= l.len() {
        None
    } else if l[i].0@ == key {
        Some(i)
    } else {
        index_of_key(l, key, i + 1)
    }
}

impl FrameFun {
    /// The sum of the literal lengths of the items that the references of an
    /// element resolve to.
    pub fn calculate_item_box_length(
        repo: &ProtocolConfigManager,
        item_ele: &XmlElement,
        protocol: &str,
        region: &str,
        dir: Option<u8>,
    ) -> (r: usize)
        requires
            repo.wf(),
        ensures
            r as nat == trimmed_box_length(
                query_of(repo, protocol@, region@, dir),
                item_ele@.items("item"@),
            ),
    {
        let all_items = item_ele.get_items("item");
        let ghost q = query_of(repo, protocol@, region@, dir);
        let ghost v = elements_view(all_items@);
        let mut total: usize = 0;
        let mut i: usize = 0;
        while i < all_items.len()
            invariant
                repo.wf(),
                i <= all_items.len(),
                q == query_of(repo, protocol@, region@, dir),
                v == elements_view(all_items@),
                total as nat == trimmed_box_length(q, v.take(i as int)),
            decreases all_items.len() - i,
        {
            proof {
                lemma_trimmed_box_length_step(q, v, i as int);
            }
            let one = trimmed_reference_length_of(repo, &all_items[i], protocol, region, dir);
            total = if total > usize::MAX - one { usize::MAX } else { total + one };
            i += 1;
        }
        assert(v.take(v.len() as int) =~= v);
        total
    }

    /// The entry of a table of resolved parts with the given name: its value, its
    /// position, and a copy of its name, its content, its value and its places.
    pub fn get_sublength_caculate_base(
        splitlength: &Vec<(String, (String, String, u32, Vec<usize>))>,
        target_subitem_name: &str,
    ) -> (r: Option<(u32, usize, (String, String, u32, Vec<usize>))>)
        ensures
            r is Some == index_of_key(splitlength@, target_subitem_name@, 0) is Some,
            r is Some ==> ({
                let i = index_of_key(splitlength@, target_subitem_name@, 0).unwrap();
                let (value, idx, entry) = r.unwrap();
                &&& idx as int == i
                &&& 0 <= i < splitlength@.len()
                &&& value == splitlength@[i].1.2
                &&& entry.0@ == splitlength@[i].0@
                &&& entry.1@ == splitlength@[i].1.0@
                &&& entry.2 == splitlength@[i].1.2
                &&& entry.3@ == splitlength@[i].1.3@
            }),
    {
        let mut i: usize = 0;
        while i < splitlength.len()
            invariant
                i <= splitlength.len(),
                index_of_key(splitlength@, target_subitem_name@, i as int) == index_of_key(
                    splitlength@,
                    target_subitem_name@,
                    0,
                ),
            decreases splitlength.len() - i,
        {
            if str_eq(splitlength[i].0.as_str(), target_subitem_name) {
                let entry = &splitlength[i];
                let mut places: Vec<usize> = Vec::new();
                let mut k: usize = 0;
                while k < entry.1.3.len()
                    invariant
                        k <= entry.1.3.len(),
                        places@ == entry.1.3@.take(k as int),
                    decreases entry.1.3.len() - k,
                {
                    places.push(entry.1.3[k]);
                    k += 1;
                    assert(places@ =~= entry.1.3@.take(k as int));
                }
                assert(entry.1.3@.take(entry.1.3@.len() as int) =~= entry.1.3@);
                return Some(
                    (entry.1.2, i, (entry.0.clone(), entry.1.0.clone(), entry.1.2, places)),
                );
            }
            i += 1;
        }
        None
    }
}

} // verus!
