//! Byte-level helpers shared by the frame decoders: checksums, the wire offset,
//! BCD and binary numbers, hexadecimal rendering, bit extraction.

use vstd::prelude::*;
use vstd::string::*;
use vstd::slice::*;
use crate::decoded::{DecodedField, field_view, fields_view, FieldView};
use crate::frame_err::CustomError;
use crate::text::{
    chars_to_string, dec_string, dec_to_string, find_chars, find_spec, hex_char_upper, hex_concat,
    hex_concat_lower, hex_spaced, hex_string, hex_string_spaced, hex_upper, push_char, push_dec,
    push_hex_upper, push_str, remove_blanks, str_eq, strip_blanks, to_chars, upper, uppercase_of,
};

verus! {

/// What `String::from_utf8_lossy` makes of a run of bytes.
pub uninterp spec fn utf8_lossy(bytes: Seq<u8>) -> Seq<char>;

/// Decodes bytes as UTF-8 with `String::from_utf8_lossy`, which replaces what is not
/// valid UTF-8; the result is named, not described.
#[verifier::external_body]
fn lossy_text(bytes: &[u8]) -> (r: String)
    ensures
        r@ == utf8_lossy(bytes@),
{
    String::from_utf8_lossy(bytes).into_owned()
}

/// Renders bytes with `hex::encode`: two lower-case hexadecimal digits for each byte,
/// in order.
#[verifier::external_body]
fn hex_encode(data: &[u8]) -> (r: String)
    ensures
        r@ == hex_concat_lower(data@),
{
    hex::encode(data)
}

/// A byte with the wire offset `0x33` taken off, modulo 256.
pub open spec fn sub33(b: u8) -> u8 {
    if b >= 0x33 { (b - 0x33) as u8 } else { (b + 256 - 0x33) as u8 }
}

/// A byte with the wire offset `0x33` put on, modulo 256.
pub open spec fn add33(b: u8) -> u8 {
    if b <= 0xCC { (b + 0x33) as u8 } else { (b + 0x33 - 256) as u8 }
}

/// Every byte with the wire offset taken off.
pub open spec fn strip33(s: Seq<u8>) -> Seq<u8> {
    Seq::new(s.len(), |i: int| sub33(s[i]))
}

/// Every byte with the wire offset put on.
pub open spec fn offset33(s: Seq<u8>) -> Seq<u8> {
    Seq::new(s.len(), |i: int| add33(s[i]))
}

/// The bytes with the offset taken off where `need_delete` says so.
pub open spec fn maybe_strip33(s: Seq<u8>, need_delete: bool) -> Seq<u8> {
    if need_delete { strip33(s) } else { s }
}

/// The sum of the bytes.
pub open spec fn sum_bytes(s: Seq<u8>) -> nat
    decreases s.len(),
{
    if s.len() == 0 {
        0
    } else {
        sum_bytes(s.drop_last()) + s.last() as nat
    }
}

/// The checksum of a run of bytes: their sum modulo 256.
pub open spec fn checksum(s: Seq<u8>) -> u8 {
    (sum_bytes(s) % 256) as u8
}

/// What one byte contributes to a number: its value, or for BCD its two decimal digits.
pub open spec fn byte_weight(b: u8, bcd: bool) -> nat {
    if bcd { ((b as nat / 16) * 10 + b as nat % 16) as nat } else { b as nat }
}

/// The base that one byte shifts a number by.
pub open spec fn byte_base(bcd: bool) -> nat {
    if bcd { 100 } else { 256 }
}

/// The number that the bytes hold, least significant byte first.
pub open spec fn le_number(s: Seq<u8>, bcd: bool) -> nat
    decreases s.len(),
{
    if s.len() == 0 {
        0
    } else {
        byte_weight(s[0], bcd) + byte_base(bcd) * le_number(s.drop_first(), bcd)
    }
}

/// The number that the upper bytes hold is never more than the number that all
/// bytes hold.
pub proof fn lemma_le_number_suffix(s: Seq<u8>, bcd: bool, i: int)
    requires
        0 <= i <= s.len(),
    ensures
        le_number(s.subrange(i, s.len() as int), bcd) <= le_number(s, bcd),
    decreases i,
{
    if i == 0 {
        assert(s.subrange(0, s.len() as int) =~= s);
    } else {
        lemma_le_number_suffix(s, bcd, i - 1);
        let t = s.subrange(i - 1, s.len() as int);
        assert(t.drop_first() =~= s.subrange(i, s.len() as int));
        assert(le_number(t, bcd) == byte_weight(t[0], bcd) + byte_base(bcd) * le_number(
            t.drop_first(),
            bcd,
        ));
        assert(byte_base(bcd) * le_number(t.drop_first(), bcd) >= le_number(t.drop_first(), bcd))
            by (nonlinear_arith)
            requires
                byte_base(bcd) >= 1,
        ;
    }
}

/// The bits of a byte, most significant first.
pub open spec fn bit_of(x: u8, i: int) -> u8 {
    (x >> ((7 - i) as u8)) & 1
}

/// The big-endian number that the bytes hold, modulo 2^32.
pub open spec fn be_u32(s: Seq<u8>) -> u32
    decreases s.len(),
{
    if s.len() == 0 {
        0
    } else {
        ((be_u32(s.drop_last()) << 8) | (s.last() as u32))
    }
}

/// The number of leading bytes equal to `0xFE`.
pub open spec fn fe_count(s: Seq<u8>) -> nat
    decreases s.len(),
{
    if s.len() > 0 && s[0] == 0xFE {
        1 + fe_count(s.drop_first())
    } else {
        0
    }
}

/// The position of the first zero byte, or the length where there is none.
pub open spec fn first_nul(s: Seq<u8>) -> nat
    decreases s.len(),
{
    if s.len() > 0 && s[0] != 0 {
        1 + first_nul(s.drop_first())
    } else {
        0
    }
}

/// A text padded on the left with `c` up to `width` characters.
pub open spec fn pad_left(s: Seq<char>, width: nat, c: char) -> Seq<char> {
    if s.len() >= width {
        s
    } else {
        Seq::new((width - s.len()) as nat, |i: int| c) + s
    }
}

/// A number with a decimal point before its last `dp` digits.
pub open spec fn fixed_point(value: nat, dp: nat) -> Seq<char> {
    if dp == 0 {
        dec_string(value)
    } else {
        let d = pad_left(dec_string(value), dp + 1, '0');
        d.subrange(0, d.len() - dp).push('.') + d.subrange(d.len() - dp, d.len() as int)
    }
}

/// A number over `nbytes` bytes as text: fixed point, zero-padded to two characters
/// for each byte and one more for the decimal point where there is one.
pub open spec fn number_text(value: nat, dp: nat, nbytes: nat, negative: bool) -> Seq<char> {
    let body = pad_left(fixed_point(value, dp), 2 * nbytes + if dp != 0 { 1nat } else { 0nat }, '0');
    if negative { seq!['-'] + body } else { body }
}

/// The marker that stands for a value that is not valid data.
pub open spec fn invalid_marker() -> Seq<char> {
    "无效数据"@
}

/// The bytes that a number is read from: the offset taken off where asked, and the
/// sign bit of the last byte cleared where the number is signed.
pub open spec fn magnitude_bytes(s: Seq<u8>, need_delete: bool, sign: bool) -> Seq<u8> {
    let t = maybe_strip33(s, need_delete);
    if sign && t.len() > 0 && t.last() & 0x80 != 0 {
        t.update(t.len() - 1, t.last() & 0x7F)
    } else {
        t
    }
}

/// Whether the sign bit of a signed number is set.
pub open spec fn is_negative(s: Seq<u8>, need_delete: bool, sign: bool) -> bool {
    let t = maybe_strip33(s, need_delete);
    sign && t.len() > 0 && t.last() & 0x80 != 0
}

/// The text of a number held in bytes, binary or BCD: the invalid-data marker where
/// the number does not fit 64 bits.
pub open spec fn decode_number(s: Seq<u8>, dp: nat, need_delete: bool, sign: bool, bcd: bool) -> Seq<
    char,
> {
    let v = le_number(magnitude_bytes(s, need_delete, sign), bcd);
    if v > u64::MAX {
        invalid_marker()
    } else {
        number_text(v, dp, s.len(), is_negative(s, need_delete, sign))
    }
}

/// The text of a BCD number: the invalid-data marker where every byte is `0xFF`.
pub open spec fn bcd_text(s: Seq<u8>, dp: nat, need_delete: bool, sign: bool) -> Seq<char> {
    if all_equal(s, 0xFF) {
        invalid_marker()
    } else {
        decode_number(s, dp, need_delete, sign, true)
    }
}

/// The text of a binary number: with `judge_ff`, the invalid-data marker where every
/// byte is `0xFF`.
pub open spec fn bin_text(s: Seq<u8>, dp: nat, need_delete: bool, sign: bool, judge_ff: bool) -> Seq<
    char,
> {
    if judge_ff && all_equal(s, 0xFF) {
        invalid_marker()
    } else {
        decode_number(s, dp, need_delete, sign, false)
    }
}

/// Whether every byte equals `value`.
pub open spec fn all_equal(s: Seq<u8>, value: u8) -> bool {
    forall|i: int| 0 <= i < s.len() ==> #[trigger] s[i] == value
}

/// A natural number held in 64 bits, or the largest such where it does not fit.
pub open spec fn sat_u64(n: nat) -> u64 {
    if n <= u64::MAX { n as u64 } else { u64::MAX }
}

/// 256 to the power `n`.
pub open spec fn pow256(n: nat) -> nat
    decreases n,
{
    if n == 0 { 1 } else { 256 * pow256((n - 1) as nat) }
}

/// A binary number over `n` bytes is below 256 to the power `n`.
pub proof fn lemma_le_number_bound(s: Seq<u8>)
    ensures
        le_number(s, false) < pow256(s.len()),
    decreases s.len(),
{
    if s.len() > 0 {
        lemma_le_number_bound(s.drop_first());
        let x = le_number(s.drop_first(), false);
        let p = pow256((s.len() - 1) as nat);
        assert(s[0] as nat + 256 * x < 256 * p) by (nonlinear_arith)
            requires
                x < p,
                s[0] < 256,
        ;
    }
}

/// A binary number over at most eight bytes fits 64 bits.
pub proof fn lemma_le_number_fits(s: Seq<u8>)
    requires
        s.len() <= 8,
    ensures
        le_number(s, false) <= u64::MAX,
{
    lemma_le_number_bound(s);
    reveal_with_fuel(pow256, 9);
    assert(pow256(8) == 0x1_0000_0000_0000_0000);
}

/// The number that the bytes hold, least significant first, where it fits 64 bits.
pub fn le_number_checked(data: &[u8], bcd: bool) -> (r: Option<u64>)
    ensures
        r is Some == (le_number(data@, bcd) <= u64::MAX),
        r is Some ==> r.unwrap() as nat == le_number(data@, bcd),
{
    let base: u64 = if bcd { 100 } else { 256 };
    let mut acc: u64 = 0;
    let mut i: usize = data.len();
    assert(data@.subrange(i as int, data.len() as int) =~= Seq::<u8>::empty());
    while i > 0
        invariant
            i <= data.len(),
            base as nat == byte_base(bcd),
            acc as nat == le_number(data@.subrange(i as int, data.len() as int), bcd),
        decreases i,
    {
        let b: u8 = data[i - 1];
        let w: u64 = if bcd { (b / 16) as u64 * 10 + (b % 16) as u64 } else { b as u64 };
        proof {
            let t = data@.subrange(i - 1, data.len() as int);
            assert(t.drop_first() =~= data@.subrange(i as int, data.len() as int));
            assert(t[0] == b);
            lemma_le_number_suffix(data@, bcd, i - 1);
        }
        if acc > (u64::MAX - w) / base {
            assert(w as nat + base as nat * acc as nat > u64::MAX) by (nonlinear_arith)
                requires
                    acc > (u64::MAX - w) / (base as int),
                    base > 0,
                    w <= u64::MAX,
            ;
            return None;
        }
        assert(w + base * acc <= u64::MAX) by (nonlinear_arith)
            requires
                acc <= (u64::MAX - w) / (base as int),
                base > 0,
                w <= u64::MAX,
        ;
        acc = w + base * acc;
        i -= 1;
    }
    assert(data@.subrange(0, data.len() as int) =~= data@);
    Some(acc)
}

/// The characters of `s` padded on the left with `c` up to `width`.
pub fn pad_left_chars(s: &Vec<char>, width: u128, c: char) -> (r: Vec<char>)
    ensures
        r@ == pad_left(s@, width as nat, c),
{
    let mut out: Vec<char> = Vec::new();
    let n: u128 = s.len() as u128;
    let mut k: u128 = 0;
    while k + n < width
        invariant
            n == s.len(),
            k + n <= width || k == 0,
            out@ == Seq::new(k as nat, |i: int| c),
        decreases width - k - n,
    {
        out.push(c);
        k += 1;
        assert(out@ =~= Seq::new(k as nat, |i: int| c));
    }
    let mut i: usize = 0;
    while i < s.len()
        invariant
            i <= s.len(),
            out@ == Seq::new(k as nat, |j: int| c) + s@.take(i as int),
        decreases s.len() - i,
    {
        out.push(s[i]);
        i += 1;
        assert(out@ =~= Seq::new(k as nat, |j: int| c) + s@.take(i as int));
    }
    assert(s@.take(s.len() as int) =~= s@);
    assert(Seq::new(0nat, |j: int| c) + s@ =~= s@);
    out
}

/// The characters of a number with a decimal point before its last `dp` digits.
pub fn fixed_point_chars(value: u64, dp: usize) -> (r: Vec<char>)
    ensures
        r@ == fixed_point(value as nat, dp as nat),
{
    let digits_text = dec_to_string(value);
    let digits = to_chars(digits_text.as_str());
    if dp == 0 {
        return digits;
    }
    let d = pad_left_chars(&digits, dp as u128 + 1, '0');
    assert(d@.len() >= dp + 1);
    let split: usize = d.len() - dp;
    let mut out: Vec<char> = Vec::new();
    let mut i: usize = 0;
    while i < split
        invariant
            i <= split <= d.len(),
            out@ == d@.subrange(0, i as int),
        decreases split - i,
    {
        out.push(d[i]);
        i += 1;
        assert(out@ =~= d@.subrange(0, i as int));
    }
    out.push('.');
    while i < d.len()
        invariant
            split <= i <= d.len(),
            out@ == d@.subrange(0, split as int).push('.') + d@.subrange(split as int, i as int),
        decreases d.len() - i,
    {
        out.push(d[i]);
        i += 1;
        assert(out@ =~= d@.subrange(0, split as int).push('.') + d@.subrange(
            split as int,
            i as int,
        ));
    }
    out
}

/// The text of a number over `nbytes` bytes.
pub fn number_to_text(value: u64, dp: usize, nbytes: usize, negative: bool) -> (r: String)
    ensures
        r@ == number_text(value as nat, dp as nat, nbytes as nat, negative),
{
    let fp = fixed_point_chars(value, dp);
    let width: u128 = 2 * (nbytes as u128) + if dp != 0 { 1u128 } else { 0u128 };
    let body = pad_left_chars(&fp, width, '0');
    let mut out = String::new();
    if negative {
        push_char(&mut out, '-');
    }
    let rest = chars_to_string(&body, 0, body.len());
    assert(body@.subrange(0, body.len() as int) =~= body@);
    push_str(&mut out, rest.as_str());
    assert(out@ =~= number_text(value as nat, dp as nat, nbytes as nat, negative));
    out
}

/// The text of a number held in bytes, binary or BCD.
pub fn decode_number_text(data: &[u8], dp: usize, need_delete: bool, sign: bool, bcd: bool) -> (r:
    String)
    ensures
        r@ == decode_number(data@, dp as nat, need_delete, sign, bcd),
{
    let mut bytes: Vec<u8> = if need_delete {
        FrameFun::frame_delete_33h(data)
    } else {
        slice_to_vec(data)
    };
    assert(bytes@ == maybe_strip33(data@, need_delete));
    let mut negative = false;
    let n: usize = bytes.len();
    if sign && n > 0 && bytes[n - 1] & 0x80 != 0 {
        negative = true;
        let cleared: u8 = bytes[n - 1] & 0x7F;
        bytes.set(n - 1, cleared);
    }
    assert(bytes@ == magnitude_bytes(data@, need_delete, sign));
    match le_number_checked(bytes.as_slice(), bcd) {
        Some(v) => number_to_text(v, dp, data.len(), negative),
        None => "无效数据".to_owned(),
    }
}

/// The byte-level helpers of the frame decoders.
pub struct FrameFun;

impl FrameFun {
    /// A copy of the bytes.
    pub fn bytes_to_decimal_list(byte_data: &[u8]) -> (r: Result<Vec<u8>, CustomError>)
        ensures
            r is Ok,
            r.unwrap()@ == byte_data@,
    {
        Ok(slice_to_vec(byte_data))
    }

    /// The bytes in lower-case hexadecimal.
    pub fn get_frame_from_bytes(data: &[u8]) -> (r: Result<String, CustomError>)
        ensures
            r is Ok,
            r.unwrap()@ == hex_concat_lower(data@),
    {
        Ok(hex_encode(data))
    }

    /// Appends one decoded field to a list.
    pub fn add_data(
        data_list: &mut Vec<DecodedField>,
        frame: String,
        data: String,
        description: String,
        start: usize,
        end: usize,
        child_items: Option<Vec<DecodedField>>,
        color: Option<String>,
    )
        ensures
            final(data_list)@.len() == old(data_list)@.len() + 1,
            final(data_list)@.drop_last() == old(data_list)@,
            final(data_list)@.last() == (DecodedField {
                frame_domain: frame,
                data,
                description,
                start,
                end,
                color,
                children: child_items,
            }),
    {
        data_list.push(
            DecodedField { frame_domain: frame, data, description, start, end, color, children: child_items },
        );
        assert(data_list@.drop_last() =~= old(data_list)@);
    }

    /// The bits of a byte, most significant first.
    pub fn get_bit_array(hexadecimal: u8) -> (r: Vec<u8>)
        ensures
            r@.len() == 8,
            forall|i: int| 0 <= i < 8 ==> #[trigger] r@[i] == bit_of(hexadecimal, i),
    {
        let mut bit_array: Vec<u8> = Vec::new();
        let mut i: u8 = 0;
        while i < 8
            invariant
                i <= 8,
                bit_array@.len() == i,
                forall|j: int| 0 <= j < i ==> #[trigger] bit_array@[j] == bit_of(hexadecimal, j),
            decreases 8 - i,
        {
            bit_array.push((hexadecimal >> (7 - i)) & 1);
            i += 1;
        }
        bit_array
    }

    /// The BCD byte of a number below one hundred; an error for a larger one.
    pub fn decimal_to_bcd_byte(decimal_num: u8) -> (r: Result<u8, CustomError>)
        ensures
            r is Ok == (decimal_num <= 99),
            r is Ok ==> r.unwrap() == ((decimal_num / 10) << 4) | (decimal_num % 10),
            r is Ok ==> r.unwrap() as int / 16 == decimal_num / 10 && r.unwrap() as int % 16
                == decimal_num % 10,
            r is Err ==> r.unwrap_err().code == 1,
    {
        if decimal_num > 99 {
            return Err(
                CustomError::new(1, "Decimal number must be between 0 and 99".to_owned()),
            );
        }
        let tens_digit: u8 = decimal_num / 10;
        let ones_digit: u8 = decimal_num % 10;
        assert(((tens_digit << 4) | ones_digit) / 16 == tens_digit && ((tens_digit << 4)
            | ones_digit) % 16 == ones_digit) by (bit_vector)
            requires
                tens_digit < 10,
                ones_digit < 10,
        ;
        Ok((tens_digit << 4) | ones_digit)
    }

    /// Sets bit `bitpos` of a bit string, bit 0 being the lowest bit of the first
    /// byte. A position from 256 on, or beyond the bit string, changes nothing.
    pub fn set_bit_value(bitstring: &mut Vec<u8>, bitpos: usize)
        ensures
            final(bitstring)@.len() == old(bitstring)@.len(),
            bitpos < 256 && bitpos / 8 < old(bitstring)@.len() ==> final(bitstring)@ == old(
                bitstring,
            )@.update(
                (bitpos / 8) as int,
                old(bitstring)@[(bitpos / 8) as int] | (1u8 << ((bitpos % 8) as u8)),
            ),
            !(bitpos < 256 && bitpos / 8 < old(bitstring)@.len()) ==> final(bitstring)@ == old(
                bitstring,
            )@,
    {
        if bitpos >= 256 || bitpos / 8 >= bitstring.len() {
            return ;
        }
        let byte_no: usize = bitpos / 8;
        let bit: u8 = (bitpos % 8) as u8;
        let v: u8 = bitstring[byte_no] | (1u8 << bit);
        bitstring.set(byte_no, v);
    }

    /// Clears bit `bitpos` of a bit string, bit 0 being the lowest bit of the first
    /// byte. A position from 256 on, or beyond the bit string, changes nothing.
    pub fn clr_bit_value(bitstring: &mut Vec<u8>, bitpos: usize)
        ensures
            final(bitstring)@.len() == old(bitstring)@.len(),
            bitpos < 256 && bitpos / 8 < old(bitstring)@.len() ==> final(bitstring)@ == old(
                bitstring,
            )@.update(
                (bitpos / 8) as int,
                old(bitstring)@[(bitpos / 8) as int] & !(1u8 << ((bitpos % 8) as u8)),
            ),
            !(bitpos < 256 && bitpos / 8 < old(bitstring)@.len()) ==> final(bitstring)@ == old(
                bitstring,
            )@,
    {
        if bitpos >= 256 || bitpos / 8 >= bitstring.len() {
            return ;
        }
        let byte_no: usize = bitpos / 8;
        let bit: u8 = (bitpos % 8) as u8;
        let v: u8 = bitstring[byte_no] & !(1u8 << bit);
        bitstring.set(byte_no, v);
    }

    /// Whether every element equals `value`.
    pub fn is_all_elements_equal(arr: &[u8], value: u8) -> (r: bool)
        ensures
            r == all_equal(arr@, value),
    {
        let mut i: usize = 0;
        while i < arr.len()
            invariant
                i <= arr.len(),
                forall|j: int| 0 <= j < i ==> #[trigger] arr@[j] == value,
            decreases arr.len() - i,
        {
            if arr[i] != value {
                return false;
            }
            i += 1;
        }
        true
    }

    /// Whether every byte is `0xFF`.
    pub fn is_array_all_ffs(arr: &[u8]) -> (r: bool)
        ensures
            r == all_equal(arr@, 0xFF),
    {
        Self::is_all_elements_equal(arr, 0xFF)
    }

    /// Whether every byte is zero.
    pub fn is_array_all_zeros(arr: &[u8]) -> (r: bool)
        ensures
            r == all_equal(arr@, 0),
    {
        Self::is_all_elements_equal(arr, 0)
    }

    /// The checksum of the bytes: their sum modulo 256.
    pub fn calculate_cs(data: &[u8]) -> (r: u8)
        ensures
            r == checksum(data@),
    {
        let mut cs: u8 = 0;
        let mut i: usize = 0;
        while i < data.len()
            invariant
                i <= data.len(),
                cs as nat == sum_bytes(data@.take(i as int)) % 256,
            decreases data.len() - i,
        {
            let ghost before = sum_bytes(data@.take(i as int));
            let b: u8 = data[i];
            proof {
                assert(data@.take(i + 1).drop_last() =~= data@.take(i as int));
                assert(sum_bytes(data@.take(i + 1)) == before + b as nat);
                assert((before + b as nat) % 256 == ((before % 256) + b as nat) % 256) by {
                    vstd::arithmetic::div_mod::lemma_add_mod_noop(before as int, b as int, 256);
                }
            }
            cs = (((cs as u16) + (b as u16)) % 256) as u8;
            i += 1;
        }
        assert(data@.take(data.len() as int) =~= data@);
        cs
    }

    /// Whether `cs` is the checksum of the bytes.
    pub fn is_valid_cs(data: &[u8], cs: u8) -> (r: bool)
        ensures
            r == (cs as nat == sum_bytes(data@) % 256),
    {
        Self::calculate_cs(data) == cs
    }

    /// The bytes with the wire offset `0x33` taken off each.
    pub fn frame_delete_33h(frame: &[u8]) -> (r: Vec<u8>)
        ensures
            r@ == strip33(frame@),
    {
        let mut out: Vec<u8> = Vec::new();
        let mut i: usize = 0;
        while i < frame.len()
            invariant
                i <= frame.len(),
                out@.len() == i,
                forall|j: int| 0 <= j < i ==> #[trigger] out@[j] == sub33(frame@[j]),
            decreases frame.len() - i,
        {
            out.push(frame[i].wrapping_sub(0x33));
            i += 1;
        }
        assert(out@ =~= strip33(frame@));
        out
    }

    /// The bytes with the wire offset `0x33` put on each.
    pub fn frame_add_33h(frame: &[u8]) -> (r: Vec<u8>)
        ensures
            r@ == offset33(frame@),
    {
        let mut out: Vec<u8> = Vec::new();
        let mut i: usize = 0;
        while i < frame.len()
            invariant
                i <= frame.len(),
                out@.len() == i,
                forall|j: int| 0 <= j < i ==> #[trigger] out@[j] == add33(frame@[j]),
            decreases frame.len() - i,
        {
            out.push(frame[i].wrapping_add(0x33));
            i += 1;
        }
        assert(out@ =~= offset33(frame@));
        out
    }
}

/// Putting the wire offset on a byte undoes taking it off, for every byte.
pub proof fn lemma_offset_roundtrip(b: u8)
    ensures
        add33(sub33(b)) == b,
        sub33(add33(b)) == b,
{
}

/// Putting the wire offset on a frame undoes taking it off, and the other way round.
pub proof fn lemma_frame_offset_roundtrip(s: Seq<u8>)
    ensures
        offset33(strip33(s)) == s,
        strip33(offset33(s)) == s,
{
    assert forall|i: int| 0 <= i < s.len() implies offset33(strip33(s))[i] == s[i] by {
        lemma_offset_roundtrip(s[i]);
    }
    assert forall|i: int| 0 <= i < s.len() implies strip33(offset33(s))[i] == s[i] by {
        lemma_offset_roundtrip(s[i]);
    }
    assert(offset33(strip33(s)) =~= s);
    assert(strip33(offset33(s)) =~= s);
}

/// A natural number held in 32 bits, or the largest such where it does not fit.
pub open spec fn sat_u32(n: nat) -> u32 {
    if n <= u32::MAX { n as u32 } else { u32::MAX }
}

/// An address of four bytes in dotted decimal, the last byte first.
pub open spec fn ip_text(s: Seq<u8>) -> Seq<char>
    recommends
        s.len() >= 4,
{
    dec_string(s[3] as nat).push('.') + dec_string(s[2] as nat).push('.') + dec_string(
        s[1] as nat,
    ).push('.') + dec_string(s[0] as nat)
}

/// A binary number below one hundred as a BCD byte; above that the tens spill over.
pub open spec fn bin2bcd(b: u8) -> u8 {
    (((b / 10) << 4) | (b % 10)) as u8
}

/// The bytes in upper-case hexadecimal after the chosen transformations: the wire
/// offset taken off, the order reversed, a space between bytes.
pub open spec fn data_str(s: Seq<u8>, need_delete: bool, need_reverse: bool, with_space: bool) -> Seq<
    char,
> {
    let a = maybe_strip33(s, need_delete);
    let b = if need_reverse { a.reverse() } else { a };
    if with_space { hex_spaced(b) } else { hex_concat(b) }
}

/// The bytes in reverse order.
pub fn reversed(data: &[u8]) -> (r: Vec<u8>)
    ensures
        r@ == data@.reverse(),
{
    let mut out: Vec<u8> = Vec::new();
    let mut i: usize = data.len();
    while i > 0
        invariant
            i <= data.len(),
            out@.len() == data.len() - i,
            forall|j: int| 0 <= j < out@.len() ==> #[trigger] out@[j] == data@[data.len() - 1 - j],
        decreases i,
    {
        out.push(data[i - 1]);
        i -= 1;
    }
    assert(out@ =~= data@.reverse());
    out
}

impl FrameFun {
    /// The text of a binary number, least significant byte first.
    pub fn bin_to_decimal(
        bcd_array: &[u8],
        decimal_places: usize,
        need_delete: bool,
        sign: bool,
        judge_ff: bool,
    ) -> (r: String)
        ensures
            r@ == bin_text(bcd_array@, decimal_places as nat, need_delete, sign, judge_ff),
    {
        if judge_ff && Self::is_array_all_ffs(bcd_array) {
            return "无效数据".to_owned();
        }
        decode_number_text(bcd_array, decimal_places, need_delete, sign, false)
    }

    /// The text of a binary number, most significant byte first.
    pub fn prase_bin_be_deciml(
        bcd_array: &[u8],
        decimal_places: usize,
        need_delete: bool,
        sign: bool,
        judge_ff: bool,
    ) -> (r: String)
        ensures
            r@ == bin_text(bcd_array@.reverse(), decimal_places as nat, need_delete, sign, judge_ff),
    {
        let array = reversed(bcd_array);
        Self::bin_to_decimal(array.as_slice(), decimal_places, need_delete, sign, judge_ff)
    }

    /// The binary number that the bytes hold, least significant first; the largest
    /// 64-bit number where it does not fit.
    pub fn bintodecimal(binary_data: &[u8]) -> (r: u64)
        ensures
            r == sat_u64(le_number(binary_data@, false)),
    {
        match le_number_checked(binary_data, false) {
            Some(v) => v,
            None => u64::MAX,
        }
    }

    /// The text of a BCD number, least significant byte first.
    pub fn bcd_to_decimal(bcd_array: &[u8], decimal_places: usize, need_delete: bool, sign: bool) -> (r:
        String)
        ensures
            r@ == bcd_text(bcd_array@, decimal_places as nat, need_delete, sign),
    {
        if Self::is_array_all_ffs(bcd_array) {
            return "无效数据".to_owned();
        }
        decode_number_text(bcd_array, decimal_places, need_delete, sign, true)
    }

    /// A port of exactly two bytes in decimal; the empty text for another length.
    pub fn prase_port(port_data: &[u8]) -> (r: String)
        ensures
            port_data@.len() != 2 ==> r@ == Seq::<char>::empty(),
            port_data@.len() == 2 ==> r@ == dec_string(le_number(port_data@, false)),
    {
        if port_data.len() != 2 {
            return String::new();
        }
        proof {
            lemma_le_number_fits(port_data@);
        }
        dec_to_string(Self::bintodecimal(port_data))
    }

    /// An address of exactly four bytes in dotted decimal; the empty text for
    /// another length.
    pub fn prase_ip_str(ipdata: &[u8]) -> (r: String)
        ensures
            ipdata@.len() != 4 ==> r@ == Seq::<char>::empty(),
            ipdata@.len() == 4 ==> r@ == ip_text(ipdata@),
    {
        if ipdata.len() != 4 {
            return String::new();
        }
        Self::parse_ip_str(ipdata)
    }

    /// An address in dotted decimal from the first four bytes; the empty text where
    /// there are fewer.
    pub fn parse_ip_str(ipdata: &[u8]) -> (r: String)
        ensures
            ipdata@.len() < 4 ==> r@ == Seq::<char>::empty(),
            ipdata@.len() >= 4 ==> r@ == ip_text(ipdata@),
    {
        if ipdata.len() < 4 {
            return String::new();
        }
        let mut out = String::new();
        push_dec(&mut out, ipdata[3] as u64);
        push_char(&mut out, '.');
        push_dec(&mut out, ipdata[2] as u64);
        push_char(&mut out, '.');
        push_dec(&mut out, ipdata[1] as u64);
        push_char(&mut out, '.');
        push_dec(&mut out, ipdata[0] as u64);
        assert(out@ =~= ip_text(ipdata@));
        out
    }

    /// A port in decimal from all the bytes, least significant first; the empty
    /// text where there are fewer than two.
    pub fn parse_port(port_data: &[u8]) -> (r: String)
        ensures
            port_data@.len() < 2 ==> r@ == Seq::<char>::empty(),
            port_data@.len() >= 2 ==> r@ == dec_string(
                sat_u64(le_number(port_data@, false)) as nat,
            ),
    {
        if port_data.len() < 2 {
            return String::new();
        }
        dec_to_string(Self::bintodecimal(port_data))
    }

    /// Each BCD byte as the number of its two decimal digits.
    pub fn bcd_array_to_decimal_array(data_array: &[u8]) -> (r: Vec<u8>)
        ensures
            r@.len() == data_array@.len(),
            forall|i: int|
                0 <= i < r@.len() ==> #[trigger] r@[i] as nat == byte_weight(data_array@[i], true),
    {
        let mut out: Vec<u8> = Vec::new();
        let mut i: usize = 0;
        while i < data_array.len()
            invariant
                i <= data_array.len(),
                out@.len() == i,
                forall|j: int|
                    0 <= j < i ==> #[trigger] out@[j] as nat == byte_weight(data_array@[j], true),
            decreases data_array.len() - i,
        {
            let b: u8 = data_array[i];
            out.push((b / 16) * 10 + b % 16);
            i += 1;
        }
        out
    }

    /// The BCD number that the bytes hold, least significant first, with the wire
    /// offset taken off where asked; the largest 32-bit number where it does not fit.
    pub fn bcd_to_int(bcd_array: &[u8], need_delete: bool) -> (r: u32)
        ensures
            r == sat_u32(le_number(maybe_strip33(bcd_array@, need_delete), true)),
    {
        let bytes: Vec<u8> = if need_delete {
            Self::frame_delete_33h(bcd_array)
        } else {
            slice_to_vec(bcd_array)
        };
        match le_number_checked(bytes.as_slice(), true) {
            Some(v) => if v <= u32::MAX as u64 { v as u32 } else { u32::MAX },
            None => u32::MAX,
        }
    }

    /// The number of the two decimal digits of a BCD byte.
    pub fn bcd2int(bcd: u8) -> (r: u32)
        ensures
            r as nat == byte_weight(bcd, true),
    {
        (bcd / 16) as u32 * 10 + (bcd % 16) as u32
    }

    /// The binary number that the bytes hold, least significant first, with the wire
    /// offset taken off where asked; the largest 32-bit number where it does not fit.
    pub fn hex_array_to_int(hex_array: &[u8], need_delete: bool) -> (r: u32)
        ensures
            r == sat_u32(le_number(maybe_strip33(hex_array@, need_delete), false)),
    {
        let bytes: Vec<u8> = if need_delete {
            Self::frame_delete_33h(hex_array)
        } else {
            slice_to_vec(hex_array)
        };
        match le_number_checked(bytes.as_slice(), false) {
            Some(v) => if v <= u32::MAX as u64 { v as u32 } else { u32::MAX },
            None => u32::MAX,
        }
    }

    /// The big-endian number that the bytes hold, modulo 2^32.
    pub fn cosem_bin2_int32u(bin: &[u8]) -> (r: u32)
        ensures
            r == be_u32(bin@),
    {
        let mut val: u32 = 0;
        let mut i: usize = 0;
        while i < bin.len()
            invariant
                i <= bin.len(),
                val == be_u32(bin@.take(i as int)),
            decreases bin.len() - i,
        {
            val = (val << 8) | (bin[i] as u32);
            i += 1;
            assert(bin@.take(i as int).drop_last() =~= bin@.take(i - 1));
        }
        assert(bin@.take(bin.len() as int) =~= bin@);
        val
    }

    /// Each binary byte as a BCD byte.
    pub fn binary_to_bcd(binary_array: &[u8]) -> (r: Vec<u8>)
        ensures
            r@.len() == binary_array@.len(),
            forall|i: int| 0 <= i < r@.len() ==> #[trigger] r@[i] == bin2bcd(binary_array@[i]),
    {
        let mut out: Vec<u8> = Vec::new();
        let mut i: usize = 0;
        while i < binary_array.len()
            invariant
                i <= binary_array.len(),
                out@.len() == i,
                forall|j: int| 0 <= j < i ==> #[trigger] out@[j] == bin2bcd(binary_array@[j]),
            decreases binary_array.len() - i,
        {
            out.push(Self::binary2bcd(binary_array[i]));
            i += 1;
        }
        out
    }

    /// The two bytes of a 16-bit number, the low one first.
    pub fn int16_to_bcd(int16: u16) -> (r: Vec<u8>)
        ensures
            r@ == seq![(int16 & 0x00ff) as u8, (int16 >> 8) as u8],
    {
        let mut out: Vec<u8> = Vec::new();
        out.push((int16 & 0x00ff) as u8);
        out.push((int16 >> 8) as u8);
        assert(out@ =~= seq![(int16 & 0x00ff) as u8, (int16 >> 8) as u8]);
        out
    }

    /// A binary byte as a BCD byte.
    pub fn binary2bcd(binary: u8) -> (r: u8)
        ensures
            r == bin2bcd(binary),
            binary <= 99 ==> byte_weight(r, true) == binary,
    {
        let tens: u8 = binary / 10;
        let ones: u8 = binary % 10;
        let r: u8 = (tens << 4) | ones;
        assert(tens < 10 ==> ((tens << 4) | ones) / 16 == tens && ((tens << 4) | ones) % 16
            == ones) by (bit_vector)
            requires
                ones < 10,
        ;
        r
    }

    /// The number of leading `0xFE` bytes.
    pub fn get_frame_fe_count(frame: &[u8]) -> (r: usize)
        ensures
            r == fe_count(frame@),
            r <= frame@.len(),
            r < frame@.len() ==> frame@[r as int] != 0xFE,
    {
        let mut i: usize = 0;
        assert(frame@.subrange(0, frame.len() as int) =~= frame@);
        while i < frame.len() && frame[i] == 0xFE
            invariant
                i <= frame.len(),
                fe_count(frame@) == i + fe_count(frame@.subrange(i as int, frame.len() as int)),
            decreases frame.len() - i,
        {
            proof {
                let t = frame@.subrange(i as int, frame.len() as int);
                assert(t.drop_first() =~= frame@.subrange(i + 1, frame.len() as int));
            }
            i += 1;
        }
        proof {
            assert(frame@.subrange(0, frame.len() as int) =~= frame@);
            let t = frame@.subrange(i as int, frame.len() as int);
            if i < frame.len() {
                assert(t[0] == frame@[i as int]);
            }
        }
        i
    }

    /// Whether at most one bit of the byte is set.
    pub fn is_only_one_bit_set(byte: u8) -> (r: bool)
        ensures
            r == (byte & ((byte as int + 255) % 256) as u8 == 0),
    {
        byte & byte.wrapping_sub(1) == 0
    }

    /// The bytes before the first zero byte as text, decoded as UTF-8 with
    /// replacement of what is not valid.
    pub fn ascii_to_str(ascii_array: &[u8]) -> (r: String)
        ensures
            r@ == utf8_lossy(ascii_array@.take(first_nul(ascii_array@) as int)),
    {
        let mut i: usize = 0;
        assert(ascii_array@.subrange(0, ascii_array.len() as int) =~= ascii_array@);
        while i < ascii_array.len() && ascii_array[i] != 0
            invariant
                i <= ascii_array.len(),
                first_nul(ascii_array@) == i + first_nul(
                    ascii_array@.subrange(i as int, ascii_array.len() as int),
                ),
            decreases ascii_array.len() - i,
        {
            proof {
                let t = ascii_array@.subrange(i as int, ascii_array.len() as int);
                assert(t.drop_first() =~= ascii_array@.subrange(i + 1, ascii_array.len() as int));
            }
            i += 1;
        }
        proof {
            let t = ascii_array@.subrange(i as int, ascii_array.len() as int);
            if i < ascii_array.len() {
                assert(t[0] == ascii_array@[i as int]);
            }
        }
        let valid = slice_subrange(ascii_array, 0, i);
        assert(valid@ =~= ascii_array@.take(i as int));
        lossy_text(valid)
    }

    /// The bytes in hexadecimal with a space between them.
    pub fn get_data_str_with_space(data: &[u8]) -> (r: String)
        ensures
            r@ == hex_spaced(data@),
    {
        hex_string_spaced(data)
    }

    /// The bytes in hexadecimal, nothing between them.
    pub fn get_data_str_order(data: &[u8]) -> (r: String)
        ensures
            r@ == hex_concat(data@),
    {
        hex_string(data)
    }

    /// The bytes in hexadecimal, last byte first.
    pub fn get_data_str_reverser(data: &[u8]) -> (r: String)
        ensures
            r@ == hex_concat(data@.reverse()),
    {
        let rev = reversed(data);
        hex_string(rev.as_slice())
    }

    /// The bytes in hexadecimal, last byte first, with a space between them.
    pub fn get_data_str_reverser_with_space(data: &[u8]) -> (r: String)
        ensures
            r@ == hex_spaced(data@.reverse()),
    {
        let rev = reversed(data);
        hex_string_spaced(rev.as_slice())
    }

    /// The bytes with the wire offset taken off, in hexadecimal, last byte first.
    pub fn get_data_str_delete_33h_reverse(data: &[u8]) -> (r: String)
        ensures
            r@ == hex_concat(strip33(data@).reverse()),
    {
        let stripped = Self::frame_delete_33h(data);
        Self::get_data_str_reverser(stripped.as_slice())
    }

    /// The bytes with the wire offset taken off, in hexadecimal, in order.
    pub fn get_data_item_str_delete_33h_order(data: &[u8]) -> (r: String)
        ensures
            r@ == hex_concat(strip33(data@)),
    {
        let stripped = Self::frame_delete_33h(data);
        hex_string(stripped.as_slice())
    }

    /// The bytes in hexadecimal, last byte first, with the wire offset taken off
    /// where asked.
    pub fn get_data_normal_reverser(data: &[u8], need_delete: bool, need_reverse: bool) -> (r: String)
        ensures
            r@ == hex_concat(maybe_strip33(data@, need_delete).reverse()),
    {
        if need_delete {
            Self::get_data_str_delete_33h_reverse(data)
        } else {
            Self::get_data_str_reverser(data)
        }
    }

    /// The bytes in hexadecimal after the chosen transformations.
    pub fn get_data_str(data: &[u8], need_delete: bool, need_reverse: bool, with_space: bool) -> (r:
        String)
        ensures
            r@ == data_str(data@, need_delete, need_reverse, with_space),
    {
        let current: Vec<u8> = if need_delete {
            Self::frame_delete_33h(data)
        } else {
            slice_to_vec(data)
        };
        let ordered: Vec<u8> = if need_reverse {
            reversed(current.as_slice())
        } else {
            current
        };
        if with_space {
            hex_string_spaced(ordered.as_slice())
        } else {
            hex_string(ordered.as_slice())
        }
    }

    /// Appends the four bytes of a data identifier, the lowest first, and returns
    /// their number.
    pub fn item_to_di(item: u32, frame: &mut Vec<u8>) -> (r: usize)
        ensures
            r == 4,
            final(frame)@ == old(frame)@ + seq![
                (item & 0xFF) as u8,
                ((item >> 8) & 0xFF) as u8,
                ((item >> 16) & 0xFF) as u8,
                ((item >> 24) & 0xFF) as u8,
            ],
    {
        frame.push((item & 0xFF) as u8);
        frame.push(((item >> 8) & 0xFF) as u8);
        frame.push(((item >> 16) & 0xFF) as u8);
        frame.push(((item >> 24) & 0xFF) as u8);
        assert(frame@ =~= old(frame)@ + seq![
            (item & 0xFF) as u8,
            ((item >> 8) & 0xFF) as u8,
            ((item >> 16) & 0xFF) as u8,
            ((item >> 24) & 0xFF) as u8,
        ]);
        4
    }
}

/// One bit step of the PPP frame check sequence, polynomial `0x8408`.
pub open spec fn fcs_bit_step(v: u16) -> u16 {
    if v & 1 == 1 { (v >> 1) ^ 0x8408 } else { v >> 1 }
}

/// The frame check sequence after one more byte.
pub open spec fn fcs_byte(fcs: u16, b: u8) -> u16 {
    fcs_bit_step(
        fcs_bit_step(
            fcs_bit_step(
                fcs_bit_step(
                    fcs_bit_step(fcs_bit_step(fcs_bit_step(fcs_bit_step(fcs ^ (b as u16))))),
                ),
            ),
        ),
    )
}

/// The PPP 16-bit frame check sequence of the bytes, started from `fcs`.
pub open spec fn fcs16(fcs: u16, s: Seq<u8>) -> u16
    decreases s.len(),
{
    if s.len() == 0 {
        fcs
    } else {
        fcs_byte(fcs16(fcs, s.drop_last()), s.last())
    }
}

/// The value of a hexadecimal digit.
pub open spec fn hex_val(c: char) -> Option<nat> {
    if '0' <= c <= '9' {
        Some((c as nat - '0' as nat) as nat)
    } else if 'a' <= c <= 'f' {
        Some((c as nat - 'a' as nat + 10) as nat)
    } else if 'A' <= c <= 'F' {
        Some((c as nat - 'A' as nat + 10) as nat)
    } else {
        None
    }
}

/// The byte that a chunk of one or two characters denotes in hexadecimal, read as
/// the standard integer parser reads it: a `+` may stand before a single digit.
pub open spec fn hex_chunk_value(c: Seq<char>) -> Option<u8> {
    if c.len() == 1 {
        match hex_val(c[0]) {
            Some(v) => Some(v as u8),
            None => None,
        }
    } else if c.len() == 2 {
        if c[0] == '+' {
            match hex_val(c[1]) {
                Some(v) => Some(v as u8),
                None => None,
            }
        } else {
            match (hex_val(c[0]), hex_val(c[1])) {
                (Some(h), Some(l)) => Some((h * 16 + l) as u8),
                _ => None,
            }
        }
    } else {
        None
    }
}

/// The chunk of at most two characters that starts at `i`.
pub open spec fn chunk_at(s: Seq<char>, i: int) -> Seq<char> {
    s.subrange(i, if i + 2 <= s.len() { i + 2 } else { s.len() as int })
}

/// The bytes that the two-character chunks from `i` on denote. With `strict`, one
/// chunk that denotes no byte, or a last chunk of one character, makes the whole
/// `None`; without, such chunks are left out, and a last single digit counts.
pub open spec fn parse_chunks(s: Seq<char>, i: int, strict: bool) -> Option<Seq<u8>>
    decreases s.len() + 2 - i,
{
    if i < 0 || i >= s.len() {
        Some(Seq::empty())
    } else {
        let c = chunk_at(s, i);
        let v = if strict && c.len() != 2 { None } else { hex_chunk_value(c) };
        match parse_chunks(s, i + 2, strict) {
            None => None,
            Some(rest) => match v {
                Some(b) => Some(seq![b] + rest),
                None => if strict { None } else { Some(rest) },
            },
        }
    }
}

/// The bytes that a text of hexadecimal digit pairs denotes, spaces and line feeds
/// ignored; `None` where a pair denotes no byte or a digit is left over.
pub open spec fn hex_frame(text: Seq<char>) -> Option<Seq<u8>> {
    parse_chunks(remove_blanks(text), 0, true)
}

/// The bytes of those two-character chunks of a text that denote one, spaces and
/// line feeds ignored.
pub open spec fn hex_frame_lenient(text: Seq<char>) -> Seq<u8> {
    parse_chunks(remove_blanks(text), 0, false).unwrap()
}

/// A hexadecimal digit denotes its value, and is neither a blank nor a sign.
pub proof fn lemma_hex_digit(n: int)
    requires
        0 <= n < 16,
    ensures
        hex_val(hex_char_upper(n)) == Some(n as nat),
        hex_char_upper(n) != ' ',
        hex_char_upper(n) != '\n',
        hex_char_upper(n) != '+',
{
}

/// The two hexadecimal digits of a byte denote the byte.
pub proof fn lemma_hex_byte(b: u8)
    ensures
        hex_chunk_value(hex_upper(b)) == Some(b),
{
    lemma_hex_digit(b as int / 16);
    lemma_hex_digit(b as int % 16);
    assert((b as int / 16) * 16 + b as int % 16 == b as int);
}

/// A text without its blanks is its parts without theirs.
pub proof fn lemma_remove_blanks_concat(a: Seq<char>, b: Seq<char>)
    ensures
        remove_blanks(a + b) == remove_blanks(a) + remove_blanks(b),
    decreases b.len(),
{
    if b.len() == 0 {
        assert(a + b =~= a);
        assert(remove_blanks(a) + remove_blanks(b) =~= remove_blanks(a));
    } else {
        lemma_remove_blanks_concat(a, b.drop_last());
        assert((a + b).drop_last() =~= a + b.drop_last());
        assert((a + b).last() == b.last());
        if b.last() == ' ' || b.last() == '\n' {
        } else {
            assert((remove_blanks(a) + remove_blanks(b.drop_last())).push(b.last()) =~= remove_blanks(a)
                + remove_blanks(b.drop_last()).push(b.last()));
        }
    }
}

/// The digits of a byte hold no blanks.
pub proof fn lemma_hex_upper_has_no_blanks(b: u8)
    ensures
        remove_blanks(hex_upper(b)) == hex_upper(b),
{
    lemma_hex_digit(b as int / 16);
    lemma_hex_digit(b as int % 16);
    let d = hex_upper(b);
    assert(d.drop_last() =~= seq![d[0]]);
    assert(d.drop_last().drop_last() =~= Seq::<char>::empty());
    assert(remove_blanks(d.drop_last().drop_last()) =~= Seq::<char>::empty());
    assert(remove_blanks(d.drop_last()) =~= seq![d[0]]);
    assert(remove_blanks(d) =~= d);
}

/// Bytes rendered with spaces between them are, without the spaces, the bytes
/// rendered with nothing between them.
pub proof fn lemma_spaced_without_blanks(s: Seq<u8>)
    ensures
        remove_blanks(hex_spaced(s)) == hex_concat(s),
    decreases s.len(),
{
    if s.len() == 0 {
    } else if s.len() == 1 {
        lemma_hex_upper_has_no_blanks(s[0]);
        assert(s.drop_last() =~= Seq::<u8>::empty());
        assert(hex_concat(s.drop_last()) =~= Seq::<char>::empty());
        assert(hex_concat(s) =~= hex_upper(s[0]));
    } else {
        let before = hex_spaced(s.drop_last());
        lemma_spaced_without_blanks(s.drop_last());
        lemma_hex_upper_has_no_blanks(s.last());
        lemma_remove_blanks_concat(before.push(' '), hex_upper(s.last()));
        assert(before.push(' ').drop_last() =~= before);
    }
}

/// The rendering of bytes has two digits for each byte, those of the byte.
pub proof fn lemma_hex_concat_at(s: Seq<u8>, k: int)
    requires
        0 <= k < s.len(),
    ensures
        hex_concat(s).len() == 2 * s.len(),
        hex_concat(s).subrange(2 * k, 2 * k + 2) == hex_upper(s[k]),
    decreases s.len(),
{
    lemma_hex_concat_len(s);
    lemma_hex_concat_len(s.drop_last());
    if k == s.len() - 1 {
        assert(hex_concat(s).subrange(2 * k, 2 * k + 2) =~= hex_upper(s[k]));
    } else {
        lemma_hex_concat_at(s.drop_last(), k);
        assert(hex_concat(s).subrange(2 * k, 2 * k + 2) =~= hex_concat(s.drop_last()).subrange(
            2 * k,
            2 * k + 2,
        ));
    }
}

/// The rendering of bytes has two digits for each byte.
pub proof fn lemma_hex_concat_len(s: Seq<u8>)
    ensures
        hex_concat(s).len() == 2 * s.len(),
    decreases s.len(),
{
    if s.len() > 0 {
        lemma_hex_concat_len(s.drop_last());
    }
}

/// Reading the rendering of bytes from byte `k` on gives the bytes from `k` on.
pub proof fn lemma_parse_rendered(s: Seq<u8>, k: int)
    requires
        0 <= k <= s.len(),
    ensures
        parse_chunks(hex_concat(s), 2 * k, true) == Some(s.skip(k)),
    decreases s.len() - k,
{
    lemma_hex_concat_len(s);
    if k == s.len() {
        assert(s.skip(k) =~= Seq::<u8>::empty());
    } else {
        lemma_hex_concat_at(s, k);
        lemma_hex_byte(s[k]);
        lemma_parse_rendered(s, k + 1);
        assert(chunk_at(hex_concat(s), 2 * k) == hex_upper(s[k]));
        assert(seq![s[k]] + s.skip(k + 1) =~= s.skip(k));
    }
}

/// Bytes rendered in hexadecimal with spaces between them are read back as they
/// were.
pub proof fn lemma_hex_frame_roundtrip(s: Seq<u8>)
    ensures
        hex_frame(hex_spaced(s)) == Some(s),
{
    lemma_spaced_without_blanks(s);
    lemma_parse_rendered(s, 0);
    assert(s.skip(0) =~= s);
}

/// The chunks from `i` on, each followed by a space.
pub open spec fn spaced_chunks(s: Seq<char>, i: int) -> Seq<char>
    decreases s.len() + 2 - i,
{
    if i < 0 || i >= s.len() {
        Seq::empty()
    } else {
        chunk_at(s, i).push(' ') + spaced_chunks(s, i + 2)
    }
}

/// The chunks from `i` on in upper case, a space between them.
pub open spec fn joined_chunks(s: Seq<char>, i: int) -> Seq<char>
    decreases s.len() + 2 - i,
{
    if i < 0 || i >= s.len() {
        Seq::empty()
    } else if i + 2 >= s.len() {
        uppercase_of(chunk_at(s, i))
    } else {
        uppercase_of(chunk_at(s, i)).push(' ') + joined_chunks(s, i + 2)
    }
}

/// The first `n` chunks in upper case, the last of them first, a space between them.
pub open spec fn joined_chunks_rev(s: Seq<char>, n: int) -> Seq<char>
    decreases n,
{
    if n <= 0 {
        Seq::empty()
    } else if n == 1 {
        uppercase_of(chunk_at(s, 0))
    } else {
        uppercase_of(chunk_at(s, 2 * (n - 1))).push(' ') + joined_chunks_rev(s, n - 1)
    }
}

/// The binary digits of bits `start` to `end` of a number, the highest first.
pub open spec fn bits_text(value: u32, start: int, end: int) -> Seq<char> {
    if 0 <= start <= end < 32 {
        Seq::new(
            (end - start + 1) as nat,
            |i: int| if (value >> ((end - i) as u32)) & 1 == 1 { '1' } else { '0' },
        )
    } else {
        Seq::empty()
    }
}

/// The value of a hexadecimal digit.
pub fn hex_digit_value(c: char) -> (r: Option<u8>)
    ensures
        r is Some == hex_val(c) is Some,
        r is Some ==> r.unwrap() as nat == hex_val(c).unwrap() && r.unwrap() < 16,
{
    if '0' <= c && c <= '9' {
        Some((c as u32 - '0' as u32) as u8)
    } else if 'a' <= c && c <= 'f' {
        Some((c as u32 - 'a' as u32 + 10) as u8)
    } else if 'A' <= c && c <= 'F' {
        Some((c as u32 - 'A' as u32 + 10) as u8)
    } else {
        None
    }
}

/// The byte that the chunk at `i` denotes.
pub fn chunk_value(s: &Vec<char>, i: usize) -> (r: Option<u8>)
    requires
        i < s.len(),
    ensures
        r == hex_chunk_value(chunk_at(s@, i as int)),
{
    if s.len() - i == 1 {
        assert(chunk_at(s@, i as int) =~= seq![s@[i as int]]);
        hex_digit_value(s[i])
    } else {
        assert(chunk_at(s@, i as int) =~= seq![s@[i as int], s@[i + 1]]);
        if s[i] == '+' {
            hex_digit_value(s[i + 1])
        } else {
            match (hex_digit_value(s[i]), hex_digit_value(s[i + 1])) {
                (Some(h), Some(l)) => Some(h * 16 + l),
                _ => None,
            }
        }
    }
}

/// The bytes that the chunks of `s` denote, by the rule of `parse_chunks`.
pub fn parse_hex_chunks(s: &Vec<char>, strict: bool) -> (r: Option<Vec<u8>>)
    ensures
        r is Some == parse_chunks(s@, 0, strict) is Some,
        r is Some ==> r.unwrap()@ == parse_chunks(s@, 0, strict).unwrap(),
{
    let mut out: Vec<u8> = Vec::new();
    let mut i: usize = 0;
    while i < s.len()
        invariant
            parse_chunks(s@, 0, strict) == (match parse_chunks(s@, i as int, strict) {
                Some(rest) => Some(out@ + rest),
                None => None,
            }),
        decreases s.len() - i,
    {
        let n: usize = if s.len() - i >= 2 { 2 } else { 1 };
        let v = chunk_value(s, i);
        let v = if strict && n != 2 { None } else { v };
        let ghost before = out@;
        match v {
            Some(b) => {
                out.push(b);
            },
            None => {
                if strict {
                    return None;
                }
            },
        }
        proof {
            match parse_chunks(s@, i + 2, strict) {
                Some(rest) => {
                    match v {
                        Some(b) => {
                            assert(before + (seq![b] + rest) =~= out@ + rest);
                        },
                        None => {},
                    }
                },
                None => {},
            }
        }
        if n == 2 {
            i += 2;
        } else {
            i += 1;
            assert(parse_chunks(s@, i as int, strict) == parse_chunks(s@, i + 1, strict));
        }
    }
    assert(out@ + Seq::<u8>::empty() =~= out@);
    Some(out)
}

impl FrameFun {
    /// The PPP 16-bit frame check sequence of the bytes, started from `fcs`.
    pub fn ppp_fcs16(fcs: u16, data: &[u8]) -> (r: u16)
        ensures
            r == fcs16(fcs, data@),
    {
        let mut fcs: u16 = fcs;
        let ghost start = fcs;
        let mut i: usize = 0;
        while i < data.len()
            invariant
                i <= data.len(),
                fcs == fcs16(start, data@.take(i as int)),
            decreases data.len() - i,
        {
            let mut v: u16 = fcs ^ (data[i] as u16);
            v = if v & 1 == 1 { (v >> 1) ^ 0x8408 } else { v >> 1 };
            v = if v & 1 == 1 { (v >> 1) ^ 0x8408 } else { v >> 1 };
            v = if v & 1 == 1 { (v >> 1) ^ 0x8408 } else { v >> 1 };
            v = if v & 1 == 1 { (v >> 1) ^ 0x8408 } else { v >> 1 };
            v = if v & 1 == 1 { (v >> 1) ^ 0x8408 } else { v >> 1 };
            v = if v & 1 == 1 { (v >> 1) ^ 0x8408 } else { v >> 1 };
            v = if v & 1 == 1 { (v >> 1) ^ 0x8408 } else { v >> 1 };
            v = if v & 1 == 1 { (v >> 1) ^ 0x8408 } else { v >> 1 };
            fcs = v;
            i += 1;
            assert(data@.take(i as int).drop_last() =~= data@.take(i - 1));
        }
        assert(data@.take(data.len() as int) =~= data@);
        fcs
    }

    /// The bytes that a text of hexadecimal digit pairs denotes.
    pub fn get_hex_frame(text: &str) -> (r: Option<Vec<u8>>)
        ensures
            r is Some == hex_frame(text@) is Some,
            r is Some ==> r.unwrap()@ == hex_frame(text@).unwrap(),
    {
        let cleaned = strip_blanks(text);
        parse_hex_chunks(&cleaned, true)
    }

    /// The bytes that a text of hexadecimal digit pairs denotes, for a text that
    /// denotes some.
    pub fn get_frame_list_from_str(input_text: &str) -> (r: Vec<u8>)
        requires
            hex_frame(input_text@) is Some,
        ensures
            r@ == hex_frame(input_text@).unwrap(),
    {
        match Self::get_hex_frame(input_text) {
            Some(v) => v,
            None => Vec::new(),
        }
    }

    /// Appends the bytes of those digit pairs of a text that denote one, and returns
    /// half the number of characters that are no space or line feed.
    pub fn prase_text_to_frame(text: &str, frame: &mut Vec<u8>) -> (r: usize)
        ensures
            final(frame)@ == old(frame)@ + hex_frame_lenient(text@),
            r == remove_blanks(text@).len() / 2,
    {
        let cleaned = strip_blanks(text);
        let parsed = parse_hex_chunks(&cleaned, false);
        proof {
            lemma_parse_lenient_is_some(cleaned@, 0);
        }
        match parsed {
            Some(v) => {
                let mut i: usize = 0;
                while i < v.len()
                    invariant
                        i <= v.len(),
                        frame@ == old(frame)@ + v@.take(i as int),
                    decreases v.len() - i,
                {
                    frame.push(v[i]);
                    i += 1;
                    assert(frame@ =~= old(frame)@ + v@.take(i as int));
                }
                assert(v@.take(v.len() as int) =~= v@);
            },
            None => {},
        }
        cleaned.len() / 2
    }

    /// The digit pairs of a text, each followed by a space, in upper case.
    pub fn get_format_str(input_text: &str) -> (r: String)
        ensures
            r@ == uppercase_of(spaced_chunks(remove_blanks(input_text@), 0)),
    {
        let hex = strip_blanks(input_text);
        let mut out = String::new();
        let mut i: usize = 0;
        while i < hex.len()
            invariant
                out@ + spaced_chunks(hex@, i as int) == spaced_chunks(hex@, 0),
            decreases hex.len() - i,
        {
            let ghost before = out@;
            let n: usize = if hex.len() - i >= 2 { 2 } else { 1 };
            push_char(&mut out, hex[i]);
            if n == 2 {
                push_char(&mut out, hex[i + 1]);
            }
            push_char(&mut out, ' ');
            proof {
                assert(out@ =~= before + chunk_at(hex@, i as int).push(' '));
                assert(before + (chunk_at(hex@, i as int).push(' ') + spaced_chunks(hex@, i + 2))
                    =~= out@ + spaced_chunks(hex@, i + 2));
            }
            if n == 2 {
                i += 2;
            } else {
                i += 1;
                assert(spaced_chunks(hex@, i as int) == spaced_chunks(hex@, i + 1));
            }
        }
        assert(out@ + Seq::<char>::empty() =~= out@);
        upper(out.as_str())
    }

    /// The two-character chunks of a text in upper case, in order, a space between
    /// them.
    pub fn str_order_with_space(s: &str) -> (r: String)
        ensures
            r@ == joined_chunks(s@, 0),
    {
        let v = to_chars(s);
        let mut out = String::new();
        let mut i: usize = 0;
        while i < v.len()
            invariant
                v@ == s@,
                out@ + joined_chunks(v@, i as int) == joined_chunks(v@, 0),
            decreases v.len() - i,
        {
            let ghost before = out@;
            let n: usize = if v.len() - i >= 2 { 2 } else { 1 };
            let chunk = chars_to_string(&v, i, i + n);
            let up = upper(chunk.as_str());
            push_str(&mut out, up.as_str());
            assert(chunk@ =~= chunk_at(v@, i as int));
            if v.len() - i > 2 {
                push_char(&mut out, ' ');
                assert(before + (uppercase_of(chunk_at(v@, i as int)).push(' ') + joined_chunks(
                    v@,
                    i + 2,
                )) =~= out@ + joined_chunks(v@, i + 2));
                i += 2;
            } else {
                assert(out@ + Seq::<char>::empty() =~= out@);
                i = v.len();
            }
        }
        assert(out@ + Seq::<char>::empty() =~= out@);
        out
    }

    /// The two-character chunks of a text in upper case, the last first, a space
    /// between them.
    pub fn str_reverse_with_space(s: &str) -> (r: String)
        ensures
            r@ == joined_chunks_rev(s@, (s@.len() + 1) as int / 2),
    {
        let v = to_chars(s);
        let mut out = String::new();
        let total: usize = v.len() / 2 + v.len() % 2;
        let mut n: usize = total;
        while n > 0
            invariant
                v@ == s@,
                n <= total,
                total == (v.len() + 1) / 2,
                out@ + joined_chunks_rev(v@, n as int) == joined_chunks_rev(v@, total as int),
            decreases n,
        {
            let ghost before = out@;
            let from: usize = 2 * (n - 1);
            let to: usize = if v.len() - from >= 2 { from + 2 } else { v.len() };
            let chunk = chars_to_string(&v, from, to);
            assert(chunk@ =~= chunk_at(v@, from as int));
            let up = upper(chunk.as_str());
            push_str(&mut out, up.as_str());
            if n > 1 {
                push_char(&mut out, ' ');
                assert(before + (uppercase_of(chunk_at(v@, from as int)).push(' ')
                    + joined_chunks_rev(v@, n - 1)) =~= out@ + joined_chunks_rev(v@, n - 1));
            } else {
                assert(out@ + Seq::<char>::empty() =~= out@);
            }
            n -= 1;
        }
        assert(out@ + Seq::<char>::empty() =~= out@);
        out
    }

    /// The binary digits of bits `start_bit` to `end_bit` of a number, the highest
    /// first; the empty text where the bits do not name a range below 32.
    pub fn extract_bits(start_bit: usize, end_bit: usize, value: u32) -> (r: String)
        ensures
            r@ == bits_text(value, start_bit as int, end_bit as int),
    {
        let mut out = String::new();
        if start_bit > end_bit || end_bit >= 32 {
            return out;
        }
        let width: usize = end_bit - start_bit + 1;
        let mut i: usize = 0;
        while i < width
            invariant
                start_bit <= end_bit < 32,
                width == end_bit - start_bit + 1,
                i <= width,
                out@ == bits_text(value, start_bit as int, end_bit as int).take(i as int),
            decreases width - i,
        {
            let shift: u32 = (end_bit - i) as u32;
            let c: char = if (value >> shift) & 1 == 1 { '1' } else { '0' };
            push_char(&mut out, c);
            i += 1;
            assert(out@ =~= bits_text(value, start_bit as int, end_bit as int).take(i as int));
        }
        assert(bits_text(value, start_bit as int, end_bit as int).take(width as int)
            =~= bits_text(value, start_bit as int, end_bit as int));
        out
    }
}

/// Without `strict`, the chunks always denote some bytes.
pub proof fn lemma_parse_lenient_is_some(s: Seq<char>, i: int)
    ensures
        parse_chunks(s, i, false) is Some,
    decreases s.len() + 2 - i,
{
    if 0 <= i < s.len() {
        lemma_parse_lenient_is_some(s, i + 2);
    }
}

/// The text of a freeze time of four BCD bytes, where `0x99` stands for "every".
pub open spec fn freeze_text(s: Seq<u8>) -> Seq<char> {
    if s.len() == 4 && s[0] == 0x99 {
        if s[1] == 0x99 {
            if s[2] == 0x99 {
                if s[3] == 0x99 {
                    "瞬时冻结"@
                } else {
                    "每时"@ + hex_upper(s[3]) + "分"@
                }
            } else {
                "每日"@ + hex_upper(s[2]) + "时"@ + hex_upper(s[3]) + "分"@
            }
        } else {
            "每月"@ + hex_upper(s[1]) + "日"@ + hex_upper(s[2]) + "时"@ + hex_upper(s[3]) + "分"@
        }
    } else {
        "未知冻结类型"@
    }
}

/// The measurement points that the lowest `k` bits of `da1` name within group `da2`.
pub open spec fn points_upto(da1: u8, da2: u8, k: int) -> Seq<u16>
    decreases k,
{
    if k <= 0 {
        Seq::empty()
    } else {
        let r = points_upto(da1, da2, k - 1);
        if (da1 >> ((k - 1) as u8)) & 1 == 1 {
            r.push(((da2 - 1) * 8 + k) as u16)
        } else {
            r
        }
    }
}

/// The measurement points that the two bytes of a point bitmap name: `FFFF` for
/// all points, `0` for the terminal, else one point for each set bit of the first
/// byte within the group that the second byte gives. A bitmap of fewer than two
/// bytes, or one with bits set in group zero, names none.
pub open spec fn measurement_points(da: Seq<u8>) -> Seq<u16> {
    if da.len() < 2 {
        Seq::empty()
    } else if da[0] == 0xFF && da[1] == 0xFF {
        seq![0xFFFFu16]
    } else if da[0] == 0 && da[1] == 0 {
        seq![0u16]
    } else if da[1] == 0 {
        Seq::empty()
    } else {
        points_upto(da[0], da[1], 8)
    }
}

/// The decimal numerals of the points, `, ` between them.
pub open spec fn join_dec(pts: Seq<u16>) -> Seq<char>
    decreases pts.len(),
{
    if pts.len() == 0 {
        Seq::empty()
    } else if pts.len() == 1 {
        dec_string(pts[0] as nat)
    } else {
        join_dec(pts.drop_last()) + ", "@ + dec_string(pts.last() as nat)
    }
}

/// The text for a point bitmap, built from the three wordings that differ between
/// the protocols.
pub open spec fn da_text(
    da: Seq<u8>,
    terminal: Seq<char>,
    all: Seq<char>,
    prefix: Seq<char>,
    suffix: Seq<char>,
) -> Seq<char> {
    let pts = measurement_points(da);
    if pts.len() == 0 {
        "Pn解析失败"@
    } else if pts.len() == 1 && pts[0] == 0 {
        terminal
    } else if pts.len() == 1 && pts[0] == 0xFFFF {
        all
    } else {
        prefix + join_dec(pts) + suffix
    }
}

/// The name of a weekday, zero being Sunday.
pub open spec fn weekday_text(v: u8) -> Seq<char> {
    if v == 0 {
        "天"@
    } else if v == 1 {
        "一"@
    } else if v == 2 {
        "二"@
    } else if v == 3 {
        "三"@
    } else if v == 4 {
        "四"@
    } else if v == 5 {
        "五"@
    } else if v == 6 {
        "六"@
    } else {
        "未知"@
    }
}

/// What one token of a time format contributes: the byte that stands where the
/// token stands in the format, two format characters for each byte, in hexadecimal
/// and followed by the token's label. `kind` 1 is the weekday, rendered by name;
/// `kind` 2 is the millisecond, which takes two bytes.
pub open spec fn time_token_text(
    data: Seq<u8>,
    fmt: Seq<char>,
    token: Seq<char>,
    suffix: Seq<char>,
    kind: int,
) -> Seq<char> {
    match find_spec(fmt, token) {
        None => Seq::empty(),
        Some(idx) => {
            let ai = idx / 2;
            if kind == 2 {
                if ai + 1 < data.len() {
                    hex_upper(data[ai]) + hex_upper(data[ai + 1]) + suffix
                } else {
                    Seq::empty()
                }
            } else if ai < data.len() {
                if kind == 1 {
                    weekday_text(data[ai])
                } else {
                    hex_upper(data[ai]) + suffix
                }
            } else {
                Seq::empty()
            }
        },
    }
}

/// The text of a time held in BCD bytes, by a format of two-character tokens: the
/// tokens are rendered in the order century, year, month, day, weekday, hour,
/// minute, second, millisecond, wherever they stand in the format.
pub open spec fn time_text(data: Seq<u8>, fmt: Seq<char>, need_delete: bool) -> Seq<char> {
    let d = maybe_strip33(data, need_delete);
    time_token_text(d, fmt, "CC"@, ""@, 0) + time_token_text(d, fmt, "YY"@, "年"@, 0)
        + time_token_text(d, fmt, "MM"@, "月"@, 0) + time_token_text(d, fmt, "DD"@, "日"@, 0)
        + time_token_text(d, fmt, "WW"@, ""@, 1) + time_token_text(d, fmt, "hh"@, "时"@, 0)
        + time_token_text(d, fmt, "mm"@, "分"@, 0) + time_token_text(d, fmt, "ss"@, "秒"@, 0)
        + time_token_text(d, fmt, "xxxx"@, "毫秒"@, 2)
}

/// Appends the decimal numerals of the points, `, ` between them.
pub fn push_join_dec(out: &mut String, pts: &Vec<u16>)
    ensures
        final(out)@ == old(out)@ + join_dec(pts@),
{
    let mut i: usize = 0;
    while i < pts.len()
        invariant
            i <= pts.len(),
            out@ == old(out)@ + join_dec(pts@.take(i as int)),
        decreases pts.len() - i,
    {
        let ghost before = out@;
        if i > 0 {
            push_str(out, ", ");
        }
        push_dec(out, pts[i] as u64);
        i += 1;
        proof {
            assert(pts@.take(i as int).drop_last() =~= pts@.take(i - 1));
            assert(out@ =~= old(out)@ + join_dec(pts@.take(i as int)));
        }
    }
    assert(pts@.take(pts.len() as int) =~= pts@);
}

/// The text for a point bitmap with the given wordings.
pub fn da_to_text(da: &[u8], terminal: &str, all: &str, prefix: &str, suffix: &str) -> (r: String)
    ensures
        r@ == da_text(da@, terminal@, all@, prefix@, suffix@),
{
    let (total, pts) = FrameFun::calculate_measurement_points(da);
    if total == 0 {
        return "Pn解析失败".to_owned();
    }
    if total == 1 && pts[0] == 0 {
        terminal.to_owned()
    } else if total == 1 && pts[0] == 0xFFFF {
        all.to_owned()
    } else {
        let mut out = String::new();
        push_str(&mut out, prefix);
        push_join_dec(&mut out, &pts);
        push_str(&mut out, suffix);
        assert(out@ =~= prefix@ + join_dec(pts@) + suffix@);
        out
    }
}

/// Appends the name of a weekday.
pub fn push_weekday(out: &mut String, v: u8)
    ensures
        final(out)@ == old(out)@ + weekday_text(v),
{
    if v == 0 {
        push_str(out, "天");
    } else if v == 1 {
        push_str(out, "一");
    } else if v == 2 {
        push_str(out, "二");
    } else if v == 3 {
        push_str(out, "三");
    } else if v == 4 {
        push_str(out, "四");
    } else if v == 5 {
        push_str(out, "五");
    } else if v == 6 {
        push_str(out, "六");
    } else {
        push_str(out, "未知");
    }
}

/// Appends what one token of a time format contributes.
pub fn push_time_token(
    out: &mut String,
    data: &Vec<u8>,
    fmt: &Vec<char>,
    token: &str,
    suffix: &str,
    kind: u8,
)
    ensures
        final(out)@ == old(out)@ + time_token_text(data@, fmt@, token@, suffix@, kind as int),
{
    let tok = to_chars(token);
    match find_chars(fmt, &tok) {
        None => {
            assert(out@ + Seq::<char>::empty() =~= out@);
        },
        Some(idx) => {
            let ai: usize = idx / 2;
            if kind == 2 {
                if ai < data.len() && data.len() - ai > 1 {
                    push_hex_upper(out, data[ai]);
                    push_hex_upper(out, data[ai + 1]);
                    push_str(out, suffix);
                    assert(out@ =~= old(out)@ + (hex_upper(data@[ai as int]) + hex_upper(
                        data@[ai + 1],
                    ) + suffix@));
                } else {
                    assert(out@ + Seq::<char>::empty() =~= out@);
                }
            } else if ai < data.len() {
                if kind == 1 {
                    push_weekday(out, data[ai]);
                } else {
                    push_hex_upper(out, data[ai]);
                    push_str(out, suffix);
                    assert(out@ =~= old(out)@ + (hex_upper(data@[ai as int]) + suffix@));
                }
            } else {
                assert(out@ + Seq::<char>::empty() =~= out@);
            }
        },
    }
}

impl FrameFun {
    /// The text of a freeze time.
    pub fn parse_freeze_time(data_array: &[u8]) -> (r: String)
        ensures
            r@ == freeze_text(data_array@),
    {
        let mut out = String::new();
        if data_array.len() == 4 && data_array[0] == 0x99 {
            if data_array[1] == 0x99 {
                if data_array[2] == 0x99 {
                    if data_array[3] == 0x99 {
                        return "瞬时冻结".to_owned();
                    }
                    push_str(&mut out, "每时");
                    push_hex_upper(&mut out, data_array[3]);
                    push_str(&mut out, "分");
                } else {
                    push_str(&mut out, "每日");
                    push_hex_upper(&mut out, data_array[2]);
                    push_str(&mut out, "时");
                    push_hex_upper(&mut out, data_array[3]);
                    push_str(&mut out, "分");
                }
            } else {
                push_str(&mut out, "每月");
                push_hex_upper(&mut out, data_array[1]);
                push_str(&mut out, "日");
                push_hex_upper(&mut out, data_array[2]);
                push_str(&mut out, "时");
                push_hex_upper(&mut out, data_array[3]);
                push_str(&mut out, "分");
            }
            assert(out@ =~= freeze_text(data_array@));
            out
        } else {
            "未知冻结类型".to_owned()
        }
    }

    /// The measurement points that a point bitmap names, and their number.
    pub fn calculate_measurement_points(da: &[u8]) -> (r: (usize, Vec<u16>))
        ensures
            r.1@ == measurement_points(da@),
            r.0 == r.1@.len(),
    {
        let mut pts: Vec<u16> = Vec::new();
        if da.len() < 2 {
            return (0, pts);
        }
        let da1: u8 = da[0];
        let da2: u8 = da[1];
        if da1 == 0xFF && da2 == 0xFF {
            pts.push(0xFFFF);
            assert(pts@ =~= seq![0xFFFFu16]);
            return (1, pts);
        }
        if da1 == 0 && da2 == 0 {
            pts.push(0);
            assert(pts@ =~= seq![0u16]);
            return (1, pts);
        }
        if da2 == 0 {
            return (0, pts);
        }
        let start: u16 = (da2 as u16 - 1) * 8;
        let mut k: u8 = 0;
        while k < 8
            invariant
                k <= 8,
                da2 > 0,
                start == (da2 - 1) * 8,
                pts@ == points_upto(da1, da2, k as int),
                pts@.len() <= k,
            decreases 8 - k,
        {
            if (da1 >> k) & 1 == 1 {
                pts.push(start + k as u16 + 1);
            }
            k += 1;
        }
        (pts.len(), pts)
    }

    /// The text for a point bitmap.
    pub fn parse_da_data(da: &[u8]) -> (r: String)
        ensures
            r@ == da_text(
                da@,
                "Pn=测量点：0(终端)"@,
                "Pn=测量点：FFFF(除了终端信息点以外的所有测量点)"@,
                "Pn=第"@,
                "测量点"@,
            ),
    {
        da_to_text(
            da,
            "Pn=测量点：0(终端)",
            "Pn=测量点：FFFF(除了终端信息点以外的所有测量点)",
            "Pn=第",
            "测量点",
        )
    }

    /// The text of a time held in BCD bytes, by a format of two-character tokens.
    pub fn parse_time_data(data_array: &[u8], format_str: &str, need_delete: bool) -> (r: String)
        ensures
            r@ == time_text(data_array@, format_str@, need_delete),
    {
        let data: Vec<u8> = if need_delete {
            Self::frame_delete_33h(data_array)
        } else {
            slice_to_vec(data_array)
        };
        let fmt = to_chars(format_str);
        let mut out = String::new();
        push_time_token(&mut out, &data, &fmt, "CC", "", 0);
        push_time_token(&mut out, &data, &fmt, "YY", "年", 0);
        push_time_token(&mut out, &data, &fmt, "MM", "月", 0);
        push_time_token(&mut out, &data, &fmt, "DD", "日", 0);
        push_time_token(&mut out, &data, &fmt, "WW", "", 1);
        push_time_token(&mut out, &data, &fmt, "hh", "时", 0);
        push_time_token(&mut out, &data, &fmt, "mm", "分", 0);
        push_time_token(&mut out, &data, &fmt, "ss", "秒", 0);
        push_time_token(&mut out, &data, &fmt, "xxxx", "毫秒", 2);
        assert(out@ =~= time_text(data_array@, format_str@, need_delete));
        out
    }

    /// The fields of a list whose label is `target_item`, in order; `None` where
    /// there is none.
    pub fn find_frame_in_data_list(data_list: &Vec<DecodedField>, target_item: &str) -> (r: Option<
        Vec<DecodedField>,
    >)
        ensures
            r is Some == (labelled(fields_view(data_list@), target_item@).len() > 0),
            r is Some ==> fields_view(r.unwrap()@) == labelled(
                fields_view(data_list@),
                target_item@,
            ),
    {
        let mut out: Vec<DecodedField> = Vec::new();
        let mut i: usize = 0;
        while i < data_list.len()
            invariant
                i <= data_list.len(),
                fields_view(out@) == labelled(
                    fields_view(data_list@).take(i as int),
                    target_item@,
                ),
            decreases data_list.len() - i,
        {
            let ghost before = fields_view(out@);
            let hit = str_eq(data_list[i].frame_domain.as_str(), target_item);
            if hit {
                out.push(data_list[i].duplicate());
            }
            proof {
                let next = fields_view(data_list@).take(i + 1);
                assert(next.drop_last() =~= fields_view(data_list@).take(i as int));
                assert(next.last() == field_view(data_list@[i as int]));
                if hit {
                    assert(fields_view(out@) =~= before.push(field_view(data_list@[i as int])));
                } else {
                    assert(fields_view(out@) =~= before);
                }
            }
            i += 1;
        }
        assert(fields_view(data_list@).take(data_list.len() as int) =~= fields_view(data_list@));
        if out.len() == 0 {
            None
        } else {
            Some(out)
        }
    }
}

/// The fields of a list whose label is `target`, in order.
pub open spec fn labelled(l: Seq<FieldView>, target: Seq<char>) -> Seq<FieldView>
    decreases l.len(),
{
    if l.len() == 0 {
        Seq::empty()
    } else if l.last().frame_domain == target {
        labelled(l.drop_last(), target).push(l.last())
    } else {
        labelled(l.drop_last(), target)
    }
}

/// Bytes that are all `0xFF` decode to the invalid-data marker, as a BCD number and
/// as a binary number that is asked to tell, whatever the decimal places, the sign
/// and the wire offset.
pub proof fn lemma_all_ff_is_invalid(s: Seq<u8>, dp: nat, need_delete: bool, sign: bool)
    requires
        all_equal(s, 0xFF),
    ensures
        bcd_text(s, dp, need_delete, sign) == invalid_marker(),
        bin_text(s, dp, need_delete, sign, true) == invalid_marker(),
{
}

} // verus!
