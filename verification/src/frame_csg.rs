//! The frame of the CSG protocol: its positions, its construction, its recognition,
//! and the length and time heuristics of its data units.

use vstd::prelude::*;
use vstd::string::*;
use vstd::slice::*;
use crate::decoded::{DecodedField, field_view, fields_view, FieldView};
use crate::frame_fun::{
    all_equal, byte_weight, checksum, da_text, FrameFun, hex_frame_lenient, sum_bytes, time_text,
};
use crate::protocol::{
    all_literal, context_view, ContextEntry, DECODE_DEPTH, FrameAnalisyic, is_unknown,
    is_unknown_text, lemma_literal_end_is_sum, literal_sum,
    item_length, item_length_of, leaf, leaf_field, lookup_item, min_of, number_or_zero,
    number_or_zero_of,
    Query, query_of, regex_is_match, regex_matches, rule_length, rule_length_of, single_item_parts,
    text_or, valid_pattern,
};
use crate::text::{
    dec_string, dec_to_string, hex_concat, hex_spaced, hex_upper, parse_usize, parse_usize_spec,
    push_dec, push_hex_upper, push_str, str_eq,
};
use crate::xmlconfig::{
    elements_view, ElementView, opt_element_view, ProtocolConfigManager, XmlElement,
};

verus! {

/// The fixed positions of a CSG frame.
#[derive(Debug)]
pub enum FramePos {
    PosStart0,
    PosDatalen,
    PosStart1,
    PosCtrl,
    PosRtua,
    PosUid,
    PosMsa,
    PosAfn,
    PosSeq,
    PosData,
    PosItem,
    PosItemData,
}

impl FramePos {
    /// The byte offset of the position within the frame.
    pub open spec fn offset_spec(&self) -> nat {
        match self {
            FramePos::PosStart0 => 0,
            FramePos::PosDatalen => 1,
            FramePos::PosStart1 => 5,
            FramePos::PosCtrl => 6,
            FramePos::PosRtua => 7,
            FramePos::PosUid => 10,
            FramePos::PosMsa => 13,
            FramePos::PosAfn => 14,
            FramePos::PosSeq => 15,
            FramePos::PosData => 16,
            FramePos::PosItem => 18,
            FramePos::PosItemData => 22,
        }
    }

    /// The byte offset of the position within the frame.
    pub fn offset(&self) -> (r: usize)
        ensures
            r as nat == self.offset_spec(),
    {
        match self {
            FramePos::PosStart0 => 0,
            FramePos::PosDatalen => 1,
            FramePos::PosStart1 => 5,
            FramePos::PosCtrl => 6,
            FramePos::PosRtua => 7,
            FramePos::PosUid => 10,
            FramePos::PosMsa => 13,
            FramePos::PosAfn => 14,
            FramePos::PosSeq => 15,
            FramePos::PosData => 16,
            FramePos::PosItem => 18,
            FramePos::PosItemData => 22,
        }
    }
}

/// The source of the sequence numbers of outgoing frames: a counter that runs from
/// 0 to 15 and starts over.
pub struct SequenceGenerator {
    pub next: u8,
}

impl SequenceGenerator {
    /// A generator that starts at zero.
    pub fn new() -> (r: Self)
        ensures
            r.next == 0,
    {
        SequenceGenerator { next: 0 }
    }
}

/// The two bytes of the point bitmap for one measurement point: nothing set for
/// point 0, else the bit of the point within its group of eight and the number of
/// the group, counted from one, modulo 256.
pub open spec fn da_of(ival: u16) -> (u8, u8) {
    if ival == 0 {
        (0u8, 0u8)
    } else {
        ((1u8 << (((ival - 1) % 8) as u8)), (((ival - 1) / 8 + 1) % 256) as u8)
    }
}

/// The bitmaps of a list of points, one for each point.
pub open spec fn da_single(points: Seq<u16>) -> Seq<(u8, u8)> {
    Seq::new(points.len(), |i: int| da_of(points[i]))
}

/// The two bytes that stand for a point in a frame: `FF FF` for all points.
pub open spec fn point_bytes(meter_point: u16) -> Seq<u8> {
    if meter_point == 0xFFFF {
        seq![0xFFu8, 0xFFu8]
    } else {
        seq![da_of(meter_point).0, da_of(meter_point).1]
    }
}

/// The four bytes of a data identifier, the lowest first.
pub open spec fn item_bytes(item: u32) -> Seq<u8> {
    seq![
        (item & 0xFF) as u8,
        ((item >> 8) & 0xFF) as u8,
        ((item >> 16) & 0xFF) as u8,
        ((item >> 24) & 0xFF) as u8,
    ]
}

/// The bytes for one point with each of the items: the point, then the item.
pub open spec fn point_items_bytes(meter_point: u16, items: Seq<u32>) -> Seq<u8>
    decreases items.len(),
{
    if items.len() == 0 {
        Seq::empty()
    } else {
        point_items_bytes(meter_point, items.drop_last()) + point_bytes(meter_point) + item_bytes(
            items.last(),
        )
    }
}

/// The bytes for one point with each of the items and a time range: the point,
/// the item, the start, the end, and the kind of data where one is given.
pub open spec fn point_items_time_bytes(
    meter_point: u16,
    items: Seq<u32>,
    start_time: Seq<u8>,
    end_time: Seq<u8>,
    datakind: Option<u8>,
) -> Seq<u8>
    decreases items.len(),
{
    if items.len() == 0 {
        Seq::empty()
    } else {
        point_items_time_bytes(meter_point, items.drop_last(), start_time, end_time, datakind)
            + point_bytes(meter_point) + item_bytes(items.last()) + start_time + end_time + (
        match datakind {
            Some(k) => seq![k],
            None => Seq::empty(),
        })
    }
}

/// The bytes for one point with each item and its data: the point, the item, and
/// the bytes that the item's text denotes in hexadecimal.
pub open spec fn point_data_bytes(meter_point: u16, items: Seq<(u32, String)>) -> Seq<u8>
    decreases items.len(),
{
    if items.len() == 0 {
        Seq::empty()
    } else {
        point_data_bytes(meter_point, items.drop_last()) + point_bytes(meter_point) + item_bytes(
            items.last().0,
        ) + hex_frame_lenient(items.last().1@)
    }
}

/// The bitmap bytes of a list of points, one after the other.
pub open spec fn points_bytes(points: Seq<u16>) -> Seq<u8>
    decreases points.len(),
{
    if points.len() == 0 {
        Seq::empty()
    } else {
        points_bytes(points.drop_last()) + point_bytes(points.last())
    }
}

/// The identifier bytes of a list of items, one after the other.
pub open spec fn items_bytes(items: Seq<u32>) -> Seq<u8>
    decreases items.len(),
{
    if items.len() == 0 {
        Seq::empty()
    } else {
        items_bytes(items.drop_last()) + item_bytes(items.last())
    }
}

/// Whether bytes are a CSG frame without a head before it: two start bytes `68`
/// around a length field that is given twice and is the length of what stands
/// between the fixed eight bytes, and the end byte `16`.
pub open spec fn is_bare_csg_frame(f: Seq<u8>) -> bool {
    f.len() >= 6 && f[0] == 0x68 && f[5] == 0x68 && f[1] == f[3] && f[2] == f[4] && f[2] * 256
        + f[1] + 8 == f.len() && f[f.len() - 1] == 0x16
}

/// Whether the first 84 bytes hold the marks of a custom head.
pub open spec fn has_custom_head(f: Seq<u8>) -> bool {
    f.len() >= 48 && !(f[0] != 0x66 && f[47] != 0x66) && !(f[3] != f[f.len() - 3] && f[4]
        != f[f.len() - 2])
}

/// Whether bytes are a CSG frame, with or without a custom head of 84 bytes.
pub open spec fn is_csg(f: Seq<u8>) -> bool {
    f.len() >= 24 && is_bare_csg_frame(
        if f.len() > 84 && has_custom_head(f.take(84)) { f.skip(84) } else { f },
    )
}

/// Whether six BCD bytes are a time: century, year, month, day, hour, minute, with
/// the day within its month. The 29th of February never counts.
pub open spec fn valid_bcd_time(s: Seq<u8>) -> bool {
    s.len() == 6 && {
        let century = byte_weight(s[0], true);
        let year = byte_weight(s[1], true);
        let month = byte_weight(s[2], true);
        let day = byte_weight(s[3], true);
        let hour = byte_weight(s[4], true);
        let minute = byte_weight(s[5], true);
        century <= 99 && year <= 99 && 1 <= month <= 12 && 1 <= day <= 31 && hour < 24 && minute
            < 60 && !((month == 4 || month == 6 || month == 9 || month == 11) && day > 30) && !(
        month == 2 && day > 28)
    }
}

/// Whether a year is a leap year; a year before the year 0 counts as the year as
/// far behind it.
pub open spec fn leap_year(year: int) -> bool {
    let y = if year >= 0 { year } else { -year };
    y % 4 == 0 && (y % 100 != 0 || y % 400 == 0)
}

/// The text for an error code.
pub open spec fn err_code_text(errcode: u8) -> Seq<char> {
    if errcode == 0x00 {
        "正确"@
    } else if errcode == 0x01 {
        "中继命令没有返回"@
    } else if errcode == 0x02 {
        "设置内容非法"@
    } else if errcode == 0x03 {
        "密码权限不足"@
    } else if errcode == 0x04 {
        "无此数据项"@
    } else if errcode == 0x05 {
        "命令时间失效"@
    } else if errcode == 0x06 {
        "目标地址不存在"@
    } else if errcode == 0x07 {
        "校验失败"@
    } else {
        "未知错误"@
    }
}

/// The text for a data density.
pub open spec fn data_density_text(dinsty: u8) -> Seq<char> {
    if dinsty == 0 {
        "按终端实际存储数据的时间间隔"@
    } else if dinsty == 1 {
        "1分钟"@
    } else if dinsty == 2 {
        "5分钟"@
    } else if dinsty == 3 {
        "15分钟"@
    } else if dinsty == 4 {
        "30分钟"@
    } else if dinsty == 5 {
        "60分钟"@
    } else if dinsty == 6 {
        "1日"@
    } else if dinsty == 7 {
        "1月"@
    } else {
        "备用"@
    }
}

/// The text for a relay type.
pub open spec fn relay_type_text(relay_type: u8) -> Seq<char> {
    if relay_type == 0x00 {
        "普通中继"@
    } else if relay_type == 0x01 {
        "转发主站对电能表的拉闸命令"@
    } else if relay_type == 0x02 {
        "转发主站对电能表的允许合闸命令"@
    } else if relay_type == 0x03 {
        "转发主站对电能表的保电投入命令"@
    } else if relay_type == 0x04 {
        "转发主站对电能表的保电解除命令"@
    } else {
        "未知"@
    }
}

/// The frames of the CSG protocol.
pub struct FrameCsg;

impl FrameCsg {
    /// The next sequence number: the counter's value, which then moves on by one
    /// and starts over after 15.
    pub fn get_csg_pseq(seq: &mut SequenceGenerator) -> (r: u8)
        ensures
            r == old(seq).next % 16,
            final(seq).next == (old(seq).next % 16 + 1) % 16,
    {
        let current: u8 = seq.next % 16;
        seq.next = (current + 1) % 16;
        current
    }

    /// Writes the fixed fields of a frame: the two start bytes, the control byte,
    /// the six address bytes, the master address, the function code and the
    /// sequence byte.
    pub fn init_frame(ctrl: u8, afn: u8, adress: &[u8], msa: u8, seq: u8, frame: &mut Vec<u8>)
        requires
            old(frame)@.len() >= 16,
            adress@.len() == 6,
        ensures
            final(frame)@.len() == old(frame)@.len(),
            final(frame)@[0] == 0x68 && final(frame)@[5] == 0x68 && final(frame)@[6] == ctrl,
            final(frame)@.subrange(7, 13) == adress@,
            final(frame)@[13] == msa && final(frame)@[14] == afn && final(frame)@[15] == seq,
            forall|i: int|
                (1 <= i < 5 || 16 <= i < old(frame)@.len()) ==> final(frame)@[i] == old(frame)@[i],
    {
        frame.set(0, 0x68);
        frame.set(5, 0x68);
        frame.set(6, ctrl);
        let mut k: usize = 0;
        while k < 6
            invariant
                k <= 6,
                adress@.len() == 6,
                frame@.len() == old(frame)@.len(),
                frame@.len() >= 16,
                frame@[0] == 0x68 && frame@[5] == 0x68 && frame@[6] == ctrl,
                forall|j: int| 0 <= j < k ==> frame@[7 + j] == adress@[j],
                forall|i: int|
                    (1 <= i < 5 || 13 <= i < old(frame)@.len()) ==> frame@[i] == old(frame)@[i],
            decreases 6 - k,
        {
            frame.set(7 + k, adress[k]);
            k += 1;
        }
        frame.set(13, msa);
        frame.set(14, afn);
        frame.set(15, seq);
        assert(frame@.subrange(7, 13) =~= adress@);
    }

    /// The length of a meter task in a frame: 28 bytes, two more for each of the
    /// points counted at byte 26, and four more for each of the items counted
    /// behind the points.
    pub fn get_meter_task_len(frame: &[u8]) -> (r: usize)
        requires
            frame@.len() > 27 + frame@[26] * 2,
        ensures
            r == 28 + frame@[26] * 2 + frame@[27 + frame@[26] * 2] * 4,
    {
        let mut len: usize = 27;
        len += frame[26] as usize * 2;
        len += frame[len] as usize * 4;
        len += 1;
        len
    }

    /// The length of a normal task in a frame: 21 bytes, two more for each of the
    /// points counted at byte 19, and four more for each of the items counted
    /// behind the points.
    pub fn get_normal_task_len(frame: &[u8]) -> (r: usize)
        requires
            frame@.len() > 20 + frame@[19] * 2,
        ensures
            r == 21 + frame@[19] * 2 + frame@[20 + frame@[19] * 2] * 4,
    {
        let mut len: usize = 20;
        len += frame[19] as usize * 2;
        len += frame[len] as usize * 4;
        len += 1;
        len
    }

    /// The sequence byte of a frame: the lowest bit of each flag at bits 7 to 4,
    /// and the next sequence number below.
    pub fn get_frame_seq(tpv: u8, fir: u8, fin: u8, con: u8, seq: &mut SequenceGenerator) -> (r: u8)
        ensures
            r == ((tpv & 0x01) << 7) | ((fir & 0x01) << 6) | ((fin & 0x01) << 5) | ((con & 0x01)
                << 4) | ((old(seq).next % 16) & 0x0F),
            final(seq).next == (old(seq).next % 16 + 1) % 16,
    {
        let mut value: u8 = 0;
        value |= (tpv & 0x01) << 7;
        value |= (fir & 0x01) << 6;
        value |= (fin & 0x01) << 5;
        value |= (con & 0x01) << 4;
        value |= Self::get_csg_pseq(seq) & 0x0F;
        assert(0u8 | ((tpv & 0x01) << 7) == ((tpv & 0x01) << 7)) by (bit_vector);
        value
    }

    /// The two bytes of the point bitmap for one measurement point.
    pub fn to_da(ival: u16) -> (r: (u8, u8))
        ensures
            r == da_of(ival),
    {
        if ival == 0 {
            return (0, 0);
        }
        let low: u8 = ((ival - 1) % 8) as u8;
        let high: u16 = (ival - 1) / 8;
        let da1: u8 = 1u8 << low;
        let da2: u8 = ((high + 1) % 256) as u8;
        (da1, da2)
    }

    /// The bitmaps of a list of points, one for each point.
    pub fn to_da_with_single(points: &[u16]) -> (r: Vec<(u8, u8)>)
        ensures
            r@ == da_single(points@),
    {
        let mut out: Vec<(u8, u8)> = Vec::new();
        let mut i: usize = 0;
        while i < points.len()
            invariant
                i <= points.len(),
                out@.len() == i,
                forall|k: int| 0 <= k < i ==> #[trigger] out@[k] == da_of(points@[k]),
            decreases points.len() - i,
        {
            out.push(Self::to_da(points[i]));
            i += 1;
        }
        assert(out@ =~= da_single(points@));
        out
    }

    /// Appends the two bytes that stand for a point, and returns their number.
    pub fn add_point_to_frame(meter_point: u16, frame: &mut Vec<u8>) -> (r: usize)
        ensures
            r == 2,
            final(frame)@ == old(frame)@ + point_bytes(meter_point),
    {
        if meter_point == 0xFFFF {
            frame.push(0xFF);
            frame.push(0xFF);
        } else {
            let (da1, da2) = Self::to_da(meter_point);
            frame.push(da1);
            frame.push(da2);
        }
        assert(frame@ =~= old(frame)@ + point_bytes(meter_point));
        2
    }

    /// Appends sixteen zero bytes in place of a password, and returns their number.
    pub fn add_pw_to_frame(frame: &mut Vec<u8>) -> (r: usize)
        ensures
            r == 16,
            final(frame)@ == old(frame)@ + Seq::new(16, |i: int| 0u8),
    {
        let mut k: usize = 0;
        while k < 16
            invariant
                k <= 16,
                frame@ == old(frame)@ + Seq::new(k as nat, |i: int| 0u8),
            decreases 16 - k,
        {
            frame.push(0);
            k += 1;
            assert(frame@ =~= old(frame)@ + Seq::new(k as nat, |i: int| 0u8));
        }
        16
    }

    /// Appends the identifier bytes of the items, and returns their number.
    pub fn add_item_array_to_frame(frame: &mut Vec<u8>, item_array: Vec<u32>) -> (r: usize)
        requires
            item_array@.len() * 4 <= usize::MAX,
        ensures
            r == item_array@.len() * 4,
            final(frame)@ == old(frame)@ + items_bytes(item_array@),
    {
        let mut pos: usize = 0;
        let mut i: usize = 0;
        assert(frame@ =~= old(frame)@ + items_bytes(item_array@.take(0)));
        while i < item_array.len()
            invariant
                i <= item_array.len(),
                item_array@.len() * 4 <= usize::MAX,
                pos == i * 4,
                frame@ == old(frame)@ + items_bytes(item_array@.take(i as int)),
            decreases item_array.len() - i,
        {
            let ghost before = frame@;
            pos += FrameFun::item_to_di(item_array[i], frame);
            i += 1;
            proof {
                assert(item_array@.take(i as int).drop_last() =~= item_array@.take(i - 1));
                assert(frame@ =~= old(frame)@ + items_bytes(item_array@.take(i as int)));
            }
        }
        assert(item_array@.take(item_array.len() as int) =~= item_array@);
        pos
    }

    /// Appends, for each item, the point and the item, and returns the number of
    /// bytes.
    pub fn push_item_into_frame(meter_point: u16, item_array: &[u32], frame: &mut Vec<u8>) -> (r:
        usize)
        requires
            item_array@.len() * 6 <= usize::MAX,
        ensures
            r == item_array@.len() * 6,
            final(frame)@ == old(frame)@ + point_items_bytes(meter_point, item_array@),
    {
        let mut pos: usize = 0;
        let mut i: usize = 0;
        assert(frame@ =~= old(frame)@ + point_items_bytes(meter_point, item_array@.take(0)));
        while i < item_array.len()
            invariant
                i <= item_array.len(),
                item_array@.len() * 6 <= usize::MAX,
                pos == i * 6,
                frame@ == old(frame)@ + point_items_bytes(meter_point, item_array@.take(i as int)),
            decreases item_array.len() - i,
        {
            pos += Self::add_point_to_frame(meter_point, frame);
            pos += FrameFun::item_to_di(item_array[i], frame);
            i += 1;
            proof {
                assert(item_array@.take(i as int).drop_last() =~= item_array@.take(i - 1));
                assert(frame@ =~= old(frame)@ + point_items_bytes(
                    meter_point,
                    item_array@.take(i as int),
                ));
            }
        }
        assert(item_array@.take(item_array.len() as int) =~= item_array@);
        pos
    }

    /// Whether the first 84 bytes hold the marks of a custom head.
    pub fn is_contoine_custom_head(frame: &[u8]) -> (r: bool)
        ensures
            r == has_custom_head(frame@),
    {
        let n = frame.len();
        if n < 48 {
            return false;
        }
        if frame[0] != 0x66 && frame[47] != 0x66 {
            return false;
        }
        if frame[3] != frame[n - 3] && frame[4] != frame[n - 2] {
            return false;
        }
        true
    }

    /// Whether bytes are a CSG frame.
    pub fn is_csg_frame(data: &[u8]) -> (r: bool)
        ensures
            r == is_csg(data@),
    {
        if data.len() < 24 {
            return false;
        }
        let mut frame = data;
        if data.len() > 84 {
            let head = slice_subrange(data, 0, 84);
            assert(head@ =~= data@.take(84));
            if Self::is_contoine_custom_head(head) {
                frame = slice_subrange(data, 84, data.len());
                assert(frame@ =~= data@.skip(84));
            }
        }
        let n = frame.len();
        if n < 6 {
            return false;
        }
        if frame[0] != 0x68 || frame[5] != 0x68 {
            return false;
        }
        if frame[1] != frame[3] || frame[2] != frame[4] {
            return false;
        }
        let frame_length: usize = (frame[2] as usize) * 256 + frame[1] as usize;
        if n < 8 || frame_length != n - 8 {
            return false;
        }
        if frame[n - 1] != 0x16 {
            return false;
        }
        true
    }

    /// The direction, start, access and count-valid bits of a control byte: bits
    /// 7, 6, 5 and 4.
    pub fn get_dir_prm(control: u8) -> (r: (u8, u8, u8, u8))
        ensures
            r.0 == (control >> 7) & 1,
            r.1 == (control >> 6) & 1,
            r.2 == (control >> 5) & 1,
            r.3 == (control >> 4) & 1,
    {
        let array = FrameFun::get_bit_array(control);
        let dir = array[0];
        let prm = array[1];
        let acd = array[2];
        let fcv = array[3];
        assert(array@[0] == crate::frame_fun::bit_of(control, 0));
        assert(array@[1] == crate::frame_fun::bit_of(control, 1));
        assert(array@[2] == crate::frame_fun::bit_of(control, 2));
        assert(array@[3] == crate::frame_fun::bit_of(control, 3));
        (dir, prm, acd, fcv)
    }

    /// The logical address of the terminal in a frame: the three bytes of the
    /// region code and the three of the terminal address, each last byte first.
    pub fn get_csg_adress(frame: &[u8]) -> (r: String)
        requires
            frame@.len() >= 14,
        ensures
            r@ == hex_concat(frame@.subrange(7, 10).reverse()) + hex_concat(
                frame@.subrange(10, 13).reverse(),
            ),
    {
        let a1 = slice_subrange(frame, 7, 10);
        let a2 = slice_subrange(frame, 10, 13);
        let mut out = FrameFun::get_data_str_reverser(a1);
        let second = FrameFun::get_data_str_reverser(a2);
        push_str(&mut out, second.as_str());
        out
    }

    /// The direction bit, the start bit, the sequence number, the function code
    /// and the logical address of a frame.
    pub fn get_frame_info(frame: &[u8]) -> (r: (u8, u8, u8, u8, String))
        requires
            frame@.len() >= 16,
        ensures
            r.0 == (frame@[6] >> 7) & 1,
            r.1 == (frame@[6] >> 6) & 1,
            r.2 == frame@[15] & 0x0f,
            r.3 == frame@[14],
            r.4@ == hex_concat(frame@.subrange(7, 10).reverse()) + hex_concat(
                frame@.subrange(10, 13).reverse(),
            ),
    {
        let (dir, prm, _acd, _fcv) = Self::get_dir_prm(frame[6]);
        let afn = frame[14];
        let seq = frame[15] & 0x0f;
        (dir, prm, seq, afn, Self::get_csg_adress(frame))
    }

    /// Whether a year is a leap year.
    pub fn is_leap_year(year: i32) -> (r: bool)
        ensures
            r == leap_year(year as int),
    {
        let y: u32 = if year >= 0 { year as u32 } else { (-(year as i64)) as u32 };
        if y % 4 == 0 {
            if y % 100 == 0 {
                return y % 400 == 0;
            }
            return true;
        }
        false
    }

    /// Whether six BCD bytes are a time.
    pub fn is_valid_bcd_time(bcd_array: &[u8]) -> (r: bool)
        ensures
            r == valid_bcd_time(bcd_array@),
    {
        if bcd_array.len() != 6 {
            return false;
        }
        let century = FrameFun::bcd2int(bcd_array[0]);
        let year = FrameFun::bcd2int(bcd_array[1]);
        let month = FrameFun::bcd2int(bcd_array[2]);
        let day = FrameFun::bcd2int(bcd_array[3]);
        let hour = FrameFun::bcd2int(bcd_array[4]);
        let minute = FrameFun::bcd2int(bcd_array[5]);
        if century > 99 || year > 99 || month < 1 || month > 12 || day < 1 || day > 31 || hour
            >= 24 || minute >= 60 {
            return false;
        }
        if (month == 4 || month == 6 || month == 9 || month == 11) && day > 30 {
            return false;
        }
        if month == 2 && day > 28 {
            return false;
        }
        true
    }

    /// The text for an error code.
    pub fn prase_err_code_result(errcode: u8) -> (r: &'static str)
        ensures
            r@ == err_code_text(errcode),
    {
        match errcode {
            0x00 => "正确",
            0x01 => "中继命令没有返回",
            0x02 => "设置内容非法",
            0x03 => "密码权限不足",
            0x04 => "无此数据项",
            0x05 => "命令时间失效",
            0x06 => "目标地址不存在",
            0x07 => "校验失败",
            _ => "未知错误",
        }
    }

    /// The text for a data density.
    pub fn get_data_dinsty(dinsty: u8) -> (r: &'static str)
        ensures
            r@ == data_density_text(dinsty),
    {
        match dinsty {
            0 => "按终端实际存储数据的时间间隔",
            1 => "1分钟",
            2 => "5分钟",
            3 => "15分钟",
            4 => "30分钟",
            5 => "60分钟",
            6 => "1日",
            7 => "1月",
            _ => "备用",
        }
    }

    /// The text for a relay type.
    pub fn get_relay_type(relay_type: u8) -> (r: &'static str)
        ensures
            r@ == relay_type_text(relay_type),
    {
        match relay_type {
            0x00 => "普通中继",
            0x01 => "转发主站对电能表的拉闸命令",
            0x02 => "转发主站对电能表的允许合闸命令",
            0x03 => "转发主站对电能表的保电投入命令",
            0x04 => "转发主站对电能表的保电解除命令",
            _ => "未知",
        }
    }

    /// The text for a point bitmap.
    pub fn prase_da_data(da: [u8; 2]) -> (r: String)
        ensures
            r@ == da_text(
                da@,
                "Pn=测量点：0(终端)"@,
                "Pn=测量点：FFFF(除了终端信息点以外的所有测量点)"@,
                "Pn=第"@,
                "测量点"@,
            ),
    {
        let mut v: Vec<u8> = Vec::new();
        v.push(da[0]);
        v.push(da[1]);
        assert(v@ =~= da@);
        FrameFun::parse_da_data(v.as_slice())
    }

    /// The text of a time label: the day, hour, minute and second at which the
    /// frame was sent, and the delay in minutes that the transmission may take.
    pub fn prase_tpv_data(tpv: &[u8]) -> (r: String)
        requires
            tpv@.len() >= 5,
        ensures
            r@ == "启动帧发送时标："@ + time_text(tpv@.take(4), "DDhhmmss"@, false)
                + "。允许发送传输延迟时间："@ + dec_string(tpv@[4] as nat) + "分"@,
    {
        let time = slice_subrange(tpv, 0, 4);
        assert(time@ =~= tpv@.take(4));
        let delay = tpv[4];
        let time_str = FrameFun::parse_time_data(time, "DDhhmmss", false);
        let mut out = String::new();
        push_str(&mut out, "启动帧发送时标：");
        push_str(&mut out, time_str.as_str());
        push_str(&mut out, "。允许发送传输延迟时间：");
        push_dec(&mut out, delay as u64);
        push_str(&mut out, "分");
        assert(out@ =~= "启动帧发送时标："@ + time_text(tpv@.take(4), "DDhhmmss"@, false)
            + "。允许发送传输延迟时间："@ + dec_string(tpv@[4] as nat) + "分"@);
        out
    }
}

/// Whether the calendar of the `chrono` crate has the day: a month from 1 to 12 and
/// a day that the month has in that year.
pub open spec fn calendar_day_exists(year: int, month: int, day: int) -> bool {
    1 <= month <= 12 && 1 <= day <= days_in_month(year, month)
}

/// The number of days of a month.
pub open spec fn days_in_month(year: int, month: int) -> int {
    if month == 2 {
        if leap_year(year) { 29 } else { 28 }
    } else if month == 4 || month == 6 || month == 9 || month == 11 {
        30
    } else {
        31
    }
}

/// Asks `chrono::NaiveDate::from_ymd_opt` whether a calendar day exists. For a year
/// from 0 to 262142 it does where the month is from 1 to 12 and the day is one of
/// that month in the proleptic Gregorian calendar.
#[verifier::external_body]
fn date_exists(year: i32, month: u32, day: u32) -> (r: bool)
    ensures
        0 <= year <= 262142 ==> r == calendar_day_exists(year as int, month as int, day as int),
{
    chrono::NaiveDate::from_ymd_opt(year, month, day).is_some()
}

/// Asks `chrono::NaiveTime::from_hms_opt` whether a time of day exists: it does
/// where the hour is below 24 and minute and second are below 60.
#[verifier::external_body]
fn time_exists(hour: u32, minute: u32, second: u32) -> (r: bool)
    ensures
        r == (hour < 24 && minute < 60 && second < 60),
{
    chrono::NaiveTime::from_hms_opt(hour, minute, second).is_some()
}

/// A moment to the minute.
#[derive(Clone, Copy, Debug)]
pub struct BcdDateTime {
    pub year: i32,
    pub month: u32,
    pub day: u32,
    pub hour: u32,
    pub minute: u32,
}

/// The moment that BCD bytes hold: century, year, month, day, hour and, where
/// there is a sixth byte, minute; none where there are fewer than five bytes or
/// the calendar has no such day or time.
pub open spec fn bcd_moment(s: Seq<u8>) -> Option<BcdDateTime> {
    if s.len() < 5 {
        None
    } else {
        let year = byte_weight(s[0], true) * 100 + byte_weight(s[1], true);
        let month = byte_weight(s[2], true);
        let day = byte_weight(s[3], true);
        let hour = byte_weight(s[4], true);
        let minute = if s.len() > 5 { byte_weight(s[5], true) } else { 0 };
        if calendar_day_exists(year as int, month as int, day as int) && hour < 24 && minute < 60 {
            Some(
                BcdDateTime {
                    year: year as i32,
                    month: month as u32,
                    day: day as u32,
                    hour: hour as u32,
                    minute: minute as u32,
                },
            )
        } else {
            None
        }
    }
}

/// Whether moment `a` is later than moment `b`.
pub open spec fn later(a: BcdDateTime, b: BcdDateTime) -> bool {
    a.year > b.year || (a.year == b.year && (a.month > b.month || (a.month == b.month && (a.day
        > b.day || (a.day == b.day && (a.hour > b.hour || (a.hour == b.hour && a.minute
        > b.minute)))))))
}

/// Whether moment `a` is later than moment `b` and not by more than a month: in
/// the same month, or in the next month with at most 30 days between the two days.
pub open spec fn within_one_month(a: BcdDateTime, b: BcdDateTime) -> bool {
    later(a, b) && {
        let months = (a.year - b.year) * 12 + (a.month - b.month);
        months == 0 || (months == 1 && days_in_month(b.year as int, b.month as int) - b.day
            + a.day - 1 <= 30)
    }
}

/// The bitmaps of points from `i` on, the points of one group of eight gathered in
/// one bitmap as long as they follow one another: `mask` holds the bits gathered
/// for group `last_high` so far.
pub open spec fn da_groups_from(points: Seq<u16>, i: int, mask: u8, last_high: u8, acc: Seq<
    (u8, u8),
>) -> Seq<(u8, u8)>
    decreases points.len() - i,
{
    if i < 0 || i >= points.len() {
        if mask != 0 { acc.push((mask, ((last_high as int + 1) % 256) as u8)) } else { acc }
    } else {
        let p = ((points[i] as int + 65535) % 65536) as u16;
        let low = (p % 8) as u8;
        let high = ((p / 8) % 256) as u8;
        if high != last_high {
            da_groups_from(
                points,
                i + 1,
                1u8 << low,
                high,
                if mask != 0 { acc.push((mask, ((last_high as int + 1) % 256) as u8)) } else { acc },
            )
        } else {
            da_groups_from(points, i + 1, mask | (1u8 << low), last_high, acc)
        }
    }
}

/// The number of bytes that text takes as data: half the number of its characters
/// that are no space or line feed.
pub open spec fn data_length(text: Seq<char>) -> nat {
    crate::text::remove_blanks(text).len() / 2
}

/// The number of bytes counted for one point with each item and its data.
pub open spec fn point_data_count(items: Seq<(u32, String)>) -> nat
    decreases items.len(),
{
    if items.len() == 0 {
        0
    } else {
        point_data_count(items.drop_last()) + 6 + data_length(items.last().1@)
    }
}

/// The acknowledgement that answers a frame: the first 25 bytes of the frame with
/// the control byte for the answer, the master address `0A`, the function code 0,
/// the sequence byte marked as single frame, the data unit of the frame followed
/// by the identifier `E0000000` and the code 0, the time label of the frame
/// behind it where the frame carries one, the length, the checksum and the end
/// byte.
pub open spec fn ack_frame(frame: Seq<u8>, control_code: u8) -> Seq<u8>
    recommends
        frame.len() >= 18,
{
    let head = Seq::new(25, |i: int| if i < frame.len() { frame[i] } else { 0u8 });
    let tpv = head[15] & 0x80 != 0;
    let seq = ((head[15] & 0x7F) | 0x60) | (if tpv { 0x80u8 } else { 0u8 });
    let pos: int = if tpv { 22 } else { 17 };
    let body = head.update(6, if control_code == 9 { 0x0Bu8 } else { 0x08u8 }).update(
        13,
        0x0A,
    ).update(14, 0x00).update(15, seq).update(16, frame[16]).update(17, frame[17]).update(
        18,
        0x00,
    ).update(19, 0x00).update(20, 0x00).update(21, 0xE0).update(22, 0x00).update(
        1,
        pos as u8,
    ).update(2, 0).update(3, pos as u8).update(4, 0);
    let whole = if tpv { body + frame.subrange(frame.len() - 7, frame.len() - 2) } else { body };
    whole.update(
        whole.len() - 2,
        checksum(whole.subrange(6, whole.len() - 2)),
    ).update(whole.len() - 1, 0x16)
}

impl FrameCsg {
    /// The moment that BCD bytes hold.
    pub fn bcd_array_to_datetime(bcd_array: &[u8]) -> (r: Option<BcdDateTime>)
        ensures
            r == bcd_moment(bcd_array@),
    {
        if bcd_array.len() < 5 {
            return None;
        }
        let century = FrameFun::bcd2int(bcd_array[0]);
        let year = FrameFun::bcd2int(bcd_array[1]);
        let month = FrameFun::bcd2int(bcd_array[2]);
        let day = FrameFun::bcd2int(bcd_array[3]);
        let hour = FrameFun::bcd2int(bcd_array[4]);
        let minute = if bcd_array.len() > 5 { FrameFun::bcd2int(bcd_array[5]) } else { 0 };
        let full_year: i32 = (century * 100 + year) as i32;
        if date_exists(full_year, month, day) && time_exists(hour, minute, 0) {
            Some(BcdDateTime { year: full_year, month, day, hour, minute })
        } else {
            None
        }
    }

    /// Whether the first time is later than the second and not by more than a
    /// month; `false` where one of them is no moment.
    pub fn is_within_one_month(bcd_array1: &[u8], bcd_array2: &[u8]) -> (r: bool)
        ensures
            r == (match (bcd_moment(bcd_array1@), bcd_moment(bcd_array2@)) {
                (Some(a), Some(b)) => within_one_month(a, b),
                _ => false,
            }),
    {
        let dt1 = Self::bcd_array_to_datetime(bcd_array1);
        let dt2 = Self::bcd_array_to_datetime(bcd_array2);
        match (dt1, dt2) {
            (Some(a), Some(b)) => {
                let is_later = a.year > b.year || (a.year == b.year && (a.month > b.month || (
                a.month == b.month && (a.day > b.day || (a.day == b.day && (a.hour > b.hour || (
                a.hour == b.hour && a.minute > b.minute)))))));
                if !is_later {
                    return false;
                }
                let months_diff: i64 = (a.year as i64 - b.year as i64) * 12 + (a.month as i64
                    - b.month as i64);
                if months_diff > 1 {
                    return false;
                }
                if months_diff == 1 {
                    let days_in_month2: i64 = if b.month == 2 {
                        if Self::is_leap_year(b.year) { 29 } else { 28 }
                    } else if b.month == 4 || b.month == 6 || b.month == 9 || b.month == 11 {
                        30
                    } else {
                        31
                    };
                    let total_days: i64 = days_in_month2 - b.day as i64 + a.day as i64 - 1;
                    return total_days <= 30;
                }
                true
            },
            _ => false,
        }
    }

    /// The bitmaps of a list of points, the points of one group gathered in one
    /// bitmap as long as they follow one another.
    pub fn to_da_with_continuous(points: &[u16]) -> (r: Vec<(u8, u8)>)
        ensures
            r@ == da_groups_from(points@, 0, 0, 0, Seq::empty()),
    {
        let mut result: Vec<(u8, u8)> = Vec::new();
        let mut mask: u8 = 0;
        let mut last_high: u8 = 0;
        let mut i: usize = 0;
        while i < points.len()
            invariant
                i <= points.len(),
                da_groups_from(points@, i as int, mask, last_high, result@) == da_groups_from(
                    points@,
                    0,
                    0,
                    0,
                    Seq::empty(),
                ),
            decreases points.len() - i,
        {
            let p: u16 = points[i].wrapping_sub(1);
            let low: u8 = (p % 8) as u8;
            let high: u8 = ((p / 8) % 256) as u8;
            if high != last_high {
                if mask != 0 {
                    result.push((mask, last_high.wrapping_add(1)));
                }
                mask = 0;
                last_high = high;
            }
            assert(0u8 | (1u8 << low) == (1u8 << low)) by (bit_vector);
            mask |= 1u8 << low;
            i += 1;
        }
        if mask != 0 {
            result.push((mask, last_high.wrapping_add(1)));
        }
        result
    }

    /// Appends, for each item, the point, the item and the bytes of its data, and
    /// returns the number of bytes counted.
    pub fn push_item_data_into_frame(
        meter_point: u16,
        item_data: &Vec<(u32, String)>,
        frame: &mut Vec<u8>,
    ) -> (r: usize)
        requires
            point_data_count(item_data@) <= usize::MAX,
        ensures
            r as nat == point_data_count(item_data@),
            final(frame)@ == old(frame)@ + point_data_bytes(meter_point, item_data@),
    {
        let mut pos: usize = 0;
        let mut i: usize = 0;
        assert(frame@ =~= old(frame)@ + point_data_bytes(meter_point, item_data@.take(0)));
        while i < item_data.len()
            invariant
                i <= item_data.len(),
                point_data_count(item_data@) <= usize::MAX,
                pos as nat == point_data_count(item_data@.take(i as int)),
                frame@ == old(frame)@ + point_data_bytes(meter_point, item_data@.take(i as int)),
            decreases item_data.len() - i,
        {
            proof {
                assert(item_data@.take(i + 1).drop_last() =~= item_data@.take(i as int));
                lemma_point_data_count_monotone(item_data@, i + 1);
            }
            pos += Self::add_point_to_frame(meter_point, frame);
            pos += FrameFun::item_to_di(item_data[i].0, frame);
            pos += FrameFun::prase_text_to_frame(item_data[i].1.as_str(), frame);
            i += 1;
            assert(frame@ =~= old(frame)@ + point_data_bytes(meter_point, item_data@.take(i as int)));
        }
        assert(item_data@.take(item_data.len() as int) =~= item_data@);
        pos
    }

    /// The number of bytes that a frame for the points takes, each point with each
    /// item and its data.
    pub fn get_frame(point_array: Vec<u16>, item_data: Vec<(u32, String)>, frame: Option<Vec<u8>>) -> (r:
        usize)
        requires
            point_array@.len() * point_data_count(item_data@) <= usize::MAX,
        ensures
            r == point_array@.len() * point_data_count(item_data@),
    {
        let mut frame = match frame {
            Some(f) => f,
            None => Vec::new(),
        };
        let mut frame_len: usize = 0;
        let mut i: usize = 0;
        let ghost c = point_data_count(item_data@);
        while i < point_array.len()
            invariant
                i <= point_array.len(),
                c == point_data_count(item_data@),
                point_array@.len() * c <= usize::MAX,
                frame_len == i * c,
            decreases point_array.len() - i,
        {
            assert((i + 1) * c <= point_array@.len() * c) by (nonlinear_arith)
                requires
                    i + 1 <= point_array@.len(),
            ;
            assert((i + 1) * c == i * c + c) by (nonlinear_arith);
            assert(c <= (i + 1) * c) by (nonlinear_arith);
            frame_len += Self::push_item_data_into_frame(point_array[i], &item_data, &mut frame);
            i += 1;
        }
        frame_len
    }

    /// The number of bytes that a frame for the points takes, each point with each
    /// item; a list that starts with `FF`, `FF` stands for all points at once.
    pub fn add_point_and_item_to_frame(
        point_array: Vec<u16>,
        item_array: Vec<u32>,
        frame: Option<Vec<u8>>,
    ) -> (r: usize)
        requires
            point_array@.len() * (item_array@.len() * 6) <= usize::MAX,
            item_array@.len() * 6 <= usize::MAX,
        ensures
            r == (if point_array@.len() >= 2 && point_array@[0] == 0xFF && point_array@[1] == 0xFF {
                item_array@.len() * 6
            } else {
                point_array@.len() * (item_array@.len() * 6)
            }),
    {
        let mut frame = match frame {
            Some(f) => f,
            None => Vec::new(),
        };
        if point_array.len() >= 2 && point_array[0] == 0xFF && point_array[1] == 0xFF {
            return Self::push_item_into_frame(0xFFFF, item_array.as_slice(), &mut frame);
        }
        let mut frame_len: usize = 0;
        let mut i: usize = 0;
        let ghost c = item_array@.len() * 6;
        while i < point_array.len()
            invariant
                i <= point_array.len(),
                c == item_array@.len() * 6,
                point_array@.len() * c <= usize::MAX,
                frame_len == i * c,
            decreases point_array.len() - i,
        {
            assert((i + 1) * c <= point_array@.len() * c) by (nonlinear_arith)
                requires
                    i + 1 <= point_array@.len(),
            ;
            assert((i + 1) * c == i * c + c) by (nonlinear_arith);
            assert(c <= (i + 1) * c) by (nonlinear_arith);
            frame_len += Self::push_item_into_frame(
                point_array[i],
                item_array.as_slice(),
                &mut frame,
            );
            i += 1;
        }
        frame_len
    }

    /// Appends, for each item, the point, the item, the two times and the kind of
    /// data where one is given, and returns the number of bytes counted: 18 for
    /// each item, and one more with a kind of data.
    pub fn push_item_with_time_into_frame(
        meter_point: u16,
        item_array: &[u32],
        frame: &mut Vec<u8>,
        start_time: &[u8],
        end_time: &[u8],
        datakind: Option<u8>,
    ) -> (r: usize)
        requires
            item_array@.len() * 19 <= usize::MAX,
        ensures
            r == item_array@.len() * (if datakind is Some { 19int } else { 18int }),
            final(frame)@ == old(frame)@ + point_items_time_bytes(
                meter_point,
                item_array@,
                start_time@,
                end_time@,
                datakind,
            ),
    {
        let mut pos: usize = 0;
        let mut i: usize = 0;
        let each: usize = if datakind.is_some() { 19 } else { 18 };
        assert(frame@ =~= old(frame)@ + point_items_time_bytes(
            meter_point,
            item_array@.take(0),
            start_time@,
            end_time@,
            datakind,
        ));
        while i < item_array.len()
            invariant
                i <= item_array.len(),
                item_array@.len() * 19 <= usize::MAX,
                each == (if datakind is Some { 19int } else { 18int }),
                pos == i * each,
                frame@ == old(frame)@ + point_items_time_bytes(
                    meter_point,
                    item_array@.take(i as int),
                    start_time@,
                    end_time@,
                    datakind,
                ),
            decreases item_array.len() - i,
        {
            let ghost before = frame@;
            pos += Self::add_point_to_frame(meter_point, frame);
            pos += FrameFun::item_to_di(item_array[i], frame);
            frame.extend_from_slice(start_time);
            frame.extend_from_slice(end_time);
            match datakind {
                Some(k) => {
                    frame.push(k);
                    pos += 1;
                },
                None => {},
            }
            pos += 12;
            i += 1;
            proof {
                assert(item_array@.take(i as int).drop_last() =~= item_array@.take(i - 1));
                assert(frame@ =~= old(frame)@ + point_items_time_bytes(
                    meter_point,
                    item_array@.take(i as int),
                    start_time@,
                    end_time@,
                    datakind,
                ));
            }
        }
        assert(item_array@.take(item_array.len() as int) =~= item_array@);
        pos
    }

    /// The number of bytes that a frame for the points takes, each point with each
    /// item and a time range; a list that starts with `FF`, `FF` stands for all
    /// points at once.
    pub fn add_point_and_item_and_time_to_frame(
        point_array: Vec<u16>,
        item_array: Vec<u32>,
        start_time: Vec<u8>,
        end_time: Vec<u8>,
        datakind: Option<u8>,
        frame: Option<Vec<u8>>,
    ) -> (r: usize)
        requires
            point_array@.len() * (item_array@.len() * 19) <= usize::MAX,
            item_array@.len() * 19 <= usize::MAX,
        ensures
            r == (if point_array@.len() >= 2 && point_array@[0] == 0xFF && point_array@[1] == 0xFF {
                1int
            } else {
                point_array@.len() as int
            }) * (item_array@.len() * (if datakind is Some { 19int } else { 18int })),
    {
        let mut frame = match frame {
            Some(f) => f,
            None => Vec::new(),
        };
        if point_array.len() >= 2 && point_array[0] == 0xFF && point_array[1] == 0xFF {
            return Self::push_item_with_time_into_frame(
                0xFFFF,
                item_array.as_slice(),
                &mut frame,
                start_time.as_slice(),
                end_time.as_slice(),
                datakind,
            );
        }
        let mut frame_len: usize = 0;
        let mut i: usize = 0;
        let ghost c = item_array@.len() * (if datakind is Some { 19int } else { 18int });
        while i < point_array.len()
            invariant
                i <= point_array.len(),
                c == item_array@.len() * (if datakind is Some { 19int } else { 18int }),
                item_array@.len() * 19 <= usize::MAX,
                point_array@.len() * (item_array@.len() * 19) <= usize::MAX,
                frame_len == i * c,
            decreases point_array.len() - i,
        {
            assert((i + 1) * c <= point_array@.len() * (item_array@.len() * 19)) by (nonlinear_arith)
                requires
                    i + 1 <= point_array@.len(),
                    0 <= c <= item_array@.len() * 19,
            ;
            assert((i + 1) * c == i * c + c) by (nonlinear_arith);
            frame_len += Self::push_item_with_time_into_frame(
                point_array[i],
                item_array.as_slice(),
                &mut frame,
                start_time.as_slice(),
                end_time.as_slice(),
                datakind,
            );
            i += 1;
        }
        frame_len
    }

    /// Appends the bitmaps of the points, and returns the number of points and of
    /// bytes; a list that starts with point `FFFF` stands for all points at once.
    pub fn add_point_array_to_frame(frame: &mut Vec<u8>, point_array: Vec<u16>) -> (r: (usize, usize))
        requires
            point_array@.len() * 2 <= usize::MAX,
        ensures
            point_array@.len() > 0 && point_array@[0] == 0xFFFF ==> r == (1usize, 2usize),
            point_array@.len() > 0 && point_array@[0] == 0xFFFF ==> final(frame)@ == old(frame)@
                + seq![0xFFu8, 0xFFu8],
            !(point_array@.len() > 0 && point_array@[0] == 0xFFFF) ==> r.0 == point_array@.len()
                && r.1 == point_array@.len() * 2 && final(frame)@ == old(frame)@ + points_bytes(
                point_array@,
            ),
    {
        if point_array.len() > 0 && point_array[0] == 0xFFFF {
            frame.push(0xFF);
            frame.push(0xFF);
            assert(frame@ =~= old(frame)@ + seq![0xFFu8, 0xFFu8]);
            return (1, 2);
        }
        let mut pos: usize = 0;
        let mut i: usize = 0;
        assert(frame@ =~= old(frame)@ + points_bytes(point_array@.take(0)));
        while i < point_array.len()
            invariant
                i <= point_array.len(),
                point_array@.len() * 2 <= usize::MAX,
                pos == i * 2,
                frame@ == old(frame)@ + points_bytes(point_array@.take(i as int)),
            decreases point_array.len() - i,
        {
            pos += Self::add_point_to_frame(point_array[i], frame);
            i += 1;
            proof {
                assert(point_array@.take(i as int).drop_last() =~= point_array@.take(i - 1));
                assert(frame@ =~= old(frame)@ + points_bytes(point_array@.take(i as int)));
            }
        }
        assert(point_array@.take(point_array.len() as int) =~= point_array@);
        (point_array.len(), pos)
    }

    /// Ends a frame: for the function code 4, sixteen zero bytes in place of a
    /// password go to both the data and the frame; then the checksum of the data
    /// and the end byte go to the frame. Returns the number of password bytes.
    pub fn set_frame_finish(data: &mut Vec<u8>, frame: &mut Vec<u8>) -> (r: usize)
        requires
            old(frame)@.len() >= 15,
        ensures
            old(frame)@[14] == 0x04 ==> r == 16 && final(data)@ == old(data)@ + Seq::new(
                16,
                |i: int| 0u8,
            ) && final(frame)@ == old(frame)@ + Seq::new(16, |i: int| 0u8) + seq![
                checksum(final(data)@),
                0x16u8,
            ],
            old(frame)@[14] != 0x04 ==> r == 0 && final(data)@ == old(data)@ && final(frame)@
                == old(frame)@ + seq![checksum(old(data)@), 0x16u8],
    {
        let mut frame_len: usize = 0;
        if frame[14] == 0x04 {
            Self::add_pw_to_frame(frame);
            Self::add_pw_to_frame(data);
            frame_len = 16;
        }
        let caculate_cs = FrameFun::calculate_cs(data.as_slice());
        let ghost mid = frame@;
        frame.push(caculate_cs);
        frame.push(0x16);
        assert(frame@ =~= mid + seq![caculate_cs, 0x16u8]);
        frame_len
    }

    /// Writes the checksum of the data to the last byte but one of the frame.
    pub fn set_frame_cs(data: &[u8], frame: &mut Vec<u8>)
        requires
            old(frame)@.len() >= 2,
        ensures
            final(frame)@ == old(frame)@.update(old(frame)@.len() - 2, checksum(data@)),
    {
        let len = frame.len();
        let caculate_cs = FrameFun::calculate_cs(data);
        frame.set(len - 2, caculate_cs);
    }

    /// Writes the length field of the frame: the low and the high byte of the
    /// length, twice.
    pub fn set_frame_len(length: usize, frame: &mut Vec<u8>)
        requires
            old(frame)@.len() >= 5,
        ensures
            final(frame)@ == old(frame)@.update(1, (length & 0x00FF) as u8).update(
                2,
                (length >> 8) as u8,
            ).update(3, (length & 0x00FF) as u8).update(4, (length >> 8) as u8),
    {
        frame.set(1, (length & 0x00FF) as u8);
        frame.set(2, (length >> 8) as u8);
        frame.set(3, (length & 0x00FF) as u8);
        frame.set(4, (length >> 8) as u8);
    }

    /// The acknowledgement that answers a frame.
    pub fn send_ack_frame(frame: &[u8], control_code: u8) -> (r: Vec<u8>)
        requires
            frame@.len() >= 18,
        ensures
            r@ == ack_frame(frame@, control_code),
    {
        let mut replay: Vec<u8> = Vec::new();
        let mut i: usize = 0;
        while i < 25
            invariant
                i <= 25,
                replay@.len() == i,
                forall|k: int|
                    0 <= k < i ==> #[trigger] replay@[k] == (if k < frame@.len() {
                        frame@[k]
                    } else {
                        0u8
                    }),
            decreases 25 - i,
        {
            replay.push(if i < frame.len() { frame[i] } else { 0 });
            i += 1;
        }
        let ghost head = Seq::new(25, |i: int| if i < frame@.len() { frame@[i] } else { 0u8 });
        assert(replay@ =~= head);
        let tpv: bool = replay[15] & 0x80 != 0;
        let seq: u8 = ((replay[15] & 0x7F) | 0x60) | (if tpv { 0x80u8 } else { 0u8 });
        let pos: u8 = if tpv { 22 } else { 17 };
        replay.set(6, if control_code == 9 { 0x0B } else { 0x08 });
        replay.set(13, 0x0A);
        replay.set(14, 0x00);
        replay.set(15, seq);
        replay.set(16, frame[16]);
        replay.set(17, frame[17]);
        replay.set(18, 0x00);
        replay.set(19, 0x00);
        replay.set(20, 0x00);
        replay.set(21, 0xE0);
        replay.set(22, 0x00);
        replay.set(1, pos);
        replay.set(2, 0);
        replay.set(3, pos);
        replay.set(4, 0);
        let ghost body = head.update(6, if control_code == 9 { 0x0Bu8 } else { 0x08u8 }).update(
            13,
            0x0A,
        ).update(14, 0x00).update(15, seq).update(16, frame@[16]).update(17, frame@[17]).update(
            18,
            0x00,
        ).update(19, 0x00).update(20, 0x00).update(21, 0xE0).update(22, 0x00).update(
            1,
            pos,
        ).update(2, 0).update(3, pos).update(4, 0);
        assert(replay@ =~= body);
        if tpv {
            let tpv_area = slice_subrange(frame, frame.len() - 7, frame.len() - 2);
            replay.extend_from_slice(tpv_area);
        }
        let n = replay.len();
        let ghost whole = replay@;
        assert(whole =~= if tpv {
            body + frame@.subrange(frame@.len() - 7, frame@.len() - 2)
        } else {
            body
        });
        let covered = slice_subrange(replay.as_slice(), 6, n - 2);
        assert(covered@ =~= whole.subrange(6, whole.len() - 2));
        let caculate_cs = FrameFun::calculate_cs(covered);
        replay.set(n - 2, caculate_cs);
        replay.set(n - 1, 0x16);
        assert(replay@ =~= whole.update(whole.len() - 2, caculate_cs).update(whole.len() - 1, 0x16));
        replay
    }

    /// Whether a length rule is an arithmetic expression: a number, an operator
    /// and an operand, as the pattern for such rules says.
    pub fn is_valid_expression(s: &str) -> (r: bool)
        ensures
            r == regex_matches(valid_pattern(), s@),
    {
        regex_is_match("^\\s*\\d+\\s*[\\+\\-\\*/]\\s*(\\d+|[^\\s]*)\\s*$", s)
    }

    /// Whether an element has a child with the id of a rate count.
    pub fn get_data_item_is_with_group(data_item_element: &XmlElement) -> (r: bool)
        ensures
            r == crate::xmlconfig::index_of_attr(
                data_item_element@.children,
                "id"@,
                "费率数"@,
            ) is Some,
    {
        data_item_element.find_child_by_attribute("id", "费率数").is_some()
    }
}

/// The count for the first items is never more than the count for all.
pub proof fn lemma_point_data_count_monotone(items: Seq<(u32, String)>, i: int)
    requires
        0 <= i <= items.len(),
    ensures
        point_data_count(items.take(i)) <= point_data_count(items),
    decreases items.len() - i,
{
    if i < items.len() {
        lemma_point_data_count_monotone(items, i + 1);
        assert(items.take(i + 1).drop_last() =~= items.take(i));
    } else {
        assert(items.take(i) =~= items);
    }
}

/// The length of a block of `n` parts of which `mult` are present, from the length
/// `l` that is declared for all of them: one byte for the count and the share of
/// the rest. The share is taken as a whole number; without further parts the
/// length has no bound or is nothing.
pub open spec fn scaled_length(l: nat, n: nat, mult: nat) -> nat {
    let num = l - 1;
    let den = n - 1;
    if den == 0 {
        if num > 0 { usize::MAX as nat } else { 0 }
    } else if den < 0 {
        if 1 - mult * num < 0 { 0 } else { (1 - mult * num) as nat }
    } else if num < 0 {
        0
    } else {
        ((mult * num) / den + 1) as nat
    }
}

/// The kind of block that an element is: 1 for a group count, 2 for a rate count
/// or an element with such a child, else 0.
pub open spec fn block_kind(e: ElementView) -> int {
    if e.attribute("id"@) == Some("组数"@) {
        1
    } else if e.attribute("id"@) == Some("费率数"@) || crate::xmlconfig::index_of_attr(
        e.children,
        "id"@,
        "费率数"@,
    ) is Some {
        2
    } else {
        0
    }
}

/// The length of a data unit over the bytes given, never more than those: its
/// resolved length for the sentinel `UNKNOWN`, else its literal length, which for
/// a block under a protocol and a region is scaled by the count in the first
/// byte.
pub open spec fn recalculated_length(q: Query, e: ElementView, data: Seq<u8>, fuel: nat) -> nat {
    let t = text_or(e.child_text("length"@), Seq::empty());
    let l = if is_unknown(t) {
        item_length(q, e, data, None, fuel)
    } else {
        let base = number_or_zero(Some(t));
        if e.attribute("protocol"@) is Some && e.attribute("region"@) is Some && block_kind(e) > 0 {
            if data.len() == 0 || data[0] == 0 {
                1
            } else {
                scaled_length(
                    base,
                    e.items("dataItem"@).len(),
                    if block_kind(e) == 2 { (data[0] + 1) as nat } else { data[0] as nat },
                )
            }
        } else {
            base
        }
    };
    if l <= data.len() { l } else { data.len() }
}

/// Whether what follows the data of an item is a time of that item: six bytes of
/// a valid BCD time behind the item's data that is later than the time given and
/// not by more than a month.
pub open spec fn next_is_current(
    q: Query,
    item: Option<ElementView>,
    data: Seq<u8>,
    data_time: Option<Seq<u8>>,
    fuel: nat,
) -> bool {
    match item {
        None => false,
        Some(e) => {
            let l = recalculated_length(q, e, data, fuel);
            l + 6 <= data.len() && valid_bcd_time(data.subrange(l as int, (l + 6) as int)) && (
            match data_time {
                Some(t) => match (bcd_moment(data.subrange(l as int, (l + 6) as int)), bcd_moment(t)) {
                    (Some(a), Some(b)) => within_one_month(a, b),
                    _ => false,
                },
                None => false,
            })
        },
    }
}

/// Whether the bytes from `pos` on do not read as a run of data units, which
/// speaks for a password at their end: a unit whose item or length is unknown
/// does, as does a rest that is too short for a unit but for the first; units
/// whose length divides what is left speak against it.
pub open spec fn pw_scan(q: Query, data: Seq<u8>, pos: nat, with_time: bool, fuel: nat) -> bool
    decreases data.len() - pos,
{
    let total = data.len();
    let left: nat = if with_time { if total >= 6 { (total - 6) as nat } else { 0 } } else { total };
    let rest: nat = if left >= 6 { (left - 6) as nat } else { 0 };
    if pos >= total {
        false
    } else if pos + 6 > total {
        pos != 0
    } else {
        match q.item(hex_concat(data.subrange((2 + pos) as int, (6 + pos) as int).reverse())) {
            None => true,
            Some(el) => match el.child_text("length"@) {
                None => true,
                Some(t) => {
                    let sub: Option<nat> = if is_unknown(t) {
                        Some(item_length(q, el, data.skip(6), None, fuel))
                    } else {
                        parse_usize_spec(t)
                    };
                    match sub {
                        None => true,
                        Some(sl) => if rest % (sl + 5) == 0 || pos + sl + 11 >= total {
                            false
                        } else {
                            pw_scan(q, data, pos + sl + 11, with_time, fuel)
                        },
                    }
                },
            },
        }
    }
}

/// Whether a password stands at the end of the bytes, judged by the item at hand
/// and the run of data units.
pub open spec fn pw_judged(
    q: Query,
    data: Seq<u8>,
    item: Option<ElementView>,
    data_time: Option<Seq<u8>>,
    with_time: bool,
    fuel: nat,
) -> bool {
    if item is Some && next_is_current(q, item, data, data_time, fuel) {
        false
    } else {
        pw_scan(q, data, 0, with_time, fuel)
    }
}

/// The position of the first element whose child `name` has the given text.
pub open spec fn index_of_named(items: Seq<ElementView>, target: Seq<char>) -> Option<int>
    decreases items.len(),
{
    if items.len() == 0 {
        None
    } else if items[0].child_text("name"@) == Some(target) {
        Some(0)
    } else {
        match index_of_named(items.drop_first(), target) {
            Some(i) => Some(i + 1),
            None => None,
        }
    }
}

/// The length of the named part of a record and the number that it shows: the
/// literal length of the part, held to the bytes given, and its value read as a
/// number.
pub open spec fn sub_length_of(e: ElementView, target: Seq<char>, data: Seq<u8>) -> (nat, nat) {
    let items = e.items("splitByLength"@);
    match index_of_named(items, target) {
        None => (0, 0),
        Some(i) => {
            let declared = number_or_zero(items[i].child_text("length"@));
            let l = if declared <= data.len() { declared } else { data.len() };
            (
                l,
                number_or_zero(Some(single_item_parts(items[i], data.take(l as int), 0, false).0)),
            )
        },
    }
}

impl FrameCsg {
    /// The resolved length of an element over the bytes that are left.
    pub fn calculate_item_length(
        repo: &ProtocolConfigManager,
        sub_element: &XmlElement,
        data_segment: &[u8],
        protocol: &str,
        region: &str,
        dir: Option<u8>,
        all_length_items: Option<&Vec<XmlElement>>,
    ) -> (r: usize)
        requires
            repo.wf(),
        ensures
            r as nat == item_length(
                query_of(repo, protocol@, region@, dir),
                sub_element@,
                data_segment@,
                match all_length_items {
                    Some(l) => Some(elements_view(l@)),
                    None => None,
                },
                DECODE_DEPTH as nat,
            ),
            r <= data_segment@.len(),
            ({
                let all = match all_length_items {
                    Some(l) => elements_view(l@),
                    None => sub_element@.items("splitByLength"@),
                };
                all.len() > 0 && all_literal(all, 0) && literal_sum(all, 0) <= data_segment@.len() ==> r
                    as nat == literal_sum(all, 0)
            }),
    {
        Self::execute_calculation(
            repo,
            sub_element,
            data_segment,
            protocol,
            region,
            dir,
            all_length_items,
        )
    }

    /// The resolved length of an element over the bytes that are left; `items`
    /// stands for its record children where it is given. Where every child
    /// declares a literal length and the sum of these fits the bytes, the length
    /// is that sum.
    pub fn execute_calculation(
        repo: &ProtocolConfigManager,
        element: &XmlElement,
        data: &[u8],
        protocol: &str,
        region: &str,
        dir: Option<u8>,
        items: Option<&Vec<XmlElement>>,
    ) -> (r: usize)
        requires
            repo.wf(),
        ensures
            r as nat == item_length(
                query_of(repo, protocol@, region@, dir),
                element@,
                data@,
                match items {
                    Some(l) => Some(elements_view(l@)),
                    None => None,
                },
                DECODE_DEPTH as nat,
            ),
            r <= data@.len(),
            ({
                let all = match items {
                    Some(l) => elements_view(l@),
                    None => element@.items("splitByLength"@),
                };
                all.len() > 0 && all_literal(all, 0) && literal_sum(all, 0) <= data@.len() ==> r
                    as nat == literal_sum(all, 0)
            }),
    {
        proof {
            let all = match items {
                Some(l) => elements_view(l@),
                None => element@.items("splitByLength"@),
            };
            if all.len() > 0 && all_literal(all, 0) && literal_sum(all, 0) <= data@.len() {
                lemma_literal_end_is_sum(all, 0, data@.len(), 0);
            }
        }
        item_length_of(repo, element, data, items, protocol, region, dir, DECODE_DEPTH)
    }

    /// The length of an element whose length is not declared: nothing for no
    /// bytes; what its length rule gives within the record that `length_map`
    /// describes; without a rule, the resolved length of its own structure. The
    /// length is never more than the bytes given.
    pub fn calculate_unknown_length(
        repo: &ProtocolConfigManager,
        data_subitem_elem: &XmlElement,
        data_segment: &[u8],
        length_map: &Vec<ContextEntry>,
        protocol: &str,
        region: &str,
        dir: Option<u8>,
    ) -> (r: usize)
        requires
            repo.wf(),
        ensures
            r as nat == ({
                let q = query_of(repo, protocol@, region@, dir);
                let rules = text_or(data_subitem_elem@.child_text("lengthrule"@), Seq::empty());
                if data_segment@.len() == 0 {
                    0
                } else if rules.len() > 0 {
                    min_of(
                        rule_length(
                            q,
                            rules,
                            data_segment@,
                            context_view(length_map@),
                            DECODE_DEPTH as nat,
                        ) as int,
                        data_segment@.len() as int,
                    ) as nat
                } else {
                    item_length(q, data_subitem_elem@, data_segment@, None, DECODE_DEPTH as nat)
                }
            }),
            r <= data_segment@.len(),
    {
        if data_segment.len() == 0 {
            return 0;
        }
        let rules = match data_subitem_elem.get_child_text("lengthrule") {
            Some(r) => r,
            None => String::new(),
        };
        if rules.as_str().unicode_len() > 0 {
            let by_rule = rule_length_of(
                repo,
                rules.as_str(),
                data_segment,
                length_map,
                protocol,
                region,
                dir,
                DECODE_DEPTH,
            );
            if by_rule <= data_segment.len() {
                by_rule
            } else {
                data_segment.len()
            }
        } else {
            item_length_of(
                repo,
                data_subitem_elem,
                data_segment,
                None,
                protocol,
                region,
                dir,
                DECODE_DEPTH,
            )
        }
    }

    /// The item that four identifier bytes resolve to, and the identifier in
    /// hexadecimal, last byte first.
    pub fn try_get_item_and_point(
        repo: &ProtocolConfigManager,
        item: &[u8],
        protocol: &str,
        region: &str,
        dir: Option<u8>,
    ) -> (r: (Option<XmlElement>, String))
        requires
            repo.wf(),
        ensures
            r.1@ == hex_concat(item@.reverse()),
            opt_element_view(r.0) == query_of(repo, protocol@, region@, dir).item(
                hex_concat(item@.reverse()),
            ),
    {
        let data_item = FrameFun::get_data_str_reverser(item);
        let data_item_elem = lookup_item(repo, data_item.as_str(), protocol, region, dir);
        (data_item_elem, data_item)
    }

    /// The length of a data unit over the bytes given, and those bytes of it. A
    /// unit that declares a literal length and is no block takes that length,
    /// or all the bytes given where they are fewer.
    pub fn recalculate_sub_length<'a>(
        repo: &ProtocolConfigManager,
        data_item_elem: &XmlElement,
        data_segment: &'a [u8],
        protocol: &str,
        region: &str,
        dir: Option<u8>,
    ) -> (r: (usize, &'a [u8]))
        requires
            repo.wf(),
        ensures
            r.0 as nat == recalculated_length(
                query_of(repo, protocol@, region@, dir),
                data_item_elem@,
                data_segment@,
                DECODE_DEPTH as nat,
            ),
            r.0 <= data_segment@.len(),
            r.1@ == data_segment@.take(r.0 as int),
            ({
                let e = data_item_elem@;
                let t = text_or(e.child_text("length"@), Seq::empty());
                parse_usize_spec(t) is Some && (e.attribute("protocol"@) is None || e.attribute(
                    "region"@,
                ) is None || block_kind(e) == 0) ==> r.0 as int == min_of(
                    parse_usize_spec(t).unwrap() as int,
                    data_segment@.len() as int,
                )
            }),
    {
        let t = match data_item_elem.get_child_text("length") {
            Some(t) => t,
            None => String::new(),
        };
        let n = data_segment.len();
        let l: usize = if is_unknown_text(t.as_str()) {
            item_length_of(
                repo,
                data_item_elem,
                data_segment,
                None,
                protocol,
                region,
                dir,
                DECODE_DEPTH,
            )
        } else {
            let base = number_or_zero_of(&Some(t));
            let kind: u8 = if data_item_elem.get_attribute("protocol").is_some()
                && data_item_elem.get_attribute("region").is_some() {
                let id = data_item_elem.get_attribute("id");
                let is_group = match id {
                    Some(x) => str_eq(x.as_str(), "组数"),
                    None => false,
                };
                let is_rate = match id {
                    Some(x) => str_eq(x.as_str(), "费率数"),
                    None => false,
                };
                if is_group {
                    1
                } else if is_rate || Self::get_data_item_is_with_group(data_item_elem) {
                    2
                } else {
                    0
                }
            } else {
                0
            };
            if kind > 0 {
                if n == 0 || data_segment[0] == 0 {
                    1
                } else {
                    let count = data_item_elem.get_items("dataItem").len();
                    let mult: u128 = if kind == 2 {
                        data_segment[0] as u128 + 1
                    } else {
                        data_segment[0] as u128
                    };
                    scaled_length_of(base, count, mult)
                }
            } else {
                base
            }
        };
        let l: usize = if l <= n { l } else { n };
        let part = slice_subrange(data_segment, 0, l);
        assert(part@ =~= data_segment@.take(l as int));
        (l, part)
    }

    /// Whether what follows the data of an item is a time of that item.
    pub fn guest_next_data_is_cur_item_data(
        repo: &ProtocolConfigManager,
        item_element: Option<&XmlElement>,
        data_segment: &[u8],
        data_time: Option<&[u8]>,
        protocol: &str,
        region: &str,
        dir: Option<u8>,
    ) -> (r: bool)
        requires
            repo.wf(),
        ensures
            r == next_is_current(
                query_of(repo, protocol@, region@, dir),
                match item_element {
                    Some(e) => Some(e@),
                    None => None,
                },
                data_segment@,
                match data_time {
                    Some(t) => Some(t@),
                    None => None,
                },
                DECODE_DEPTH as nat,
            ),
    {
        match item_element {
            None => false,
            Some(e) => {
                let (length, _part) = Self::recalculate_sub_length(
                    repo,
                    e,
                    data_segment,
                    protocol,
                    region,
                    dir,
                );
                if data_segment.len() - length < 6 {
                    return false;
                }
                let stamp = slice_subrange(data_segment, length, length + 6);
                if !Self::is_valid_bcd_time(stamp) {
                    return false;
                }
                match data_time {
                    Some(t) => Self::is_within_one_month(stamp, t),
                    None => false,
                }
            },
        }
    }

    /// Whether a password stands at the end of the bytes, judged by the item at
    /// hand and the run of data units.
    pub fn judge_is_exit_pw(
        repo: &ProtocolConfigManager,
        data_segment: &[u8],
        item_element: Option<&XmlElement>,
        data_time: Option<&[u8]>,
        with_time: bool,
        protocol: &str,
        region: &str,
        dir: Option<u8>,
    ) -> (r: bool)
        requires
            repo.wf(),
        ensures
            r == pw_judged(
                query_of(repo, protocol@, region@, dir),
                data_segment@,
                match item_element {
                    Some(e) => Some(e@),
                    None => None,
                },
                match data_time {
                    Some(t) => Some(t@),
                    None => None,
                },
                with_time,
                DECODE_DEPTH as nat,
            ),
    {
        let ghost q = query_of(repo, protocol@, region@, dir);
        if item_element.is_some() && Self::guest_next_data_is_cur_item_data(
            repo,
            item_element,
            data_segment,
            data_time,
            protocol,
            region,
            dir,
        ) {
            return false;
        }
        let total = data_segment.len();
        let left: usize = if with_time { if total >= 6 { total - 6 } else { 0 } } else { total };
        let rest: usize = if left >= 6 { left - 6 } else { 0 };
        let mut pos: usize = 0;
        let ghost want = pw_judged(
            q,
            data_segment@,
            match item_element {
                Some(e) => Some(e@),
                None => None,
            },
            match data_time {
                Some(t) => Some(t@),
                None => None,
            },
            with_time,
            DECODE_DEPTH as nat,
        );
        while pos < total
            invariant
                repo.wf(),
                total == data_segment@.len(),
                left == (if with_time { if total >= 6 { total - 6 } else { 0 } } else { total as int }),
                rest == (if left >= 6 { left - 6 } else { 0 }),
                q == query_of(repo, protocol@, region@, dir),
                want == pw_judged(
                    q,
                    data_segment@,
                    match item_element {
                        Some(e) => Some(e@),
                        None => None,
                    },
                    match data_time {
                        Some(t) => Some(t@),
                        None => None,
                    },
                    with_time,
                    DECODE_DEPTH as nat,
                ),
                want == pw_scan(q, data_segment@, 0, with_time, DECODE_DEPTH as nat),
                pw_scan(q, data_segment@, pos as nat, with_time, DECODE_DEPTH as nat) == pw_scan(
                    q,
                    data_segment@,
                    0,
                    with_time,
                    DECODE_DEPTH as nat,
                ),
            decreases total - pos,
        {
            if total - pos < 6 {
                return pos != 0;
            }
            let id = slice_subrange(data_segment, 2 + pos, 6 + pos);
            let (elem, _name) = Self::try_get_item_and_point(repo, id, protocol, region, dir);
            match elem {
                None => {
                    return true;
                },
                Some(el) => match el.get_child_text("length") {
                    None => {
                        return true;
                    },
                    Some(t) => {
                        let sub: Option<usize> = if is_unknown_text(t.as_str()) {
                            let tail = slice_subrange(data_segment, 6, total);
                            assert(tail@ =~= data_segment@.skip(6));
                            Some(
                                item_length_of(
                                    repo,
                                    &el,
                                    tail,
                                    None,
                                    protocol,
                                    region,
                                    dir,
                                    DECODE_DEPTH,
                                ),
                            )
                        } else {
                            parse_usize(t.as_str())
                        };
                        match sub {
                            None => {
                                return true;
                            },
                            Some(sl) => {
                                if (rest as u128) % (sl as u128 + 5) == 0 {
                                    return false;
                                }
                                if sl >= total - pos || total - pos - sl <= 11 {
                                    return false;
                                }
                                pos = pos + sl + 11;
                            },
                        }
                    },
                },
            }
        }
        false
    }

    /// Whether a password stands at the end of a data area: never in an area of
    /// at most 16 bytes or in fewer than 16 bytes; always in bytes that are all
    /// zero; else as the item at hand and the run of data units suggest.
    pub fn guest_is_exit_pw(
        repo: &ProtocolConfigManager,
        length: usize,
        data_segment: &[u8],
        data_item_elem: Option<&XmlElement>,
        data_time: Option<&[u8]>,
        with_time: bool,
        protocol: &str,
        region: &str,
        dir: Option<u8>,
    ) -> (r: bool)
        requires
            repo.wf(),
        ensures
            r == (if length <= 16 || data_segment@.len() < 16 {
                false
            } else if all_equal(data_segment@, 0) {
                true
            } else {
                pw_judged(
                    query_of(repo, protocol@, region@, dir),
                    data_segment@,
                    match data_item_elem {
                        Some(e) => Some(e@),
                        None => None,
                    },
                    match data_time {
                        Some(t) => Some(t@),
                        None => None,
                    },
                    with_time,
                    DECODE_DEPTH as nat,
                )
            }),
    {
        if length <= 16 {
            return false;
        }
        if data_segment.len() < 16 {
            return false;
        }
        if FrameFun::is_array_all_zeros(data_segment) {
            true
        } else {
            Self::judge_is_exit_pw(
                repo,
                data_segment,
                data_item_elem,
                data_time,
                with_time,
                protocol,
                region,
                dir,
            )
        }
    }

    /// The length of the named part of a record and the number that it shows.
    pub fn get_sub_length(
        data_item_element: &XmlElement,
        tar_get_item: &str,
        data_segment: &[u8],
        protocol: &str,
        region: &str,
        dir: Option<u8>,
    ) -> (r: (usize, usize))
        ensures
            (r.0 as nat, r.1 as nat) == sub_length_of(
                data_item_element@,
                tar_get_item@,
                data_segment@,
            ),
    {
        let all = data_item_element.get_items("splitByLength");
        let ghost v = elements_view(all@);
        let mut i: usize = 0;
        assert(v.subrange(0, v.len() as int) =~= v);
        while i < all.len()
            invariant
                i <= all.len(),
                v == elements_view(all@),
                v == data_item_element@.items("splitByLength"@),
                index_of_named(v, tar_get_item@) == (match index_of_named(
                    v.subrange(i as int, v.len() as int),
                    tar_get_item@,
                ) {
                    Some(k) => Some(k + i),
                    None => None,
                }),
            decreases all.len() - i,
        {
            let item = &all[i];
            let ghost rest = v.subrange(i as int, v.len() as int);
            assert(rest[0] == item@);
            let hit = match item.get_child_text("name") {
                Some(n) => str_eq(n.as_str(), tar_get_item),
                None => false,
            };
            if hit {
                let declared = number_or_zero_of(&item.get_child_text("length"));
                let l: usize = if declared <= data_segment.len() {
                    declared
                } else {
                    data_segment.len()
                };
                let part = slice_subrange(data_segment, 0, l);
                assert(part@ =~= data_segment@.take(l as int));
                let (value, _sub, _len) = FrameAnalisyic::prase_singal_item(
                    item,
                    part,
                    0,
                    false,
                    protocol,
                    region,
                    dir,
                );
                return (l, number_or_zero_of(&Some(value)));
            }
            assert(rest.drop_first() =~= v.subrange(i + 1, v.len() as int));
            i += 1;
        }
        (0, 0)
    }
}

/// The length of a block of `n` parts of which `mult` are present.
pub fn scaled_length_of(l: usize, n: usize, mult: u128) -> (r: usize)
    requires
        mult <= 256,
    ensures
        r as nat == (if scaled_length(l as nat, n as nat, mult as nat) <= usize::MAX {
            scaled_length(l as nat, n as nat, mult as nat)
        } else {
            usize::MAX as nat
        }),
{
    if n == 1 {
        if l > 1 {
            usize::MAX
        } else {
            0
        }
    } else if n == 0 {
        if l == 0 {
            assert(mult * (0 - 1) == -mult) by (nonlinear_arith);
            (mult + 1) as usize
        } else if l == 1 {
            assert(mult * 0 == 0) by (nonlinear_arith);
            1
        } else if mult == 0 {
            assert(mult * (l - 1) == 0) by (nonlinear_arith)
                requires
                    mult == 0,
            ;
            1
        } else {
            assert(mult * (l - 1) >= 1) by (nonlinear_arith)
                requires
                    l >= 2,
                    mult >= 1,
            ;
            0
        }
    } else if l == 0 {
        0
    } else {
        let num: u128 = (l - 1) as u128;
        let den: u128 = (n - 1) as u128;
        assert(mult * num <= 256 * 0xFFFF_FFFF_FFFF_FFFF) by (nonlinear_arith)
            requires
                mult <= 256,
                num <= 0xFFFF_FFFF_FFFF_FFFF,
        ;
        let prod: u128 = mult * num;
        let v: u128 = prod / den + 1;
        assert(prod as int == (mult as nat) * ((l as nat) - 1));
        assert(den as int == (n as nat) - 1);
        if v <= usize::MAX as u128 {
            v as usize
        } else {
            usize::MAX
        }
    }
}

/// Whether the checksum byte of a frame, its last byte but one, is the checksum of
/// the bytes from `from` up to it.
pub open spec fn checksum_valid(frame: Seq<u8>, from: int) -> bool
    recommends
        0 <= from,
        from + 2 <= frame.len(),
{
    frame[frame.len() - 2] == checksum(frame.subrange(from, frame.len() - 2))
}

/// The two fields for the end of a frame: the checksum byte, said to be right
/// where it is the checksum of the bytes covered and else shown with the byte
/// that it ought to be, and the end byte.
pub open spec fn end_fields(
    frame: Seq<u8>,
    index: int,
    from: int,
    cs_label: Seq<char>,
    right: Seq<char>,
    wrong: Seq<char>,
    end_label: Seq<char>,
    end_text: Seq<char>,
) -> Seq<FieldView> {
    let n = frame.len() as int;
    seq![
        leaf_field(
            cs_label,
            hex_upper(frame[n - 2]),
            if checksum_valid(frame, from) {
                right
            } else {
                wrong + hex_upper(checksum(frame.subrange(from, n - 2)))
            },
            index + n - 2,
            index + n - 1,
            None,
        ),
        leaf_field(end_label, hex_upper(frame[n - 1]), end_text, index + n - 1, index + n, None),
    ]
}

/// Whether the checksum byte of a frame is the checksum of the bytes from `from` up
/// to it.
pub fn frame_cs_valid(frame: &[u8], from: usize) -> (r: bool)
    requires
        from + 2 <= frame@.len(),
    ensures
        r == checksum_valid(frame@, from as int),
        r == (frame@[frame@.len() - 2] as nat == sum_bytes(
            frame@.subrange(from as int, frame@.len() - 2),
        ) % 256),
{
    let n = frame.len();
    FrameFun::is_valid_cs(slice_subrange(frame, from, n - 2), frame[n - 2])
}

/// Appends the two fields for the end of a frame.
pub fn push_end_fields(
    frame: &[u8],
    result_list: &mut Vec<DecodedField>,
    index: usize,
    from: usize,
    cs_label: &str,
    right: &str,
    wrong: &str,
    end_label: &str,
    end_text: &str,
)
    requires
        from + 2 <= frame@.len(),
        index + frame@.len() <= usize::MAX,
    ensures
        fields_view(final(result_list)@) == fields_view(old(result_list)@) + end_fields(
            frame@,
            index as int,
            from as int,
            cs_label@,
            right@,
            wrong@,
            end_label@,
            end_text@,
        ),
        final(result_list)@.len() == old(result_list)@.len() + 2,
        ({
            let n = frame@.len();
            let cs = final(result_list)@[old(result_list)@.len() as int];
            &&& cs.start == index + n - 2
            &&& cs.end == index + n - 1
            &&& right@.len() != wrong@.len() + 2 ==> ((cs.description@ == right@) == (frame@[n - 2]
                as nat == sum_bytes(frame@.subrange(from as int, n - 2)) % 256))
        }),
{
    let n = frame.len();
    let covered = slice_subrange(frame, from, n - 2);
    let cs = frame[n - 2];
    let calculated = FrameFun::calculate_cs(covered);
    let cs_str = if cs == calculated {
        right.to_owned()
    } else {
        let mut t = wrong.to_owned();
        push_hex_upper(&mut t, calculated);
        t
    };
    let mut cs_hex = String::new();
    push_hex_upper(&mut cs_hex, cs);
    let mut end_hex = String::new();
    push_hex_upper(&mut end_hex, frame[n - 1]);
    assert(cs_hex@ =~= hex_upper(cs));
    assert(end_hex@ =~= hex_upper(frame@[n - 1]));
    let f1 = leaf(cs_label.to_owned(), cs_hex, cs_str, index + n - 2, index + n - 1, None);
    let f2 = leaf(end_label.to_owned(), end_hex, end_text.to_owned(), index + n - 1, index + n, None);
    let ghost before = result_list@;
    result_list.push(f1);
    result_list.push(f2);
    assert(fields_view(result_list@) =~= fields_view(before) + seq![field_view(f1), field_view(f2)]);
    assert(result_list@[before.len() as int] == f1);
    assert((wrong@ + hex_upper(calculated)).len() == wrong@.len() + 2);
}

/// The name of the service that a control code asks for or answers with.
pub open spec fn service_text(prm: u8, control_code: u8) -> Seq<char> {
    if prm == 1 {
        if control_code == 1 {
            "复位命令"@
        } else if control_code == 4 {
            "用户数据"@
        } else if control_code == 9 {
            "链路测试"@
        } else if control_code == 10 {
            "请求1级数据"@
        } else if control_code == 11 {
            "请求2级数据"@
        } else {
            "备用"@
        }
    } else {
        if control_code == 0 {
            "认可"@
        } else if control_code == 8 {
            "用户数据"@
        } else if control_code == 9 {
            "否定：无所召唤数据"@
        } else if control_code == 11 {
            "链路状态"@
        } else {
            "备用"@
        }
    }
}

/// The side that a frame comes from.
pub open spec fn station_text(prm: u8) -> Seq<char> {
    if prm == 1 { "来自启动站"@ } else { "来自从动站"@ }
}

/// What a frame is, by its direction and its start bit.
pub open spec fn sender_text(dir: u8, prm: u8) -> Seq<char> {
    if prm == 1 {
        if dir == 0 { "主站发送"@ } else { "终端上送"@ }
    } else {
        if dir == 0 { "主站响应"@ } else { "终端响应"@ }
    }
}

/// The fields of a control byte: the direction, the start bit, the access bit,
/// the count-valid bit and the function code, all at the place of the control
/// byte.
pub open spec fn control_fields(control: u8, start_pos: int) -> Seq<FieldView> {
    let dir = (control >> 7) & 1;
    let prm = (control >> 6) & 1;
    let acd = (control >> 5) & 1;
    let fcv = (control >> 4) & 1;
    let code = control & 0x0f;
    seq![
        leaf_field(
            "D7传输方向位DIR"@,
            dec_string(dir as nat),
            if dir == 0 { "主站发出的下行报文"@ } else { "终端发出的上行报文"@ },
            start_pos + 6,
            start_pos + 7,
            None,
        ),
        leaf_field(
            "D6启动标志位PRM"@,
            dec_string(prm as nat),
            station_text(prm),
            start_pos + 6,
            start_pos + 7,
            None,
        ),
        leaf_field(
            "D5帧计数位FCB(下行)/要求访问位ACD(上行)"@,
            dec_string(acd as nat),
            if fcv == 1 { "有效"@ } else { "无效"@ },
            start_pos + 6,
            start_pos + 7,
            None,
        ),
        leaf_field(
            "D4帧计数有效位FCV(下行)/保留(上行)"@,
            dec_string(fcv as nat),
            if fcv == 1 { "FCB位有效"@ } else { "FCB位无效"@ },
            start_pos + 6,
            start_pos + 7,
            None,
        ),
        leaf_field(
            "D3~D0功能码"@,
            dec_string(code as nat),
            station_text(prm).push(':') + service_text(prm, code),
            start_pos + 6,
            start_pos + 7,
            None,
        ),
    ]
}

/// The text of a control byte: who sends, and which service.
pub open spec fn control_text(control: u8) -> Seq<char> {
    sender_text((control >> 7) & 1, (control >> 6) & 1) + service_text(
        (control >> 6) & 1,
        control & 0x0f,
    )
}

/// The logical address that seven address bytes hold.
pub open spec fn address_text(adress: Seq<u8>) -> Seq<char> {
    hex_concat(adress.subrange(0, 3).reverse()) + hex_concat(adress.subrange(3, 6).reverse())
}

/// The fields of the seven address bytes: the region code, the terminal address,
/// and the master address with the frame number and the master number below it.
pub open spec fn address_fields(adress: Seq<u8>, index: int) -> Seq<FieldView> {
    let a1 = adress.subrange(0, 3);
    let a2 = adress.subrange(3, 6);
    let a3 = adress[6];
    seq![
        leaf_field(
            "省地市区县码 A1"@,
            hex_spaced(a1),
            "省地市区县码="@ + hex_concat(a1.reverse()) + "省"@ + hex_upper(a1[2]) + ",地市"@
                + hex_upper(a1[1]) + ",区县"@ + hex_upper(a1[0]),
            index,
            index + 3,
            None,
        ),
        leaf_field(
            "终端地址 A2"@,
            hex_spaced(a2),
            "终端地址="@ + hex_concat(a2.reverse()),
            index + 3,
            index + 6,
            None,
        ),
        FieldView {
            frame_domain: "主站地址 A3"@,
            data: hex_upper(a3),
            description: Seq::empty(),
            start: index + 6,
            end: index + 7,
            color: None,
            children: Some(
                seq![
                    leaf_field(
                        "D7~D4帧序号"@,
                        dec_string((a3 & 0xf0) as nat),
                        "帧序号="@ + dec_string((a3 & 0xf0) as nat),
                        index + 6,
                        index + 7,
                        None,
                    ),
                    leaf_field(
                        "D3~D0主站地址"@,
                        dec_string((a3 & 0x0f) as nat),
                        "主站地址="@ + dec_string((a3 & 0x0f) as nat),
                        index + 6,
                        index + 7,
                        None,
                    ),
                ],
            ),
        },
    ]
}

/// The fields of the head of a frame: the start byte, the length, the second
/// start byte, the control byte with its bits, and the address with its parts.
pub open spec fn head_fields(frame: Seq<u8>, start_pos: int) -> Seq<FieldView> {
    let length = frame[2] as nat * 256 + frame[1] as nat;
    seq![
        leaf_field("起始符"@, hex_upper(frame[0]), "起始符"@, start_pos, start_pos + 1, None),
        leaf_field(
            "长度"@,
            hex_spaced(frame.subrange(1, 5)),
            "长度="@ + dec_string(length) + ",总长度="@ + dec_string(length + 8) + "(总长度=长度+8)"@,
            start_pos + 1,
            start_pos + 5,
            None,
        ),
        leaf_field("起始符"@, hex_upper(frame[5]), "起始符"@, start_pos + 5, start_pos + 6, None),
        FieldView {
            frame_domain: "控制域"@,
            data: hex_upper(frame[6]),
            description: control_text(frame[6]),
            start: start_pos + 6,
            end: start_pos + 7,
            color: None,
            children: Some(control_fields(frame[6], start_pos)),
        },
        FieldView {
            frame_domain: "地址域"@,
            data: hex_spaced(frame.subrange(7, 14)),
            description: "终端逻辑地址"@ + address_text(frame.subrange(7, 14)),
            start: start_pos + 7,
            end: start_pos + 14,
            color: None,
            children: Some(address_fields(frame.subrange(7, 14), start_pos + 7)),
        },
    ]
}

/// The two hexadecimal digits of a byte.
pub fn hex_of(b: u8) -> (r: String)
    ensures
        r@ == hex_upper(b),
{
    let mut out = String::new();
    push_hex_upper(&mut out, b);
    assert(out@ =~= hex_upper(b));
    out
}

/// The name of the service that a control code asks for or answers with.
pub fn service_name(prm: u8, control_code: u8) -> (r: &'static str)
    ensures
        r@ == service_text(prm, control_code),
{
    if prm == 1 {
        match control_code {
            1 => "复位命令",
            4 => "用户数据",
            9 => "链路测试",
            10 => "请求1级数据",
            11 => "请求2级数据",
            _ => "备用",
        }
    } else {
        match control_code {
            0 => "认可",
            8 => "用户数据",
            9 => "否定：无所召唤数据",
            11 => "链路状态",
            _ => "备用",
        }
    }
}

impl FrameCsg {
    /// The fields of a control byte, its text, its direction bit and its start
    /// bit.
    pub fn get_control_code_str(control: u8, start_pos: usize) -> (r: (
        Vec<DecodedField>,
        String,
        u8,
        u8,
    ))
        requires
            start_pos + 7 <= usize::MAX,
        ensures
            fields_view(r.0@) == control_fields(control, start_pos as int),
            r.1@ == control_text(control),
            r.2 == (control >> 7) & 1,
            r.3 == (control >> 6) & 1,
    {
        let (dir, prm, acd, fcv) = Self::get_dir_prm(control);
        let control_code: u8 = control & 0x0f;
        let prm_str: &str = if prm == 1 { "来自启动站" } else { "来自从动站" };
        let sender: &str = if prm == 1 {
            if dir == 0 { "主站发送" } else { "终端上送" }
        } else {
            if dir == 0 { "主站响应" } else { "终端响应" }
        };
        let service = service_name(prm, control_code);
        let a = start_pos + 6;
        let b = start_pos + 7;
        let mut out: Vec<DecodedField> = Vec::new();
        let f1 = leaf(
            "D7传输方向位DIR".to_owned(),
            dec_to_string(dir as u64),
            (if dir == 0 { "主站发出的下行报文" } else { "终端发出的上行报文" }).to_owned(),
            a,
            b,
            None,
        );
        let f2 = leaf("D6启动标志位PRM".to_owned(), dec_to_string(prm as u64), prm_str.to_owned(), a, b, None);
        let f3 = leaf(
            "D5帧计数位FCB(下行)/要求访问位ACD(上行)".to_owned(),
            dec_to_string(acd as u64),
            (if fcv == 1 { "有效" } else { "无效" }).to_owned(),
            a,
            b,
            None,
        );
        let f4 = leaf(
            "D4帧计数有效位FCV(下行)/保留(上行)".to_owned(),
            dec_to_string(fcv as u64),
            (if fcv == 1 { "FCB位有效" } else { "FCB位无效" }).to_owned(),
            a,
            b,
            None,
        );
        let mut code_text = prm_str.to_owned();
        crate::text::push_char(&mut code_text, ':');
        push_str(&mut code_text, service);
        let f5 = leaf("D3~D0功能码".to_owned(), dec_to_string(control_code as u64), code_text, a, b, None);
        out.push(f1);
        out.push(f2);
        out.push(f3);
        out.push(f4);
        out.push(f5);
        assert(fields_view(out@) =~= seq![
            field_view(f1),
            field_view(f2),
            field_view(f3),
            field_view(f4),
            field_view(f5),
        ]);
        let mut text = sender.to_owned();
        push_str(&mut text, service);
        (out, text, dir, prm)
    }

    /// The fields of the seven address bytes, and the logical address.
    pub fn get_adress_result(adress: &[u8], index: usize) -> (r: (Vec<DecodedField>, String))
        requires
            adress@.len() >= 7,
            index + 7 <= usize::MAX,
        ensures
            fields_view(r.0@) == address_fields(adress@, index as int),
            r.1@ == address_text(adress@),
    {
        let a1 = slice_subrange(adress, 0, 3);
        let a2 = slice_subrange(adress, 3, 6);
        let a3 = adress[6];
        let a1_rev = FrameFun::get_data_str_reverser(a1);
        let a2_rev = FrameFun::get_data_str_reverser(a2);
        let mut d1 = String::new();
        push_str(&mut d1, "省地市区县码=");
        push_str(&mut d1, a1_rev.as_str());
        push_str(&mut d1, "省");
        push_hex_upper(&mut d1, a1[2]);
        push_str(&mut d1, ",地市");
        push_hex_upper(&mut d1, a1[1]);
        push_str(&mut d1, ",区县");
        push_hex_upper(&mut d1, a1[0]);
        assert(d1@ =~= "省地市区县码="@ + hex_concat(a1@.reverse()) + "省"@ + hex_upper(a1@[2])
            + ",地市"@ + hex_upper(a1@[1]) + ",区县"@ + hex_upper(a1@[0]));
        let f1 = leaf(
            "省地市区县码 A1".to_owned(),
            FrameFun::get_data_str_with_space(a1),
            d1,
            index,
            index + 3,
            None,
        );
        let mut d2 = String::new();
        push_str(&mut d2, "终端地址=");
        push_str(&mut d2, a2_rev.as_str());
        assert(d2@ =~= "终端地址="@ + hex_concat(a2@.reverse()));
        let f2 = leaf(
            "终端地址 A2".to_owned(),
            FrameFun::get_data_str_with_space(a2),
            d2,
            index + 3,
            index + 6,
            None,
        );
        let seq: u8 = a3 & 0xf0;
        let master: u8 = a3 & 0x0f;
        let mut s1 = String::new();
        push_str(&mut s1, "帧序号=");
        push_dec(&mut s1, seq as u64);
        assert(s1@ =~= "帧序号="@ + dec_string(seq as nat));
        let mut s2 = String::new();
        push_str(&mut s2, "主站地址=");
        push_dec(&mut s2, master as u64);
        assert(s2@ =~= "主站地址="@ + dec_string(master as nat));
        let k1 = leaf("D7~D4帧序号".to_owned(), dec_to_string(seq as u64), s1, index + 6, index + 7, None);
        let k2 = leaf(
            "D3~D0主站地址".to_owned(),
            dec_to_string(master as u64),
            s2,
            index + 6,
            index + 7,
            None,
        );
        let mut kids: Vec<DecodedField> = Vec::new();
        kids.push(k1);
        kids.push(k2);
        assert(fields_view(kids@) =~= seq![field_view(k1), field_view(k2)]);
        let f3 = DecodedField {
            frame_domain: "主站地址 A3".to_owned(),
            data: hex_of(a3),
            description: String::new(),
            start: index + 6,
            end: index + 7,
            color: None,
            children: Some(kids),
        };
        let mut out: Vec<DecodedField> = Vec::new();
        out.push(f1);
        out.push(f2);
        out.push(f3);
        assert(fields_view(out@) =~= seq![field_view(f1), field_view(f2), field_view(f3)]);
        let mut address = a1_rev;
        push_str(&mut address, a2_rev.as_str());
        (out, address)
    }

    /// Appends the fields of the head of a frame, and gives its direction bit and
    /// its start bit.
    pub fn analysic_csg_head_frame(
        frame: &[u8],
        result_list: &mut Vec<DecodedField>,
        start_pos: usize,
    ) -> (r: (u8, u8))
        requires
            frame@.len() >= 14,
            start_pos + frame@.len() <= usize::MAX,
        ensures
            fields_view(final(result_list)@) == fields_view(old(result_list)@) + head_fields(
                frame@,
                start_pos as int,
            ),
            r.0 == (frame@[6] >> 7) & 1,
            r.1 == (frame@[6] >> 6) & 1,
    {
        let length_data = slice_subrange(frame, 1, 5);
        let length: usize = (frame[2] as usize) * 256 + frame[1] as usize;
        let adress_data = slice_subrange(frame, 7, 14);
        let f1 = leaf("起始符".to_owned(), hex_of(frame[0]), "起始符".to_owned(), start_pos, start_pos + 1, None);
        let mut d = String::new();
        push_str(&mut d, "长度=");
        push_dec(&mut d, length as u64);
        push_str(&mut d, ",总长度=");
        push_dec(&mut d, (length + 8) as u64);
        push_str(&mut d, "(总长度=长度+8)");
        assert(d@ =~= "长度="@ + dec_string(length as nat) + ",总长度="@ + dec_string(
            (length + 8) as nat,
        ) + "(总长度=长度+8)"@);
        let f2 = leaf(
            "长度".to_owned(),
            FrameFun::get_data_str_with_space(length_data),
            d,
            start_pos + 1,
            start_pos + 5,
            None,
        );
        let f3 = leaf(
            "起始符".to_owned(),
            hex_of(frame[5]),
            "起始符".to_owned(),
            start_pos + 5,
            start_pos + 6,
            None,
        );
        let (control_result, result_str, dir, prm) = Self::get_control_code_str(frame[6], start_pos);
        let f4 = DecodedField {
            frame_domain: "控制域".to_owned(),
            data: hex_of(frame[6]),
            description: result_str,
            start: start_pos + 6,
            end: start_pos + 7,
            color: None,
            children: Some(control_result),
        };
        let (adress_result, ertu_adress) = Self::get_adress_result(adress_data, start_pos + 7);
        let mut a = String::new();
        push_str(&mut a, "终端逻辑地址");
        push_str(&mut a, ertu_adress.as_str());
        assert(a@ =~= "终端逻辑地址"@ + address_text(adress_data@));
        let f5 = DecodedField {
            frame_domain: "地址域".to_owned(),
            data: FrameFun::get_data_str_with_space(adress_data),
            description: a,
            start: start_pos + 7,
            end: start_pos + 14,
            color: None,
            children: Some(adress_result),
        };
        let ghost before = result_list@;
        result_list.push(f1);
        result_list.push(f2);
        result_list.push(f3);
        result_list.push(f4);
        result_list.push(f5);
        assert(fields_view(result_list@) =~= fields_view(before) + seq![
            field_view(f1),
            field_view(f2),
            field_view(f3),
            field_view(f4),
            field_view(f5),
        ]);
        (dir, prm)
    }

    /// Whether the checksum byte of a frame is the checksum of the bytes from the
    /// control byte up to it.
    pub fn is_frame_cs_valid(frame: &[u8]) -> (r: bool)
        requires
            frame@.len() >= 8,
        ensures
            r == checksum_valid(frame@, 6),
    {
        frame_cs_valid(frame, 6)
    }

    /// Appends the two fields for the end of a frame: the checksum, which covers
    /// the bytes from the control byte on, and the end byte.
    pub fn analyze_csg_end_frame(frame: &[u8], result_list: &mut Vec<DecodedField>, start_pos: usize)
        requires
            frame@.len() >= 8,
            start_pos + frame@.len() <= usize::MAX,
        ensures
            fields_view(final(result_list)@) == fields_view(old(result_list)@) + end_fields(
                frame@,
                start_pos as int,
                6,
                "校验码CS"@,
                "校验正确"@,
                "校验码错误，应为："@,
                "结束符"@,
                "结束符"@,
            ),
            final(result_list)@.len() == old(result_list)@.len() + 2,
            ({
                let n = frame@.len();
                let cs = final(result_list)@[old(result_list)@.len() as int];
                &&& cs.start == start_pos + n - 2
                &&& cs.end == start_pos + n - 1
                &&& (cs.description@ == "校验正确"@) == (frame@[n - 2] as nat == sum_bytes(
                    frame@.subrange(6, n - 2),
                ) % 256)
            }),
    {
        proof {
            reveal_strlit("校验正确");
            reveal_strlit("校验码错误，应为：");
        }
        push_end_fields(
            frame,
            result_list,
            start_pos,
            6,
            "校验码CS",
            "校验正确",
            "校验码错误，应为：",
            "结束符",
            "结束符",
        );
    }
}

/// The name of a function code of the application layer.
pub open spec fn afn_text(afn: u8) -> Seq<char> {
    if afn == 0x00 {
        "确认/否定"@
    } else if afn == 0x02 {
        "链路接口检测"@
    } else if afn == 0x04 {
        "写参数"@
    } else if afn == 0x06 {
        "安全认证"@
    } else if afn == 0x0A {
        "读参数"@
    } else if afn == 0x0C {
        "读当前数据"@
    } else if afn == 0x0D {
        "读历史数据"@
    } else if afn == 0x0E {
        "读事件记录"@
    } else if afn == 0x0F {
        "文件传输"@
    } else if afn == 0x10 {
        "中继转发"@
    } else if afn == 0x12 {
        "读任务数据"@
    } else if afn == 0x13 {
        "读告警数据"@
    } else if afn == 0x14 {
        "级联命令"@
    } else if afn == 0x15 {
        "用户自定义数据"@
    } else if afn == 0x16 {
        "数据安全传输"@
    } else if afn == 0x17 {
        "数据转加密"@
    } else if afn == 0x23 {
        "主站中转报文"@
    } else {
        "备用"@
    }
}

/// What the first-frame bit says, given the last-frame bit.
pub open spec fn fir_text(fir: u8, fin: u8) -> Seq<char> {
    if fir == 0 && fin == 0 {
        "当前帧为多帧：中间帧"@
    } else if fir == 0 && fin == 1 {
        "当前帧为多帧：结束帧"@
    } else if fir == 1 && fin == 0 {
        "当前帧为多帧：第一帧"@
    } else {
        "当前帧为单帧：第一帧"@
    }
}

/// What the last-frame bit says, given the first-frame bit.
pub open spec fn fin_text(fir: u8, fin: u8) -> Seq<char> {
    if fir == 0 && fin == 0 {
        "当前帧为多帧：中间帧"@
    } else if fir == 0 && fin == 1 {
        "当前帧为最后一帧：结束帧"@
    } else if fir == 1 && fin == 0 {
        "当前帧为多帧：有后续帧"@
    } else {
        "当前帧为单帧：最后一帧"@
    }
}

/// The place of a frame in a run of frames.
pub open spec fn seq_text(fir: u8, fin: u8) -> Seq<char> {
    if fir == 0 && fin == 0 {
        "多帧：中间帧"@
    } else if fir == 0 && fin == 1 {
        "多帧：结束帧"@
    } else if fir == 1 && fin == 0 {
        "多帧：第一帧"@
    } else {
        "单帧：最后一帧"@
    }
}

/// The fields of the function code and the sequence byte: the function code by
/// name, and the sequence byte with its four flags and the sequence number
/// below it.
pub open spec fn afn_seq_fields(data: Seq<u8>, index: int) -> Seq<FieldView> {
    let afn = data[0];
    let seq = data[1];
    let tpv = (seq >> 7) & 1;
    let fir = (seq >> 6) & 1;
    let fin = (seq >> 5) & 1;
    let con = (seq >> 4) & 1;
    let pseq = seq & 0x0f;
    seq![
        leaf_field("应用层功能码AFN"@, hex_upper(afn), afn_text(afn), index, index + 1, None),
        FieldView {
            frame_domain: "命令序号SEQ"@,
            data: hex_upper(seq),
            description: seq_text(fir, fin),
            start: index + 1,
            end: index + 2,
            color: None,
            children: Some(
                seq![
                    leaf_field(
                        "D7帧时间标签有效位TpV"@,
                        dec_string(tpv as nat),
                        if tpv == 0 { "帧末尾无时间标签Tp"@ } else { "帧末尾带有时间标签Tp"@ },
                        index + 1,
                        index + 2,
                        None,
                    ),
                    leaf_field(
                        "D6首帧标志FIR"@,
                        dec_string(fir as nat),
                        fir_text(fir, fin),
                        index + 1,
                        index + 2,
                        None,
                    ),
                    leaf_field(
                        "D5首帧标志FIN"@,
                        dec_string(fin as nat),
                        fin_text(fir, fin),
                        index + 1,
                        index + 2,
                        None,
                    ),
                    leaf_field(
                        "D4首帧标志CON"@,
                        dec_string(con as nat),
                        if con == 1 { "需要对该帧报文进行确认"@ } else { "不需要对该帧报文进行确认"@ },
                        index + 1,
                        index + 2,
                        None,
                    ),
                    leaf_field(
                        "D3~D0帧内序号"@,
                        dec_string(pseq as nat),
                        "帧内序号="@ + dec_string(pseq as nat),
                        index + 1,
                        index + 2,
                        None,
                    ),
                ],
            ),
        },
    ]
}

/// The name of a function code of the application layer.
pub fn afn_name(afn: u8) -> (r: &'static str)
    ensures
        r@ == afn_text(afn),
{
    match afn {
        0x00 => "确认/否定",
        0x02 => "链路接口检测",
        0x04 => "写参数",
        0x06 => "安全认证",
        0x0A => "读参数",
        0x0C => "读当前数据",
        0x0D => "读历史数据",
        0x0E => "读事件记录",
        0x0F => "文件传输",
        0x10 => "中继转发",
        0x12 => "读任务数据",
        0x13 => "读告警数据",
        0x14 => "级联命令",
        0x15 => "用户自定义数据",
        0x16 => "数据安全传输",
        0x17 => "数据转加密",
        0x23 => "主站中转报文",
        _ => "备用",
    }
}

impl FrameCsg {
    /// Appends the fields of the function code and the sequence byte, and tells
    /// whether the frame carries a time label.
    pub fn get_afn_and_seq_result(data: &[u8], index: usize, result_list: &mut Vec<DecodedField>) -> (r:
        bool)
        requires
            data@.len() >= 2,
            index + 2 <= usize::MAX,
        ensures
            fields_view(final(result_list)@) == fields_view(old(result_list)@) + afn_seq_fields(
                data@,
                index as int,
            ),
            r == ((data@[1] >> 7) & 1 == 1),
    {
        let afn = data[0];
        let seq = data[1];
        let (tpv, fir, fin, con) = Self::get_dir_prm(seq);
        let pseq: u8 = seq & 0x0f;
        let a = index + 1;
        let b = index + 2;
        let fir_str: &str = if fir == 0 && fin == 0 {
            "当前帧为多帧：中间帧"
        } else if fir == 0 && fin == 1 {
            "当前帧为多帧：结束帧"
        } else if fir == 1 && fin == 0 {
            "当前帧为多帧：第一帧"
        } else {
            "当前帧为单帧：第一帧"
        };
        let fin_str: &str = if fir == 0 && fin == 0 {
            "当前帧为多帧：中间帧"
        } else if fir == 0 && fin == 1 {
            "当前帧为最后一帧：结束帧"
        } else if fir == 1 && fin == 0 {
            "当前帧为多帧：有后续帧"
        } else {
            "当前帧为单帧：最后一帧"
        };
        let seq_str: &str = if fir == 0 && fin == 0 {
            "多帧：中间帧"
        } else if fir == 0 && fin == 1 {
            "多帧：结束帧"
        } else if fir == 1 && fin == 0 {
            "多帧：第一帧"
        } else {
            "单帧：最后一帧"
        };
        let k1 = leaf(
            "D7帧时间标签有效位TpV".to_owned(),
            dec_to_string(tpv as u64),
            (if tpv == 0 { "帧末尾无时间标签Tp" } else { "帧末尾带有时间标签Tp" }).to_owned(),
            a,
            b,
            None,
        );
        let k2 = leaf("D6首帧标志FIR".to_owned(), dec_to_string(fir as u64), fir_str.to_owned(), a, b, None);
        let k3 = leaf("D5首帧标志FIN".to_owned(), dec_to_string(fin as u64), fin_str.to_owned(), a, b, None);
        let k4 = leaf(
            "D4首帧标志CON".to_owned(),
            dec_to_string(con as u64),
            (if con == 1 { "需要对该帧报文进行确认" } else { "不需要对该帧报文进行确认" }).to_owned(),
            a,
            b,
            None,
        );
        let mut p = String::new();
        push_str(&mut p, "帧内序号=");
        push_dec(&mut p, pseq as u64);
        assert(p@ =~= "帧内序号="@ + dec_string(pseq as nat));
        let k5 = leaf("D3~D0帧内序号".to_owned(), dec_to_string(pseq as u64), p, a, b, None);
        let mut kids: Vec<DecodedField> = Vec::new();
        kids.push(k1);
        kids.push(k2);
        kids.push(k3);
        kids.push(k4);
        kids.push(k5);
        assert(fields_view(kids@) =~= seq![
            field_view(k1),
            field_view(k2),
            field_view(k3),
            field_view(k4),
            field_view(k5),
        ]);
        let f1 = leaf(
            "应用层功能码AFN".to_owned(),
            hex_of(afn),
            afn_name(afn).to_owned(),
            index,
            index + 1,
            None,
        );
        let f2 = DecodedField {
            frame_domain: "命令序号SEQ".to_owned(),
            data: hex_of(seq),
            description: seq_str.to_owned(),
            start: a,
            end: b,
            color: None,
            children: Some(kids),
        };
        let ghost before = result_list@;
        result_list.push(f1);
        result_list.push(f2);
        assert(fields_view(result_list@) =~= fields_view(before) + seq![
            field_view(f1),
            field_view(f2),
        ]);
        tpv == 1
    }
}

} // verus!
