//! The frames of the DLT/645 protocol: their recognition and their fields.

use vstd::prelude::*;
use vstd::string::*;
use vstd::slice::*;
use crate::decoded::{duplicate_fields, field_view, fields_view, DecodedField, FieldView};
use crate::frame_csg::{end_fields, hex_of, push_end_fields, recalculated_length, FrameCsg};
use crate::frame_fun::{
    all_equal, fe_count, freeze_text, reversed, strip33, sub33, sum_bytes, time_text, FrameFun,
};
use crate::protocol::{
    decoded_item, leaf_field, lemma_fields_view_concat, lemma_fields_view_push, lookup_item,
    query_of, FrameAnalisyic, Query, DECODE_DEPTH,
};
use crate::text::{
    dec_string, hex_char_upper, hex_concat, hex_digit_upper, hex_spaced, hex_upper, push_char,
    push_dec, push_hex_upper, push_str,
};
use crate::builders::{branch, branch_field, bytes_field, bytes_field_of, join, plain};
use crate::xmlconfig::{opt_element_view, ElementView, ProtocolConfigManager, XmlElement};

verus! {

/// Whether bytes are a DLT/645 frame: behind the leading `FE` bytes a start byte
/// `68`, a second one seven bytes later, a length byte two bytes behind that which
/// accounts for all bytes, and the end byte `16`.
pub open spec fn is_dlt645(data: Seq<u8>) -> bool {
    let p = fe_count(data) as int;
    data.len() >= 12 && p + 9 < data.len() && data[p] == 0x68 && data[data.len() - 1] == 0x16
        && data[p + 7] == 0x68 && data.len() == data[p + 9] + 12 + p
}

/// The frames of the DLT/645 protocol.
pub struct Frame645;

impl Frame645 {
    /// Whether bytes are a DLT/645 frame.
    pub fn is_dlt645_frame(data: &[u8]) -> (r: bool)
        ensures
            r == is_dlt645(data@),
    {
        let n = data.len();
        if n < 12 {
            return false;
        }
        let position = FrameFun::get_frame_fe_count(data);
        if n - position <= 9 {
            return false;
        }
        if data[position] != 0x68 || data[n - 1] != 0x16 || data[7 + position] != 0x68 {
            return false;
        }
        let data_length = data[position + 9];
        n - position >= 12 && n - position - 12 == data_length as usize
    }
}

impl Frame645 {
    /// Appends the two fields for the end of a frame: the checksum, which covers
    /// all bytes before it, and the end byte.
    pub fn analysic_end_frame(frame: &[u8], result_list: &mut Vec<DecodedField>, indx: usize)
        requires
            frame@.len() >= 2,
            indx + frame@.len() <= usize::MAX,
        ensures
            fields_view(final(result_list)@) == fields_view(old(result_list)@) + end_fields(
                frame@,
                indx as int,
                0,
                "校验码"@,
                "电表规约报文校验码正确"@,
                "电表规约校验码错误，应为："@,
                "结束符"@,
                "电表规约报文结束符"@,
            ),
            final(result_list)@.len() == old(result_list)@.len() + 2,
            ({
                let n = frame@.len();
                let cs = final(result_list)@[old(result_list)@.len() as int];
                &&& cs.start == indx + n - 2
                &&& cs.end == indx + n - 1
                &&& (cs.description@ == "电表规约报文校验码正确"@) == (frame@[n - 2] as nat == sum_bytes(
                    frame@.subrange(0, n - 2),
                ) % 256)
            }),
    {
        proof {
            reveal_strlit("电表规约报文校验码正确");
            reveal_strlit("电表规约校验码错误，应为：");
        }
        push_end_fields(
            frame,
            result_list,
            indx,
            0,
            "校验码",
            "电表规约报文校验码正确",
            "电表规约校验码错误，应为：",
            "结束符",
            "电表规约报文结束符",
        );
    }
}

/// What is said of the data of every frame.
pub open spec fn area_text() -> Seq<char> {
    "数据域传输时按字节进行加33H处理，接收后应按字节减33H处理"@
}

/// The field for the data of a frame, with the fields of the data below it.
pub open spec fn data_area(children: Seq<FieldView>, start: int, end: int) -> FieldView {
    branch_field("数据域"@, Seq::empty(), area_text(), start, end, children)
}

/// The field for the data of a frame.
pub fn data_area_of(children: Vec<DecodedField>, start: usize, end: usize) -> (r: DecodedField)
    ensures
        field_view(r) == data_area(fields_view(children@), start as int, end as int),
{
    branch(
        "数据域",
        String::new(),
        "数据域传输时按字节进行加33H处理，接收后应按字节减33H处理".to_owned(),
        start,
        end,
        children,
    )
}

/// The bytes in hexadecimal, last byte first, the wire offset taken off.
pub open spec fn plain_hex(s: Seq<u8>) -> Seq<char> {
    hex_concat(strip33(s).reverse())
}

/// The five low bits of a control code as a number, the lowest bit counting
/// most.
pub open spec fn function_code(control: u8) -> u8 {
    ((control & 1) << 4) | (((control >> 1) & 1) << 3) | (((control >> 2) & 1) << 2) | (((control
        >> 3) & 1) << 1) | ((control >> 4) & 1)
}

/// The name of a function code.
pub open spec fn function_text(code: u8) -> Seq<char> {
    if code == 0 {
        "保留"@
    } else if code == 8 {
        "广播校时"@
    } else if code == 17 {
        "读数据"@
    } else if code == 18 {
        "读后续数据"@
    } else if code == 19 {
        "读通信地址"@
    } else if code == 20 {
        "写数据"@
    } else if code == 21 {
        "写通信地址"@
    } else if code == 22 {
        "冻结命令"@
    } else if code == 23 {
        "更改通信速率"@
    } else if code == 24 {
        "修改密码"@
    } else if code == 25 {
        "最大需量清零"@
    } else if code == 26 {
        "电表清零"@
    } else if code == 27 {
        "事件清零"@
    } else {
        "未知"@
    }
}

/// The name of a function code.
pub fn function_name(code: u8) -> (r: &'static str)
    ensures
        r@ == function_text(code),
{
    match code {
        0 => "保留",
        8 => "广播校时",
        17 => "读数据",
        18 => "读后续数据",
        19 => "读通信地址",
        20 => "写数据",
        21 => "写通信地址",
        22 => "冻结命令",
        23 => "更改通信速率",
        24 => "修改密码",
        25 => "最大需量清零",
        26 => "电表清零",
        27 => "事件清零",
        _ => "未知",
    }
}

/// A number in hexadecimal without a leading zero.
pub open spec fn short_hex(v: u8) -> Seq<char> {
    if v < 16 { seq![hex_char_upper(v as int)] } else { hex_upper(v) }
}

/// A number in hexadecimal without a leading zero.
pub fn short_hex_of(v: u8) -> (r: String)
    ensures
        r@ == short_hex(v),
{
    let mut out = String::new();
    if v < 16 {
        push_char(&mut out, hex_digit_upper(v));
        assert(out@ =~= seq![hex_char_upper(v as int)]);
    } else {
        push_hex_upper(&mut out, v);
        assert(out@ =~= hex_upper(v));
    }
    out
}

/// The field of one bit of the control code.
pub open spec fn control_bit_field(label: Seq<char>, bit: u8, text: Seq<char>, at: int) -> FieldView {
    leaf_field(label, dec_string(bit as nat), text, at + 8, at + 9, None)
}

/// The fields below the control code: its three high bits and its function code.
pub open spec fn control_fields(control: u8, at: int) -> Seq<FieldView> {
    let d7 = (control >> 7) & 1;
    let d6 = (control >> 6) & 1;
    let d5 = (control >> 5) & 1;
    let code = function_code(control);
    seq![
        control_bit_field(
            "D7传送反向"@,
            d7,
            if d7 == 1 { "主站发出的命令帧"@ } else { "从站发出的应答帧"@ },
            at,
        ),
        control_bit_field(
            "D6传送反向"@,
            d6,
            if d6 == 0 { "从站正常应答"@ } else { "从站异常应答"@ },
            at,
        ),
        control_bit_field(
            "D5传送反向"@,
            d5,
            if d5 == 0 { "无后续数据帧"@ } else { "有后续数据帧"@ },
            at,
        ),
        leaf_field("D0~D4功能码"@, short_hex(code), function_text(code), at + 8, at + 9, None),
    ]
}

/// What is said of a start byte.
pub open spec fn start_text() -> Seq<char> {
    "电表规约：标识一帧信息的开始"@
}

/// The fields for the head of a frame that starts at `at`: the start byte, the
/// address, the second start byte, the control code and the length of the data.
#[verifier::opaque]
pub open spec fn head_fields_at(f: Seq<u8>, at: int) -> Seq<FieldView> {
    let control = f[8];
    let code = function_code(control);
    seq![
        leaf_field("帧起始符"@, hex_upper(f[0]), start_text(), at, at + 1, None),
        leaf_field(
            "地址域"@,
            hex_spaced(f.subrange(1, 7)),
            "电表通信地址："@ + hex_concat(f.subrange(1, 7).reverse()),
            at + 1,
            at + 7,
            None,
        ),
        leaf_field("帧起始符"@, hex_upper(f[7]), start_text(), at + 7, at + 8, None),
        branch_field(
            "控制码"@,
            hex_upper(control),
            (if (control >> 7) & 1 == 1 { "主站请求："@ } else { "电表返回："@ }) + function_text(code),
            at + 8,
            at + 9,
            control_fields(control, at),
        ),
        leaf_field(
            "数据长度"@,
            hex_upper(f[9]),
            "长度="@ + dec_string(f[9] as nat) + ", 总长度="@ + dec_string((f[9] + 12) as nat)
                + "(总长度=长度+12)"@,
            at + 9,
            at + 10,
            None,
        ),
    ]
}

/// The fields for the head of a frame: the wake-up bytes where it has some, and
/// the head of the frame behind them.
pub open spec fn meter_head_fields(frame: Seq<u8>, indx: int) -> Seq<FieldView> {
    let pos = fe_count(frame) as int;
    let rest = head_fields_at(frame.skip(pos), indx + pos);
    if pos != 0 {
        seq![
            leaf_field(
                "唤醒符"@,
                hex_spaced(frame.take(pos)),
                "电表规约：电能表唤醒符"@,
                indx,
                indx + pos,
                None,
            ),
        ] + rest
    } else {
        rest
    }
}

/// The fields below the control code.
pub fn control_fields_of(control: u8, at: usize) -> (r: Vec<DecodedField>)
    requires
        at + 9 <= usize::MAX,
    ensures
        fields_view(r@) == control_fields(control, at as int),
{
    let d7 = (control >> 7) & 1;
    let d6 = (control >> 6) & 1;
    let d5 = (control >> 5) & 1;
    let code = ((control & 1) << 4) | (((control >> 1) & 1) << 3) | (((control >> 2) & 1) << 2) | (((
    control >> 3) & 1) << 1) | ((control >> 4) & 1);
    let mut t7 = String::new();
    push_dec(&mut t7, d7 as u64);
    let mut t6 = String::new();
    push_dec(&mut t6, d6 as u64);
    let mut t5 = String::new();
    push_dec(&mut t5, d5 as u64);
    assert(t7@ =~= dec_string(d7 as nat));
    assert(t6@ =~= dec_string(d6 as nat));
    assert(t5@ =~= dec_string(d5 as nat));
    let f7 = plain(
        "D7传送反向",
        t7,
        (if d7 == 1 { "主站发出的命令帧" } else { "从站发出的应答帧" }).to_owned(),
        at + 8,
        at + 9,
    );
    let f6 = plain(
        "D6传送反向",
        t6,
        (if d6 == 0 { "从站正常应答" } else { "从站异常应答" }).to_owned(),
        at + 8,
        at + 9,
    );
    let f5 = plain(
        "D5传送反向",
        t5,
        (if d5 == 0 { "无后续数据帧" } else { "有后续数据帧" }).to_owned(),
        at + 8,
        at + 9,
    );
    let fc = plain("D0~D4功能码", short_hex_of(code), function_name(code).to_owned(), at + 8, at + 9);
    let mut out: Vec<DecodedField> = Vec::new();
    out.push(f7);
    out.push(f6);
    out.push(f5);
    out.push(fc);
    assert(fields_view(out@) =~= seq![field_view(f7), field_view(f6), field_view(f5), field_view(fc)]);
    out
}

impl Frame645 {
    /// Appends the fields for the head of a frame, and gives the number of
    /// wake-up bytes before it and the highest bit of its control code.
    pub fn analysic_head_frame(frame: &[u8], result_list: &mut Vec<DecodedField>, indx: usize) -> (r: (
        usize,
        u8,
    ))
        requires
            fe_count(frame@) + 10 <= frame@.len(),
            indx + frame@.len() <= usize::MAX,
        ensures
            r.0 == fe_count(frame@),
            r.1 == (frame@[fe_count(frame@) as int + 8] >> 7) & 1,
            fields_view(final(result_list)@) == fields_view(old(result_list)@) + meter_head_fields(
                frame@,
                indx as int,
            ),
    {
        reveal(head_fields_at);
        let ghost before = result_list@;
        let n = frame.len();
        let pos = FrameFun::get_frame_fe_count(frame);
        let f = slice_subrange(frame, pos, n);
        assert(f@ =~= frame@.skip(pos as int));
        let at = indx + pos;
        let control = f[8];
        let code = ((control & 1) << 4) | (((control >> 1) & 1) << 3) | (((control >> 2) & 1) << 2)
            | (((control >> 3) & 1) << 1) | ((control >> 4) & 1);
        let address = slice_subrange(f, 1, 7);
        let mut out: Vec<DecodedField> = Vec::new();
        let ghost mut wake: Seq<FieldView> = Seq::empty();
        if pos != 0 {
            let head = slice_subrange(frame, 0, pos);
            assert(head@ =~= frame@.take(pos as int));
            let w = plain(
                "唤醒符",
                FrameFun::get_data_str_with_space(head),
                "电表规约：电能表唤醒符".to_owned(),
                indx,
                at,
            );
            out.push(w);
            proof {
                wake = seq![field_view(w)];
            }
        }
        assert(fields_view(out@) =~= wake);
        let s1 = plain("帧起始符", hex_of(f[0]), "电表规约：标识一帧信息的开始".to_owned(), at, at + 1);
        let a = plain(
            "地址域",
            FrameFun::get_data_str_with_space(address),
            join("电表通信地址：", FrameFun::get_data_str_reverser(address).as_str()),
            at + 1,
            at + 7,
        );
        let s2 = plain(
            "帧起始符",
            hex_of(f[7]),
            "电表规约：标识一帧信息的开始".to_owned(),
            at + 7,
            at + 8,
        );
        let c = branch(
            "控制码",
            hex_of(control),
            join(if (control >> 7) & 1 == 1 { "主站请求：" } else { "电表返回：" }, function_name(code)),
            at + 8,
            at + 9,
            control_fields_of(control, at),
        );
        let mut t = String::new();
        push_str(&mut t, "长度=");
        push_dec(&mut t, f[9] as u64);
        push_str(&mut t, ", 总长度=");
        push_dec(&mut t, f[9] as u64 + 12);
        push_str(&mut t, "(总长度=长度+12)");
        assert(t@ =~= "长度="@ + dec_string(f[9] as nat) + ", 总长度="@ + dec_string((f[9] + 12) as nat)
            + "(总长度=长度+12)"@);
        let l = plain("数据长度", hex_of(f[9]), t, at + 9, at + 10);
        out.push(s1);
        out.push(a);
        out.push(s2);
        out.push(c);
        out.push(l);
        assert(fields_view(out@) =~= wake + seq![
            field_view(s1),
            field_view(a),
            field_view(s2),
            field_view(c),
            field_view(l),
        ]);
        proof {
            lemma_fields_view_concat(before, out@);
            assert(seq![
                field_view(s1),
                field_view(a),
                field_view(s2),
                field_view(c),
                field_view(l),
            ] =~= head_fields_at(frame@.skip(pos as int), at as int));
            assert(Seq::<FieldView>::empty() + head_fields_at(frame@.skip(pos as int), at as int)
                =~= head_fields_at(frame@.skip(pos as int), at as int));
        }
        result_list.append(&mut out);
        (pos, (control >> 7) & 1)
    }
}

/// The text for four bytes of a password: the level in the first byte and the
/// password in the three behind it.
pub open spec fn password_text(frame: Seq<u8>, from: int, level: Seq<char>, word: Seq<char>) -> Seq<
    char,
> {
    level + hex_upper(sub33(frame[from])) + word + plain_hex(frame.subrange(from + 1, from + 4))
}

/// The text for four bytes of a password.
pub fn password_text_of(frame: &[u8], from: usize, level: &str, word: &str) -> (r: String)
    requires
        from + 4 <= frame@.len(),
    ensures
        r@ == password_text(frame@, from as int, level@, word@),
{
    let mut out = String::new();
    push_str(&mut out, level);
    push_hex_upper(&mut out, frame[from].wrapping_sub(0x33));
    push_str(&mut out, word);
    let shown = FrameFun::get_data_str_delete_33h_reverse(slice_subrange(frame, from + 1, from + 4));
    push_str(&mut out, shown.as_str());
    assert(out@ =~= password_text(frame@, from as int, level@, word@));
    out
}

/// A heading and the bytes of a frame from `from` to `to` behind it, in
/// hexadecimal, last byte first, the wire offset taken off.
pub open spec fn headed_hex(frame: Seq<u8>, heading: Seq<char>, from: int, to: int) -> Seq<char> {
    heading + plain_hex(frame.subrange(from, to))
}

/// A heading and the bytes of a frame behind it.
pub fn headed_hex_of(frame: &[u8], heading: &str, from: usize, to: usize) -> (r: String)
    requires
        from <= to <= frame@.len(),
    ensures
        r@ == headed_hex(frame@, heading@, from as int, to as int),
{
    join(heading, FrameFun::get_data_str_delete_33h_reverse(slice_subrange(frame, from, to)).as_str())
}

/// The fields for the password and the code of the operator in the eight bytes
/// from the tenth on.
pub open spec fn authority_fields(frame: Seq<u8>, indx: int) -> Seq<FieldView> {
    seq![
        bytes_field(frame, indx, "密码权限"@, password_text(frame, 10, "权限："@, " 密码："@), 10, 14),
        bytes_field(frame, indx, "操作者代码"@, headed_hex(frame, "操作者代码："@, 14, 18), 14, 18),
    ]
}

/// The fields for the password and the code of the operator.
pub fn authority_fields_of(frame: &[u8], indx: usize) -> (r: Vec<DecodedField>)
    requires
        frame@.len() >= 18,
        indx + frame@.len() <= usize::MAX,
    ensures
        fields_view(r@) == authority_fields(frame@, indx as int),
{
    let p = bytes_field_of(
        frame,
        indx,
        "密码权限",
        password_text_of(frame, 10, "权限：", " 密码："),
        10,
        14,
    );
    let o = bytes_field_of(frame, indx, "操作者代码", headed_hex_of(frame, "操作者代码：", 14, 18), 14, 18);
    let mut out: Vec<DecodedField> = Vec::new();
    out.push(p);
    out.push(o);
    assert(fields_view(out@) =~= seq![field_view(p), field_view(o)]);
    out
}

/// What an error word says: the first of its bits from the second lowest up that
/// is set.
pub open spec fn error_text(v: u8) -> Seq<char> {
    if (v >> 1) & 1 == 1 {
        "无请求数据"@
    } else if (v >> 2) & 1 == 1 {
        "密码错误/未授权"@
    } else if (v >> 3) & 1 == 1 {
        "通信速率不能更改"@
    } else if (v >> 4) & 1 == 1 {
        "年时区数超"@
    } else if (v >> 5) & 1 == 1 {
        "时段数超"@
    } else if (v >> 6) & 1 == 1 {
        "费率数超"@
    } else if v != 0 {
        "其他错误"@
    } else {
        Seq::empty()
    }
}

/// The field of an answer that reports an error.
pub open spec fn read_err_field(frame: Seq<u8>, indx: int) -> FieldView {
    leaf_field(
        "错误信息字"@,
        hex_upper(frame[10]),
        "错误类型: "@ + error_text(sub33(frame[10])),
        indx + 10,
        indx + frame.len() - 2,
        None,
    )
}

/// The field of an answer to written data.
pub open spec fn write_replay_field(frame: Seq<u8>, indx: int) -> FieldView {
    let n = frame.len() as int;
    leaf_field(
        "写数据应答"@,
        hex_upper(frame[n - 3]),
        if frame[n - 3] != 0 { "写数据错误"@ } else { "正常应答"@ },
        indx + n - 3,
        indx + n - 2,
        None,
    )
}

/// The field for data of six bytes under a heading.
pub open spec fn six_byte_area(frame: Seq<u8>, indx: int, text: Seq<char>) -> FieldView {
    data_area(seq![bytes_field(frame, indx, "数据内容"@, text, 10, 16)], indx + 10, indx + 16)
}

/// The field for the data of a freeze command.
pub open spec fn frozen_time_area(frame: Seq<u8>, indx: int) -> FieldView {
    let n = frame.len() as int;
    let time = frame.subrange(10, 14);
    data_area(
        seq![
            leaf_field(
                "数据内容"@,
                hex_spaced(time),
                "冻结命令："@ + plain_hex(time) + " 表示冻结时间为："@ + freeze_text(
                    strip33(time).reverse(),
                ),
                indx + 10,
                indx + n - 2,
                None,
            ),
        ],
        indx + 10,
        indx + n - 2,
    )
}

/// Whether at most one bit of a byte is set.
pub open spec fn one_bit(v: u8) -> bool {
    v & ((v as int + 255) % 256) as u8 == 0
}

/// The communication rate that a characteristic word names.
pub open spec fn rate_text(v: u8) -> Seq<char> {
    if !one_bit(v) {
        "特征字错误(多个bit位为1)"@
    } else if v & 1 == 1 || (v >> 7) & 1 == 1 {
        "保留"@
    } else if (v >> 1) & 1 == 1 {
        "600bps"@
    } else if (v >> 2) & 1 == 1 {
        "1200bps"@
    } else if (v >> 3) & 1 == 1 {
        "2400bps"@
    } else if (v >> 4) & 1 == 1 {
        "4800bps"@
    } else if (v >> 5) & 1 == 1 {
        "9600bps"@
    } else if (v >> 6) & 1 == 1 {
        "19200bps"@
    } else {
        Seq::empty()
    }
}

/// The field for the data of a change of the communication rate.
pub open spec fn baud_rate_area(frame: Seq<u8>, indx: int) -> FieldView {
    let v = sub33(frame[10]);
    data_area(
        seq![
            leaf_field(
                "数据内容"@,
                hex_upper(v),
                "通信速率特征字："@ + hex_upper(v) + " 通信速率："@ + rate_text(v),
                indx + 10,
                indx + 11,
                None,
            ),
        ],
        indx + 10,
        indx + frame.len() - 2,
    )
}

/// The field for the data of a change of the password.
pub open spec fn write_password_area(frame: Seq<u8>, indx: int) -> FieldView {
    let n = frame.len() as int;
    data_area(
        seq![
            branch_field(
                "数据内容"@,
                hex_spaced(frame.subrange(10, n - 2)),
                "密码设置"@,
                indx + 14,
                indx + 22,
                seq![
                    bytes_field(frame, indx, "数据标识编码"@, headed_hex(frame, "数据标识["@, 10, 14) + "]"@, 10, 14),
                    bytes_field(
                        frame,
                        indx,
                        "原密码及权限"@,
                        password_text(frame, 14, "原密码权限："@, " 原密码："@),
                        14,
                        18,
                    ),
                    bytes_field(
                        frame,
                        indx,
                        "新密码及权限"@,
                        password_text(frame, 18, "新密码权限："@, " 新密码："@),
                        18,
                        22,
                    ),
                ],
            ),
        ],
        indx + 10,
        indx + n - 2,
    )
}

/// The field for the data of an answer to a change of the password.
pub open spec fn write_password_response_area(frame: Seq<u8>, indx: int) -> FieldView {
    let n = frame.len() as int;
    data_area(
        seq![
            branch_field(
                "数据内容"@,
                hex_spaced(frame.subrange(10, n - 2)),
                "密码设置"@,
                indx + 10,
                indx + 14,
                seq![
                    bytes_field(
                        frame,
                        indx,
                        "新密码及权限"@,
                        password_text(frame, 10, "新密码权限："@, " 新密码："@),
                        10,
                        14,
                    ),
                ],
            ),
        ],
        indx + 10,
        indx + n - 2,
    )
}

/// The field for the data of a reset of the maximum demand.
pub open spec fn maximum_demand_reset_area(frame: Seq<u8>, indx: int) -> FieldView {
    let n = frame.len() as int;
    data_area(
        seq![
            branch_field(
                "数据内容"@,
                hex_spaced(frame.subrange(10, n - 2)),
                "最大需量清零"@,
                indx + 10,
                indx + n - 2,
                authority_fields(frame, indx),
            ),
        ],
        indx + 10,
        indx + n - 2,
    )
}

/// The field for the data of a reset of the meter.
pub open spec fn meter_reset_area(frame: Seq<u8>, indx: int) -> FieldView {
    let n = frame.len() as int;
    data_area(
        seq![
            branch_field(
                "数据内容"@,
                hex_spaced(frame.subrange(10, n - 2)),
                "电表清零"@,
                indx + 10,
                indx + 18,
                authority_fields(frame, indx),
            ),
        ],
        indx + 10,
        indx + 18,
    )
}

/// The field for the data of a reset of events: of all events where the four
/// bytes that name them are all `32`, else of one kind of event.
pub open spec fn event_reset_area(frame: Seq<u8>, indx: int) -> FieldView {
    let n = frame.len() as int;
    data_area(
        seq![
            branch_field(
                "数据内容"@,
                hex_spaced(frame.subrange(10, n - 2)),
                "事件清零"@,
                indx + 10,
                indx + 22,
                authority_fields(frame, indx).push(
                    bytes_field(
                        frame,
                        indx,
                        "事件清零类型"@,
                        headed_hex(frame, "事件清零：["@, 18, 22) + "] - "@ + (if all_equal(
                            frame.subrange(18, 22),
                            0x32,
                        ) {
                            "事件总清零"@
                        } else {
                            "分项事件清零"@
                        }),
                        18,
                        22,
                    ),
                ),
            ),
        ],
        indx + 10,
        indx + n - 2,
    )
}

/// The field for data that is shown as it is.
pub open spec fn invalid_area(frame: Seq<u8>, indx: int) -> FieldView {
    let n = frame.len() as int;
    data_area(
        seq![bytes_field(frame, indx, "数据内容"@, headed_hex(frame, "数据域数据："@, 10, n - 2), 10, n - 2)],
        indx + 10,
        indx + n - 2,
    )
}

/// Appends the field for the data of a frame with one field below it.
pub fn push_area(result_list: &mut Vec<DecodedField>, inner: DecodedField, start: usize, end: usize)
    ensures
        fields_view(final(result_list)@) == fields_view(old(result_list)@).push(
            data_area(seq![field_view(inner)], start as int, end as int),
        ),
{
    let mut data_list: Vec<DecodedField> = Vec::new();
    data_list.push(inner);
    assert(fields_view(data_list@) =~= seq![field_view(inner)]);
    let area = data_area_of(data_list, start, end);
    proof {
        lemma_fields_view_push(result_list@, area);
    }
    result_list.push(area);
}

impl Frame645 {
    /// Appends the field of an answer that reports an error.
    pub fn analysic_read_err_frame(
        frame: &[u8],
        result_list: &mut Vec<DecodedField>,
        indx: usize,
        _protocol: &str,
        _region: &str,
        _dir: u8,
    )
        requires
            frame@.len() >= 12,
            indx + frame@.len() <= usize::MAX,
        ensures
            fields_view(final(result_list)@) == fields_view(old(result_list)@).push(
                read_err_field(frame@, indx as int),
            ),
    {
        let v = frame[10].wrapping_sub(0x33);
        let err_str = if (v >> 1) & 1 == 1 {
            "无请求数据"
        } else if (v >> 2) & 1 == 1 {
            "密码错误/未授权"
        } else if (v >> 3) & 1 == 1 {
            "通信速率不能更改"
        } else if (v >> 4) & 1 == 1 {
            "年时区数超"
        } else if (v >> 5) & 1 == 1 {
            "时段数超"
        } else if (v >> 6) & 1 == 1 {
            "费率数超"
        } else if v != 0 {
            "其他错误"
        } else {
            ""
        };
        proof {
            reveal_strlit("");
            assert(""@ =~= Seq::<char>::empty());
        }
        let f = plain(
            "错误信息字",
            hex_of(frame[10]),
            join("错误类型: ", err_str),
            indx + 10,
            indx + frame.len() - 2,
        );
        proof {
            lemma_fields_view_push(result_list@, f);
        }
        result_list.push(f);
    }

    /// Appends the field of an answer to written data.
    pub fn analysic_write_replay_frame(
        frame: &[u8],
        result_list: &mut Vec<DecodedField>,
        indx: usize,
        _protocol: &str,
        _region: &str,
        _dir: u8,
    )
        requires
            frame@.len() >= 3,
            indx + frame@.len() <= usize::MAX,
        ensures
            fields_view(final(result_list)@) == fields_view(old(result_list)@).push(
                write_replay_field(frame@, indx as int),
            ),
    {
        let n = frame.len();
        let err_code = frame[n - 3];
        let f = plain(
            "写数据应答",
            hex_of(err_code),
            (if err_code != 0 { "写数据错误" } else { "正常应答" }).to_owned(),
            indx + n - 3,
            indx + n - 2,
        );
        proof {
            lemma_fields_view_push(result_list@, f);
        }
        result_list.push(f);
    }

    /// Appends the field for the data of an answer with the address.
    pub fn analysic_read_address_frame(
        frame: &[u8],
        result_list: &mut Vec<DecodedField>,
        indx: usize,
        _protocol: &str,
        _region: &str,
        _dir: u8,
    )
        requires
            frame@.len() >= 16,
            indx + frame@.len() <= usize::MAX,
        ensures
            fields_view(final(result_list)@) == fields_view(old(result_list)@).push(
                six_byte_area(frame@, indx as int, headed_hex(frame@, "通信地址："@, 10, 16)),
            ),
    {
        let f = bytes_field_of(frame, indx, "数据内容", headed_hex_of(frame, "通信地址：", 10, 16), 10, 16);
        push_area(result_list, f, indx + 10, indx + 16);
    }

    /// Appends the field for the data of a frame that writes the address.
    pub fn analysic_write_address_frame(
        frame: &[u8],
        result_list: &mut Vec<DecodedField>,
        indx: usize,
        _protocol: &str,
        _region: &str,
        _dir: u8,
    )
        requires
            frame@.len() >= 16,
            indx + frame@.len() <= usize::MAX,
        ensures
            fields_view(final(result_list)@) == fields_view(old(result_list)@).push(
                six_byte_area(frame@, indx as int, headed_hex(frame@, "写通信地址："@, 10, 16)),
            ),
    {
        let f = bytes_field_of(frame, indx, "数据内容", headed_hex_of(frame, "写通信地址：", 10, 16), 10, 16);
        push_area(result_list, f, indx + 10, indx + 16);
    }

    /// Appends the field for the data of a broadcast of the time.
    pub fn analysic_broadcast_time_frame(
        frame: &[u8],
        result_list: &mut Vec<DecodedField>,
        indx: usize,
        _protocol: &str,
        _region: &str,
        _dir: u8,
    )
        requires
            frame@.len() >= 16,
            indx + frame@.len() <= usize::MAX,
        ensures
            fields_view(final(result_list)@) == fields_view(old(result_list)@).push(
                six_byte_area(
                    frame@,
                    indx as int,
                    "校时时间："@ + time_text(frame@.subrange(10, 16), "ssmmhhDDMMYY"@, true),
                ),
            ),
    {
        let time = slice_subrange(frame, 10, 16);
        let text = join("校时时间：", FrameFun::parse_time_data(time, "ssmmhhDDMMYY", true).as_str());
        let f = bytes_field_of(frame, indx, "数据内容", text, 10, 16);
        push_area(result_list, f, indx + 10, indx + 16);
    }

    /// Appends the field for the data of a freeze command.
    pub fn analysic_write_frozen_time_frame(
        frame: &[u8],
        result_list: &mut Vec<DecodedField>,
        indx: usize,
        _protocol: &str,
        _region: &str,
        _dir: u8,
    )
        requires
            frame@.len() >= 14,
            indx + frame@.len() <= usize::MAX,
        ensures
            fields_view(final(result_list)@) == fields_view(old(result_list)@).push(
                frozen_time_area(frame@, indx as int),
            ),
    {
        let n = frame.len();
        let time = slice_subrange(frame, 10, 14);
        let stripped = FrameFun::frame_delete_33h(time);
        let form_time = reversed(stripped.as_slice());
        let frozen = FrameFun::parse_freeze_time(form_time.as_slice());
        let mut text = String::new();
        push_str(&mut text, "冻结命令：");
        push_str(&mut text, FrameFun::get_data_str_delete_33h_reverse(time).as_str());
        push_str(&mut text, " 表示冻结时间为：");
        push_str(&mut text, frozen.as_str());
        assert(text@ =~= "冻结命令："@ + plain_hex(time@) + " 表示冻结时间为："@ + freeze_text(
            strip33(time@).reverse(),
        ));
        let f = plain("数据内容", FrameFun::get_data_str_with_space(time), text, indx + 10, indx + n - 2);
        push_area(result_list, f, indx + 10, indx + n - 2);
    }

    /// Appends the field for the data of a change of the communication rate.
    pub fn analysic_write_baud_rate_frame(
        frame: &[u8],
        result_list: &mut Vec<DecodedField>,
        indx: usize,
        _protocol: &str,
        _region: &str,
        _dir: u8,
    )
        requires
            frame@.len() >= 12,
            indx + frame@.len() <= usize::MAX,
        ensures
            fields_view(final(result_list)@) == fields_view(old(result_list)@).push(
                baud_rate_area(frame@, indx as int),
            ),
    {
        let v = frame[10].wrapping_sub(0x33);
        let rate = if !FrameFun::is_only_one_bit_set(v) {
            "特征字错误(多个bit位为1)"
        } else if v & 1 == 1 || (v >> 7) & 1 == 1 {
            "保留"
        } else if (v >> 1) & 1 == 1 {
            "600bps"
        } else if (v >> 2) & 1 == 1 {
            "1200bps"
        } else if (v >> 3) & 1 == 1 {
            "2400bps"
        } else if (v >> 4) & 1 == 1 {
            "4800bps"
        } else if (v >> 5) & 1 == 1 {
            "9600bps"
        } else if (v >> 6) & 1 == 1 {
            "19200bps"
        } else {
            ""
        };
        proof {
            reveal_strlit("");
            assert(""@ =~= Seq::<char>::empty());
        }
        let mut text = String::new();
        push_str(&mut text, "通信速率特征字：");
        push_hex_upper(&mut text, v);
        push_str(&mut text, " 通信速率：");
        push_str(&mut text, rate);
        assert(text@ =~= "通信速率特征字："@ + hex_upper(v) + " 通信速率："@ + rate_text(v));
        let f = plain("数据内容", hex_of(v), text, indx + 10, indx + 11);
        push_area(result_list, f, indx + 10, indx + frame.len() - 2);
    }

    /// Appends the field for the data of a change of the password.
    pub fn analysic_write_password_frame(
        frame: &[u8],
        result_list: &mut Vec<DecodedField>,
        indx: usize,
        _protocol: &str,
        _region: &str,
        _dir: u8,
    )
        requires
            frame@.len() >= 22,
            indx + frame@.len() <= usize::MAX,
        ensures
            fields_view(final(result_list)@) == fields_view(old(result_list)@).push(
                write_password_area(frame@, indx as int),
            ),
    {
        let n = frame.len();
        let item = bytes_field_of(
            frame,
            indx,
            "数据标识编码",
            join(headed_hex_of(frame, "数据标识[", 10, 14).as_str(), "]"),
            10,
            14,
        );
        let old_word = bytes_field_of(
            frame,
            indx,
            "原密码及权限",
            password_text_of(frame, 14, "原密码权限：", " 原密码："),
            14,
            18,
        );
        let new_word = bytes_field_of(
            frame,
            indx,
            "新密码及权限",
            password_text_of(frame, 18, "新密码权限：", " 新密码："),
            18,
            22,
        );
        let mut sub: Vec<DecodedField> = Vec::new();
        sub.push(item);
        sub.push(old_word);
        sub.push(new_word);
        assert(fields_view(sub@) =~= seq![field_view(item), field_view(old_word), field_view(new_word)]);
        let f = branch(
            "数据内容",
            FrameFun::get_data_str_with_space(slice_subrange(frame, 10, n - 2)),
            "密码设置".to_owned(),
            indx + 14,
            indx + 22,
            sub,
        );
        push_area(result_list, f, indx + 10, indx + n - 2);
    }

    /// Appends the field for the data of an answer to a change of the password.
    pub fn analysic_write_password_response_frame(
        frame: &[u8],
        result_list: &mut Vec<DecodedField>,
        indx: usize,
        _protocol: &str,
        _region: &str,
        _dir: u8,
    )
        requires
            frame@.len() >= 14,
            indx + frame@.len() <= usize::MAX,
        ensures
            fields_view(final(result_list)@) == fields_view(old(result_list)@).push(
                write_password_response_area(frame@, indx as int),
            ),
    {
        let n = frame.len();
        let new_word = bytes_field_of(
            frame,
            indx,
            "新密码及权限",
            password_text_of(frame, 10, "新密码权限：", " 新密码："),
            10,
            14,
        );
        let mut sub: Vec<DecodedField> = Vec::new();
        sub.push(new_word);
        assert(fields_view(sub@) =~= seq![field_view(new_word)]);
        let f = branch(
            "数据内容",
            FrameFun::get_data_str_with_space(slice_subrange(frame, 10, n - 2)),
            "密码设置".to_owned(),
            indx + 10,
            indx + 14,
            sub,
        );
        push_area(result_list, f, indx + 10, indx + n - 2);
    }

    /// Appends the field for the data of a reset of the maximum demand.
    pub fn analysic_maximum_demand_reset_frame(
        frame: &[u8],
        result_list: &mut Vec<DecodedField>,
        indx: usize,
        _protocol: &str,
        _region: &str,
        _dir: u8,
    )
        requires
            frame@.len() >= 18,
            indx + frame@.len() <= usize::MAX,
        ensures
            fields_view(final(result_list)@) == fields_view(old(result_list)@).push(
                maximum_demand_reset_area(frame@, indx as int),
            ),
    {
        let n = frame.len();
        let f = branch(
            "数据内容",
            FrameFun::get_data_str_with_space(slice_subrange(frame, 10, n - 2)),
            "最大需量清零".to_owned(),
            indx + 10,
            indx + n - 2,
            authority_fields_of(frame, indx),
        );
        push_area(result_list, f, indx + 10, indx + n - 2);
    }

    /// Appends the field for the data of a reset of the meter.
    pub fn analysic_meter_reset_frame(
        frame: &[u8],
        result_list: &mut Vec<DecodedField>,
        indx: usize,
        _protocol: &str,
        _region: &str,
        _dir: u8,
    )
        requires
            frame@.len() >= 18,
            indx + frame@.len() <= usize::MAX,
        ensures
            fields_view(final(result_list)@) == fields_view(old(result_list)@).push(
                meter_reset_area(frame@, indx as int),
            ),
    {
        let n = frame.len();
        let f = branch(
            "数据内容",
            FrameFun::get_data_str_with_space(slice_subrange(frame, 10, n - 2)),
            "电表清零".to_owned(),
            indx + 10,
            indx + 18,
            authority_fields_of(frame, indx),
        );
        push_area(result_list, f, indx + 10, indx + 18);
    }

    /// Appends the field for the data of a reset of events.
    pub fn analysic_event_reset_frame(
        frame: &[u8],
        result_list: &mut Vec<DecodedField>,
        indx: usize,
        _protocol: &str,
        _region: &str,
        _dir: u8,
    )
        requires
            frame@.len() >= 22,
            indx + frame@.len() <= usize::MAX,
        ensures
            fields_view(final(result_list)@) == fields_view(old(result_list)@).push(
                event_reset_area(frame@, indx as int),
            ),
    {
        let n = frame.len();
        let item = slice_subrange(frame, 18, 22);
        let event_type = if FrameFun::is_all_elements_equal(item, 0x32) {
            "事件总清零"
        } else {
            "分项事件清零"
        };
        let mut text = headed_hex_of(frame, "事件清零：[", 18, 22);
        push_str(&mut text, "] - ");
        push_str(&mut text, event_type);
        let kind = bytes_field_of(frame, indx, "事件清零类型", text, 18, 22);
        let mut sub = authority_fields_of(frame, indx);
        proof {
            lemma_fields_view_push(sub@, kind);
        }
        sub.push(kind);
        let f = branch(
            "数据内容",
            FrameFun::get_data_str_with_space(slice_subrange(frame, 10, n - 2)),
            "事件清零".to_owned(),
            indx + 10,
            indx + 22,
            sub,
        );
        push_area(result_list, f, indx + 10, indx + n - 2);
    }

    /// Appends the field for data that is shown as it is.
    pub fn analysic_invalid_frame(
        frame: &[u8],
        result_list: &mut Vec<DecodedField>,
        indx: usize,
        _protocol: &str,
        _region: &str,
        _dir: u8,
    )
        requires
            frame@.len() >= 12,
            indx + frame@.len() <= usize::MAX,
        ensures
            fields_view(final(result_list)@) == fields_view(old(result_list)@).push(
                invalid_area(frame@, indx as int),
            ),
    {
        let n = frame.len();
        let f = bytes_field_of(
            frame,
            indx,
            "数据内容",
            headed_hex_of(frame, "数据域数据：", 10, n - 2),
            10,
            n - 2,
        );
        push_area(result_list, f, indx + 10, indx + n - 2);
    }
}

/// The identifier of the item that a frame names, as the schema knows it.
pub open spec fn item_id(frame: Seq<u8>) -> Seq<char> {
    plain_hex(frame.subrange(10, 14))
}

/// The text for the identifier of an item, with the name of the item where the
/// schema gives one.
pub open spec fn item_text(id: Seq<char>, el: Option<ElementView>) -> Seq<char> {
    match el {
        Some(e) => match e.child_text("name"@) {
            Some(n) => "数据标识编码：["@ + id + "] - "@ + n,
            None => "数据标识编码：["@ + id + "]"@,
        },
        None => "数据标识编码：["@ + id + "]"@,
    }
}

/// The text for the identifier of an item.
pub fn item_text_of(id: &str, el: &Option<XmlElement>) -> (r: String)
    ensures
        r@ == item_text(id@, opt_element_view(*el)),
{
    let mut out = String::new();
    push_str(&mut out, "数据标识编码：[");
    push_str(&mut out, id);
    let name = match el {
        Some(e) => e.get_child_text("name"),
        None => None,
    };
    match name {
        Some(n) => {
            push_str(&mut out, "] - ");
            push_str(&mut out, n.as_str());
            assert(out@ =~= "数据标识编码：["@ + id@ + "] - "@ + n@);
        },
        None => {
            push_str(&mut out, "]");
            assert(out@ =~= "数据标识编码：["@ + id@ + "]"@);
        },
    }
    out
}

/// The field for the identifier of the item of a frame.
pub open spec fn item_field(frame: Seq<u8>, indx: int, text: Seq<char>) -> FieldView {
    bytes_field(frame, indx, "数据标识编码"@, text, 10, 14)
}

/// The field for the sequence number of a frame, which stands before the
/// checksum.
pub open spec fn sequence_field(frame: Seq<u8>, indx: int) -> FieldView {
    let n = frame.len() as int;
    leaf_field(
        "帧序号"@,
        hex_upper(frame[n - 3]),
        "请求帧序号: "@ + hex_upper(sub33(frame[n - 3])),
        indx + n - 3,
        indx + n - 2,
        None,
    )
}

/// The field for the sequence number of a frame.
pub fn sequence_field_of(frame: &[u8], indx: usize) -> (r: DecodedField)
    requires
        frame@.len() >= 3,
        indx + frame@.len() <= usize::MAX,
    ensures
        field_view(r) == sequence_field(frame@, indx as int),
{
    let n = frame.len();
    let seq = frame[n - 3];
    plain(
        "帧序号",
        hex_of(seq),
        join("请求帧序号: ", hex_of(seq.wrapping_sub(0x33)).as_str()),
        indx + n - 3,
        indx + n - 2,
    )
}

/// Whether a frame that reads data has the bytes that its length byte asks for.
pub open spec fn read_fits(frame: Seq<u8>) -> bool {
    frame.len() >= 16 && (frame[9] == 10 ==> frame.len() >= 17)
}

/// The field for the data of a frame that reads data: the identifier of the
/// item and, for an item that the schema knows, what the length of the data
/// tells: one more byte is a number of blocks, six more a number of blocks and a
/// time, any other number of bytes a command for the display.
pub open spec fn read_area(q: Query, frame: Seq<u8>, indx: int) -> FieldView {
    let n = frame.len() as int;
    let id = item_id(frame);
    let el = q.item(id);
    let first = item_field(frame, indx, item_text(id, el));
    let blocks = leaf_field(
        "负荷记录块数"@,
        hex_upper(frame[14]),
        "负荷记录块数="@ + dec_string(sub33(frame[14]) as nat),
        indx + 14,
        indx + 15,
        None,
    );
    let more = frame[9] as int - 4;
    data_area(
        if el is None || more <= 0 {
            seq![first]
        } else if more == 1 {
            seq![first, blocks]
        } else if more == 6 {
            seq![
                first,
                blocks,
                bytes_field(
                    frame,
                    indx,
                    "给定时间"@,
                    time_text(frame.subrange(15, n - 2), "mmhhDDMMYY"@, true),
                    15,
                    n - 2,
                ),
            ]
        } else {
            seq![first, bytes_field(frame, indx, "液晶查看命令"@, Seq::empty(), 14, n - 2)]
        },
        indx + 10,
        indx + n - 2,
    )
}

/// The fields that stand for a decode: those below its first field where that
/// has some, else the fields themselves.
pub open spec fn shown_below(fields: Seq<FieldView>) -> Seq<FieldView> {
    if fields.len() > 0 && fields[0].children is Some {
        fields[0].children.unwrap()
    } else {
        fields
    }
}

/// The length of one value of an item in the data of an answer: the length that
/// the item declares, resolved over the data, or all the data where it declares
/// none.
pub open spec fn value_size(q: Query, e: ElementView, content: Seq<u8>) -> nat {
    match e.child_text("length"@) {
        Some(_) => recalculated_length(q, e, content, DECODE_DEPTH as nat),
        None => content.len(),
    }
}

/// Whether the data of an answer starts with a time of five bytes: the data is
/// longer than one value and no whole number of values.
pub open spec fn starts_with_time(content: Seq<u8>, size: nat) -> bool {
    size > 0 && content.len() % size != 0 && content.len() > size && content.len() >= 5
}

/// The fields of the values of `size` bytes from `pos` on, after those in `acc`.
pub open spec fn values_from(
    q: Query,
    e: ElementView,
    content: Seq<u8>,
    size: nat,
    pos: nat,
    at: int,
    need_delete: bool,
    acc: Seq<FieldView>,
) -> Seq<FieldView>
    decreases content.len() - pos,
{
    if size == 0 || pos + size > content.len() {
        acc
    } else {
        values_from(
            q,
            e,
            content,
            size,
            pos + size,
            at,
            need_delete,
            acc + shown_below(
                decoded_item(
                    q,
                    e,
                    content.subrange(pos as int, (pos + size) as int),
                    at + pos,
                    need_delete,
                    DECODE_DEPTH as nat,
                ),
            ),
        )
    }
}

/// The text for the data of an item.
pub open spec fn content_text(id: Seq<char>, content: Seq<u8>) -> Seq<char> {
    "数据标识["@ + id + "]内容数据"@ + plain_hex(content)
}

/// The text for the data of an item.
pub fn content_text_of(id: &str, content: &[u8]) -> (r: String)
    ensures
        r@ == content_text(id@, content@),
{
    let mut out = String::new();
    push_str(&mut out, "数据标识[");
    push_str(&mut out, id);
    push_str(&mut out, "]内容数据");
    push_str(&mut out, FrameFun::get_data_str_delete_33h_reverse(content).as_str());
    assert(out@ =~= content_text(id@, content@));
    out
}

/// The field for the data of an answer with data: the identifier of the item
/// and its data, below which stand the values of the item, one after the other,
/// behind a time where the data starts with one.
pub open spec fn read_response_area(q: Query, frame: Seq<u8>, indx: int, need_delete: bool) -> FieldView {
    let n = frame.len() as int;
    let content = frame.subrange(14, n - 2);
    let id = item_id(frame);
    let el = q.item(id);
    let first = item_field(frame, indx, item_text(id, el));
    let text = content_text(id, content);
    data_area(
        match el {
            Some(e) => {
                let size = value_size(q, e, content);
                let timed = starts_with_time(content, size);
                let time = if timed {
                    seq![
                        bytes_field(
                            frame,
                            indx,
                            "数据起始时间"@,
                            time_text(frame.subrange(14, 19), "mmhhDDMMYY"@, true),
                            14,
                            19,
                        ),
                    ]
                } else {
                    Seq::empty()
                };
                seq![
                    first,
                    branch_field(
                        "数据标识内容"@,
                        hex_spaced(content),
                        text,
                        indx + 14,
                        indx + n - 2,
                        values_from(
                            q,
                            e,
                            content,
                            size,
                            if timed { 5 } else { 0 },
                            indx + 14,
                            need_delete,
                            time,
                        ),
                    ),
                ]
            },
            None => seq![
                first,
                leaf_field("数据标识内容"@, hex_spaced(content), text, indx + 14, indx + n - 2, None),
            ],
        },
        indx + 10,
        indx + n - 2,
    )
}

/// The field for the data of a frame that reads the data that follows: the
/// identifier of the item and the sequence number.
pub open spec fn read_subsequent_area(q: Query, frame: Seq<u8>, indx: int) -> FieldView {
    let id = item_id(frame);
    data_area(
        seq![item_field(frame, indx, item_text(id, q.item(id))), sequence_field(frame, indx)],
        indx + 10,
        indx + frame.len() - 2,
    )
}

/// The field for the data of an answer with the data that follows: the
/// identifier of the item, its data with its decode below, and the sequence
/// number.
pub open spec fn read_subsequent_response_area(
    q: Query,
    frame: Seq<u8>,
    indx: int,
    need_delete: bool,
) -> FieldView {
    let n = frame.len() as int;
    let content = frame.subrange(14, n - 2);
    let id = item_id(frame);
    data_area(
        match q.item(id) {
            Some(e) => seq![
                item_field(frame, indx, item_text(id, Some(e))),
                branch_field(
                    "数据标识内容"@,
                    hex_spaced(content),
                    content_text(item_text(id, Some(e)), content),
                    indx + 14,
                    indx + n - 2,
                    decoded_item(q, e, content, indx + 14, need_delete, DECODE_DEPTH as nat),
                ),
                sequence_field(frame, indx),
            ],
            None => seq![
                item_field(frame, indx, "数据标识编码："@ + id),
                leaf_field(
                    "数据标识内容"@,
                    hex_spaced(content),
                    content_text(id, content),
                    indx + 14,
                    indx + n - 2,
                    None,
                ),
                sequence_field(frame, indx),
            ],
        },
        indx + 10,
        indx + n - 2,
    )
}

/// The field for the data of a frame that writes data: for an item that the
/// schema knows its identifier, the password, the code of the operator and the
/// data with its decode below; else the data alone.
pub open spec fn write_area(q: Query, frame: Seq<u8>, indx: int, need_delete: bool) -> FieldView {
    let n = frame.len() as int;
    let id = item_id(frame);
    let text = headed_hex(frame, "写数据内容："@, 22, n - 2);
    data_area(
        match q.item(id) {
            Some(e) => seq![
                item_field(frame, indx, item_text(id, Some(e))),
                leaf_field(
                    "密码权限"@,
                    hex_upper(frame[14]),
                    "权限："@ + hex_upper(sub33(frame[14])),
                    indx + 14,
                    indx + 15,
                    None,
                ),
                bytes_field(frame, indx, "密码"@, headed_hex(frame, "密码："@, 15, 18), 15, 18),
                bytes_field(frame, indx, "操作者代码"@, headed_hex(frame, "操作者代码："@, 18, 22), 18, 22),
                branch_field(
                    "数据内容"@,
                    hex_spaced(frame.subrange(22, n - 2)),
                    text,
                    indx + 22,
                    indx + n - 2,
                    decoded_item(
                        q,
                        e,
                        frame.subrange(22, n - 2),
                        indx + 22,
                        need_delete,
                        DECODE_DEPTH as nat,
                    ),
                ),
            ],
            None => seq![bytes_field(frame, indx, "数据内容"@, text, 22, n - 2)],
        },
        indx + 10,
        indx + n - 2,
    )
}

impl Frame645 {
    /// The fields that stand for a decode: a copy of those below its first field
    /// where that has some, else a copy of the fields themselves.
    pub fn process_data_list(data_list: &Vec<DecodedField>) -> (r: Vec<DecodedField>)
        ensures
            fields_view(r@) == shown_below(fields_view(data_list@)),
    {
        if data_list.len() > 0 {
            match &data_list[0].children {
                Some(c) => {
                    return duplicate_fields(c);
                },
                None => {},
            }
        }
        duplicate_fields(data_list)
    }
}

/// The fields of the values of `size` bytes from `pos` on, after those in `acc`.
pub fn values_of(
    repo: &ProtocolConfigManager,
    e: &XmlElement,
    content: &[u8],
    size: usize,
    pos: usize,
    at: usize,
    acc: Vec<DecodedField>,
    protocol: &str,
    region: &str,
    dir: u8,
) -> (r: Vec<DecodedField>)
    requires
        repo.wf(),
        pos <= content@.len(),
        at + content@.len() <= usize::MAX,
    ensures
        fields_view(r@) == values_from(
            query_of(repo, protocol@, region@, Some(dir)),
            e@,
            content@,
            size as nat,
            pos as nat,
            at as int,
            protocol@ == "DLT/645-2007"@,
            fields_view(acc@),
        ),
{
    let ghost q = query_of(repo, protocol@, region@, Some(dir));
    let ghost nd = protocol@ == "DLT/645-2007"@;
    let ghost want = values_from(q, e@, content@, size as nat, pos as nat, at as int, nd, fields_view(acc@));
    let n = content.len();
    let mut out = acc;
    let mut pos = pos;
    if size == 0 {
        return out;
    }
    while size <= n - pos
        invariant
            repo.wf(),
            size > 0,
            n == content@.len(),
            pos <= n,
            at + n <= usize::MAX,
            q == query_of(repo, protocol@, region@, Some(dir)),
            nd == (protocol@ == "DLT/645-2007"@),
            values_from(q, e@, content@, size as nat, pos as nat, at as int, nd, fields_view(out@))
                == want,
        decreases n - pos,
    {
        let ghost before = out@;
        let part = FrameAnalisyic::prase_data(
            repo,
            e,
            protocol,
            region,
            slice_subrange(content, pos, pos + size),
            at + pos,
            Some(dir),
        );
        let mut shown = Frame645::process_data_list(&part);
        proof {
            lemma_fields_view_concat(before, shown@);
        }
        out.append(&mut shown);
        pos += size;
    }
    out
}

impl Frame645 {
    /// Appends the field for the data of a frame that reads data.
    pub fn analysic_read_frame(
        repo: &ProtocolConfigManager,
        frame: &[u8],
        result_list: &mut Vec<DecodedField>,
        indx: usize,
        protocol: &str,
        region: &str,
        dir: u8,
    )
        requires
            repo.wf(),
            read_fits(frame@),
            indx + frame@.len() <= usize::MAX,
        ensures
            fields_view(final(result_list)@) == fields_view(old(result_list)@).push(
                read_area(query_of(repo, protocol@, region@, Some(dir)), frame@, indx as int),
            ),
    {
        let n = frame.len();
        let id = FrameFun::get_data_str_delete_33h_reverse(slice_subrange(frame, 10, 14));
        let el = lookup_item(repo, id.as_str(), protocol, region, Some(dir));
        let found = el.is_some();
        let first = bytes_field_of(frame, indx, "数据标识编码", item_text_of(id.as_str(), &el), 10, 14);
        let mut blocks_text = String::new();
        push_str(&mut blocks_text, "负荷记录块数=");
        push_dec(&mut blocks_text, frame[14].wrapping_sub(0x33) as u64);
        let blocks = plain("负荷记录块数", hex_of(frame[14]), blocks_text, indx + 14, indx + 15);
        let length = frame[9];
        let mut data_list: Vec<DecodedField> = Vec::new();
        data_list.push(first);
        if !found || length <= 4 {
            assert(fields_view(data_list@) =~= seq![field_view(first)]);
        } else if length == 5 {
            data_list.push(blocks);
            assert(fields_view(data_list@) =~= seq![field_view(first), field_view(blocks)]);
        } else if length == 10 {
            let time = slice_subrange(frame, 15, n - 2);
            let given = bytes_field_of(
                frame,
                indx,
                "给定时间",
                FrameFun::parse_time_data(time, "mmhhDDMMYY", true),
                15,
                n - 2,
            );
            data_list.push(blocks);
            data_list.push(given);
            assert(fields_view(data_list@) =~= seq![
                field_view(first),
                field_view(blocks),
                field_view(given),
            ]);
        } else {
            let command = bytes_field_of(frame, indx, "液晶查看命令", String::new(), 14, n - 2);
            data_list.push(command);
            assert(fields_view(data_list@) =~= seq![field_view(first), field_view(command)]);
        }
        let area = data_area_of(data_list, indx + 10, indx + n - 2);
        proof {
            lemma_fields_view_push(result_list@, area);
        }
        result_list.push(area);
    }

    /// Appends the field for the data of an answer with data.
    pub fn analysic_read_response_frame(
        repo: &ProtocolConfigManager,
        frame: &[u8],
        result_list: &mut Vec<DecodedField>,
        indx: usize,
        protocol: &str,
        region: &str,
        dir: u8,
    )
        requires
            repo.wf(),
            frame@.len() >= 16,
            indx + frame@.len() <= usize::MAX,
        ensures
            fields_view(final(result_list)@) == fields_view(old(result_list)@).push(
                read_response_area(
                    query_of(repo, protocol@, region@, Some(dir)),
                    frame@,
                    indx as int,
                    protocol@ == "DLT/645-2007"@,
                ),
            ),
    {
        let n = frame.len();
        let content = slice_subrange(frame, 14, n - 2);
        let all = content.len();
        let id = FrameFun::get_data_str_delete_33h_reverse(slice_subrange(frame, 10, 14));
        let el = lookup_item(repo, id.as_str(), protocol, region, Some(dir));
        let first = bytes_field_of(frame, indx, "数据标识编码", item_text_of(id.as_str(), &el), 10, 14);
        let text = content_text_of(id.as_str(), content);
        let second = match &el {
            Some(e) => {
                let size: usize = match e.get_child_text("length") {
                    Some(_) => FrameCsg::recalculate_sub_length(
                        repo,
                        e,
                        content,
                        protocol,
                        region,
                        Some(dir),
                    ).0,
                    None => all,
                };
                let timed = size > 0 && all % size != 0 && all > size && all >= 5;
                let mut sub: Vec<DecodedField> = Vec::new();
                assert(fields_view(sub@) =~= Seq::empty());
                if timed {
                    let time = slice_subrange(frame, 14, 19);
                    let t = bytes_field_of(
                        frame,
                        indx,
                        "数据起始时间",
                        FrameFun::parse_time_data(time, "mmhhDDMMYY", true),
                        14,
                        19,
                    );
                    sub.push(t);
                    assert(fields_view(sub@) =~= seq![field_view(t)]);
                }
                let below = values_of(
                    repo,
                    e,
                    content,
                    size,
                    if timed { 5 } else { 0 },
                    indx + 14,
                    sub,
                    protocol,
                    region,
                    dir,
                );
                branch(
                    "数据标识内容",
                    FrameFun::get_data_str_with_space(content),
                    text,
                    indx + 14,
                    indx + n - 2,
                    below,
                )
            },
            None => plain(
                "数据标识内容",
                FrameFun::get_data_str_with_space(content),
                text,
                indx + 14,
                indx + n - 2,
            ),
        };
        let mut data_list: Vec<DecodedField> = Vec::new();
        data_list.push(first);
        data_list.push(second);
        assert(fields_view(data_list@) =~= seq![field_view(first), field_view(second)]);
        let area = data_area_of(data_list, indx + 10, indx + n - 2);
        proof {
            lemma_fields_view_push(result_list@, area);
        }
        result_list.push(area);
    }

    /// Appends the field for the data of a frame that reads the data that
    /// follows.
    pub fn analysic_read_subsequent_frame(
        repo: &ProtocolConfigManager,
        frame: &[u8],
        result_list: &mut Vec<DecodedField>,
        indx: usize,
        protocol: &str,
        region: &str,
        dir: u8,
    )
        requires
            repo.wf(),
            frame@.len() >= 16,
            indx + frame@.len() <= usize::MAX,
        ensures
            fields_view(final(result_list)@) == fields_view(old(result_list)@).push(
                read_subsequent_area(query_of(repo, protocol@, region@, Some(dir)), frame@, indx as int),
            ),
    {
        let n = frame.len();
        let id = FrameFun::get_data_str_delete_33h_reverse(slice_subrange(frame, 10, 14));
        let el = lookup_item(repo, id.as_str(), protocol, region, Some(dir));
        let first = bytes_field_of(frame, indx, "数据标识编码", item_text_of(id.as_str(), &el), 10, 14);
        let last = sequence_field_of(frame, indx);
        let mut data_list: Vec<DecodedField> = Vec::new();
        data_list.push(first);
        data_list.push(last);
        assert(fields_view(data_list@) =~= seq![field_view(first), field_view(last)]);
        let area = data_area_of(data_list, indx + 10, indx + n - 2);
        proof {
            lemma_fields_view_push(result_list@, area);
        }
        result_list.push(area);
    }

    /// Appends the field for the data of an answer with the data that follows.
    pub fn analysic_read_subsequent_response_frame(
        repo: &ProtocolConfigManager,
        frame: &[u8],
        result_list: &mut Vec<DecodedField>,
        indx: usize,
        protocol: &str,
        region: &str,
        dir: u8,
    )
        requires
            repo.wf(),
            frame@.len() >= 16,
            indx + frame@.len() <= usize::MAX,
        ensures
            fields_view(final(result_list)@) == fields_view(old(result_list)@).push(
                read_subsequent_response_area(
                    query_of(repo, protocol@, region@, Some(dir)),
                    frame@,
                    indx as int,
                    protocol@ == "DLT/645-2007"@,
                ),
            ),
    {
        let n = frame.len();
        let content = slice_subrange(frame, 14, n - 2);
        let id = FrameFun::get_data_str_delete_33h_reverse(slice_subrange(frame, 10, 14));
        let el = lookup_item(repo, id.as_str(), protocol, region, Some(dir));
        let (first, second) = match &el {
            Some(e) => {
                let id_text = item_text_of(id.as_str(), &el);
                let below = FrameAnalisyic::prase_data(
                    repo,
                    e,
                    protocol,
                    region,
                    content,
                    indx + 14,
                    Some(dir),
                );
                let text = content_text_of(id_text.as_str(), content);
                (
                    bytes_field_of(frame, indx, "数据标识编码", id_text, 10, 14),
                    branch(
                        "数据标识内容",
                        FrameFun::get_data_str_with_space(content),
                        text,
                        indx + 14,
                        indx + n - 2,
                        below,
                    ),
                )
            },
            None => (
                bytes_field_of(frame, indx, "数据标识编码", join("数据标识编码：", id.as_str()), 10, 14),
                plain(
                    "数据标识内容",
                    FrameFun::get_data_str_with_space(content),
                    content_text_of(id.as_str(), content),
                    indx + 14,
                    indx + n - 2,
                ),
            ),
        };
        let last = sequence_field_of(frame, indx);
        let mut data_list: Vec<DecodedField> = Vec::new();
        data_list.push(first);
        data_list.push(second);
        data_list.push(last);
        assert(fields_view(data_list@) =~= seq![field_view(first), field_view(second), field_view(last)]);
        let area = data_area_of(data_list, indx + 10, indx + n - 2);
        proof {
            lemma_fields_view_push(result_list@, area);
        }
        result_list.push(area);
    }

    /// Appends the field for the data of a frame that writes data.
    pub fn analysic_write_frame(
        repo: &ProtocolConfigManager,
        frame: &[u8],
        result_list: &mut Vec<DecodedField>,
        indx: usize,
        protocol: &str,
        region: &str,
        dir: u8,
    )
        requires
            repo.wf(),
            frame@.len() >= 24,
            indx + frame@.len() <= usize::MAX,
        ensures
            fields_view(final(result_list)@) == fields_view(old(result_list)@).push(
                write_area(
                    query_of(repo, protocol@, region@, Some(dir)),
                    frame@,
                    indx as int,
                    protocol@ == "DLT/645-2007"@,
                ),
            ),
    {
        let n = frame.len();
        let write_data = slice_subrange(frame, 22, n - 2);
        let id = FrameFun::get_data_str_delete_33h_reverse(slice_subrange(frame, 10, 14));
        let el = lookup_item(repo, id.as_str(), protocol, region, Some(dir));
        let text = headed_hex_of(frame, "写数据内容：", 22, n - 2);
        let mut data_list: Vec<DecodedField> = Vec::new();
        match &el {
            Some(e) => {
                let first = bytes_field_of(frame, indx, "数据标识编码", item_text_of(id.as_str(), &el), 10, 14);
                let level = plain(
                    "密码权限",
                    hex_of(frame[14]),
                    join("权限：", hex_of(frame[14].wrapping_sub(0x33)).as_str()),
                    indx + 14,
                    indx + 15,
                );
                let word = bytes_field_of(frame, indx, "密码", headed_hex_of(frame, "密码：", 15, 18), 15, 18);
                let operator = bytes_field_of(
                    frame,
                    indx,
                    "操作者代码",
                    headed_hex_of(frame, "操作者代码：", 18, 22),
                    18,
                    22,
                );
                let below = FrameAnalisyic::prase_data(
                    repo,
                    e,
                    protocol,
                    region,
                    write_data,
                    indx + 22,
                    Some(dir),
                );
                let written = branch(
                    "数据内容",
                    FrameFun::get_data_str_with_space(write_data),
                    text,
                    indx + 22,
                    indx + n - 2,
                    below,
                );
                data_list.push(first);
                data_list.push(level);
                data_list.push(word);
                data_list.push(operator);
                data_list.push(written);
                assert(fields_view(data_list@) =~= seq![
                    field_view(first),
                    field_view(level),
                    field_view(word),
                    field_view(operator),
                    field_view(written),
                ]);
            },
            None => {
                let written = bytes_field_of(frame, indx, "数据内容", text, 22, n - 2);
                data_list.push(written);
                assert(fields_view(data_list@) =~= seq![field_view(written)]);
            },
        }
        let area = data_area_of(data_list, indx + 10, indx + n - 2);
        proof {
            lemma_fields_view_push(result_list@, area);
        }
        result_list.push(area);
    }
}

/// Whether a control code is one of an answer that reports an error.
pub open spec fn is_error_code(afn: u8) -> bool {
    afn == 0xD1 || afn == 0xD2 || afn == 0xD4 || afn == 0xD6 || afn == 0xD7 || afn == 0xD9 || afn
        == 0xDA || afn == 0xDB
}

/// The field for the data of a frame under a control code. A frame that is too
/// short for what its control code asks for is shown as it is, as is one with a
/// control code that is not known.
#[verifier::opaque]
pub open spec fn meter_body_field(q: Query, frame: Seq<u8>, afn: u8, indx: int, need_delete: bool) -> FieldView {
    let n = frame.len();
    if afn == 0x11 && read_fits(frame) {
        read_area(q, frame, indx)
    } else if (afn == 0x91 || afn == 0xB1) && n >= 16 {
        read_response_area(q, frame, indx, need_delete)
    } else if is_error_code(afn) {
        read_err_field(frame, indx)
    } else if afn == 0x12 && n >= 16 {
        read_subsequent_area(q, frame, indx)
    } else if (afn == 0x92 || afn == 0xB2) && n >= 16 {
        read_subsequent_response_area(q, frame, indx, need_delete)
    } else if afn == 0x14 && n >= 24 {
        write_area(q, frame, indx, need_delete)
    } else if afn == 0x93 && n >= 16 {
        six_byte_area(frame, indx, headed_hex(frame, "通信地址："@, 10, 16))
    } else if afn == 0x15 && n >= 16 {
        six_byte_area(frame, indx, headed_hex(frame, "写通信地址："@, 10, 16))
    } else if afn == 0x08 && n >= 16 {
        six_byte_area(
            frame,
            indx,
            "校时时间："@ + time_text(frame.subrange(10, 16), "ssmmhhDDMMYY"@, true),
        )
    } else if afn == 0x16 && n >= 14 {
        frozen_time_area(frame, indx)
    } else if afn == 0x17 || afn == 0x97 {
        baud_rate_area(frame, indx)
    } else if afn == 0x18 && n >= 22 {
        write_password_area(frame, indx)
    } else if afn == 0x98 && n >= 14 {
        write_password_response_area(frame, indx)
    } else if afn == 0x19 && n >= 18 {
        maximum_demand_reset_area(frame, indx)
    } else if afn == 0x1A && n >= 18 {
        meter_reset_area(frame, indx)
    } else if afn == 0x1B && n >= 22 {
        event_reset_area(frame, indx)
    } else {
        invalid_area(frame, indx)
    }
}

/// The fields of a frame: of its head, of its data and of its end. The frame
/// stands behind its wake-up bytes; the control code that tells how its data
/// is read is the ninth of the bytes given, wake-up bytes counted. Bytes with
/// fewer than twelve behind the wake-up bytes are no frame and have no fields.
pub open spec fn meter_frame_fields(
    repo: &ProtocolConfigManager,
    region: Seq<char>,
    frame: Seq<u8>,
    index: int,
) -> Seq<FieldView> {
    let pos = fe_count(frame) as int;
    if frame.len() < pos + 12 {
        Seq::empty()
    } else {
        let f = frame.skip(pos);
        let dir = (f[8] >> 7) & 1;
        meter_head_fields(frame, index).push(
            meter_body_field(
                query_of(repo, "DLT/645-2007"@, region, Some(dir)),
                f,
                frame[8],
                index + pos,
                true,
            ),
        ) + end_fields(
            f,
            index + pos,
            0,
            "校验码"@,
            "电表规约报文校验码正确"@,
            "电表规约校验码错误，应为："@,
            "结束符"@,
            "电表规约报文结束符"@,
        )
    }
}

impl Frame645 {
    /// Appends the field for the data of a frame under a control code.
    pub fn analysic_body_frame(
        repo: &ProtocolConfigManager,
        frame: &[u8],
        afn: u8,
        result_list: &mut Vec<DecodedField>,
        indx: usize,
        protocol: &str,
        region: &str,
        dir: u8,
    )
        requires
            repo.wf(),
            frame@.len() >= 12,
            indx + frame@.len() <= usize::MAX,
        ensures
            fields_view(final(result_list)@) == fields_view(old(result_list)@).push(
                meter_body_field(
                    query_of(repo, protocol@, region@, Some(dir)),
                    frame@,
                    afn,
                    indx as int,
                    protocol@ == "DLT/645-2007"@,
                ),
            ),
    {
        reveal(meter_body_field);
        let n = frame.len();
        if afn == 0x11 && n >= 16 && (frame[9] != 10 || n >= 17) {
            Self::analysic_read_frame(repo, frame, result_list, indx, protocol, region, dir);
        } else if (afn == 0x91 || afn == 0xB1) && n >= 16 {
            Self::analysic_read_response_frame(repo, frame, result_list, indx, protocol, region, dir);
        } else if afn == 0xD1 || afn == 0xD2 || afn == 0xD4 || afn == 0xD6 || afn == 0xD7 || afn == 0xD9
            || afn == 0xDA || afn == 0xDB {
            Self::analysic_read_err_frame(frame, result_list, indx, protocol, region, dir);
        } else if afn == 0x12 && n >= 16 {
            Self::analysic_read_subsequent_frame(repo, frame, result_list, indx, protocol, region, dir);
        } else if (afn == 0x92 || afn == 0xB2) && n >= 16 {
            Self::analysic_read_subsequent_response_frame(
                repo,
                frame,
                result_list,
                indx,
                protocol,
                region,
                dir,
            );
        } else if afn == 0x14 && n >= 24 {
            Self::analysic_write_frame(repo, frame, result_list, indx, protocol, region, dir);
        } else if afn == 0x93 && n >= 16 {
            Self::analysic_read_address_frame(frame, result_list, indx, protocol, region, dir);
        } else if afn == 0x15 && n >= 16 {
            Self::analysic_write_address_frame(frame, result_list, indx, protocol, region, dir);
        } else if afn == 0x08 && n >= 16 {
            Self::analysic_broadcast_time_frame(frame, result_list, indx, protocol, region, dir);
        } else if afn == 0x16 && n >= 14 {
            Self::analysic_write_frozen_time_frame(frame, result_list, indx, protocol, region, dir);
        } else if afn == 0x17 || afn == 0x97 {
            Self::analysic_write_baud_rate_frame(frame, result_list, indx, protocol, region, dir);
        } else if afn == 0x18 && n >= 22 {
            Self::analysic_write_password_frame(frame, result_list, indx, protocol, region, dir);
        } else if afn == 0x98 && n >= 14 {
            Self::analysic_write_password_response_frame(
                frame,
                result_list,
                indx,
                protocol,
                region,
                dir,
            );
        } else if afn == 0x19 && n >= 18 {
            Self::analysic_maximum_demand_reset_frame(frame, result_list, indx, protocol, region, dir);
        } else if afn == 0x1A && n >= 18 {
            Self::analysic_meter_reset_frame(frame, result_list, indx, protocol, region, dir);
        } else if afn == 0x1B && n >= 22 {
            Self::analysic_event_reset_frame(frame, result_list, indx, protocol, region, dir);
        } else {
            Self::analysic_invalid_frame(frame, result_list, indx, protocol, region, dir);
        }
    }

    /// Appends the fields of a frame, and gives the place where the frame starts
    /// behind its wake-up bytes; no field and zero for bytes that are no frame.
    /// Frames embedded in the data of its item are left as one field each;
    /// `FrameAnalisyic::process_frame` reads them as well.
    pub fn analysic_645_frame_by_afn(
        repo: &ProtocolConfigManager,
        frame: &[u8],
        result_list: &mut Vec<DecodedField>,
        index: usize,
        region: &str,
    ) -> (r: usize)
        requires
            repo.wf(),
            index + frame@.len() <= usize::MAX,
        ensures
            fields_view(final(result_list)@) == fields_view(old(result_list)@) + meter_frame_fields(
                repo,
                region@,
                frame@,
                index as int,
            ),
            r == (if frame@.len() < fe_count(frame@) + 12 {
                0
            } else {
                index + fe_count(frame@)
            }),
    {
        let ghost before = fields_view(result_list@);
        let n = frame.len();
        let wake = FrameFun::get_frame_fe_count(frame);
        if n - wake < 12 {
            assert(before + Seq::<FieldView>::empty() =~= before);
            return 0;
        }
        let (pos, dir) = Self::analysic_head_frame(frame, result_list, index);
        let data_content = slice_subrange(frame, pos, n);
        assert(data_content@ =~= frame@.skip(pos as int));
        let at = index + pos;
        let afn = frame[8];
        Self::analysic_body_frame(repo, data_content, afn, result_list, at, "DLT/645-2007", region, dir);
        Self::analysic_end_frame(data_content, result_list, at);
        proof {
            let head = meter_head_fields(frame@, index as int);
            let body = meter_body_field(
                query_of(repo, "DLT/645-2007"@, region@, Some(dir)),
                data_content@,
                afn,
                at as int,
                true,
            );
            let ends = end_fields(
                data_content@,
                at as int,
                0,
                "校验码"@,
                "电表规约报文校验码正确"@,
                "电表规约校验码错误，应为："@,
                "结束符"@,
                "电表规约报文结束符"@,
            );
            assert((before + head).push(body) + ends =~= before + (head.push(body) + ends));
        }
        at
    }
}

} // verus!
