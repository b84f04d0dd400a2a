//! The frames of the concentrator protocol and what they share with those of the
//! module protocol: their recognition, their tables and their fields.

use vstd::prelude::*;
use vstd::string::*;
use vstd::slice::*;
use crate::builders::{branch, branch_field, bytes_field, bytes_field_of, join, plain};
use crate::decoded::{field_view, fields_view, DecodedField, FieldView};
use crate::frame_csg::{end_fields, hex_of, push_end_fields};
use crate::frame_fun::{le_number, lemma_le_number_fits, FrameFun};
use crate::frame_moudle::{moudle_afn_text, FrameMoudle};
use crate::protocol::{
    decoded_item, is_unknown, is_unknown_text, item_length, item_length_of, leaf_field,
    lemma_fields_view_concat, lemma_fields_view_push, lookup_item, min_of, number_or_zero,
    number_or_zero_of, query_of, FrameAnalisyic, Query, DECODE_DEPTH,
};
use crate::text::{dec_string, hex_concat, hex_spaced, hex_upper, push_dec, push_hex_upper, push_str};
use crate::xmlconfig::{opt_element_view, ElementView, ProtocolConfigManager, XmlElement};

verus! {

/// Whether bytes are framed as the concentrator and module protocols frame them:
/// the start byte `68`, the end byte `16`, and a length field of two bytes that
/// gives the number of all bytes.
pub open spec fn is_framed(frame: Seq<u8>) -> bool {
    frame.len() >= 4 && frame[0] == 0x68 && frame[frame.len() - 1] == 0x16 && le_number(
        frame.subrange(1, 3),
        false,
    ) == frame.len()
}

/// Whether the four identifier bytes from byte 6 on carry the mark of the module
/// protocol.
pub open spec fn has_module_mark(frame: Seq<u8>) -> bool {
    frame.len() >= 10 && (le_number(frame.subrange(6, 10), false) as u64) & 0xEC000000
        == 0xEC000000
}

/// Whether bytes are a concentrator frame: framed, and, where the control byte
/// announces no address field, long enough for an identifier that does not carry
/// the mark of the module protocol.
pub open spec fn is_cco(frame: Seq<u8>) -> bool {
    is_framed(frame) && ((frame[3] >> 5) & 1 == 0 ==> frame.len() >= 10 && !has_module_mark(frame))
}

/// The name of a function code of the concentrator protocol.
pub open spec fn cco_afn_text(dir_type: u8, afn: u8) -> Seq<char> {
    if dir_type == 0xE8 {
        if afn == 0x00 {
            "确认/否认"@
        } else if afn == 0x01 {
            "初始化模块"@
        } else if afn == 0x02 {
            "管理任务"@
        } else if afn == 0x03 {
            "读参数"@
        } else if afn == 0x04 {
            "写参数"@
        } else if afn == 0x05 {
            "上报信息"@
        } else if afn == 0x06 {
            "请求信息"@
        } else if afn == 0x07 {
            "传输文件"@
        } else if afn == 0x10 {
            "维护命令"@
        } else if afn == 0xF0 {
            "维护模块"@
        } else {
            "未知"@
        }
    } else {
        if afn == 0x00 {
            "确认/否认"@
        } else if afn == 0x21 {
            "管理电表"@
        } else if afn == 0x22 {
            "转发数据"@
        } else if afn == 0x23 {
            "读参数"@
        } else if afn == 0x24 {
            "传输文件"@
        } else if afn == 0x25 {
            "请求信息"@
        } else if afn == 0x31 {
            "管理映射表表计"@
        } else {
            "未知"@
        }
    }
}

/// The meaning of a direction code of the concentrator protocol.
pub open spec fn cco_direction_text(dir: u8) -> Seq<char> {
    if dir == 0x00 {
        "上下行均用，但下行无数据内容"@
    } else if dir == 0x01 {
        "上下行均用，数据内容格式一致"@
    } else if dir == 0x02 {
        "仅下行用，上行为确认/否认报文"@
    } else if dir == 0x03 {
        "仅下行用，带数据内容。对应上行报文为 04"@
    } else if dir == 0x04 {
        "仅上行用，带数据内容。对应下行报文为 03"@
    } else if dir == 0x05 {
        "仅上行用，下行为确认/否认报文"@
    } else if dir == 0x06 {
        "上下行均用，但上行无数据内容"@
    } else {
        "未知"@
    }
}

/// Whether bytes are framed as the concentrator and module protocols frame them.
pub fn check_framed(frame: &[u8]) -> (r: bool)
    ensures
        r == is_framed(frame@),
{
    let n = frame.len();
    if n < 4 {
        return false;
    }
    if frame[0] != 0x68 || frame[n - 1] != 0x16 {
        return false;
    }
    let field = slice_subrange(frame, 1, 3);
    proof {
        lemma_le_number_fits(field@);
    }
    let length = FrameFun::bintodecimal(field);
    length == n as u64
}

/// Whether the four identifier bytes from byte 6 on carry the mark of the module
/// protocol.
pub fn check_module_mark(frame: &[u8]) -> (r: bool)
    ensures
        r == has_module_mark(frame@),
{
    if frame.len() < 10 {
        return false;
    }
    let field = slice_subrange(frame, 6, 10);
    proof {
        lemma_le_number_fits(field@);
    }
    let item = FrameFun::bintodecimal(field);
    item & 0xEC000000 == 0xEC000000
}

/// The frames of the concentrator protocol.
pub struct FrameCCO;

impl FrameCCO {
    /// Whether bytes are a concentrator frame.
    pub fn is_cco_frame(frame: &[u8]) -> (r: bool)
        ensures
            r == is_cco(frame@),
    {
        if !check_framed(frame) {
            return false;
        }
        let add: u8 = (frame[3] >> 5) & 1;
        if add == 0 {
            if frame.len() < 10 {
                return false;
            }
            if check_module_mark(frame) {
                return false;
            }
        }
        true
    }

    /// The name of a function code.
    pub fn get_afn_info(dir_type: u8, _prm: u8, afn: u8) -> (r: &'static str)
        ensures
            r@ == cco_afn_text(dir_type, afn),
    {
        match dir_type {
            0xE8 => match afn {
                0x00 => "确认/否认",
                0x01 => "初始化模块",
                0x02 => "管理任务",
                0x03 => "读参数",
                0x04 => "写参数",
                0x05 => "上报信息",
                0x06 => "请求信息",
                0x07 => "传输文件",
                0x10 => "维护命令",
                0xF0 => "维护模块",
                _ => "未知",
            },
            _ => match afn {
                0x00 => "确认/否认",
                0x21 => "管理电表",
                0x22 => "转发数据",
                0x23 => "读参数",
                0x24 => "传输文件",
                0x25 => "请求信息",
                0x31 => "管理映射表表计",
                _ => "未知",
            },
        }
    }

    /// The meaning of a direction code.
    pub fn get_direction_str(dir: u8) -> (r: &'static str)
        ensures
            r@ == cco_direction_text(dir),
    {
        match dir {
            0x00 => "上下行均用，但下行无数据内容",
            0x01 => "上下行均用，数据内容格式一致",
            0x02 => "仅下行用，上行为确认/否认报文",
            0x03 => "仅下行用，带数据内容。对应上行报文为 04",
            0x04 => "仅上行用，带数据内容。对应下行报文为 03",
            0x05 => "仅上行用，下行为确认/否认报文",
            0x06 => "上下行均用，但上行无数据内容",
            _ => "未知",
        }
    }
}

/// A number in decimal.
pub fn dec_of(n: u64) -> (r: String)
    ensures
        r@ == dec_string(n as nat),
{
    let mut out = String::new();
    push_dec(&mut out, n);
    assert(out@ =~= dec_string(n as nat));
    out
}

/// The fields below the control byte of a frame of the concentrator protocol or,
/// with `module`, of the module protocol: the direction, the station that
/// started, the mark of an address field, which the module protocol keeps in
/// reserve, the version and the bits in reserve.
pub open spec fn local_control_fields(control: u8, index: int, module: bool) -> Seq<FieldView> {
    let dir = (control >> 7) & 1;
    let prm = (control >> 6) & 1;
    let add = (control >> 5) & 1;
    let ver = control & 0x0c;
    let keep = control & 0x03;
    seq![
        leaf_field(
            "传输方向位DIR"@,
            dec_string(dir as nat),
            if dir == 0 { "下行报文"@ } else { "上行报文"@ },
            index,
            index + 1,
            None,
        ),
        leaf_field(
            "启动标志位PRM"@,
            dec_string(prm as nat),
            if prm == 1 { "表示此帧报文来自启动站"@ } else { "表示此帧报文来自从动站"@ },
            index,
            index + 1,
            None,
        ),
        if module {
            leaf_field("保留"@, dec_string(add as nat), "保留"@, index, index + 1, None)
        } else {
            leaf_field(
                "地址域标志位ADD"@,
                dec_string(add as nat),
                if add == 1 { "表示此帧报文带地址域"@ } else { "表示此帧报文不带地址域"@ },
                index,
                index + 1,
                None,
            )
        },
        leaf_field(
            "协议版本号VER"@,
            dec_string(ver as nat),
            "协议版本号:"@ + dec_string(ver as nat),
            index,
            index + 1,
            None,
        ),
        leaf_field(
            "保留位"@,
            dec_string(keep as nat),
            "保留位="@ + dec_string(keep as nat),
            index,
            index + 1,
            None,
        ),
    ]
}

/// The fields below the control byte.
pub fn local_control_fields_of(control: u8, index: usize, module: bool) -> (r: Vec<DecodedField>)
    requires
        index + 1 <= usize::MAX,
    ensures
        fields_view(r@) == local_control_fields(control, index as int, module),
{
    let dir = (control >> 7) & 1;
    let prm = (control >> 6) & 1;
    let add = (control >> 5) & 1;
    let ver = control & 0x0c;
    let keep = control & 0x03;
    let f1 = plain(
        "传输方向位DIR",
        dec_of(dir as u64),
        (if dir == 0 { "下行报文" } else { "上行报文" }).to_owned(),
        index,
        index + 1,
    );
    let f2 = plain(
        "启动标志位PRM",
        dec_of(prm as u64),
        (if prm == 1 { "表示此帧报文来自启动站" } else { "表示此帧报文来自从动站" }).to_owned(),
        index,
        index + 1,
    );
    let f3 = if module {
        plain("保留", dec_of(add as u64), "保留".to_owned(), index, index + 1)
    } else {
        plain(
            "地址域标志位ADD",
            dec_of(add as u64),
            (if add == 1 { "表示此帧报文带地址域" } else { "表示此帧报文不带地址域" }).to_owned(),
            index,
            index + 1,
        )
    };
    let f4 = plain(
        "协议版本号VER",
        dec_of(ver as u64),
        join("协议版本号:", dec_of(ver as u64).as_str()),
        index,
        index + 1,
    );
    let f5 = plain(
        "保留位",
        dec_of(keep as u64),
        join("保留位=", dec_of(keep as u64).as_str()),
        index,
        index + 1,
    );
    let mut out: Vec<DecodedField> = Vec::new();
    out.push(f1);
    out.push(f2);
    out.push(f3);
    out.push(f4);
    out.push(f5);
    assert(fields_view(out@) =~= seq![
        field_view(f1),
        field_view(f2),
        field_view(f3),
        field_view(f4),
        field_view(f5),
    ]);
    out
}

/// The fields of an address field of twelve bytes: the source and the
/// destination.
pub open spec fn address_fields(area: Seq<u8>, index: int) -> Seq<FieldView> {
    seq![
        bytes_field(
            area,
            index,
            "源地址 ASR"@,
            "源地址:"@ + hex_concat(area.subrange(0, 6).reverse()),
            0,
            6,
        ),
        bytes_field(
            area,
            index,
            "目的地址 ADST"@,
            "目的地址:"@ + hex_concat(area.subrange(6, 12).reverse()),
            6,
            12,
        ),
    ]
}

/// The fields of an address field.
pub fn address_fields_of(area: &[u8], index: usize) -> (r: Vec<DecodedField>)
    requires
        area@.len() >= 12,
        index + area@.len() <= usize::MAX,
    ensures
        fields_view(r@) == address_fields(area@, index as int),
{
    let source = slice_subrange(area, 0, 6);
    let target = slice_subrange(area, 6, 12);
    let f1 = bytes_field_of(
        area,
        index,
        "源地址 ASR",
        join("源地址:", FrameFun::get_data_str_reverser(source).as_str()),
        0,
        6,
    );
    let f2 = bytes_field_of(
        area,
        index,
        "目的地址 ADST",
        join("目的地址:", FrameFun::get_data_str_reverser(target).as_str()),
        6,
        12,
    );
    let mut out: Vec<DecodedField> = Vec::new();
    out.push(f1);
    out.push(f2);
    assert(fields_view(out@) =~= seq![field_view(f1), field_view(f2)]);
    out
}

/// Whether a frame carries an address field: the module protocol has none.
pub open spec fn has_address(frame: Seq<u8>, module: bool) -> bool {
    !module && (frame[3] >> 5) & 1 == 1
}

/// Where the function code of a frame stands.
pub open spec fn afn_at(frame: Seq<u8>, module: bool) -> int {
    if has_address(frame, module) { 16 } else { 4 }
}

/// Whether a frame has the bytes of its head, of an identifier and of its end.
pub open spec fn local_fits(frame: Seq<u8>, module: bool) -> bool {
    frame.len() >= 12 && frame.len() >= afn_at(frame, module) + 8
}

/// The fields for the head of a frame: the start byte, the length and the
/// control byte.
pub open spec fn local_head_fields(frame: Seq<u8>, index: int, module: bool) -> Seq<FieldView> {
    seq![
        leaf_field("起始符"@, hex_upper(frame[0]), "起始符"@, index, index + 1, None),
        bytes_field(
            frame,
            index,
            "长度"@,
            "总长度="@ + dec_string(le_number(frame.subrange(1, 3), false)),
            1,
            3,
        ),
        branch_field(
            "控制域C"@,
            hex_upper(frame[3]),
            "控制域:"@ + hex_upper(frame[3]),
            index + 3,
            index + 4,
            local_control_fields(frame[3], index + 3, module),
        ),
    ]
}

/// The name of the function code of a frame.
pub open spec fn local_afn_text(frame: Seq<u8>, module: bool) -> Seq<char> {
    let p = afn_at(frame, module);
    if module {
        moudle_afn_text(frame[p], le_number(frame.subrange(6, 10), false) as u64)
    } else {
        cco_afn_text(frame[p + 5], frame[p])
    }
}

/// The fields of the user data before the application data: the address field
/// where the frame has one, the function code and the sequence number.
pub open spec fn local_user_fields(frame: Seq<u8>, index: int, module: bool) -> Seq<FieldView> {
    let p = afn_at(frame, module);
    let rest = seq![
        leaf_field(
            "应用功能码 AFN"@,
            hex_upper(frame[p]),
            "AFN:"@ + hex_upper(frame[p]) + "-"@ + local_afn_text(frame, module),
            index + p,
            index + p + 1,
            None,
        ),
        leaf_field(
            "帧序列域 SEQ"@,
            hex_upper(frame[p + 1]),
            "帧序列SEQ:"@ + dec_string(frame[p + 1] as nat),
            index + p + 1,
            index + p + 2,
            None,
        ),
    ];
    if has_address(frame, module) {
        seq![
            branch_field(
                "地址域A"@,
                hex_spaced(frame.subrange(4, 16)),
                "地址域:"@ + hex_concat(frame.subrange(4, 16).reverse()),
                index + 4,
                index + 16,
                address_fields(frame.subrange(4, 16), index + 4),
            ),
        ] + rest
    } else {
        rest
    }
}

/// Appends the fields for the head of a frame, and gives the direction, the
/// station that started, the mark of an address field, the function code, the
/// place of the application data and the fields of the user data before it.
pub fn local_head_of(frame: &[u8], result_list: &mut Vec<DecodedField>, index: usize, module: bool) -> (r:
    (u8, u8, u8, u8, usize, Vec<DecodedField>))
    requires
        local_fits(frame@, module),
        index + frame@.len() <= usize::MAX,
    ensures
        fields_view(final(result_list)@) == fields_view(old(result_list)@) + local_head_fields(
            frame@,
            index as int,
            module,
        ),
        r.0 == (frame@[3] >> 7) & 1,
        r.1 == (frame@[3] >> 6) & 1,
        r.2 == (frame@[3] >> 5) & 1,
        r.3 == frame@[afn_at(frame@, module)],
        r.4 == afn_at(frame@, module) + 2,
        fields_view(r.5@) == local_user_fields(frame@, index as int, module),
{
    let ghost before = result_list@;
    let control = frame[3];
    let dir = (control >> 7) & 1;
    let prm = (control >> 6) & 1;
    let add = (control >> 5) & 1;
    let len_data = slice_subrange(frame, 1, 3);
    proof {
        lemma_le_number_fits(len_data@);
    }
    let length = FrameFun::bintodecimal(len_data);
    let f1 = plain("起始符", hex_of(frame[0]), "起始符".to_owned(), index, index + 1);
    let f2 = bytes_field_of(frame, index, "长度", join("总长度=", dec_of(length).as_str()), 1, 3);
    let f3 = branch(
        "控制域C",
        hex_of(control),
        join("控制域:", hex_of(control).as_str()),
        index + 3,
        index + 4,
        local_control_fields_of(control, index + 3, module),
    );
    let mut head: Vec<DecodedField> = Vec::new();
    head.push(f1);
    head.push(f2);
    head.push(f3);
    assert(fields_view(head@) =~= seq![field_view(f1), field_view(f2), field_view(f3)]);
    proof {
        lemma_fields_view_concat(before, head@);
    }
    result_list.append(&mut head);
    let mut user: Vec<DecodedField> = Vec::new();
    let ghost mut first: Seq<FieldView> = Seq::empty();
    let mut pos: usize = 4;
    if !module && add == 1 {
        let area = slice_subrange(frame, 4, 16);
        let a = branch(
            "地址域A",
            FrameFun::get_data_str_with_space(area),
            join("地址域:", FrameFun::get_data_str_reverser(area).as_str()),
            index + 4,
            index + 16,
            address_fields_of(area, index + 4),
        );
        user.push(a);
        proof {
            first = seq![field_view(a)];
        }
        pos = 16;
    }
    assert(fields_view(user@) =~= first);
    let afn = frame[pos];
    let afn_str = if module {
        let item_data = slice_subrange(frame, 6, 10);
        proof {
            lemma_le_number_fits(item_data@);
        }
        FrameMoudle::get_afn_info(afn, FrameFun::bintodecimal(item_data))
    } else {
        FrameCCO::get_afn_info(frame[pos + 5], prm, afn)
    };
    let mut afn_text = String::new();
    push_str(&mut afn_text, "AFN:");
    push_hex_upper(&mut afn_text, afn);
    push_str(&mut afn_text, "-");
    push_str(&mut afn_text, afn_str);
    assert(afn_text@ =~= "AFN:"@ + hex_upper(afn) + "-"@ + local_afn_text(frame@, module));
    let f4 = plain("应用功能码 AFN", hex_of(afn), afn_text, index + pos, index + pos + 1);
    let seq = frame[pos + 1];
    let f5 = plain(
        "帧序列域 SEQ",
        hex_of(seq),
        join("帧序列SEQ:", dec_of(seq as u64).as_str()),
        index + pos + 1,
        index + pos + 2,
    );
    user.push(f4);
    user.push(f5);
    assert(fields_view(user@) =~= first + seq![field_view(f4), field_view(f5)]);
    assert(Seq::<FieldView>::empty() + seq![field_view(f4), field_view(f5)] =~= seq![
        field_view(f4),
        field_view(f5),
    ]);
    (dir, prm, add, afn, pos + 2, user)
}

/// The fields of the four bytes of an identifier of the concentrator protocol.
pub open spec fn di_fields(di: Seq<u8>, index: int) -> Seq<FieldView> {
    seq![
        leaf_field("DI0"@, hex_upper(di[0]), "功能码子类型"@, index, index + 1, None),
        leaf_field(
            "DI1"@,
            hex_upper(di[1]),
            "功能码类型定义,与AFN值保持一致："@ + cco_afn_text(di[3], di[1]),
            index + 1,
            index + 2,
            None,
        ),
        leaf_field(
            "DI2"@,
            hex_upper(di[2]),
            "报文上下行类型"@ + cco_direction_text(di[2]),
            index + 2,
            index + 3,
            None,
        ),
        leaf_field(
            "DI3"@,
            hex_upper(di[3]),
            "通信双方类型标识:"@ + hex_upper(di[3]) + "-"@ + (if di[3] == 0xE8 {
                "集中器与本地模块通信"@
            } else {
                "采集器与本地模块通信"@
            }),
            index + 3,
            index + 4,
            None,
        ),
    ]
}

/// The fields of the four bytes of an identifier.
pub fn di_fields_of(di: &[u8], index: usize) -> (r: Vec<DecodedField>)
    requires
        di@.len() >= 4,
        index + 4 <= usize::MAX,
    ensures
        fields_view(r@) == di_fields(di@, index as int),
{
    let f0 = plain("DI0", hex_of(di[0]), "功能码子类型".to_owned(), index, index + 1);
    let f1 = plain(
        "DI1",
        hex_of(di[1]),
        join("功能码类型定义,与AFN值保持一致：", FrameCCO::get_afn_info(di[3], 1, di[1])),
        index + 1,
        index + 2,
    );
    let f2 = plain(
        "DI2",
        hex_of(di[2]),
        join("报文上下行类型", FrameCCO::get_direction_str(di[2])),
        index + 2,
        index + 3,
    );
    let mut t = String::new();
    push_str(&mut t, "通信双方类型标识:");
    push_hex_upper(&mut t, di[3]);
    push_str(&mut t, "-");
    push_str(&mut t, if di[3] == 0xE8 { "集中器与本地模块通信" } else { "采集器与本地模块通信" });
    let f3 = plain("DI3", hex_of(di[3]), t, index + 3, index + 4);
    let mut out: Vec<DecodedField> = Vec::new();
    out.push(f0);
    out.push(f1);
    out.push(f2);
    out.push(f3);
    assert(fields_view(out@) =~= seq![field_view(f0), field_view(f1), field_view(f2), field_view(f3)]);
    out
}

/// The text for the identifier of an item, with the name of the item where the
/// schema gives one.
pub open spec fn local_item_text(id: Seq<char>, el: Option<ElementView>) -> Seq<char> {
    match el {
        Some(e) => match e.child_text("name"@) {
            Some(n) => "数据标识编码：["@ + id + "]-"@ + n,
            None => "数据标识编码：["@ + id + "]"@,
        },
        None => "数据标识编码：["@ + id + "]"@,
    }
}

/// The text for the identifier of an item.
pub fn local_item_text_of(id: &str, el: &Option<XmlElement>) -> (r: String)
    ensures
        r@ == local_item_text(id@, opt_element_view(*el)),
{
    let mut out = String::new();
    push_str(&mut out, "数据标识编码：[");
    push_str(&mut out, id);
    let name = match el {
        Some(e) => e.get_child_text("name"),
        None => None,
    };
    match name {
        Some(n) => {
            push_str(&mut out, "]-");
            push_str(&mut out, n.as_str());
            assert(out@ =~= "数据标识编码：["@ + id@ + "]-"@ + n@);
        },
        None => {
            push_str(&mut out, "]");
            assert(out@ =~= "数据标识编码：["@ + id@ + "]"@);
        },
    }
    out
}

/// The number of bytes of the data of an item behind its identifier: the length
/// that the item declares, resolved over the bytes for the sentinel `UNKNOWN`
/// and zero where it is no number, or all the bytes where it declares none;
/// never more than the bytes that are there.
pub open spec fn local_size(q: Query, e: ElementView, rest: Seq<u8>) -> nat {
    let raw = match e.child_text("length"@) {
        Some(t) => if is_unknown(t) {
            item_length(q, e, rest, None, DECODE_DEPTH as nat)
        } else {
            number_or_zero(Some(t))
        },
        None => rest.len(),
    };
    min_of(raw as int, rest.len() as int) as nat
}

/// The fields of the application data: the identifier of the item and, behind
/// it, the data of the item with its decode below. The module protocol shows no
/// data for an item of no bytes. The data of an item that the schema does not
/// know is shown as it is.
pub open spec fn local_app_fields(
    q: Query,
    data: Seq<u8>,
    index: int,
    module: bool,
    need_delete: bool,
) -> Seq<FieldView> {
    let di = data.subrange(0, 4);
    let rest = data.subrange(4, data.len() as int);
    let id = hex_concat(di.reverse());
    let el = q.item(id);
    let first = if module {
        bytes_field(data, index, "数据标识编码"@, local_item_text(id, el), 0, 4)
    } else {
        branch_field(
            "数据标识编码"@,
            hex_spaced(di),
            local_item_text(id, el),
            index,
            index + 4,
            di_fields(di, index),
        )
    };
    match el {
        Some(e) => {
            let size = local_size(q, e, rest);
            let shown = rest.take(size as int);
            if module && size == 0 {
                seq![first]
            } else {
                seq![
                    first,
                    branch_field(
                        "数据标识内容"@,
                        hex_spaced(shown),
                        "数据内容："@ + hex_concat(shown.reverse()),
                        index + 4,
                        index + 4 + size,
                        decoded_item(q, e, shown, index + 4, need_delete, DECODE_DEPTH as nat),
                    ),
                ]
            }
        },
        None => seq![
            first,
            leaf_field(
                "数据标识内容"@,
                hex_spaced(rest),
                "数据内容："@ + hex_concat(rest.reverse()),
                index + 4,
                index + data.len(),
                None,
            ),
        ],
    }
}

/// The fields of the application data.
pub fn local_app_fields_of(
    repo: &ProtocolConfigManager,
    data: &[u8],
    dir: u8,
    index: usize,
    protocol: &str,
    region: &str,
    module: bool,
) -> (r: Vec<DecodedField>)
    requires
        repo.wf(),
        data@.len() >= 4,
        index + data@.len() <= usize::MAX,
    ensures
        fields_view(r@) == local_app_fields(
            query_of(repo, protocol@, region@, Some(dir)),
            data@,
            index as int,
            module,
            protocol@ == "DLT/645-2007"@,
        ),
{
    let n = data.len();
    let di = slice_subrange(data, 0, 4);
    let rest = slice_subrange(data, 4, n);
    let id = FrameFun::get_data_str_reverser(di);
    let el = lookup_item(repo, id.as_str(), protocol, region, Some(dir));
    let text = local_item_text_of(id.as_str(), &el);
    let first = if module {
        bytes_field_of(data, index, "数据标识编码", text, 0, 4)
    } else {
        branch(
            "数据标识编码",
            FrameFun::get_data_str_with_space(di),
            text,
            index,
            index + 4,
            di_fields_of(di, index),
        )
    };
    let mut out: Vec<DecodedField> = Vec::new();
    out.push(first);
    match &el {
        Some(e) => {
            let raw: usize = match e.get_child_text("length") {
                Some(t) => if is_unknown_text(t.as_str()) {
                    item_length_of(repo, e, rest, None, protocol, region, Some(dir), DECODE_DEPTH)
                } else {
                    number_or_zero_of(&Some(t))
                },
                None => rest.len(),
            };
            let size: usize = if raw <= rest.len() { raw } else { rest.len() };
            if module && size == 0 {
                assert(fields_view(out@) =~= seq![field_view(first)]);
            } else {
                let shown = slice_subrange(rest, 0, size);
                assert(shown@ =~= rest@.take(size as int));
                let below = FrameAnalisyic::prase_data(
                    repo,
                    e,
                    protocol,
                    region,
                    shown,
                    index + 4,
                    Some(dir),
                );
                let second = branch(
                    "数据标识内容",
                    FrameFun::get_data_str_with_space(shown),
                    join("数据内容：", FrameFun::get_data_str_reverser(shown).as_str()),
                    index + 4,
                    index + 4 + size,
                    below,
                );
                out.push(second);
                assert(fields_view(out@) =~= seq![field_view(first), field_view(second)]);
            }
        },
        None => {
            let second = plain(
                "数据标识内容",
                FrameFun::get_data_str_with_space(rest),
                join("数据内容：", FrameFun::get_data_str_reverser(rest).as_str()),
                index + 4,
                index + n,
            );
            out.push(second);
            assert(fields_view(out@) =~= seq![field_view(first), field_view(second)]);
        },
    }
    out
}

/// The fields of a frame of the concentrator protocol or, with `module`, of the
/// module protocol: its head, the user data with the application data below it,
/// and its end with the checksum over the bytes from the control byte on. Bytes
/// too few for a head, an identifier and an end have no fields.
pub open spec fn local_frame_fields(
    repo: &ProtocolConfigManager,
    protocol: Seq<char>,
    region: Seq<char>,
    frame: Seq<u8>,
    index: int,
    module: bool,
) -> Seq<FieldView> {
    if !local_fits(frame, module) {
        Seq::empty()
    } else {
        let n = frame.len() as int;
        let pos = afn_at(frame, module) + 2;
        let dir = (frame[3] >> 7) & 1;
        let app = frame.subrange(pos, n - 2);
        let user = frame.subrange(4, n - 2);
        local_head_fields(frame, index, module).push(
            branch_field(
                "用户数据域"@,
                hex_spaced(user),
                "用户数据:"@ + hex_concat(user.reverse()),
                index + 4,
                index + n - 2,
                local_user_fields(frame, index, module).push(
                    branch_field(
                        "应用数据域"@,
                        hex_spaced(app),
                        "应用数据:"@ + hex_concat(app.reverse()),
                        index + pos,
                        index + n - 2,
                        local_app_fields(
                            query_of(repo, protocol, region, Some(dir)),
                            app,
                            index + pos,
                            module,
                            protocol == "DLT/645-2007"@,
                        ),
                    ),
                ),
            ),
        ) + end_fields(
            frame,
            index,
            3,
            "校验和CS"@,
            "校验和:正确"@,
            "校验和:错误，应为："@,
            "结束符"@,
            "结束符"@,
        )
    }
}

/// Whether a frame has the bytes of its head, of an identifier and of its end.
pub fn local_fits_of(frame: &[u8], module: bool) -> (r: bool)
    ensures
        r == local_fits(frame@, module),
{
    let n = frame.len();
    if n < 12 {
        return false;
    }
    if !module && (frame[3] >> 5) & 1 == 1 {
        n >= 24
    } else {
        true
    }
}

/// Appends the fields of a frame of the concentrator protocol or, with `module`,
/// of the module protocol.
pub fn local_frame(
    repo: &ProtocolConfigManager,
    frame: &[u8],
    result_list: &mut Vec<DecodedField>,
    index: usize,
    protocol: &str,
    region: &str,
    module: bool,
)
    requires
        repo.wf(),
        index + frame@.len() <= usize::MAX,
    ensures
        fields_view(final(result_list)@) == fields_view(old(result_list)@) + local_frame_fields(
            repo,
            protocol@,
            region@,
            frame@,
            index as int,
            module,
        ),
{
    let ghost before = fields_view(result_list@);
    if !local_fits_of(frame, module) {
        assert(before + Seq::<FieldView>::empty() =~= before);
        return ;
    }
    let n = frame.len();
    let (dir, _prm, _add, _afn, pos, user_result) = local_head_of(frame, result_list, index, module);
    let mut user_result = user_result;
    let app_data = slice_subrange(frame, pos, n - 2);
    let app_fields = local_app_fields_of(repo, app_data, dir, index + pos, protocol, region, module);
    let app = branch(
        "应用数据域",
        FrameFun::get_data_str_with_space(app_data),
        join("应用数据:", FrameFun::get_data_str_reverser(app_data).as_str()),
        index + pos,
        index + n - 2,
        app_fields,
    );
    proof {
        lemma_fields_view_push(user_result@, app);
    }
    user_result.push(app);
    let user_data = slice_subrange(frame, 4, n - 2);
    let user = branch(
        "用户数据域",
        FrameFun::get_data_str_with_space(user_data),
        join("用户数据:", FrameFun::get_data_str_reverser(user_data).as_str()),
        index + 4,
        index + n - 2,
        user_result,
    );
    proof {
        lemma_fields_view_push(result_list@, user);
    }
    result_list.push(user);
    push_end_fields(
        frame,
        result_list,
        index,
        3,
        "校验和CS",
        "校验和:正确",
        "校验和:错误，应为：",
        "结束符",
        "结束符",
    );
    proof {
        let head = local_head_fields(frame@, index as int, module);
        let ends = end_fields(
            frame@,
            index as int,
            3,
            "校验和CS"@,
            "校验和:正确"@,
            "校验和:错误，应为："@,
            "结束符"@,
            "结束符"@,
        );
        assert((before + head).push(field_view(user)) + ends =~= before + (head.push(field_view(user))
            + ends));
    }
}

impl FrameCCO {
    /// Appends the fields below a control byte, and gives the direction, the
    /// station that started, the mark of an address field and the version.
    pub fn get_control_code_str(
        control_data: u8,
        control_result: &mut Vec<DecodedField>,
        index: usize,
    ) -> (r: (u8, u8, u8, u8))
        requires
            index + 1 <= usize::MAX,
        ensures
            fields_view(final(control_result)@) == fields_view(old(control_result)@)
                + local_control_fields(control_data, index as int, false),
            r == (
                (control_data >> 7) & 1,
                (control_data >> 6) & 1,
                (control_data >> 5) & 1,
                control_data & 0x0c,
            ),
    {
        let mut fields = local_control_fields_of(control_data, index, false);
        proof {
            lemma_fields_view_concat(control_result@, fields@);
        }
        control_result.append(&mut fields);
        (
            (control_data >> 7) & 1,
            (control_data >> 6) & 1,
            (control_data >> 5) & 1,
            control_data & 0x0c,
        )
    }

    /// Appends the fields of an address field.
    pub fn get_user_data_result(
        adress_area: &[u8],
        _add: u8,
        result_list: &mut Vec<DecodedField>,
        index: usize,
    )
        requires
            adress_area@.len() >= 12,
            index + adress_area@.len() <= usize::MAX,
        ensures
            fields_view(final(result_list)@) == fields_view(old(result_list)@) + address_fields(
                adress_area@,
                index as int,
            ),
    {
        let mut fields = address_fields_of(adress_area, index);
        proof {
            lemma_fields_view_concat(result_list@, fields@);
        }
        result_list.append(&mut fields);
    }

    /// Appends the fields of a frame.
    pub fn analysic_cco_frame_by_afn(
        repo: &ProtocolConfigManager,
        frame: &[u8],
        result_list: &mut Vec<DecodedField>,
        index: usize,
        region: &str,
    )
        requires
            repo.wf(),
            index + frame@.len() <= usize::MAX,
        ensures
            fields_view(final(result_list)@) == fields_view(old(result_list)@) + local_frame_fields(
                repo,
                "CSG16"@,
                region@,
                frame@,
                index as int,
                false,
            ),
    {
        local_frame(repo, frame, result_list, index, "CSG16", region, false);
    }
}

} // verus!
