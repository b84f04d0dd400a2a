//! The frames of the module protocol: their recognition, the table of function
//! codes and their fields.

use vstd::prelude::*;
use vstd::string::*;
use crate::decoded::{fields_view, DecodedField};
use crate::frame_cco::{
    check_framed, check_module_mark, has_module_mark, is_framed, local_control_fields,
    local_control_fields_of, local_frame, local_frame_fields,
};
use crate::protocol::lemma_fields_view_concat;
use crate::xmlconfig::ProtocolConfigManager;

verus! {

/// Whether bytes are a module frame: framed, with an identifier that carries the
/// mark of the module protocol.
pub open spec fn is_moudle(frame: Seq<u8>) -> bool {
    is_framed(frame) && has_module_mark(frame)
}

/// The name of a function code of the module protocol.
pub open spec fn moudle_afn_text(afn: u8, item: u64) -> Seq<char> {
    if afn == 0x00 {
        "确认/否认"@
    } else if afn == 0x01 {
        "初始化模块"@
    } else if afn == 0x03 {
        "读参数"@
    } else if afn == 0x04 {
        "写参数"@
    } else if afn == 0x05 {
        if item == 0xEC050501 { "上报信息"@ } else { "电池管理"@ }
    } else if afn == 0x06 {
        "请求信息"@
    } else if afn == 0x07 {
        "传输文件"@
    } else if afn == 0x10 {
        "维护命令"@
    } else if afn == 0x41 {
        "遥信脉冲管理"@
    } else if afn == 0x42 {
        "遥信脉冲上报"@
    } else if afn == 0x43 {
        "遥控输出管理"@
    } else if afn == 0x44 {
        "模拟量采集管理"@
    } else if afn == 0x46 {
        "电池异常上报"@
    } else if afn == 0xF0 {
        "维护模块"@
    } else {
        "未知"@
    }
}

/// The frames of the module protocol.
pub struct FrameMoudle;

impl FrameMoudle {
    /// Whether bytes are a module frame.
    pub fn is_moudle_frame(frame: &[u8]) -> (r: bool)
        ensures
            r == is_moudle(frame@),
    {
        check_framed(frame) && check_module_mark(frame)
    }

    /// The name of a function code.
    pub fn get_afn_info(afn: u8, item: u64) -> (r: &'static str)
        ensures
            r@ == moudle_afn_text(afn, item),
    {
        match afn {
            0x00 => "确认/否认",
            0x01 => "初始化模块",
            0x03 => "读参数",
            0x04 => "写参数",
            0x05 => {
                if item == 0xEC050501 {
                    "上报信息"
                } else {
                    "电池管理"
                }
            },
            0x06 => "请求信息",
            0x07 => "传输文件",
            0x10 => "维护命令",
            0x41 => "遥信脉冲管理",
            0x42 => "遥信脉冲上报",
            0x43 => "遥控输出管理",
            0x44 => "模拟量采集管理",
            0x46 => "电池异常上报",
            0xF0 => "维护模块",
            _ => "未知",
        }
    }

    /// Appends the fields below a control byte, and gives the direction, the
    /// station that started, the bit in reserve behind them and the version.
    pub fn get_control_code_str(
        control_data: u8,
        control_result: &mut Vec<DecodedField>,
        index: usize,
    ) -> (r: (u8, u8, u8, u8))
        requires
            index + 1 <= usize::MAX,
        ensures
            fields_view(final(control_result)@) == fields_view(old(control_result)@)
                + local_control_fields(control_data, index as int, true),
            r == (
                (control_data >> 7) & 1,
                (control_data >> 6) & 1,
                (control_data >> 5) & 1,
                control_data & 0x0c,
            ),
    {
        let mut fields = local_control_fields_of(control_data, index, true);
        proof {
            lemma_fields_view_concat(control_result@, fields@);
        }
        control_result.append(&mut fields);
        (
            (control_data >> 7) & 1,
            (control_data >> 6) & 1,
            (control_data >> 5) & 1,
            control_data & 0x0c,
        )
    }

    /// Appends the fields of a frame.
    pub fn analysic_moudle_frame(
        repo: &ProtocolConfigManager,
        frame: &[u8],
        result_list: &mut Vec<DecodedField>,
        index: usize,
        region: &str,
    )
        requires
            repo.wf(),
            index + frame@.len() <= usize::MAX,
        ensures
            fields_view(final(result_list)@) == fields_view(old(result_list)@) + local_frame_fields(
                repo,
                "moudle"@,
                region@,
                frame@,
                index as int,
                true,
            ),
    {
        local_frame(repo, frame, result_list, index, "moudle", region, true);
    }
}

} // verus!
