//! Bare history data: bytes without a frame around them that start with a data
//! unit of a known item, and the fields of their units.

use vstd::prelude::*;
use vstd::string::*;
use vstd::slice::*;
use crate::builders::{branch, branch_field, bytes_field, bytes_field_of, join};
use crate::decoded::{field_view, fields_view, DecodedField, FieldView};
use crate::frame_csg::FrameCsg;
use crate::frame_csg_units::{
    identifier_text, identifier_text_of, take_all, unit_label, unit_label_of, unit_point_text,
    value_length, value_length_of, UnitLength,
};
use crate::frame_err::CustomError;
use crate::frame_fun::{time_text, FrameFun};
use crate::protocol::{
    decoded_item, lemma_fields_view_concat, lemma_fields_view_push, query_of, replace_all,
    replace_text, FrameAnalisyic, Query, DECODE_DEPTH,
};
use crate::text::{hex_concat, hex_spaced, push_str};
use crate::xmlconfig::{opt_element_view, ElementView, ProtocolConfigManager, XmlElement};

verus! {

/// Bare history data.
pub struct SpcialFrame;

impl SpcialFrame {
    /// Whether bytes are bare history data: at least six bytes of which bytes 2
    /// to 5, read as an identifier, resolve to an item of the protocol `CSG13` in
    /// the upward direction.
    pub fn is_special_frame(repo: &ProtocolConfigManager, data: &[u8], region: &str) -> (r: bool)
        requires
            repo.wf(),
        ensures
            r == (data@.len() >= 6 && query_of(repo, "CSG13"@, region@, Some(1u8)).item(
                hex_concat(data@.subrange(2, 6).reverse()),
            ) is Some),
    {
        if data.len() < 6 {
            return false;
        }
        let item = slice_subrange(data, 2, 6);
        let (elem, _name) = FrameCsg::try_get_item_and_point(repo, item, "CSG13", region, Some(1));
        elem.is_some()
    }
}

/// The number of bytes of the data of a unit: the declared length of its item,
/// resolved over the bytes that are left; nothing for an item that is not known.
pub open spec fn history_size(q: Query, el: Option<ElementView>, rest: Seq<u8>) -> nat {
    match el {
        Some(e) => match value_length(q, e, rest, true, take_all(0), take_all(0)) {
            UnitLength::Take(l, _) => l as nat,
            _ => 0,
        },
        None => 0,
    }
}

/// The number of bytes of the data of a unit.
pub fn history_size_of(
    repo: &ProtocolConfigManager,
    el: &Option<XmlElement>,
    rest: &[u8],
    protocol: &str,
    region: &str,
    dir: u8,
) -> (r: usize)
    requires
        repo.wf(),
    ensures
        r == history_size(query_of(repo, protocol@, region@, Some(dir)), opt_element_view(*el), rest@),
        r <= rest@.len(),
{
    match el {
        Some(e) => match value_length_of(
            repo,
            e,
            rest,
            true,
            UnitLength::Take(0, 0),
            UnitLength::Take(0, 0),
            protocol,
            region,
            dir,
        ) {
            UnitLength::Take(l, _) => l,
            _ => 0,
        },
        None => 0,
    }
}

/// The fields of the unit at `pos` before its time: the point, the identifier of
/// the item, and the data of the item with its decode below.
pub open spec fn history_unit(
    q: Query,
    need_delete: bool,
    data: Seq<u8>,
    index: int,
    pos: nat,
    num: nat,
) -> Seq<FieldView> {
    let p = pos as int;
    let da = data.subrange(p, p + 2);
    let id = hex_concat(data.subrange(p + 2, p + 6).reverse());
    let el = q.item(id);
    let rest = data.subrange(p + 6, data.len() as int);
    let size = history_size(q, el, rest);
    let shown = rest.take(size as int);
    seq![
        bytes_field(data, index, unit_label(num, "信息点标识DA"@), unit_point_text(da), p, p + 2),
        bytes_field(
            data,
            index,
            unit_label(num, "数据标识编码DI"@),
            identifier_text(id, el),
            p + 2,
            p + 6,
        ),
        branch_field(
            unit_label(num, "数据内容"@),
            hex_spaced(shown),
            replace_all(unit_point_text(da), "Pn="@, Seq::empty()) + "-"@ + replace_all(
                identifier_text(id, el),
                "数据标识编码："@,
                Seq::empty(),
            ),
            index + p + 6,
            index + p + 6 + size,
            match el {
                Some(e) => decoded_item(q, e, shown, index + p + 6, need_delete, DECODE_DEPTH as nat),
                None => Seq::empty(),
            },
        ),
    ]
}

/// The fields of the units from `pos` on, after those in `acc`: each unit is a
/// point, an identifier, the data of the item and a time of five bytes. The
/// reading stops where six bytes for a point and an identifier are not left, and
/// behind the data of a unit where five bytes for its time are not left.
pub open spec fn history_from(
    q: Query,
    need_delete: bool,
    data: Seq<u8>,
    index: int,
    pos: nat,
    num: nat,
    acc: Seq<FieldView>,
) -> Seq<FieldView>
    decreases data.len() - pos,
{
    if pos + 6 > data.len() {
        acc
    } else {
        let p = pos as int;
        let id = hex_concat(data.subrange(p + 2, p + 6).reverse());
        let size = history_size(q, q.item(id), data.subrange(p + 6, data.len() as int));
        let unit = history_unit(q, need_delete, data, index, pos, num);
        let at = p + 6 + size;
        if at + 5 > data.len() {
            acc + unit
        } else {
            history_from(
                q,
                need_delete,
                data,
                index,
                (at + 5) as nat,
                num + 1,
                acc + unit.push(
                    bytes_field(
                        data,
                        index,
                        unit_label(num, "数据时间"@),
                        "数据时间："@ + time_text(data.subrange(at, at + 5), "YYMMDDhhmm"@, false),
                        at,
                        at + 5,
                    ),
                ),
            )
        }
    }
}

/// The fields of the unit at `pos` before its time, and the number of bytes of
/// its data.
pub fn history_unit_of(
    repo: &ProtocolConfigManager,
    data: &[u8],
    index: usize,
    pos: usize,
    num: usize,
    protocol: &str,
    region: &str,
    dir: u8,
) -> (r: (Vec<DecodedField>, usize))
    requires
        repo.wf(),
        pos + 6 <= data@.len(),
        index + data@.len() <= usize::MAX,
        num < usize::MAX,
    ensures
        fields_view(r.0@) == history_unit(
            query_of(repo, protocol@, region@, Some(dir)),
            protocol@ == "DLT/645-2007"@,
            data@,
            index as int,
            pos as nat,
            num as nat,
        ),
        r.1 == history_size(
            query_of(repo, protocol@, region@, Some(dir)),
            query_of(repo, protocol@, region@, Some(dir)).item(
                hex_concat(data@.subrange(pos as int + 2, pos as int + 6).reverse()),
            ),
            data@.subrange(pos as int + 6, data@.len() as int),
        ),
        pos + 6 + r.1 <= data@.len(),
{
    let n = data.len();
    let da = slice_subrange(data, pos, pos + 2);
    let item = slice_subrange(data, pos + 2, pos + 6);
    let rest = slice_subrange(data, pos + 6, n);
    let point = FrameFun::parse_da_data(da);
    let (el, id) = FrameCsg::try_get_item_and_point(repo, item, protocol, region, Some(dir));
    let ident = identifier_text_of(id.as_str(), &el);
    let size = history_size_of(repo, &el, rest, protocol, region, dir);
    let shown = slice_subrange(rest, 0, size);
    assert(shown@ =~= rest@.take(size as int));
    proof {
        reveal_strlit("");
        assert(""@ =~= Seq::<char>::empty());
    }
    let mut text = replace_text(point.as_str(), "Pn=", "");
    push_str(&mut text, "-");
    push_str(&mut text, replace_text(ident.as_str(), "数据标识编码：", "").as_str());
    let below: Vec<DecodedField> = match &el {
        Some(e) => FrameAnalisyic::prase_data(repo, e, protocol, region, shown, index + pos + 6, Some(dir)),
        None => Vec::new(),
    };
    assert(el is None ==> fields_view(below@) =~= Seq::empty());
    let f1 = bytes_field_of(
        data,
        index,
        unit_label_of(num, "信息点标识DA").as_str(),
        point,
        pos,
        pos + 2,
    );
    let f2 = bytes_field_of(
        data,
        index,
        unit_label_of(num, "数据标识编码DI").as_str(),
        ident,
        pos + 2,
        pos + 6,
    );
    let f3 = branch(
        unit_label_of(num, "数据内容").as_str(),
        FrameFun::get_data_str_with_space(shown),
        text,
        index + pos + 6,
        index + pos + 6 + size,
        below,
    );
    let mut out: Vec<DecodedField> = Vec::new();
    out.push(f1);
    out.push(f2);
    out.push(f3);
    assert(fields_view(out@) =~= seq![field_view(f1), field_view(f2), field_view(f3)]);
    (out, size)
}

impl SpcialFrame {
    /// Appends the fields of the units of bare history data of one protocol in
    /// one direction.
    pub fn analysic_csg_history_data_frame(
        repo: &ProtocolConfigManager,
        frame: &[u8],
        dir: u8,
        sub_result: &mut Vec<DecodedField>,
        start_pos: usize,
        protocol: &str,
        region: &str,
    ) -> (r: Result<(), CustomError>)
        requires
            repo.wf(),
            start_pos + frame@.len() <= usize::MAX,
        ensures
            r is Ok,
            fields_view(final(sub_result)@) == history_from(
                query_of(repo, protocol@, region@, Some(dir)),
                protocol@ == "DLT/645-2007"@,
                frame@,
                start_pos as int,
                0,
                0,
                fields_view(old(sub_result)@),
            ),
    {
        let ghost q = query_of(repo, protocol@, region@, Some(dir));
        let ghost nd = protocol@ == "DLT/645-2007"@;
        let ghost want = history_from(q, nd, frame@, start_pos as int, 0, 0, fields_view(sub_result@));
        let n = frame.len();
        let mut pos: usize = 0;
        let mut num: usize = 0;
        while n - pos >= 6
            invariant_except_break
                history_from(q, nd, frame@, start_pos as int, pos as nat, num as nat, fields_view(sub_result@))
                    == want,
            invariant
                repo.wf(),
                n == frame@.len(),
                pos <= n,
                num <= pos,
                start_pos + n <= usize::MAX,
                q == query_of(repo, protocol@, region@, Some(dir)),
                nd == (protocol@ == "DLT/645-2007"@),
            ensures
                fields_view(sub_result@) == want,
            decreases n - pos,
        {
            let ghost before = sub_result@;
            let (unit, size) = history_unit_of(repo, frame, start_pos, pos, num, protocol, region, dir);
            let mut unit = unit;
            let at = pos + 6 + size;
            if n - at < 5 {
                proof {
                    lemma_fields_view_concat(before, unit@);
                }
                sub_result.append(&mut unit);
                break ;
            }
            let time = slice_subrange(frame, at, at + 5);
            let t = bytes_field_of(
                frame,
                start_pos,
                unit_label_of(num, "数据时间").as_str(),
                join("数据时间：", FrameFun::parse_time_data(time, "YYMMDDhhmm", false).as_str()),
                at,
                at + 5,
            );
            proof {
                lemma_fields_view_push(unit@, t);
                lemma_fields_view_concat(before, unit@.push(t));
            }
            unit.push(t);
            sub_result.append(&mut unit);
            pos = at + 5;
            num = num + 1;
        }
        Ok(())
    }

    /// Appends the fields of the units of bare history data: those of the
    /// protocol `CSG13` in the upward direction.
    pub fn analysic_special_frame(
        repo: &ProtocolConfigManager,
        frame: &[u8],
        result_list: &mut Vec<DecodedField>,
        index: usize,
        region: &str,
    ) -> (r: Result<(), CustomError>)
        requires
            repo.wf(),
            index + frame@.len() <= usize::MAX,
        ensures
            r is Ok,
            fields_view(final(result_list)@) == history_from(
                query_of(repo, "CSG13"@, region@, Some(1u8)),
                false,
                frame@,
                index as int,
                0,
                0,
                fields_view(old(result_list)@),
            ),
    {
        proof {
            reveal_strlit("CSG13");
            reveal_strlit("DLT/645-2007");
            assert("CSG13"@ != "DLT/645-2007"@) by {
                assert("CSG13"@.len() != "DLT/645-2007"@.len());
            }
        }
        Self::analysic_csg_history_data_frame(repo, frame, 1, result_list, index, "CSG13", region)
    }
}

} // verus!
