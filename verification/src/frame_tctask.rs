//! Meter task lists: their recognition, the tables of their objects and their
//! fields.

use vstd::prelude::*;
use vstd::string::*;
use vstd::slice::*;
use crate::builders::{branch, branch_field, bytes_field, bytes_field_of, join};
use crate::decoded::{field_view, fields_view, DecodedField, FieldView};
use crate::frame_cco::dec_of;
use crate::frame_csg::hex_of;
use crate::frame_csg_units::{take_all, unit_label, unit_label_of, value_length, UnitLength};
use crate::frame_err::CustomError;
use crate::frame_fun::{be_u32, FrameFun};
use crate::oadmapconfig::TaskOadConfigManager;
use crate::protocol::{
    decoded_item, is_unknown_text, item_length_of, lemma_fields_view_concat,
    lemma_fields_view_push, lookup_item, query_of, text_or, FrameAnalisyic, Query, DECODE_DEPTH,
};
use crate::text::{
    dec_string, hex_concat, hex_spaced, hex_upper, parse_usize, push_char, push_str, upper,
    uppercase_of,
};
use crate::xmlconfig::{ElementView, ProtocolConfigManager};

verus! {

/// Whether bytes are a meter task list: more than 26 bytes with the marks of the
/// list at their fixed places.
pub open spec fn is_task(t: Seq<u8>) -> bool {
    t.len() > 26 && t[0] == 0x01 && t[4] == 0x51 && t[9] == 0x51 && t[14] == 0x51 && t[25] == 0x5C
}

/// The name of a master object.
pub open spec fn master_oad_text(master_oad: u32) -> Option<Seq<char>> {
    if master_oad == 0x00000000 {
        Some("当前数据"@)
    } else if master_oad == 0x50020200 {
        Some("分钟冻结"@)
    } else if master_oad == 0x50040200 {
        Some("日冻结"@)
    } else if master_oad == 0x50060200 {
        Some("月冻结"@)
    } else {
        None
    }
}

/// The name of a kind of range.
pub open spec fn range_type_text(range_type: u8) -> Seq<char> {
    if range_type == 0 {
        "前闭后开"@
    } else if range_type == 1 {
        "前开后闭"@
    } else if range_type == 2 {
        "前闭后闭"@
    } else if range_type == 3 {
        "前开后开"@
    } else {
        "未知"@
    }
}

/// The data item and its name for an attribute of a master object: nothing where
/// the table has no mapping; the item in upper case without a name where the
/// schema does not know the item; both where the schema names it, and nothing
/// where it knows the item without a name.
pub open spec fn sub_oad_info(
    repo: &ProtocolConfigManager,
    oads: &TaskOadConfigManager,
    master_oad: Seq<char>,
    sub_oad: Seq<char>,
    region: Seq<char>,
) -> (Seq<char>, Seq<char>) {
    match oads.voad(master_oad, sub_oad) {
        None => (Seq::empty(), Seq::empty()),
        Some(m) => {
            let item = uppercase_of(m.item_07@);
            match query_of(repo, "DLT/645-2007"@, region, None).item(item) {
                None => (item, Seq::empty()),
                Some(el) => match el.child_text("name"@) {
                    Some(n) => (item, n),
                    None => (Seq::empty(), Seq::empty()),
                },
            }
        },
    }
}

/// The meter task lists.
pub struct TCMeterTask;

impl TCMeterTask {
    /// Whether bytes are a meter task list.
    pub fn is_meter_task(task_content: &[u8]) -> (r: bool)
        ensures
            r == is_task(task_content@),
    {
        if task_content.len() <= 26 {
            return false;
        }
        task_content[0] == 0x01 && task_content[4] == 0x51 && task_content[9] == 0x51
            && task_content[14] == 0x51 && task_content[25] == 0x5C
    }

    /// The object that the first four bytes name, most significant byte first, and
    /// the number of bytes read.
    pub fn get_oad(task_content: &[u8]) -> (r: (u32, usize))
        requires
            task_content@.len() >= 4,
        ensures
            r.0 == be_u32(task_content@.subrange(0, 4)),
            r.1 == 4,
    {
        let master_oad = FrameFun::cosem_bin2_int32u(slice_subrange(task_content, 0, 4));
        (master_oad, 4)
    }

    /// The name of a master object.
    pub fn get_master_oad_info(master_oad: u32) -> (r: Option<&'static str>)
        ensures
            r is Some == master_oad_text(master_oad) is Some,
            r is Some ==> r.unwrap()@ == master_oad_text(master_oad).unwrap(),
    {
        match master_oad {
            0x00000000 => Some("当前数据"),
            0x50020200 => Some("分钟冻结"),
            0x50040200 => Some("日冻结"),
            0x50060200 => Some("月冻结"),
            _ => None,
        }
    }

    /// The data item and its name for an attribute of a master object.
    pub fn get_sub_oad_info(
        repo: &ProtocolConfigManager,
        oads: &TaskOadConfigManager,
        master_oad: &str,
        sub_oad: &str,
        region: &str,
    ) -> (r: (String, String))
        requires
            repo.wf(),
        ensures
            (r.0@, r.1@) == sub_oad_info(repo, oads, master_oad@, sub_oad@, region@),
    {
        match oads.get_voad(master_oad, sub_oad) {
            None => (String::new(), String::new()),
            Some(m) => {
                let item_set = upper(m.item_07.as_str());
                match lookup_item(repo, item_set.as_str(), "DLT/645-2007", region, None) {
                    None => (item_set, String::new()),
                    Some(el) => match el.get_child_text("name") {
                        Some(n) => (item_set, n),
                        None => (String::new(), String::new()),
                    },
                }
            },
        }
    }

    /// The name of a kind of range.
    pub fn get_range_type(range_type: u8) -> (r: &'static str)
        ensures
            r@ == range_type_text(range_type),
    {
        match range_type {
            0 => "前闭后开",
            1 => "前开后闭",
            2 => "前闭后闭",
            3 => "前开后开",
            _ => "未知",
        }
    }
}

/// The query for the kinds of meter sets.
pub open spec fn ms_query(repo: &ProtocolConfigManager) -> Query {
    query_of(repo, "MS"@, "南网"@, None)
}

/// The number of bytes that a meter set of a kind takes: the declared length of
/// the kind as the schema has it, resolved over the bytes that are left; nothing
/// for a kind that the schema does not know.
pub open spec fn ms_size(q: Query, el: Option<ElementView>, rest: Seq<u8>) -> nat {
    match el {
        Some(e) => match value_length(q, e, rest, false, take_all(0), take_all(0)) {
            UnitLength::Take(l, _) => l as nat,
            _ => 0,
        },
        None => 0,
    }
}

/// The name of a kind of meter set.
pub open spec fn ms_name(el: Option<ElementView>) -> Seq<char> {
    match el {
        Some(e) => text_or(e.child_text("name"@), Seq::empty()),
        None => "未知类型"@,
    }
}

/// The fields of a meter set of a kind.
pub open spec fn ms_fields(q: Query, el: Option<ElementView>, rest: Seq<u8>, start_pos: int) -> Seq<
    FieldView,
> {
    match el {
        Some(e) => decoded_item(
            q,
            e,
            rest.take(ms_size(q, el, rest) as int),
            start_pos,
            false,
            DECODE_DEPTH as nat,
        ),
        None => Seq::empty(),
    }
}

/// The text for an attribute of a master object.
pub open spec fn sub_oad_text(sub: Seq<char>, item: Seq<char>, info: Seq<char>) -> Seq<char> {
    if item.len() > 0 {
        if info.len() > 0 {
            "分数据项:"@ + sub + "-"@ + item + ":"@ + info
        } else {
            "分数据项:"@ + sub + "-"@ + item
        }
    } else {
        "分数据项:"@ + sub
    }
}

/// The text for a master object.
pub open spec fn master_text(m: Seq<u8>) -> Seq<char> {
    match master_oad_text(be_u32(m)) {
        Some(t) => "主数据项:"@ + hex_concat(m) + "-"@ + t,
        None => "主数据项:"@ + hex_concat(m),
    }
}

/// The fields below the group that starts at `start`, before the bytes of its
/// meter set: the master object, two attributes of it, and the kind of its
/// meter set.
pub open spec fn task_group_head(
    repo: &ProtocolConfigManager,
    oads: &TaskOadConfigManager,
    region: Seq<char>,
    task: Seq<u8>,
    index: int,
    start: int,
) -> Seq<FieldView> {
    let m = task.subrange(start + 3, start + 7);
    let s1 = task.subrange(start + 8, start + 12);
    let s2 = task.subrange(start + 13, start + 17);
    let info = sub_oad_info(repo, oads, hex_concat(m), hex_concat(s1), region);
    seq![
        bytes_field(task, index, "主数据项"@, master_text(m), start + 3, start + 7),
        bytes_field(
            task,
            index,
            "分数据项"@,
            sub_oad_text(hex_concat(s1), info.0, info.1),
            start + 8,
            start + 12,
        ),
        bytes_field(task, index, "分数据项"@, "分数据项:"@ + hex_concat(s2), start + 13, start + 17),
        bytes_field(
            task,
            index,
            "MS"@,
            ms_name(ms_query(repo).item(hex_upper(task[start + 24]))),
            start + 24,
            start + 25,
        ),
    ]
}

/// The number of bytes of the meter set of the group that starts at `start`.
pub open spec fn task_group_size(repo: &ProtocolConfigManager, task: Seq<u8>, start: int) -> nat {
    let q = ms_query(repo);
    ms_size(q, q.item(hex_upper(task[start + 24])), task.subrange(start + 25, task.len() as int))
}

/// The field of the group that starts at `start`, a group of 25 bytes and the
/// bytes of its meter set, which are shown where there are some.
pub open spec fn task_group(
    repo: &ProtocolConfigManager,
    oads: &TaskOadConfigManager,
    region: Seq<char>,
    task: Seq<u8>,
    index: int,
    start: int,
    num: nat,
) -> FieldView {
    let q = ms_query(repo);
    let el = q.item(hex_upper(task[start + 24]));
    let at = start + 25;
    let rest = task.subrange(at, task.len() as int);
    let len = task_group_size(repo, task, start);
    let head = task_group_head(repo, oads, region, task, index, start);
    branch_field(
        unit_label(num, "数据采集"@),
        hex_spaced(task.subrange(start, at + len)),
        unit_label(num, "数据采集"@) + ":"@ + hex_concat(task.subrange(start + 3, start + 7)),
        index + start,
        index + at + len,
        if len > 0 {
            head.push(
                branch_field(
                    "MS内容"@,
                    hex_spaced(task.subrange(at, at + len)),
                    "MS内容:"@ + hex_concat(task.subrange(at, at + len)),
                    index + at,
                    index + at + len,
                    ms_fields(q, el, rest, index + at),
                ),
            )
        } else {
            head
        },
    )
}

/// The fields of the groups from `start` on, after those in `acc`: `count`
/// groups in all, as far as the bytes hold whole groups.
pub open spec fn task_groups_from(
    repo: &ProtocolConfigManager,
    oads: &TaskOadConfigManager,
    region: Seq<char>,
    task: Seq<u8>,
    index: int,
    start: nat,
    num: nat,
    count: nat,
    acc: Seq<FieldView>,
) -> Seq<FieldView>
    decreases count - num,
{
    if num >= count || start + 25 > task.len() {
        acc
    } else {
        task_groups_from(
            repo,
            oads,
            region,
            task,
            index,
            (start + 25 + task_group_size(repo, task, start as int)) as nat,
            num + 1,
            count,
            acc.push(task_group(repo, oads, region, task, index, start as int, num)),
        )
    }
}

/// The fields of a task list: the number of its groups, which is its second
/// byte, and the groups. A list without groups has no fields.
pub open spec fn task_fields(
    repo: &ProtocolConfigManager,
    oads: &TaskOadConfigManager,
    region: Seq<char>,
    task: Seq<u8>,
    index: int,
) -> Seq<FieldView> {
    if task.len() < 2 || task[1] == 0 {
        Seq::empty()
    } else {
        task_groups_from(
            repo,
            oads,
            region,
            task,
            index,
            2,
            0,
            task[1] as nat,
            seq![
                bytes_field(task, index, "数据项个数"@, "采集数据项个数："@ + dec_string(task[1] as nat), 1, 2),
            ],
        )
    }
}

/// The fields below the group that starts at `start`, before the bytes of its
/// meter set.
pub fn task_group_head_of(
    repo: &ProtocolConfigManager,
    oads: &TaskOadConfigManager,
    task: &[u8],
    index: usize,
    start: usize,
    region: &str,
    ms_info: String,
) -> (r: Vec<DecodedField>)
    requires
        repo.wf(),
        start + 25 <= task@.len(),
        index + task@.len() <= usize::MAX,
        ms_info@ == ms_name(ms_query(repo).item(hex_upper(task@[start + 24]))),
    ensures
        fields_view(r@) == task_group_head(repo, oads, region@, task@, index as int, start as int),
{
    let m = slice_subrange(task, start + 3, start + 7);
    let s1 = slice_subrange(task, start + 8, start + 12);
    let s2 = slice_subrange(task, start + 13, start + 17);
    let (master_oad, _len) = TCMeterTask::get_oad(m);
    assert(m@.subrange(0, 4) =~= m@);
    let master_str = FrameFun::get_data_str_order(m);
    let mut t1 = join("主数据项:", master_str.as_str());
    match TCMeterTask::get_master_oad_info(master_oad) {
        Some(name) => {
            push_str(&mut t1, "-");
            push_str(&mut t1, name);
        },
        None => {},
    }
    let sub_str = FrameFun::get_data_str_order(s1);
    let (item, info) = TCMeterTask::get_sub_oad_info(
        repo,
        oads,
        master_str.as_str(),
        sub_str.as_str(),
        region,
    );
    let mut t2 = join("分数据项:", sub_str.as_str());
    if item.as_str().unicode_len() > 0 {
        push_str(&mut t2, "-");
        push_str(&mut t2, item.as_str());
        if info.as_str().unicode_len() > 0 {
            push_str(&mut t2, ":");
            push_str(&mut t2, info.as_str());
        }
    }
    assert(t2@ =~= sub_oad_text(sub_str@, item@, info@));
    let f1 = bytes_field_of(task, index, "主数据项", t1, start + 3, start + 7);
    let f2 = bytes_field_of(task, index, "分数据项", t2, start + 8, start + 12);
    let f3 = bytes_field_of(
        task,
        index,
        "分数据项",
        join("分数据项:", FrameFun::get_data_str_order(s2).as_str()),
        start + 13,
        start + 17,
    );
    let f4 = bytes_field_of(task, index, "MS", ms_info, start + 24, start + 25);
    let mut out: Vec<DecodedField> = Vec::new();
    out.push(f1);
    out.push(f2);
    out.push(f3);
    out.push(f4);
    assert(fields_view(out@) =~= seq![field_view(f1), field_view(f2), field_view(f3), field_view(f4)]);
    out
}

impl TCMeterTask {
    /// The number of bytes that a meter set of a kind takes, the name of the
    /// kind, and the fields of the set.
    pub fn get_ms_len_new(
        repo: &ProtocolConfigManager,
        ms_type: u8,
        task_content: &[u8],
        start_pos: usize,
    ) -> (r: (usize, String, Vec<DecodedField>))
        requires
            repo.wf(),
            start_pos + task_content@.len() <= usize::MAX,
        ensures
            r.0 == ms_size(ms_query(repo), ms_query(repo).item(hex_upper(ms_type)), task_content@),
            r.0 <= task_content@.len(),
            r.1@ == ms_name(ms_query(repo).item(hex_upper(ms_type))),
            fields_view(r.2@) == ms_fields(
                ms_query(repo),
                ms_query(repo).item(hex_upper(ms_type)),
                task_content@,
                start_pos as int,
            ),
    {
        proof {
            reveal_strlit("MS");
            reveal_strlit("DLT/645-2007");
            assert("MS"@ != "DLT/645-2007"@) by {
                assert("MS"@.len() != "DLT/645-2007"@.len());
            }
        }
        let ms_str = hex_of(ms_type);
        match lookup_item(repo, ms_str.as_str(), "MS", "南网", None) {
            Some(e) => {
                let name = match e.get_child_text("name") {
                    Some(n) => n,
                    None => String::new(),
                };
                let len: usize = match e.get_child_text("length") {
                    None => 0,
                    Some(t) => if is_unknown_text(t.as_str()) {
                        item_length_of(
                            repo,
                            &e,
                            task_content,
                            None,
                            "MS",
                            "南网",
                            None,
                            DECODE_DEPTH,
                        )
                    } else {
                        match parse_usize(t.as_str()) {
                            None => 0,
                            Some(raw) => if raw <= task_content.len() {
                                raw
                            } else {
                                task_content.len()
                            },
                        }
                    },
                };
                let shown = slice_subrange(task_content, 0, len);
                assert(shown@ =~= task_content@.take(len as int));
                let fields = FrameAnalisyic::prase_data(repo, &e, "MS", "南网", shown, start_pos, None);
                (len, name, fields)
            },
            None => {
                let fields: Vec<DecodedField> = Vec::new();
                assert(fields_view(fields@) =~= Seq::empty());
                (0, "未知类型".to_owned(), fields)
            },
        }
    }

    /// Appends the fields of a task list.
    pub fn analysic_meter_task(
        repo: &ProtocolConfigManager,
        oads: &TaskOadConfigManager,
        task_content: &[u8],
        result_list: &mut Vec<DecodedField>,
        index: usize,
        region: &str,
    ) -> (r: Result<(), CustomError>)
        requires
            repo.wf(),
            index + task_content@.len() <= usize::MAX,
        ensures
            r is Ok,
            fields_view(final(result_list)@) == fields_view(old(result_list)@) + task_fields(
                repo,
                oads,
                region@,
                task_content@,
                index as int,
            ),
    {
        let ghost before = fields_view(result_list@);
        let ghost want = task_fields(repo, oads, region@, task_content@, index as int);
        let n = task_content.len();
        if n < 2 || task_content[1] == 0 {
            assert(before + Seq::<FieldView>::empty() =~= before);
            return Ok(());
        }
        let oad_count = task_content[1];
        let mut out: Vec<DecodedField> = Vec::new();
        let first = bytes_field_of(
            task_content,
            index,
            "数据项个数",
            join("采集数据项个数：", dec_of(oad_count as u64).as_str()),
            1,
            2,
        );
        out.push(first);
        assert(fields_view(out@) =~= seq![field_view(first)]);
        let mut pos: usize = 2;
        let mut i: u8 = 0;
        while i < oad_count && n - pos >= 25
            invariant
                repo.wf(),
                n == task_content@.len(),
                index + n <= usize::MAX,
                pos <= n,
                i <= oad_count,
                task_groups_from(
                    repo,
                    oads,
                    region@,
                    task_content@,
                    index as int,
                    pos as nat,
                    i as nat,
                    oad_count as nat,
                    fields_view(out@),
                ) == want,
            decreases oad_count - i,
        {
            let start = pos;
            let at = start + 25;
            let ms_type = task_content[start + 24];
            let rest = slice_subrange(task_content, at, n);
            let (len, me_info, ms_data) = Self::get_ms_len_new(repo, ms_type, rest, index + at);
            let mut sub_result = task_group_head_of(repo, oads, task_content, index, start, region, me_info);
            if len > 0 {
                let shown = slice_subrange(task_content, at, at + len);
                assert(shown@ =~= rest@.take(len as int));
                let f = branch(
                    "MS内容",
                    FrameFun::get_data_str_with_space(shown),
                    join("MS内容:", FrameFun::get_data_str_order(shown).as_str()),
                    index + at,
                    index + at + len,
                    ms_data,
                );
                proof {
                    lemma_fields_view_push(sub_result@, f);
                }
                sub_result.push(f);
            }
            let label = unit_label_of(i as usize, "数据采集");
            let mut text = String::new();
            push_str(&mut text, label.as_str());
            push_str(&mut text, ":");
            push_str(
                &mut text,
                FrameFun::get_data_str_order(slice_subrange(task_content, start + 3, start + 7)).as_str(),
            );
            let group = branch(
                label.as_str(),
                FrameFun::get_data_str_with_space(slice_subrange(task_content, start, at + len)),
                text,
                index + start,
                index + at + len,
                sub_result,
            );
            proof {
                lemma_fields_view_push(out@, group);
                assert(field_view(group) == task_group(
                    repo,
                    oads,
                    region@,
                    task_content@,
                    index as int,
                    start as int,
                    i as nat,
                ));
            }
            out.push(group);
            pos = at + len;
            i = i + 1;
        }
        proof {
            lemma_fields_view_concat(result_list@, out@);
        }
        result_list.append(&mut out);
        Ok(())
    }
}

/// A number in decimal, with zeros before it up to a width.
pub open spec fn dec_padded(n: nat, width: nat) -> Seq<char> {
    let digits = dec_string(n);
    Seq::new((if digits.len() < width { width - digits.len() } else { 0 }) as nat, |i: int| '0')
        + digits
}

/// A number in decimal, with zeros before it up to a width.
pub fn dec_padded_of(n: u64, width: usize) -> (r: String)
    ensures
        r@ == dec_padded(n as nat, width as nat),
{
    let digits = dec_of(n);
    let len = digits.as_str().unicode_len();
    let mut out = String::new();
    let mut i: usize = len;
    assert(out@ =~= Seq::new(0, |i: int| '0'));
    while i < width
        invariant
            len <= i,
            len == digits@.len(),
            len < width ==> i <= width,
            len >= width ==> i == len,
            out@ == Seq::new((i - len) as nat, |k: int| '0'),
        decreases width - i,
    {
        push_char(&mut out, '0');
        i += 1;
        assert(out@ =~= Seq::new((i - len) as nat, |k: int| '0'));
    }
    push_str(&mut out, digits.as_str());
    assert(out@ =~= dec_padded(n as nat, width as nat));
    out
}

/// Whether a kind of meter set is a counted list of entries.
pub open spec fn ms_is_list(kind: u8) -> bool {
    (2 <= kind <= 7) || kind == 0xF8 || kind == 0xF9 || kind == 0xFC || kind == 0xFE
}

/// The name of a kind of meter set.
pub open spec fn ms_kind_text(kind: u8) -> Seq<char> {
    if kind == 0x01 {
        "全部用户类型"@
    } else if kind == 0x02 {
        "一组用户类型"@
    } else if kind == 0x03 {
        "一组用户地址"@
    } else if kind == 0x04 || kind == 0x07 {
        "一组配置序号"@
    } else if kind == 0x05 {
        "一组用户类型区间"@
    } else if kind == 0x06 {
        "一组用户地址区间"@
    } else if kind == 0xF7 {
        "除交采外所有表"@
    } else if kind == 0xF8 {
        "一组重点用户类型区分端口(300<=任务号<=500:载波，其他：非载波)"@
    } else if kind == 0xF9 {
        "一组用户类型区分端口(300<=任务号<=500:载波，其他：非载波)"@
    } else if kind == 0xFB {
        "一组重点用户类型"@
    } else if kind == 0xFC {
        "一组用户事件等级"@
    } else if kind == 0xFD {
        "重点用户"@
    } else if kind == 0xFE {
        "一组端口号"@
    } else {
        "未知的 MS 类型"@
    }
}

/// The name of a kind of meter set.
pub fn ms_kind_name(kind: u8) -> (r: &'static str)
    ensures
        r@ == ms_kind_text(kind),
{
    match kind {
        0x01 => "全部用户类型",
        0x02 => "一组用户类型",
        0x03 => "一组用户地址",
        0x04 | 0x07 => "一组配置序号",
        0x05 => "一组用户类型区间",
        0x06 => "一组用户地址区间",
        0xF7 => "除交采外所有表",
        0xF8 => "一组重点用户类型区分端口(300<=任务号<=500:载波，其他：非载波)",
        0xF9 => "一组用户类型区分端口(300<=任务号<=500:载波，其他：非载波)",
        0xFB => "一组重点用户类型",
        0xFC => "一组用户事件等级",
        0xFD => "重点用户",
        0xFE => "一组端口号",
        _ => "未知的 MS 类型",
    }
}

/// The label of the number of entries of a list.
pub open spec fn ms_count_label(kind: u8) -> Seq<char> {
    if kind == 0x03 {
        "用户地址个数"@
    } else if kind == 0x04 || kind == 0x07 {
        "测量点个数"@
    } else if kind == 0x05 || kind == 0x06 {
        "区间个数"@
    } else if kind == 0xFC {
        "事件等级个数"@
    } else if kind == 0xFE {
        "端口号个数"@
    } else {
        "用户类型个数"@
    }
}

/// The text for the number of entries of a list: the lists of user types and of
/// addresses show it as it is, the others with two digits at least.
pub open spec fn ms_count_text(kind: u8, count: u8) -> Seq<char> {
    ms_count_label(kind) + ":"@ + (if kind == 0x02 || kind == 0x03 || kind == 0xF8 || kind == 0xF9 {
        dec_string(count as nat)
    } else {
        dec_padded(count as nat, 2)
    })
}

/// The field of one byte of a list.
pub open spec fn ms_byte_field(
    task: Seq<u8>,
    start_pos: int,
    i: nat,
    what: Seq<char>,
    text: Seq<char>,
    at: int,
) -> FieldView {
    bytes_field(task, start_pos, unit_label(i, what), text, at, at + 1)
}

/// The field of an address, whose length less one stands in the byte at `at`.
pub open spec fn ms_address_field(task: Seq<u8>, start_pos: int, i: nat, at: int) -> FieldView {
    bytes_field(
        task,
        start_pos,
        unit_label(i, "用户地址"@),
        hex_concat(task.subrange(at + 1, at + 2 + task[at])),
        at + 1,
        at + 2 + task[at],
    )
}

/// The field of the number of a point in the two bytes at `at`.
pub open spec fn ms_point_field(task: Seq<u8>, start_pos: int, i: nat, at: int) -> FieldView {
    bytes_field(
        task,
        start_pos,
        unit_label(i, "测量点号"@),
        "测量点号:"@ + dec_padded(be_u32(task.subrange(at, at + 2)) as nat, 4),
        at,
        at + 2,
    )
}

/// The field of a user type in the byte at `at`.
pub open spec fn ms_user_field(task: Seq<u8>, start_pos: int, i: nat, at: int) -> FieldView {
    ms_byte_field(task, start_pos, i, "用户类型"@, "用户类型:"@ + dec_string(task[at] as nat), at)
}

/// The field of a kind of range in the byte at `at`.
pub open spec fn ms_range_field(task: Seq<u8>, start_pos: int, i: nat, at: int) -> FieldView {
    ms_byte_field(task, start_pos, i, "区间类型"@, range_type_text(task[at]), at)
}

/// The fields of entry `i` of a list at `pos`, and where the next entry starts;
/// `None` where the bytes of the entry are not there.
#[verifier::opaque]
pub open spec fn ms_entry(kind: u8, task: Seq<u8>, start_pos: int, pos: int, i: nat) -> Option<
    (Seq<FieldView>, int),
> {
    let n = task.len() as int;
    if kind == 0x02 || kind == 0xF8 || kind == 0xF9 {
        if pos + 1 <= n {
            Some((seq![ms_user_field(task, start_pos, i, pos)], pos + 1))
        } else {
            None
        }
    } else if kind == 0xFC {
        if pos + 1 <= n {
            Some(
                (
                    seq![
                        ms_byte_field(
                            task,
                            start_pos,
                            i,
                            "事件等级"@,
                            "事件等级:"@ + dec_padded(task[pos] as nat, 2),
                            pos,
                        ),
                    ],
                    pos + 1,
                ),
            )
        } else {
            None
        }
    } else if kind == 0xFE {
        if pos + 1 <= n {
            Some(
                (
                    seq![
                        ms_byte_field(task, start_pos, i, "端口号"@, "端口号:"@ + hex_upper(task[pos]), pos),
                    ],
                    pos + 1,
                ),
            )
        } else {
            None
        }
    } else if kind == 0x03 {
        if pos + 2 <= n && pos + 3 + task[pos + 1] <= n {
            Some((seq![ms_address_field(task, start_pos, i, pos + 1)], pos + 3 + task[pos + 1]))
        } else {
            None
        }
    } else if kind == 0x04 {
        if pos + 2 <= n {
            Some((seq![ms_point_field(task, start_pos, i, pos)], pos + 2))
        } else {
            None
        }
    } else if kind == 0x05 {
        if pos + 5 <= n {
            Some(
                (
                    seq![
                        ms_range_field(task, start_pos, i, pos),
                        ms_user_field(task, start_pos, i, pos + 2),
                        ms_user_field(task, start_pos, i, pos + 4),
                    ],
                    pos + 5,
                ),
            )
        } else {
            None
        }
    } else if kind == 0x06 {
        if pos + 4 <= n && pos + 5 + task[pos + 3] + 3 <= n && pos + 5 + task[pos + 3] + 4 + task[pos
            + 5 + task[pos + 3] + 2] <= n {
            let second = pos + 5 + task[pos + 3] + 2;
            Some(
                (
                    seq![
                        ms_range_field(task, start_pos, i, pos),
                        ms_address_field(task, start_pos, i, pos + 3),
                        ms_address_field(task, start_pos, i, second),
                    ],
                    second + 2 + task[second],
                ),
            )
        } else {
            None
        }
    } else if kind == 0x07 {
        if pos + 7 <= n {
            Some(
                (
                    seq![
                        ms_range_field(task, start_pos, i, pos),
                        ms_point_field(task, start_pos, i, pos + 2),
                        ms_point_field(task, start_pos, i, pos + 5),
                    ],
                    pos + 7,
                ),
            )
        } else {
            None
        }
    } else {
        None
    }
}

/// The fields of the entries of a list from entry `i` at `pos` on, after those
/// in `acc`, and where the list ends: `count` entries, as far as their bytes are
/// there.
pub open spec fn ms_entries_from(
    kind: u8,
    task: Seq<u8>,
    start_pos: int,
    pos: int,
    i: nat,
    count: nat,
    acc: Seq<FieldView>,
) -> (Seq<FieldView>, int)
    decreases count - i,
{
    if i >= count {
        (acc, pos)
    } else {
        match ms_entry(kind, task, start_pos, pos, i) {
            Some(e) => ms_entries_from(kind, task, start_pos, e.1, i + 1, count, acc + e.0),
            None => (acc, pos),
        }
    }
}

/// The fields of a meter set of a kind, by the table of kinds, and the number
/// of its bytes. A list has one field for the number of its entries, which is
/// its first byte, with the fields of the entries below it. A kind that is not
/// known takes all bytes.
pub open spec fn ms_table_fields(kind: u8, task: Seq<u8>, start_pos: int) -> (Seq<FieldView>, int) {
    if kind == 0x01 || kind == 0xF7 || kind == 0xFD {
        (Seq::empty(), 0)
    } else if kind == 0xFB {
        if task.len() >= 1 {
            (
                seq![
                    bytes_field(
                        task,
                        start_pos,
                        "用户类型"@,
                        "用户类型:"@ + dec_padded(task[0] as nat, 2),
                        0,
                        1,
                    ),
                ],
                1,
            )
        } else {
            (Seq::empty(), 0)
        }
    } else if ms_is_list(kind) {
        if task.len() >= 1 {
            let entries = ms_entries_from(kind, task, start_pos, 1, 0, task[0] as nat, Seq::empty());
            (
                seq![
                    branch_field(
                        ms_count_label(kind),
                        hex_spaced(task.subrange(0, 1)),
                        ms_count_text(kind, task[0]),
                        start_pos,
                        start_pos + 1,
                        entries.0,
                    ),
                ],
                entries.1,
            )
        } else {
            (Seq::empty(), 0)
        }
    } else {
        (Seq::empty(), task.len() as int)
    }
}

/// The field of one byte of a list.
pub fn ms_byte_field_of(task: &[u8], start_pos: usize, i: usize, what: &str, text: String, at: usize) -> (r:
    DecodedField)
    requires
        at < task@.len(),
        start_pos + task@.len() <= usize::MAX,
        i < usize::MAX,
    ensures
        field_view(r) == ms_byte_field(task@, start_pos as int, i as nat, what@, text@, at as int),
{
    bytes_field_of(task, start_pos, unit_label_of(i, what).as_str(), text, at, at + 1)
}

/// The field of an address.
pub fn ms_address_field_of(task: &[u8], start_pos: usize, i: usize, at: usize) -> (r: DecodedField)
    requires
        at < task@.len(),
        at + 2 + task@[at as int] <= task@.len(),
        start_pos + task@.len() <= usize::MAX,
        i < usize::MAX,
    ensures
        field_view(r) == ms_address_field(task@, start_pos as int, i as nat, at as int),
{
    let to = at + 2 + task[at] as usize;
    bytes_field_of(
        task,
        start_pos,
        unit_label_of(i, "用户地址").as_str(),
        FrameFun::get_data_str_order(slice_subrange(task, at + 1, to)),
        at + 1,
        to,
    )
}

/// The field of the number of a point.
pub fn ms_point_field_of(task: &[u8], start_pos: usize, i: usize, at: usize) -> (r: DecodedField)
    requires
        at + 2 <= task@.len(),
        start_pos + task@.len() <= usize::MAX,
        i < usize::MAX,
    ensures
        field_view(r) == ms_point_field(task@, start_pos as int, i as nat, at as int),
{
    let spot = FrameFun::cosem_bin2_int32u(slice_subrange(task, at, at + 2));
    bytes_field_of(
        task,
        start_pos,
        unit_label_of(i, "测量点号").as_str(),
        join("测量点号:", dec_padded_of(spot as u64, 4).as_str()),
        at,
        at + 2,
    )
}

/// The field of a user type.
pub fn ms_user_field_of(task: &[u8], start_pos: usize, i: usize, at: usize) -> (r: DecodedField)
    requires
        at < task@.len(),
        start_pos + task@.len() <= usize::MAX,
        i < usize::MAX,
    ensures
        field_view(r) == ms_user_field(task@, start_pos as int, i as nat, at as int),
{
    ms_byte_field_of(
        task,
        start_pos,
        i,
        "用户类型",
        join("用户类型:", dec_of(task[at] as u64).as_str()),
        at,
    )
}

/// The field of a kind of range.
pub fn ms_range_field_of(task: &[u8], start_pos: usize, i: usize, at: usize) -> (r: DecodedField)
    requires
        at < task@.len(),
        start_pos + task@.len() <= usize::MAX,
        i < usize::MAX,
    ensures
        field_view(r) == ms_range_field(task@, start_pos as int, i as nat, at as int),
{
    ms_byte_field_of(
        task,
        start_pos,
        i,
        "区间类型",
        TCMeterTask::get_range_type(task[at]).to_owned(),
        at,
    )
}

/// The fields of entry `i` of a list at `pos`, and where the next entry starts.
pub fn ms_entry_of(kind: u8, task: &[u8], start_pos: usize, pos: usize, i: usize) -> (r: Option<
    (Vec<DecodedField>, usize),
>)
    requires
        pos <= task@.len(),
        start_pos + task@.len() <= usize::MAX,
        i < usize::MAX,
    ensures
        r is Some == ms_entry(kind, task@, start_pos as int, pos as int, i as nat) is Some,
        r is Some ==> ({
            let e = ms_entry(kind, task@, start_pos as int, pos as int, i as nat).unwrap();
            fields_view(r.unwrap().0@) == e.0 && r.unwrap().1 == e.1 && pos < r.unwrap().1
                <= task@.len()
        }),
{
    reveal(ms_entry);
    let n = task.len();
    let left = n - pos;
    let mut out: Vec<DecodedField> = Vec::new();
    if kind == 0x02 || kind == 0xF8 || kind == 0xF9 || kind == 0xFC || kind == 0xFE {
        if left < 1 {
            return None;
        }
        let f = if kind == 0xFC {
            ms_byte_field_of(
                task,
                start_pos,
                i,
                "事件等级",
                join("事件等级:", dec_padded_of(task[pos] as u64, 2).as_str()),
                pos,
            )
        } else if kind == 0xFE {
            ms_byte_field_of(
                task,
                start_pos,
                i,
                "端口号",
                join("端口号:", hex_of(task[pos]).as_str()),
                pos,
            )
        } else {
            ms_user_field_of(task, start_pos, i, pos)
        };
        out.push(f);
        assert(fields_view(out@) =~= seq![field_view(f)]);
        Some((out, pos + 1))
    } else if kind == 0x03 {
        if left < 2 || left - 2 < task[pos + 1] as usize + 1 {
            return None;
        }
        let f = ms_address_field_of(task, start_pos, i, pos + 1);
        out.push(f);
        assert(fields_view(out@) =~= seq![field_view(f)]);
        Some((out, pos + 3 + task[pos + 1] as usize))
    } else if kind == 0x04 {
        if left < 2 {
            return None;
        }
        let f = ms_point_field_of(task, start_pos, i, pos);
        out.push(f);
        assert(fields_view(out@) =~= seq![field_view(f)]);
        Some((out, pos + 2))
    } else if kind == 0x05 {
        if left < 5 {
            return None;
        }
        let f1 = ms_range_field_of(task, start_pos, i, pos);
        let f2 = ms_user_field_of(task, start_pos, i, pos + 2);
        let f3 = ms_user_field_of(task, start_pos, i, pos + 4);
        out.push(f1);
        out.push(f2);
        out.push(f3);
        assert(fields_view(out@) =~= seq![field_view(f1), field_view(f2), field_view(f3)]);
        Some((out, pos + 5))
    } else if kind == 0x06 {
        if left < 4 {
            return None;
        }
        let len1 = task[pos + 3] as usize;
        if left - 4 < len1 + 4 {
            return None;
        }
        let second = pos + 5 + len1 + 2;
        let len2 = task[second] as usize;
        if n - second < len2 + 2 {
            return None;
        }
        let f1 = ms_range_field_of(task, start_pos, i, pos);
        let f2 = ms_address_field_of(task, start_pos, i, pos + 3);
        let f3 = ms_address_field_of(task, start_pos, i, second);
        out.push(f1);
        out.push(f2);
        out.push(f3);
        assert(fields_view(out@) =~= seq![field_view(f1), field_view(f2), field_view(f3)]);
        Some((out, second + 2 + len2))
    } else if kind == 0x07 {
        if left < 7 {
            return None;
        }
        let f1 = ms_range_field_of(task, start_pos, i, pos);
        let f2 = ms_point_field_of(task, start_pos, i, pos + 2);
        let f3 = ms_point_field_of(task, start_pos, i, pos + 5);
        out.push(f1);
        out.push(f2);
        out.push(f3);
        assert(fields_view(out@) =~= seq![field_view(f1), field_view(f2), field_view(f3)]);
        Some((out, pos + 7))
    } else {
        None
    }
}

impl TCMeterTask {
    /// Appends the fields of a meter set of a kind, by the table of kinds, and
    /// gives the number of its bytes and the name of the kind.
    pub fn get_ms_len(
        ms_type: u8,
        task_content: &[u8],
        sub_result: &mut Vec<DecodedField>,
        start_pos: usize,
    ) -> (r: (usize, String))
        requires
            start_pos + task_content@.len() <= usize::MAX,
        ensures
            fields_view(final(sub_result)@) == fields_view(old(sub_result)@) + ms_table_fields(
                ms_type,
                task_content@,
                start_pos as int,
            ).0,
            r.0 == ms_table_fields(ms_type, task_content@, start_pos as int).1,
            r.1@ == ms_kind_text(ms_type),
    {
        let ghost before = fields_view(sub_result@);
        let n = task_content.len();
        let name = ms_kind_name(ms_type).to_owned();
        let is_list = (ms_type >= 2 && ms_type <= 7) || ms_type == 0xF8 || ms_type == 0xF9 || ms_type
            == 0xFC || ms_type == 0xFE;
        if ms_type == 0x01 || ms_type == 0xF7 || ms_type == 0xFD {
            assert(before + Seq::<FieldView>::empty() =~= before);
            return (0, name);
        }
        if !is_list && ms_type != 0xFB {
            assert(before + Seq::<FieldView>::empty() =~= before);
            return (n, name);
        }
        if n < 1 {
            assert(before + Seq::<FieldView>::empty() =~= before);
            return (0, name);
        }
        if ms_type == 0xFB {
            let f = bytes_field_of(
                task_content,
                start_pos,
                "用户类型",
                join("用户类型:", dec_padded_of(task_content[0] as u64, 2).as_str()),
                0,
                1,
            );
            proof {
                lemma_fields_view_push(sub_result@, f);
                assert(before.push(field_view(f)) =~= before + seq![field_view(f)]);
            }
            sub_result.push(f);
            return (1, name);
        }
        let count = task_content[0];
        let ghost want = ms_entries_from(
            ms_type,
            task_content@,
            start_pos as int,
            1,
            0,
            count as nat,
            Seq::empty(),
        );
        let mut entries: Vec<DecodedField> = Vec::new();
        let mut pos: usize = 1;
        let mut i: u8 = 0;
        assert(fields_view(entries@) =~= Seq::empty());
        while i < count
            invariant_except_break
                ms_entries_from(
                    ms_type,
                    task_content@,
                    start_pos as int,
                    pos as int,
                    i as nat,
                    count as nat,
                    fields_view(entries@),
                ) == want,
            invariant
                n == task_content@.len(),
                start_pos + n <= usize::MAX,
                pos <= n,
                i <= count,
            ensures
                (fields_view(entries@), pos as int) == want,
            decreases count - i,
        {
            match ms_entry_of(ms_type, task_content, start_pos, pos, i as usize) {
                Some((fields, next)) => {
                    let mut fields = fields;
                    proof {
                        lemma_fields_view_concat(entries@, fields@);
                    }
                    entries.append(&mut fields);
                    pos = next;
                    i += 1;
                },
                None => {
                    break ;
                },
            }
        }
        let mut text = String::new();
        let label = if ms_type == 0x03 {
            "用户地址个数"
        } else if ms_type == 0x04 || ms_type == 0x07 {
            "测量点个数"
        } else if ms_type == 0x05 || ms_type == 0x06 {
            "区间个数"
        } else if ms_type == 0xFC {
            "事件等级个数"
        } else if ms_type == 0xFE {
            "端口号个数"
        } else {
            "用户类型个数"
        };
        push_str(&mut text, label);
        push_str(&mut text, ":");
        if ms_type == 0x02 || ms_type == 0x03 || ms_type == 0xF8 || ms_type == 0xF9 {
            push_str(&mut text, dec_of(count as u64).as_str());
        } else {
            push_str(&mut text, dec_padded_of(count as u64, 2).as_str());
        }
        assert(text@ =~= ms_count_text(ms_type, count));
        let f = branch(
            label,
            FrameFun::get_data_str_with_space(slice_subrange(task_content, 0, 1)),
            text,
            start_pos,
            start_pos + 1,
            entries,
        );
        proof {
            lemma_fields_view_push(sub_result@, f);
            assert(before.push(field_view(f)) =~= before + seq![field_view(f)]);
        }
        sub_result.push(f);
        (pos, name)
    }
}

} // verus!
