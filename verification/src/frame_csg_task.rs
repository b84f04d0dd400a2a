//! The CSG frames that read task data: an answer names its task and holds data
//! units whose values come with their times; a request names ranges of time.

use vstd::prelude::*;
use vstd::string::*;
use vstd::slice::*;
use crate::builders::{branch, branch_field, bytes_field, bytes_field_of, join, plain};
use crate::decoded::{field_view, fields_view, DecodedField, FieldView};
use crate::frame_cco::dec_of;
use crate::frame_csg::{afn_seq_fields, data_density_text, hex_of, FrameCsg};
use crate::frame_csg_history::{guess_pw_with, history_head, history_head_of, pw_guessed_with};
use crate::frame_csg_units::{
    pw_bytes, pw_field, pw_field_of, time_range_fields, tp_field, tp_field_of, unit_bytes,
    unit_label, unit_label_of, unit_point_text, unit_query, UnitKind,
};
use crate::frame_err::CustomError;
use crate::frame_fun::{time_text, FrameFun};
use crate::frame_speecial::{history_size, history_unit, history_unit_of};
use crate::protocol::{
    leaf_field, lemma_fields_view_concat, lemma_fields_view_push, lookup_item, text_or, Query,
};
use crate::text::{dec_string, hex_concat, hex_spaced, hex_upper, push_str};
use crate::xmlconfig::{opt_element_view, ProtocolConfigManager, XmlElement};

verus! {

/// The name of a way in which the data of a task is laid out.
pub open spec fn task_kind_text(kind: u8) -> Seq<char> {
    if kind == 0 {
        "自描述方式"@
    } else if kind == 1 {
        "任务模板"@
    } else if kind == 2 {
        "补上报数据"@
    } else {
        "未知"@
    }
}

/// The name of a way in which the data of a task is laid out.
pub fn task_kind_name(kind: u8) -> (r: &'static str)
    ensures
        r@ == task_kind_text(kind),
{
    match kind {
        0 => "自描述方式",
        1 => "任务模板",
        2 => "补上报数据",
        _ => "未知",
    }
}

/// What reading one data unit of a task frame gives: the fields of the unit,
/// where the next unit starts, where the units end, the number of units read,
/// whether a password stands behind the units, and whether the reading ends.
pub struct TaskUnit {
    pub fields: Vec<DecodedField>,
    pub pos: usize,
    pub length: usize,
    pub num: usize,
    pub pw: bool,
    pub stop: bool,
}

/// The mathematical content of what reading one unit gives.
pub struct TaskStep {
    pub fields: Seq<FieldView>,
    pub pos: nat,
    pub length: nat,
    pub num: nat,
    pub pw: bool,
    pub stop: bool,
}

impl TaskUnit {
    /// The content of what reading one unit gives.
    pub open spec fn view(&self) -> TaskStep {
        TaskStep {
            fields: fields_view(self.fields@),
            pos: self.pos as nat,
            length: self.length as nat,
            num: self.num as nat,
            pw: self.pw,
            stop: self.stop,
        }
    }
}

/// The three fields of the range of time that a unit of a request names at
/// `at`: the times between which values are wanted and how dense they are to be.
pub open spec fn task_range(data: Seq<u8>, index: int, at: int) -> Seq<FieldView> {
    time_range_fields(data.subrange(at, data.len() as int), index + at).push(
        leaf_field(
            "数据密度"@,
            hex_upper(data[at + 12]),
            "数据间隔时间："@ + data_density_text(data[at + 12]),
            index + at + 12,
            index + at + 13,
            None,
        ),
    )
}

/// Reading the data unit at `pos`. In a frame that goes up, the unit is a point,
/// an identifier, the data of the item and a time of five bytes; in a frame that
/// goes down it is a point and an identifier, which are not shown, and a range
/// of time. Behind a unit, the bytes that are left are taken for a password
/// where they look like one: where sixteen or twenty-two are left, or at least
/// sixteen behind the last of `count` units. In a frame that goes up the reading
/// ends behind the last of `count` units, and where six bytes are left. It ends
/// as well where the bytes of a unit are not there.
#[verifier::opaque]
pub open spec fn task_step(
    q: Query,
    need_delete: bool,
    data: Seq<u8>,
    pw_data: Seq<u8>,
    dir: u8,
    index: int,
    count: nat,
    pos: nat,
    length: nat,
    num: nat,
    pw: bool,
) -> TaskStep {
    let p = pos as int;
    let n = data.len() as int;
    let stay = TaskStep { fields: Seq::empty(), pos, length, num, pw, stop: true };
    if pos >= length || p + 6 > n {
        stay
    } else {
        let el = q.item(hex_concat(data.subrange(p + 2, p + 6).reverse()));
        let size = if dir == 1 { history_size(q, el, data.subrange(p + 6, n)) } else { 0 };
        let unit = history_unit(q, need_delete, data, index, pos, num);
        let enough = if dir == 1 { p + 6 + size + 5 <= n } else { p + 6 + 13 <= n };
        if !enough {
            TaskStep {
                fields: if dir == 1 {
                    history_head(q, data, index, p, num, false)
                } else {
                    Seq::empty()
                },
                ..stay
            }
        } else {
            let at = p + 6 + size;
            let next: nat = (if dir == 1 { at + 5 } else { p + 6 + 13 }) as nat;
            let left = length - next;
            let check = left == 16 || left == 22 || (num + 1 == count && left >= 16);
            let guess = check && pw_guessed_with(q, length, pw_data, el, None);
            let ends: nat = if guess { (length - 16) as nat } else { length };
            TaskStep {
                fields: if dir == 1 {
                    unit.push(
                        bytes_field(
                            data,
                            index,
                            unit_label(num, "数据时间"@),
                            "数据时间："@ + time_text(data.subrange(at, at + 5), "YYMMDDhhmm"@, false),
                            at,
                            at + 5,
                        ),
                    )
                } else {
                    task_range(data, index, p + 6)
                },
                pos: next,
                length: ends,
                num: num + 1,
                pw: if check { guess } else { pw },
                stop: dir == 1 && (num + 1 >= count || ends - next == 6),
            }
        }
    }
}

/// The fields of the data units from `pos` on, after those in `acc`, whether a
/// password stands behind them, and where the reading ended and the units end.
pub open spec fn task_units_from(
    q: Query,
    need_delete: bool,
    data: Seq<u8>,
    pw_data: Seq<u8>,
    dir: u8,
    index: int,
    count: nat,
    pos: nat,
    length: nat,
    num: nat,
    pw: bool,
    acc: Seq<FieldView>,
) -> (Seq<FieldView>, bool, nat, nat)
    decreases data.len() - pos,
{
    let s = task_step(q, need_delete, data, pw_data, dir, index, count, pos, length, num, pw);
    if s.stop || s.pos <= pos || s.pos > data.len() {
        (acc + s.fields, s.pw, s.pos, s.length)
    } else {
        task_units_from(
            q,
            need_delete,
            data,
            pw_data,
            dir,
            index,
            count,
            s.pos,
            s.length,
            s.num,
            s.pw,
            acc + s.fields,
        )
    }
}

/// The name of the task of an answer: the name of its item before its
/// identifier, or the identifier alone for an item that is not known.
pub open spec fn task_name(q: Query, frame: Seq<u8>) -> Seq<char> {
    let id = hex_concat(frame.subrange(18, 22).reverse());
    match q.item(id) {
        Some(e) => text_or(e.child_text("name"@), Seq::empty()) + "号： "@ + id,
        None => "任务号："@ + id,
    }
}

/// Whether the units of an answer come in groups of points and identifiers: the
/// four bytes from byte 27 on are the identifier of an item that is known.
pub open spec fn task_grouped(q: Query, frame: Seq<u8>) -> bool {
    q.item(hex_concat(frame.subrange(27, 31).reverse())) is Some
}

/// The number of bytes between the task and the units of an answer.
pub open spec fn task_skip(q: Query, frame: Seq<u8>, dir: u8) -> nat {
    if dir == 1 {
        if task_grouped(q, frame) { 9 } else { 8 }
    } else {
        0
    }
}

/// The number of units of an answer.
pub open spec fn task_count(q: Query, frame: Seq<u8>, dir: u8) -> nat {
    if dir != 1 {
        0
    } else if task_grouped(q, frame) {
        (frame[23] * frame[24]) as nat
    } else {
        frame[23] as nat
    }
}

/// Whether a frame has the bytes that its direction asks for: an answer those
/// of its task.
pub open spec fn task_fits(q: Query, frame: Seq<u8>, dir: u8) -> bool {
    dir != 1 || (frame.len() >= 31 && unit_bytes(frame).len() >= task_skip(q, frame, dir))
}

/// The two fields on how the data of an answer is laid out: the way and the
/// number of units.
pub open spec fn task_layout_fields(q: Query, frame: Seq<u8>, start_pos: int) -> Seq<FieldView> {
    seq![
        bytes_field(frame, start_pos, "数据结构方式"@, task_kind_text(frame[22]), 22, 23),
        if task_grouped(q, frame) {
            bytes_field(
                frame,
                start_pos,
                "数据组数"@,
                "信息点标识数"@ + dec_string(frame[23] as nat) + ",数据标识编码数"@ + dec_string(
                    frame[24] as nat,
                ) + ",共有"@ + dec_string((frame[23] * frame[24]) as nat) + "个数据组数"@,
                23,
                25,
            )
        } else {
            bytes_field(
                frame,
                start_pos,
                "数据组数"@,
                "共有"@ + dec_string(frame[23] as nat) + "个数据组数"@,
                23,
                24,
            )
        },
    ]
}

/// The fields of what the units of a frame read to.
pub open spec fn task_read(
    repo: &ProtocolConfigManager,
    protocol: Seq<char>,
    region: Seq<char>,
    frame: Seq<u8>,
    dir: u8,
    start_pos: int,
) -> (Seq<FieldView>, bool, nat, nat) {
    let q = unit_query(repo, protocol, region, dir);
    let skip = task_skip(q, frame, dir);
    let data = unit_bytes(frame).skip(skip as int);
    task_units_from(
        q,
        protocol == "DLT/645-2007"@,
        data,
        pw_bytes(UnitKind::ReadCur, frame),
        dir,
        start_pos + 16 + skip,
        task_count(q, frame, dir),
        0,
        data.len(),
        0,
        false,
        Seq::empty(),
    )
}

/// The fields below the body of an answer: the point and the name of its task,
/// the data of the task, below which stand how it is laid out and the fields of
/// the units, and a time of the task where six bytes are left behind the units,
/// which ended at `pos` of `length`.
pub open spec fn task_answer_fields(
    q: Query,
    frame: Seq<u8>,
    start_pos: int,
    data: Seq<u8>,
    skip: nat,
    units: Seq<FieldView>,
    pos: nat,
    length: nat,
) -> Seq<FieldView> {
    let n = frame.len() as int;
    let p = pos as int;
    let head = seq![
        bytes_field(frame, start_pos, "信息点标识DA"@, unit_point_text(frame.subrange(16, 18)), 16, 18),
        bytes_field(frame, start_pos, "数据标识编码DI"@, task_name(q, frame), 18, 22),
        branch_field(
            "任务数据内容"@,
            hex_spaced(frame.subrange(22, n - 2)),
            task_name(q, frame) + "数据内容"@,
            start_pos + 22,
            start_pos + n - 2,
            task_layout_fields(q, frame, start_pos) + units,
        ),
    ];
    if length - pos == 6 && p + 6 <= data.len() {
        head.push(
            bytes_field(
                data,
                start_pos + 16 + skip,
                "任务数据时间"@,
                time_text(data.subrange(p, p + 6), "CCYYMMDDhhmm"@, false),
                p,
                p + 6,
            ),
        )
    } else {
        head
    }
}

/// The fields below the body of a frame: those of an answer, or the ranges of
/// time of the units of a request. A frame that lacks bytes has none.
pub open spec fn task_body_fields(
    repo: &ProtocolConfigManager,
    protocol: Seq<char>,
    region: Seq<char>,
    frame: Seq<u8>,
    dir: u8,
    start_pos: int,
) -> Seq<FieldView> {
    let q = unit_query(repo, protocol, region, dir);
    let skip = task_skip(q, frame, dir);
    let data = unit_bytes(frame).skip(skip as int);
    let read = task_read(repo, protocol, region, frame, dir, start_pos);
    if !task_fits(q, frame, dir) {
        Seq::empty()
    } else if dir == 1 {
        task_answer_fields(q, frame, start_pos, data, skip, read.0, read.2, read.3)
    } else {
        read.0
    }
}

/// The fields of a frame that reads task data: the function code and the
/// sequence byte, the body, and behind the body the password where one is
/// guessed and the time label where the frame carries one.
pub open spec fn task_frame_fields(
    repo: &ProtocolConfigManager,
    protocol: Seq<char>,
    region: Seq<char>,
    frame: Seq<u8>,
    dir: u8,
    start_pos: int,
) -> Seq<FieldView> {
    let q = unit_query(repo, protocol, region, dir);
    let n = frame.len() as int;
    let tpv = (frame[15] >> 7) & 1 == 1;
    let pw = task_fits(q, frame, dir) && task_read(repo, protocol, region, frame, dir, start_pos).1;
    let body = afn_seq_fields(frame.subrange(14, 16), start_pos + 14).push(
        branch_field(
            "信息体"@,
            hex_spaced(frame.subrange(16, n - 2)),
            Seq::empty(),
            start_pos + 16,
            start_pos + n - 2,
            task_body_fields(repo, protocol, region, frame, dir, start_pos),
        ),
    );
    let with_pw = if pw {
        body.push(pw_field(frame, start_pos, pw_bytes(UnitKind::ReadCur, frame)))
    } else {
        body
    };
    if tpv { with_pw.push(tp_field(frame, start_pos)) } else { with_pw }
}

/// The product of two bytes.
pub fn product_of(a: u8, b: u8) -> (r: usize)
    ensures
        r == a * b,
{
    assert(0 <= a * b <= 255 * 255) by (nonlinear_arith)
        requires
            0 <= a <= 255,
            0 <= b <= 255,
    ;
    a as usize * b as usize
}

/// The three fields of the range of time that a unit of a request names.
pub fn task_range_of(data: &[u8], index: usize, at: usize) -> (r: Vec<DecodedField>)
    requires
        at + 13 <= data@.len(),
        index + data@.len() <= usize::MAX,
    ensures
        fields_view(r@) == task_range(data@, index as int, at as int),
{
    let n = data.len();
    let from = slice_subrange(data, at, at + 6);
    let to = slice_subrange(data, at + 6, at + 12);
    let density = data[at + 12];
    let ghost rest = data@.subrange(at as int, n as int);
    assert(from@ =~= rest.subrange(0, 6));
    assert(to@ =~= rest.subrange(6, 12));
    let f1 = plain(
        "数据起始时间",
        FrameFun::get_data_str_with_space(from),
        FrameFun::parse_time_data(from, "CCYYMMDDhhmm", false),
        index + at,
        index + at + 6,
    );
    let f2 = plain(
        "数据结束时间",
        FrameFun::get_data_str_with_space(to),
        FrameFun::parse_time_data(to, "CCYYMMDDhhmm", false),
        index + at + 6,
        index + at + 12,
    );
    let f3 = plain(
        "数据密度",
        hex_of(density),
        join("数据间隔时间：", FrameCsg::get_data_dinsty(density)),
        index + at + 12,
        index + at + 13,
    );
    let mut out: Vec<DecodedField> = Vec::new();
    out.push(f1);
    out.push(f2);
    out.push(f3);
    assert(fields_view(out@) =~= seq![field_view(f1), field_view(f2), field_view(f3)]);
    out
}

/// Reads the data unit at `pos`.
#[verifier::rlimit(100)]
#[verifier::spinoff_prover]
pub fn read_task_unit(
    repo: &ProtocolConfigManager,
    data: &[u8],
    pw_data: &[u8],
    dir: u8,
    index: usize,
    count: usize,
    pos: usize,
    length: usize,
    num: usize,
    pw: bool,
    protocol: &str,
    region: &str,
) -> (r: TaskUnit)
    requires
        repo.wf(),
        index + data@.len() <= usize::MAX,
        length <= data@.len(),
        num <= pos,
        pw ==> pw_data@.len() >= 16,
    ensures
        r@ == task_step(
            unit_query(repo, protocol@, region@, dir),
            protocol@ == "DLT/645-2007"@,
            data@,
            pw_data@,
            dir,
            index as int,
            count as nat,
            pos as nat,
            length as nat,
            num as nat,
            pw,
        ),
        r.pos <= data@.len() || r.stop,
        r.length <= data@.len(),
        r.num <= r.pos || r.stop,
        r.pw ==> pw_data@.len() >= 16,
        !r.stop ==> r.pos > pos,
{
    reveal(task_step);
    let n = data.len();
    let mut fields: Vec<DecodedField> = Vec::new();
    assert(fields_view(fields@) =~= Seq::empty());
    if pos >= length || n - pos < 6 {
        return TaskUnit { fields, pos, length, num, pw, stop: true };
    }
    let id = FrameFun::get_data_str_reverser(slice_subrange(data, pos + 2, pos + 6));
    let el = lookup_item(repo, id.as_str(), protocol, region, Some(dir));
    let (unit, found_size) = history_unit_of(repo, data, index, pos, num, protocol, region, dir);
    let size: usize = if dir == 1 { found_size } else { 0 };
    let enough = if dir == 1 { n - pos - 6 - size >= 5 } else { n - pos - 6 >= 13 };
    if !enough {
        if dir == 1 {
            let (head, _el, _point, _ident) = history_head_of(
                repo,
                data,
                index,
                pos,
                num,
                false,
                protocol,
                region,
                dir,
            );
            return TaskUnit { fields: head, pos, length, num, pw, stop: true };
        }
        return TaskUnit { fields, pos, length, num, pw, stop: true };
    }
    let at = pos + 6 + size;
    let next: usize = if dir == 1 { at + 5 } else { pos + 6 + 13 };
    if dir == 1 {
        let time = slice_subrange(data, at, at + 5);
        let t = bytes_field_of(
            data,
            index,
            unit_label_of(num, "数据时间").as_str(),
            join("数据时间：", FrameFun::parse_time_data(time, "YYMMDDhhmm", false).as_str()),
            at,
            at + 5,
        );
        fields = unit;
        proof {
            lemma_fields_view_push(fields@, t);
        }
        fields.push(t);
    } else {
        fields = task_range_of(data, index, pos + 6);
    }
    let mut ends = length;
    let mut new_pw = pw;
    let check = length >= next && (length - next == 16 || length - next == 22 || (num + 1 == count
        && length - next >= 16));
    if check {
        let guess = guess_pw_with(repo, data, length, pw_data, &el, None, protocol, region, dir);
        new_pw = guess;
        if guess {
            ends = length - 16;
        }
    }
    let stop = dir == 1 && (num + 1 >= count || (ends >= next && ends - next == 6));
    TaskUnit { fields, pos: next, length: ends, num: num + 1, pw: new_pw, stop }
}

/// Reads the data units of a body: their fields, whether a password stands
/// behind them, and where the reading ended and the units end.
pub fn read_task_units(
    repo: &ProtocolConfigManager,
    data: &[u8],
    pw_data: &[u8],
    dir: u8,
    index: usize,
    count: usize,
    protocol: &str,
    region: &str,
) -> (r: (Vec<DecodedField>, bool, usize, usize))
    requires
        repo.wf(),
        index + data@.len() <= usize::MAX,
    ensures
        (fields_view(r.0@), r.1, r.2 as nat, r.3 as nat) == task_units_from(
            unit_query(repo, protocol@, region@, dir),
            protocol@ == "DLT/645-2007"@,
            data@,
            pw_data@,
            dir,
            index as int,
            count as nat,
            0,
            data@.len(),
            0,
            false,
            Seq::empty(),
        ),
        r.1 ==> pw_data@.len() >= 16,
        r.3 <= data@.len(),
{
    let ghost q = unit_query(repo, protocol@, region@, dir);
    let ghost nd = protocol@ == "DLT/645-2007"@;
    let n = data.len();
    let ghost want = task_units_from(
        q,
        nd,
        data@,
        pw_data@,
        dir,
        index as int,
        count as nat,
        0,
        n as nat,
        0,
        false,
        Seq::empty(),
    );
    let mut out: Vec<DecodedField> = Vec::new();
    let mut pos: usize = 0;
    let mut length: usize = n;
    let mut num: usize = 0;
    let mut pw = false;
    assert(fields_view(out@) =~= Seq::empty());
    loop
        invariant_except_break
            task_units_from(
                q,
                nd,
                data@,
                pw_data@,
                dir,
                index as int,
                count as nat,
                pos as nat,
                length as nat,
                num as nat,
                pw,
                fields_view(out@),
            ) == want,
            pos <= n,
            num <= pos,
        invariant
            repo.wf(),
            n == data@.len(),
            index + n <= usize::MAX,
            length <= n,
            q == unit_query(repo, protocol@, region@, dir),
            nd == (protocol@ == "DLT/645-2007"@),
            pw ==> pw_data@.len() >= 16,
        ensures
            (fields_view(out@), pw, pos as nat, length as nat) == want,
            pw ==> pw_data@.len() >= 16,
            length <= n,
        decreases n - pos,
    {
        let step = read_task_unit(
            repo,
            data,
            pw_data,
            dir,
            index,
            count,
            pos,
            length,
            num,
            pw,
            protocol,
            region,
        );
        let TaskUnit { fields, pos: next_pos, length: next_length, num: next_num, pw: next_pw, stop } =
            step;
        let mut fields = fields;
        proof {
            lemma_fields_view_concat(out@, fields@);
        }
        out.append(&mut fields);
        let stops = stop || next_pos <= pos || next_pos > n;
        pw = next_pw;
        pos = next_pos;
        length = next_length;
        num = next_num;
        if stops {
            break ;
        }
    }
    (out, pw, pos, length)
}

/// The fields below the body of an answer.
pub fn task_answer_fields_of(
    repo: &ProtocolConfigManager,
    frame: &[u8],
    data: &[u8],
    units: Vec<DecodedField>,
    pos: usize,
    length: usize,
    skip: usize,
    grouped: bool,
    start_pos: usize,
    protocol: &str,
    region: &str,
) -> (r: Vec<DecodedField>)
    requires
        repo.wf(),
        frame@.len() >= 31,
        start_pos + frame@.len() <= usize::MAX,
        data@.len() + 16 + skip <= frame@.len(),
        grouped == task_grouped(unit_query(repo, protocol@, region@, 1), frame@),
    ensures
        fields_view(r@) == task_answer_fields(
            unit_query(repo, protocol@, region@, 1),
            frame@,
            start_pos as int,
            data@,
            skip as nat,
            fields_view(units@),
            pos as nat,
            length as nat,
        ),
{
    let n = frame.len();
    let id = FrameFun::get_data_str_reverser(slice_subrange(frame, 18, 22));
    let el = lookup_item(repo, id.as_str(), protocol, region, Some(1));
    let mut name = String::new();
    match &el {
        Some(e) => {
            match e.get_child_text("name") {
                Some(t) => {
                    push_str(&mut name, t.as_str());
                },
                None => {},
            }
            push_str(&mut name, "号： ");
        },
        None => {
            push_str(&mut name, "任务号：");
        },
    }
    push_str(&mut name, id.as_str());
    assert(name@ =~= task_name(unit_query(repo, protocol@, region@, 1), frame@));
    let f1 = bytes_field_of(
        frame,
        start_pos,
        "信息点标识DA",
        FrameFun::parse_da_data(slice_subrange(frame, 16, 18)),
        16,
        18,
    );
    let f2 = bytes_field_of(frame, start_pos, "数据标识编码DI", name.clone(), 18, 22);
    let way = bytes_field_of(frame, start_pos, "数据结构方式", task_kind_name(frame[22]).to_owned(), 22, 23);
    let groups = if grouped {
        let mut t = String::new();
        push_str(&mut t, "信息点标识数");
        push_str(&mut t, dec_of(frame[23] as u64).as_str());
        push_str(&mut t, ",数据标识编码数");
        push_str(&mut t, dec_of(frame[24] as u64).as_str());
        push_str(&mut t, ",共有");
        push_str(&mut t, dec_of(product_of(frame[23], frame[24]) as u64).as_str());
        push_str(&mut t, "个数据组数");
        bytes_field_of(frame, start_pos, "数据组数", t, 23, 25)
    } else {
        let mut t = String::new();
        push_str(&mut t, "共有");
        push_str(&mut t, dec_of(frame[23] as u64).as_str());
        push_str(&mut t, "个数据组数");
        bytes_field_of(frame, start_pos, "数据组数", t, 23, 24)
    };
    let mut below: Vec<DecodedField> = Vec::new();
    below.push(way);
    below.push(groups);
    assert(fields_view(below@) =~= seq![field_view(way), field_view(groups)]);
    let mut units = units;
    proof {
        lemma_fields_view_concat(below@, units@);
    }
    below.append(&mut units);
    let f3 = branch(
        "任务数据内容",
        FrameFun::get_data_str_with_space(slice_subrange(frame, 22, n - 2)),
        join(name.as_str(), "数据内容"),
        start_pos + 22,
        start_pos + n - 2,
        below,
    );
    let mut out: Vec<DecodedField> = Vec::new();
    out.push(f1);
    out.push(f2);
    out.push(f3);
    assert(fields_view(out@) =~= seq![field_view(f1), field_view(f2), field_view(f3)]);
    if length >= pos && length - pos == 6 && pos <= data.len() && data.len() - pos >= 6 {
        let time = slice_subrange(data, pos, pos + 6);
        let t = bytes_field_of(
            data,
            start_pos + 16 + skip,
            "任务数据时间",
            FrameFun::parse_time_data(time, "CCYYMMDDhhmm", false),
            pos,
            pos + 6,
        );
        proof {
            lemma_fields_view_push(out@, t);
        }
        out.push(t);
    }
    out
}

impl FrameCsg {
    /// Appends the fields of a frame that reads task data.
    pub fn analysic_csg_read_task_frame(
        repo: &ProtocolConfigManager,
        frame: &[u8],
        dir: u8,
        _prm: u8,
        result_list: &mut Vec<DecodedField>,
        start_pos: usize,
        protocol: &str,
        region: &str,
    ) -> (r: Result<(), CustomError>)
        requires
            repo.wf(),
            frame@.len() >= 18,
            start_pos + frame@.len() <= usize::MAX,
        ensures
            r is Ok,
            fields_view(final(result_list)@) == fields_view(old(result_list)@) + task_frame_fields(
                repo,
                protocol@,
                region@,
                frame@,
                dir,
                start_pos as int,
            ),
    {
        let ghost q = unit_query(repo, protocol@, region@, dir);
        let n = frame.len();
        let ghost before = result_list@;
        let mut head: Vec<DecodedField> = Vec::new();
        assert(fields_view(head@) =~= Seq::empty());
        let tpv = FrameCsg::get_afn_and_seq_result(
            slice_subrange(frame, 14, 16),
            start_pos + 14,
            &mut head,
        );
        assert(fields_view(head@) =~= afn_seq_fields(frame@.subrange(14, 16), start_pos + 14));
        assert(tpv == ((frame@[15] >> 7) & 1 == 1)) by {
            assert(frame@.subrange(14, 16)[1] == frame@[15]);
        }
        let vlen: usize = n - 18;
        let tail: usize = if tpv { 21 } else { 16 };
        let pw_data: &[u8] = if vlen > tail {
            if tpv {
                slice_subrange(frame, n - 23, n - 7)
            } else {
                slice_subrange(frame, n - 18, n - 2)
            }
        } else {
            slice_subrange(frame, 0, 0)
        };
        assert(pw_data@ =~= pw_bytes(UnitKind::ReadCur, frame@));
        let end: usize = if tpv { if vlen >= 5 { n - 7 } else { 16 } } else { n - 2 };
        let all = slice_subrange(frame, 16, end);
        assert(all@ =~= unit_bytes(frame@));
        let mut grouped = false;
        let mut skip: usize = 0;
        let mut count: usize = 0;
        let mut fits = true;
        if dir == 1 {
            if n >= 31 {
                let expire = FrameFun::get_data_str_reverser(slice_subrange(frame, 27, 31));
                grouped = lookup_item(repo, expire.as_str(), protocol, region, Some(dir)).is_some();
                skip = if grouped { 9 } else { 8 };
                count = if grouped {
                    product_of(frame[23], frame[24])
                } else {
                    frame[23] as usize
                };
                fits = all.len() >= skip;
            } else {
                fits = false;
            }
        }
        let mut below: Vec<DecodedField> = Vec::new();
        let mut pw = false;
        assert(fields_view(below@) =~= Seq::empty());
        if fits {
            let data = slice_subrange(all, skip, all.len());
            assert(data@ =~= unit_bytes(frame@).skip(skip as int));
            let (units, guessed, pos, length) = read_task_units(
                repo,
                data,
                pw_data,
                dir,
                start_pos + 16 + skip,
                count,
                protocol,
                region,
            );
            pw = guessed;
            if dir == 1 {
                below = task_answer_fields_of(
                    repo,
                    frame,
                    data,
                    units,
                    pos,
                    length,
                    skip,
                    grouped,
                    start_pos,
                    protocol,
                    region,
                );
            } else {
                below = units;
            }
        }
        assert(fields_view(below@) == task_body_fields(
            repo,
            protocol@,
            region@,
            frame@,
            dir,
            start_pos as int,
        ));
        let body = branch(
            "信息体",
            FrameFun::get_data_str_with_space(slice_subrange(frame, 16, n - 2)),
            String::new(),
            start_pos + 16,
            start_pos + n - 2,
            below,
        );
        proof {
            lemma_fields_view_push(head@, body);
        }
        head.push(body);
        if pw {
            let f = pw_field_of(frame, start_pos, pw_data);
            proof {
                lemma_fields_view_push(head@, f);
            }
            head.push(f);
        }
        if tpv {
            let f = tp_field_of(frame, start_pos);
            proof {
                lemma_fields_view_push(head@, f);
            }
            head.push(f);
        }
        proof {
            lemma_fields_view_concat(before, head@);
        }
        result_list.append(&mut head);
        Ok(())
    }
}

} // verus!
