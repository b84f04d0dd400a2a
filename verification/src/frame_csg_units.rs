//! The data units of a CSG frame: runs of a point, a data identifier and the data
//! of the item, read one unit at a time.

use vstd::prelude::*;
use vstd::string::*;
use vstd::slice::*;
use crate::decoded::{field_view, fields_view, DecodedField, FieldView};
use crate::frame_csg::{
    afn_seq_fields, end_fields, err_code_text, has_custom_head, head_fields, pw_judged,
    recalculated_length, FrameCsg,
};
use crate::frame_csg_history::history_frame_fields;
use crate::frame_csg_task::task_frame_fields;
use crate::frame_err::CustomError;
use crate::frame_fun::{
    all_equal, da_text, data_str, first_nul, ip_text, le_number, sat_u32, time_text, utf8_lossy,
    FrameFun,
};
use crate::protocol::{
    declared_length, declared_length_of, decode_item, decoded_item, is_unknown, is_unknown_text,
    item_length, item_length_of, leaf, leaf_field, lemma_fields_view_concat,
    lemma_fields_view_push, lookup_item, min_of, number_or_zero, number_or_zero_of, query_of,
    replace_all, replace_text, text_or, Query, DECODE_DEPTH,
};
use crate::text::{
    chars_to_string, dec_string, hex_concat, hex_spaced, parse_usize, parse_usize_spec, push_dec,
    push_str, str_eq, to_chars,
};
use crate::xmlconfig::{opt_element_view, ElementView, ProtocolConfigManager, XmlElement};

verus! {

/// The kinds of frames whose body is a run of data units.
#[derive(Clone, Copy, Debug, PartialEq, Eq, Structural)]
pub enum UnitKind {
    Ack,
    Link,
    Write,
    Security,
    ReadCur,
    ReadParam,
    Alarm,
    Event,
    Relay,
    Topo,
    FileTrans,
}

/// What a unit takes of the bytes behind its identifier: nothing because the
/// reading stops, nothing because the frame cannot be read at all, or a number
/// of bytes as its data together with the number of bytes that are shown and
/// decoded as its data.
#[derive(Clone, Copy, Debug, PartialEq, Eq, Structural)]
pub enum UnitLength {
    Stop,
    Fail,
    Take(usize, usize),
}

/// What reading one data unit gives: the fields of the unit, where the next unit
/// starts, where the units end, the number of units read, whether a password
/// stands behind the units, whether the reading stops, and whether the frame
/// cannot be read at all.
pub struct UnitStep {
    pub fields: Vec<DecodedField>,
    pub pos: usize,
    pub length: usize,
    pub num: usize,
    pub pw: bool,
    pub stop: bool,
    pub fail: bool,
}

/// The mathematical content of a step.
pub struct StepView {
    pub fields: Seq<FieldView>,
    pub pos: nat,
    pub length: nat,
    pub num: nat,
    pub pw: bool,
    pub stop: bool,
    pub fail: bool,
}

impl UnitStep {
    /// The content of the step.
    pub open spec fn view(&self) -> StepView {
        StepView {
            fields: fields_view(self.fields@),
            pos: self.pos as nat,
            length: self.length as nat,
            num: self.num as nat,
            pw: self.pw,
            stop: self.stop,
            fail: self.fail,
        }
    }
}

/// The label of a field of unit `num`, counted from zero.
pub open spec fn unit_label(num: nat, what: Seq<char>) -> Seq<char> {
    "<第"@ + dec_string(num + 1) + "组>"@ + what
}

/// The text for the point bitmap of a unit.
pub open spec fn unit_point_text(da: Seq<u8>) -> Seq<char> {
    da_text(
        da,
        "Pn=测量点：0(终端)"@,
        "Pn=测量点：FFFF(除了终端信息点以外的所有测量点)"@,
        "Pn=第"@,
        "测量点"@,
    )
}

/// What is said of a password.
pub open spec fn pw_text() -> Seq<char> {
    "PW由16个字节组成，是由主站按系统约定的认证算法产生，并在主站发送的报文中下发给终端，由终端进行校验认证。"@
}

/// The text of a data identifier without its heading, with the name of its item
/// where it has one.
pub open spec fn bare_identifier_text(id: Seq<char>, el: Option<ElementView>) -> Seq<char> {
    match el {
        Some(e) => "["@ + id + "]-"@ + text_or(e.child_text("name"@), Seq::empty()),
        None => "["@ + id + "]"@,
    }
}

/// The text of a data identifier.
pub open spec fn identifier_text(id: Seq<char>, el: Option<ElementView>) -> Seq<char> {
    "数据标识编码："@ + bare_identifier_text(id, el)
}

/// A text without a leading `Pn=`.
pub open spec fn without_pn(point: Seq<char>) -> Seq<char> {
    if point.len() >= 3 && point.take(3) == "Pn="@ { point.skip(3) } else { point }
}

/// Whether a frame carries values: a frame that goes up as an answer; for alarms,
/// every frame that goes up.
pub open spec fn is_answer(kind: UnitKind, dir: u8, prm: u8) -> bool {
    if kind == UnitKind::Alarm { dir == 1 } else { dir == 1 && prm == 0 }
}

/// The query for the items of a frame in a direction.
pub open spec fn unit_query(
    repo: &ProtocolConfigManager,
    protocol: Seq<char>,
    region: Seq<char>,
    dir: u8,
) -> Query {
    query_of(repo, protocol, region, Some(dir))
}

/// As many bytes as data as are shown.
pub open spec fn take_all(l: nat) -> UnitLength {
    UnitLength::Take(l as usize, l as usize)
}

/// The length of the data of an item by its declared length: the resolved length
/// for the sentinel `UNKNOWN`; a literal length, held to the bytes that are left
/// and, with `recalc`, scaled as a block; `on_error` for a length that is no
/// number and `missing` for none.
pub open spec fn value_length(
    q: Query,
    e: ElementView,
    rest: Seq<u8>,
    recalc: bool,
    missing: UnitLength,
    on_error: UnitLength,
) -> UnitLength {
    let fuel = DECODE_DEPTH as nat;
    match e.child_text("length"@) {
        None => missing,
        Some(t) => if is_unknown(t) {
            take_all(item_length(q, e, rest, None, fuel))
        } else {
            match parse_usize_spec(t) {
                None => on_error,
                Some(n) => {
                    let l0 = min_of(n as int, rest.len() as int);
                    take_all(
                        if recalc {
                            recalculated_length(q, e, rest.take(l0), fuel)
                        } else {
                            l0 as nat
                        },
                    )
                },
            }
        },
    }
}

/// What a unit takes of the bytes behind its identifier. A frame without values
/// takes nothing; an item that is not known stops the reading of a frame with
/// values.
pub open spec fn unit_data_length(
    kind: UnitKind,
    q: Query,
    el: Option<ElementView>,
    rest: Seq<u8>,
    answer: bool,
) -> UnitLength {
    let fuel = DECODE_DEPTH as nat;
    let all = take_all(rest.len());
    let none = take_all(0);
    match kind {
        UnitKind::Ack => match el {
            Some(e) => match e.child_text("length"@) {
                Some(t) => take_all(min_of(number_or_zero(Some(t)) as int, rest.len() as int) as nat),
                None => all,
            },
            None => all,
        },
        UnitKind::Link | UnitKind::Write | UnitKind::FileTrans => if answer {
            take_all(min_of(1, rest.len() as int) as nat)
        } else {
            match el {
                Some(e) => take_all(
                    min_of(declared_length(q, e, rest, rest.len(), fuel) as int, rest.len() as int) as nat,
                ),
                None => UnitLength::Stop,
            }
        },
        UnitKind::ReadCur | UnitKind::ReadParam | UnitKind::Alarm => match el {
            Some(e) => if answer { value_length(q, e, rest, true, none, none) } else { none },
            None => if answer { UnitLength::Stop } else { none },
        },
        UnitKind::Security => match el {
            Some(e) => if answer {
                value_length(
                    q,
                    e,
                    rest,
                    true,
                    UnitLength::Take(0, rest.len() as usize),
                    UnitLength::Stop,
                )
            } else {
                none
            },
            None => if answer { UnitLength::Stop } else { none },
        },
        UnitKind::Event => match el {
            Some(e) => if answer {
                value_length(q, e, rest, false, none, UnitLength::Fail)
            } else {
                none
            },
            None => if answer { UnitLength::Stop } else { none },
        },
        UnitKind::Relay => match el {
            Some(e) => value_length(q, e, rest, true, none, UnitLength::Fail),
            None => UnitLength::Stop,
        },
        UnitKind::Topo => match el {
            Some(e) => value_length(q, e, rest, true, none, UnitLength::Fail),
            None => if answer { UnitLength::Stop } else { none },
        },
    }
}

/// Whether the data of a unit is decoded by the schema of its item.
pub open spec fn unit_is_decoded(kind: UnitKind, found: bool, answer: bool) -> bool {
    match kind {
        UnitKind::Ack | UnitKind::Link | UnitKind::Relay | UnitKind::Topo | UnitKind::FileTrans => found,
        UnitKind::Write => found && !answer,
        _ => found && answer,
    }
}

/// Whether a guess at a password is made where the reading stops at an item
/// that is not known.
pub open spec fn guesses_at_stop(kind: UnitKind) -> bool {
    kind != UnitKind::Ack && kind != UnitKind::Link && kind != UnitKind::Write && kind
        != UnitKind::FileTrans
}

/// Whether only the fields of the last unit are kept.
pub open spec fn keeps_last_unit(kind: UnitKind) -> bool {
    kind == UnitKind::Topo
}

/// Whether no password is looked for behind a unit of an item that is not
/// known.
pub open spec fn passes_unknown(kind: UnitKind) -> bool {
    kind == UnitKind::Topo
}

/// Whether a unit of an item that is not known is passed over by two bytes only.
pub open spec fn stays_at_unknown(kind: UnitKind) -> bool {
    kind == UnitKind::ReadCur || kind == UnitKind::Security
}

/// Whether a unit of a frame without values names a range of time behind its
/// identifier.
pub open spec fn asks_for_times(kind: UnitKind) -> bool {
    kind == UnitKind::Alarm || kind == UnitKind::Event
}

/// The text that stands with the data of a unit.
pub open spec fn unit_data_text(
    kind: UnitKind,
    id: Seq<char>,
    point: Seq<char>,
    el: Option<ElementView>,
    data: Seq<u8>,
    sub: Seq<u8>,
    answer: bool,
) -> Seq<char> {
    match kind {
        UnitKind::Ack => "数据标识["@ + id + "]数据内容："@ + data_str(data, false, true, false),
        UnitKind::Link | UnitKind::Write => if answer {
            "写参数返回结果："@ + hex_concat(sub.reverse()) + "-"@ + (if sub.len() > 0 {
                err_code_text(sub[0])
            } else {
                Seq::empty()
            })
        } else {
            "数据标识["@ + id + "]数据内容："@ + hex_concat(sub.reverse())
        },
        UnitKind::FileTrans => "数据标识["@ + id + "]数据内容："@ + hex_concat(sub.reverse()),
        UnitKind::ReadCur | UnitKind::Event | UnitKind::Relay | UnitKind::Topo => without_pn(point)
            + "-"@ + bare_identifier_text(id, el),
        UnitKind::Security => replace_all(point, "Pn="@, Seq::empty()) + "-"@
            + bare_identifier_text(id, el),
        UnitKind::ReadParam | UnitKind::Alarm => replace_all(point, "Pn="@, Seq::empty()) + "-"@
            + replace_all(identifier_text(id, el), "数据标识编码："@, Seq::empty()),
    }
}

/// The field for the data of a unit, where the unit shows one: the bytes shown,
/// over the range of the bytes taken.
pub open spec fn unit_data_field(
    kind: UnitKind,
    num: nat,
    shown: Seq<u8>,
    taken: nat,
    text: Seq<char>,
    start: int,
    decoded: Seq<FieldView>,
    found: bool,
    answer: bool,
) -> Option<FieldView> {
    let with_children = |label: Seq<char>, children: Option<Seq<FieldView>>|
        FieldView {
            frame_domain: unit_label(num, label),
            data: hex_spaced(shown),
            description: text,
            start,
            end: start + taken,
            color: None,
            children,
        };
    match kind {
        UnitKind::Ack => Some(with_children("数据标识内容"@, Some(decoded))),
        UnitKind::Link => if answer {
            Some(with_children("ERR"@, Some(decoded)))
        } else if decoded.len() > 0 {
            Some(with_children("数据标识内容"@, Some(decoded)))
        } else {
            None
        },
        UnitKind::Write => if answer {
            Some(with_children("ERR"@, None))
        } else if decoded.len() > 0 {
            Some(with_children("数据标识内容"@, Some(decoded)))
        } else {
            None
        },
        UnitKind::Relay => Some(with_children("数据内容"@, Some(decoded))),
        UnitKind::Topo => if found {
            Some(with_children("数据内容"@, Some(decoded)))
        } else {
            None
        },
        UnitKind::FileTrans => if taken > 0 {
            Some(with_children("数据标识内容"@, Some(decoded)))
        } else {
            None
        },
        _ => if found && answer {
            Some(with_children("数据内容"@, Some(decoded)))
        } else {
            None
        },
    }
}

/// The two fields for the range of time that a unit of a frame without values
/// names: twelve bytes behind the identifier.
pub open spec fn time_range_fields(rest: Seq<u8>, start: int) -> Seq<FieldView> {
    seq![
        leaf_field(
            "数据起始时间"@,
            hex_spaced(rest.subrange(0, 6)),
            time_text(rest.subrange(0, 6), "CCYYMMDDhhmm"@, false),
            start,
            start + 6,
            None,
        ),
        leaf_field(
            "数据结束时间"@,
            hex_spaced(rest.subrange(6, 12)),
            time_text(rest.subrange(6, 12), "CCYYMMDDhhmm"@, false),
            start + 6,
            start + 12,
            None,
        ),
    ]
}

/// Whether a password is guessed behind the units that end at `length`.
pub open spec fn pw_guessed(q: Query, length: nat, pw_data: Seq<u8>) -> bool {
    if length <= 16 || pw_data.len() < 16 {
        false
    } else if all_equal(pw_data, 0) {
        true
    } else {
        pw_judged(q, pw_data, None, None, false, DECODE_DEPTH as nat)
    }
}

/// The field for the data of the unit at `pos` that takes `l` bytes and shows
/// `s` of them, where the unit shows one: the bytes are decoded by the schema of
/// the item where the kind of frame asks for it.
#[verifier::opaque]
pub open spec fn unit_taken(
    kind: UnitKind,
    q: Query,
    need_delete: bool,
    data: Seq<u8>,
    index: int,
    pos: nat,
    num: nat,
    id: Seq<char>,
    point: Seq<char>,
    el: Option<ElementView>,
    answer: bool,
    l: usize,
    s: usize,
) -> Option<FieldView> {
    let rest = data.subrange(pos as int + 6, data.len() as int);
    let shown = rest.take(s as int);
    let decoded = if unit_is_decoded(kind, el is Some, answer) {
        decoded_item(q, el.unwrap(), shown, index + pos + 6, need_delete, DECODE_DEPTH as nat)
    } else {
        Seq::empty()
    };
    let text = unit_data_text(kind, id, point, el, data, shown, answer);
    unit_data_field(kind, num, shown, l as nat, text, index + pos + 6, decoded, el is Some, answer)
}

/// Where the reading stands behind the unit at `pos` that took `l` bytes and gave
/// the fields `fields`. A unit of an item that is not known is passed over by two
/// bytes where the kind of frame reads on; a unit that asks for a range of time
/// shows it. Where sixteen bytes are left behind the unit, they are taken for a
/// password where they look like one.
#[verifier::opaque]
pub open spec fn unit_moved(
    kind: UnitKind,
    q: Query,
    data: Seq<u8>,
    pw_data: Seq<u8>,
    index: int,
    pos: nat,
    length: nat,
    num: nat,
    pw: bool,
    answer: bool,
    found: bool,
    l: usize,
    fields: Seq<FieldView>,
) -> StepView {
    let rest = data.subrange(pos as int + 6, data.len() as int);
    if stays_at_unknown(kind) && !found {
        StepView { fields, pos: pos + 2, length, num, pw, stop: false, fail: false }
    } else if asks_for_times(kind) && !answer && rest.len() < 12 {
        StepView { fields, pos: pos + 6, length, num, pw, stop: true, fail: false }
    } else {
        let times = asks_for_times(kind) && !answer;
        let next: nat = (pos + 6 + l + (if times { 12nat } else { 0nat })) as nat;
        let check = length >= next && length - next == 16 && !(passes_unknown(kind) && !found);
        let guess = check && pw_guessed(q, length, pw_data);
        StepView {
            fields: if times { fields + time_range_fields(rest, index + pos + 6) } else { fields },
            pos: next,
            length: if guess { (length - 16) as nat } else { length },
            num: num + 1,
            pw: if check { guess } else { pw },
            stop: false,
            fail: false,
        }
    }
}

/// Reading the data unit at `pos`: the field of its point, the field of its data
/// identifier and, where the kind of frame shows it, the field of its data,
/// decoded by the schema of the item, or the fields of the range of time that
/// it asks for. A unit without six bytes, or one that the kind of frame cannot
/// read, stops the reading.
#[verifier::opaque]
pub open spec fn unit_step(
    kind: UnitKind,
    q: Query,
    need_delete: bool,
    data: Seq<u8>,
    pw_data: Seq<u8>,
    dir: u8,
    prm: u8,
    index: int,
    pos: nat,
    length: nat,
    num: nat,
    pw: bool,
) -> StepView {
    let stay = StepView { fields: Seq::empty(), pos, length, num, pw, stop: true, fail: false };
    if pos >= length || pos + 6 > data.len() {
        stay
    } else {
        let da = data.subrange(pos as int, pos as int + 2);
        let item = data.subrange(pos as int + 2, pos as int + 6);
        let point = unit_point_text(da);
        let id = hex_concat(item.reverse());
        let answer = is_answer(kind, dir, prm);
        let da_field = leaf_field(
            unit_label(num, "信息点标识DA"@),
            hex_spaced(da),
            point,
            index + pos,
            index + pos + 2,
            None,
        );
        let el = q.item(id);
        let rest = data.subrange(pos as int + 6, data.len() as int);
        let di_field = leaf_field(
            unit_label(num, "数据标识编码DI"@),
            hex_spaced(item),
            identifier_text(id, el),
            index + pos + 2,
            index + pos + 6,
            None,
        );
        match unit_data_length(kind, q, el, rest, answer) {
            UnitLength::Fail => StepView {
                fields: seq![da_field],
                pos: pos + 2,
                length,
                num,
                pw,
                stop: true,
                fail: true,
            },
            UnitLength::Stop => StepView {
                fields: seq![da_field],
                pos: pos + 2,
                length,
                num,
                pw: if guesses_at_stop(kind) && el is None {
                    pw_guessed(q, length, pw_data)
                } else {
                    pw
                },
                stop: true,
                fail: false,
            },
            UnitLength::Take(l, s) => unit_moved(
                kind,
                q,
                data,
                pw_data,
                index,
                pos,
                length,
                num,
                pw,
                answer,
                el is Some,
                l,
                match unit_taken(kind, q, need_delete, data, index, pos, num, id, point, el, answer, l, s) {
                    Some(f) => seq![da_field, di_field, f],
                    None => seq![da_field, di_field],
                },
            ),
        }
    }
}

/// The fields of the data units from `pos` on, after those in `acc`, whether a
/// password stands behind them, and whether the frame cannot be read at all.
/// Where the kind of frame keeps the last unit only, the fields of a unit take
/// the place of those before it.
pub open spec fn units_from(
    kind: UnitKind,
    q: Query,
    need_delete: bool,
    data: Seq<u8>,
    pw_data: Seq<u8>,
    dir: u8,
    prm: u8,
    index: int,
    pos: nat,
    length: nat,
    num: nat,
    pw: bool,
    acc: Seq<FieldView>,
) -> (Seq<FieldView>, bool, bool)
    decreases data.len() - pos,
{
    let s = unit_step(kind, q, need_delete, data, pw_data, dir, prm, index, pos, length, num, pw);
    let acc = if keeps_last_unit(kind) && s.fields.len() > 0 { Seq::empty() } else { acc };
    if s.stop || s.pos <= pos || s.pos > data.len() {
        (acc + s.fields, s.pw, s.fail)
    } else {
        units_from(
            kind,
            q,
            need_delete,
            data,
            pw_data,
            dir,
            prm,
            index,
            s.pos,
            s.length,
            s.num,
            s.pw,
            acc + s.fields,
        )
    }
}

/// The label of a field of unit `num`.
pub fn unit_label_of(num: usize, what: &str) -> (r: String)
    requires
        num < usize::MAX,
    ensures
        r@ == unit_label(num as nat, what@),
{
    let mut out = String::new();
    push_str(&mut out, "<第");
    push_dec(&mut out, (num + 1) as u64);
    push_str(&mut out, "组>");
    push_str(&mut out, what);
    assert(out@ =~= unit_label(num as nat, what@));
    out
}

/// The text of a data identifier without its heading.
pub fn bare_identifier_text_of(id: &str, el: &Option<XmlElement>) -> (r: String)
    ensures
        r@ == bare_identifier_text(id@, opt_element_view(*el)),
{
    let mut out = String::new();
    push_str(&mut out, "[");
    push_str(&mut out, id);
    match el {
        Some(e) => {
            push_str(&mut out, "]-");
            match e.get_child_text("name") {
                Some(n) => {
                    push_str(&mut out, n.as_str());
                },
                None => {},
            }
            assert(out@ =~= "["@ + id@ + "]-"@ + text_or(e@.child_text("name"@), Seq::empty()));
        },
        None => {
            push_str(&mut out, "]");
            assert(out@ =~= "["@ + id@ + "]"@);
        },
    }
    out
}

/// The text of a data identifier.
pub fn identifier_text_of(id: &str, el: &Option<XmlElement>) -> (r: String)
    ensures
        r@ == identifier_text(id@, opt_element_view(*el)),
{
    let mut out = String::new();
    push_str(&mut out, "数据标识编码：");
    let bare = bare_identifier_text_of(id, el);
    push_str(&mut out, bare.as_str());
    assert(out@ =~= identifier_text(id@, opt_element_view(*el)));
    out
}

/// A text without a leading `Pn=`.
pub fn without_pn_of(point: &str) -> (r: String)
    ensures
        r@ == without_pn(point@),
{
    let v = to_chars(point);
    if v.len() >= 3 {
        let head = chars_to_string(&v, 0, 3);
        assert(head@ =~= point@.take(3));
        if str_eq(head.as_str(), "Pn=") {
            let tail = chars_to_string(&v, 3, v.len());
            assert(tail@ =~= point@.skip(3));
            return tail;
        }
    }
    point.to_owned()
}

/// Whether a password is guessed behind the units that end at `length`.
pub fn guess_pw(
    repo: &ProtocolConfigManager,
    length: usize,
    pw_data: &[u8],
    protocol: &str,
    region: &str,
    dir: u8,
) -> (r: bool)
    requires
        repo.wf(),
    ensures
        r == pw_guessed(unit_query(repo, protocol@, region@, dir), length as nat, pw_data@),
        r ==> pw_data@.len() >= 16,
{
    FrameCsg::guest_is_exit_pw(repo, length, pw_data, None, None, false, protocol, region, Some(dir))
}

/// The length of the data of an item by its declared length.
pub fn value_length_of(
    repo: &ProtocolConfigManager,
    e: &XmlElement,
    rest: &[u8],
    recalc: bool,
    missing: UnitLength,
    on_error: UnitLength,
    protocol: &str,
    region: &str,
    dir: u8,
) -> (r: UnitLength)
    requires
        repo.wf(),
        missing matches UnitLength::Take(l, s) ==> l <= rest@.len() && s <= rest@.len(),
        on_error matches UnitLength::Take(l, s) ==> l <= rest@.len() && s <= rest@.len(),
    ensures
        r == value_length(
            unit_query(repo, protocol@, region@, dir),
            e@,
            rest@,
            recalc,
            missing,
            on_error,
        ),
        r matches UnitLength::Take(l, s) ==> l <= rest@.len() && s <= rest@.len(),
{
    let n = rest.len();
    match e.get_child_text("length") {
        None => missing,
        Some(t) => {
            if is_unknown_text(t.as_str()) {
                let l = item_length_of(
                    repo,
                    e,
                    rest,
                    None,
                    protocol,
                    region,
                    Some(dir),
                    DECODE_DEPTH,
                );
                UnitLength::Take(l, l)
            } else {
                match parse_usize(t.as_str()) {
                    None => on_error,
                    Some(raw) => {
                        let l0: usize = if raw <= n { raw } else { n };
                        if recalc {
                            let part = slice_subrange(rest, 0, l0);
                            assert(part@ =~= rest@.take(l0 as int));
                            let (l, _bytes) = FrameCsg::recalculate_sub_length(
                                repo,
                                e,
                                part,
                                protocol,
                                region,
                                Some(dir),
                            );
                            UnitLength::Take(l, l)
                        } else {
                            UnitLength::Take(l0, l0)
                        }
                    },
                }
            }
        },
    }
}

/// What a unit takes of the bytes behind its identifier.
pub fn unit_data_length_of(
    kind: UnitKind,
    repo: &ProtocolConfigManager,
    el: &Option<XmlElement>,
    rest: &[u8],
    answer: bool,
    protocol: &str,
    region: &str,
    dir: u8,
) -> (r: UnitLength)
    requires
        repo.wf(),
    ensures
        r == unit_data_length(
            kind,
            unit_query(repo, protocol@, region@, dir),
            opt_element_view(*el),
            rest@,
            answer,
        ),
        r matches UnitLength::Take(l, s) ==> l <= rest@.len() && s <= rest@.len(),
        r matches UnitLength::Take(l, s) ==> (asks_for_times(kind) && !answer ==> l == 0),
{
    let n = rest.len();
    let all = UnitLength::Take(n, n);
    let none = UnitLength::Take(0, 0);
    match kind {
        UnitKind::Ack => match el {
            Some(e) => match e.get_child_text("length") {
                Some(t) => {
                    let raw = number_or_zero_of(&Some(t));
                    let l: usize = if raw <= n { raw } else { n };
                    UnitLength::Take(l, l)
                },
                None => all,
            },
            None => all,
        },
        UnitKind::Link | UnitKind::Write | UnitKind::FileTrans => {
            if answer {
                let l: usize = if n >= 1 { 1 } else { 0 };
                UnitLength::Take(l, l)
            } else {
                match el {
                    Some(e) => {
                        let raw = declared_length_of(
                            repo,
                            e,
                            rest,
                            n,
                            protocol,
                            region,
                            Some(dir),
                            DECODE_DEPTH,
                        );
                        let l: usize = if raw <= n { raw } else { n };
                        UnitLength::Take(l, l)
                    },
                    None => UnitLength::Stop,
                }
            }
        },
        UnitKind::ReadCur | UnitKind::ReadParam | UnitKind::Alarm => match el {
            Some(e) => if answer {
                value_length_of(repo, e, rest, true, none, none, protocol, region, dir)
            } else {
                none
            },
            None => if answer { UnitLength::Stop } else { none },
        },
        UnitKind::Security => match el {
            Some(e) => if answer {
                value_length_of(
                    repo,
                    e,
                    rest,
                    true,
                    UnitLength::Take(0, n),
                    UnitLength::Stop,
                    protocol,
                    region,
                    dir,
                )
            } else {
                none
            },
            None => if answer { UnitLength::Stop } else { none },
        },
        UnitKind::Event => match el {
            Some(e) => if answer {
                value_length_of(repo, e, rest, false, none, UnitLength::Fail, protocol, region, dir)
            } else {
                none
            },
            None => if answer { UnitLength::Stop } else { none },
        },
        UnitKind::Relay => match el {
            Some(e) => value_length_of(
                repo,
                e,
                rest,
                true,
                none,
                UnitLength::Fail,
                protocol,
                region,
                dir,
            ),
            None => UnitLength::Stop,
        },
        UnitKind::Topo => match el {
            Some(e) => value_length_of(
                repo,
                e,
                rest,
                true,
                none,
                UnitLength::Fail,
                protocol,
                region,
                dir,
            ),
            None => if answer { UnitLength::Stop } else { none },
        },
    }
}

/// The text that stands with the data of a unit.
pub fn unit_data_text_of(
    kind: UnitKind,
    id: &str,
    point: &str,
    el: &Option<XmlElement>,
    data: &[u8],
    sub: &[u8],
    answer: bool,
) -> (r: String)
    ensures
        r@ == unit_data_text(kind, id@, point@, opt_element_view(*el), data@, sub@, answer),
{
    proof {
        reveal_strlit("");
        assert(""@ =~= Seq::<char>::empty());
    }
    let mut out = String::new();
    match kind {
        UnitKind::Ack => {
            push_str(&mut out, "数据标识[");
            push_str(&mut out, id);
            push_str(&mut out, "]数据内容：");
            let shown = FrameFun::get_data_str(data, false, true, false);
            push_str(&mut out, shown.as_str());
            assert(out@ =~= "数据标识["@ + id@ + "]数据内容："@ + data_str(data@, false, true, false));
        },
        UnitKind::Link | UnitKind::Write => {
            let rev = FrameFun::get_data_str_reverser(sub);
            if answer {
                push_str(&mut out, "写参数返回结果：");
                push_str(&mut out, rev.as_str());
                push_str(&mut out, "-");
                if sub.len() > 0 {
                    push_str(&mut out, FrameCsg::prase_err_code_result(sub[0]));
                }
                assert(out@ =~= "写参数返回结果："@ + hex_concat(sub@.reverse()) + "-"@ + (if sub@.len()
                    > 0 {
                    err_code_text(sub@[0])
                } else {
                    Seq::empty()
                }));
            } else {
                push_str(&mut out, "数据标识[");
                push_str(&mut out, id);
                push_str(&mut out, "]数据内容：");
                push_str(&mut out, rev.as_str());
                assert(out@ =~= "数据标识["@ + id@ + "]数据内容："@ + hex_concat(sub@.reverse()));
            }
        },
        UnitKind::FileTrans => {
            let rev = FrameFun::get_data_str_reverser(sub);
            push_str(&mut out, "数据标识[");
            push_str(&mut out, id);
            push_str(&mut out, "]数据内容：");
            push_str(&mut out, rev.as_str());
            assert(out@ =~= "数据标识["@ + id@ + "]数据内容："@ + hex_concat(sub@.reverse()));
        },
        UnitKind::ReadCur | UnitKind::Event | UnitKind::Relay | UnitKind::Topo => {
            let p = without_pn_of(point);
            let bare = bare_identifier_text_of(id, el);
            push_str(&mut out, p.as_str());
            push_str(&mut out, "-");
            push_str(&mut out, bare.as_str());
            assert(out@ =~= without_pn(point@) + "-"@ + bare_identifier_text(
                id@,
                opt_element_view(*el),
            ));
        },
        UnitKind::Security => {
            let p = replace_text(point, "Pn=", "");
            let bare = bare_identifier_text_of(id, el);
            push_str(&mut out, p.as_str());
            push_str(&mut out, "-");
            push_str(&mut out, bare.as_str());
            assert(out@ =~= replace_all(point@, "Pn="@, Seq::empty()) + "-"@ + bare_identifier_text(
                id@,
                opt_element_view(*el),
            ));
        },
        UnitKind::ReadParam | UnitKind::Alarm => {
            let p = replace_text(point, "Pn=", "");
            let d = identifier_text_of(id, el);
            let shown = replace_text(d.as_str(), "数据标识编码：", "");
            push_str(&mut out, p.as_str());
            push_str(&mut out, "-");
            push_str(&mut out, shown.as_str());
            assert(out@ =~= replace_all(point@, "Pn="@, Seq::empty()) + "-"@ + replace_all(
                identifier_text(id@, opt_element_view(*el)),
                "数据标识编码："@,
                Seq::empty(),
            ));
        },
    }
    out
}

/// A field of a unit with the given label.
pub fn unit_field(
    num: usize,
    label: &str,
    shown: &[u8],
    text: String,
    start: usize,
    end: usize,
    children: Option<Vec<DecodedField>>,
) -> (r: DecodedField)
    requires
        num < usize::MAX,
    ensures
        r@ == (FieldView {
            frame_domain: unit_label(num as nat, label@),
            data: hex_spaced(shown@),
            description: text@,
            start: start as int,
            end: end as int,
            color: None,
            children: match children {
                Some(c) => Some(fields_view(c@)),
                None => None,
            },
        }),
{
    DecodedField {
        frame_domain: unit_label_of(num, label),
        data: FrameFun::get_data_str_with_space(shown),
        description: text,
        start,
        end,
        color: None,
        children,
    }
}

/// The field for the data of the unit at `pos`, where the unit shows one.
#[verifier::rlimit(100)]
#[verifier::spinoff_prover]
pub fn take_unit(
    kind: UnitKind,
    repo: &ProtocolConfigManager,
    data: &[u8],
    dir: u8,
    index: usize,
    pos: usize,
    num: usize,
    id: &str,
    point: &str,
    el: &Option<XmlElement>,
    answer: bool,
    l: usize,
    s: usize,
    protocol: &str,
    region: &str,
) -> (r: Option<DecodedField>)
    requires
        repo.wf(),
        index + data@.len() <= usize::MAX,
        pos + 6 <= data@.len(),
        pos + 6 + l <= data@.len(),
        pos + 6 + s <= data@.len(),
        num < usize::MAX,
    ensures
        (match r {
            Some(f) => Some(field_view(f)),
            None => None,
        }) == unit_taken(
            kind,
            unit_query(repo, protocol@, region@, dir),
            protocol@ == "DLT/645-2007"@,
            data@,
            index as int,
            pos as nat,
            num as nat,
            id@,
            point@,
            opt_element_view(*el),
            answer,
            l,
            s,
        ),
{
    reveal(unit_taken);
    let n = data.len();
    let need_delete = str_eq(protocol, "DLT/645-2007");
    let shown = slice_subrange(data, pos + 6, pos + 6 + s);
    assert(shown@ =~= data@.subrange(pos as int + 6, n as int).take(s as int));
    let found = el.is_some();
    let decode = match kind {
        UnitKind::Ack | UnitKind::Link | UnitKind::Relay | UnitKind::Topo | UnitKind::FileTrans => found,
        UnitKind::Write => found && !answer,
        _ => found && answer,
    };
    let decoded: Vec<DecodedField> = match el {
        Some(e) => if decode {
            decode_item(
                repo,
                e,
                shown,
                index + pos + 6,
                need_delete,
                protocol,
                region,
                Some(dir),
                DECODE_DEPTH,
            )
        } else {
            Vec::new()
        },
        None => Vec::new(),
    };
    assert(!decode ==> fields_view(decoded@) =~= Seq::empty());
    let text = unit_data_text_of(kind, id, point, el, data, shown, answer);
    let start = index + pos + 6;
    let end = start + l;
    let has_decoded = decoded.len() > 0;
    match kind {
        UnitKind::Ack => Some(
            unit_field(num, "数据标识内容", shown, text, start, end, Some(decoded)),
        ),
        UnitKind::Link => if answer {
            Some(unit_field(num, "ERR", shown, text, start, end, Some(decoded)))
        } else if has_decoded {
            Some(unit_field(num, "数据标识内容", shown, text, start, end, Some(decoded)))
        } else {
            None
        },
        UnitKind::Write => if answer {
            Some(unit_field(num, "ERR", shown, text, start, end, None))
        } else if has_decoded {
            Some(unit_field(num, "数据标识内容", shown, text, start, end, Some(decoded)))
        } else {
            None
        },
        UnitKind::Relay => Some(unit_field(num, "数据内容", shown, text, start, end, Some(decoded))),
        UnitKind::Topo => if found {
            Some(unit_field(num, "数据内容", shown, text, start, end, Some(decoded)))
        } else {
            None
        },
        UnitKind::FileTrans => if l > 0 {
            Some(unit_field(num, "数据标识内容", shown, text, start, end, Some(decoded)))
        } else {
            None
        },
        _ => if found && answer {
            Some(unit_field(num, "数据内容", shown, text, start, end, Some(decoded)))
        } else {
            None
        },
    }
}

/// Where the reading stands behind the unit at `pos` that took `l` bytes and gave
/// the fields `fields`.
#[verifier::rlimit(100)]
#[verifier::spinoff_prover]
pub fn move_on(
    kind: UnitKind,
    repo: &ProtocolConfigManager,
    data: &[u8],
    pw_data: &[u8],
    dir: u8,
    index: usize,
    pos: usize,
    length: usize,
    num: usize,
    pw: bool,
    answer: bool,
    found: bool,
    l: usize,
    fields: Vec<DecodedField>,
    protocol: &str,
    region: &str,
) -> (r: UnitStep)
    requires
        repo.wf(),
        index + data@.len() <= usize::MAX,
        pos + 6 + l <= data@.len(),
        length <= data@.len(),
        num <= pos,
        asks_for_times(kind) && !answer ==> l == 0,
    ensures
        r@ == unit_moved(
            kind,
            unit_query(repo, protocol@, region@, dir),
            data@,
            pw_data@,
            index as int,
            pos as nat,
            length as nat,
            num as nat,
            pw,
            answer,
            found,
            l,
            fields_view(fields@),
        ),
        r.pos <= data@.len() || r.stop,
        r.length <= data@.len(),
        r.num <= r.pos || r.stop,
        !r.stop ==> r.pos > pos,
        r.pw ==> pw || pw_data@.len() >= 16,
        !r.fail,
{
    reveal(unit_moved);
    let n = data.len();
    let mut fields = fields;
    let stays = match kind {
        UnitKind::ReadCur | UnitKind::Security => true,
        _ => false,
    };
    let asks = match kind {
        UnitKind::Alarm | UnitKind::Event => true,
        _ => false,
    };
    let rest = slice_subrange(data, pos + 6, n);
    if stays && !found {
        UnitStep { fields, pos: pos + 2, length, num, pw, stop: false, fail: false }
    } else if asks && !answer && rest.len() < 12 {
        UnitStep { fields, pos: pos + 6, length, num, pw, stop: true, fail: false }
    } else {
        let times = asks && !answer;
        let start = index + pos + 6;
        if times {
            let ghost before = fields_view(fields@);
            let from = slice_subrange(rest, 0, 6);
            let to = slice_subrange(rest, 6, 12);
            let f1 = leaf(
                "数据起始时间".to_owned(),
                FrameFun::get_data_str_with_space(from),
                FrameFun::parse_time_data(from, "CCYYMMDDhhmm", false),
                start,
                start + 6,
                None,
            );
            let f2 = leaf(
                "数据结束时间".to_owned(),
                FrameFun::get_data_str_with_space(to),
                FrameFun::parse_time_data(to, "CCYYMMDDhhmm", false),
                start + 6,
                start + 12,
                None,
            );
            proof {
                lemma_fields_view_push(fields@, f1);
                lemma_fields_view_push(fields@.push(f1), f2);
            }
            fields.push(f1);
            fields.push(f2);
            assert(fields_view(fields@) =~= before + time_range_fields(rest@, start as int));
        }
        let next: usize = pos + 6 + l + (if times { 12 } else { 0 });
        let passes = match kind {
            UnitKind::Topo => !found,
            _ => false,
        };
        if length >= next && length - next == 16 && !passes {
            let guess = guess_pw(repo, length, pw_data, protocol, region, dir);
            UnitStep {
                fields,
                pos: next,
                length: if guess { length - 16 } else { length },
                num: num + 1,
                pw: guess,
                stop: false,
                fail: false,
            }
        } else {
            UnitStep { fields, pos: next, length, num: num + 1, pw, stop: false, fail: false }
        }
    }
}

/// Reads the data unit at `pos`.
#[verifier::rlimit(100)]
#[verifier::spinoff_prover]
pub fn read_unit(
    kind: UnitKind,
    repo: &ProtocolConfigManager,
    data: &[u8],
    pw_data: &[u8],
    dir: u8,
    prm: u8,
    index: usize,
    pos: usize,
    length: usize,
    num: usize,
    pw: bool,
    protocol: &str,
    region: &str,
) -> (r: UnitStep)
    requires
        repo.wf(),
        index + data@.len() <= usize::MAX,
        length <= data@.len(),
        num <= pos,
    ensures
        r@ == unit_step(
            kind,
            unit_query(repo, protocol@, region@, dir),
            protocol@ == "DLT/645-2007"@,
            data@,
            pw_data@,
            dir,
            prm,
            index as int,
            pos as nat,
            length as nat,
            num as nat,
            pw,
        ),
        r.pos <= data@.len() || r.stop,
        r.length <= data@.len(),
        r.num <= r.pos || r.stop,
        !r.stop ==> r.pos > pos,
        r.pw ==> pw || pw_data@.len() >= 16,
{
    reveal(unit_step);
    let n = data.len();
    let mut fields: Vec<DecodedField> = Vec::new();
    if pos >= length || n - pos < 6 {
        assert(fields_view(fields@) =~= Seq::empty());
        return UnitStep { fields, pos, length, num, pw, stop: true, fail: false };
    }
    let da = slice_subrange(data, pos, pos + 2);
    let item = slice_subrange(data, pos + 2, pos + 6);
    let rest = slice_subrange(data, pos + 6, n);
    let point = FrameFun::parse_da_data(da);
    let id = FrameFun::get_data_str_reverser(item);
    let answer = match kind {
        UnitKind::Alarm => dir == 1,
        _ => dir == 1 && prm == 0,
    };
    let da_field = leaf(
        unit_label_of(num, "信息点标识DA"),
        FrameFun::get_data_str_with_space(da),
        point.clone(),
        index + pos,
        index + pos + 2,
        None,
    );
    let el = lookup_item(repo, id.as_str(), protocol, region, Some(dir));
    let found = el.is_some();
    let di_field = leaf(
        unit_label_of(num, "数据标识编码DI"),
        FrameFun::get_data_str_with_space(item),
        identifier_text_of(id.as_str(), &el),
        index + pos + 2,
        index + pos + 6,
        None,
    );
    let guesses = match kind {
        UnitKind::Ack | UnitKind::Link | UnitKind::Write | UnitKind::FileTrans => false,
        _ => true,
    };
    match unit_data_length_of(kind, repo, &el, rest, answer, protocol, region, dir) {
        UnitLength::Fail => {
            fields.push(da_field);
            assert(fields_view(fields@) =~= seq![field_view(da_field)]);
            UnitStep { fields, pos: pos + 2, length, num, pw, stop: true, fail: true }
        },
        UnitLength::Stop => {
            fields.push(da_field);
            assert(fields_view(fields@) =~= seq![field_view(da_field)]);
            let new_pw = if guesses && !found {
                guess_pw(repo, length, pw_data, protocol, region, dir)
            } else {
                pw
            };
            UnitStep { fields, pos: pos + 2, length, num, pw: new_pw, stop: true, fail: false }
        },
        UnitLength::Take(l, s) => {
            let data_field = take_unit(
                kind,
                repo,
                data,
                dir,
                index,
                pos,
                num,
                id.as_str(),
                point.as_str(),
                &el,
                answer,
                l,
                s,
                protocol,
                region,
            );
            fields.push(da_field);
            fields.push(di_field);
            match data_field {
                Some(f) => {
                    fields.push(f);
                    assert(fields_view(fields@) =~= seq![
                        field_view(da_field),
                        field_view(di_field),
                        field_view(f),
                    ]);
                },
                None => {
                    assert(fields_view(fields@) =~= seq![field_view(da_field), field_view(di_field)]);
                },
            }
            move_on(
                kind,
                repo,
                data,
                pw_data,
                dir,
                index,
                pos,
                length,
                num,
                pw,
                answer,
                found,
                l,
                fields,
                protocol,
                region,
            )
        },
    }
}

/// Reads the data units of a body, and tells whether a password stands behind
/// them and whether the frame cannot be read at all.
pub fn read_units(
    kind: UnitKind,
    repo: &ProtocolConfigManager,
    data: &[u8],
    pw_data: &[u8],
    dir: u8,
    prm: u8,
    index: usize,
    protocol: &str,
    region: &str,
) -> (r: (Vec<DecodedField>, bool, bool))
    requires
        repo.wf(),
        index + data@.len() <= usize::MAX,
    ensures
        (fields_view(r.0@), r.1, r.2) == units_from(
            kind,
            unit_query(repo, protocol@, region@, dir),
            protocol@ == "DLT/645-2007"@,
            data@,
            pw_data@,
            dir,
            prm,
            index as int,
            0,
            data@.len(),
            0,
            false,
            Seq::empty(),
        ),
        r.1 ==> pw_data@.len() >= 16,
{
    let ghost q = unit_query(repo, protocol@, region@, dir);
    let ghost nd = protocol@ == "DLT/645-2007"@;
    let ghost want = units_from(
        kind,
        q,
        nd,
        data@,
        pw_data@,
        dir,
        prm,
        index as int,
        0,
        data@.len(),
        0,
        false,
        Seq::empty(),
    );
    let mut out: Vec<DecodedField> = Vec::new();
    let mut pos: usize = 0;
    let mut length: usize = data.len();
    let mut num: usize = 0;
    let mut pw = false;
    let mut fail = false;
    assert(fields_view(out@) =~= Seq::empty());
    loop
        invariant_except_break
            units_from(
                kind,
                q,
                nd,
                data@,
                pw_data@,
                dir,
                prm,
                index as int,
                pos as nat,
                length as nat,
                num as nat,
                pw,
                fields_view(out@),
            ) == want,
        invariant
            repo.wf(),
            index + data@.len() <= usize::MAX,
            pos <= data@.len(),
            length <= data@.len(),
            num <= pos,
            q == unit_query(repo, protocol@, region@, dir),
            nd == (protocol@ == "DLT/645-2007"@),
            pw ==> pw_data@.len() >= 16,
        ensures
            (fields_view(out@), pw, fail) == want,
            pw ==> pw_data@.len() >= 16,
        decreases data@.len() - pos,
    {
        let step = read_unit(
            kind,
            repo,
            data,
            pw_data,
            dir,
            prm,
            index,
            pos,
            length,
            num,
            pw,
            protocol,
            region,
        );
        let UnitStep {
            fields,
            pos: next_pos,
            length: next_length,
            num: next_num,
            pw: next_pw,
            stop,
            fail: failed,
        } = step;
        let mut fields = fields;
        let keeps_last = match kind {
            UnitKind::Topo => true,
            _ => false,
        };
        if keeps_last && fields.len() > 0 {
            out = Vec::new();
            assert(fields_view(out@) =~= Seq::empty());
        }
        proof {
            lemma_fields_view_concat(out@, fields@);
        }
        out.append(&mut fields);
        pw = next_pw;
        if stop || next_pos <= pos || next_pos > data.len() {
            fail = failed;
            break ;
        }
        pos = next_pos;
        length = next_length;
        num = next_num;
    }
    (out, pw, fail)
}

/// The bytes behind the units of a body that may be a password: the sixteen bytes
/// before the time label, or at the end of a body without one. Some kinds of
/// frames ask for a body that is longer than those bytes; the frames that read
/// events take the time label with them.
pub open spec fn pw_bytes(kind: UnitKind, frame: Seq<u8>) -> Seq<u8> {
    let n = frame.len() as int;
    let vlen = n - 18;
    let tpv = (frame[15] >> 7) & 1 == 1;
    let strict = if tpv {
        kind == UnitKind::ReadCur || kind == UnitKind::ReadParam || kind == UnitKind::Security
            || kind == UnitKind::Alarm
    } else {
        kind == UnitKind::ReadCur || kind == UnitKind::ReadParam || kind == UnitKind::Security
            || kind == UnitKind::Alarm || kind == UnitKind::Relay || kind == UnitKind::Topo
    };
    let tail = if tpv { 21int } else { 16int };
    if vlen > tail || (!strict && vlen == tail) {
        if tpv {
            frame.subrange(n - 23, if kind == UnitKind::Event { n - 2 } else { n - 7 })
        } else {
            frame.subrange(n - 18, n - 2)
        }
    } else {
        Seq::empty()
    }
}

/// The bytes of the units of a body: the body without its time label.
pub open spec fn unit_bytes(frame: Seq<u8>) -> Seq<u8> {
    let n = frame.len() as int;
    let tpv = (frame[15] >> 7) & 1 == 1;
    let end = if tpv { if n - 18 >= 5 { n - 7 } else { 16 } } else { n - 2 };
    frame.subrange(16, end)
}

/// The text of a time label.
pub open spec fn tpv_text(tpv: Seq<u8>) -> Seq<char> {
    "启动帧发送时标："@ + time_text(tpv.take(4), "DDhhmmss"@, false) + "。允许发送传输延迟时间："@
        + dec_string(tpv[4] as nat) + "分"@
}

/// The field of the password of a frame: the sixteen bytes before the time
/// label, or at the end of a body without one.
pub open spec fn pw_field(frame: Seq<u8>, start_pos: int, pw_data: Seq<u8>) -> FieldView {
    let n = frame.len() as int;
    let tpv = (frame[15] >> 7) & 1 == 1;
    leaf_field(
        "消息验证码Pw"@,
        hex_spaced(pw_data),
        pw_text(),
        start_pos + (if tpv { n - 23 } else { n - 18 }),
        start_pos + (if tpv { n - 7 } else { n - 2 }),
        None,
    )
}

/// The field of the time label of a frame: the five bytes at the end of its body.
pub open spec fn tp_field(frame: Seq<u8>, start_pos: int) -> FieldView {
    let n = frame.len() as int;
    leaf_field(
        "时间标签Tp"@,
        hex_spaced(frame.subrange(n - 7, n - 2)),
        tpv_text(frame.subrange(n - 7, n - 2)),
        start_pos + n - 7,
        start_pos + n - 2,
        None,
    )
}

/// The field for the body of a frame: below it the fields of its units, the
/// field of the password where one stands behind them, and the field of the
/// time label where the frame carries one.
pub open spec fn body_field(
    frame: Seq<u8>,
    start_pos: int,
    units: Seq<FieldView>,
    pw: bool,
    pw_data: Seq<u8>,
) -> FieldView {
    let n = frame.len() as int;
    let tpv = (frame[15] >> 7) & 1 == 1;
    let with_pw = if pw { units.push(pw_field(frame, start_pos, pw_data)) } else { units };
    let with_tp = if tpv { with_pw.push(tp_field(frame, start_pos)) } else { with_pw };
    FieldView {
        frame_domain: "信息体"@,
        data: hex_spaced(frame.subrange(16, n - 2)),
        description: Seq::empty(),
        start: start_pos + 16,
        end: start_pos + n - 2,
        color: None,
        children: Some(with_tp),
    }
}

/// The fields of a frame whose body is a run of data units: the function code and
/// the sequence byte, and the body. A frame that cannot be read at all gives the
/// first two fields only, and `false`.
pub open spec fn unit_frame_fields(
    kind: UnitKind,
    repo: &ProtocolConfigManager,
    protocol: Seq<char>,
    region: Seq<char>,
    frame: Seq<u8>,
    dir: u8,
    prm: u8,
    start_pos: int,
) -> (Seq<FieldView>, bool) {
    let pw_data = pw_bytes(kind, frame);
    let (units, pw, fail) = units_from(
        kind,
        unit_query(repo, protocol, region, dir),
        protocol == "DLT/645-2007"@,
        unit_bytes(frame),
        pw_data,
        dir,
        prm,
        start_pos + 16,
        0,
        unit_bytes(frame).len(),
        0,
        false,
        Seq::empty(),
    );
    let head = afn_seq_fields(frame.subrange(14, 16), start_pos + 14);
    if fail {
        (head, false)
    } else {
        (head.push(body_field(frame, start_pos, units, pw, pw_data)), true)
    }
}

/// The field of the password of a frame.
pub fn pw_field_of(frame: &[u8], start_pos: usize, pw_data: &[u8]) -> (r: DecodedField)
    requires
        frame@.len() >= 18,
        start_pos + frame@.len() <= usize::MAX,
        (frame@[15] >> 7) & 1 == 1 ==> frame@.len() >= 23,
    ensures
        field_view(r) == pw_field(frame@, start_pos as int, pw_data@),
{
    let n = frame.len();
    let tpv = (frame[15] >> 7) & 1 == 1;
    leaf(
        "消息验证码Pw".to_owned(),
        FrameFun::get_data_str_with_space(pw_data),
        "PW由16个字节组成，是由主站按系统约定的认证算法产生，并在主站发送的报文中下发给终端，由终端进行校验认证。".to_owned(),
        start_pos + (if tpv { n - 23 } else { n - 18 }),
        start_pos + (if tpv { n - 7 } else { n - 2 }),
        None,
    )
}

/// The field of the time label of a frame.
pub fn tp_field_of(frame: &[u8], start_pos: usize) -> (r: DecodedField)
    requires
        frame@.len() >= 18,
        start_pos + frame@.len() <= usize::MAX,
    ensures
        field_view(r) == tp_field(frame@, start_pos as int),
{
    let n = frame.len();
    let tpv_data = slice_subrange(frame, n - 7, n - 2);
    leaf(
        "时间标签Tp".to_owned(),
        FrameFun::get_data_str_with_space(tpv_data),
        FrameCsg::prase_tpv_data(tpv_data),
        start_pos + n - 7,
        start_pos + n - 2,
        None,
    )
}

/// The field for the body of a frame.
pub fn body_field_of(
    frame: &[u8],
    start_pos: usize,
    units: Vec<DecodedField>,
    pw: bool,
    pw_data: &[u8],
) -> (r: DecodedField)
    requires
        frame@.len() >= 18,
        start_pos + frame@.len() <= usize::MAX,
        pw && (frame@[15] >> 7) & 1 == 1 ==> frame@.len() >= 23,
    ensures
        field_view(r) == body_field(frame@, start_pos as int, fields_view(units@), pw, pw_data@),
{
    let n = frame.len();
    let tpv = (frame[15] >> 7) & 1 == 1;
    let mut sub = units;
    if pw {
        let f = pw_field_of(frame, start_pos, pw_data);
        proof {
            lemma_fields_view_push(sub@, f);
        }
        sub.push(f);
    }
    if tpv {
        let f = tp_field_of(frame, start_pos);
        proof {
            lemma_fields_view_push(sub@, f);
        }
        sub.push(f);
    }
    DecodedField {
        frame_domain: "信息体".to_owned(),
        data: FrameFun::get_data_str_with_space(slice_subrange(frame, 16, n - 2)),
        description: String::new(),
        start: start_pos + 16,
        end: start_pos + n - 2,
        color: None,
        children: Some(sub),
    }
}

/// Appends the fields of a frame whose body is a run of data units, and tells
/// whether the frame could be read.
pub fn analyse_unit_frame(
    kind: UnitKind,
    repo: &ProtocolConfigManager,
    frame: &[u8],
    dir: u8,
    prm: u8,
    result_list: &mut Vec<DecodedField>,
    start_pos: usize,
    protocol: &str,
    region: &str,
) -> (r: bool)
    requires
        repo.wf(),
        frame@.len() >= 18,
        start_pos + frame@.len() <= usize::MAX,
    ensures
        fields_view(final(result_list)@) == fields_view(old(result_list)@) + unit_frame_fields(
            kind,
            repo,
            protocol@,
            region@,
            frame@,
            dir,
            prm,
            start_pos as int,
        ).0,
        r == unit_frame_fields(
            kind,
            repo,
            protocol@,
            region@,
            frame@,
            dir,
            prm,
            start_pos as int,
        ).1,
{
    let n = frame.len();
    let ghost before = result_list@;
    let mut head: Vec<DecodedField> = Vec::new();
    assert(fields_view(head@) =~= Seq::empty());
    let tpv = FrameCsg::get_afn_and_seq_result(slice_subrange(frame, 14, 16), start_pos + 14, &mut head);
    assert(fields_view(head@) =~= afn_seq_fields(frame@.subrange(14, 16), start_pos + 14));
    assert(tpv == ((frame@[15] >> 7) & 1 == 1)) by {
        assert(frame@.subrange(14, 16)[1] == frame@[15]);
    }
    let vlen: usize = n - 18;
    let strict = match kind {
        UnitKind::ReadCur | UnitKind::ReadParam | UnitKind::Security | UnitKind::Alarm => true,
        UnitKind::Relay | UnitKind::Topo => !tpv,
        _ => false,
    };
    let is_event = match kind {
        UnitKind::Event => true,
        _ => false,
    };
    let tail: usize = if tpv { 21 } else { 16 };
    let has_pw_data = vlen > tail || (!strict && vlen == tail);
    let pw_data: &[u8] = if has_pw_data {
        if tpv {
            slice_subrange(frame, n - 23, if is_event { n - 2 } else { n - 7 })
        } else {
            slice_subrange(frame, n - 18, n - 2)
        }
    } else {
        slice_subrange(frame, 0, 0)
    };
    assert(pw_data@ =~= pw_bytes(kind, frame@));
    let end: usize = if tpv { if vlen >= 5 { n - 7 } else { 16 } } else { n - 2 };
    let data = slice_subrange(frame, 16, end);
    assert(data@ =~= unit_bytes(frame@));
    let (units, pw, fail) = read_units(
        kind,
        repo,
        data,
        pw_data,
        dir,
        prm,
        start_pos + 16,
        protocol,
        region,
    );
    if fail {
        proof {
            lemma_fields_view_concat(before, head@);
        }
        result_list.append(&mut head);
        return false;
    }
    let body = body_field_of(frame, start_pos, units, pw, pw_data);
    proof {
        lemma_fields_view_push(head@, body);
        lemma_fields_view_concat(before, head@.push(body));
    }
    head.push(body);
    result_list.append(&mut head);
    true
}

impl FrameCsg {
    /// Appends the fields of an acknowledgement; an error for a frame that cannot be
    /// read at all.
    pub fn analysic_csg_ack_frame(
        repo: &ProtocolConfigManager,
        frame: &[u8],
        dir: u8,
        prm: u8,
        result_list: &mut Vec<DecodedField>,
        start_pos: usize,
        protocol: &str,
        region: &str,
    ) -> (r: Result<(), CustomError>)
        requires
            repo.wf(),
            frame@.len() >= 18,
            start_pos + frame@.len() <= usize::MAX,
        ensures
            r is Ok == unit_frame_fields(
                UnitKind::Ack,
                repo,
                protocol@,
                region@,
                frame@,
                dir,
                prm,
                start_pos as int,
            ).1,
            fields_view(final(result_list)@) == fields_view(old(result_list)@) + unit_frame_fields(
                UnitKind::Ack,
                repo,
                protocol@,
                region@,
                frame@,
                dir,
                prm,
                start_pos as int,
            ).0,
    {
        if analyse_unit_frame(
            UnitKind::Ack,
            repo,
            frame,
            dir,
            prm,
            result_list,
            start_pos,
            protocol,
            region,
        ) {
            Ok(())
        } else {
            Err(CustomError::new(1, "数据解析失败!".to_owned()))
        }
    }

    /// Appends the fields of a link test; an error for a frame that cannot be
    /// read at all.
    pub fn analysic_csg_link_frame(
        repo: &ProtocolConfigManager,
        frame: &[u8],
        dir: u8,
        prm: u8,
        result_list: &mut Vec<DecodedField>,
        start_pos: usize,
        protocol: &str,
        region: &str,
    ) -> (r: Result<(), CustomError>)
        requires
            repo.wf(),
            frame@.len() >= 18,
            start_pos + frame@.len() <= usize::MAX,
        ensures
            r is Ok == unit_frame_fields(
                UnitKind::Link,
                repo,
                protocol@,
                region@,
                frame@,
                dir,
                prm,
                start_pos as int,
            ).1,
            fields_view(final(result_list)@) == fields_view(old(result_list)@) + unit_frame_fields(
                UnitKind::Link,
                repo,
                protocol@,
                region@,
                frame@,
                dir,
                prm,
                start_pos as int,
            ).0,
    {
        if analyse_unit_frame(
            UnitKind::Link,
            repo,
            frame,
            dir,
            prm,
            result_list,
            start_pos,
            protocol,
            region,
        ) {
            Ok(())
        } else {
            Err(CustomError::new(1, "数据解析失败!".to_owned()))
        }
    }

    /// Appends the fields of a frame that writes parameters; an error for a frame that cannot be
    /// read at all.
    pub fn analysic_csg_write_frame(
        repo: &ProtocolConfigManager,
        frame: &[u8],
        dir: u8,
        prm: u8,
        result_list: &mut Vec<DecodedField>,
        start_pos: usize,
        protocol: &str,
        region: &str,
    ) -> (r: Result<(), CustomError>)
        requires
            repo.wf(),
            frame@.len() >= 18,
            start_pos + frame@.len() <= usize::MAX,
        ensures
            r is Ok == unit_frame_fields(
                UnitKind::Write,
                repo,
                protocol@,
                region@,
                frame@,
                dir,
                prm,
                start_pos as int,
            ).1,
            fields_view(final(result_list)@) == fields_view(old(result_list)@) + unit_frame_fields(
                UnitKind::Write,
                repo,
                protocol@,
                region@,
                frame@,
                dir,
                prm,
                start_pos as int,
            ).0,
    {
        if analyse_unit_frame(
            UnitKind::Write,
            repo,
            frame,
            dir,
            prm,
            result_list,
            start_pos,
            protocol,
            region,
        ) {
            Ok(())
        } else {
            Err(CustomError::new(1, "数据解析失败!".to_owned()))
        }
    }

    /// Appends the fields of a frame of the security authentication; an error for a frame that cannot be
    /// read at all.
    pub fn analysic_csg_security_frame(
        repo: &ProtocolConfigManager,
        frame: &[u8],
        dir: u8,
        prm: u8,
        result_list: &mut Vec<DecodedField>,
        start_pos: usize,
        protocol: &str,
        region: &str,
    ) -> (r: Result<(), CustomError>)
        requires
            repo.wf(),
            frame@.len() >= 18,
            start_pos + frame@.len() <= usize::MAX,
        ensures
            r is Ok == unit_frame_fields(
                UnitKind::Security,
                repo,
                protocol@,
                region@,
                frame@,
                dir,
                prm,
                start_pos as int,
            ).1,
            fields_view(final(result_list)@) == fields_view(old(result_list)@) + unit_frame_fields(
                UnitKind::Security,
                repo,
                protocol@,
                region@,
                frame@,
                dir,
                prm,
                start_pos as int,
            ).0,
    {
        if analyse_unit_frame(
            UnitKind::Security,
            repo,
            frame,
            dir,
            prm,
            result_list,
            start_pos,
            protocol,
            region,
        ) {
            Ok(())
        } else {
            Err(CustomError::new(1, "数据解析失败!".to_owned()))
        }
    }

    /// Appends the fields of a frame that reads current data; an error for a frame that cannot be
    /// read at all.
    pub fn analysic_csg_read_cur_frame(
        repo: &ProtocolConfigManager,
        frame: &[u8],
        dir: u8,
        prm: u8,
        result_list: &mut Vec<DecodedField>,
        start_pos: usize,
        protocol: &str,
        region: &str,
    ) -> (r: Result<(), CustomError>)
        requires
            repo.wf(),
            frame@.len() >= 18,
            start_pos + frame@.len() <= usize::MAX,
        ensures
            r is Ok == unit_frame_fields(
                UnitKind::ReadCur,
                repo,
                protocol@,
                region@,
                frame@,
                dir,
                prm,
                start_pos as int,
            ).1,
            fields_view(final(result_list)@) == fields_view(old(result_list)@) + unit_frame_fields(
                UnitKind::ReadCur,
                repo,
                protocol@,
                region@,
                frame@,
                dir,
                prm,
                start_pos as int,
            ).0,
    {
        if analyse_unit_frame(
            UnitKind::ReadCur,
            repo,
            frame,
            dir,
            prm,
            result_list,
            start_pos,
            protocol,
            region,
        ) {
            Ok(())
        } else {
            Err(CustomError::new(1, "数据解析失败!".to_owned()))
        }
    }

    /// Appends the fields of a frame that reads parameters; an error for a frame that cannot be
    /// read at all.
    pub fn analysic_csg_read_param_frame(
        repo: &ProtocolConfigManager,
        frame: &[u8],
        dir: u8,
        prm: u8,
        result_list: &mut Vec<DecodedField>,
        start_pos: usize,
        protocol: &str,
        region: &str,
    ) -> (r: Result<(), CustomError>)
        requires
            repo.wf(),
            frame@.len() >= 18,
            start_pos + frame@.len() <= usize::MAX,
        ensures
            r is Ok == unit_frame_fields(
                UnitKind::ReadParam,
                repo,
                protocol@,
                region@,
                frame@,
                dir,
                prm,
                start_pos as int,
            ).1,
            fields_view(final(result_list)@) == fields_view(old(result_list)@) + unit_frame_fields(
                UnitKind::ReadParam,
                repo,
                protocol@,
                region@,
                frame@,
                dir,
                prm,
                start_pos as int,
            ).0,
    {
        if analyse_unit_frame(
            UnitKind::ReadParam,
            repo,
            frame,
            dir,
            prm,
            result_list,
            start_pos,
            protocol,
            region,
        ) {
            Ok(())
        } else {
            Err(CustomError::new(1, "数据解析失败!".to_owned()))
        }
    }

    /// Appends the fields of a frame that reads alarms; an error for a frame that cannot be
    /// read at all.
    pub fn analysic_csg_read_alarm_frame(
        repo: &ProtocolConfigManager,
        frame: &[u8],
        dir: u8,
        prm: u8,
        result_list: &mut Vec<DecodedField>,
        start_pos: usize,
        protocol: &str,
        region: &str,
    ) -> (r: Result<(), CustomError>)
        requires
            repo.wf(),
            frame@.len() >= 18,
            start_pos + frame@.len() <= usize::MAX,
        ensures
            r is Ok == unit_frame_fields(
                UnitKind::Alarm,
                repo,
                protocol@,
                region@,
                frame@,
                dir,
                prm,
                start_pos as int,
            ).1,
            fields_view(final(result_list)@) == fields_view(old(result_list)@) + unit_frame_fields(
                UnitKind::Alarm,
                repo,
                protocol@,
                region@,
                frame@,
                dir,
                prm,
                start_pos as int,
            ).0,
    {
        if analyse_unit_frame(
            UnitKind::Alarm,
            repo,
            frame,
            dir,
            prm,
            result_list,
            start_pos,
            protocol,
            region,
        ) {
            Ok(())
        } else {
            Err(CustomError::new(1, "数据解析失败!".to_owned()))
        }
    }

    /// Appends the fields of a frame that reads events; an error for a frame that cannot be
    /// read at all.
    pub fn analysic_csg_read_event_frame(
        repo: &ProtocolConfigManager,
        frame: &[u8],
        dir: u8,
        prm: u8,
        result_list: &mut Vec<DecodedField>,
        start_pos: usize,
        protocol: &str,
        region: &str,
    ) -> (r: Result<(), CustomError>)
        requires
            repo.wf(),
            frame@.len() >= 18,
            start_pos + frame@.len() <= usize::MAX,
        ensures
            r is Ok == unit_frame_fields(
                UnitKind::Event,
                repo,
                protocol@,
                region@,
                frame@,
                dir,
                prm,
                start_pos as int,
            ).1,
            fields_view(final(result_list)@) == fields_view(old(result_list)@) + unit_frame_fields(
                UnitKind::Event,
                repo,
                protocol@,
                region@,
                frame@,
                dir,
                prm,
                start_pos as int,
            ).0,
    {
        if analyse_unit_frame(
            UnitKind::Event,
            repo,
            frame,
            dir,
            prm,
            result_list,
            start_pos,
            protocol,
            region,
        ) {
            Ok(())
        } else {
            Err(CustomError::new(1, "数据解析失败!".to_owned()))
        }
    }

    /// Appends the fields of a relay frame; an error for a frame that cannot be
    /// read at all.
    pub fn analysic_csg_relay_frame(
        repo: &ProtocolConfigManager,
        frame: &[u8],
        dir: u8,
        prm: u8,
        result_list: &mut Vec<DecodedField>,
        start_pos: usize,
        protocol: &str,
        region: &str,
    ) -> (r: Result<(), CustomError>)
        requires
            repo.wf(),
            frame@.len() >= 18,
            start_pos + frame@.len() <= usize::MAX,
        ensures
            r is Ok == unit_frame_fields(
                UnitKind::Relay,
                repo,
                protocol@,
                region@,
                frame@,
                dir,
                prm,
                start_pos as int,
            ).1,
            fields_view(final(result_list)@) == fields_view(old(result_list)@) + unit_frame_fields(
                UnitKind::Relay,
                repo,
                protocol@,
                region@,
                frame@,
                dir,
                prm,
                start_pos as int,
            ).0,
    {
        if analyse_unit_frame(
            UnitKind::Relay,
            repo,
            frame,
            dir,
            prm,
            result_list,
            start_pos,
            protocol,
            region,
        ) {
            Ok(())
        } else {
            Err(CustomError::new(1, "数据解析失败!".to_owned()))
        }
    }

    /// Appends the fields of a frame of the topology; an error for a frame that cannot be
    /// read at all.
    pub fn analysic_csg_topo_frame(
        repo: &ProtocolConfigManager,
        frame: &[u8],
        dir: u8,
        prm: u8,
        result_list: &mut Vec<DecodedField>,
        start_pos: usize,
        protocol: &str,
        region: &str,
    ) -> (r: Result<(), CustomError>)
        requires
            repo.wf(),
            frame@.len() >= 18,
            start_pos + frame@.len() <= usize::MAX,
        ensures
            r is Ok == unit_frame_fields(
                UnitKind::Topo,
                repo,
                protocol@,
                region@,
                frame@,
                dir,
                prm,
                start_pos as int,
            ).1,
            fields_view(final(result_list)@) == fields_view(old(result_list)@) + unit_frame_fields(
                UnitKind::Topo,
                repo,
                protocol@,
                region@,
                frame@,
                dir,
                prm,
                start_pos as int,
            ).0,
    {
        if analyse_unit_frame(
            UnitKind::Topo,
            repo,
            frame,
            dir,
            prm,
            result_list,
            start_pos,
            protocol,
            region,
        ) {
            Ok(())
        } else {
            Err(CustomError::new(1, "数据解析失败!".to_owned()))
        }
    }

    /// Appends the fields of a frame of a file transfer; an error for a frame that cannot be
    /// read at all.
    pub fn analysic_csg_filetrans_frame(
        repo: &ProtocolConfigManager,
        frame: &[u8],
        dir: u8,
        prm: u8,
        result_list: &mut Vec<DecodedField>,
        start_pos: usize,
        protocol: &str,
        region: &str,
    ) -> (r: Result<(), CustomError>)
        requires
            repo.wf(),
            frame@.len() >= 18,
            start_pos + frame@.len() <= usize::MAX,
        ensures
            r is Ok == unit_frame_fields(
                UnitKind::FileTrans,
                repo,
                protocol@,
                region@,
                frame@,
                dir,
                prm,
                start_pos as int,
            ).1,
            fields_view(final(result_list)@) == fields_view(old(result_list)@) + unit_frame_fields(
                UnitKind::FileTrans,
                repo,
                protocol@,
                region@,
                frame@,
                dir,
                prm,
                start_pos as int,
            ).0,
    {
        if analyse_unit_frame(
            UnitKind::FileTrans,
            repo,
            frame,
            dir,
            prm,
            result_list,
            start_pos,
            protocol,
            region,
        ) {
            Ok(())
        } else {
            Err(CustomError::new(1, "数据解析失败!".to_owned()))
        }
    }
}

/// The date and time of a number of seconds since 1970, as the `chrono` crate
/// renders it by a format.
pub uninterp spec fn timestamp_text(secs: int, format: Seq<char>) -> Seq<char>;

/// The format in which the times of a custom head are shown.
pub open spec fn stamp_format() -> Seq<char> {
    "%Y-%m-%d %H:%M:%S"@
}

/// Renders a time with `chrono`: `DateTime::from_timestamp`, the start of 1970
/// where that gives none, then `NaiveDateTime::format` on the time without its
/// zone. The result is named, not described. The format is the one of the
/// custom head, which `chrono` accepts.
#[verifier::external_body]
fn format_timestamp(secs: i64, format: &str) -> (r: String)
    requires
        format@ == stamp_format(),
    ensures
        r@ == timestamp_text(secs as int, format@),
{
    format!(
        "{}",
        chrono::DateTime::from_timestamp(secs, 0).unwrap_or_default().naive_local().format(format)
    )
}

/// The number that up to four bytes hold, least significant first.
pub open spec fn le_u32(s: Seq<u8>) -> u32 {
    sat_u32(le_number(s, false))
}

/// The text of a custom head of 84 bytes: the direction, the time of reception,
/// the time of registration, the front node, the address and port of the
/// terminal, the front port, the registered and the logical address, the
/// processing mark and the time of the start.
pub open spec fn custom_head_text(f: Seq<u8>) -> Seq<char> {
    let fmt = stamp_format();
    let begin = le_u32(f.subrange(76, 80));
    (if f[2] & 0x01 != 0 { "从终端接收报文"@ } else { "向终端接收报文"@ }) + ":接收时间["@
        + timestamp_text(le_u32(f.subrange(5, 9)) as int, fmt) + "] 注册时间["@ + timestamp_text(
        le_u32(f.subrange(58, 62)) as int,
        fmt,
    ) + "] 前置节点["@ + dec_string(f[15] as nat) + ":"@ + dec_string(
        le_u32(f.subrange(20, 22)) as nat,
    ) + "] 终端IP["@ + ip_text(f.subrange(26, 30)) + ":"@ + dec_string(
        le_number(f.subrange(30, 32), false),
    ) + "] 前置端口号["@ + dec_string(le_u32(f.subrange(24, 26)) as nat) + "] 注册地址["@
        + utf8_lossy(f.subrange(32, 44).take(first_nul(f.subrange(32, 44)) as int)) + "] 逻辑地址["@
        + utf8_lossy(f.subrange(44, 57).take(first_nul(f.subrange(44, 57)) as int)) + "] 处理标志["@
        + (if f[75] == 1 { "YES"@ } else { "NO"@ }) + "] "@ + (if begin > 0 {
        "开始时间["@ + timestamp_text(begin as int, fmt) + "]"@
    } else {
        "开始时间[无]"@
    })
}

/// The field of a custom head.
pub open spec fn custom_head_field(frame: Seq<u8>, start_pos: int) -> FieldView {
    leaf_field(
        "内部规约"@,
        hex_spaced(frame.subrange(0, 48)),
        custom_head_text(frame),
        start_pos,
        start_pos + 84,
        None,
    )
}

/// The function codes whose frames have a body of data units, with the kind of
/// their units.
pub open spec fn unit_kind_of(afn: u8) -> Option<UnitKind> {
    if afn == 0x00 {
        Some(UnitKind::Ack)
    } else if afn == 0x02 {
        Some(UnitKind::Link)
    } else if afn == 0x04 {
        Some(UnitKind::Write)
    } else if afn == 0x06 {
        Some(UnitKind::Security)
    } else if afn == 0x0A {
        Some(UnitKind::ReadParam)
    } else if afn == 0x0C {
        Some(UnitKind::ReadCur)
    } else if afn == 0x0E {
        Some(UnitKind::Event)
    } else if afn == 0x0F {
        Some(UnitKind::FileTrans)
    } else if afn == 0x10 {
        Some(UnitKind::Relay)
    } else if afn == 0x13 {
        Some(UnitKind::Alarm)
    } else if afn == 0x23 {
        Some(UnitKind::Topo)
    } else {
        None
    }
}

/// The fields of a frame without a custom head, and whether it could be read:
/// its head, its body where the function code is one with a body of data units
/// or that of history data or of task data, and its end. A frame whose body
/// cannot be read has no fields for its end.
pub open spec fn bare_frame_fields(
    repo: &ProtocolConfigManager,
    region: Seq<char>,
    frame: Seq<u8>,
    index: int,
) -> (Seq<FieldView>, bool) {
    let dir = (frame[6] >> 7) & 1;
    let prm = (frame[6] >> 6) & 1;
    let ends = end_fields(
        frame,
        index,
        6,
        "校验码CS"@,
        "校验正确"@,
        "校验码错误，应为："@,
        "结束符"@,
        "结束符"@,
    );
    match unit_kind_of(frame[14]) {
        Some(kind) => {
            let (body, ok) = unit_frame_fields(kind, repo, "CSG13"@, region, frame, dir, prm, index);
            if ok {
                (head_fields(frame, index) + body + ends, true)
            } else {
                (head_fields(frame, index) + body, false)
            }
        },
        None => if frame[14] == 0x0D {
            (
                head_fields(frame, index) + history_frame_fields(
                    repo,
                    "CSG13"@,
                    region,
                    frame,
                    dir,
                    prm,
                    index,
                ) + ends,
                true,
            )
        } else if frame[14] == 0x12 {
            (
                head_fields(frame, index) + task_frame_fields(
                    repo,
                    "CSG13"@,
                    region,
                    frame,
                    dir,
                    index,
                ) + ends,
                true,
            )
        } else {
            (head_fields(frame, index) + ends, true)
        },
    }
}

/// The fields of a frame, behind the field of its custom head where it has one,
/// and whether the frame could be read. Fewer than 18 bytes are no frame and
/// have no fields.
pub open spec fn frame_fields(
    repo: &ProtocolConfigManager,
    region: Seq<char>,
    frame: Seq<u8>,
    index: int,
) -> (Seq<FieldView>, bool) {
    if frame.len() > 84 && has_custom_head(frame.take(84)) {
        let rest = frame.skip(84);
        if rest.len() < 18 {
            (Seq::empty(), false)
        } else {
            let (fields, ok) = bare_frame_fields(repo, region, rest, index + 84);
            (seq![custom_head_field(frame, index)] + fields, ok)
        }
    } else if frame.len() < 18 {
        (Seq::empty(), false)
    } else {
        bare_frame_fields(repo, region, frame, index)
    }
}

impl FrameCsg {
    /// Appends the field of a custom head.
    pub fn analysic_csg_custom_head_frame(
        frame: &[u8],
        result_list: &mut Vec<DecodedField>,
        start_pos: usize,
    ) -> (r: Result<(), CustomError>)
        requires
            frame@.len() >= 84,
            start_pos + 84 <= usize::MAX,
        ensures
            r is Ok,
            fields_view(final(result_list)@) == fields_view(old(result_list)@).push(
                custom_head_field(frame@, start_pos as int),
            ),
    {
        let receive_time = FrameFun::hex_array_to_int(slice_subrange(frame, 5, 9), false);
        let head_point_end = FrameFun::hex_array_to_int(slice_subrange(frame, 20, 22), false);
        let head_point_port = FrameFun::hex_array_to_int(slice_subrange(frame, 24, 26), false);
        let ip = FrameFun::prase_ip_str(slice_subrange(frame, 26, 30));
        let port = FrameFun::prase_port(slice_subrange(frame, 30, 32));
        let regesit_addr = FrameFun::ascii_to_str(slice_subrange(frame, 32, 44));
        let logic_addr = FrameFun::ascii_to_str(slice_subrange(frame, 44, 57));
        let regsit_time = FrameFun::hex_array_to_int(slice_subrange(frame, 58, 62), false);
        let begin_time = FrameFun::hex_array_to_int(slice_subrange(frame, 76, 80), false);
        let receive = format_timestamp(receive_time as i64, "%Y-%m-%d %H:%M:%S");
        let registered = format_timestamp(regsit_time as i64, "%Y-%m-%d %H:%M:%S");
        let mut t = String::new();
        push_str(&mut t, if frame[2] & 0x01 != 0 { "从终端接收报文" } else { "向终端接收报文" });
        push_str(&mut t, ":接收时间[");
        push_str(&mut t, receive.as_str());
        push_str(&mut t, "] 注册时间[");
        push_str(&mut t, registered.as_str());
        push_str(&mut t, "] 前置节点[");
        push_dec(&mut t, frame[15] as u64);
        push_str(&mut t, ":");
        push_dec(&mut t, head_point_end as u64);
        push_str(&mut t, "] 终端IP[");
        push_str(&mut t, ip.as_str());
        push_str(&mut t, ":");
        push_str(&mut t, port.as_str());
        push_str(&mut t, "] 前置端口号[");
        push_dec(&mut t, head_point_port as u64);
        push_str(&mut t, "] 注册地址[");
        push_str(&mut t, regesit_addr.as_str());
        push_str(&mut t, "] 逻辑地址[");
        push_str(&mut t, logic_addr.as_str());
        push_str(&mut t, "] 处理标志[");
        push_str(&mut t, if frame[75] == 1 { "YES" } else { "NO" });
        push_str(&mut t, "] ");
        if begin_time > 0 {
            let begin = format_timestamp(begin_time as i64, "%Y-%m-%d %H:%M:%S");
            push_str(&mut t, "开始时间[");
            push_str(&mut t, begin.as_str());
            push_str(&mut t, "]");
        } else {
            push_str(&mut t, "开始时间[无]");
        }
        assert(t@ =~= custom_head_text(frame@));
        let f = leaf(
            "内部规约".to_owned(),
            FrameFun::get_data_str_with_space(slice_subrange(frame, 0, 48)),
            t,
            start_pos,
            start_pos + 84,
            None,
        );
        proof {
            lemma_fields_view_push(result_list@, f);
        }
        result_list.push(f);
        Ok(())
    }

    /// Appends the fields of a frame without a custom head, and tells whether the
    /// frame could be read.
    pub fn analysic_csg_bare_frame(
        repo: &ProtocolConfigManager,
        frame: &[u8],
        result_list: &mut Vec<DecodedField>,
        index: usize,
        region: &str,
    ) -> (r: bool)
        requires
            repo.wf(),
            frame@.len() >= 18,
            index + frame@.len() <= usize::MAX,
        ensures
            fields_view(final(result_list)@) == fields_view(old(result_list)@) + bare_frame_fields(
                repo,
                region@,
                frame@,
                index as int,
            ).0,
            r == bare_frame_fields(repo, region@, frame@, index as int).1,
    {
        let ghost before = fields_view(result_list@);
        let ghost head = head_fields(frame@, index as int);
        let afn = frame[14];
        let (dir, prm) = Self::analysic_csg_head_frame(frame, result_list, index);
        let kind = if afn == 0x00 {
            Some(UnitKind::Ack)
        } else if afn == 0x02 {
            Some(UnitKind::Link)
        } else if afn == 0x04 {
            Some(UnitKind::Write)
        } else if afn == 0x06 {
            Some(UnitKind::Security)
        } else if afn == 0x0A {
            Some(UnitKind::ReadParam)
        } else if afn == 0x0C {
            Some(UnitKind::ReadCur)
        } else if afn == 0x0E {
            Some(UnitKind::Event)
        } else if afn == 0x0F {
            Some(UnitKind::FileTrans)
        } else if afn == 0x10 {
            Some(UnitKind::Relay)
        } else if afn == 0x13 {
            Some(UnitKind::Alarm)
        } else if afn == 0x23 {
            Some(UnitKind::Topo)
        } else {
            None
        };
        let ok = match kind {
            Some(k) => analyse_unit_frame(
                k,
                repo,
                frame,
                dir,
                prm,
                result_list,
                index,
                "CSG13",
                region,
            ),
            None => {
                if afn == 0x0D {
                    let _ = Self::analysic_csg_read_history_frame(
                        repo,
                        frame,
                        dir,
                        prm,
                        result_list,
                        index,
                        "CSG13",
                        region,
                    );
                } else if afn == 0x12 {
                    let _ = Self::analysic_csg_read_task_frame(
                        repo,
                        frame,
                        dir,
                        prm,
                        result_list,
                        index,
                        "CSG13",
                        region,
                    );
                }
                true
            },
        };
        let ghost body = match kind {
            Some(k) => unit_frame_fields(
                k,
                repo,
                "CSG13"@,
                region@,
                frame@,
                dir,
                prm,
                index as int,
            ).0,
            None => if afn == 0x0D {
                history_frame_fields(repo, "CSG13"@, region@, frame@, dir, prm, index as int)
            } else if afn == 0x12 {
                task_frame_fields(repo, "CSG13"@, region@, frame@, dir, index as int)
            } else {
                Seq::empty()
            },
        };
        assert(fields_view(result_list@) =~= before + (head + body));
        if !ok {
            return false;
        }
        Self::analyze_csg_end_frame(frame, result_list, index);
        proof {
            let ends = end_fields(
                frame@,
                index as int,
                6,
                "校验码CS"@,
                "校验正确"@,
                "校验码错误，应为："@,
                "结束符"@,
                "结束符"@,
            );
            assert(before + (head + body) + ends =~= before + (head + body + ends));
            assert(head + Seq::<FieldView>::empty() + ends =~= head + ends);
        }
        true
    }

    /// Appends the fields of a frame: of its custom head where it has one, of its
    /// head, of its body where the function code is one whose body is read, and of
    /// its end. Fewer than 18 bytes are an error and give no field; a body that
    /// cannot be read is an error that leaves the fields before it. Frames
    /// embedded in the data of its items are left as one field each;
    /// `FrameAnalisyic::process_frame` reads them as well.
    pub fn analysic_csg_frame_by_afn(
        repo: &ProtocolConfigManager,
        frame: &[u8],
        result_list: &mut Vec<DecodedField>,
        index: usize,
        region: &str,
    ) -> (r: Result<(), CustomError>)
        requires
            repo.wf(),
            index + frame@.len() <= usize::MAX,
        ensures
            r is Ok == frame_fields(repo, region@, frame@, index as int).1,
            fields_view(final(result_list)@) == fields_view(old(result_list)@) + frame_fields(
                repo,
                region@,
                frame@,
                index as int,
            ).0,
    {
        let n = frame.len();
        let ghost before = fields_view(result_list@);
        if n > 84 {
            let head = slice_subrange(frame, 0, 84);
            assert(head@ =~= frame@.take(84));
            if Self::is_contoine_custom_head(head) {
                let rest = slice_subrange(frame, 84, n);
                assert(rest@ =~= frame@.skip(84));
                if rest.len() < 18 {
                    assert(before + Seq::<FieldView>::empty() =~= before);
                    return Err(CustomError::new(1, "Frame too short".to_owned()));
                }
                let _ = Self::analysic_csg_custom_head_frame(frame, result_list, index);
                let ok = Self::analysic_csg_bare_frame(repo, rest, result_list, index + 84, region);
                proof {
                    let c = custom_head_field(frame@, index as int);
                    let b = bare_frame_fields(repo, region@, rest@, index + 84).0;
                    assert(before.push(c) + b =~= before + (seq![c] + b));
                }
                return if ok {
                    Ok(())
                } else {
                    Err(CustomError::new(1, "数据解析失败!".to_owned()))
                };
            }
        }
        if n < 18 {
            assert(before + Seq::<FieldView>::empty() =~= before);
            return Err(CustomError::new(1, "Frame too short".to_owned()));
        }
        if Self::analysic_csg_bare_frame(repo, frame, result_list, index, region) {
            Ok(())
        } else {
            Err(CustomError::new(1, "数据解析失败!".to_owned()))
        }
    }
}

} // verus!
