//! The CSG frames that read history data: data units whose values come with
//! their times, so that one unit may hold several values of its item.

use vstd::prelude::*;
use vstd::string::*;
use vstd::slice::*;
use crate::builders::{branch, branch_field, bytes_field, bytes_field_of, join, plain};
use crate::decoded::{field_view, fields_view, DecodedField, FieldView};
use crate::frame_csg::{
    afn_seq_fields, data_density_text, hex_of, next_is_current, pw_judged, FrameCsg,
};
use crate::frame_csg_units::{
    body_field, body_field_of, identifier_text, identifier_text_of, pw_bytes, unit_bytes,
    unit_label, unit_label_of, unit_point_text, unit_query, UnitKind,
};
use crate::frame_err::CustomError;
use crate::frame_fun::{all_equal, time_text, FrameFun};
use crate::frame_speecial::{history_size, history_size_of};
use crate::protocol::{
    decoded_item, leaf_field, lemma_fields_view_concat, lemma_fields_view_push, replace_all,
    replace_text, FrameAnalisyic, Query, DECODE_DEPTH,
};
use crate::text::{
    hex_char_upper, hex_concat, hex_digit_upper, hex_spaced, hex_upper, push_char, push_str, str_eq,
};
use crate::xmlconfig::{opt_element_view, ElementView, ProtocolConfigManager, XmlElement};

verus! {

/// A byte in octal, with two digits at least.
pub open spec fn octal(n: u8) -> Seq<char> {
    if n < 8 {
        seq!['0', hex_char_upper(n as int)]
    } else if n < 64 {
        seq![hex_char_upper(n as int / 8), hex_char_upper(n as int % 8)]
    } else {
        seq![
            hex_char_upper(n as int / 64),
            hex_char_upper((n as int / 8) % 8),
            hex_char_upper(n as int % 8),
        ]
    }
}

/// A byte in octal, with two digits at least.
pub fn octal_of(n: u8) -> (r: String)
    ensures
        r@ == octal(n),
{
    let mut out = String::new();
    if n < 8 {
        push_char(&mut out, '0');
        push_char(&mut out, hex_digit_upper(n));
    } else if n < 64 {
        push_char(&mut out, hex_digit_upper(n / 8));
        push_char(&mut out, hex_digit_upper(n % 8));
    } else {
        push_char(&mut out, hex_digit_upper(n / 64));
        push_char(&mut out, hex_digit_upper((n / 8) % 8));
        push_char(&mut out, hex_digit_upper(n % 8));
    }
    assert(out@ =~= octal(n));
    out
}

/// The six bytes of a time at a place in the data.
pub open spec fn time_at(data: Seq<u8>, at: Option<int>) -> Option<Seq<u8>> {
    match at {
        Some(t) => Some(data.subrange(t, t + 6)),
        None => None,
    }
}

/// Whether a password is guessed behind the units that end at `length`, with
/// the item at hand and the time of its last value.
pub open spec fn pw_guessed_with(
    q: Query,
    length: nat,
    pw_data: Seq<u8>,
    item: Option<ElementView>,
    time: Option<Seq<u8>>,
) -> bool {
    if length <= 16 || pw_data.len() < 16 {
        false
    } else if all_equal(pw_data, 0) {
        true
    } else {
        pw_judged(q, pw_data, item, time, true, DECODE_DEPTH as nat)
    }
}

/// The fields for the head of the unit at `pos`: its point and the identifier
/// of its item and, where values are counted, the number of its values.
pub open spec fn history_head(
    q: Query,
    data: Seq<u8>,
    index: int,
    pos: int,
    num: nat,
    counted: bool,
) -> Seq<FieldView> {
    let da = data.subrange(pos, pos + 2);
    let id = hex_concat(data.subrange(pos + 2, pos + 6).reverse());
    let head = seq![
        bytes_field(data, index, unit_label(num, "信息点标识DA"@), unit_point_text(da), pos, pos + 2),
        bytes_field(
            data,
            index,
            unit_label(num, "数据标识编码DI"@),
            identifier_text(id, q.item(id)),
            pos + 2,
            pos + 6,
        ),
    ];
    if counted {
        head.push(
            bytes_field(
                data,
                index,
                unit_label(num, "数据时间个数"@),
                "数据时间个数: "@ + octal(data[pos + 6]),
                pos + 6,
                pos + 7,
            ),
        )
    } else {
        head
    }
}

/// The text that stands with a value.
pub open spec fn history_text(point: Seq<char>, ident: Seq<char>) -> Seq<char> {
    replace_all(point, "Pn="@, Seq::empty()) + "-"@ + replace_all(ident, "数据标识编码："@, Seq::empty())
}

/// The two fields of a value at `at` of `size` bytes in a frame that goes up:
/// the value, decoded by the schema of its item in an answer, and its time of
/// six bytes behind it.
pub open spec fn history_value(
    q: Query,
    need_delete: bool,
    data: Seq<u8>,
    index: int,
    at: int,
    size: nat,
    num: nat,
    item: Option<ElementView>,
    answer: bool,
    text: Seq<char>,
) -> Seq<FieldView> {
    let shown = data.subrange(at, at + size);
    seq![
        branch_field(
            unit_label(num, "数据内容"@),
            hex_spaced(shown),
            text,
            index + at,
            index + at + size + 6,
            if item is Some && answer {
                decoded_item(q, item.unwrap(), shown, index + at, need_delete, DECODE_DEPTH as nat)
            } else {
                Seq::empty()
            },
        ),
        bytes_field(
            data,
            index,
            unit_label(num, "数据时间"@),
            "数据时间："@ + time_text(data.subrange(at + size, at + size + 6), "CCYYMMDDhhmm"@, false),
            at + size,
            at + size + 6,
        ),
    ]
}

/// The three fields of what a frame that goes down asks for at `at`: the times
/// between which values are wanted and how dense they are to be.
pub open spec fn history_range(data: Seq<u8>, index: int, at: int, num: nat) -> Seq<FieldView> {
    seq![
        bytes_field(
            data,
            index,
            unit_label(num, "数据起始时间"@),
            time_text(data.subrange(at, at + 6), "CCYYMMDDhhmm"@, false),
            at,
            at + 6,
        ),
        bytes_field(
            data,
            index,
            unit_label(num, "数据结束时间"@),
            time_text(data.subrange(at + 6, at + 12), "CCYYMMDDhhmm"@, false),
            at + 6,
            at + 12,
        ),
        leaf_field(
            unit_label(num, "数据密度"@),
            hex_upper(data[at + 12]),
            "数据间隔时间："@ + data_density_text(data[at + 12]),
            index + at + 12,
            index + at + 13,
            None,
        ),
    ]
}

/// Where the reading of values stands: the place in the data, where the units
/// end, the number of values read, whether a password stands behind the units,
/// and the unit at hand: its item, the place of the time of its last value, and
/// the texts of its point and of its identifier.
pub struct HistoryState {
    pub pos: usize,
    pub length: usize,
    pub num: usize,
    pub pw: bool,
    pub item: Option<XmlElement>,
    pub last: Option<usize>,
    pub point: String,
    pub ident: String,
}

/// The mathematical content of a state of the reading.
pub struct HistoryView {
    pub pos: nat,
    pub length: nat,
    pub num: nat,
    pub pw: bool,
    pub item: Option<ElementView>,
    pub last: Option<int>,
    pub point: Seq<char>,
    pub ident: Seq<char>,
}

impl HistoryState {
    /// The content of the state.
    pub open spec fn view(&self) -> HistoryView {
        HistoryView {
            pos: self.pos as nat,
            length: self.length as nat,
            num: self.num as nat,
            pw: self.pw,
            item: opt_element_view(self.item),
            last: match self.last {
                Some(t) => Some(t as int),
                None => None,
            },
            point: self.point@,
            ident: self.ident@,
        }
    }
}

/// The state before the first unit.
pub open spec fn history_start(length: nat) -> HistoryView {
    HistoryView {
        pos: 0,
        length,
        num: 0,
        pw: false,
        item: None,
        last: None,
        point: Seq::empty(),
        ident: Seq::empty(),
    }
}

/// What reading one value gives: its fields, the state behind it, and whether
/// the reading ends.
pub struct HistoryStep {
    pub fields: Seq<FieldView>,
    pub next: HistoryView,
    pub stop: bool,
}

/// Reading the value at the place where the reading stands. Where the bytes
/// there do not go on with a later value of the item at hand, a unit starts
/// there with its point and its identifier. In a frame that goes up, a value and
/// its time follow; an answer with an item that is not known ends the reading.
/// In a frame that goes down, the range of time that is asked for follows.
/// Where sixteen bytes are left behind a value, they are taken for a password
/// where they look like one. The reading ends where the bytes for the next field
/// are not there.
#[verifier::opaque]
pub open spec fn history_step(
    q: Query,
    need_delete: bool,
    counts: bool,
    data: Seq<u8>,
    pw_data: Seq<u8>,
    dir: u8,
    prm: u8,
    index: int,
    s: HistoryView,
) -> HistoryStep {
    let answer = dir == 1 && prm == 0;
    let p = s.pos as int;
    let n = data.len() as int;
    let end = |fields: Seq<FieldView>, pw: bool| HistoryStep { fields, next: HistoryView { pw, ..s }, stop: true };
    if s.pos >= s.length || p >= n {
        end(Seq::empty(), s.pw)
    } else {
        let fresh = !next_is_current(
            q,
            s.item,
            data.subrange(p, n),
            time_at(data, s.last),
            DECODE_DEPTH as nat,
        );
        let counted = fresh && answer && counts;
        if fresh && p + 6 > n {
            end(Seq::empty(), s.pw)
        } else if counted && p + 7 > n {
            end(history_head(q, data, index, p, s.num, false), s.pw)
        } else {
            let id = hex_concat(data.subrange(p + 2, p + 6).reverse());
            let item = if fresh { q.item(id) } else { s.item };
            let point = if fresh { unit_point_text(data.subrange(p, p + 2)) } else { s.point };
            let ident = if fresh { identifier_text(id, q.item(id)) } else { s.ident };
            let head = if fresh { history_head(q, data, index, p, s.num, counted) } else { Seq::empty() };
            let at = p + (if fresh { 6int } else { 0int }) + (if counted { 1int } else { 0int });
            if item is None && answer {
                HistoryStep {
                    fields: head,
                    next: HistoryView {
                        pw: pw_guessed_with(q, s.length, pw_data, None, time_at(data, s.last)),
                        item,
                        point,
                        ident,
                        ..s
                    },
                    stop: true,
                }
            } else {
                let size = if answer { history_size(q, item, data.subrange(at, n)) } else { 0 };
                let enough = if dir == 1 { at + size + 6 <= n } else { at + 13 <= n };
                if !enough {
                    HistoryStep { fields: head, next: HistoryView { item, point, ident, ..s }, stop: true }
                } else {
                    let last = if dir == 1 { Some(at + size) } else { s.last };
                    let next: nat = (if dir == 1 { at + size + 6 } else { at + 13 }) as nat;
                    let check = s.length >= next && s.length - next == 16;
                    let guess = check && pw_guessed_with(q, s.length, pw_data, item, time_at(data, last));
                    HistoryStep {
                        fields: head + (if dir == 1 {
                            history_value(
                                q,
                                need_delete,
                                data,
                                index,
                                at,
                                size,
                                s.num,
                                item,
                                answer,
                                history_text(point, ident),
                            )
                        } else {
                            history_range(data, index, at, s.num)
                        }),
                        next: HistoryView {
                            pos: next,
                            length: if guess { (s.length - 16) as nat } else { s.length },
                            num: s.num + 1,
                            pw: if check { guess } else { s.pw },
                            item,
                            last,
                            point,
                            ident,
                        },
                        stop: false,
                    }
                }
            }
        }
    }
}

/// The fields of the values from the place where the reading stands on, after
/// those in `acc`, and whether a password stands behind them.
pub open spec fn history_values_from(
    q: Query,
    need_delete: bool,
    counts: bool,
    data: Seq<u8>,
    pw_data: Seq<u8>,
    dir: u8,
    prm: u8,
    index: int,
    s: HistoryView,
    acc: Seq<FieldView>,
) -> (Seq<FieldView>, bool)
    decreases data.len() - s.pos,
{
    let r = history_step(q, need_delete, counts, data, pw_data, dir, prm, index, s);
    if r.stop || r.next.pos <= s.pos || r.next.pos > data.len() {
        (acc + r.fields, r.next.pw)
    } else {
        history_values_from(q, need_delete, counts, data, pw_data, dir, prm, index, r.next, acc + r.fields)
    }
}

/// The fields of a frame that reads history data: the function code and the
/// sequence byte, and the body with the fields of its values, of the password
/// where one is guessed, and of the time label where the frame carries one.
/// The values of an answer are counted in the region `海南`.
pub open spec fn history_frame_fields(
    repo: &ProtocolConfigManager,
    protocol: Seq<char>,
    region: Seq<char>,
    frame: Seq<u8>,
    dir: u8,
    prm: u8,
    start_pos: int,
) -> Seq<FieldView> {
    let pw_data = pw_bytes(UnitKind::ReadCur, frame);
    let read = history_values_from(
        unit_query(repo, protocol, region, dir),
        protocol == "DLT/645-2007"@,
        region == "海南"@,
        unit_bytes(frame),
        pw_data,
        dir,
        prm,
        start_pos + 16,
        history_start(unit_bytes(frame).len()),
        Seq::empty(),
    );
    afn_seq_fields(frame.subrange(14, 16), start_pos + 14).push(
        body_field(frame, start_pos, read.0, read.1, pw_data),
    )
}

/// The fields for the head of the unit at `pos`, the item of the unit, the text
/// of its point and the text of its identifier.
pub fn history_head_of(
    repo: &ProtocolConfigManager,
    data: &[u8],
    index: usize,
    pos: usize,
    num: usize,
    counted: bool,
    protocol: &str,
    region: &str,
    dir: u8,
) -> (r: (Vec<DecodedField>, Option<XmlElement>, String, String))
    requires
        repo.wf(),
        pos + 6 <= data@.len(),
        counted ==> pos + 7 <= data@.len(),
        index + data@.len() <= usize::MAX,
        num < usize::MAX,
    ensures
        fields_view(r.0@) == history_head(
            unit_query(repo, protocol@, region@, dir),
            data@,
            index as int,
            pos as int,
            num as nat,
            counted,
        ),
        opt_element_view(r.1) == unit_query(repo, protocol@, region@, dir).item(
            hex_concat(data@.subrange(pos as int + 2, pos as int + 6).reverse()),
        ),
        r.2@ == unit_point_text(data@.subrange(pos as int, pos as int + 2)),
        r.3@ == identifier_text(
            hex_concat(data@.subrange(pos as int + 2, pos as int + 6).reverse()),
            opt_element_view(r.1),
        ),
{
    let da = slice_subrange(data, pos, pos + 2);
    let item = slice_subrange(data, pos + 2, pos + 6);
    let point = FrameFun::parse_da_data(da);
    let (el, id) = FrameCsg::try_get_item_and_point(repo, item, protocol, region, Some(dir));
    let ident = identifier_text_of(id.as_str(), &el);
    let f1 = bytes_field_of(
        data,
        index,
        unit_label_of(num, "信息点标识DA").as_str(),
        point.clone(),
        pos,
        pos + 2,
    );
    let f2 = bytes_field_of(
        data,
        index,
        unit_label_of(num, "数据标识编码DI").as_str(),
        ident.clone(),
        pos + 2,
        pos + 6,
    );
    let mut out: Vec<DecodedField> = Vec::new();
    out.push(f1);
    out.push(f2);
    assert(fields_view(out@) =~= seq![field_view(f1), field_view(f2)]);
    if counted {
        let f3 = bytes_field_of(
            data,
            index,
            unit_label_of(num, "数据时间个数").as_str(),
            join("数据时间个数: ", octal_of(data[pos + 6]).as_str()),
            pos + 6,
            pos + 7,
        );
        proof {
            lemma_fields_view_push(out@, f3);
        }
        out.push(f3);
    }
    (out, el, point, ident)
}

/// The two fields of a value and its time.
pub fn history_value_of(
    repo: &ProtocolConfigManager,
    data: &[u8],
    index: usize,
    at: usize,
    size: usize,
    num: usize,
    item: &Option<XmlElement>,
    answer: bool,
    text: String,
    protocol: &str,
    region: &str,
    dir: u8,
) -> (r: Vec<DecodedField>)
    requires
        repo.wf(),
        at + size + 6 <= data@.len(),
        index + data@.len() <= usize::MAX,
        num < usize::MAX,
    ensures
        fields_view(r@) == history_value(
            unit_query(repo, protocol@, region@, dir),
            protocol@ == "DLT/645-2007"@,
            data@,
            index as int,
            at as int,
            size as nat,
            num as nat,
            opt_element_view(*item),
            answer,
            text@,
        ),
{
    let shown = slice_subrange(data, at, at + size);
    let below: Vec<DecodedField> = match item {
        Some(e) => if answer {
            FrameAnalisyic::prase_data(repo, e, protocol, region, shown, index + at, Some(dir))
        } else {
            Vec::new()
        },
        None => Vec::new(),
    };
    assert(!(item is Some && answer) ==> fields_view(below@) =~= Seq::empty());
    let f1 = branch(
        unit_label_of(num, "数据内容").as_str(),
        FrameFun::get_data_str_with_space(shown),
        text,
        index + at,
        index + at + size + 6,
        below,
    );
    let time = slice_subrange(data, at + size, at + size + 6);
    let f2 = bytes_field_of(
        data,
        index,
        unit_label_of(num, "数据时间").as_str(),
        join("数据时间：", FrameFun::parse_time_data(time, "CCYYMMDDhhmm", false).as_str()),
        at + size,
        at + size + 6,
    );
    let mut out: Vec<DecodedField> = Vec::new();
    out.push(f1);
    out.push(f2);
    assert(fields_view(out@) =~= seq![field_view(f1), field_view(f2)]);
    out
}

/// The three fields of what a frame that goes down asks for.
pub fn history_range_of(data: &[u8], index: usize, at: usize, num: usize) -> (r: Vec<DecodedField>)
    requires
        at + 13 <= data@.len(),
        index + data@.len() <= usize::MAX,
        num < usize::MAX,
    ensures
        fields_view(r@) == history_range(data@, index as int, at as int, num as nat),
{
    let from = slice_subrange(data, at, at + 6);
    let to = slice_subrange(data, at + 6, at + 12);
    let density = data[at + 12];
    let f1 = bytes_field_of(
        data,
        index,
        unit_label_of(num, "数据起始时间").as_str(),
        FrameFun::parse_time_data(from, "CCYYMMDDhhmm", false),
        at,
        at + 6,
    );
    let f2 = bytes_field_of(
        data,
        index,
        unit_label_of(num, "数据结束时间").as_str(),
        FrameFun::parse_time_data(to, "CCYYMMDDhhmm", false),
        at + 6,
        at + 12,
    );
    let f3 = plain(
        unit_label_of(num, "数据密度").as_str(),
        hex_of(density),
        join("数据间隔时间：", FrameCsg::get_data_dinsty(density)),
        index + at + 12,
        index + at + 13,
    );
    let mut out: Vec<DecodedField> = Vec::new();
    out.push(f1);
    out.push(f2);
    out.push(f3);
    assert(fields_view(out@) =~= seq![field_view(f1), field_view(f2), field_view(f3)]);
    out
}

/// Whether a password is guessed behind the units that end at `length`.
pub fn guess_pw_with(
    repo: &ProtocolConfigManager,
    data: &[u8],
    length: usize,
    pw_data: &[u8],
    item: &Option<XmlElement>,
    last: Option<usize>,
    protocol: &str,
    region: &str,
    dir: u8,
) -> (r: bool)
    requires
        repo.wf(),
        last is Some ==> last.unwrap() + 6 <= data@.len(),
    ensures
        r == pw_guessed_with(
            unit_query(repo, protocol@, region@, dir),
            length as nat,
            pw_data@,
            opt_element_view(*item),
            time_at(
                data@,
                match last {
                    Some(t) => Some(t as int),
                    None => None,
                },
            ),
        ),
        r ==> pw_data@.len() >= 16,
{
    let n = data.len();
    let item_ref: Option<&XmlElement> = match item {
        Some(e) => Some(e),
        None => None,
    };
    let time: Option<&[u8]> = match last {
        Some(t) => Some(slice_subrange(data, t, n - (n - t - 6))),
        None => None,
    };
    FrameCsg::guest_is_exit_pw(repo, length, pw_data, item_ref, time, true, protocol, region, Some(dir))
}

/// Whether the bytes from `pos` on go on with a later value of the item at hand.
pub fn goes_on(
    repo: &ProtocolConfigManager,
    data: &[u8],
    pos: usize,
    item: &Option<XmlElement>,
    last: Option<usize>,
    protocol: &str,
    region: &str,
    dir: u8,
) -> (r: bool)
    requires
        repo.wf(),
        pos <= data@.len(),
        last is Some ==> last.unwrap() + 6 <= data@.len(),
    ensures
        r == next_is_current(
            unit_query(repo, protocol@, region@, dir),
            opt_element_view(*item),
            data@.subrange(pos as int, data@.len() as int),
            time_at(
                data@,
                match last {
                    Some(t) => Some(t as int),
                    None => None,
                },
            ),
            DECODE_DEPTH as nat,
        ),
{
    let n = data.len();
    let item_ref: Option<&XmlElement> = match item {
        Some(e) => Some(e),
        None => None,
    };
    let time: Option<&[u8]> = match last {
        Some(t) => Some(slice_subrange(data, t, n - (n - t - 6))),
        None => None,
    };
    FrameCsg::guest_next_data_is_cur_item_data(
        repo,
        item_ref,
        slice_subrange(data, pos, n),
        time,
        protocol,
        region,
        Some(dir),
    )
}

/// Reads the value at the place where the reading stands: its fields, the state
/// behind it, and whether the reading ends.
#[verifier::rlimit(100)]
#[verifier::spinoff_prover]
pub fn read_history_value(
    repo: &ProtocolConfigManager,
    data: &[u8],
    pw_data: &[u8],
    dir: u8,
    prm: u8,
    index: usize,
    state: HistoryState,
    protocol: &str,
    region: &str,
) -> (r: (Vec<DecodedField>, HistoryState, bool))
    requires
        repo.wf(),
        index + data@.len() <= usize::MAX,
        state.pos <= data@.len(),
        state.length <= data@.len(),
        state.num <= state.pos,
        state.last is Some ==> state.last.unwrap() + 6 <= data@.len(),
        state.pw ==> pw_data@.len() >= 16,
    ensures
        (HistoryStep { fields: fields_view(r.0@), next: r.1@, stop: r.2 }) == history_step(
            unit_query(repo, protocol@, region@, dir),
            protocol@ == "DLT/645-2007"@,
            region@ == "海南"@,
            data@,
            pw_data@,
            dir,
            prm,
            index as int,
            state@,
        ),
        r.1.pos <= data@.len(),
        r.1.length <= data@.len(),
        r.1.num <= r.1.pos || r.2,
        r.1.last is Some ==> r.1.last.unwrap() + 6 <= data@.len(),
        r.1.pw ==> pw_data@.len() >= 16,
        !r.2 ==> r.1.pos > state.pos,
{
    reveal(history_step);
    let counts = str_eq(region, "海南");
    let answer = dir == 1 && prm == 0;
    let n = data.len();
    let HistoryState { pos, length, num, pw, item, last, point, ident } = state;
    let mut out: Vec<DecodedField> = Vec::new();
    assert(fields_view(out@) =~= Seq::empty());
    if pos >= length || pos >= n {
        return (out, HistoryState { pos, length, num, pw, item, last, point, ident }, true);
    }
    let fresh = !goes_on(repo, data, pos, &item, last, protocol, region, dir);
    let counted = fresh && answer && counts;
    if fresh && n - pos < 6 {
        return (out, HistoryState { pos, length, num, pw, item, last, point, ident }, true);
    }
    if counted && n - pos < 7 {
        let (head, _el, _point, _ident) = history_head_of(
            repo,
            data,
            index,
            pos,
            num,
            false,
            protocol,
            region,
            dir,
        );
        return (head, HistoryState { pos, length, num, pw, item, last, point, ident }, true);
    }
    let mut item = item;
    let mut point = point;
    let mut ident = ident;
    let mut at: usize = pos;
    if fresh {
        let (head, el, new_point, new_ident) = history_head_of(
            repo,
            data,
            index,
            pos,
            num,
            counted,
            protocol,
            region,
            dir,
        );
        out = head;
        item = el;
        point = new_point;
        ident = new_ident;
        at = pos + 6 + (if counted { 1 } else { 0 });
    }
    if item.is_none() && answer {
        let guess = guess_pw_with(repo, data, length, pw_data, &None, last, protocol, region, dir);
        return (out, HistoryState { pos, length, num, pw: guess, item, last, point, ident }, true);
    }
    let size: usize = if answer {
        history_size_of(repo, &item, slice_subrange(data, at, n), protocol, region, dir)
    } else {
        0
    };
    let enough = if dir == 1 { n - at - size >= 6 } else { n - at >= 13 };
    if !enough {
        return (out, HistoryState { pos, length, num, pw, item, last, point, ident }, true);
    }
    let next: usize = if dir == 1 { at + size + 6 } else { at + 13 };
    let mut last = last;
    if dir == 1 {
        proof {
            reveal_strlit("");
            assert(""@ =~= Seq::<char>::empty());
        }
        let mut text = replace_text(point.as_str(), "Pn=", "");
        push_str(&mut text, "-");
        push_str(&mut text, replace_text(ident.as_str(), "数据标识编码：", "").as_str());
        let mut value = history_value_of(
            repo,
            data,
            index,
            at,
            size,
            num,
            &item,
            answer,
            text,
            protocol,
            region,
            dir,
        );
        proof {
            lemma_fields_view_concat(out@, value@);
        }
        out.append(&mut value);
        last = Some(at + size);
    } else {
        let mut range = history_range_of(data, index, at, num);
        proof {
            lemma_fields_view_concat(out@, range@);
        }
        out.append(&mut range);
    }
    let mut length = length;
    let mut pw = pw;
    if length >= next && length - next == 16 {
        let guess = guess_pw_with(repo, data, length, pw_data, &item, last, protocol, region, dir);
        pw = guess;
        if guess {
            length = length - 16;
        }
    }
    (out, HistoryState { pos: next, length, num: num + 1, pw, item, last, point, ident }, false)
}

/// Reads the values of a body, and tells whether a password stands behind them.
pub fn read_history_values(
    repo: &ProtocolConfigManager,
    data: &[u8],
    pw_data: &[u8],
    dir: u8,
    prm: u8,
    index: usize,
    protocol: &str,
    region: &str,
) -> (r: (Vec<DecodedField>, bool))
    requires
        repo.wf(),
        index + data@.len() <= usize::MAX,
    ensures
        (fields_view(r.0@), r.1) == history_values_from(
            unit_query(repo, protocol@, region@, dir),
            protocol@ == "DLT/645-2007"@,
            region@ == "海南"@,
            data@,
            pw_data@,
            dir,
            prm,
            index as int,
            history_start(data@.len()),
            Seq::empty(),
        ),
        r.1 ==> pw_data@.len() >= 16,
{
    let ghost q = unit_query(repo, protocol@, region@, dir);
    let ghost nd = protocol@ == "DLT/645-2007"@;
    let ghost counts = region@ == "海南"@;
    let n = data.len();
    let mut out: Vec<DecodedField> = Vec::new();
    let mut state = HistoryState {
        pos: 0,
        length: n,
        num: 0,
        pw: false,
        item: None,
        last: None,
        point: String::new(),
        ident: String::new(),
    };
    let mut pw = false;
    assert(state@ =~= history_start(n as nat));
    let ghost want = history_values_from(
        q,
        nd,
        counts,
        data@,
        pw_data@,
        dir,
        prm,
        index as int,
        history_start(n as nat),
        Seq::empty(),
    );
    assert(fields_view(out@) =~= Seq::empty());
    loop
        invariant_except_break
            history_values_from(
                q,
                nd,
                counts,
                data@,
                pw_data@,
                dir,
                prm,
                index as int,
                state@,
                fields_view(out@),
            ) == want,
            state.num <= state.pos,
        invariant
            repo.wf(),
            n == data@.len(),
            index + n <= usize::MAX,
            state.pos <= n,
            state.length <= n,
            state.last is Some ==> state.last.unwrap() + 6 <= n,
            state.pw ==> pw_data@.len() >= 16,
            q == unit_query(repo, protocol@, region@, dir),
            nd == (protocol@ == "DLT/645-2007"@),
            counts == (region@ == "海南"@),
        ensures
            (fields_view(out@), pw) == want,
            pw ==> pw_data@.len() >= 16,
        decreases n - state.pos,
    {
        let pos = state.pos;
        let (fields, next, stop) = read_history_value(
            repo,
            data,
            pw_data,
            dir,
            prm,
            index,
            state,
            protocol,
            region,
        );
        let mut fields = fields;
        proof {
            lemma_fields_view_concat(out@, fields@);
        }
        out.append(&mut fields);
        pw = next.pw;
        let stops = stop || next.pos <= pos || next.pos > n;
        state = next;
        if stops {
            break ;
        }
    }
    (out, pw)
}

impl FrameCsg {
    /// Appends the fields of a frame that reads history data.
    pub fn analysic_csg_read_history_frame(
        repo: &ProtocolConfigManager,
        frame: &[u8],
        dir: u8,
        prm: u8,
        result_list: &mut Vec<DecodedField>,
        start_pos: usize,
        protocol: &str,
        region: &str,
    ) -> (r: Result<(), CustomError>)
        requires
            repo.wf(),
            frame@.len() >= 18,
            start_pos + frame@.len() <= usize::MAX,
        ensures
            r is Ok,
            fields_view(final(result_list)@) == fields_view(old(result_list)@) + history_frame_fields(
                repo,
                protocol@,
                region@,
                frame@,
                dir,
                prm,
                start_pos as int,
            ),
    {
        let n = frame.len();
        let ghost before = result_list@;
        let mut head: Vec<DecodedField> = Vec::new();
        assert(fields_view(head@) =~= Seq::empty());
        let tpv = FrameCsg::get_afn_and_seq_result(
            slice_subrange(frame, 14, 16),
            start_pos + 14,
            &mut head,
        );
        assert(fields_view(head@) =~= afn_seq_fields(frame@.subrange(14, 16), start_pos + 14));
        assert(tpv == ((frame@[15] >> 7) & 1 == 1)) by {
            assert(frame@.subrange(14, 16)[1] == frame@[15]);
        }
        let vlen: usize = n - 18;
        let tail: usize = if tpv { 21 } else { 16 };
        let pw_data: &[u8] = if vlen > tail {
            if tpv {
                slice_subrange(frame, n - 23, n - 7)
            } else {
                slice_subrange(frame, n - 18, n - 2)
            }
        } else {
            slice_subrange(frame, 0, 0)
        };
        assert(pw_data@ =~= pw_bytes(UnitKind::ReadCur, frame@));
        let end: usize = if tpv { if vlen >= 5 { n - 7 } else { 16 } } else { n - 2 };
        let data = slice_subrange(frame, 16, end);
        assert(data@ =~= unit_bytes(frame@));
        let (units, pw) = read_history_values(
            repo,
            data,
            pw_data,
            dir,
            prm,
            start_pos + 16,
            protocol,
            region,
        );
        let body = body_field_of(frame, start_pos, units, pw, pw_data);
        proof {
            lemma_fields_view_push(head@, body);
            lemma_fields_view_concat(before, head@.push(body));
        }
        head.push(body);
        result_list.append(&mut head);
        Ok(())
    }
}

} // verus!
