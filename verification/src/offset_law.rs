//! The ranges of a decode are absolute: they follow the offset at which the bytes
//! stand, and nothing else of the decode depends on it.

use vstd::prelude::*;
use crate::decoded::{moved_field, moved_fields, FieldView};
use crate::frame_fun::{data_str, maybe_strip33};
use crate::protocol::{
    all_items_from, bit_field, bit_fields_from, bitwise_fields, bracketed, child_length,
    child_name, consumed_length, declared_length, decoded_item, instance_label, ip_port_fields,
    is_single, item_box_from, item_fields, item_label, item_parts, min_of, opaque_field, pn_fields,
    relabel, relabel_one, simple_type_text, single_item_parts, split_child_field, split_fields,
    split_fields_from, static_length, template_from, template_parts, template_unit, text_or,
    type_item_parts, type_length, value_item_parts, EntryView, Query,
};
use crate::text::{dec_string, hex_concat, hex_spaced};
use crate::xmlconfig::{index_of_attr, ElementView};

verus! {

/// Optional fields with all their ranges moved by `by`.
pub open spec fn moved_option(o: Option<Seq<FieldView>>, by: int) -> Option<Seq<FieldView>> {
    match o {
        Some(l) => Some(moved_fields(l, by)),
        None => None,
    }
}

/// Moving the ranges of fields one behind the other moves those of each part.
pub proof fn lemma_moved_concat(a: Seq<FieldView>, b: Seq<FieldView>, by: int)
    ensures
        moved_fields(a + b, by) == moved_fields(a, by) + moved_fields(b, by),
{
    assert(moved_fields(a + b, by) =~= moved_fields(a, by) + moved_fields(b, by));
}

/// Moving the ranges of fields with one more field moves those of the field.
pub proof fn lemma_moved_push(a: Seq<FieldView>, f: FieldView, by: int)
    ensures
        moved_fields(a.push(f), by) == moved_fields(a, by).push(moved_field(f, by)),
{
    assert(moved_fields(a.push(f), by) =~= moved_fields(a, by).push(moved_field(f, by)));
}

/// No fields stay no fields.
pub proof fn lemma_moved_empty(by: int)
    ensures
        moved_fields(Seq::empty(), by) == Seq::<FieldView>::empty(),
{
    assert(moved_fields(Seq::empty(), by) =~= Seq::<FieldView>::empty());
}

/// A new label keeps the ranges.
pub proof fn lemma_moved_relabel(v: Seq<FieldView>, label: Seq<char>, id: Option<Seq<char>>, by: int)
    ensures
        moved_fields(relabel(v, label, id), by) == relabel(moved_fields(v, by), label, id),
{
    reveal(relabel);
    let left = moved_fields(relabel(v, label, id), by);
    let right = relabel(moved_fields(v, by), label, id);
    assert(left.len() == right.len());
    assert forall|i: int| 0 <= i < v.len() implies left[i] == right[i] by {
        let f = v[i];
        let g = relabel_one(f, label, id);
        assert(relabel(v, label, id)[i] == g);
        assert(left[i] == moved_field(g, by));
        assert(moved_fields(v, by)[i] == moved_field(f, by));
        assert(right[i] == relabel_one(moved_field(f, by), label, id));
        assert(g.children == f.children);
    }
    assert(left =~= right);
}

/// The fields of the bits of a group follow the offset.
pub proof fn lemma_bits_follow_offset(
    bits: Seq<ElementView>,
    i: int,
    data: Seq<u8>,
    index: int,
    by: int,
    need_delete: bool,
    acc: Seq<FieldView>,
)
    requires
        0 <= i <= bits.len(),
    ensures
        bit_fields_from(bits, i, data, index + by, need_delete, moved_fields(acc, by)) == moved_fields(
            bit_fields_from(bits, i, data, index, need_delete, acc),
            by,
        ),
    decreases bits.len() - i,
{
    if i < bits.len() {
        reveal(bit_field);
        match bit_field(bits[i], data, index, need_delete) {
            Some(f) => {
                lemma_moved_push(acc, f, by);
                assert(bit_field(bits[i], data, index + by, need_delete) == Some(moved_field(f, by)));
                lemma_bits_follow_offset(bits, i + 1, data, index, by, need_delete, acc.push(f));
            },
            None => {
                assert(bit_field(bits[i], data, index + by, need_delete) is None);
                lemma_bits_follow_offset(bits, i + 1, data, index, by, need_delete, acc);
            },
        }
    }
}

/// The fields of a bitfield group follow the offset.
pub proof fn lemma_bitwise_follows_offset(
    e: ElementView,
    data: Seq<u8>,
    index: int,
    by: int,
    need_delete: bool,
)
    ensures
        bitwise_fields(e, data, index + by, need_delete) == moved_fields(
            bitwise_fields(e, data, index, need_delete),
            by,
        ),
{
    lemma_moved_empty(by);
    lemma_bits_follow_offset(e.items("bit"@), 0, data, index, by, need_delete, Seq::empty());
}

/// The text of a scalar does not depend on the offset, and its fields follow it.
pub proof fn lemma_single_follows_offset(
    e: ElementView,
    data: Seq<u8>,
    index: int,
    by: int,
    need_delete: bool,
)
    ensures
        single_item_parts(e, data, index + by, need_delete).0 == single_item_parts(
            e,
            data,
            index,
            need_delete,
        ).0,
        single_item_parts(e, data, index + by, need_delete).1 == moved_option(
            single_item_parts(e, data, index, need_delete).1,
            by,
        ),
{
    reveal(single_item_parts);
    if !e.has_child("unit"@) && !e.has_child("time"@) && e.has_child("splitbit"@) {
        lemma_bitwise_follows_offset(e.child("splitbit"@).unwrap(), data, index, by, need_delete);
    }
}

/// The text and the colour of an enumerated measurement do not depend on the
/// offset, and its fields follow it.
pub proof fn lemma_value_follows_offset(
    e: ElementView,
    data: Seq<u8>,
    index: int,
    by: int,
    need_delete: bool,
)
    ensures
        value_item_parts(e, data, index + by, need_delete).0 == value_item_parts(
            e,
            data,
            index,
            need_delete,
        ).0,
        value_item_parts(e, data, index + by, need_delete).1 == moved_option(
            value_item_parts(e, data, index, need_delete).1,
            by,
        ),
        value_item_parts(e, data, index + by, need_delete).2 == value_item_parts(
            e,
            data,
            index,
            need_delete,
        ).2,
{
    reveal(value_item_parts);
    lemma_single_follows_offset(e, data, index, by, need_delete);
}

/// The fields of the built-in composites follow the offset.
pub proof fn lemma_composites_follow_offset(
    q: Query,
    data: Seq<u8>,
    index: int,
    by: int,
    item_len: int,
    label: Seq<char>,
    end: int,
)
    ensures
        pn_fields(data, index + by, item_len) == moved_fields(pn_fields(data, index, item_len), by),
        item_fields(q, data, index + by, item_len) == moved_fields(
            item_fields(q, data, index, item_len),
            by,
        ),
        ip_port_fields(data, index + by) == moved_fields(ip_port_fields(data, index), by),
        seq![opaque_field(label, data, index + by, end + by)] == moved_fields(
            seq![opaque_field(label, data, index, end)],
            by,
        ),
{
    reveal(pn_fields);
    reveal(item_fields);
    reveal(ip_port_fields);
    assert(pn_fields(data, index + by, item_len) =~= moved_fields(
        pn_fields(data, index, item_len),
        by,
    ));
    assert(item_fields(q, data, index + by, item_len) =~= moved_fields(
        item_fields(q, data, index, item_len),
        by,
    ));
    assert(ip_port_fields(data, index + by) =~= moved_fields(ip_port_fields(data, index), by));
    assert(seq![opaque_field(label, data, index + by, end + by)] =~= moved_fields(
        seq![opaque_field(label, data, index, end)],
        by,
    ));
}

/// The ranges of a decode are absolute: decoded at an offset that is `by` further
/// on, the same element over the same bytes gives the same fields, with the same
/// labels, wire bytes, descriptions and colours, and with every range, down to
/// the last field below, moved by `by`.
pub proof fn lemma_decode_follows_offset(
    q: Query,
    e: ElementView,
    data: Seq<u8>,
    index: int,
    by: int,
    need_delete: bool,
    fuel: nat,
)
    ensures
        decoded_item(q, e, data, index + by, need_delete, fuel) == moved_fields(
            decoded_item(q, e, data, index, need_delete, fuel),
            by,
        ),
    decreases fuel, 0nat, 0nat,
{
    if data.len() == 0 {
        lemma_moved_empty(by);
    } else {
        if fuel > 0 {
            let len = consumed_length(e, data);
            let seg = data.take(len as int);
            let name = item_label(e.attribute("id"@), e.child_text("name"@));
            let shown = data_str(seg, need_delete, true, false);
            let plain = match e.child_text("name"@) {
                Some(n) => bracketed(n, shown),
                None => shown,
            };
            lemma_parts_follow_offset(q, e, seg, index, by, need_delete, name, plain, (fuel - 1) as nat);
        }
        assert(decoded_item(q, e, data, index + by, need_delete, fuel) =~= moved_fields(
            decoded_item(q, e, data, index, need_delete, fuel),
            by,
        ));
    }
}

/// What the shape of an element gives follows the offset.
pub proof fn lemma_parts_follow_offset(
    q: Query,
    e: ElementView,
    seg: Seq<u8>,
    index: int,
    by: int,
    need_delete: bool,
    name: Seq<char>,
    plain: Seq<char>,
    fuel: nat,
)
    ensures
        item_parts(q, e, seg, index + by, need_delete, name, plain, fuel).0 == item_parts(
            q,
            e,
            seg,
            index,
            need_delete,
            name,
            plain,
            fuel,
        ).0,
        item_parts(q, e, seg, index + by, need_delete, name, plain, fuel).1 == moved_option(
            item_parts(q, e, seg, index, need_delete, name, plain, fuel).1,
            by,
        ),
        item_parts(q, e, seg, index + by, need_delete, name, plain, fuel).2 == item_parts(
            q,
            e,
            seg,
            index,
            need_delete,
            name,
            plain,
            fuel,
        ).2,
    decreases fuel, 8nat, 0nat,
{
    lemma_moved_empty(by);
    lemma_value_follows_offset(e, seg, index, by, need_delete);
    lemma_single_follows_offset(e, seg, index, by, need_delete);
    lemma_bitwise_follows_offset(e, seg, index, by, need_delete);
    if e.items("dataItem"@).len() > 0 {
        lemma_all_items_follow_offset(
            q,
            e.items("dataItem"@),
            0,
            seg,
            0,
            index,
            by,
            need_delete,
            Seq::empty(),
            fuel,
        );
    } else if e.has_child("unit"@) || e.has_child("value"@) || e.has_child("time"@) || e.has_child(
        "splitbit"@,
    ) {
    } else if e.has_child("splitByLength"@) {
        lemma_split_follows_offset(q, e, seg, index, by, need_delete, fuel);
    } else if e.has_child("itembox"@) {
        lemma_item_box_follows_offset(
            q,
            e.items("item"@),
            0,
            seg,
            0,
            index,
            by,
            need_delete,
            Seq::empty(),
            fuel,
        );
    } else if e.has_child("indelength"@) {
        match index_of_attr(
            e.children,
            "len"@,
            dec_string(seg.len()),
        ) {
            Some(i) => {
                lemma_decode_follows_offset(q, e.children[i], seg, index, by, need_delete, fuel);
            },
            None => {},
        }
    } else if e.has_child("type"@) {
        lemma_type_follows_offset(
            q,
            e,
            seg,
            index,
            by,
            need_delete,
            type_length(q, e, seg, fuel) as int,
            fuel,
        );
    }
}

/// The fields of the items of a composite record follow the offset.
pub proof fn lemma_all_items_follow_offset(
    q: Query,
    items: Seq<ElementView>,
    i: int,
    data: Seq<u8>,
    pos: nat,
    index: int,
    by: int,
    need_delete: bool,
    acc: Seq<FieldView>,
    fuel: nat,
)
    requires
        0 <= i <= items.len(),
    ensures
        all_items_from(q, items, i, data, pos, index + by, need_delete, moved_fields(acc, by), fuel).0
            == moved_fields(
            all_items_from(q, items, i, data, pos, index, need_delete, acc, fuel).0,
            by,
        ),
        all_items_from(q, items, i, data, pos, index + by, need_delete, moved_fields(acc, by), fuel).1
            == all_items_from(q, items, i, data, pos, index, need_delete, acc, fuel).1,
    decreases fuel, 3nat, items.len() - i,
{
    if i < items.len() && pos <= data.len() {
        match static_length(items[i]) {
            None => {
                lemma_all_items_follow_offset(q, items, i + 1, data, pos, index, by, need_delete, acc, fuel);
            },
            Some(l) => {
                if l <= data.len() - pos {
                    let part = data.subrange(pos as int, (pos + l) as int);
                    let add = decoded_item(q, items[i], part, index + pos, need_delete, fuel);
                    lemma_decode_follows_offset(q, items[i], part, index + pos, by, need_delete, fuel);
                    lemma_moved_concat(acc, add, by);
                    lemma_all_items_follow_offset(
                        q,
                        items,
                        i + 1,
                        data,
                        pos + l,
                        index,
                        by,
                        need_delete,
                        acc + add,
                        fuel,
                    );
                }
            },
        }
    }
}

/// The fields of a list of references follow the offset.
pub proof fn lemma_item_box_follows_offset(
    q: Query,
    items: Seq<ElementView>,
    i: int,
    data: Seq<u8>,
    pos: nat,
    index: int,
    by: int,
    need_delete: bool,
    acc: Seq<FieldView>,
    fuel: nat,
)
    requires
        0 <= i <= items.len(),
    ensures
        item_box_from(q, items, i, data, pos, index + by, need_delete, moved_fields(acc, by), fuel).0
            == moved_fields(
            item_box_from(q, items, i, data, pos, index, need_delete, acc, fuel).0,
            by,
        ),
        item_box_from(q, items, i, data, pos, index + by, need_delete, moved_fields(acc, by), fuel).1
            == item_box_from(q, items, i, data, pos, index, need_delete, acc, fuel).1,
    decreases fuel, 3nat, items.len() - i,
{
    if i < items.len() && pos <= data.len() {
        match items[i].value {
            None => {
                lemma_item_box_follows_offset(q, items, i + 1, data, pos, index, by, need_delete, acc, fuel);
            },
            Some(id) => match q.item(id) {
                Some(el) => {
                    let left = data.skip(pos as int);
                    let l = min_of(
                        declared_length(q, el, left, 0, fuel) as int,
                        left.len() as int,
                    ) as nat;
                    let part = data.subrange(pos as int, (pos + l) as int);
                    let add = decoded_item(q, el, part, index + pos, need_delete, fuel);
                    lemma_decode_follows_offset(q, el, part, index + pos, by, need_delete, fuel);
                    lemma_moved_concat(acc, add, by);
                    lemma_item_box_follows_offset(
                        q,
                        items,
                        i + 1,
                        data,
                        pos + l,
                        index,
                        by,
                        need_delete,
                        acc + add,
                        fuel,
                    );
                },
                None => {
                    let f = opaque_field(id, data.skip(pos as int), index + pos, index + data.len());
                    lemma_moved_push(acc, f, by);
                    lemma_item_box_follows_offset(
                        q,
                        items,
                        i + 1,
                        data,
                        data.len(),
                        index,
                        by,
                        need_delete,
                        acc.push(f),
                        fuel,
                    );
                },
            },
        }
    }
}

/// The instances of a repeated template follow the offset.
pub proof fn lemma_template_follows_offset(
    q: Query,
    tpl: ElementView,
    data: Seq<u8>,
    unit: nat,
    pos: nat,
    i: nat,
    index: int,
    by: int,
    need_delete: bool,
    acc: Seq<FieldView>,
    fuel: nat,
)
    ensures
        template_from(q, tpl, data, unit, pos, i, index + by, need_delete, moved_fields(acc, by), fuel)
            == moved_fields(
            template_from(q, tpl, data, unit, pos, i, index, need_delete, acc, fuel),
            by,
        ),
    decreases fuel, 3nat, data.len() - pos,
{
    if unit != 0 && pos + unit <= data.len() {
        let sub = data.subrange(pos as int, (pos + unit) as int);
        let label = instance_label(tpl.child_text("name"@), i as int);
        let value = decoded_item(q, tpl, sub, index + pos, need_delete, fuel);
        lemma_decode_follows_offset(q, tpl, sub, index + pos, by, need_delete, fuel);
        lemma_moved_relabel(value, label, tpl.attribute("id"@), by);
        lemma_moved_empty(by);
        let add = if value.len() > 0 {
            relabel(value, label, tpl.attribute("id"@))
        } else {
            seq![
                FieldView {
                    frame_domain: label,
                    data: hex_spaced(sub),
                    description: bracketed(label, hex_concat(sub.reverse())),
                    start: index + pos,
                    end: index + pos + unit,
                    color: None,
                    children: Some(Seq::empty()),
                },
            ]
        };
        let other = if value.len() > 0 {
            relabel(moved_fields(value, by), label, tpl.attribute("id"@))
        } else {
            seq![
                FieldView {
                    frame_domain: label,
                    data: hex_spaced(sub),
                    description: bracketed(label, hex_concat(sub.reverse())),
                    start: index + by + pos,
                    end: index + by + pos + unit,
                    color: None,
                    children: Some(Seq::empty()),
                },
            ]
        };
        assert(other =~= moved_fields(add, by));
        lemma_moved_concat(acc, add, by);
        lemma_template_follows_offset(
            q,
            tpl,
            data,
            unit,
            pos + unit,
            i + 1,
            index,
            by,
            need_delete,
            acc + add,
            fuel,
        );
    }
}

/// The fields of a value whose type names a template follow the offset.
pub proof fn lemma_template_parts_follow_offset(
    q: Query,
    tpl: ElementView,
    data: Seq<u8>,
    item_len: int,
    index: int,
    by: int,
    need_delete: bool,
    caller_single: bool,
    fuel: nat,
)
    ensures
        template_parts(q, tpl, data, item_len, index + by, need_delete, caller_single, fuel).0
            == template_parts(q, tpl, data, item_len, index, need_delete, caller_single, fuel).0,
        template_parts(q, tpl, data, item_len, index + by, need_delete, caller_single, fuel).1
            == moved_fields(
            template_parts(q, tpl, data, item_len, index, need_delete, caller_single, fuel).1,
            by,
        ),
    decreases fuel, 4nat, 0nat,
{
    let unit = template_unit(q, tpl, data, fuel);
    lemma_moved_empty(by);
    if is_single(tpl) || caller_single {
        lemma_decode_follows_offset(q, tpl, data, index, by, need_delete, fuel);
    } else if unit > 0 && data.len() % unit == 0 {
        lemma_template_follows_offset(q, tpl, data, unit, 0, 0, index, by, need_delete, Seq::empty(), fuel);
    } else {
        assert(template_parts(q, tpl, data, item_len, index + by, need_delete, caller_single, fuel).1
            =~= moved_fields(
            template_parts(q, tpl, data, item_len, index, need_delete, caller_single, fuel).1,
            by,
        ));
    }
}

/// The fields of an element with a type follow the offset.
pub proof fn lemma_type_follows_offset(
    q: Query,
    e: ElementView,
    data: Seq<u8>,
    index: int,
    by: int,
    need_delete: bool,
    single_len: int,
    fuel: nat,
)
    ensures
        type_item_parts(q, e, data, index + by, need_delete, single_len, fuel).0 == type_item_parts(
            q,
            e,
            data,
            index,
            need_delete,
            single_len,
            fuel,
        ).0,
        type_item_parts(q, e, data, index + by, need_delete, single_len, fuel).1 == moved_option(
            type_item_parts(q, e, data, index, need_delete, single_len, fuel).1,
            by,
        ),
    decreases fuel, 5nat, 0nat,
{
    let content = maybe_strip33(data, need_delete);
    let t = text_or(e.child_text("type"@), Seq::empty());
    lemma_moved_empty(by);
    lemma_composites_follow_offset(q, content, index, by, single_len, t, index + content.len());
    lemma_single_follows_offset(e, content, index, by, false);
    match simple_type_text(e, data, false) {
        Some(v) => {},
        None => {
            if t == "PN"@ || t == "ITEM"@ || t == "FRAME645"@ || t == "FRAMECSG13"@ || t
                == "IPWITHPORT"@ {
            } else {
                match q.template(t) {
                    Some(tpl) => {
                        lemma_template_parts_follow_offset(
                            q,
                            tpl,
                            content,
                            single_len,
                            index,
                            by,
                            false,
                            is_single(e),
                            fuel,
                        );
                    },
                    None => {},
                }
            }
        },
    }
}

/// The field of a child of a record follows the offset.
pub proof fn lemma_split_child_follows_offset(
    q: Query,
    item: ElementView,
    content: Seq<u8>,
    start: int,
    by: int,
    need_delete: bool,
    fuel: nat,
)
    ensures
        split_child_field(q, item, content, start + by, need_delete, fuel) == moved_field(
            split_child_field(q, item, content, start, need_delete, fuel),
            by,
        ),
    decreases fuel, 6nat, 0nat,
{
    lemma_moved_empty(by);
    lemma_value_follows_offset(item, content, start, by, need_delete);
    lemma_single_follows_offset(item, content, start, by, need_delete);
    if item.has_child("unit"@) || item.has_child("value"@) || item.has_child("time"@) {
    } else if item.has_child("splitbit"@) {
        lemma_bitwise_follows_offset(item.child("splitbit"@).unwrap(), content, start, by, need_delete);
    } else if item.has_child("splitByLength"@) {
        lemma_split_follows_offset(q, item, content, start, by, need_delete, fuel);
    } else if item.has_child("type"@) {
        lemma_type_follows_offset(q, item, content, start, by, need_delete, content.len() as int, fuel);
    } else if item.has_child("item"@) {
        lemma_item_box_follows_offset(
            q,
            item.items("item"@),
            0,
            content,
            0,
            start,
            by,
            need_delete,
            Seq::empty(),
            fuel,
        );
    }
}

/// The fields of the children of a record follow the offset.
pub proof fn lemma_split_from_follows_offset(
    q: Query,
    items: Seq<ElementView>,
    i: int,
    data: Seq<u8>,
    pos: nat,
    ctx: Seq<EntryView>,
    index: int,
    by: int,
    need_delete: bool,
    acc: Seq<FieldView>,
    fuel: nat,
)
    requires
        0 <= i <= items.len(),
    ensures
        split_fields_from(q, items, i, data, pos, ctx, index + by, need_delete, moved_fields(acc, by), fuel).0
            == moved_fields(
            split_fields_from(q, items, i, data, pos, ctx, index, need_delete, acc, fuel).0,
            by,
        ),
        split_fields_from(q, items, i, data, pos, ctx, index + by, need_delete, moved_fields(acc, by), fuel).1
            == split_fields_from(q, items, i, data, pos, ctx, index, need_delete, acc, fuel).1,
    decreases fuel, 7nat, items.len() - i,
{
    if i < items.len() && pos <= data.len() {
        let l = child_length(q, items[i], data, pos, ctx, fuel);
        let content = data.subrange(pos as int, (pos + l) as int);
        let f = split_child_field(q, items[i], content, index + pos, need_delete, fuel);
        lemma_split_child_follows_offset(q, items[i], content, index + pos, by, need_delete, fuel);
        lemma_moved_push(acc, f, by);
        lemma_split_from_follows_offset(
            q,
            items,
            i + 1,
            data,
            pos + l,
            ctx.push(EntryView { name: child_name(items[i], i), end: pos + l, len: l, node: items[i] }),
            index,
            by,
            need_delete,
            acc.push(f),
            fuel,
        );
    }
}

/// The fields of a record follow the offset.
pub proof fn lemma_split_follows_offset(
    q: Query,
    e: ElementView,
    data: Seq<u8>,
    index: int,
    by: int,
    need_delete: bool,
    fuel: nat,
)
    ensures
        split_fields(q, e, data, index + by, need_delete, fuel).0 == moved_fields(
            split_fields(q, e, data, index, need_delete, fuel).0,
            by,
        ),
        split_fields(q, e, data, index + by, need_delete, fuel).1 == split_fields(
            q,
            e,
            data,
            index,
            need_delete,
            fuel,
        ).1,
    decreases fuel, 2nat, 0nat,
{
    lemma_moved_empty(by);
    if fuel != 0 && data.len() != 0 {
        lemma_bitwise_follows_offset(e, data, index, by, need_delete);
        let head = if e.has_child("splitbit"@) {
            seq![
                FieldView {
                    frame_domain: item_label(e.attribute("id"@), e.child_text("name"@)),
                    data: hex_spaced(data),
                    description: hex_concat(data),
                    start: index,
                    end: index + data.len(),
                    color: None,
                    children: Some(bitwise_fields(e, data, index, need_delete)),
                },
            ]
        } else {
            Seq::empty()
        };
        let moved = if e.has_child("splitbit"@) {
            seq![
                FieldView {
                    frame_domain: item_label(e.attribute("id"@), e.child_text("name"@)),
                    data: hex_spaced(data),
                    description: hex_concat(data),
                    start: index + by,
                    end: index + by + data.len(),
                    color: None,
                    children: Some(bitwise_fields(e, data, index + by, need_delete)),
                },
            ]
        } else {
            Seq::empty()
        };
        assert(moved =~= moved_fields(head, by));
        lemma_split_from_follows_offset(
            q,
            e.items("splitByLength"@),
            0,
            data,
            0,
            Seq::empty(),
            index,
            by,
            need_delete,
            head,
            (fuel - 1) as nat,
        );
    }
}

} // verus!
