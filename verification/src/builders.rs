//! Building fields and their texts.

use vstd::prelude::*;
use vstd::string::*;
use vstd::slice::*;
use crate::decoded::{field_view, fields_view, DecodedField, FieldView};
use crate::frame_fun::FrameFun;
use crate::protocol::{leaf, leaf_field};
use crate::text::{hex_spaced, push_str};

verus! {

/// A field with fields below it.
pub open spec fn branch_field(
    label: Seq<char>,
    data: Seq<char>,
    description: Seq<char>,
    start: int,
    end: int,
    children: Seq<FieldView>,
) -> FieldView {
    FieldView { frame_domain: label, data, description, start, end, color: None, children: Some(children) }
}

/// A field with fields below it.
pub fn branch(
    label: &str,
    data: String,
    description: String,
    start: usize,
    end: usize,
    children: Vec<DecodedField>,
) -> (r: DecodedField)
    ensures
        field_view(r) == branch_field(
            label@,
            data@,
            description@,
            start as int,
            end as int,
            fields_view(children@),
        ),
{
    DecodedField {
        frame_domain: label.to_owned(),
        data,
        description,
        start,
        end,
        color: None,
        children: Some(children),
    }
}

/// A field without fields below it, under a fixed label.
pub fn plain(label: &str, data: String, description: String, start: usize, end: usize) -> (r:
    DecodedField)
    ensures
        field_view(r) == leaf_field(label@, data@, description@, start as int, end as int, None),
{
    leaf(label.to_owned(), data, description, start, end, None)
}

/// Two texts, one behind the other.
pub fn join(a: &str, b: &str) -> (r: String)
    ensures
        r@ == a@ + b@,
{
    let mut out = String::new();
    push_str(&mut out, a);
    push_str(&mut out, b);
    assert(out@ =~= a@ + b@);
    out
}

/// The field with a label for the bytes of a frame from `from` to `to`.
pub open spec fn bytes_field(
    frame: Seq<u8>,
    indx: int,
    label: Seq<char>,
    text: Seq<char>,
    from: int,
    to: int,
) -> FieldView {
    leaf_field(label, hex_spaced(frame.subrange(from, to)), text, indx + from, indx + to, None)
}

/// The field with a label for the bytes of a frame from `from` to `to`.
pub fn bytes_field_of(frame: &[u8], indx: usize, label: &str, text: String, from: usize, to: usize) -> (r:
    DecodedField)
    requires
        from <= to <= frame@.len(),
        indx + frame@.len() <= usize::MAX,
    ensures
        field_view(r) == bytes_field(frame@, indx as int, label@, text@, from as int, to as int),
{
    plain(
        label,
        FrameFun::get_data_str_with_space(slice_subrange(frame, from, to)),
        text,
        indx + from,
        indx + to,
    )
}

} // verus!
