//! The decoded-field tree that the decoder produces.

use vstd::prelude::*;
use vstd::string::*;

verus! {

/// One decoded field: its label, the wire bytes in hexadecimal, the rendered
/// description, the absolute byte range `[start, end)`, an optional colour tag and
/// optional child fields.
#[derive(Debug)]
pub struct DecodedField {
    pub frame_domain: String,
    pub data: String,
    pub description: String,
    pub start: usize,
    pub end: usize,
    pub color: Option<String>,
    pub children: Option<Vec<DecodedField>>,
}

/// The mathematical content of a decoded field.
pub struct FieldView {
    pub frame_domain: Seq<char>,
    pub data: Seq<char>,
    pub description: Seq<char>,
    pub start: int,
    pub end: int,
    pub color: Option<Seq<char>>,
    pub children: Option<Seq<FieldView>>,
}

/// The content of an optional text.
pub open spec fn opt_text(o: Option<String>) -> Option<Seq<char>> {
    match o {
        Some(s) => Some(s@),
        None => None,
    }
}

/// The contents of a list of fields, in order.
pub open spec fn fields_view(l: Seq<DecodedField>) -> Seq<FieldView>
    decreases l,
{
    Seq::new(l.len(), |i: int| if 0 <= i < l.len() { field_view(l[i]) } else { arbitrary() })
}

/// The content of one field.
pub open spec fn field_view(f: DecodedField) -> FieldView
    decreases f,
{
    FieldView {
        frame_domain: f.frame_domain@,
        data: f.data@,
        description: f.description@,
        start: f.start as int,
        end: f.end as int,
        color: opt_text(f.color),
        children: match f.children {
            Some(c) => Some(fields_view(c@)),
            None => None,
        },
    }
}

impl View for DecodedField {
    type V = FieldView;

    open spec fn view(&self) -> FieldView {
        field_view(*self)
    }
}

impl DecodedField {
    /// A copy of this field with all that hangs below it.
    pub fn duplicate(&self) -> (r: DecodedField)
        ensures
            r@ == self@,
        decreases self,
    {
        let children = match &self.children {
            Some(c) => Some(duplicate_fields(c)),
            None => None,
        };
        let color = match &self.color {
            Some(c) => Some(c.clone()),
            None => None,
        };
        DecodedField {
            frame_domain: self.frame_domain.clone(),
            data: self.data.clone(),
            description: self.description.clone(),
            start: self.start,
            end: self.end,
            color,
            children,
        }
    }
}

/// A copy of a list of fields.
pub fn duplicate_fields(l: &Vec<DecodedField>) -> (r: Vec<DecodedField>)
    ensures
        fields_view(r@) == fields_view(l@),
    decreases l,
{
    let mut out: Vec<DecodedField> = Vec::new();
    let mut i: usize = 0;
    while i < l.len()
        invariant
            i <= l.len(),
            out.len() == i,
            forall|j: int| 0 <= j < i ==> field_view(#[trigger] out@[j]) == field_view(l@[j]),
        decreases l.len() - i,
    {
        out.push(l[i].duplicate());
        i += 1;
    }
    assert(fields_view(out@) =~= fields_view(l@));
    out
}

/// A field with its range and the ranges of all fields below it moved by `by`.
pub open spec fn moved_field(f: FieldView, by: int) -> FieldView
    decreases f,
{
    FieldView {
        start: f.start + by,
        end: f.end + by,
        children: match f.children {
            Some(c) => Some(moved_fields(c, by)),
            None => None,
        },
        ..f
    }
}

/// Fields with all their ranges moved by `by`.
pub open spec fn moved_fields(l: Seq<FieldView>, by: int) -> Seq<FieldView>
    decreases l,
{
    Seq::new(l.len(), |i: int| if 0 <= i < l.len() { moved_field(l[i], by) } else { arbitrary() })
}

} // verus!
