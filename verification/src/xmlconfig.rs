//! The schema model: elements, the indexed node forest of one protocol, and the
//! repository that resolves an item by id, protocol, region and direction.

use vstd::prelude::*;
use vstd::string::*;
use crate::frame_err::CustomError;
use crate::text::{
    chars_to_string, contains_char, contains_spec, contains_str, dec_string, eq_ignore_ascii_case,
    eq_ignore_ascii_case_spec, list_has, list_has_spec, next_sep, parse_bounded, parse_u64_bounded,
    push_char, push_dec, push_str, str_eq, to_chars, trim, trim_bounds, trim_range, trim_spec,
    upper, uppercase_of,
};

verus! {

/// One element of a schema document: its tag, its attributes in document order (no
/// key twice), its text and its child elements.
#[derive(Debug)]
pub struct XmlElement {
    pub name: String,
    pub attributes: Vec<(String, String)>,
    pub value: Option<String>,
    pub children: Vec<XmlElement>,
}

/// The mathematical content of an element.
pub struct ElementView {
    pub name: Seq<char>,
    pub attributes: Seq<(Seq<char>, Seq<char>)>,
    pub value: Option<Seq<char>>,
    pub children: Seq<ElementView>,
}

/// The content of a list of attributes.
pub open spec fn attrs_view(l: Seq<(String, String)>) -> Seq<(Seq<char>, Seq<char>)> {
    Seq::new(l.len(), |i: int| (l[i].0@, l[i].1@))
}

/// The content of an optional text.
pub open spec fn text_view(o: Option<String>) -> Option<Seq<char>> {
    match o {
        Some(s) => Some(s@),
        None => None,
    }
}

/// The contents of a list of elements, in order.
pub open spec fn elements_view(l: Seq<XmlElement>) -> Seq<ElementView>
    decreases l,
{
    Seq::new(l.len(), |i: int| if 0 <= i < l.len() { element_view(l[i]) } else { arbitrary() })
}

/// The content of one element.
pub open spec fn element_view(e: XmlElement) -> ElementView
    decreases e,
{
    ElementView {
        name: e.name@,
        attributes: attrs_view(e.attributes@),
        value: text_view(e.value),
        children: elements_view(e.children@),
    }
}

impl View for XmlElement {
    type V = ElementView;

    open spec fn view(&self) -> ElementView {
        element_view(*self)
    }
}

/// The value of the first attribute with the given key.
pub open spec fn attr_value(attrs: Seq<(Seq<char>, Seq<char>)>, key: Seq<char>) -> Option<Seq<char>>
    decreases attrs.len(),
{
    if attrs.len() == 0 {
        None
    } else if attrs[0].0 == key {
        Some(attrs[0].1)
    } else {
        attr_value(attrs.drop_first(), key)
    }
}

/// The position of the first element with the given tag.
pub open spec fn index_of_name(l: Seq<ElementView>, name: Seq<char>) -> Option<int>
    decreases l.len(),
{
    if l.len() == 0 {
        None
    } else if l[0].name == name {
        Some(0)
    } else {
        match index_of_name(l.drop_first(), name) {
            Some(i) => Some(i + 1),
            None => None,
        }
    }
}

/// The elements with the given tag, in order.
pub open spec fn named(l: Seq<ElementView>, name: Seq<char>) -> Seq<ElementView>
    decreases l.len(),
{
    if l.len() == 0 {
        Seq::empty()
    } else if l.last().name == name {
        named(l.drop_last(), name).push(l.last())
    } else {
        named(l.drop_last(), name)
    }
}

/// The items of an element with the given tag: each child with that tag, and, for
/// a child with another tag, its children with that tag; in document order.
pub open spec fn items_of(children: Seq<ElementView>, name: Seq<char>) -> Seq<ElementView>
    decreases children.len(),
{
    if children.len() == 0 {
        Seq::empty()
    } else {
        let c = children.last();
        let before = items_of(children.drop_last(), name);
        if c.name == name {
            before.push(c)
        } else {
            before + named(c.children, name)
        }
    }
}

impl ElementView {
    /// The first child with the given tag.
    pub open spec fn child(self, name: Seq<char>) -> Option<ElementView> {
        match index_of_name(self.children, name) {
            Some(i) => Some(self.children[i]),
            None => None,
        }
    }

    /// The text of the first child with the given tag.
    pub open spec fn child_text(self, name: Seq<char>) -> Option<Seq<char>> {
        match self.child(name) {
            Some(c) => c.value,
            None => None,
        }
    }

    /// Whether there is a child with the given tag.
    pub open spec fn has_child(self, name: Seq<char>) -> bool {
        index_of_name(self.children, name) is Some
    }

    /// The value of the attribute with the given key.
    pub open spec fn attribute(self, key: Seq<char>) -> Option<Seq<char>> {
        attr_value(self.attributes, key)
    }

    /// The items with the given tag.
    pub open spec fn items(self, name: Seq<char>) -> Seq<ElementView> {
        items_of(self.children, name)
    }
}

/// A copy of a list of attributes.
pub fn duplicate_attrs(l: &Vec<(String, String)>) -> (r: Vec<(String, String)>)
    ensures
        attrs_view(r@) == attrs_view(l@),
{
    let mut out: Vec<(String, String)> = Vec::new();
    let mut i: usize = 0;
    while i < l.len()
        invariant
            i <= l.len(),
            out.len() == i,
            forall|j: int| 0 <= j < i ==> (#[trigger] out@[j]).0@ == l@[j].0@ && out@[j].1@ == l@[j].1@,
        decreases l.len() - i,
    {
        out.push((l[i].0.clone(), l[i].1.clone()));
        i += 1;
    }
    assert(attrs_view(out@) =~= attrs_view(l@));
    out
}

/// A copy of an optional text.
pub fn duplicate_text(o: &Option<String>) -> (r: Option<String>)
    ensures
        text_view(r) == text_view(*o),
{
    match o {
        Some(s) => Some(s.clone()),
        None => None,
    }
}

/// A copy of a list of elements.
pub fn duplicate_elements(l: &Vec<XmlElement>) -> (r: Vec<XmlElement>)
    ensures
        elements_view(r@) == elements_view(l@),
    decreases l,
{
    let mut out: Vec<XmlElement> = Vec::new();
    let mut i: usize = 0;
    while i < l.len()
        invariant
            i <= l.len(),
            out.len() == i,
            forall|j: int| 0 <= j < i ==> element_view(#[trigger] out@[j]) == element_view(l@[j]),
        decreases l.len() - i,
    {
        out.push(l[i].duplicate());
        i += 1;
    }
    assert(elements_view(out@) =~= elements_view(l@));
    out
}

impl XmlElement {
    /// A copy of this element with all that hangs below it.
    pub fn duplicate(&self) -> (r: XmlElement)
        ensures
            r@ == self@,
        decreases self,
    {
        XmlElement {
            name: self.name.clone(),
            attributes: duplicate_attrs(&self.attributes),
            value: duplicate_text(&self.value),
            children: duplicate_elements(&self.children),
        }
    }

    /// A copy of the child elements.
    pub fn get_children(&self) -> (r: Vec<XmlElement>)
        ensures
            elements_view(r@) == self@.children,
    {
        duplicate_elements(&self.children)
    }

    /// The position of the first child with the given tag.
    pub fn child_index(&self, name: &str) -> (r: Option<usize>)
        ensures
            r is Some == index_of_name(self@.children, name@) is Some,
            r is Some ==> r.unwrap() as int == index_of_name(self@.children, name@).unwrap()
                && r.unwrap() < self.children@.len(),
    {
        let ghost l = self@.children;
        let mut i: usize = 0;
        assert(l.subrange(0, l.len() as int) =~= l);
        while i < self.children.len()
            invariant
                i <= self.children.len(),
                l == self@.children,
                l.len() == self.children@.len(),
                index_of_name(l, name@) == (match index_of_name(
                    l.subrange(i as int, l.len() as int),
                    name@,
                ) {
                    Some(k) => Some(k + i),
                    None => None,
                }),
            decreases self.children.len() - i,
        {
            let ghost rest = l.subrange(i as int, l.len() as int);
            assert(rest[0] == element_view(self.children@[i as int]));
            if str_eq(self.children[i].name.as_str(), name) {
                return Some(i);
            }
            assert(rest.drop_first() =~= l.subrange(i + 1, l.len() as int));
            i += 1;
        }
        None
    }

    /// The first child with the given tag.
    pub fn get_child(&self, name: &str) -> (r: Option<&XmlElement>)
        ensures
            r is Some == self@.has_child(name@),
            r is Some ==> r.unwrap()@ == self@.child(name@).unwrap(),
            r is Some ==> exists|i: int|
                0 <= i < self.children@.len() && *r.unwrap() == #[trigger] self.children@[i],
    {
        match self.child_index(name) {
            Some(i) => Some(&self.children[i]),
            None => None,
        }
    }

    /// Whether there is a child with the given tag.
    pub fn has_child(&self, name: &str) -> (r: bool)
        ensures
            r == self@.has_child(name@),
    {
        self.child_index(name).is_some()
    }

    /// The value of the attribute with the given key.
    pub fn get_attribute(&self, name: &str) -> (r: Option<&String>)
        ensures
            text_ref_view(r) == self@.attribute(name@),
    {
        let ghost l = self@.attributes;
        let mut i: usize = 0;
        assert(l.subrange(0, l.len() as int) =~= l);
        while i < self.attributes.len()
            invariant
                i <= self.attributes.len(),
                l == self@.attributes,
                l.len() == self.attributes@.len(),
                attr_value(l, name@) == attr_value(l.subrange(i as int, l.len() as int), name@),
            decreases self.attributes.len() - i,
        {
            let ghost rest = l.subrange(i as int, l.len() as int);
            assert(rest[0] == (self.attributes@[i as int].0@, self.attributes@[i as int].1@));
            if str_eq(self.attributes[i].0.as_str(), name) {
                return Some(&self.attributes[i].1);
            }
            assert(rest.drop_first() =~= l.subrange(i + 1, l.len() as int));
            i += 1;
        }
        None
    }

    /// The text of the first child with the given tag.
    pub fn get_child_text(&self, name: &str) -> (r: Option<String>)
        ensures
            text_view(r) == self@.child_text(name@),
    {
        match self.get_child(name) {
            Some(c) => duplicate_text(&c.value),
            None => None,
        }
    }

    /// The text of this element.
    pub fn get_value(&self) -> (r: Option<String>)
        ensures
            text_view(r) == self@.value,
    {
        duplicate_text(&self.value)
    }
}

/// The content of an optional borrowed text.
pub open spec fn text_ref_view(o: Option<&String>) -> Option<Seq<char>> {
    match o {
        Some(s) => Some(s@),
        None => None,
    }
}

/// The position of the first element that carries the attribute `key` with `value`.
pub open spec fn index_of_attr(l: Seq<ElementView>, key: Seq<char>, value: Seq<char>) -> Option<int>
    decreases l.len(),
{
    if l.len() == 0 {
        None
    } else if l[0].attribute(key) == Some(value) {
        Some(0)
    } else {
        match index_of_attr(l.drop_first(), key, value) {
            Some(i) => Some(i + 1),
            None => None,
        }
    }
}

/// A text without leading and trailing white space; `None` where nothing is left.
pub open spec fn trimmed_value(v: Option<Seq<char>>) -> Option<Seq<char>> {
    match v {
        Some(s) => if trim_spec(s).len() == 0 { None } else { Some(trim_spec(s)) },
        None => None,
    }
}

/// An element with the text of its first child tagged `name` set to `value`; where
/// there is no such child, with a new last child of that tag and text.
pub open spec fn with_value(e: ElementView, name: Seq<char>, value: Seq<char>) -> ElementView {
    match index_of_name(e.children, name) {
        Some(i) => ElementView {
            children: e.children.update(i, ElementView { value: Some(value), ..e.children[i] }),
            ..e
        },
        None => ElementView {
            children: e.children.push(
                ElementView {
                    name,
                    attributes: Seq::empty(),
                    value: Some(value),
                    children: Seq::empty(),
                },
            ),
            ..e
        },
    }
}

impl XmlElement {
    /// A text without leading and trailing white space; `None` where nothing is left.
    pub fn trim_value(value: Option<String>) -> (r: Option<String>)
        ensures
            text_view(r) == trimmed_value(text_view(value)),
    {
        match value {
            Some(v) => {
                let t = trim(v.as_str());
                if t.as_str().unicode_len() == 0 {
                    None
                } else {
                    Some(t)
                }
            },
            None => None,
        }
    }

    /// The items with the given tag: each child with that tag, and, for a child
    /// with another tag, its children with that tag; in document order.
    pub fn get_items(&self, name: &str) -> (r: Vec<XmlElement>)
        ensures
            elements_view(r@) == self@.items(name@),
    {
        let mut items: Vec<XmlElement> = Vec::new();
        let ghost l = self@.children;
        let mut i: usize = 0;
        while i < self.children.len()
            invariant
                i <= self.children.len(),
                l == self@.children,
                l.len() == self.children@.len(),
                elements_view(items@) == items_of(l.take(i as int), name@),
            decreases self.children.len() - i,
        {
            let child = &self.children[i];
            let ghost before = elements_view(items@);
            assert(l.take(i + 1).drop_last() =~= l.take(i as int));
            assert(l.take(i + 1).last() == child@);
            if str_eq(child.name.as_str(), name) {
                items.push(child.duplicate());
                assert(elements_view(items@) =~= before.push(child@));
            } else {
                let ghost g = child@.children;
                let mut k: usize = 0;
                while k < child.children.len()
                    invariant
                        k <= child.children.len(),
                        g == child@.children,
                        g.len() == child.children@.len(),
                        elements_view(items@) == before + named(g.take(k as int), name@),
                    decreases child.children.len() - k,
                {
                    let ghost mid = elements_view(items@);
                    let grandchild = &child.children[k];
                    assert(g.take(k + 1).drop_last() =~= g.take(k as int));
                    assert(g.take(k + 1).last() == grandchild@);
                    if str_eq(grandchild.name.as_str(), name) {
                        items.push(grandchild.duplicate());
                        assert(elements_view(items@) =~= mid.push(grandchild@));
                    }
                    k += 1;
                    assert(elements_view(items@) =~= before + named(g.take(k as int), name@));
                }
                assert(g.take(g.len() as int) =~= g);
            }
            i += 1;
        }
        assert(l.take(l.len() as int) =~= l);
        items
    }

    /// Sets the text of the first child tagged `name`; where there is none, adds
    /// such a child at the end.
    pub fn update_value(&mut self, name: &str, new_value: String)
        ensures
            final(self)@ == with_value(old(self)@, name@, new_value@),
    {
        match self.child_index(name) {
            Some(i) => {
                let ghost before = self@;
                let ghost kids = self.children@;
                let mut child = self.children.remove(i);
                assert(child@ == before.children[i as int]);
                let ghost c0 = child;
                child.value = Some(new_value);
                assert(child.name == c0.name && child.attributes == c0.attributes && child.children
                    == c0.children);
                assert(element_view(child) == (ElementView {
                    value: Some(new_value@),
                    ..element_view(c0)
                }));
                self.children.insert(i, child);
                assert(self.children@ =~= kids.update(i as int, child));
                assert(element_view(self.children@[i as int]) == (ElementView {
                    value: Some(new_value@),
                    ..before.children[i as int]
                }));
                assert forall|j: int| 0 <= j < kids.len() && j != i implies element_view(
                    self.children@[j],
                ) == before.children[j] by {
                    assert(self.children@[j] == kids[j]);
                }
                assert(self@.children =~= before.children.update(
                    i as int,
                    ElementView { value: Some(new_value@), ..before.children[i as int] },
                ));
                assert(self@.attributes == before.attributes);
            },
            None => {
                let ghost before = self@;
                let new_child = XmlElement {
                    name: name.to_owned(),
                    attributes: Vec::new(),
                    value: Some(new_value),
                    children: Vec::new(),
                };
                assert(new_child@.attributes =~= Seq::empty());
                assert(new_child@.children =~= Seq::empty());
                self.children.push(new_child);
                assert(self@.children =~= before.children.push(new_child@));
            },
        }
    }

    /// The first child that carries the attribute with the given value.
    pub fn find_child_by_attribute(&self, attribute: &str, value: &str) -> (r: Option<&XmlElement>)
        ensures
            r is Some == index_of_attr(self@.children, attribute@, value@) is Some,
            r is Some ==> r.unwrap()@ == self@.children[index_of_attr(
                self@.children,
                attribute@,
                value@,
            ).unwrap()],
            r is Some ==> exists|i: int|
                0 <= i < self.children@.len() && *r.unwrap() == #[trigger] self.children@[i],
    {
        let ghost l = self@.children;
        let mut i: usize = 0;
        assert(l.subrange(0, l.len() as int) =~= l);
        while i < self.children.len()
            invariant
                i <= self.children.len(),
                l == self@.children,
                l.len() == self.children@.len(),
                index_of_attr(l, attribute@, value@) == (match index_of_attr(
                    l.subrange(i as int, l.len() as int),
                    attribute@,
                    value@,
                ) {
                    Some(k) => Some(k + i),
                    None => None,
                }),
            decreases self.children.len() - i,
        {
            let ghost rest = l.subrange(i as int, l.len() as int);
            assert(rest[0] == element_view(self.children@[i as int]));
            let hit = match self.children[i].get_attribute(attribute) {
                Some(v) => str_eq(v.as_str(), value),
                None => false,
            };
            if hit {
                return Some(&self.children[i]);
            }
            assert(rest.drop_first() =~= l.subrange(i + 1, l.len() as int));
            i += 1;
        }
        None
    }
}

/// One node of the indexed forest: what its element held, and its place in the
/// forest.
#[derive(Debug)]
pub struct XmlNode {
    pub id: Option<String>,
    pub id_name: Option<String>,
    pub name: String,
    pub value: Option<String>,
    pub attributes: Vec<(String, String)>,
    pub parent: Option<usize>,
    pub children: Vec<usize>,
    pub depth: u32,
    pub path: String,
}

/// The forest of one schema document, its nodes in document order.
#[derive(Debug)]
pub struct XmlTree {
    pub nodes: Vec<XmlNode>,
    pub root: usize,
}

/// The region that a lookup falls back to.
pub open spec fn default_region() -> Seq<char> {
    "南网"@
}

/// Whether a node's `protocol` attribute admits the protocol asked for: a query
/// with a comma must equal the attribute as a whole, another must equal one of
/// its comma-separated entries; both up to the case of ASCII letters.
pub open spec fn protocol_matches(node_protocol: Option<Seq<char>>, protocol: Seq<char>) -> bool {
    match node_protocol {
        None => false,
        Some(p) => if protocol.contains(',') {
            eq_ignore_ascii_case_spec(p, protocol)
        } else {
            list_has_spec(p, protocol)
        },
    }
}

/// Whether a node's `region` attribute admits the region asked for, as for the
/// protocol. An entry for the default region admits no other region: a lookup
/// falls back to the default region only where the region asked for finds
/// nothing.
pub open spec fn region_matches(node_region: Option<Seq<char>>, region: Seq<char>) -> bool {
    match node_region {
        None => false,
        Some(r) => if region.contains(',') {
            eq_ignore_ascii_case_spec(r, region)
        } else {
            list_has_spec(r, region)
        },
    }
}

/// Whether a node's `dir` attribute admits the direction asked for: it does unless
/// both are given, the attribute is a number up to 255, and they differ.
pub open spec fn dir_matches(node_dir: Option<Seq<char>>, dir: Option<u8>) -> bool {
    match (dir, node_dir) {
        (Some(d), Some(t)) => match parse_bounded(t, 255) {
            Some(n) => n == d as nat,
            None => true,
        },
        _ => true,
    }
}

/// Whether attributes admit a query for protocol, region and direction.
pub open spec fn criteria_match(
    attrs: Seq<(Seq<char>, Seq<char>)>,
    protocol: Seq<char>,
    region: Seq<char>,
    dir: Option<u8>,
) -> bool {
    protocol_matches(attr_value(attrs, "protocol"@), protocol) && region_matches(
        attr_value(attrs, "region"@),
        region,
    ) && dir_matches(attr_value(attrs, "dir"@), dir)
}

/// The value of the first attribute with the given key.
pub fn find_attr<'a>(attrs: &'a Vec<(String, String)>, name: &str) -> (r: Option<&'a String>)
    ensures
        text_ref_view(r) == attr_value(attrs_view(attrs@), name@),
{
    let ghost l = attrs_view(attrs@);
    let mut i: usize = 0;
    assert(l.subrange(0, l.len() as int) =~= l);
    while i < attrs.len()
        invariant
            i <= attrs.len(),
            l == attrs_view(attrs@),
            attr_value(l, name@) == attr_value(l.subrange(i as int, l.len() as int), name@),
        decreases attrs.len() - i,
    {
        let ghost rest = l.subrange(i as int, l.len() as int);
        assert(rest[0] == (attrs@[i as int].0@, attrs@[i as int].1@));
        if str_eq(attrs[i].0.as_str(), name) {
            return Some(&attrs[i].1);
        }
        assert(rest.drop_first() =~= l.subrange(i + 1, l.len() as int));
        i += 1;
    }
    None
}

/// Whether attributes admit a query for protocol, region and direction.
pub fn attrs_match(attrs: &Vec<(String, String)>, protocol: &str, region: &str, dir: Option<u8>) -> (r:
    bool)
    ensures
        r == criteria_match(attrs_view(attrs@), protocol@, region@, dir),
{
    let protocol_match = match find_attr(attrs, "protocol") {
        None => false,
        Some(p) => if contains_char(protocol, ',') {
            eq_ignore_ascii_case(p.as_str(), protocol)
        } else {
            list_has(p.as_str(), protocol)
        },
    };
    if !protocol_match {
        return false;
    }
    let region_match = match find_attr(attrs, "region") {
        None => false,
        Some(r) => if contains_char(region, ',') {
            eq_ignore_ascii_case(r.as_str(), region)
        } else {
            list_has(r.as_str(), region)
        },
    };
    if !region_match {
        return false;
    }
    match dir {
        None => true,
        Some(d) => match find_attr(attrs, "dir") {
            None => true,
            Some(t) => match parse_u64_bounded(t.as_str(), 255) {
                Some(n) => n == d as u64,
                None => true,
            },
        },
    }
}

impl XmlTree {
    /// Whether the forest is well formed: every child comes after its parent, and
    /// every parent before its child.
    pub open spec fn wf(&self) -> bool {
        closed_from(self.nodes@, 0)
    }

    /// Whether the forest stands for a document: node 0 is the root, and the nodes
    /// are the elements of the document, one for one and in document order, each
    /// with the id that its element declares.
    pub open spec fn is_document(&self) -> bool {
        self.wf() && self.root == 0 && self.nodes@.len() > 0 && holds_flat(
            self.nodes@,
            0,
            flatten(node_element(self.nodes@, 0)),
        )
    }

    /// Whether node `i` carries the id and admits the query.
    pub open spec fn node_matches(
        &self,
        i: int,
        id: Seq<char>,
        protocol: Seq<char>,
        region: Seq<char>,
        dir: Option<u8>,
    ) -> bool {
        0 <= i < self.nodes@.len() && text_view(self.nodes@[i].id) == Some(id) && criteria_match(
            attrs_view(self.nodes@[i].attributes@),
            protocol,
            region,
            dir,
        )
    }

    /// The first node in document order that carries the id and admits the query.
    pub open spec fn first_match(
        &self,
        id: Seq<char>,
        protocol: Seq<char>,
        region: Seq<char>,
        dir: Option<u8>,
    ) -> Option<int> {
        if exists|i: int| self.node_matches(i, id, protocol, region, dir) {
            Some(
                choose|i: int|
                    self.node_matches(i, id, protocol, region, dir) && forall|j: int|
                        0 <= j < i ==> !self.node_matches(j, id, protocol, region, dir),
            )
        } else {
            None
        }
    }

    /// An empty forest.
    pub fn new() -> (r: Self)
        ensures
            r.nodes@.len() == 0,
            r.root == 0,
            r.wf(),
    {
        XmlTree { nodes: Vec::new(), root: 0 }
    }

    /// Adds a node at the end and returns its index.
    pub fn add_node(&mut self, node: XmlNode) -> (r: usize)
        ensures
            r == old(self).nodes@.len(),
            final(self).nodes@ == old(self).nodes@.push(node),
            final(self).root == old(self).root,
    {
        let index = self.nodes.len();
        self.nodes.push(node);
        index
    }

    /// The index of the first node in document order that carries the id and
    /// admits the query.
    pub fn find_index_by_id(&self, id: &str, protocol: &str, region: &str, dir: Option<u8>) -> (r:
        Option<usize>)
        ensures
            r is Some ==> self.node_matches(r.unwrap() as int, id@, protocol@, region@, dir),
            r is Some ==> forall|j: int|
                0 <= j < r.unwrap() ==> !self.node_matches(j, id@, protocol@, region@, dir),
            r is None ==> forall|j: int| !self.node_matches(j, id@, protocol@, region@, dir),
            r is Some == self.first_match(id@, protocol@, region@, dir) is Some,
            r is Some ==> r.unwrap() as int == self.first_match(id@, protocol@, region@, dir).unwrap(),
    {
        let mut i: usize = 0;
        while i < self.nodes.len()
            invariant
                i <= self.nodes.len(),
                forall|j: int| 0 <= j < i ==> !self.node_matches(j, id@, protocol@, region@, dir),
            decreases self.nodes.len() - i,
        {
            let node = &self.nodes[i];
            let id_hit = match &node.id {
                Some(s) => str_eq(s.as_str(), id),
                None => false,
            };
            if id_hit && attrs_match(&node.attributes, protocol, region, dir) {
                proof {
                    let m = self.first_match(id@, protocol@, region@, dir).unwrap();
                    assert(self.node_matches(i as int, id@, protocol@, region@, dir));
                    if m < i {
                        assert(!self.node_matches(m, id@, protocol@, region@, dir));
                    }
                    if m > i {
                    }
                }
                return Some(i);
            }
            i += 1;
        }
        None
    }

    /// The first node in document order that carries the id and admits the query.
    pub fn find_by_id(&self, id: &str, protocol: &str, region: &str, dir: Option<u8>) -> (r: Option<
        &XmlNode,
    >)
        ensures
            r is Some == self.first_match(id@, protocol@, region@, dir) is Some,
            r is Some ==> *r.unwrap() == self.nodes@[self.first_match(
                id@,
                protocol@,
                region@,
                dir,
            ).unwrap()],
            r is Some ==> self.node_matches(
                self.first_match(id@, protocol@, region@, dir).unwrap(),
                id@,
                protocol@,
                region@,
                dir,
            ),
            r is Some ==> text_view(r.unwrap().id) == Some(id@) && criteria_match(
                attrs_view(r.unwrap().attributes@),
                protocol@,
                region@,
                dir,
            ),
            r is Some ==> forall|j: int|
                0 <= j < self.first_match(id@, protocol@, region@, dir).unwrap()
                    ==> !self.node_matches(j, id@, protocol@, region@, dir),
            r is None ==> forall|j: int| !self.node_matches(j, id@, protocol@, region@, dir),
    {
        match self.find_index_by_id(id, protocol, region, dir) {
            Some(i) => Some(&self.nodes[i]),
            None => None,
        }
    }

    /// The chain of parents of node `i`, from `i` upwards.
    pub open spec fn ancestors(&self, i: int) -> Seq<int>
        decreases i,
    {
        if 0 <= i < self.nodes@.len() {
            match self.nodes@[i].parent {
                Some(p) => if p < i {
                    seq![i] + self.ancestors(p as int)
                } else {
                    seq![i]
                },
                None => seq![i],
            }
        } else {
            Seq::empty()
        }
    }

    /// The indices from the top of the forest down to node `index`.
    pub fn get_node_path(&self, index: usize) -> (r: Vec<usize>)
        requires
            index < self.nodes@.len(),
        ensures
            r@.len() == self.ancestors(index as int).len(),
            forall|k: int|
                0 <= k < r@.len() ==> #[trigger] r@[k] as int == self.ancestors(
                    index as int,
                ).reverse()[k],
    {
        let mut up: Vec<usize> = Vec::new();
        let mut current: usize = index;
        let ghost all = self.ancestors(index as int);
        assert(up@.map_values(|x: usize| x as int) + self.ancestors(current as int) =~= all);
        loop
            invariant_except_break
                current < self.nodes@.len(),
                up@.map_values(|x: usize| x as int) + self.ancestors(current as int) == all,
            invariant
                all == self.ancestors(index as int),
            ensures
                up@.map_values(|x: usize| x as int) == all,
            decreases current,
        {
            let ghost before = up@.map_values(|x: usize| x as int);
            up.push(current);
            assert(up@.map_values(|x: usize| x as int) =~= before.push(current as int));
            match self.nodes[current].parent {
                Some(p) => {
                    if p < current {
                        assert(before.push(current as int) + self.ancestors(p as int) =~= before
                            + (seq![current as int] + self.ancestors(p as int)));
                        current = p;
                    } else {
                        assert(before.push(current as int) =~= before + seq![current as int]);
                        break ;
                    }
                },
                None => {
                    assert(before.push(current as int) =~= before + seq![current as int]);
                    break ;
                },
            }
        }
        assert(up@.map_values(|x: usize| x as int) == all);
        let mut path: Vec<usize> = Vec::new();
        let mut i: usize = up.len();
        while i > 0
            invariant
                i <= up.len(),
                path@.len() == up.len() - i,
                forall|k: int| 0 <= k < path@.len() ==> #[trigger] path@[k] == up@[up.len() - 1 - k],
            decreases i,
        {
            path.push(up[i - 1]);
            i -= 1;
        }
        assert forall|k: int| 0 <= k < path@.len() implies #[trigger] path@[k] as int == all.reverse()[k] by {
            assert(all[all.len() - 1 - k] == up@[up.len() - 1 - k] as int);
        }
        path
    }

    /// The indices of the children of node `index`.
    pub fn get_children(&self, index: usize) -> (r: &Vec<usize>)
        requires
            index < self.nodes@.len(),
        ensures
            *r == self.nodes@[index as int].children,
    {
        &self.nodes[index].children
    }
}

/// An element without anything.
pub open spec fn empty_element() -> ElementView {
    ElementView {
        name: Seq::empty(),
        attributes: Seq::empty(),
        value: None,
        children: Seq::empty(),
    }
}

/// The element that node `idx` of a forest stands for: its tag and attributes, its
/// text trimmed, and the elements of its children.
pub open spec fn node_element(nodes: Seq<XmlNode>, idx: int) -> ElementView
    decreases nodes.len() - idx,
{
    if 0 <= idx < nodes.len() {
        let n = nodes[idx];
        ElementView {
            name: n.name@,
            attributes: attrs_view(n.attributes@),
            value: trimmed_value(text_view(n.value)),
            children: Seq::new(
                n.children@.len(),
                |k: int|
                    if 0 <= k < n.children@.len() && idx < n.children@[k] < nodes.len() {
                        node_element(nodes, n.children@[k] as int)
                    } else {
                        empty_element()
                    },
            ),
        }
    } else {
        empty_element()
    }
}

/// Attributes with `key` added at the end where it is missing and a value is
/// inherited.
pub open spec fn with_inherited(
    attrs: Seq<(Seq<char>, Seq<char>)>,
    key: Seq<char>,
    inherited: Option<Seq<char>>,
) -> Seq<(Seq<char>, Seq<char>)> {
    match (attr_value(attrs, key), inherited) {
        (None, Some(v)) => attrs.push((key, v)),
        _ => attrs,
    }
}

/// The value of an attribute, or else the inherited one.
pub open spec fn own_or(attrs: Seq<(Seq<char>, Seq<char>)>, key: Seq<char>, inherited: Option<
    Seq<char>,
>) -> Option<Seq<char>> {
    match attr_value(attrs, key) {
        Some(v) => Some(v),
        None => inherited,
    }
}

/// The attributes of an element once `protocol`, `region` and `dir` are inherited.
pub open spec fn inherited_attrs(
    attrs: Seq<(Seq<char>, Seq<char>)>,
    protocol: Option<Seq<char>>,
    region: Option<Seq<char>>,
    dir: Option<Seq<char>>,
) -> Seq<(Seq<char>, Seq<char>)> {
    with_inherited(
        with_inherited(with_inherited(attrs, "protocol"@, protocol), "region"@, region),
        "dir"@,
        dir,
    )
}

/// The elements of a list, each as the forest holds it.
pub open spec fn loaded_list(
    l: Seq<ElementView>,
    protocol: Option<Seq<char>>,
    region: Option<Seq<char>>,
    dir: Option<Seq<char>>,
) -> Seq<ElementView>
    decreases l,
{
    Seq::new(
        l.len(),
        |i: int| if 0 <= i < l.len() { loaded(l[i], protocol, region, dir) } else { empty_element() },
    )
}

/// An element as the forest holds it: `protocol`, `region` and `dir` inherited from
/// the nearest ancestor that declares them, and every text trimmed.
pub open spec fn loaded(
    e: ElementView,
    protocol: Option<Seq<char>>,
    region: Option<Seq<char>>,
    dir: Option<Seq<char>>,
) -> ElementView
    decreases e,
{
    ElementView {
        name: e.name,
        attributes: inherited_attrs(e.attributes, protocol, region, dir),
        value: trimmed_value(e.value),
        children: loaded_list(
            e.children,
            own_or(e.attributes, "protocol"@, protocol),
            own_or(e.attributes, "region"@, region),
            own_or(e.attributes, "dir"@, dir),
        ),
    }
}

/// The key under which a lookup result is cached.
pub open spec fn cache_key(id: Seq<char>, protocol: Seq<char>, region: Seq<char>, dir: Option<u8>) -> Seq<
    char,
> {
    let base = id.push(':') + protocol.push(':') + region;
    match dir {
        Some(d) => base.push(':') + dec_string(d as nat),
        None => base,
    }
}

/// The entries of a lookup cache, oldest first.
pub struct Cache {
    pub results: Vec<(String, Option<XmlElement>)>,
}

/// The content of an optional element.
pub open spec fn opt_element_view(o: Option<XmlElement>) -> Option<ElementView> {
    match o {
        Some(e) => Some(e@),
        None => None,
    }
}

/// What a cache holds under a key: the value of the newest entry with that key.
pub open spec fn cache_lookup(entries: Seq<(String, Option<XmlElement>)>, key: Seq<char>) -> Option<
    Option<ElementView>,
>
    decreases entries.len(),
{
    if entries.len() == 0 {
        None
    } else if entries.last().0@ == key {
        Some(opt_element_view(entries.last().1))
    } else {
        cache_lookup(entries.drop_last(), key)
    }
}

impl Cache {
    /// An empty cache.
    pub fn new() -> (r: Self)
        ensures
            r.results@.len() == 0,
    {
        Cache { results: Vec::new() }
    }

    /// What the cache holds under a key.
    pub open spec fn lookup(&self, key: Seq<char>) -> Option<Option<ElementView>> {
        cache_lookup(self.results@, key)
    }

    /// A copy of what the cache holds under a key.
    pub fn get(&self, key: &str) -> (r: Option<Option<XmlElement>>)
        ensures
            r is Some == self.lookup(key@) is Some,
            r is Some ==> opt_element_view(r.unwrap()) == self.lookup(key@).unwrap(),
    {
        let mut i: usize = self.results.len();
        assert(self.results@.take(i as int) =~= self.results@);
        while i > 0
            invariant
                i <= self.results.len(),
                cache_lookup(self.results@.take(i as int), key@) == self.lookup(key@),
            decreases i,
        {
            let entry = &self.results[i - 1];
            assert(self.results@.take(i as int).last() == *entry);
            if str_eq(entry.0.as_str(), key) {
                return Some(
                    match &entry.1 {
                        Some(e) => Some(e.duplicate()),
                        None => None,
                    },
                );
            }
            assert(self.results@.take(i as int).drop_last() =~= self.results@.take(i - 1));
            i -= 1;
        }
        None
    }

    /// Puts a value under a key; an older value under that key is hidden.
    pub fn insert(&mut self, key: String, value: Option<XmlElement>)
        ensures
            forall|k: Seq<char>|
                final(self).lookup(k) == if k == key@ {
                    Some(opt_element_view(value))
                } else {
                    old(self).lookup(k)
                },
    {
        self.results.push((key, value));
        assert forall|k: Seq<char>|
            self.lookup(k) == if k == key@ {
                Some(opt_element_view(value))
            } else {
                old(self).lookup(k)
            } by {
            assert(self.results@.drop_last() =~= old(self).results@);
        }
    }

    /// Forgets every entry.
    pub fn clear(&mut self)
        ensures
            final(self).results@.len() == 0,
    {
        self.results.clear();
    }
}

/// One entry of the list of all items of a schema.
#[derive(Debug)]
pub struct ItemConfigList {
    pub item: String,
    pub name: Option<String>,
    pub protocol: Option<String>,
    pub region: Option<String>,
    pub dir: Option<String>,
}

/// The schema of one protocol: its forest once loaded, and the cache of lookups.
pub struct QframeConfig {
    pub config: Option<XmlTree>,
    pub config_cache: Cache,
}

/// A copy of an optional borrowed text.
pub fn copy_text_ref(o: Option<&String>) -> (r: Option<String>)
    ensures
        text_view(r) == text_ref_view(o),
{
    match o {
        Some(s) => Some(s.clone()),
        None => None,
    }
}

/// The own value of an attribute, or else the inherited one.
pub fn own_or_inherited(attrs: &Vec<(String, String)>, key: &str, inherited: &Option<String>) -> (r:
    Option<String>)
    ensures
        text_view(r) == own_or(attrs_view(attrs@), key@, text_view(*inherited)),
{
    match find_attr(attrs, key) {
        Some(v) => Some(v.clone()),
        None => duplicate_text(inherited),
    }
}

/// Adds `key` at the end of the attributes where it is missing and a value is
/// inherited.
pub fn add_inherited(attrs: &mut Vec<(String, String)>, key: &str, inherited: &Option<String>)
    ensures
        attrs_view(final(attrs)@) == with_inherited(
            attrs_view(old(attrs)@),
            key@,
            text_view(*inherited),
        ),
{
    let present = find_attr(attrs, key).is_some();
    if !present {
        match inherited {
            Some(v) => {
                attrs.push((key.to_owned(), v.clone()));
                assert(attrs_view(attrs@) =~= attrs_view(old(attrs)@).push((key@, v@)));
            },
            None => {},
        }
    }
}

/// Whether the nodes from `lo` on keep their children behind them and within the
/// forest, and their parents before them.
pub open spec fn closed_from(nodes: Seq<XmlNode>, lo: int) -> bool {
    forall|j: int|
        lo <= j < nodes.len() ==> {
            &&& (#[trigger] nodes[j]).parent matches Some(p) ==> p < j
            &&& forall|k: int|
                0 <= k < nodes[j].children@.len() ==> j < #[trigger] nodes[j].children@[k]
                    < nodes.len()
        }
}

/// The element of a node depends only on the nodes from it on: two forests that
/// agree from `lo` up to the end of the first give the same element there.
pub proof fn lemma_node_element_frame(a: Seq<XmlNode>, b: Seq<XmlNode>, lo: int, idx: int)
    requires
        0 <= lo <= idx < a.len() <= b.len(),
        forall|j: int| lo <= j < a.len() ==> a[j] == b[j],
        closed_from(a, lo),
    ensures
        node_element(a, idx) == node_element(b, idx),
    decreases a.len() - idx,
{
    let n = a[idx];
    assert(b[idx] == n);
    assert forall|k: int| 0 <= k < n.children@.len() implies (if idx < n.children@[k] < a.len() {
        node_element(a, n.children@[k] as int)
    } else {
        empty_element()
    }) == (if idx < n.children@[k] < b.len() {
        node_element(b, n.children@[k] as int)
    } else {
        empty_element()
    }) by {
        let c = n.children@[k];
        assert(idx < c < a.len());
        lemma_node_element_frame(a, b, lo, c as int);
    }
    assert(node_element(a, idx).children =~= node_element(b, idx).children);
}

/// The path of child `i` below a node with path `path`.
pub fn child_path(path: &String, i: usize) -> (r: String)
    ensures
        r@ == if path@.len() == 0 {
            dec_string(i as nat)
        } else {
            path@.push('.') + dec_string(i as nat)
        },
{
    let mut out = String::new();
    if path.as_str().unicode_len() != 0 {
        push_str(&mut out, path.as_str());
        push_char(&mut out, '.');
    }
    push_dec(&mut out, i as u64);
    assert(out@ =~= if path@.len() == 0 {
        dec_string(i as nat)
    } else {
        path@.push('.') + dec_string(i as nat)
    });
    out
}

/// An element and all elements below it, in document order.
pub open spec fn flatten(e: ElementView) -> Seq<ElementView>
    decreases e, 0int,
{
    seq![e] + flatten_upto(e.children, e.children.len() as int)
}

/// The first `k` elements of a list, each with all elements below it, in document
/// order.
pub open spec fn flatten_upto(l: Seq<ElementView>, k: int) -> Seq<ElementView>
    decreases l, k,
{
    if k <= 0 || k > l.len() {
        Seq::empty()
    } else {
        flatten_upto(l, k - 1) + flatten(l[k - 1])
    }
}

/// Whether the nodes from `r` on stand for the elements of `flat`, one for one and
/// in order, each node with the id that its element declares.
pub open spec fn holds_flat(nodes: Seq<XmlNode>, r: int, flat: Seq<ElementView>) -> bool {
    nodes.len() == r + flat.len() && forall|j: int|
        0 <= j < flat.len() ==> node_element(nodes, r + j) == #[trigger] flat[j] && text_view(
            nodes[r + j].id,
        ) == flat[j].attribute("id"@)
}

/// Adds an element and all below it to the forest, in document order, and returns
/// the index of its node.
pub fn build_recursive(
    tree: &mut XmlTree,
    element: &XmlElement,
    parent: Option<usize>,
    depth: u32,
    path: String,
    inherited_protocol: &Option<String>,
    inherited_region: &Option<String>,
    inherited_dir: &Option<String>,
) -> (r: usize)
    requires
        parent matches Some(p) ==> p < old(tree).nodes@.len(),
    ensures
        r == old(tree).nodes@.len(),
        final(tree).nodes@.len() > r,
        final(tree).root == old(tree).root,
        forall|j: int| 0 <= j < r ==> final(tree).nodes@[j] == old(tree).nodes@[j],
        closed_from(final(tree).nodes@, r as int),
        final(tree).nodes@[r as int].parent == parent,
        node_element(final(tree).nodes@, r as int) == loaded(
            element@,
            text_view(*inherited_protocol),
            text_view(*inherited_region),
            text_view(*inherited_dir),
        ),
        holds_flat(
            final(tree).nodes@,
            r as int,
            flatten(
                loaded(
                    element@,
                    text_view(*inherited_protocol),
                    text_view(*inherited_region),
                    text_view(*inherited_dir),
                ),
            ),
        ),
    decreases element,
{
    let protocol = own_or_inherited(&element.attributes, "protocol", inherited_protocol);
    let region = own_or_inherited(&element.attributes, "region", inherited_region);
    let dir = own_or_inherited(&element.attributes, "dir", inherited_dir);
    let mut attributes = duplicate_attrs(&element.attributes);
    add_inherited(&mut attributes, "protocol", inherited_protocol);
    add_inherited(&mut attributes, "region", inherited_region);
    add_inherited(&mut attributes, "dir", inherited_dir);
    let ghost target = loaded(
        element@,
        text_view(*inherited_protocol),
        text_view(*inherited_region),
        text_view(*inherited_dir),
    );
    assert(attrs_view(attributes@) == target.attributes);
    let ghost lk = target.children;
    let node = XmlNode {
        id: copy_text_ref(find_attr(&attributes, "id")),
        id_name: element.get_child_text("name"),
        name: element.name.clone(),
        value: duplicate_text(&element.value),
        attributes,
        parent,
        children: Vec::new(),
        depth,
        path: path.clone(),
    };
    let ghost node0 = node;
    let node_index = tree.add_node(node);
    let child_depth: u32 = if depth < u32::MAX { depth + 1 } else { depth };
    let ghost kids = elements_view(element.children@);
    let mut i: usize = 0;
    while i < element.children.len()
        invariant
            i <= element.children.len(),
            node_index == old(tree).nodes@.len(),
            tree.nodes@.len() > node_index,
            tree.root == old(tree).root,
            forall|j: int| 0 <= j < node_index ==> tree.nodes@[j] == old(tree).nodes@[j],
            closed_from(tree.nodes@, node_index as int),
            tree.nodes@[node_index as int].name == node0.name,
            tree.nodes@[node_index as int].attributes == node0.attributes,
            tree.nodes@[node_index as int].value == node0.value,
            tree.nodes@[node_index as int].id == node0.id,
            tree.nodes@[node_index as int].parent == parent,
            tree.nodes@[node_index as int].children@.len() == i,
            kids == elements_view(element.children@),
            lk == loaded_list(kids, text_view(protocol), text_view(region), text_view(dir)),
            forall|m: int|
                0 <= m < i ==> node_element(
                    tree.nodes@,
                    #[trigger] tree.nodes@[node_index as int].children@[m] as int,
                ) == loaded(kids[m], text_view(protocol), text_view(region), text_view(dir)),
            holds_flat(tree.nodes@, node_index + 1, flatten_upto(lk, i as int)),
        decreases element.children.len() - i,
    {
        let ghost before = tree.nodes@;
        let ghost fk = flatten_upto(lk, i as int);
        let p = child_path(&path, i);
        let child_index = build_recursive(
            tree,
            &element.children[i],
            Some(node_index),
            child_depth,
            p,
            &protocol,
            &region,
            &dir,
        );
        let ghost mid = tree.nodes@;
        proof {
            assert(mid[node_index as int] == before[node_index as int]);
            assert forall|j: int| node_index <= j < mid.len() implies {
                &&& (#[trigger] mid[j]).parent matches Some(p) ==> p < j
                &&& forall|k: int|
                    0 <= k < mid[j].children@.len() ==> j < #[trigger] mid[j].children@[k]
                        < mid.len()
            } by {
                if j < before.len() {
                    assert(mid[j] == before[j]);
                }
            }
            assert forall|m: int| 0 <= m < i implies node_element(
                mid,
                #[trigger] mid[node_index as int].children@[m] as int,
            ) == loaded(kids[m], text_view(protocol), text_view(region), text_view(dir)) by {
                let c = before[node_index as int].children@[m];
                lemma_node_element_frame(before, mid, node_index as int, c as int);
            }
            let fc = flatten(lk[i as int]);
            let fnew = flatten_upto(lk, i + 1);
            assert(lk[i as int] == loaded(
                kids[i as int],
                text_view(protocol),
                text_view(region),
                text_view(dir),
            ));
            assert(fnew == fk + fc);
            assert forall|j: int| 0 <= j < fnew.len() implies node_element(mid, node_index + 1 + j)
                == #[trigger] fnew[j] && text_view(mid[node_index + 1 + j].id) == fnew[j].attribute(
                "id"@,
            ) by {
                if j < fk.len() {
                    assert(fnew[j] == fk[j]);
                    assert(mid[node_index + 1 + j] == before[node_index + 1 + j]);
                    lemma_node_element_frame(before, mid, node_index as int, node_index + 1 + j);
                } else {
                    assert(fnew[j] == fc[j - fk.len()]);
                    assert(node_index + 1 + j == child_index + (j - fk.len()));
                }
            }
            assert(holds_flat(mid, node_index + 1, fnew));
        }
        tree.nodes[node_index].children.push(child_index);
        proof {
            let after = tree.nodes@;
            assert(after.len() == mid.len());
            let fnew = flatten_upto(lk, i + 1);
            assert forall|j: int| 0 <= j < fnew.len() implies node_element(
                after,
                node_index + 1 + j,
            ) == #[trigger] fnew[j] && text_view(after[node_index + 1 + j].id) == fnew[j].attribute(
                "id"@,
            ) by {
                assert(after[node_index + 1 + j] == mid[node_index + 1 + j]);
                assert(closed_from(mid, node_index + 1));
                lemma_node_element_frame(mid, after, node_index + 1, node_index + 1 + j);
            }
            assert(holds_flat(after, node_index + 1, fnew));
            assert forall|j: int| node_index < j < mid.len() implies mid[j] == after[j] by {}
            assert(closed_from(mid, node_index + 1));
            assert forall|m: int| 0 <= m < i + 1 implies node_element(
                after,
                #[trigger] after[node_index as int].children@[m] as int,
            ) == loaded(kids[m], text_view(protocol), text_view(region), text_view(dir)) by {
                let c = after[node_index as int].children@[m];
                if m < i {
                    assert(c == mid[node_index as int].children@[m]);
                }
                lemma_node_element_frame(mid, after, node_index + 1, c as int);
                lemma_node_element_frame(after, mid, node_index + 1, c as int);
            }
            assert forall|j: int| node_index <= j < after.len() implies {
                &&& (#[trigger] after[j]).parent matches Some(p) ==> p < j
                &&& forall|k: int|
                    0 <= k < after[j].children@.len() ==> j < #[trigger] after[j].children@[k]
                        < after.len()
            } by {
                if j > node_index {
                    assert(after[j] == mid[j]);
                }
            }
        }
        i += 1;
    }
    proof {
        let got = node_element(tree.nodes@, node_index as int);
        assert(target.children.len() == kids.len());
        assert forall|k: int| 0 <= k < kids.len() implies got.children[k] == target.children[k] by {
            let c = tree.nodes@[node_index as int].children@[k];
            assert(node_index < c < tree.nodes@.len());
        }
        assert(got.children =~= target.children);
        assert(lk.len() == kids.len());
        let rest = flatten_upto(lk, lk.len() as int);
        let flat = flatten(target);
        assert(flat == seq![target] + rest);
        assert forall|j: int| 0 <= j < flat.len() implies node_element(
            tree.nodes@,
            node_index + j,
        ) == #[trigger] flat[j] && text_view(tree.nodes@[node_index + j].id) == flat[j].attribute(
            "id"@,
        ) by {
            if j > 0 {
                assert(flat[j] == rest[j - 1]);
                assert(node_index + j == node_index + 1 + (j - 1));
            }
        }
    }
    node_index
}

/// The element of one node, read back from the forest.
pub fn node_to_element(tree: &XmlTree, idx: usize) -> (r: XmlElement)
    requires
        tree.wf(),
        idx < tree.nodes@.len(),
    ensures
        r@ == node_element(tree.nodes@, idx as int),
    decreases tree.nodes@.len() - idx,
{
    let node = &tree.nodes[idx];
    let mut children: Vec<XmlElement> = Vec::new();
    let mut k: usize = 0;
    while k < node.children.len()
        invariant
            k <= node.children.len(),
            tree.wf(),
            idx < tree.nodes@.len(),
            *node == tree.nodes@[idx as int],
            children@.len() == k,
            forall|m: int|
                0 <= m < k ==> element_view(#[trigger] children@[m]) == node_element(
                    tree.nodes@,
                    node.children@[m] as int,
                ),
        decreases node.children.len() - k,
    {
        let c: usize = node.children[k];
        assert(idx < node.children@[k as int] < tree.nodes@.len());
        children.push(node_to_element(tree, c));
        k += 1;
    }
    let r = XmlElement {
        name: node.name.clone(),
        attributes: duplicate_attrs(&node.attributes),
        value: XmlElement::trim_value(duplicate_text(&node.value)),
        children,
    };
    assert(r@.children =~= node_element(tree.nodes@, idx as int).children);
    r
}

impl QframeConfig {
    /// A schema that is not loaded yet.
    pub fn new() -> (r: Self)
        ensures
            r.config is None,
            r.config_cache.results@.len() == 0,
            r.wf(),
    {
        QframeConfig { config: None, config_cache: Cache::new() }
    }

    /// Whether the forest, where one is loaded, is well formed.
    pub open spec fn wf(&self) -> bool {
        self.config matches Some(t) ==> t.wf()
    }

    /// The key under which a lookup result is cached.
    pub fn generate_cache_key(item_id: &str, protocol: &str, region: &str, dir: Option<u8>) -> (r:
        String)
        ensures
            r@ == cache_key(item_id@, protocol@, region@, dir),
    {
        let mut out = String::new();
        push_str(&mut out, item_id);
        push_char(&mut out, ':');
        push_str(&mut out, protocol);
        push_char(&mut out, ':');
        push_str(&mut out, region);
        match dir {
            Some(d) => {
                push_char(&mut out, ':');
                push_dec(&mut out, d as u64);
            },
            None => {},
        }
        assert(out@ =~= cache_key(item_id@, protocol@, region@, dir));
        out
    }

    /// The forest of a document: node 0 stands for the root element, with
    /// `protocol`, `region` and `dir` inherited downwards.
    pub fn build_tree(element: &XmlElement) -> (r: XmlTree)
        ensures
            r.wf(),
            r.root == 0,
            r.nodes@.len() > 0,
            node_element(r.nodes@, 0) == loaded(element@, None, None, None),
            r.is_document(),
    {
        let mut tree = XmlTree::new();
        let none: Option<String> = None;
        let root = build_recursive(&mut tree, element, None, 0, String::new(), &none, &none, &none);
        tree.root = root;
        tree
    }

    /// Loads a document: the forest is rebuilt from it and the cache is emptied.
    pub fn load_element(&mut self, root: &XmlElement)
        ensures
            final(self).wf(),
            final(self).config is Some,
            final(self).config.unwrap().root == 0,
            final(self).config.unwrap().nodes@.len() > 0,
            node_element(final(self).config.unwrap().nodes@, 0) == loaded(root@, None, None, None),
            final(self).config.unwrap().is_document(),
            final(self).config_cache.results@.len() == 0,
    {
        self.config = Some(Self::build_tree(root));
        self.config_cache.clear();
    }

    /// The item that a lookup resolves to: the element of the first node in
    /// document order that carries the id and admits protocol, region and
    /// direction; where the region asked for admits none, the same for the default
    /// region.
    pub open spec fn item(
        &self,
        id: Seq<char>,
        protocol: Seq<char>,
        region: Seq<char>,
        dir: Option<u8>,
    ) -> Option<ElementView> {
        match self.config {
            None => None,
            Some(t) => match t.first_match(id, protocol, region, dir) {
                Some(i) => Some(node_element(t.nodes@, i)),
                None => match t.first_match(id, protocol, default_region(), dir) {
                    Some(i) => Some(node_element(t.nodes@, i)),
                    None => None,
                },
            },
        }
    }

    /// Resolves an item without touching the cache.
    pub fn find_item(&self, item_id: &str, protocol: &str, region: &str, dir: Option<u8>) -> (r:
        Option<XmlElement>)
        requires
            self.wf(),
        ensures
            opt_element_view(r) == self.item(item_id@, protocol@, region@, dir),
    {
        proof {
            reveal_strlit("南网");
        }
        match &self.config {
            None => None,
            Some(tree) => {
                match tree.find_index_by_id(item_id, protocol, region, dir) {
                    Some(i) => Some(node_to_element(tree, i)),
                    None => match tree.find_index_by_id(item_id, protocol, "南网", dir) {
                        Some(i) => Some(node_to_element(tree, i)),
                        None => None,
                    },
                }
            },
        }
    }

    /// Resolves an item: what the cache holds under the key of the query, or else
    /// the item looked up, which is then cached where it was found.
    pub fn get_item(&mut self, item_id: &str, protocol: &str, region: &str, dir: Option<u8>) -> (r:
        Option<XmlElement>)
        requires
            old(self).wf(),
        ensures
            final(self).config == old(self).config,
            opt_element_view(r) == (match old(self).config_cache.lookup(
                cache_key(item_id@, protocol@, region@, dir),
            ) {
                Some(v) => v,
                None => old(self).item(item_id@, protocol@, region@, dir),
            }),
            old(self).config_cache.lookup(cache_key(item_id@, protocol@, region@, dir)) is None
                && r is Some ==> final(self).config_cache.lookup(
                cache_key(item_id@, protocol@, region@, dir),
            ) == Some(opt_element_view(r)),
            old(self).config_cache.lookup(cache_key(item_id@, protocol@, region@, dir)) is Some
                || r is None ==> final(self).config_cache == old(self).config_cache,
    {
        let key = Self::generate_cache_key(item_id, protocol, region, dir);
        match self.config_cache.get(key.as_str()) {
            Some(cached) => cached,
            None => {
                let found = self.find_item(item_id, protocol, region, dir);
                match &found {
                    Some(e) => {
                        self.config_cache.insert(key, Some(e.duplicate()));
                    },
                    None => {},
                }
                found
            },
        }
    }

    /// The forest, where one is loaded.
    pub fn get_config(&self) -> (r: &Option<XmlTree>)
        ensures
            *r == self.config,
    {
        &self.config
    }
}

/// The schemas of the five protocols.
pub struct ProtocolConfigManager {
    pub csg13: QframeConfig,
    pub dlt645: QframeConfig,
    pub csg16: QframeConfig,
    pub moudle: QframeConfig,
    pub ms: QframeConfig,
}

/// The schema that an upper-case protocol name selects, by the first of the marks
/// `CSG13`, `DLT/645`, `CSG16`, `MOUDLE`, `MS` that it holds: 0 to 4 in that order.
pub open spec fn select_schema(p: Seq<char>) -> Option<int> {
    if contains_spec(p, "CSG13"@) {
        Some(0)
    } else if contains_spec(p, "DLT/645"@) {
        Some(1)
    } else if contains_spec(p, "CSG16"@) {
        Some(2)
    } else if contains_spec(p, "MOUDLE"@) {
        Some(3)
    } else if contains_spec(p, "MS"@) {
        Some(4)
    } else {
        None
    }
}

/// The schema that an upper-case protocol name selects.
pub fn select_schema_of(p: &str) -> (r: Option<u8>)
    ensures
        r is Some == select_schema(p@) is Some,
        r is Some ==> r.unwrap() as int == select_schema(p@).unwrap() && r.unwrap() < 5,
{
    if contains_str(p, "CSG13") {
        Some(0)
    } else if contains_str(p, "DLT/645") {
        Some(1)
    } else if contains_str(p, "CSG16") {
        Some(2)
    } else if contains_str(p, "MOUDLE") {
        Some(3)
    } else if contains_str(p, "MS") {
        Some(4)
    } else {
        None
    }
}

impl ProtocolConfigManager {
    /// A repository with no schema loaded.
    pub fn new() -> (r: Self)
        ensures
            r.wf(),
            r.csg13.config is None,
            r.dlt645.config is None,
            r.csg16.config is None,
            r.moudle.config is None,
            r.ms.config is None,
    {
        reveal(ProtocolConfigManager::wf);
        ProtocolConfigManager {
            csg13: QframeConfig::new(),
            dlt645: QframeConfig::new(),
            csg16: QframeConfig::new(),
            moudle: QframeConfig::new(),
            ms: QframeConfig::new(),
        }
    }

    /// Whether every schema is well formed.
    #[verifier::opaque]
    pub open spec fn wf(&self) -> bool {
        self.csg13.wf() && self.dlt645.wf() && self.csg16.wf() && self.moudle.wf() && self.ms.wf()
    }

    /// The schema with the given number.
    pub open spec fn schema(&self, k: int) -> QframeConfig {
        if k == 0 {
            self.csg13
        } else if k == 1 {
            self.dlt645
        } else if k == 2 {
            self.csg16
        } else if k == 3 {
            self.moudle
        } else {
            self.ms
        }
    }

    /// The schema with the given number.
    pub fn schema_of(&self, k: u8) -> (r: &QframeConfig)
        requires
            self.wf(),
        ensures
            *r == self.schema(k as int),
            r.wf(),
    {
        reveal(ProtocolConfigManager::wf);
        if k == 0 {
            &self.csg13
        } else if k == 1 {
            &self.dlt645
        } else if k == 2 {
            &self.csg16
        } else if k == 3 {
            &self.moudle
        } else {
            &self.ms
        }
    }

    /// The item that the schema selected by `selector` resolves the query to.
    pub open spec fn item_in(
        &self,
        selector: Seq<char>,
        id: Seq<char>,
        protocol: Seq<char>,
        region: Seq<char>,
        dir: Option<u8>,
    ) -> Option<ElementView> {
        match select_schema(selector) {
            Some(k) => self.schema(k).item(id, protocol, region, dir),
            None => None,
        }
    }

    /// The first item that the entries of a comma-separated protocol list from
    /// `start` on resolve the query to, each entry trimmed and selecting a schema.
    pub open spec fn first_in_list(
        &self,
        list: Seq<char>,
        start: int,
        id: Seq<char>,
        protocol: Seq<char>,
        region: Seq<char>,
        dir: Option<u8>,
    ) -> Option<ElementView>
        decreases list.len() - start,
    {
        let end = next_sep(list, ',', start);
        if start < 0 || start > list.len() || end < start {
            None
        } else {
            match self.item_in(trim_range(list, start, end), id, protocol, region, dir) {
                Some(e) => Some(e),
                None => if end < list.len() {
                    self.first_in_list(list, end + 1, id, protocol, region, dir)
                } else {
                    None
                },
            }
        }
    }

    /// The item that an id resolves to under a protocol, a region and a direction.
    /// The protocol name in upper case selects the schema; a name with commas is a
    /// list whose entries are tried in order.
    pub open spec fn config_xml(
        &self,
        id: Seq<char>,
        protocol: Seq<char>,
        region: Seq<char>,
        dir: Option<u8>,
    ) -> Option<ElementView> {
        let up = uppercase_of(protocol);
        if up.contains(',') {
            self.first_in_list(up, 0, id, protocol, region, dir)
        } else {
            self.item_in(up, id, up, region, dir)
        }
    }

    /// The template that a name resolves to: as an item, but the protocol name is
    /// never read as a list.
    pub open spec fn template(
        &self,
        name: Seq<char>,
        protocol: Seq<char>,
        region: Seq<char>,
        dir: Option<u8>,
    ) -> Option<ElementView> {
        let up = uppercase_of(protocol);
        self.item_in(up, name, up, region, dir)
    }

    /// Resolves in the schema that `selector` selects.
    pub fn get_item_in(
        &self,
        selector: &str,
        id: &str,
        protocol: &str,
        region: &str,
        dir: Option<u8>,
    ) -> (r: Option<XmlElement>)
        requires
            self.wf(),
        ensures
            opt_element_view(r) == self.item_in(selector@, id@, protocol@, region@, dir),
    {
        match select_schema_of(selector) {
            Some(k) => self.schema_of(k).find_item(id, protocol, region, dir),
            None => None,
        }
    }

    /// The item that an id resolves to under a protocol, a region and a direction.
    pub fn get_config_xml(&self, data_item_id: &str, protocol: &str, region: &str, dir: Option<u8>) -> (r:
        Option<XmlElement>)
        requires
            self.wf(),
        ensures
            opt_element_view(r) == self.config_xml(data_item_id@, protocol@, region@, dir),
    {
        let find_protocol = upper(protocol);
        if contains_char(find_protocol.as_str(), ',') {
            let v = to_chars(find_protocol.as_str());
            let mut start: usize = 0;
            loop
                invariant
                    self.wf(),
                    v@ == uppercase_of(protocol@),
                    start <= v.len(),
                    self.first_in_list(v@, start as int, data_item_id@, protocol@, region@, dir)
                        == self.config_xml(data_item_id@, protocol@, region@, dir),
                decreases v.len() - start,
            {
                let mut end: usize = start;
                while end < v.len() && v[end] != ','
                    invariant
                        start <= end <= v.len(),
                        next_sep(v@, ',', end as int) == next_sep(v@, ',', start as int),
                    decreases v.len() - end,
                {
                    end += 1;
                }
                let (a, b) = trim_bounds(&v, start, end);
                let piece = chars_to_string(&v, a, b);
                let found = self.get_item_in(piece.as_str(), data_item_id, protocol, region, dir);
                if found.is_some() {
                    return found;
                }
                if end < v.len() {
                    start = end + 1;
                } else {
                    return None;
                }
            }
        } else {
            self.get_item_in(
                find_protocol.as_str(),
                data_item_id,
                find_protocol.as_str(),
                region,
                dir,
            )
        }
    }

    /// The template that a name resolves to.
    pub fn get_template_element(&self, template: &str, protocol: &str, region: &str, dir: Option<u8>) -> (r:
        Option<XmlElement>)
        requires
            self.wf(),
        ensures
            opt_element_view(r) == self.template(template@, protocol@, region@, dir),
    {
        let find_protocol = upper(protocol);
        self.get_item_in(find_protocol.as_str(), template, find_protocol.as_str(), region, dir)
    }

    /// Checks that an element can be updated under an item: the direction that
    /// the element declares must be a number up to 255, and the item must resolve
    /// under the element's region, or the default region where it declares none.
    pub fn update_element(&self, item: &String, protocol: &str, element: &XmlElement) -> (r: Result<
        (),
        CustomError,
    >)
        requires
            self.wf(),
        ensures
            r is Ok == ({
                let region = match element@.attribute("region"@) {
                    Some(x) => x,
                    None => default_region(),
                };
                match element@.attribute("dir"@) {
                    Some(d) => parse_bounded(d, 255) is Some && self.config_xml(
                        item@,
                        protocol@,
                        region,
                        Some(parse_bounded(d, 255).unwrap() as u8),
                    ) is Some,
                    None => self.config_xml(item@, protocol@, region, None) is Some,
                }
            }),
    {
        proof {
            reveal_strlit("南网");
        }
        let dir: Option<u8> = match element.get_attribute("dir") {
            Some(d) => match parse_u64_bounded(d.as_str(), 255) {
                Some(n) => Some(n as u8),
                None => {
                    return Err(CustomError::new(2, "Invalid direction".to_owned()));
                },
            },
            None => None,
        };
        let found = match element.get_attribute("region") {
            Some(region) => self.get_config_xml(item.as_str(), protocol, region.as_str(), dir),
            None => self.get_config_xml(item.as_str(), protocol, "南网", dir),
        };
        if found.is_some() {
            Ok(())
        } else {
            Err(CustomError::new(3, "Element not found".to_owned()))
        }
    }
}

/// The text of the first child tagged `name`.
pub open spec fn name_node_value(e: ElementView) -> Option<Seq<char>> {
    e.child_text("name"@)
}

/// Whether two elements have the same tag and the same name, both being named.
pub open spec fn matching_structure(a: ElementView, b: ElementView) -> bool {
    a.name == b.name && name_node_value(a) is Some && name_node_value(a) == name_node_value(b)
}

/// The position of the first element from `i` on with the structure of `n`.
pub open spec fn index_of_structure(l: Seq<ElementView>, n: ElementView, i: int) -> Option<int>
    decreases l.len() - i,
{
    if i < 0 || i >= l.len() {
        None
    } else if matching_structure(l[i], n) {
        Some(i)
    } else {
        index_of_structure(l, n, i + 1)
    }
}

/// The children from `i` on with the first of them that can take the update
/// updated; `None` where none of them can.
pub open spec fn updated_in(children: Seq<ElementView>, n: ElementView, i: int) -> Option<
    Seq<ElementView>,
>
    decreases children, children.len() - i,
{
    if i < 0 || i >= children.len() {
        None
    } else {
        match child_updated(children[i], n) {
            Some(c) => Some(children.update(i, c)),
            None => updated_in(children, n, i + 1),
        }
    }
}

/// An element with the first child that has the structure of `n` replaced by `n`
/// under the child's own attributes; where no child has it, with the first child
/// updated that can take the update in turn; `None` where nothing can.
pub open spec fn child_updated(e: ElementView, n: ElementView) -> Option<ElementView>
    decreases e, 0nat,
{
    match index_of_structure(e.children, n, 0) {
        Some(i) => if 0 <= i < e.children.len() {
            Some(
                ElementView {
                    children: e.children.update(
                        i,
                        ElementView { attributes: e.children[i].attributes, ..n },
                    ),
                    ..e
                },
            )
        } else {
            None
        },
        None => match updated_in(e.children, n, 0) {
            Some(cs) => Some(ElementView { children: cs, ..e }),
            None => None,
        },
    }
}

impl XmlElement {
    /// The text of the first child tagged `name`.
    pub fn get_name_node_value(&self) -> (r: Option<String>)
        ensures
            text_view(r) == name_node_value(self@),
    {
        self.get_child_text("name")
    }

    /// Whether this element and another have the same tag and the same name.
    pub fn is_matching_structure(&self, other: &XmlElement) -> (r: bool)
        ensures
            r == matching_structure(self@, other@),
    {
        if !str_eq(self.name.as_str(), other.name.as_str()) {
            return false;
        }
        match (self.get_name_node_value(), other.get_name_node_value()) {
            (Some(a), Some(b)) => str_eq(a.as_str(), b.as_str()),
            _ => false,
        }
    }

    /// Puts `new_child` in the place of the first element below this one that has
    /// its structure, under the attributes of the element replaced: a child
    /// first, else below the children in order. Tells whether a place was found.
    pub fn update_child(&mut self, new_child: &XmlElement) -> (r: bool)
        ensures
            r == child_updated(old(self)@, new_child@) is Some,
            r ==> final(self)@ == child_updated(old(self)@, new_child@).unwrap(),
            !r ==> final(self)@ == old(self)@,
    {
        let mut taken = XmlElement {
            name: String::new(),
            attributes: Vec::new(),
            value: None,
            children: Vec::new(),
        };
        std::mem::swap(self, &mut taken);
        let (result, done) = with_updated_child(taken, new_child);
        *self = result;
        done
    }
}

/// An element with `new_child` in the place of the first element below it that has
/// its structure, and whether a place was found.
pub fn with_updated_child(elem: XmlElement, new_child: &XmlElement) -> (r: (XmlElement, bool))
    ensures
        r.1 == child_updated(elem@, new_child@) is Some,
        r.1 ==> r.0@ == child_updated(elem@, new_child@).unwrap(),
        !r.1 ==> r.0@ == elem@,
    decreases elem,
{
    let ghost e0 = elem@;
    let ghost kids0 = elem.children@;
    let mut e = XmlElement {
        name: elem.name,
        attributes: elem.attributes,
        value: elem.value,
        children: elem.children,
    };
    let mut i: usize = 0;
    while i < e.children.len()
        invariant
            i <= e.children.len(),
            e0 == e@,
            e0 == elem@,
            kids0 == e.children@,
            index_of_structure(e0.children, new_child@, i as int) == index_of_structure(
                e0.children,
                new_child@,
                0,
            ),
        decreases e.children.len() - i,
    {
        assert(e0.children[i as int] == element_view(e.children@[i as int]));
        if e.children[i].is_matching_structure(new_child) {
            let old_child = e.children.remove(i);
            let mut fresh = new_child.duplicate();
            fresh.attributes = old_child.attributes;
            let ghost f = fresh;
            e.children.insert(i, fresh);
            proof {
                assert(e.children@ =~= kids0.update(i as int, f));
                assert(element_view(f) == (ElementView {
                    attributes: e0.children[i as int].attributes,
                    ..new_child@
                }));
                assert forall|j: int| 0 <= j < kids0.len() && j != i implies element_view(
                    e.children@[j],
                ) == e0.children[j] by {
                    assert(e.children@[j] == kids0[j]);
                }
                assert(e@.children =~= e0.children.update(
                    i as int,
                    ElementView { attributes: e0.children[i as int].attributes, ..new_child@ },
                ));
            }
            return (e, true);
        }
        i += 1;
    }
    let mut k: usize = 0;
    while k < e.children.len()
        invariant
            k <= e.children.len(),
            e0 == e@,
            e0 == elem@,
            kids0 == elem.children@,
            kids0.len() == e.children@.len(),
            forall|j: int| k <= j < kids0.len() ==> e.children@[j] == kids0[j],
            index_of_structure(e0.children, new_child@, 0) is None,
            updated_in(e0.children, new_child@, k as int) == updated_in(e0.children, new_child@, 0),
        decreases e.children.len() - k,
    {
        let ghost kids = e.children@;
        assert(e0.children[k as int] == element_view(kids[k as int]));
        let child = e.children.remove(k);
        assert(child == kids0[k as int]);
        let (c, done) = with_updated_child(child, new_child);
        let ghost cg = c;
        e.children.insert(k, c);
        proof {
            assert(e.children@ =~= kids.update(k as int, cg));
            assert forall|j: int| 0 <= j < kids.len() && j != k implies element_view(
                e.children@[j],
            ) == e0.children[j] by {
                assert(e.children@[j] == kids[j]);
            }
        }
        if done {
            assert(e@.children =~= e0.children.update(k as int, element_view(cg)));
            return (e, true);
        }
        assert(e@.children =~= e0.children);
        k += 1;
    }
    (e, false)
}

/// Whether the listing of all items reaches node `i`: the root, and every node
/// with an id below a node that the listing reaches.
pub open spec fn listing_reaches(nodes: Seq<XmlNode>, root: int, i: int) -> bool
    decreases i,
{
    0 <= i < nodes.len() && (i == root || (nodes[i].id is Some && (match nodes[i].parent {
        Some(p) => p < i && listing_reaches(nodes, root, p as int),
        None => false,
    })))
}

/// The value of an attribute of a node, or else of its parent.
pub open spec fn own_or_parent(nodes: Seq<XmlNode>, i: int, key: Seq<char>) -> Option<Seq<char>> {
    match attr_value(attrs_view(nodes[i].attributes@), key) {
        Some(v) => Some(v),
        None => match nodes[i].parent {
            Some(p) => if p < nodes.len() {
                attr_value(attrs_view(nodes[p as int].attributes@), key)
            } else {
                None
            },
            None => None,
        },
    }
}

/// The content of one listed item.
pub struct ItemView {
    pub item: Seq<char>,
    pub name: Option<Seq<char>>,
    pub protocol: Option<Seq<char>>,
    pub region: Option<Seq<char>>,
    pub dir: Option<Seq<char>>,
}

/// The content of a listed item.
pub open spec fn item_view(e: ItemConfigList) -> ItemView {
    ItemView {
        item: e.item@,
        name: text_view(e.name),
        protocol: text_view(e.protocol),
        region: text_view(e.region),
        dir: text_view(e.dir),
    }
}

/// The items among the first `k` nodes that the listing reaches and that have an
/// id, in document order.
pub open spec fn listed_items(nodes: Seq<XmlNode>, root: int, k: int) -> Seq<ItemView>
    decreases k,
{
    if k <= 0 {
        Seq::empty()
    } else {
        let before = listed_items(nodes, root, k - 1);
        if k - 1 < nodes.len() && listing_reaches(nodes, root, k - 1) && nodes[k - 1].id is Some {
            before.push(
                ItemView {
                    item: nodes[k - 1].id.unwrap()@,
                    name: text_view(nodes[k - 1].id_name),
                    protocol: own_or_parent(nodes, k - 1, "protocol"@),
                    region: own_or_parent(nodes, k - 1, "region"@),
                    dir: own_or_parent(nodes, k - 1, "dir"@),
                },
            )
        } else {
            before
        }
    }
}

/// The value of an attribute of a node, or else of its parent.
pub fn own_or_parent_of(tree: &XmlTree, i: usize, key: &str) -> (r: Option<String>)
    requires
        i < tree.nodes@.len(),
    ensures
        text_view(r) == own_or_parent(tree.nodes@, i as int, key@),
{
    match find_attr(&tree.nodes[i].attributes, key) {
        Some(v) => Some(v.clone()),
        None => match tree.nodes[i].parent {
            Some(p) => if p < tree.nodes.len() {
                copy_text_ref(find_attr(&tree.nodes[p].attributes, key))
            } else {
                None
            },
            None => None,
        },
    }
}

impl QframeConfig {
    /// The items of the schema: every node with an id that the listing reaches
    /// from the root through nodes with an id, in document order, each with its
    /// name and with the protocol, region and direction that it or its parent
    /// declares.
    pub fn get_all_item(&self) -> (r: Vec<ItemConfigList>)
        ensures
            self.config is None ==> r@.len() == 0,
            self.config matches Some(t) ==> r@.len() == listed_items(
                t.nodes@,
                t.root as int,
                t.nodes@.len() as int,
            ).len() && forall|j: int|
                0 <= j < r@.len() ==> item_view(#[trigger] r@[j]) == listed_items(
                    t.nodes@,
                    t.root as int,
                    t.nodes@.len() as int,
                )[j],
    {
        let mut result: Vec<ItemConfigList> = Vec::new();
        match &self.config {
            None => {},
            Some(tree) => {
                let mut flags: Vec<bool> = Vec::new();
                let mut i: usize = 0;
                while i < tree.nodes.len()
                    invariant
                        i <= tree.nodes.len(),
                        flags@.len() == i,
                        forall|j: int|
                            0 <= j < i ==> #[trigger] flags@[j] == listing_reaches(
                                tree.nodes@,
                                tree.root as int,
                                j,
                            ),
                        result@.len() == listed_items(
                            tree.nodes@,
                            tree.root as int,
                            i as int,
                        ).len(),
                        forall|j: int|
                            0 <= j < result@.len() ==> item_view(#[trigger] result@[j])
                                == listed_items(tree.nodes@, tree.root as int, i as int)[j],
                    decreases tree.nodes.len() - i,
                {
                    let node = &tree.nodes[i];
                    let reach = i == tree.root || (node.id.is_some() && match node.parent {
                        Some(p) => p < i && flags[p],
                        None => false,
                    });
                    flags.push(reach);
                    if reach {
                        match &node.id {
                            Some(id) => {
                                result.push(
                                    ItemConfigList {
                                        item: id.clone(),
                                        name: duplicate_text(&node.id_name),
                                        protocol: own_or_parent_of(tree, i, "protocol"),
                                        region: own_or_parent_of(tree, i, "region"),
                                        dir: own_or_parent_of(tree, i, "dir"),
                                    },
                                );
                            },
                            None => {},
                        }
                    }
                    i += 1;
                }
            },
        }
        result
    }
}

/// Whether an element declares the id and admits a query for protocol, region and
/// direction.
pub open spec fn element_matches(
    e: ElementView,
    id: Seq<char>,
    protocol: Seq<char>,
    region: Seq<char>,
    dir: Option<u8>,
) -> bool {
    e.attribute("id"@) == Some(id) && criteria_match(e.attributes, protocol, region, dir)
}

/// In a forest that stands for a document, a lookup reads the document: node `i`
/// is element `i` of the document in document order, and it carries an id and
/// admits a query exactly where that element declares the id and admits the
/// query. So the item that an id resolves to is the first such element of the
/// document.
pub proof fn lemma_lookup_reads_the_document(
    tree: XmlTree,
    i: int,
    id: Seq<char>,
    protocol: Seq<char>,
    region: Seq<char>,
    dir: Option<u8>,
)
    requires
        tree.is_document(),
    ensures
        flatten(node_element(tree.nodes@, 0)).len() == tree.nodes@.len(),
        0 <= i < tree.nodes@.len() ==> node_element(tree.nodes@, i) == flatten(
            node_element(tree.nodes@, 0),
        )[i],
        tree.node_matches(i, id, protocol, region, dir) == (0 <= i < tree.nodes@.len()
            && element_matches(
            flatten(node_element(tree.nodes@, 0))[i],
            id,
            protocol,
            region,
            dir,
        )),
{
    let flat = flatten(node_element(tree.nodes@, 0));
    if 0 <= i < tree.nodes@.len() {
        assert(node_element(tree.nodes@, 0 + i) == flat[i]);
    }
}

/// Where a node carries an id and admits a query, a first such node exists.
pub proof fn lemma_first_match_exists(
    tree: XmlTree,
    i: int,
    id: Seq<char>,
    protocol: Seq<char>,
    region: Seq<char>,
    dir: Option<u8>,
)
    requires
        tree.node_matches(i, id, protocol, region, dir),
    ensures
        tree.first_match(id, protocol, region, dir) is Some,
        tree.node_matches(
            tree.first_match(id, protocol, region, dir).unwrap(),
            id,
            protocol,
            region,
            dir,
        ),
        tree.first_match(id, protocol, region, dir).unwrap() <= i,
        forall|j: int|
            0 <= j < tree.first_match(id, protocol, region, dir).unwrap() ==> !tree.node_matches(
                j,
                id,
                protocol,
                region,
                dir,
            ),
    decreases i,
{
    if exists|j: int| 0 <= j < i && tree.node_matches(j, id, protocol, region, dir) {
        let j = choose|j: int| 0 <= j < i && tree.node_matches(j, id, protocol, region, dir);
        lemma_first_match_exists(tree, j, id, protocol, region, dir);
    } else {
        assert(tree.node_matches(i, id, protocol, region, dir) && forall|j: int|
            0 <= j < i ==> !tree.node_matches(j, id, protocol, region, dir));
        let m = tree.first_match(id, protocol, region, dir).unwrap();
        if m > i {
            assert(!tree.node_matches(i, id, protocol, region, dir));
        }
    }
}

/// A lookup falls back to the default region only where the region asked for
/// finds nothing. Where a node carries the id and admits the protocol, the
/// region asked for and the direction, the item is the element of the first
/// such node in document order, whatever nodes of the default region stand
/// before it. Where no node does, the item is that of the same lookup for the
/// default region.
pub proof fn lemma_region_before_default(
    config: QframeConfig,
    id: Seq<char>,
    protocol: Seq<char>,
    region: Seq<char>,
    dir: Option<u8>,
)
    requires
        config.config is Some,
    ensures
        ({
            let tree = config.config.unwrap();
            &&& (exists|i: int| tree.node_matches(i, id, protocol, region, dir)) ==> ({
                let m = tree.first_match(id, protocol, region, dir).unwrap();
                &&& tree.first_match(id, protocol, region, dir) is Some
                &&& config.item(id, protocol, region, dir) == Some(node_element(tree.nodes@, m))
                &&& tree.node_matches(m, id, protocol, region, dir)
                &&& region_matches(
                    attr_value(attrs_view(tree.nodes@[m].attributes@), "region"@),
                    region,
                )
                &&& forall|j: int| 0 <= j < m ==> !tree.node_matches(j, id, protocol, region, dir)
            })
            &&& (forall|i: int| !tree.node_matches(i, id, protocol, region, dir)) ==> config.item(
                id,
                protocol,
                region,
                dir,
            ) == config.item(id, protocol, default_region(), dir)
        }),
{
    let tree = config.config.unwrap();
    if exists|i: int| tree.node_matches(i, id, protocol, region, dir) {
        let i = choose|i: int| tree.node_matches(i, id, protocol, region, dir);
        lemma_first_match_exists(tree, i, id, protocol, region, dir);
    }
}

} // verus!
