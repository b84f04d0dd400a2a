//! Loading a schema document: the events of an XML reader build the element tree
//! that the forest is made from.

use vstd::prelude::*;
use vstd::string::*;
use crate::frame_err::CustomError;
use crate::text::{contains_spec, contains_str, str_eq, upper, uppercase_of};
use crate::xmlconfig::{
    attrs_view, elements_view, empty_element, loaded, node_element, text_view, ElementView,
    ProtocolConfigManager, QframeConfig, XmlElement,
};

verus! {

/// The reader of the `quick_xml` crate, `quick_xml::Reader`, known by name only.
#[verifier::external_type_specification]
#[verifier::external_body]
#[verifier::reject_recursive_types(R)]
pub struct ExReader<R>(quick_xml::Reader<R>);

/// The event of the `quick_xml` crate, `quick_xml::events::Event`, known by name
/// only.
#[verifier::external_type_specification]
#[verifier::external_body]
pub struct ExEvent<'a>(quick_xml::events::Event<'a>);

/// What one reading of a document gives: an event, a text that cannot be
/// unescaped, no event because the document cannot be read there, or the end of
/// the document.
pub enum Reading {
    Event(EventView),
    BadText,
    Unreadable,
    Finished,
}

/// What the reading numbered `k`, counted from zero, of a document with the
/// given text gives, as the `quick_xml` crate reads it: the event that
/// `Reader::read_event` gives at its call with that number on a reader that
/// `Reader::from_str` made over the text, with the tag, the attributes and the
/// text that the crate hands out for it.
pub uninterp spec fn document_event(text: Seq<char>, k: nat) -> Reading;

/// What the reading numbered `k`, counted from zero, of those that a reader has
/// yet to give will give.
pub uninterp spec fn pending_event(reader: quick_xml::Reader<&[u8]>, k: nat) -> Reading;

/// Which variant an event is: 0 for a start tag, 1 for text, 2 for an end tag, 3
/// for the end of the document, 4 for any other.
pub uninterp spec fn event_variant(ev: quick_xml::events::Event) -> u8;

/// The tag of an event as `BytesStart::name` gives it, decoded leniently; the
/// empty text for an event that is no start tag.
pub uninterp spec fn event_tag(ev: quick_xml::events::Event) -> Seq<char>;

/// The attributes of an event that `BytesStart::attributes` reads without error,
/// keys and values decoded leniently; none for an event that is no start tag.
pub uninterp spec fn event_attrs(ev: quick_xml::events::Event) -> Seq<(Seq<char>, Seq<char>)>;

/// The text of an event as `BytesText::unescape` gives it; `None` where that
/// fails or the event is no text.
pub uninterp spec fn event_unescaped(ev: quick_xml::events::Event) -> Option<Seq<char>>;

/// What an event that was read counts as.
pub open spec fn event_reading(ev: quick_xml::events::Event) -> Reading {
    if event_variant(ev) == 0 {
        Reading::Event(EventView::Start { name: event_tag(ev), attributes: event_attrs(ev) })
    } else if event_variant(ev) == 1 {
        match event_unescaped(ev) {
            Some(t) => Reading::Event(EventView::Text(t)),
            None => Reading::BadText,
        }
    } else if event_variant(ev) == 2 {
        Reading::Event(EventView::End)
    } else if event_variant(ev) == 3 {
        Reading::Finished
    } else {
        Reading::Event(EventView::Other)
    }
}

/// Makes a reader over a text with `quick_xml::Reader::from_str`. The readings
/// that it has yet to give are those of the document with that text, from the
/// first on: this is what the readings of a document are named after.
#[verifier::external_body]
fn xml_reader<'a>(xml: &'a str) -> (r: quick_xml::Reader<&'a [u8]>)
    ensures
        forall|k: nat| #[trigger] pending_event(r, k) == document_event(xml@, k),
{
    quick_xml::Reader::from_str(xml)
}

/// Reads the next event with `Reader::read_event`; `None` stands for its error.
/// What comes back is the first of the readings that the reader had yet to
/// give, and the reader goes on to the reading behind it.
#[verifier::external_body]
fn read_xml_event<'a>(reader: &mut quick_xml::Reader<&'a [u8]>) -> (r: Option<
    quick_xml::events::Event<'a>,
>)
    ensures
        forall|k: nat| #[trigger]
            pending_event(*final(reader), k) == pending_event(*old(reader), k + 1),
        match r {
            Some(ev) => pending_event(*old(reader), 0) == event_reading(ev),
            None => pending_event(*old(reader), 0) == Reading::Unreadable,
        },
{
    reader.read_event().ok()
}

/// Tells the variants of `quick_xml::events::Event` apart: 0 for a start tag, 1
/// for text, 2 for an end tag, 3 for the end of the document, 4 for any other.
#[verifier::external_body]
fn event_kind(ev: &quick_xml::events::Event) -> (r: u8)
    ensures
        r <= 4,
        r == event_variant(*ev),
{
    match ev {
        quick_xml::events::Event::Start(_) => 0,
        quick_xml::events::Event::Text(_) => 1,
        quick_xml::events::Event::End(_) => 2,
        quick_xml::events::Event::Eof => 3,
        _ => 4,
    }
}

/// The tag of a start event, from `BytesStart::name`, decoded leniently; the empty
/// text for another event.
#[verifier::external_body]
fn event_name(ev: &quick_xml::events::Event) -> (r: String)
    ensures
        r@ == event_tag(*ev),
{
    match ev {
        quick_xml::events::Event::Start(e) => String::from_utf8_lossy(e.name().as_ref()).to_string(),
        _ => String::new(),
    }
}

/// The attributes of a start event that `BytesStart::attributes` reads without
/// error, keys and values decoded leniently; none for another event.
#[verifier::external_body]
fn event_attributes(ev: &quick_xml::events::Event) -> (r: Vec<(String, String)>)
    ensures
        attrs_view(r@) == event_attrs(*ev),
{
    match ev {
        quick_xml::events::Event::Start(e) => e.attributes().flatten().map(
            |a| (
                String::from_utf8_lossy(a.key.as_ref()).to_string(),
                String::from_utf8_lossy(&a.value).to_string(),
            ),
        ).collect(),
        _ => Vec::new(),
    }
}

/// The text of a text event, unescaped by `BytesText::unescape`; `None` where that
/// fails or the event is no text.
#[verifier::external_body]
fn event_text(ev: &quick_xml::events::Event) -> (r: Option<String>)
    ensures
        text_view(r) == event_unescaped(*ev),
{
    match ev {
        quick_xml::events::Event::Text(e) => match e.unescape() {
            Ok(t) => Some(t.into_owned()),
            Err(_) => None,
        },
        _ => None,
    }
}

/// One event of a document: a start tag with its attributes, a text, an end tag,
/// or something that the schema does not read.
#[derive(Debug)]
pub enum XmlEvent {
    Start { name: String, attributes: Vec<(String, String)> },
    Text(String),
    End,
    Other,
}

/// The mathematical content of an event.
pub enum EventView {
    Start { name: Seq<char>, attributes: Seq<(Seq<char>, Seq<char>)> },
    Text(Seq<char>),
    End,
    Other,
}

/// The content of an event.
pub open spec fn event_view(e: XmlEvent) -> EventView {
    match e {
        XmlEvent::Start { name, attributes } => EventView::Start {
            name: name@,
            attributes: attrs_view(attributes@),
        },
        XmlEvent::Text(t) => EventView::Text(t@),
        XmlEvent::End => EventView::End,
        XmlEvent::Other => EventView::Other,
    }
}

/// The contents of a list of events.
pub open spec fn events_view(l: Seq<XmlEvent>) -> Seq<EventView> {
    Seq::new(l.len(), |i: int| event_view(l[i]))
}

/// Attributes with a value put under a key: in place of the value that the key
/// had, or at the end.
pub open spec fn put_attr(attrs: Seq<(Seq<char>, Seq<char>)>, key: Seq<char>, value: Seq<char>) -> Seq<
    (Seq<char>, Seq<char>),
>
    decreases attrs.len(),
{
    if attrs.len() == 0 {
        seq![(key, value)]
    } else if attrs[0].0 == key {
        seq![(key, value)] + attrs.drop_first()
    } else {
        seq![attrs[0]] + put_attr(attrs.drop_first(), key, value)
    }
}

/// Attributes with no key twice: of the values given for one key the last counts.
pub open spec fn unique_attrs(attrs: Seq<(Seq<char>, Seq<char>)>) -> Seq<(Seq<char>, Seq<char>)>
    decreases attrs.len(),
{
    if attrs.len() == 0 {
        Seq::empty()
    } else {
        put_attr(unique_attrs(attrs.drop_last()), attrs.last().0, attrs.last().1)
    }
}

/// The state of building a tree from events: the root as far as it is known, and
/// the elements that are open, the outermost first.
pub struct XmlBuilder {
    pub root: XmlElement,
    pub stack: Vec<XmlElement>,
}

/// The mathematical content of a builder.
pub struct BuilderView {
    pub root: ElementView,
    pub stack: Seq<ElementView>,
}

/// An element with one more child.
pub open spec fn with_child(e: ElementView, c: ElementView) -> ElementView {
    ElementView { children: e.children.push(c), ..e }
}

/// An element with its last child replaced, where it has one.
pub open spec fn with_last_child(e: ElementView, c: ElementView) -> ElementView {
    if e.children.len() > 0 {
        ElementView { children: e.children.update(e.children.len() - 1, c), ..e }
    } else {
        e
    }
}

/// The state after one event. A start tag opens an element and notes it, as far
/// as it is known then, as the root or as a child of the element that is open. A
/// text becomes the text of the open element. An end tag closes the open
/// element, which takes the place of what was noted for it.
pub open spec fn builder_step(b: BuilderView, ev: EventView) -> BuilderView {
    match ev {
        EventView::Start { name, attributes } => {
            let e = ElementView {
                name,
                attributes: unique_attrs(attributes),
                value: None,
                children: Seq::empty(),
            };
            if b.stack.len() == 0 {
                BuilderView { root: e, stack: seq![e] }
            } else {
                BuilderView {
                    root: b.root,
                    stack: b.stack.drop_last().push(with_child(b.stack.last(), e)).push(e),
                }
            }
        },
        EventView::Text(t) => if b.stack.len() == 0 {
            b
        } else {
            BuilderView {
                root: b.root,
                stack: b.stack.drop_last().push(ElementView { value: Some(t), ..b.stack.last() }),
            }
        },
        EventView::End => if b.stack.len() == 0 {
            b
        } else if b.stack.len() == 1 {
            BuilderView { root: b.stack.last(), stack: Seq::empty() }
        } else {
            let rest = b.stack.drop_last();
            BuilderView {
                root: b.root,
                stack: rest.drop_last().push(with_last_child(rest.last(), b.stack.last())),
            }
        },
        EventView::Other => b,
    }
}

/// The state after a run of events.
pub open spec fn builder_run(b: BuilderView, events: Seq<EventView>) -> BuilderView
    decreases events.len(),
{
    if events.len() == 0 {
        b
    } else {
        builder_step(builder_run(b, events.drop_last()), events.last())
    }
}

/// The state before any event.
pub open spec fn builder_start() -> BuilderView {
    BuilderView { root: empty_element(), stack: Seq::empty() }
}

/// Puts a value under a key.
pub fn put_attribute(attrs: &mut Vec<(String, String)>, key: String, value: String)
    ensures
        attrs_view(final(attrs)@) == put_attr(attrs_view(old(attrs)@), key@, value@),
{
    let ghost l = attrs_view(attrs@);
    let mut i: usize = 0;
    assert(l.skip(0) =~= l);
    assert(l.take(0) + put_attr(l, key@, value@) =~= put_attr(l, key@, value@));
    while i < attrs.len()
        invariant
            i <= attrs.len(),
            attrs@ == old(attrs)@,
            l == attrs_view(attrs@),
            put_attr(l, key@, value@) == l.take(i as int) + put_attr(l.skip(i as int), key@, value@),
        decreases attrs.len() - i,
    {
        let ghost rest = l.skip(i as int);
        assert(rest[0] == (attrs@[i as int].0@, attrs@[i as int].1@));
        if str_eq(attrs[i].0.as_str(), key.as_str()) {
            let ghost kv = (key@, value@);
            attrs.set(i, (key, value));
            assert(attrs_view(attrs@) =~= l.take(i as int) + (seq![kv] + rest.drop_first()));
            return ;
        }
        proof {
            assert(rest.drop_first() =~= l.skip(i + 1));
            assert(l.take(i as int) + (seq![rest[0]] + put_attr(l.skip(i + 1), key@, value@))
                =~= l.take(i + 1) + put_attr(l.skip(i + 1), key@, value@));
        }
        i += 1;
    }
    let ghost kv = (key@, value@);
    attrs.push((key, value));
    assert(l.skip(l.len() as int) =~= Seq::empty());
    assert(attrs_view(attrs@) =~= l.take(l.len() as int) + seq![kv]);
}

/// Attributes with no key twice.
pub fn unique_attributes(attrs: &Vec<(String, String)>) -> (r: Vec<(String, String)>)
    ensures
        attrs_view(r@) == unique_attrs(attrs_view(attrs@)),
{
    let ghost l = attrs_view(attrs@);
    let mut out: Vec<(String, String)> = Vec::new();
    let mut i: usize = 0;
    assert(attrs_view(out@) =~= Seq::empty());
    while i < attrs.len()
        invariant
            i <= attrs.len(),
            l == attrs_view(attrs@),
            attrs_view(out@) == unique_attrs(l.take(i as int)),
        decreases attrs.len() - i,
    {
        assert(l.take(i + 1).drop_last() =~= l.take(i as int));
        assert(l.take(i + 1).last() == (attrs@[i as int].0@, attrs@[i as int].1@));
        put_attribute(&mut out, attrs[i].0.clone(), attrs[i].1.clone());
        i += 1;
    }
    assert(l.take(l.len() as int) =~= l);
    out
}

impl XmlBuilder {
    /// The content of the builder.
    pub open spec fn view(&self) -> BuilderView {
        BuilderView { root: self.root@, stack: elements_view(self.stack@) }
    }

    /// A builder before any event.
    pub fn new() -> (r: Self)
        ensures
            r.view() == builder_start(),
    {
        let r = XmlBuilder {
            root: XmlElement {
                name: String::new(),
                attributes: Vec::new(),
                value: None,
                children: Vec::new(),
            },
            stack: Vec::new(),
        };
        assert(r.root@.attributes =~= Seq::empty());
        assert(r.root@.children =~= Seq::empty());
        assert(elements_view(r.stack@) =~= Seq::empty());
        r
    }

    /// Takes one event.
    pub fn step(&mut self, event: XmlEvent)
        ensures
            final(self).view() == builder_step(old(self).view(), event_view(event)),
    {
        let ghost b = self.view();
        match event {
            XmlEvent::Start { name, attributes } => {
                let attrs = unique_attributes(&attributes);
                let e = XmlElement { name, attributes: attrs, value: None, children: Vec::new() };
                assert(e@.children =~= Seq::empty());
                let copy = e.duplicate();
                if self.stack.len() == 0 {
                    self.root = copy;
                    self.stack.push(e);
                    assert(elements_view(self.stack@) =~= seq![e@]);
                } else {
                    let ghost before = self.stack@;
                    let mut parent = self.stack.pop().unwrap();
                    let ghost p0 = parent;
                    parent.children.push(copy);
                    assert(parent@.children =~= p0@.children.push(e@));
                    assert(parent@ == with_child(p0@, e@));
                    self.stack.push(parent);
                    self.stack.push(e);
                    assert(elements_view(self.stack@) =~= b.stack.drop_last().push(
                        with_child(b.stack.last(), e@),
                    ).push(e@));
                }
            },
            XmlEvent::Text(t) => {
                if self.stack.len() > 0 {
                    let mut top = self.stack.pop().unwrap();
                    let ghost t0 = top;
                    top.value = Some(t);
                    assert(top@ == (ElementView { value: Some(t@), ..t0@ }));
                    self.stack.push(top);
                    assert(elements_view(self.stack@) =~= b.stack.drop_last().push(
                        ElementView { value: Some(t@), ..b.stack.last() },
                    ));
                }
            },
            XmlEvent::End => {
                if self.stack.len() == 1 {
                    let e = self.stack.pop().unwrap();
                    self.root = e;
                    assert(elements_view(self.stack@) =~= Seq::empty());
                } else if self.stack.len() > 1 {
                    let e = self.stack.pop().unwrap();
                    let mut parent = self.stack.pop().unwrap();
                    let ghost p0 = parent;
                    let n = parent.children.len();
                    if n > 0 {
                        parent.children.set(n - 1, e);
                        assert(parent@.children =~= p0@.children.update(n - 1, e@));
                    }
                    assert(parent@ == with_last_child(p0@, e@));
                    self.stack.push(parent);
                    assert(elements_view(self.stack@) =~= b.stack.drop_last().drop_last().push(
                        with_last_child(b.stack.drop_last().last(), b.stack.last()),
                    ));
                }
            },
            XmlEvent::Other => {},
        }
    }
}

/// The state of building after the readings of a document from the one numbered
/// `k` on, up to the end of the document; `None` where the document cannot be
/// read at one of them, where a text within an element cannot be unescaped, or
/// where the end of the document does not come with the reading numbered
/// `limit` at the latest. A text outside every element counts for nothing,
/// whether it can be unescaped or not.
pub open spec fn document_run(text: Seq<char>, k: nat, b: BuilderView, limit: nat) -> Option<
    BuilderView,
>
    decreases limit - k,
{
    match document_event(text, k) {
        Reading::Unreadable => None,
        Reading::Finished => Some(b),
        Reading::BadText => if b.stack.len() > 0 || k >= limit {
            None
        } else {
            document_run(text, k + 1, b, limit)
        },
        Reading::Event(e) => if k >= limit {
            None
        } else {
            document_run(text, k + 1, builder_step(b, e), limit)
        },
    }
}

/// The root element of the document that a text holds, read within as many
/// readings as the text has bytes and one more; `None` for a text that cannot be
/// read so.
pub open spec fn document_root(xml: &str) -> Option<ElementView> {
    match document_run(xml@, 0, builder_start(), xml.len() as nat) {
        Some(b) => Some(b.root),
        None => None,
    }
}

/// The schema that an upper-case protocol name selects for an update, by the
/// first of the marks `CSG13`, `DLT/645`, `CSG16`, `MODULE`, `MS` that it holds: 0
/// to 4 in that order.
pub open spec fn select_for_update(p: Seq<char>) -> Option<int> {
    if contains_spec(p, "CSG13"@) {
        Some(0)
    } else if contains_spec(p, "DLT/645"@) {
        Some(1)
    } else if contains_spec(p, "CSG16"@) {
        Some(2)
    } else if contains_spec(p, "MODULE"@) {
        Some(3)
    } else if contains_spec(p, "MS"@) {
        Some(4)
    } else {
        None
    }
}

impl QframeConfig {
    /// Loads the document that a run of events describes: the forest is rebuilt
    /// from the root that the events leave, and the cache is emptied.
    pub fn load_from_events(&mut self, events: Vec<XmlEvent>)
        ensures
            final(self).wf(),
            final(self).config is Some,
            final(self).config.unwrap().root == 0,
            final(self).config.unwrap().nodes@.len() > 0,
            node_element(final(self).config.unwrap().nodes@, 0) == loaded(
                builder_run(builder_start(), events_view(events@)).root,
                None,
                None,
                None,
            ),
            final(self).config.unwrap().is_document(),
            final(self).config_cache.results@.len() == 0,
    {
        let ghost all = events_view(events@);
        let n = events.len();
        let mut rest = events;
        let mut back: Vec<XmlEvent> = Vec::new();
        while rest.len() > 0
            invariant
                rest@.len() + back@.len() == n,
                n == events@.len(),
                rest@ == events@.take(rest@.len() as int),
                forall|k: int| 0 <= k < back@.len() ==> #[trigger] back@[k] == events@[n - 1 - k],
            decreases rest.len(),
        {
            let ghost m = rest@.len();
            let e = rest.pop().unwrap();
            back.push(e);
            assert(rest@ =~= events@.take(m - 1));
        }
        let mut builder = XmlBuilder::new();
        let ghost done: int = 0;
        assert(all.take(0) =~= Seq::empty());
        while back.len() > 0
            invariant
                0 <= done <= n,
                back@.len() + done == n,
                n == events@.len(),
                all == events_view(events@),
                forall|k: int| 0 <= k < back@.len() ==> #[trigger] back@[k] == events@[n - 1 - k],
                builder.view() == builder_run(builder_start(), all.take(done)),
            decreases back.len(),
        {
            let e = back.pop().unwrap();
            assert(e == events@[done]);
            proof {
                assert(all.take(done + 1).drop_last() =~= all.take(done));
                assert(all.take(done + 1).last() == event_view(e));
            }
            builder.step(e);
            proof {
                done = done + 1;
            }
        }
        assert(all.take(n as int) =~= all);
        self.load_element(&builder.root);
    }

    /// Loads a document from its text. The text is read as XML, event by event.
    /// Where the document has a root, the forest is rebuilt from that root and
    /// the cache is emptied; where the reader reports an error, a text within an
    /// element cannot be unescaped or the end of the document does not come,
    /// nothing is loaded and the schema stays as it was.
    pub fn load_from_str(&mut self, xml_str: &str) -> (r: Result<(), CustomError>)
        requires
            old(self).wf(),
        ensures
            final(self).wf(),
            r is Ok == document_root(xml_str) is Some,
            r is Err ==> *final(self) == *old(self),
            r is Ok ==> final(self).config is Some && final(self).config.unwrap().root == 0,
            r is Ok ==> final(self).config.unwrap().nodes@.len() > 0,
            r is Ok ==> node_element(final(self).config.unwrap().nodes@, 0) == loaded(
                document_root(xml_str).unwrap(),
                None,
                None,
                None,
            ),
            r is Ok ==> final(self).config.unwrap().is_document(),
            r is Ok ==> final(self).config_cache.results@.len() == 0,
    {
        let mut reader = xml_reader(xml_str);
        let mut builder = XmlBuilder::new();
        let limit: usize = xml_str.len();
        let mut steps: usize = 0;
        let ghost want = document_run(xml_str@, 0, builder_start(), limit as nat);
        loop
            invariant_except_break
                document_run(xml_str@, steps as nat, builder.view(), limit as nat) == want,
                forall|k: nat| #[trigger]
                    pending_event(reader, k) == document_event(xml_str@, (steps + k) as nat),
            invariant
                steps <= limit,
                limit == xml_str.len(),
                want == document_run(xml_str@, 0, builder_start(), limit as nat),
                *self == *old(self),
                self.wf(),
            ensures
                want == Some(builder.view()),
            decreases limit - steps,
        {
            let ghost before = reader;
            let ghost b = builder.view();
            let read = read_xml_event(&mut reader);
            assert(pending_event(before, 0) == document_event(xml_str@, steps as nat));
            assert forall|k: nat| #[trigger]
                pending_event(reader, k) == document_event(xml_str@, (steps + 1 + k) as nat) by {
                assert(pending_event(before, k + 1) == document_event(
                    xml_str@,
                    (steps + (k + 1)) as nat,
                ));
            }
            match read {
                None => {
                    return Err(CustomError::new(4, "Invalid XML".to_owned()));
                },
                Some(ev) => {
                    let kind = event_kind(&ev);
                    if kind == 0 {
                        builder.step(
                            XmlEvent::Start {
                                name: event_name(&ev),
                                attributes: event_attributes(&ev),
                            },
                        );
                    } else if kind == 1 {
                        if builder.stack.len() > 0 {
                            match event_text(&ev) {
                                Some(t) => {
                                    builder.step(XmlEvent::Text(t));
                                },
                                None => {
                                    return Err(CustomError::new(4, "Invalid XML text".to_owned()));
                                },
                            }
                        }
                    } else if kind == 2 {
                        builder.step(XmlEvent::End);
                    } else if kind == 3 {
                        break ;
                    }
                },
            }
            if steps == limit {
                return Err(CustomError::new(4, "XML document does not end".to_owned()));
            }
            steps += 1;
        }
        self.load_element(&builder.root);
        Ok(())
    }
}

impl ProtocolConfigManager {
    /// Replaces the schema of a protocol by the document given as text: the
    /// forest of that schema is rebuilt from the root of the document and its
    /// cache is emptied; the other schemas stay. The protocol name in upper case
    /// selects the schema; a name that selects none, or a document that cannot
    /// be read, is an error and changes nothing.
    pub fn update_protocol_xmlconfig(&mut self, protocol: &str, content: &str) -> (r: Result<
        (),
        CustomError,
    >)
        requires
            old(self).wf(),
        ensures
            final(self).wf(),
            r is Ok == (select_for_update(uppercase_of(protocol@)) is Some && document_root(content)
                is Some),
            r is Err ==> *final(self) == *old(self),
            r is Ok ==> ({
                let k = select_for_update(uppercase_of(protocol@)).unwrap();
                &&& final(self).schema(k).config is Some
                &&& final(self).schema(k).config.unwrap().root == 0
                &&& final(self).schema(k).config.unwrap().nodes@.len() > 0
                &&& node_element(final(self).schema(k).config.unwrap().nodes@, 0) == loaded(
                    document_root(content).unwrap(),
                    None,
                    None,
                    None,
                )
                &&& final(self).schema(k).config.unwrap().is_document()
                &&& final(self).schema(k).config_cache.results@.len() == 0
                &&& forall|j: int| 0 <= j < 5 && j != k ==> final(self).schema(j) == old(self).schema(j)
            }),
    {
        reveal(ProtocolConfigManager::wf);
        let find_protocol = upper(protocol);
        let p = find_protocol.as_str();
        if contains_str(p, "CSG13") {
            self.csg13.load_from_str(content)
        } else if contains_str(p, "DLT/645") {
            self.dlt645.load_from_str(content)
        } else if contains_str(p, "CSG16") {
            self.csg16.load_from_str(content)
        } else if contains_str(p, "MODULE") {
            self.moudle.load_from_str(content)
        } else if contains_str(p, "MS") {
            self.ms.load_from_str(content)
        } else {
            Err(CustomError::new(5, "Unsupported protocol".to_owned()))
        }
    }
}

} // verus!
