//! Significant XML events, and the event-level reader and writer that the
//! SOAP runtime and the WSDL parser are verified against.  Byte-level
//! encoding and decoding stand behind the trusted boundary in `xmlio`.

use vstd::prelude::*;

verus! {

/// A significant XML event: element open (with its attributes), character
/// data, or element close.  Empty elements appear as an open immediately
/// followed by a close; declarations, comments, processing instructions
/// and CDATA sections never appear.
#[derive(Debug)]
pub enum XmlEvent {
    Start { name: String, attrs: Vec<(String, String)> },
    Text { text: String },
    End,
}

/// The ghost value of an [`XmlEvent`].
pub enum EventView {
    Start { name: Seq<char>, attrs: Seq<(Seq<char>, Seq<char>)> },
    Text { text: Seq<char> },
    End,
}

/// The ghost values of an attribute list.
pub open spec fn attrs_view(s: Seq<(String, String)>) -> Seq<(Seq<char>, Seq<char>)> {
    s.map_values(|p: (String, String)| (p.0@, p.1@))
}

impl View for XmlEvent {
    type V = EventView;

    open spec fn view(&self) -> EventView {
        match self {
            XmlEvent::Start { name, attrs } => EventView::Start {
                name: name@,
                attrs: attrs_view(attrs@),
            },
            XmlEvent::Text { text } => EventView::Text { text: text@ },
            XmlEvent::End => EventView::End,
        }
    }
}

/// Clones an attribute list, keeping every key and value.
pub fn clone_attrs(attrs: &Vec<(String, String)>) -> (r: Vec<(String, String)>)
    ensures
        attrs_view(r@) == attrs_view(attrs@),
        r@.len() == attrs@.len(),
        forall|i: int| 0 <= i < attrs@.len() ==> (#[trigger] r@[i]).0@ == attrs@[i].0@
            && r@[i].1@ == attrs@[i].1@,
{
    let mut out: Vec<(String, String)> = Vec::new();
    let n = attrs.len();
    let mut i: usize = 0;
    #[verifier::loop_isolation(false)]
    while i < n
        invariant
            0 <= i <= n,
            out@.len() == i,
            forall|k: int| 0 <= k < i ==> (#[trigger] out@[k]).0@ == attrs@[k].0@ && out@[k].1@
                == attrs@[k].1@,
        decreases n - i,
    {
        let (k, v) = (&attrs[i].0, &attrs[i].1);
        out.push((k.clone(), v.clone()));
        i = i + 1;
    }
    assert(attrs_view(out@) =~= attrs_view(attrs@));
    out
}

impl Clone for XmlEvent {
    fn clone(&self) -> (r: Self)
        ensures
            r@ == self@,
    {
        match self {
            XmlEvent::Start { name, attrs } => XmlEvent::Start {
                name: name.clone(),
                attrs: clone_attrs(attrs),
            },
            XmlEvent::Text { text } => XmlEvent::Text { text: text.clone() },
            XmlEvent::End => XmlEvent::End,
        }
    }
}

// ---------------------------------------------------------------------
// Qualified names
// ---------------------------------------------------------------------
/// The position of the first `:` in `s`, if any.
pub open spec fn spec_colon_index(s: Seq<char>) -> Option<int>
    decreases s.len(),
{
    if s.len() == 0 {
        None
    } else if s[0] == ':' {
        Some(0)
    } else {
        match spec_colon_index(s.drop_first()) {
            Some(i) => Some(i + 1),
            None => None,
        }
    }
}

/// The prefix of a qualified name: what stands ahead of the first `:`,
/// or `None` when there is no colon.
pub open spec fn spec_prefix_of(s: Seq<char>) -> Option<Seq<char>> {
    match spec_colon_index(s) {
        Some(i) => Some(s.subrange(0, i)),
        None => None,
    }
}

/// The local part of a qualified name: what follows the first `:`, or
/// the whole name when there is no colon.
pub open spec fn spec_local_of(s: Seq<char>) -> Seq<char> {
    match spec_colon_index(s) {
        Some(i) => s.subrange(i + 1, s.len() as int),
        None => s,
    }
}

/// The first `:` is where `spec_colon_index` says, and earlier characters
/// are not colons.
pub proof fn lemma_colon_index(s: Seq<char>)
    ensures
        match spec_colon_index(s) {
            Some(i) => 0 <= i < s.len() && s[i] == ':' && forall|k: int|
                0 <= k < i ==> s[k] != ':',
            None => forall|k: int| 0 <= k < s.len() ==> s[k] != ':',
        },
    decreases s.len(),
{
    if s.len() > 0 && s[0] != ':' {
        let t = s.drop_first();
        lemma_colon_index(t);
        match spec_colon_index(t) {
            Some(i) => {
                assert(s[i + 1] == t[i]);
                assert forall|k: int| 0 <= k < i + 1 implies s[k] != ':' by {
                    if k > 0 {
                        assert(s[k] == t[k - 1]);
                    }
                }
            },
            None => {
                assert forall|k: int| 0 <= k < s.len() implies s[k] != ':' by {
                    if k > 0 {
                        assert(s[k] == t[k - 1]);
                    }
                }
            },
        }
    }
}

/// Splits a qualified name at its first `:` into an optional prefix and
/// the local name.
pub fn split_namespaced_name(prefixed_name: &str) -> (r: (Option<&str>, &str))
    ensures
        match spec_prefix_of(prefixed_name@) {
            Some(p) => r.0 matches Some(q) && q@ == p,
            None => r.0 is None,
        },
        r.1@ == spec_local_of(prefixed_name@),
{
    proof {
        lemma_colon_index(prefixed_name@);
    }
    let n = prefixed_name.unicode_len();
    let mut i: usize = 0;
    #[verifier::loop_isolation(false)]
    while i < n
        invariant
            0 <= i <= n,
            forall|k: int| 0 <= k < i ==> prefixed_name@[k] != ':',
        decreases n - i,
    {
        if prefixed_name.get_char(i) == ':' {
            let prefix = prefixed_name.substring_char(0, i);
            let local = prefixed_name.substring_char(i + 1, n);
            return (Some(prefix), local);
        }
        i = i + 1;
    }
    (None, prefixed_name)
}

/// Whether `name`'s local part equals `local`.
pub fn local_name_is(name: &str, local: &str) -> (r: bool)
    ensures
        r == (spec_local_of(name@) == local@),
{
    let (_, l) = split_namespaced_name(name);
    crate::num::str_eq(l, local)
}

// ---------------------------------------------------------------------
// Event reader
// ---------------------------------------------------------------------
/// A cursor over a sequence of significant events, as handed to
/// deserialization.
#[derive(Debug)]
pub struct XmlReader {
    events: Vec<XmlEvent>,
    pos: usize,
}

impl XmlReader {
    /// The events not yet consumed.
    pub closed spec fn remaining(&self) -> Seq<EventView> {
        if self.pos <= self.events@.len() {
            crate::types::seq_view(self.events@).skip(self.pos as int)
        } else {
            Seq::empty()
        }
    }

    /// A reader over `events`.
    pub fn new(events: Vec<XmlEvent>) -> (r: Self)
        ensures
            r.remaining() == crate::types::seq_view(events@),
    {
        let r = XmlReader { events, pos: 0 };
        proof {
            assert(r.remaining() =~= crate::types::seq_view(r.events@));
        }
        r
    }

    /// Consumes and returns the next event, or `None` at the end.
    pub fn next(&mut self) -> (e: Option<XmlEvent>)
        ensures
            match e {
                Some(ev) => old(self).remaining().len() > 0 && ev@ == old(self).remaining()[0]
                    && final(self).remaining() == old(self).remaining().drop_first(),
                None => old(self).remaining().len() == 0 && final(self).remaining()
                    == old(self).remaining(),
            },
    {
        if self.pos < self.events.len() {
            let ev = self.events[self.pos].clone();
            proof {
                assert(crate::types::seq_view(self.events@)[self.pos as int]
                    == self.events@[self.pos as int]@);
            }
            self.pos = self.pos + 1;
            proof {
                assert(self.remaining() =~= old(self).remaining().drop_first());
            }
            Some(ev)
        } else {
            None
        }
    }
}

/// Whether `event` opens an element whose local name is `name`.
pub fn is_start(event: &XmlEvent, name: &str) -> (r: bool)
    ensures
        r == (event@ matches EventView::Start { name: n, .. } && spec_local_of(n) == name@),
{
    match event {
        XmlEvent::Start { name: n, .. } => local_name_is(n.as_str(), name),
        _ => false,
    }
}

/// Consumes the next event and requires it to open an element whose local
/// name is `name`; hands the event back on success.
pub fn expect_start(reader: &mut XmlReader, name: &str) -> (r: Option<XmlEvent>)
    ensures
        match r {
            Some(ev) => old(reader).remaining().len() > 0 && ev@ == old(reader).remaining()[0]
                && (ev@ matches EventView::Start { name: n, .. } && spec_local_of(n) == name@)
                && final(reader).remaining() == old(reader).remaining().drop_first(),
            None => !(old(reader).remaining().len() > 0
                && (old(reader).remaining()[0] matches EventView::Start { name: n, .. }
                    && spec_local_of(n) == name@)) && (if old(reader).remaining().len() > 0 {
                final(reader).remaining() == old(reader).remaining().drop_first()
            } else {
                final(reader).remaining() == old(reader).remaining()
            }),
        },
{
    match reader.next() {
        Some(ev) => {
            if is_start(&ev, name) {
                Some(ev)
            } else {
                None
            }
        },
        None => None,
    }
}

/// Consumes the next event and requires it to be character data.
pub fn expect_text(reader: &mut XmlReader) -> (r: Option<String>)
    ensures
        match r {
            Some(t) => old(reader).remaining().len() > 0 && old(reader).remaining()[0]
                == (EventView::Text { text: t@ }) && final(reader).remaining()
                == old(reader).remaining().drop_first(),
            None => !(old(reader).remaining().len() > 0
                && old(reader).remaining()[0] matches EventView::Text { .. }) && (if old(
                reader,
            ).remaining().len() > 0 {
                final(reader).remaining() == old(reader).remaining().drop_first()
            } else {
                final(reader).remaining() == old(reader).remaining()
            }),
        },
{
    match reader.next() {
        Some(ev) => match ev {
            XmlEvent::Text { text } => Some(text),
            _ => None,
        },
        None => None,
    }
}

/// Consumes the next event and requires it to close an element, whichever
/// element that is.
pub fn expect_end(reader: &mut XmlReader) -> (r: bool)
    ensures
        r == (old(reader).remaining().len() > 0 && old(reader).remaining()[0] == EventView::End),
        old(reader).remaining().len() > 0 ==> final(reader).remaining() == old(
            reader,
        ).remaining().drop_first(),
        old(reader).remaining().len() == 0 ==> final(reader).remaining() == old(
            reader,
        ).remaining(),
{
    match reader.next() {
        Some(ev) => match ev {
            XmlEvent::End => true,
            _ => false,
        },
        None => false,
    }
}

// ---------------------------------------------------------------------
// Event writer
// ---------------------------------------------------------------------
/// Collects the significant events of a document being serialized.
#[derive(Debug)]
pub struct XmlWriter {
    events: Vec<XmlEvent>,
}

impl XmlWriter {
    /// The events written so far.
    pub closed spec fn written(&self) -> Seq<EventView> {
        crate::types::seq_view(self.events@)
    }

    /// An empty writer.
    pub fn new() -> (r: Self)
        ensures
            r.written() =~= Seq::<EventView>::empty(),
    {
        XmlWriter { events: Vec::new() }
    }

    /// Opens an element.
    pub fn write_start(&mut self, name: &str, attrs: Vec<(String, String)>)
        ensures
            final(self).written() =~= old(self).written().push(
                EventView::Start { name: name@, attrs: attrs_view(attrs@) },
            ),
    {
        self.events.push(XmlEvent::Start { name: name.to_owned(), attrs });
        proof {
            assert(self.written() =~= old(self).written().push(
                self.events@[self.events@.len() - 1]@,
            ));
        }
    }

    /// Writes character data.
    pub fn write_text(&mut self, text: String)
        ensures
            final(self).written() =~= old(self).written().push(EventView::Text { text: text@ }),
    {
        self.events.push(XmlEvent::Text { text });
        proof {
            assert(self.written() =~= old(self).written().push(
                self.events@[self.events@.len() - 1]@,
            ));
        }
    }

    /// Closes the innermost open element.
    pub fn write_end(&mut self)
        ensures
            final(self).written() =~= old(self).written().push(EventView::End),
    {
        self.events.push(XmlEvent::End);
        proof {
            assert(self.written() =~= old(self).written().push(
                self.events@[self.events@.len() - 1]@,
            ));
        }
    }

    /// The collected events.
    pub fn into_events(self) -> (r: Vec<XmlEvent>)
        ensures
            crate::types::seq_view(r@) == self.written(),
    {
        self.events
    }
}

} // verus!
