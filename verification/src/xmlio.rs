//! The trusted boundary between bytes and significant XML events: a thin
//! layer over `quick_xml`'s pull reader and writer.  Everything around the
//! outside calls — expanding empty elements, resolving character and
//! entity references, merging text runs, trimming, balancing end tags —
//! is verified.

use vstd::prelude::*;

use crate::error::Error;
use crate::event::XmlEvent;
use crate::num::{all_digits, all_hex, dec_val, hex_val};
use quick_xml::events::Event;

verus! {

#[verifier::external_type_specification]
#[verifier::external_body]
#[verifier::reject_recursive_types(W)]
pub struct ExWriter<W>(quick_xml::Writer<W>);

#[verifier::external_type_specification]
#[verifier::external_body]
#[verifier::reject_recursive_types(T)]
pub struct ExCursor<T>(std::io::Cursor<T>);

#[verifier::external_type_specification]
#[verifier::external_body]
pub struct ExEvent<'a>(Event<'a>);

/// One event as `quick_xml` reports it, already decoded to plain values;
/// attribute lists still unparsed.
pub enum RawEvent {
    Start { name: String, attrs_raw: String },
    Empty { name: String, attrs_raw: String },
    End,
    Text { text: String },
    Ref { name: String },
    Skip,
}

/// The ghost value of a [`RawEvent`].
pub enum RawEventView {
    Start { name: Seq<char>, attrs_raw: Seq<char> },
    Empty { name: Seq<char>, attrs_raw: Seq<char> },
    End,
    Text { text: Seq<char> },
    Ref { name: Seq<char> },
    Skip,
}

impl View for RawEvent {
    type V = RawEventView;

    open spec fn view(&self) -> RawEventView {
        match self {
            RawEvent::Start { name, attrs_raw } => RawEventView::Start {
                name: name@,
                attrs_raw: attrs_raw@,
            },
            RawEvent::Empty { name, attrs_raw } => RawEventView::Empty {
                name: name@,
                attrs_raw: attrs_raw@,
            },
            RawEvent::End => RawEventView::End,
            RawEvent::Text { text } => RawEventView::Text { text: text@ },
            RawEvent::Ref { name } => RawEventView::Ref { name: name@ },
            RawEvent::Skip => RawEventView::Skip,
        }
    }
}

/// What `quick_xml` decodes a byte buffer into: the raw events of the
/// document up to end of input, or nothing when the XML is malformed.  A
/// pure function of the bytes.
pub uninterp spec fn raw_events_of(bytes: Seq<u8>) -> Option<Seq<RawEventView>>;

/// Relies on `quick_xml::Reader::from_reader` and
/// `quick_xml::Reader::read_event_into`: decodes the whole buffer into
/// its raw events, `Err` exactly when the XML is malformed.
#[verifier::external_body]
fn read_raw_events(bytes: Vec<u8>) -> (r: Result<Vec<RawEvent>, Error>)
    ensures
        match r {
            Ok(evs) => raw_events_of(bytes@) == Some(crate::types::seq_view(evs@)),
            Err(e) => raw_events_of(bytes@) is None && (e matches Error::XmlParseError),
        },
{
    let mut reader = quick_xml::Reader::from_reader(std::io::Cursor::new(bytes));
    let mut out = Vec::new();
    let mut buf = Vec::new();
    loop {
        match reader.read_event_into(&mut buf) {
            Ok(Event::Eof) => return Ok(out),
            Ok(e) => out.push(convert_event(e)),
            Err(_) => return Err(Error::XmlParseError),
        }
    }
}

/// Relies on `quick_xml::events::Event`: decodes one event's kind, name,
/// raw attributes and text to plain values.  `quick_xml` hands character
/// and entity references out as events of their own, so text events hold
/// literal runs; comments, declarations, processing instructions, CDATA
/// sections and doctypes are skipped.
#[verifier::external_body]
fn convert_event(e: Event<'_>) -> (r: RawEvent) {
    match e {
        Event::Start(s) => RawEvent::Start {
            name: s.name().as_ref().to_owned(),
            attrs_raw: s.attributes_raw().to_owned(),
        },
        Event::Empty(s) => RawEvent::Empty {
            name: s.name().as_ref().to_owned(),
            attrs_raw: s.attributes_raw().to_owned(),
        },
        Event::End(_) => RawEvent::End,
        Event::Text(t) => RawEvent::Text { text: t.into_inner().into_owned() },
        Event::GeneralRef(r) => RawEvent::Ref { name: r.into_inner().into_owned() },
        _ => RawEvent::Skip,
    }
}

/// What `quick_xml` parses a raw attribute string into: the key/value
/// pairs in order, or nothing when the attributes are malformed.  A pure
/// function of the string.
pub uninterp spec fn attrs_of(raw: Seq<char>) -> Option<Seq<(Seq<char>, Seq<char>)>>;

/// Relies on `quick_xml::events::attributes::Attributes`: splits a raw
/// attribute string into key/value pairs, `Err` exactly when the
/// attributes are malformed.
#[verifier::external_body]
fn parse_raw_attributes(raw: &str) -> (r: Result<Vec<(String, String)>, Error>)
    ensures
        match r {
            Ok(v) => attrs_of(raw@) == Some(crate::event::attrs_view(v@)),
            Err(e) => attrs_of(raw@) is None && (e matches Error::XmlParseError),
        },
{
    let mut out = Vec::new();
    for a in quick_xml::events::attributes::Attributes::new(raw, 0) {
        match a {
            Ok(a) => out.push((a.key.as_ref().to_owned(), a.value.into_owned())),
            Err(_) => return Err(Error::XmlParseError),
        }
    }
    Ok(out)
}

/// Whether `v` is a Unicode scalar value, the condition `char::from_u32`
/// documents.
pub open spec fn spec_scalar_code(v: nat) -> bool {
    v <= 0xD7FF || (0xE000 <= v && v <= 0x10FFFF)
}

/// The character `char::from_u32` returns for a scalar value: a pure
/// function of the code point.
pub uninterp spec fn char_of_code(u: int) -> char;

/// Relies on `char::from_u32`: `Some` exactly on Unicode scalar values,
/// and the returned character has_run the given code point.
#[verifier::external_body]
fn char_from_u32(u: u32) -> (r: Option<char>)
    ensures
        match r {
            Some(c) => c == char_of_code(u as int) && c as u32 == u && spec_scalar_code(u as nat),
            None => !spec_scalar_code(u as nat),
        },
{
    char::from_u32(u)
}

/// Relies on `char::to_string`: the one-character string.
#[verifier::external_body]
fn char_to_string(c: char) -> (s: String)
    ensures
        s@ =~= seq![c],
{
    c.to_string()
}

// ---------------------------------------------------------------------
// Character and entity references
// ---------------------------------------------------------------------
/// The character a reference body denotes: the five predefined entities,
/// `#` decimal references and `#x` hexadecimal references, provided the
/// value is a Unicode scalar value.
pub open spec fn spec_ref_char(s: Seq<char>) -> Option<char> {
    if s == "amp"@ {
        Some('&')
    } else if s == "lt"@ {
        Some('<')
    } else if s == "gt"@ {
        Some('>')
    } else if s == "quot"@ {
        Some('"')
    } else if s == "apos"@ {
        Some('\'')
    } else if s.len() > 2 && s[0] == '#' && (s[1] == 'x' || s[1] == 'X') && all_hex(s.skip(2))
        && spec_scalar_code(hex_val(s.skip(2))) {
        Some(char_of_code(hex_val(s.skip(2)) as int))
    } else if s.len() > 1 && s[0] == '#' && all_digits(s.skip(1)) && spec_scalar_code(
        dec_val(s.skip(1)),
    ) {
        Some(char_of_code(dec_val(s.skip(1)) as int))
    } else {
        None
    }
}

/// Resolves a reference body (the text between `&` and `;`) to its
/// character; fails on unknown entities and invalid code points.
fn resolve_ref(name: &str) -> (r: Result<char, Error>)
    ensures
        match r {
            Ok(c) => spec_ref_char(name@) == Some(c),
            Err(e) => spec_ref_char(name@) is None && (e matches Error::XmlParseError),
        },
{
    if crate::num::str_eq(name, "amp") {
        Ok('&')
    } else if crate::num::str_eq(name, "lt") {
        Ok('<')
    } else if crate::num::str_eq(name, "gt") {
        Ok('>')
    } else if crate::num::str_eq(name, "quot") {
        Ok('"')
    } else if crate::num::str_eq(name, "apos") {
        Ok('\'')
    } else {
        let n = name.unicode_len();
        if n > 2 && name.get_char(0) == '#' && (name.get_char(1) == 'x' || name.get_char(1)
            == 'X') {
            let digits = name.substring_char(2, n);
            assert(digits@ =~= name@.skip(2));
            proof {
                assert(name@.skip(1)[0] == name@[1]);
                assert(!crate::num::is_digit_char(name@[1]));
            }
            match crate::num::parse_hex_u32(digits) {
                Some(v) => match char_from_u32(v) {
                    Some(c) => Ok(c),
                    None => Err(Error::XmlParseError),
                },
                None => {
                    assert(hex_val(name@.skip(2)) > u32::MAX ==> !spec_scalar_code(
                        hex_val(name@.skip(2)),
                    ));
                    Err(Error::XmlParseError)
                },
            }
        } else if n > 1 && name.get_char(0) == '#' {
            let digits = name.substring_char(1, n);
            assert(digits@ =~= name@.skip(1));
            match crate::num::parse_usize(digits) {
                Some(v) => {
                    if v <= 0x10FFFF {
                        match char_from_u32(v as u32) {
                            Some(c) => Ok(c),
                            None => Err(Error::XmlParseError),
                        }
                    } else {
                        Err(Error::XmlParseError)
                    }
                },
                None => {
                    assert(dec_val(name@.skip(1)) > usize::MAX ==> !spec_scalar_code(
                        dec_val(name@.skip(1)),
                    ));
                    Err(Error::XmlParseError)
                },
            }
        } else {
            Err(Error::XmlParseError)
        }
    }
}

// ---------------------------------------------------------------------
// Whitespace trimming
// ---------------------------------------------------------------------
/// Whether `c` is XML whitespace.
pub open spec fn is_xml_ws(c: char) -> bool {
    c == ' ' || c == '\t' || c == '\r' || c == '\n'
}

/// `s` without leading XML whitespace.
pub open spec fn spec_trim_front(s: Seq<char>) -> Seq<char>
    decreases s.len(),
{
    if s.len() > 0 && is_xml_ws(s[0]) {
        spec_trim_front(s.drop_first())
    } else {
        s
    }
}

/// `s` without trailing XML whitespace.
pub open spec fn spec_trim_back(s: Seq<char>) -> Seq<char>
    decreases s.len(),
{
    if s.len() > 0 && is_xml_ws(s.last()) {
        spec_trim_back(s.drop_last())
    } else {
        s
    }
}

/// `s` without surrounding XML whitespace.
pub open spec fn spec_trim(s: Seq<char>) -> Seq<char> {
    spec_trim_back(spec_trim_front(s))
}

proof fn lemma_trim_front_skip(s: Seq<char>, i: int)
    requires
        0 <= i <= s.len(),
        forall|k: int| 0 <= k < i ==> is_xml_ws(#[trigger] s[k]),
        i == s.len() || !is_xml_ws(s[i]),
    ensures
        spec_trim_front(s) == s.skip(i),
    decreases i,
{
    if i == 0 {
        assert(s.skip(0) =~= s);
    } else {
        let t = s.drop_first();
        assert(forall|k: int| 0 <= k < i - 1 ==> #[trigger] t[k] == s[k + 1]);
        lemma_trim_front_skip(t, i - 1);
        assert(t.skip(i - 1) =~= s.skip(i));
    }
}

proof fn lemma_trim_back_take(s: Seq<char>, j: int)
    requires
        0 <= j <= s.len(),
        forall|k: int| j <= k < s.len() ==> is_xml_ws(#[trigger] s[k]),
        j == 0 || !is_xml_ws(s[j - 1]),
    ensures
        spec_trim_back(s) == s.take(j),
    decreases s.len(),
{
    if j == s.len() {
        assert(s.take(j) =~= s);
    } else {
        let t = s.drop_last();
        lemma_trim_back_take(t, j);
        assert(t.take(j) =~= s.take(j));
    }
}

/// Whether `c` is XML whitespace.
fn is_ws_char(c: char) -> (r: bool)
    ensures
        r == is_xml_ws(c),
{
    c == ' ' || c == '\t' || c == '\r' || c == '\n'
}

/// Removes surrounding XML whitespace.
fn trim_ws(s: &str) -> (r: String)
    ensures
        r@ == spec_trim(s@),
{
    let n = s.unicode_len();
    let mut i: usize = 0;
    #[verifier::loop_isolation(false)]
    while i < n && is_ws_char(s.get_char(i))
        invariant
            0 <= i <= n,
            forall|k: int| 0 <= k < i ==> is_xml_ws(#[trigger] s@[k]),
        decreases n - i,
    {
        i = i + 1;
    }
    if i == n {
        proof {
            lemma_trim_front_skip(s@, n as int);
            assert(s@.skip(n as int) =~= Seq::<char>::empty());
            lemma_trim_back_take(Seq::<char>::empty(), 0);
            assert(Seq::<char>::empty().take(0) =~= Seq::<char>::empty());
        }
        return String::new();
    }
    let mut j: usize = n;
    #[verifier::loop_isolation(false)]
    while j > i + 1 && is_ws_char(s.get_char(j - 1))
        invariant
            i < j <= n,
            forall|k: int| j <= k < n ==> is_xml_ws(#[trigger] s@[k]),
        decreases j,
    {
        j = j - 1;
    }
    // either the loop stopped at a non-whitespace character, or j == i + 1
    // and s[i] is not whitespace.
    let t = s.substring_char(i, j);
    proof {
        lemma_trim_front_skip(s@, i as int);
        let u = s@.skip(i as int);
        assert forall|k: int| j - i <= k < u.len() implies is_xml_ws(#[trigger] u[k]) by {
            assert(u[k] == s@[k + i]);
        }
        assert(!is_xml_ws(u[j - i - 1])) by {
            assert(u[j - i - 1] == s@[j - 1]);
        }
        lemma_trim_back_take(u, j - i);
        assert(t@ =~= u.take(j - i));
    }
    t.to_owned()
}

// ---------------------------------------------------------------------
// Tokenizing: bytes to significant events
// ---------------------------------------------------------------------
/// Whether a text is free of surrounding whitespace and not empty.
pub open spec fn text_is_trimmed(t: Seq<char>) -> bool {
    t.len() > 0 && !is_xml_ws(t[0]) && !is_xml_ws(t.last())
}

/// No two character-data events stand next to each other: contiguous
/// text is merged into one run.
pub open spec fn no_adjacent_text(events: Seq<crate::event::EventView>) -> bool {
    forall|i: int|
        0 <= i < events.len() - 1 ==> !((#[trigger] events[i]
            matches crate::event::EventView::Text { .. }) && (events[i + 1]
            matches crate::event::EventView::Text { .. }))
}

/// Every character-data event holds a trimmed, non-empty run.
pub open spec fn texts_trimmed(events: Seq<crate::event::EventView>) -> bool {
    forall|i: int|
        0 <= i < events.len() ==> ((#[trigger] events[i]) matches crate::event::EventView::Text {
            text,
        } ==> text_is_trimmed(text))
}

/// A non-empty front-trimmed sequence keeps its head; a non-empty
/// back-trimmed sequence ends without whitespace.
proof fn lemma_trim_ends(s: Seq<char>)
    ensures
        spec_trim(s).len() > 0 ==> !is_xml_ws(spec_trim(s)[0]),
        spec_trim(s).len() > 0 ==> !is_xml_ws(spec_trim(s).last()),
{
    lemma_trim_front_head(s);
    let f = spec_trim_front(s);
    lemma_trim_back_ends(f);
}

/// The front-trimmed sequence starts without whitespace, and back
/// trimming keeps that.
proof fn lemma_trim_front_head(s: Seq<char>)
    ensures
        spec_trim_front(s).len() > 0 ==> !is_xml_ws(spec_trim_front(s)[0]),
    decreases s.len(),
{
    if s.len() > 0 && is_xml_ws(s[0]) {
        lemma_trim_front_head(s.drop_first());
    }
}

/// Back trimming ends without whitespace and keeps the head.
proof fn lemma_trim_back_ends(s: Seq<char>)
    ensures
        spec_trim_back(s).len() > 0 ==> !is_xml_ws(spec_trim_back(s).last()),
        spec_trim_back(s).len() > 0 ==> spec_trim_back(s)[0] == s[0],
    decreases s.len(),
{
    if s.len() > 0 && is_xml_ws(s.last()) {
        lemma_trim_back_ends(s.drop_last());
        if spec_trim_back(s).len() > 0 {
            assert(s.drop_last()[0] == s[0]);
        }
    }
}

/// What flushing the pending run appends: one `Text` event, trimmed and
/// dropped-when-empty under `trim`.
pub open spec fn spec_flush(
    out: Seq<crate::event::EventView>,
    pending: Seq<char>,
    has_run: bool,
    trim: bool,
) -> Seq<crate::event::EventView> {
    if !has_run {
        out
    } else if trim {
        if spec_trim(pending).len() > 0 {
            out.push(crate::event::EventView::Text { text: spec_trim(pending) })
        } else {
            out
        }
    } else {
        out.push(crate::event::EventView::Text { text: pending })
    }
}

/// Appends the pending text run, if any, as one `Text` event; with `trim`
/// the run is trimmed first and dropped when nothing remains.
fn flush_text(out: &mut Vec<XmlEvent>, pending: &mut String, has_pending: &mut bool, trim: bool)
    ensures
        !*final(has_pending),
        final(pending)@ =~= Seq::<char>::empty() || final(pending)@ == old(pending)@,
        *old(has_pending) ==> final(pending)@ =~= Seq::<char>::empty(),
        !*old(has_pending) ==> final(pending)@ == old(pending)@,
        crate::types::seq_view(final(out)@) == spec_flush(
            crate::types::seq_view(old(out)@),
            old(pending)@,
            *old(has_pending),
            trim,
        ),
{
    if *has_pending {
        if trim {
            let t = trim_ws(pending.as_str());
            if t.unicode_len() > 0 {
                let ev = XmlEvent::Text { text: t };
                proof {
                    crate::types::lemma_seq_view_push(out@, ev);
                }
                out.push(ev);
            }
        } else {
            let t = pending.clone();
            let ev = XmlEvent::Text { text: t };
            proof {
                crate::types::lemma_seq_view_push(out@, ev);
            }
            out.push(ev);
        }
        *pending = String::new();
        *has_pending = false;
    }
}

/// A sequence without adjacent text events stays so when an event is
/// appended, provided a text event never follows a text event.
proof fn lemma_no_adjacent_push(events: Seq<crate::event::EventView>, e: crate::event::EventView)
    requires
        no_adjacent_text(events),
        (e matches crate::event::EventView::Text { .. }) ==> events.len() == 0 || !(events.last()
            matches crate::event::EventView::Text { .. }),
    ensures
        no_adjacent_text(events.push(e)),
{
    let s = events.push(e);
    assert forall|i: int|
        0 <= i < s.len() - 1 implies !((#[trigger] s[i]
        matches crate::event::EventView::Text { .. }) && (s[i + 1]
        matches crate::event::EventView::Text { .. })) by {
        if i + 1 < events.len() {
            assert(s[i] == events[i] && s[i + 1] == events[i + 1]);
        } else {
            assert(s[i] == events[i] && s[i + 1] == e);
            assert(events[i] == events.last());
        }
    }
}

/// Flushing keeps the tokenizer's guarantees.
proof fn lemma_flush_keeps(
    oldv: Seq<crate::event::EventView>,
    pending: Seq<char>,
    has_run: bool,
    trim: bool,
)
    requires
        no_adjacent_text(oldv),
        trim ==> texts_trimmed(oldv),
        oldv.len() > 0 ==> !(oldv.last() matches crate::event::EventView::Text { .. }),
    ensures
        no_adjacent_text(spec_flush(oldv, pending, has_run, trim)),
        trim ==> texts_trimmed(spec_flush(oldv, pending, has_run, trim)),
{
    let newv = spec_flush(oldv, pending, has_run, trim);
    if newv != oldv {
        lemma_no_adjacent_push(oldv, newv.last());
        lemma_trim_ends(pending);
        if trim {
            assert forall|i: int|
                0 <= i < newv.len() implies ((#[trigger] newv[i])
                matches crate::event::EventView::Text { text } ==> text_is_trimmed(text)) by {
                if i < oldv.len() {
                    assert(newv[i] == oldv[i]);
                } else {
                    assert(newv[i] == newv.last());
                }
            }
        }
    }
}

/// Appending an element open or close keeps the tokenizer's guarantees.
proof fn lemma_push_non_text(
    events: Seq<crate::event::EventView>,
    e: crate::event::EventView,
    trim: bool,
)
    requires
        no_adjacent_text(events),
        trim ==> texts_trimmed(events),
        !(e matches crate::event::EventView::Text { .. }),
    ensures
        no_adjacent_text(events.push(e)),
        trim ==> texts_trimmed(events.push(e)),
        !(events.push(e).last() matches crate::event::EventView::Text { .. }),
{
    lemma_no_adjacent_push(events, e);
    if trim {
        assert forall|i: int|
            0 <= i < events.push(e).len() implies ((#[trigger] events.push(e)[i])
            matches crate::event::EventView::Text { text } ==> text_is_trimmed(text)) by {
            if i < events.len() {
                assert(events.push(e)[i] == events[i]);
            } else {
                assert(events.push(e)[i] == e);
            }
        }
    }
}

/// What decoding the raw events into significant events produces, from
/// raw event `i` on, with the pending text run and the collected output
/// so far: empty elements expand, references resolve, text runs merge,
/// and under `trim` runs are trimmed and whitespace-only runs dropped.
/// `Err` on malformed attributes or an unresolvable reference.
pub open spec fn spec_tokenize_loop(
    raw: Seq<RawEventView>,
    i: nat,
    pending: Seq<char>,
    has_run: bool,
    out: Seq<crate::event::EventView>,
    trim: bool,
) -> Result<Seq<crate::event::EventView>, ()>
    decreases raw.len() - i,
{
    if i >= raw.len() {
        Ok(spec_flush(out, pending, has_run, trim))
    } else {
        match raw[i as int] {
            RawEventView::Start { name, attrs_raw } => match attrs_of(attrs_raw) {
                Some(attrs) => spec_tokenize_loop(
                    raw,
                    i + 1,
                    Seq::empty(),
                    false,
                    spec_flush(out, pending, has_run, trim).push(
                        crate::event::EventView::Start { name, attrs },
                    ),
                    trim,
                ),
                None => Err(()),
            },
            RawEventView::Empty { name, attrs_raw } => match attrs_of(attrs_raw) {
                Some(attrs) => spec_tokenize_loop(
                    raw,
                    i + 1,
                    Seq::empty(),
                    false,
                    spec_flush(out, pending, has_run, trim).push(
                        crate::event::EventView::Start { name, attrs },
                    ).push(crate::event::EventView::End),
                    trim,
                ),
                None => Err(()),
            },
            RawEventView::End => spec_tokenize_loop(
                raw,
                i + 1,
                Seq::empty(),
                false,
                spec_flush(out, pending, has_run, trim).push(crate::event::EventView::End),
                trim,
            ),
            RawEventView::Text { text } => spec_tokenize_loop(
                raw,
                i + 1,
                pending + text,
                true,
                out,
                trim,
            ),
            RawEventView::Ref { name } => match spec_ref_char(name) {
                Some(c) => spec_tokenize_loop(raw, i + 1, pending.push(c), true, out, trim),
                None => Err(()),
            },
            RawEventView::Skip => spec_tokenize_loop(raw, i + 1, pending, has_run, out, trim),
        }
    }
}

/// What decoding a whole raw event sequence produces.
pub open spec fn spec_tokenize(raw: Seq<RawEventView>, trim: bool) -> Result<
    Seq<crate::event::EventView>,
    (),
> {
    spec_tokenize_loop(raw, 0, Seq::empty(), false, Seq::empty(), trim)
}

/// Decodes a document into its significant events: empty elements become
/// an open and a close, declarations, comments, processing instructions,
/// doctypes and CDATA sections are skipped, character and entity
/// references are resolved, and contiguous character data is merged into
/// one `Text` event per run.  With `trim`, runs are stripped of
/// surrounding whitespace and whitespace-only runs are dropped.
///
/// The result is exactly `spec_tokenize` of what `quick_xml` decodes the
/// bytes into (`raw_events_of`); it succeeds precisely when the XML is
/// well formed, every attribute list parses, and every reference
/// resolves.  Text runs never stand next to each other, and with `trim`
/// every text run is non-empty and free of surrounding whitespace.
#[verifier::rlimit(100)]
pub fn tokenize(bytes: Vec<u8>, trim: bool) -> (r: Result<Vec<XmlEvent>, Error>)
    ensures
        match r {
            Ok(events) => (raw_events_of(bytes@) matches Some(raw) && spec_tokenize(raw, trim)
                == Ok::<_, ()>(crate::types::seq_view(events@))) && no_adjacent_text(
                crate::types::seq_view(events@),
            ) && (trim ==> texts_trimmed(crate::types::seq_view(events@))),
            Err(e) => (e matches Error::XmlParseError) && (raw_events_of(bytes@) is None || (
            raw_events_of(bytes@) matches Some(raw) && spec_tokenize(raw, trim) is Err)),
        },
{
    let raw = match read_raw_events(bytes) {
        Ok(evs) => evs,
        Err(e) => {
            return Err(e);
        },
    };
    let ghost rawv = crate::types::seq_view(raw@);
    let mut out: Vec<XmlEvent> = Vec::new();
    let mut pending: String = String::new();
    let mut has_pending: bool = false;
    let n = raw.len();
    let mut i: usize = 0;
    proof {
        assert(crate::types::seq_view(out@) =~= Seq::<crate::event::EventView>::empty());
    }
    #[verifier::loop_isolation(false)]
    while i < n
        invariant
            0 <= i <= n,
            no_adjacent_text(crate::types::seq_view(out@)),
            trim ==> texts_trimmed(crate::types::seq_view(out@)),
            crate::types::seq_view(out@).len() > 0 ==> !(crate::types::seq_view(out@).last()
                matches crate::event::EventView::Text { .. }),
            !has_pending ==> pending@ == Seq::<char>::empty(),
            spec_tokenize(rawv, trim) == spec_tokenize_loop(
                rawv,
                i as nat,
                pending@,
                has_pending,
                crate::types::seq_view(out@),
                trim,
            ),
        decreases n - i,
    {
        proof {
            crate::types::lemma_seq_view_index(raw@);
            assert(rawv[i as int] == raw@[i as int]@);
        }
        match &raw[i] {
            RawEvent::Start { name, attrs_raw } => {
                let ghost ov = crate::types::seq_view(out@);
                let ghost pv = pending@;
                let ghost hv = has_pending;
                flush_text(&mut out, &mut pending, &mut has_pending, trim);
                proof {
                    lemma_flush_keeps(ov, pv, hv, trim);
                }
                match parse_raw_attributes(attrs_raw.as_str()) {
                    Ok(attrs) => {
                        let ev = XmlEvent::Start { name: name.clone(), attrs };
                        proof {
                            lemma_push_non_text(crate::types::seq_view(out@), ev@, trim);
                            crate::types::lemma_seq_view_push(out@, ev);
                        }
                        out.push(ev);
                    },
                    Err(e) => {
                        return Err(e);
                    },
                }
            },
            RawEvent::Empty { name, attrs_raw } => {
                let ghost ov = crate::types::seq_view(out@);
                let ghost pv = pending@;
                let ghost hv = has_pending;
                flush_text(&mut out, &mut pending, &mut has_pending, trim);
                proof {
                    lemma_flush_keeps(ov, pv, hv, trim);
                }
                match parse_raw_attributes(attrs_raw.as_str()) {
                    Ok(attrs) => {
                        let ev = XmlEvent::Start { name: name.clone(), attrs };
                        proof {
                            lemma_push_non_text(crate::types::seq_view(out@), ev@, trim);
                            crate::types::lemma_seq_view_push(out@, ev);
                        }
                        out.push(ev);
                        proof {
                            lemma_push_non_text(crate::types::seq_view(out@), XmlEvent::End@, trim);
                            crate::types::lemma_seq_view_push(out@, XmlEvent::End);
                        }
                        out.push(XmlEvent::End);
                    },
                    Err(e) => {
                        return Err(e);
                    },
                }
            },
            RawEvent::End => {
                let ghost ov = crate::types::seq_view(out@);
                let ghost pv = pending@;
                let ghost hv = has_pending;
                flush_text(&mut out, &mut pending, &mut has_pending, trim);
                proof {
                    lemma_flush_keeps(ov, pv, hv, trim);
                    lemma_push_non_text(crate::types::seq_view(out@), XmlEvent::End@, trim);
                    crate::types::lemma_seq_view_push(out@, XmlEvent::End);
                }
                out.push(XmlEvent::End);
            },
            RawEvent::Text { text } => {
                pending.append(text.as_str());
                has_pending = true;
            },
            RawEvent::Ref { name } => {
                match resolve_ref(name.as_str()) {
                    Ok(c) => {
                        let ghost pv0 = pending@;
                        let cs = char_to_string(c);
                        pending.append(cs.as_str());
                        has_pending = true;
                        proof {
                            assert(pending@ =~= pv0.push(c));
                        }
                    },
                    Err(e) => {
                        return Err(e);
                    },
                }
            },
            RawEvent::Skip => {},
        }
        i = i + 1;
    }
    let ghost ov = crate::types::seq_view(out@);
    let ghost pv = pending@;
    let ghost hv = has_pending;
    flush_text(&mut out, &mut pending, &mut has_pending, trim);
    proof {
        lemma_flush_keeps(ov, pv, hv, trim);
    }
    Ok(out)
}

// ---------------------------------------------------------------------
// Rendering: events to bytes
// ---------------------------------------------------------------------
/// One token handed to the XML writer: an open tag with its attributes,
/// character data, or a close tag with its name.
pub enum WriteTok {
    Start(Seq<char>, Seq<(Seq<char>, Seq<char>)>),
    Text(Seq<char>),
    End(Seq<char>),
}

/// The tokens written to a writer so far, in order.
pub uninterp spec fn writer_toks(w: quick_xml::Writer<std::io::Cursor<Vec<u8>>>) -> Seq<WriteTok>;

/// What `quick_xml` spells a token sequence as, with this writer's
/// two-space indentation: a pure function of the tokens.
pub uninterp spec fn bytes_of_toks(toks: Seq<WriteTok>) -> Seq<u8>;

/// Relies on `quick_xml::Writer::new_with_indent`: an XML writer over an
/// in-memory buffer with two-space indentation, nothing written yet.
#[verifier::external_body]
fn new_writer() -> (w: quick_xml::Writer<std::io::Cursor<Vec<u8>>>)
    ensures
        writer_toks(w) == Seq::<WriteTok>::empty(),
{
    quick_xml::Writer::new_with_indent(std::io::Cursor::new(Vec::new()), b' ', 2)
}

/// Relies on `quick_xml::Writer::write_event` with a start tag carrying
/// the given attributes.  Writing cannot fail: the sink is an in-memory
/// buffer whose write position never exceeds its length, and a buffer
/// never holds more than `isize::MAX` bytes.
#[verifier::external_body]
fn write_start_event(
    w: &mut quick_xml::Writer<std::io::Cursor<Vec<u8>>>,
    name: &str,
    attrs: &Vec<(String, String)>,
)
    ensures
        writer_toks(*final(w)) == writer_toks(*old(w)).push(
            WriteTok::Start(name@, crate::event::attrs_view(attrs@)),
        ),
{
    let mut start = quick_xml::events::BytesStart::new(name);
    for a in attrs.iter() {
        start.push_attribute((a.0.as_str(), a.1.as_str()));
    }
    let _ = w.write_event(Event::Start(start));
}

/// Relies on `quick_xml::Writer::write_event` with character data; the
/// writer escapes it.  Writing into the in-memory buffer cannot fail, as
/// for the start tags.
#[verifier::external_body]
fn write_text_event(w: &mut quick_xml::Writer<std::io::Cursor<Vec<u8>>>, text: &str)
    ensures
        writer_toks(*final(w)) == writer_toks(*old(w)).push(WriteTok::Text(text@)),
{
    let _ = w.write_event(Event::Text(quick_xml::events::BytesText::new(text)));
}

/// Relies on `quick_xml::Writer::write_event` with an end tag.  Writing
/// into the in-memory buffer cannot fail, as for the start tags.
#[verifier::external_body]
fn write_end_event(w: &mut quick_xml::Writer<std::io::Cursor<Vec<u8>>>, name: &str)
    ensures
        writer_toks(*final(w)) == writer_toks(*old(w)).push(WriteTok::End(name@)),
{
    let _ = w.write_event(Event::End(quick_xml::events::BytesEnd::new(name)));
}

/// Relies on `quick_xml::Writer::into_inner`: the bytes the written
/// tokens were spelled as.
#[verifier::external_body]
fn writer_into_bytes(w: quick_xml::Writer<std::io::Cursor<Vec<u8>>>) -> (r: Vec<u8>)
    ensures
        r@ == bytes_of_toks(writer_toks(w)),
{
    w.into_inner().into_inner()
}

/// Rendering a segment of events with a stack of open element names: the
/// tokens written, each close tag named after the innermost open
/// element; `None` when a close has no open element.
pub open spec fn spec_render_seg(
    events: Seq<crate::event::EventView>,
    stack: Seq<Seq<char>>,
    toks: Seq<WriteTok>,
) -> Option<(Seq<Seq<char>>, Seq<WriteTok>)>
    decreases events.len(),
{
    if events.len() == 0 {
        Some((stack, toks))
    } else {
        match events[0] {
            crate::event::EventView::Start { name, attrs } => spec_render_seg(
                events.drop_first(),
                stack.push(name),
                toks.push(WriteTok::Start(name, attrs)),
            ),
            crate::event::EventView::Text { text } => spec_render_seg(
                events.drop_first(),
                stack,
                toks.push(WriteTok::Text(text)),
            ),
            crate::event::EventView::End => {
                if stack.len() > 0 {
                    spec_render_seg(
                        events.drop_first(),
                        stack.drop_last(),
                        toks.push(WriteTok::End(stack.last())),
                    )
                } else {
                    None
                }
            },
        }
    }
}

/// Rendering a whole event sequence: defined exactly on balanced
/// sequences — every close has an open element, and nothing stays open.
pub open spec fn spec_render(events: Seq<crate::event::EventView>) -> Option<Seq<WriteTok>> {
    match spec_render_seg(events, Seq::empty(), Seq::empty()) {
        Some((stack, toks)) => if stack.len() == 0 {
            Some(toks)
        } else {
            None
        },
        None => None,
    }
}

/// Rendering a concatenation renders the first part, then the second
/// from where the first left off.
pub proof fn lemma_render_seg_concat(
    a: Seq<crate::event::EventView>,
    b: Seq<crate::event::EventView>,
    stack: Seq<Seq<char>>,
    toks: Seq<WriteTok>,
)
    ensures
        spec_render_seg(a + b, stack, toks) == (match spec_render_seg(a, stack, toks) {
            Some(p) => spec_render_seg(b, p.0, p.1),
            None => None,
        }),
    decreases a.len(),
{
    if a.len() == 0 {
        assert(a + b =~= b);
    } else {
        assert((a + b)[0] == a[0]);
        assert((a + b).drop_first() =~= a.drop_first() + b);
        match a[0] {
            crate::event::EventView::Start { name, attrs } => {
                lemma_render_seg_concat(
                    a.drop_first(),
                    b,
                    stack.push(name),
                    toks.push(WriteTok::Start(name, attrs)),
                );
            },
            crate::event::EventView::Text { text } => {
                lemma_render_seg_concat(a.drop_first(), b, stack, toks.push(WriteTok::Text(text)));
            },
            crate::event::EventView::End => {
                if stack.len() > 0 {
                    lemma_render_seg_concat(
                        a.drop_first(),
                        b,
                        stack.drop_last(),
                        toks.push(WriteTok::End(stack.last())),
                    );
                }
            },
        }
    }
}

/// Encodes significant events as indented XML text.  The bytes are
/// exactly `quick_xml`'s spelling of the rendered tokens; it succeeds
/// precisely when the events are balanced.
pub fn render_events(events: &Vec<XmlEvent>) -> (r: Result<Vec<u8>, Error>)
    ensures
        match r {
            Ok(bytes) => spec_render(crate::types::seq_view(events@)) matches Some(toks) && bytes@
                == bytes_of_toks(toks),
            Err(e) => spec_render(crate::types::seq_view(events@)) is None && (
            e matches Error::XmlParseError),
        },
{
    let ghost evv = crate::types::seq_view(events@);
    let mut w = new_writer();
    let mut open: Vec<String> = Vec::new();
    let n = events.len();
    let mut i: usize = 0;
    proof {
        assert(crate::types::seq_view(open@) =~= Seq::<Seq<char>>::empty());
        assert(evv.skip(0) =~= evv);
    }
    #[verifier::loop_isolation(false)]
    while i < n
        invariant
            0 <= i <= n,
            match spec_render_seg(
                evv.skip(i as int),
                crate::types::seq_view(open@),
                writer_toks(w),
            ) {
                Some(p) => spec_render_seg(evv, Seq::empty(), Seq::empty()) == Some(p),
                None => spec_render_seg(evv, Seq::empty(), Seq::empty()) is None,
            },
        decreases n - i,
    {
        proof {
            crate::types::lemma_seq_view_index(events@);
            assert(evv.skip(i as int)[0] == evv[i as int]);
            assert(evv.skip(i as int).drop_first() =~= evv.skip(i as int + 1));
        }
        match &events[i] {
            XmlEvent::Start { name, attrs } => {
                write_start_event(&mut w, name.as_str(), attrs);
                let ghost ov = crate::types::seq_view(open@);
                open.push(name.clone());
                proof {
                    assert(crate::types::seq_view(open@) =~= ov.push(name@));
                }
            },
            XmlEvent::Text { text } => {
                write_text_event(&mut w, text.as_str());
            },
            XmlEvent::End => {
                let ghost osv = open@;
                match open.pop() {
                    Some(name) => {
                        proof {
                            crate::types::lemma_seq_view_drop_last(osv);
                        }
                        write_end_event(&mut w, name.as_str());
                    },
                    None => {
                        proof {
                            crate::types::lemma_seq_view_index(open@);
                        }
                        return Err(Error::XmlParseError);
                    },
                }
            },
        }
        i = i + 1;
    }
    proof {
        assert(evv.skip(n as int) =~= Seq::<crate::event::EventView>::empty());
        crate::types::lemma_seq_view_index(open@);
    }
    if open.len() > 0 {
        return Err(Error::XmlParseError);
    }
    Ok(writer_into_bytes(w))
}

} // verus!
