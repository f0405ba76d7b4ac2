//! The SOAP runtime: dynamic XML values and shapes mirroring what the
//! generated serializers read and write, `Envelope` framing, and the
//! round-trip law tying serialization and deserialization together.

use vstd::prelude::*;

use crate::codegen::Primitive;
use crate::error::Error;
use crate::event::{attrs_view, spec_local_of, EventView, XmlEvent, XmlReader, XmlWriter};
use crate::num::{
    all_digits, dec_rep, dec_rep_int, dec_val, is_signed_dec, signed_dec_val,
};
use crate::xmlio::{
    bytes_of_toks, lemma_render_seg_concat, raw_events_of, spec_render, spec_render_seg,
    spec_tokenize, WriteTok,
};

verus! {

// ---------------------------------------------------------------------
// Values and shapes
// ---------------------------------------------------------------------
/// A primitive value carried in element text.
#[derive(Debug)]
pub enum PrimValue {
    Bool(bool),
    Int(isize),
    UShort(u16),
    UInt(usize),
    Text(String),
}

/// The ghost value of a [`PrimValue`].
pub enum PrimValueView {
    Bool(bool),
    Int(isize),
    UShort(u16),
    UInt(usize),
    Text(Seq<char>),
}

impl View for PrimValue {
    type V = PrimValueView;

    open spec fn view(&self) -> PrimValueView {
        match self {
            PrimValue::Bool(b) => PrimValueView::Bool(*b),
            PrimValue::Int(i) => PrimValueView::Int(*i),
            PrimValue::UShort(u) => PrimValueView::UShort(*u),
            PrimValue::UInt(u) => PrimValueView::UInt(*u),
            PrimValue::Text(s) => PrimValueView::Text(s@),
        }
    }
}

/// A dynamic XML value of the kind the generated serializers exchange: a
/// tree of named elements whose leaves hold primitive text.  `name` is
/// the full written tag; reading matches its local part only.
#[derive(Debug)]
pub enum XmlValue {
    Prim { name: String, attrs: Vec<(String, String)>, value: PrimValue },
    Node { name: String, attrs: Vec<(String, String)>, children: Vec<XmlValue> },
}

/// The ghost value of an [`XmlValue`].
pub enum XmlValueView {
    Prim { name: Seq<char>, attrs: Seq<(Seq<char>, Seq<char>)>, value: PrimValueView },
    Node { name: Seq<char>, attrs: Seq<(Seq<char>, Seq<char>)>, children: Seq<XmlValueView> },
}

/// The ghost value of an [`XmlValue`].
pub open spec fn view_value(v: XmlValue) -> XmlValueView
    decreases v,
{
    match v {
        XmlValue::Prim { name, attrs, value } => XmlValueView::Prim {
            name: name@,
            attrs: attrs_view(attrs@),
            value: value@,
        },
        XmlValue::Node { name, attrs, children } => XmlValueView::Node {
            name: name@,
            attrs: attrs_view(attrs@),
            children: view_values(children@),
        },
    }
}

/// The ghost values of a child list, in order.
pub open spec fn view_values(s: Seq<XmlValue>) -> Seq<XmlValueView>
    decreases s,
{
    if s.len() == 0 {
        Seq::empty()
    } else {
        seq![view_value(s[0])] + view_values(s.drop_first())
    }
}

impl View for XmlValue {
    type V = XmlValueView;

    open spec fn view(&self) -> XmlValueView {
        view_value(*self)
    }
}

/// `view_values` maps `view_value` over the sequence.
pub proof fn lemma_view_values(s: Seq<XmlValue>)
    ensures
        view_values(s).len() == s.len(),
        forall|i: int| 0 <= i < s.len() ==> view_values(s)[i] == view_value(#[trigger] s[i]),
    decreases s.len(),
{
    if s.len() > 0 {
        lemma_view_values(s.drop_first());
        assert forall|i: int| 0 <= i < s.len() implies view_values(s)[i] == view_value(
            #[trigger] s[i],
        ) by {
            if i > 0 {
                assert(view_values(s)[i] == view_values(s.drop_first())[i - 1]);
                assert(s.drop_first()[i - 1] == s[i]);
            }
        }
    }
}

/// The shape a value is deserialized against: what the generated
/// `from_xml` code knows statically — expected local names and primitive
/// kinds.
#[derive(Debug)]
pub enum XmlShape {
    Prim { name: String, prim: Primitive },
    Node { name: String, children: Vec<XmlShape> },
}

/// The ghost value of an [`XmlShape`].
pub enum XmlShapeView {
    Prim { name: Seq<char>, prim: Primitive },
    Node { name: Seq<char>, children: Seq<XmlShapeView> },
}

/// The ghost value of an [`XmlShape`].
pub open spec fn view_shape(s: XmlShape) -> XmlShapeView
    decreases s,
{
    match s {
        XmlShape::Prim { name, prim } => XmlShapeView::Prim { name: name@, prim },
        XmlShape::Node { name, children } => XmlShapeView::Node {
            name: name@,
            children: view_shapes(children@),
        },
    }
}

/// The ghost values of a shape list, in order.
pub open spec fn view_shapes(s: Seq<XmlShape>) -> Seq<XmlShapeView>
    decreases s,
{
    if s.len() == 0 {
        Seq::empty()
    } else {
        seq![view_shape(s[0])] + view_shapes(s.drop_first())
    }
}

impl View for XmlShape {
    type V = XmlShapeView;

    open spec fn view(&self) -> XmlShapeView {
        view_shape(*self)
    }
}

/// `view_shapes` maps `view_shape` over the sequence.
pub proof fn lemma_view_shapes(s: Seq<XmlShape>)
    ensures
        view_shapes(s).len() == s.len(),
        forall|i: int| 0 <= i < s.len() ==> view_shapes(s)[i] == view_shape(#[trigger] s[i]),
    decreases s.len(),
{
    if s.len() > 0 {
        lemma_view_shapes(s.drop_first());
        assert forall|i: int| 0 <= i < s.len() implies view_shapes(s)[i] == view_shape(
            #[trigger] s[i],
        ) by {
            if i > 0 {
                assert(view_shapes(s)[i] == view_shapes(s.drop_first())[i - 1]);
                assert(s.drop_first()[i - 1] == s[i]);
            }
        }
    }
}

// ---------------------------------------------------------------------
// Primitive text
// ---------------------------------------------------------------------
/// The text a primitive value is written as.
pub open spec fn spec_prim_text(v: PrimValueView) -> Seq<char> {
    match v {
        PrimValueView::Bool(b) => if b {
            "true"@
        } else {
            "false"@
        },
        PrimValueView::Int(i) => dec_rep_int(i as int),
        PrimValueView::UShort(u) => dec_rep(u as nat),
        PrimValueView::UInt(u) => dec_rep(u as nat),
        PrimValueView::Text(s) => s,
    }
}

/// The primitive value a text denotes under a primitive kind, if any.
pub open spec fn spec_prim_of_text(p: Primitive, t: Seq<char>) -> Option<PrimValueView> {
    match p {
        Primitive::Bool => if t == "true"@ {
            Some(PrimValueView::Bool(true))
        } else if t == "false"@ {
            Some(PrimValueView::Bool(false))
        } else {
            None
        },
        Primitive::Int => if is_signed_dec(t) && isize::MIN <= signed_dec_val(t) <= isize::MAX {
            Some(PrimValueView::Int(signed_dec_val(t) as isize))
        } else {
            None
        },
        Primitive::UnsignedShort => if t.len() > 0 && all_digits(t) && dec_val(t) <= u16::MAX {
            Some(PrimValueView::UShort(dec_val(t) as u16))
        } else {
            None
        },
        Primitive::UnsignedInt => if t.len() > 0 && all_digits(t) && dec_val(t) <= usize::MAX {
            Some(PrimValueView::UInt(dec_val(t) as usize))
        } else {
            None
        },
        Primitive::Text => Some(PrimValueView::Text(t)),
    }
}

/// Whether a primitive value is of a primitive kind.
pub open spec fn spec_prim_conforms(v: PrimValueView, p: Primitive) -> bool {
    match (v, p) {
        (PrimValueView::Bool(_), Primitive::Bool) => true,
        (PrimValueView::Int(_), Primitive::Int) => true,
        (PrimValueView::UShort(_), Primitive::UnsignedShort) => true,
        (PrimValueView::UInt(_), Primitive::UnsignedInt) => true,
        (PrimValueView::Text(_), Primitive::Text) => true,
        _ => false,
    }
}

/// Reading back what was written returns the same primitive: the decimal
/// and boolean formatters and parsers are inverses.
pub proof fn lemma_prim_round_trip(v: PrimValueView, p: Primitive)
    requires
        spec_prim_conforms(v, p),
    ensures
        spec_prim_of_text(p, spec_prim_text(v)) == Some(v),
{
    match v {
        PrimValueView::Bool(b) => {
            proof_strlit_distinct();
        },
        PrimValueView::Int(i) => {
            if i >= 0 {
                crate::num::lemma_dec_rep_digits(i as nat);
                crate::num::lemma_dec_rep_val(i as nat);
                let t = dec_rep(i as nat);
                assert(crate::num::is_digit_char(t[0]));
                assert(t[0] != '-' && t[0] != '+');
                assert(is_signed_dec(t));
                assert(signed_dec_val(t) == i as int);
            } else {
                crate::num::lemma_dec_rep_digits((-(i as int)) as nat);
                crate::num::lemma_dec_rep_val((-(i as int)) as nat);
                let t = dec_rep_int(i as int);
                assert(t[0] == '-');
                assert(t.skip(1) =~= dec_rep((-(i as int)) as nat));
                assert(is_signed_dec(t));
                assert(signed_dec_val(t) == i as int);
            }
        },
        PrimValueView::UShort(u) => {
            crate::num::lemma_dec_rep_digits(u as nat);
            crate::num::lemma_dec_rep_val(u as nat);
        },
        PrimValueView::UInt(u) => {
            crate::num::lemma_dec_rep_digits(u as nat);
            crate::num::lemma_dec_rep_val(u as nat);
        },
        PrimValueView::Text(_) => {},
    }
}

/// `true` and `false` are different strings.
proof fn proof_strlit_distinct()
    ensures
        "true"@ != "false"@,
{
    reveal_strlit("true");
    reveal_strlit("false");
    assert("true"@.len() != "false"@.len());
}

/// Formats a primitive value as element text.
pub fn prim_to_text(v: &PrimValue) -> (r: String)
    ensures
        r@ == spec_prim_text(v@),
{
    match v {
        PrimValue::Bool(b) => crate::num::bool_to_string(*b),
        PrimValue::Int(i) => crate::num::isize_to_string(*i),
        PrimValue::UShort(u) => crate::num::u16_to_string(*u),
        PrimValue::UInt(u) => crate::num::usize_to_string(*u),
        PrimValue::Text(s) => s.clone(),
    }
}

/// Parses element text as a primitive of the given kind.
pub fn prim_from_text(p: Primitive, t: &str) -> (r: Option<PrimValue>)
    ensures
        match r {
            Some(v) => spec_prim_of_text(p, t@) == Some(v@),
            None => spec_prim_of_text(p, t@) is None,
        },
{
    match p {
        Primitive::Bool => match crate::num::parse_bool(t) {
            Some(b) => {
                proof {
                    proof_strlit_distinct();
                }
                Some(PrimValue::Bool(b))
            },
            None => None,
        },
        Primitive::Int => match crate::num::parse_isize(t) {
            Some(i) => Some(PrimValue::Int(i)),
            None => None,
        },
        Primitive::UnsignedShort => match crate::num::parse_u16(t) {
            Some(u) => Some(PrimValue::UShort(u)),
            None => None,
        },
        Primitive::UnsignedInt => match crate::num::parse_usize(t) {
            Some(u) => Some(PrimValue::UInt(u)),
            None => None,
        },
        Primitive::Text => Some(PrimValue::Text(t.to_owned())),
    }
}

// ---------------------------------------------------------------------
// Serialization: values to events
// ---------------------------------------------------------------------
/// The events a value is written as: its own element, primitive text or
/// the children in order inside.
pub open spec fn spec_value_events(v: XmlValueView) -> Seq<EventView>
    decreases v,
{
    match v {
        XmlValueView::Prim { name, attrs, value } => seq![
            EventView::Start { name, attrs },
            EventView::Text { text: spec_prim_text(value) },
            EventView::End,
        ],
        XmlValueView::Node { name, attrs, children } => seq![EventView::Start { name, attrs }]
            + spec_values_events(children) + seq![EventView::End],
    }
}

/// The events of a child list, in order.
pub open spec fn spec_values_events(children: Seq<XmlValueView>) -> Seq<EventView>
    decreases children,
{
    if children.len() == 0 {
        Seq::empty()
    } else {
        spec_value_events(children[0]) + spec_values_events(children.drop_first())
    }
}

/// Writes a value: field order in the output equals the order of the
/// children.
pub fn write_value(writer: &mut XmlWriter, v: &XmlValue)
    ensures
        final(writer).written() == old(writer).written() + spec_value_events(v@),
    decreases *v,
{
    match v {
        XmlValue::Prim { name, attrs, value } => {
            writer.write_start(name.as_str(), crate::event::clone_attrs(attrs));
            writer.write_text(prim_to_text(value));
            writer.write_end();
            proof {
                assert(final(writer).written() =~= old(writer).written() + spec_value_events(v@));
            }
        },
        XmlValue::Node { name, attrs, children } => {
            writer.write_start(name.as_str(), crate::event::clone_attrs(attrs));
            let ghost after_start = writer.written();
            let n = children.len();
            let mut i: usize = 0;
            proof {
                lemma_view_values(children@);
                assert(view_values(children@).take(0) =~= Seq::<XmlValueView>::empty());
                assert(writer.written() =~= after_start + spec_values_events(
                    view_values(children@).take(0),
                ));
            }
            #[verifier::loop_isolation(false)]
            while i < n
                invariant
                    0 <= i <= n,
                    writer.written() == after_start + spec_values_events(
                        view_values(children@).take(i as int),
                    ),
                decreases n - i,
            {
                proof {
                    assert(decreases_to!(*v => children@[i as int]));
                }
                write_value(writer, &children[i]);
                proof {
                    let cv = view_values(children@);
                    lemma_values_events_snoc(cv.take(i as int), cv[i as int]);
                    assert(cv.take(i as int).push(cv[i as int]) =~= cv.take(i as int + 1));
                }
                i = i + 1;
            }
            writer.write_end();
            proof {
                assert(view_values(children@).take(n as int) =~= view_values(children@));
                assert(final(writer).written() =~= old(writer).written() + spec_value_events(v@));
            }
        },
    }
}

/// Appending one child extends the event fold.
proof fn lemma_values_events_snoc(children: Seq<XmlValueView>, c: XmlValueView)
    ensures
        spec_values_events(children.push(c)) == spec_values_events(children) + spec_value_events(
            c,
        ),
    decreases children.len(),
{
    let s = children.push(c);
    if children.len() == 0 {
        assert(s[0] == c);
        assert(s.drop_first() =~= Seq::<XmlValueView>::empty());
        assert(spec_values_events(s) == spec_value_events(s[0]) + spec_values_events(
            s.drop_first(),
        ));
        assert(spec_value_events(c) + spec_values_events(s.drop_first()) =~= spec_value_events(c));
        assert(spec_values_events(children) + spec_value_events(c) =~= spec_value_events(c));
    } else {
        assert(s[0] == children[0]);
        assert(s.drop_first() =~= children.drop_first().push(c));
        lemma_values_events_snoc(children.drop_first(), c);
        assert(spec_values_events(s) =~= spec_values_events(children) + spec_value_events(c));
    }
}

// ---------------------------------------------------------------------
// Deserialization: events to values, guided by a shape
// ---------------------------------------------------------------------
/// Whether a value has a shape: local names of its elements match, and
/// leaves carry the declared primitives.
pub open spec fn spec_conforms(v: XmlValueView, s: XmlShapeView) -> bool
    decreases v,
{
    match (v, s) {
        (
            XmlValueView::Prim { name, attrs: _, value },
            XmlShapeView::Prim { name: sname, prim },
        ) => spec_local_of(name) == sname && spec_prim_conforms(value, prim),
        (
            XmlValueView::Node { name, attrs: _, children },
            XmlShapeView::Node { name: sname, children: shapes },
        ) => spec_local_of(name) == sname && spec_conforms_all(children, shapes),
        _ => false,
    }
}

/// Whether children have their shapes, pairwise.
pub open spec fn spec_conforms_all(vs: Seq<XmlValueView>, ss: Seq<XmlShapeView>) -> bool
    decreases vs,
{
    if vs.len() != ss.len() {
        false
    } else if vs.len() == 0 {
        true
    } else {
        spec_conforms(vs[0], ss[0]) && spec_conforms_all(vs.drop_first(), ss.drop_first())
    }
}

/// Parsing one value from the front of an event sequence: the element's
/// local name must match the shape, a leaf must hold parseable text, a
/// node parses its children in order; what remains is returned.
pub open spec fn spec_parse_value(s: XmlShapeView, events: Seq<EventView>) -> Option<
    (XmlValueView, Seq<EventView>),
>
    decreases s, 1int,
{
    match s {
        XmlShapeView::Prim { name: sname, prim } => {
            if events.len() >= 3 {
                match (events[0], events[1], events[2]) {
                    (EventView::Start { name, attrs }, EventView::Text { text }, EventView::End) => {
                        if spec_local_of(name) == sname {
                            match spec_prim_of_text(prim, text) {
                                Some(pv) => Some(
                                    (XmlValueView::Prim { name, attrs, value: pv }, events.skip(3)),
                                ),
                                None => None,
                            }
                        } else {
                            None
                        }
                    },
                    _ => None,
                }
            } else {
                None
            }
        },
        XmlShapeView::Node { name: sname, children: shapes } => {
            if events.len() >= 1 {
                match events[0] {
                    EventView::Start { name, attrs } => {
                        if spec_local_of(name) == sname {
                            match spec_parse_values(shapes, events.skip(1)) {
                                Some((vs, rest)) => {
                                    if rest.len() >= 1 && rest[0] == EventView::End {
                                        Some(
                                            (
                                                XmlValueView::Node { name, attrs, children: vs },
                                                rest.skip(1),
                                            ),
                                        )
                                    } else {
                                        None
                                    }
                                },
                                None => None,
                            }
                        } else {
                            None
                        }
                    },
                    _ => None,
                }
            } else {
                None
            }
        },
    }
}

/// Parsing a child list in order.
pub open spec fn spec_parse_values(ss: Seq<XmlShapeView>, events: Seq<EventView>) -> Option<
    (Seq<XmlValueView>, Seq<EventView>),
>
    decreases ss, 0int,
{
    if ss.len() == 0 {
        Some((Seq::empty(), events))
    } else {
        match spec_parse_value(ss[0], events) {
            Some((v, rest)) => match spec_parse_values(ss.drop_first(), rest) {
                Some((vs, rest2)) => Some((seq![v] + vs, rest2)),
                None => None,
            },
            None => None,
        }
    }
}

/// Reads one value, guided by its shape.
pub fn read_value(reader: &mut XmlReader, shape: &XmlShape) -> (r: Result<XmlValue, Error>)
    ensures
        match r {
            Ok(v) => spec_parse_value(shape@, old(reader).remaining()) == Some(
                (v@, final(reader).remaining()),
            ),
            Err(e) => spec_parse_value(shape@, old(reader).remaining()) is None && (
            e matches Error::XmlParseError),
        },
    decreases *shape,
{
    match shape {
        XmlShape::Prim { name: sname, prim } => {
            let start = match crate::event::expect_start(reader, sname.as_str()) {
                Some(ev) => ev,
                None => {
                    return Err(Error::XmlParseError);
                },
            };
            let text = match crate::event::expect_text(reader) {
                Some(t) => t,
                None => {
                    return Err(Error::XmlParseError);
                },
            };
            if !crate::event::expect_end(reader) {
                return Err(Error::XmlParseError);
            }
            let value = match prim_from_text(*prim, text.as_str()) {
                Some(v) => v,
                None => {
                    return Err(Error::XmlParseError);
                },
            };
            match start {
                XmlEvent::Start { name, attrs } => {
                    let v = XmlValue::Prim { name, attrs, value };
                    proof {
                        assert(old(reader).remaining().skip(3) =~= final(reader).remaining());
                    }
                    Ok(v)
                },
                _ => Err(Error::XmlParseError),
            }
        },
        XmlShape::Node { name: sname, children: shapes } => {
            let start = match crate::event::expect_start(reader, sname.as_str()) {
                Some(ev) => ev,
                None => {
                    return Err(Error::XmlParseError);
                },
            };
            let ghost after_start = reader.remaining();
            proof {
                assert(after_start =~= old(reader).remaining().skip(1));
                lemma_view_shapes(shapes@);
            }
            let ghost sv = view_shapes(shapes@);
            let mut children: Vec<XmlValue> = Vec::new();
            let n = shapes.len();
            let mut i: usize = 0;
            proof {
                lemma_view_values(children@);
                assert(view_values(children@) =~= Seq::<XmlValueView>::empty());
                assert(sv.skip(0) =~= sv);
                match spec_parse_values(sv, after_start) {
                    Some((vs, rest)) => {
                        assert(view_values(children@) + vs =~= vs);
                    },
                    None => {},
                }
            }
            #[verifier::loop_isolation(false)]
            while i < n
                invariant
                    0 <= i <= n,
                    children@.len() == i,
                    match spec_parse_values(sv.skip(i as int), reader.remaining()) {
                        Some((vs, rest)) => spec_parse_values(sv, after_start) == Some(
                            (view_values(children@) + vs, rest),
                        ),
                        None => spec_parse_values(sv, after_start) is None,
                    },
                decreases n - i,
            {
                proof {
                    assert(decreases_to!(*shape => shapes@[i as int]));
                    assert(sv.skip(i as int)[0] == sv[i as int]);
                    assert(sv.skip(i as int).drop_first() =~= sv.skip(i as int + 1));
                }
                let ghost oldc = view_values(children@);
                match read_value(reader, &shapes[i]) {
                    Ok(v) => {
                        proof {
                            lemma_view_values(children@);
                            lemma_view_values(children@.push(v));
                            assert forall|x: int|
                                0 <= x < children@.len() + 1 implies view_values(
                                children@.push(v),
                            )[x] == (view_values(children@).push(v@))[x] by {
                                if x < children@.len() {
                                    assert(children@.push(v)[x] == children@[x]);
                                } else {
                                    assert(children@.push(v)[x] == v);
                                }
                            }
                            assert(view_values(children@.push(v)) =~= oldc.push(v@));
                        }
                        children.push(v);
                        proof {
                            assert(view_values(children@) == oldc.push(v@));
                            match spec_parse_values(sv.skip(i as int + 1), reader.remaining()) {
                                Some((vs, rest)) => {
                                    assert(oldc.push(v@) + vs =~= oldc + (seq![v@] + vs));
                                },
                                None => {},
                            }
                        }
                    },
                    Err(e) => {
                        return Err(e);
                    },
                }
                i = i + 1;
            }
            proof {
                assert(sv.skip(n as int) =~= Seq::<XmlShapeView>::empty());
                match spec_parse_values(sv, after_start) {
                    Some((vs, rest)) => {
                        assert(view_values(children@) + Seq::<XmlValueView>::empty()
                            =~= view_values(children@));
                    },
                    None => {},
                }
            }
            if !crate::event::expect_end(reader) {
                return Err(Error::XmlParseError);
            }
            match start {
                XmlEvent::Start { name, attrs } => {
                    Ok(XmlValue::Node { name, attrs, children })
                },
                _ => Err(Error::XmlParseError),
            }
        },
    }
}

/// Consumes a text event and parses it as a primitive of the given kind;
/// `None` when the next event is not text or the text does not parse.
pub fn expect_value(reader: &mut XmlReader, prim: Primitive) -> (r: Option<PrimValue>)
    ensures
        match r {
            Some(v) => old(reader).remaining().len() > 0 && (old(reader).remaining()[0]
                matches EventView::Text { text } && spec_prim_of_text(prim, text) == Some(v@))
                && final(reader).remaining() == old(reader).remaining().drop_first(),
            None => !(old(reader).remaining().len() > 0 && (old(reader).remaining()[0]
                matches EventView::Text { text } && spec_prim_of_text(prim, text) is Some))
                && (if old(reader).remaining().len() > 0 {
                final(reader).remaining() == old(reader).remaining().drop_first()
            } else {
                final(reader).remaining() == old(reader).remaining()
            }),
        },
{
    match crate::event::expect_text(reader) {
        Some(t) => prim_from_text(prim, t.as_str()),
        None => None,
    }
}

/// Serialization into an event writer, as the generated types implement
/// it.  The contracts of the library live on the concrete
/// [`XmlValue`]/[`XmlShape`] path; this trait is the surface generated
/// code composes against.
pub trait ToXml {
    /// Writes this value; with `top_level`, the outermost element also
    /// declares the known namespaces.
    fn to_xml(&self, writer: &mut XmlWriter, top_level: bool);
}

/// Deserialization from an event reader, as the generated types
/// implement it.
pub trait FromXml: Sized {
    /// Reads one value; `None` when the events do not fit.
    fn from_xml(reader: &mut XmlReader) -> Option<Self>;
}

impl ToXml for XmlValue {
    /// A dynamic value carries its namespace declarations in its own
    /// attributes, so `top_level` adds nothing.
    fn to_xml(&self, writer: &mut XmlWriter, _top_level: bool) {
        write_value(writer, self);
    }
}

// ---------------------------------------------------------------------
// The round-trip law
// ---------------------------------------------------------------------
/// Parsing what a value serializes to returns that value and leaves the
/// rest untouched, for every value that has the shape: serialization and
/// shape-guided deserialization are inverses at the event level.
pub proof fn lemma_value_round_trip(v: XmlValueView, s: XmlShapeView, rest: Seq<EventView>)
    requires
        spec_conforms(v, s),
    ensures
        spec_parse_value(s, spec_value_events(v) + rest) == Some((v, rest)),
    decreases v, 1int,
{
    let events = spec_value_events(v) + rest;
    match v {
        XmlValueView::Prim { name, attrs, value } => {
            match s {
                XmlShapeView::Prim { name: sname, prim } => {
                    lemma_prim_round_trip(value, prim);
                    assert(events[0] == (EventView::Start { name, attrs }));
                    assert(events[1] == (EventView::Text { text: spec_prim_text(value) }));
                    assert(events[2] == EventView::End);
                    assert(events.skip(3) =~= rest);
                },
                _ => {},
            }
        },
        XmlValueView::Node { name, attrs, children } => {
            match s {
                XmlShapeView::Node { name: sname, children: shapes } => {
                    assert(events[0] == (EventView::Start { name, attrs }));
                    assert(events.skip(1) =~= spec_values_events(children) + (
                    seq![EventView::End] + rest));
                    lemma_values_round_trip(children, shapes, seq![EventView::End] + rest);
                    let after = seq![EventView::End] + rest;
                    assert(spec_parse_values(shapes, events.skip(1)) == Some((children, after)));
                    assert(after[0] == EventView::End);
                    assert(after.skip(1) =~= rest);
                },
                _ => {},
            }
        },
    }
}

/// Parsing what a child list serializes to returns those children.
pub proof fn lemma_values_round_trip(
    vs: Seq<XmlValueView>,
    ss: Seq<XmlShapeView>,
    rest: Seq<EventView>,
)
    requires
        spec_conforms_all(vs, ss),
    ensures
        spec_parse_values(ss, spec_values_events(vs) + rest) == Some((vs, rest)),
    decreases vs, 0int,
{
    if vs.len() == 0 {
        assert(spec_values_events(vs) + rest =~= rest);
        assert(spec_parse_values(ss, rest) == Some((Seq::<XmlValueView>::empty(), rest)));
        assert(vs =~= Seq::<XmlValueView>::empty());
    } else {
        let tail_events = spec_values_events(vs.drop_first()) + rest;
        assert(spec_values_events(vs) + rest =~= spec_value_events(vs[0]) + tail_events);
        lemma_value_round_trip(vs[0], ss[0], tail_events);
        lemma_values_round_trip(vs.drop_first(), ss.drop_first(), rest);
        assert(seq![vs[0]] + vs.drop_first() =~= vs);
    }
}

// ---------------------------------------------------------------------
// Envelope framing
// ---------------------------------------------------------------------
/// A SOAP envelope around a body.
#[derive(Debug)]
pub struct Envelope<T> {
    body: T,
}

impl<T> Envelope<T> {
    /// The wrapped body.
    pub closed spec fn spec_body(&self) -> T {
        self.body
    }

    /// Wraps a body.
    pub fn new(body: T) -> (r: Self)
        ensures
            r.spec_body() == body,
    {
        Envelope { body }
    }

    /// The body.
    pub fn into_body(self) -> (r: T)
        ensures
            r == self.spec_body(),
    {
        self.body
    }

    /// A reference to the body.
    pub fn body(&self) -> (r: &T)
        ensures
            r == self.spec_body(),
    {
        &self.body
    }
}

/// The events of a SOAP envelope around the given body events.
pub open spec fn spec_envelope_events(body: Seq<EventView>) -> Seq<EventView> {
    seq![
        EventView::Start {
            name: "soapenv:Envelope"@,
            attrs: seq![("xmlns:soapenv"@, "http://schemas.xmlsoap.org/soap/envelope/"@)],
        },
        EventView::Start { name: "soapenv:Body"@, attrs: Seq::empty() },
    ] + body + seq![EventView::End, EventView::End]
}

/// Parsing an envelope: an `Envelope` element, a `Body` element, the body
/// value, and the two closes; namespaces are matched by local name only.
pub open spec fn spec_parse_envelope(s: XmlShapeView, events: Seq<EventView>) -> Option<
    XmlValueView,
> {
    if events.len() >= 2 && (events[0] matches EventView::Start { name: n0, .. }
        && spec_local_of(n0) == "Envelope"@) && (events[1] matches EventView::Start {
        name: n1,
        ..
    } && spec_local_of(n1) == "Body"@) {
        match spec_parse_value(s, events.skip(2)) {
            Some((v, rest)) => {
                if rest.len() >= 2 && rest[0] == EventView::End && rest[1] == EventView::End {
                    Some(v)
                } else {
                    None
                }
            },
            None => None,
        }
    } else {
        None
    }
}

/// A value's events are balanced: rendering them from any stack of open
/// elements succeeds and leaves that stack as it was.
pub proof fn lemma_value_events_render(
    v: XmlValueView,
    stack: Seq<Seq<char>>,
    toks: Seq<WriteTok>,
)
    ensures
        spec_render_seg(spec_value_events(v), stack, toks) matches Some(p) && p.0 == stack,
    decreases v, 1int,
{
    match v {
        XmlValueView::Prim { name, attrs, value } => {
            let ev = spec_value_events(v);
            let t1 = ev.drop_first();
            let t2 = t1.drop_first();
            let t3 = t2.drop_first();
            let s1 = stack.push(name);
            let k1 = toks.push(WriteTok::Start(name, attrs));
            let k2 = k1.push(WriteTok::Text(spec_prim_text(value)));
            assert(ev[0] == (EventView::Start { name, attrs }));
            assert(spec_render_seg(ev, stack, toks) == spec_render_seg(t1, s1, k1));
            assert(t1[0] == (EventView::Text { text: spec_prim_text(value) }));
            assert(spec_render_seg(t1, s1, k1) == spec_render_seg(t2, s1, k2));
            assert(t2[0] == EventView::End);
            assert(s1.len() > 0 && s1.last() == name);
            assert(s1.drop_last() =~= stack);
            assert(spec_render_seg(t2, s1, k2) == spec_render_seg(
                t3,
                s1.drop_last(),
                k2.push(WriteTok::End(name)),
            ));
            assert(t3 =~= Seq::<EventView>::empty());
            assert(spec_render_seg(t3, stack, k2.push(WriteTok::End(name))) == Some(
                (stack, k2.push(WriteTok::End(name))),
            ));
        },
        XmlValueView::Node { name, attrs, children } => {
            let ev = spec_value_events(v);
            assert(ev[0] == (EventView::Start { name, attrs }));
            let inner = stack.push(name);
            let toks1 = toks.push(WriteTok::Start(name, attrs));
            assert(ev.drop_first() =~= spec_values_events(children) + seq![EventView::End]);
            lemma_render_seg_concat(
                spec_values_events(children),
                seq![EventView::End],
                inner,
                toks1,
            );
            lemma_values_events_render(children, inner, toks1);
            match spec_render_seg(spec_values_events(children), inner, toks1) {
                Some(p) => {
                    let post = seq![EventView::End];
                    assert(post[0] == EventView::End);
                    assert(inner.len() > 0 && inner.last() == name);
                    assert(inner.drop_last() =~= stack);
                    assert(post.drop_first() =~= Seq::<EventView>::empty());
                    assert(spec_render_seg(post, p.0, p.1) == spec_render_seg(
                        post.drop_first(),
                        stack,
                        p.1.push(WriteTok::End(name)),
                    ));
                    assert(spec_render_seg(post.drop_first(), stack, p.1.push(
                        WriteTok::End(name),
                    )) == Some((stack, p.1.push(WriteTok::End(name)))));
                },
                None => {},
            }
        },
    }
}

/// A child list's events are balanced, from any stack.
pub proof fn lemma_values_events_render(
    children: Seq<XmlValueView>,
    stack: Seq<Seq<char>>,
    toks: Seq<WriteTok>,
)
    ensures
        spec_render_seg(spec_values_events(children), stack, toks) matches Some(p) && p.0
            == stack,
    decreases children, 0int,
{
    if children.len() == 0 {
    } else {
        lemma_value_events_render(children[0], stack, toks);
        lemma_render_seg_concat(
            spec_value_events(children[0]),
            spec_values_events(children.drop_first()),
            stack,
            toks,
        );
        match spec_render_seg(spec_value_events(children[0]), stack, toks) {
            Some(p) => {
                lemma_values_events_render(children.drop_first(), p.0, p.1);
            },
            None => {},
        }
    }
}

/// An envelope's events are balanced: rendering always succeeds.
pub proof fn lemma_envelope_events_render(v: XmlValueView)
    ensures
        spec_render(spec_envelope_events(spec_value_events(v))) is Some,
{
    let body = spec_value_events(v);
    let ev = spec_envelope_events(body);
    let env_attrs = seq![("xmlns:soapenv"@, "http://schemas.xmlsoap.org/soap/envelope/"@)];
    let pre = seq![
        EventView::Start { name: "soapenv:Envelope"@, attrs: env_attrs },
        EventView::Start { name: "soapenv:Body"@, attrs: Seq::empty() },
    ];
    let post = seq![EventView::End, EventView::End];
    assert(ev =~= pre + (body + post));
    let empty_stack = Seq::<Seq<char>>::empty();
    let empty_toks = Seq::<WriteTok>::empty();
    lemma_render_seg_concat(pre, body + post, empty_stack, empty_toks);
    // the two opens
    let s1 = empty_stack.push("soapenv:Envelope"@);
    let s2 = s1.push("soapenv:Body"@);
    let k1 = empty_toks.push(WriteTok::Start("soapenv:Envelope"@, env_attrs));
    let k2 = k1.push(WriteTok::Start("soapenv:Body"@, Seq::empty()));
    assert(pre[0] == (EventView::Start { name: "soapenv:Envelope"@, attrs: env_attrs }));
    assert(spec_render_seg(pre, empty_stack, empty_toks) == spec_render_seg(
        pre.drop_first(),
        s1,
        k1,
    ));
    assert(pre.drop_first()[0] == (EventView::Start {
        name: "soapenv:Body"@,
        attrs: Seq::<(Seq<char>, Seq<char>)>::empty(),
    }));
    assert(spec_render_seg(pre.drop_first(), s1, k1) == spec_render_seg(
        pre.drop_first().drop_first(),
        s2,
        k2,
    ));
    assert(pre.drop_first().drop_first() =~= Seq::<EventView>::empty());
    assert(spec_render_seg(pre, empty_stack, empty_toks) == Some((s2, k2)));
    lemma_render_seg_concat(body, post, s2, k2);
    lemma_value_events_render(v, s2, k2);
    match spec_render_seg(body, s2, k2) {
        Some(p) => {
            assert(post[0] == EventView::End);
            assert(s2.len() > 0 && s2.last() == "soapenv:Body"@);
            assert(s2.drop_last() =~= s1);
            assert(spec_render_seg(post, p.0, p.1) == spec_render_seg(
                post.drop_first(),
                s1,
                p.1.push(WriteTok::End("soapenv:Body"@)),
            ));
            assert(post.drop_first()[0] == EventView::End);
            assert(s1.len() > 0 && s1.last() == "soapenv:Envelope"@);
            assert(s1.drop_last() =~= empty_stack);
            let k3 = p.1.push(WriteTok::End("soapenv:Body"@)).push(
                WriteTok::End("soapenv:Envelope"@),
            );
            assert(spec_render_seg(post.drop_first(), s1, p.1.push(
                WriteTok::End("soapenv:Body"@),
            )) == spec_render_seg(post.drop_first().drop_first(), empty_stack, k3));
            assert(post.drop_first().drop_first() =~= Seq::<EventView>::empty());
            assert(spec_render_seg(post.drop_first().drop_first(), empty_stack, k3) == Some(
                (empty_stack, k3),
            ));
        },
        None => {},
    }
}

impl Envelope<XmlValue> {
    /// Serializes the envelope: `Envelope` and `Body` in the SOAP 1.1
    /// namespace around the body's own element.
    pub fn to_events(&self) -> (r: Vec<XmlEvent>)
        ensures
            crate::types::seq_view(r@) == spec_envelope_events(spec_value_events(self.spec_body()@)),
    {
        let mut writer = XmlWriter::new();
        let mut env_attrs: Vec<(String, String)> = Vec::new();
        env_attrs.push(
            (
                "xmlns:soapenv".to_owned(),
                "http://schemas.xmlsoap.org/soap/envelope/".to_owned(),
            ),
        );
        proof {
            assert(attrs_view(env_attrs@) =~= seq![
                ("xmlns:soapenv"@, "http://schemas.xmlsoap.org/soap/envelope/"@),
            ]);
        }
        writer.write_start("soapenv:Envelope", env_attrs);
        let body_attrs: Vec<(String, String)> = Vec::new();
        proof {
            assert(attrs_view(body_attrs@) =~= Seq::<(Seq<char>, Seq<char>)>::empty());
        }
        writer.write_start("soapenv:Body", body_attrs);
        write_value(&mut writer, &self.body);
        writer.write_end();
        writer.write_end();
        let events = writer.into_events();
        proof {
            assert(crate::types::seq_view(events@) =~= spec_envelope_events(
                spec_value_events(self.body@),
            ));
        }
        events
    }

    /// Serializes the envelope to bytes: exactly `quick_xml`'s spelling
    /// of the envelope's rendered tokens.  The events are balanced by
    /// construction, so this always succeeds.
    pub fn to_request(&self) -> (r: Result<Vec<u8>, Error>)
        ensures
            ({
                let ev = spec_envelope_events(spec_value_events(self.spec_body()@));
                r matches Ok(bytes) && (spec_render(ev) matches Some(toks) && bytes@
                    == bytes_of_toks(toks))
            }),
    {
        let events = self.to_events();
        proof {
            lemma_envelope_events_render(self.spec_body()@);
        }
        crate::xmlio::render_events(&events)
    }

    /// Deserializes an envelope from events, the body guided by `shape`.
    pub fn from_events(events: Vec<XmlEvent>, shape: &XmlShape) -> (r: Result<Self, Error>)
        ensures
            match r {
                Ok(env) => spec_parse_envelope(shape@, crate::types::seq_view(events@)) == Some(
                    env.spec_body()@,
                ),
                Err(e) => spec_parse_envelope(shape@, crate::types::seq_view(events@)) is None && (
                e matches Error::XmlParseError),
            },
    {
        let ghost all = crate::types::seq_view(events@);
        let mut reader = XmlReader::new(events);
        if crate::event::expect_start(&mut reader, "Envelope").is_none() {
            return Err(Error::XmlParseError);
        }
        if crate::event::expect_start(&mut reader, "Body").is_none() {
            return Err(Error::XmlParseError);
        }
        proof {
            assert(reader.remaining() =~= all.skip(2));
        }
        let body = match read_value(&mut reader, shape) {
            Ok(v) => v,
            Err(e) => {
                return Err(e);
            },
        };
        if !crate::event::expect_end(&mut reader) {
            return Err(Error::XmlParseError);
        }
        if !crate::event::expect_end(&mut reader) {
            return Err(Error::XmlParseError);
        }
        Ok(Envelope { body })
    }

    /// Deserializes an envelope from response bytes: what `quick_xml`
    /// decodes the bytes into, tokenized with whitespace trimmed (as the
    /// runtime reader configures), then parsed against the shape.
    pub fn from_response(bytes: Vec<u8>, shape: &XmlShape) -> (r: Result<Self, Error>)
        ensures
            match r {
                Ok(env) => raw_events_of(bytes@) matches Some(raw) && (spec_tokenize(raw, true)
                    matches Ok(evs) && spec_parse_envelope(shape@, evs) == Some(
                    env.spec_body()@,
                )),
                Err(e) => (e matches Error::XmlParseError) && (raw_events_of(bytes@) is None || (
                raw_events_of(bytes@) matches Some(raw) && (spec_tokenize(raw, true) is Err || (
                spec_tokenize(raw, true) matches Ok(evs) && spec_parse_envelope(shape@, evs)
                    is None)))),
            },
    {
        match crate::xmlio::tokenize(bytes, true) {
            Ok(events) => Self::from_events(events, shape),
            Err(e) => Err(e),
        }
    }
}

impl<T: ToXml> ToXml for Envelope<T> {
    /// Frames the body in `Envelope` and `Body` in the SOAP 1.1
    /// namespace.
    fn to_xml(&self, writer: &mut XmlWriter, top_level: bool) {
        let mut env_attrs: Vec<(String, String)> = Vec::new();
        env_attrs.push(
            (
                "xmlns:soapenv".to_owned(),
                "http://schemas.xmlsoap.org/soap/envelope/".to_owned(),
            ),
        );
        writer.write_start("soapenv:Envelope", env_attrs);
        writer.write_start("soapenv:Body", Vec::new());
        self.body.to_xml(writer, top_level);
        writer.write_end();
        writer.write_end();
    }
}

impl<T: FromXml> FromXml for Envelope<T> {
    /// Consumes `Envelope` and `Body`, the body, and the two closes.
    fn from_xml(reader: &mut XmlReader) -> Option<Self> {
        if crate::event::expect_start(reader, "Envelope").is_none() {
            return None;
        }
        if crate::event::expect_start(reader, "Body").is_none() {
            return None;
        }
        let body = match T::from_xml(reader) {
            Some(b) => b,
            None => {
                return None;
            },
        };
        if !crate::event::expect_end(reader) {
            return None;
        }
        if !crate::event::expect_end(reader) {
            return None;
        }
        Some(Envelope { body })
    }
}

/// The envelope round trip: parsing a serialized envelope returns the
/// same body, for any body value whose type graph is records and
/// built-ins — exactly the values [`XmlValue`] can hold.
pub proof fn lemma_envelope_round_trip(v: XmlValueView, s: XmlShapeView)
    requires
        spec_conforms(v, s),
    ensures
        spec_parse_envelope(s, spec_envelope_events(spec_value_events(v))) == Some(v),
{
    let events = spec_envelope_events(spec_value_events(v));
    reveal_strlit("soapenv:Envelope");
    reveal_strlit("soapenv:Body");
    reveal_strlit("Envelope");
    reveal_strlit("Body");
    crate::event::lemma_colon_index("soapenv:Envelope"@);
    crate::event::lemma_colon_index("soapenv:Body"@);
    assert(spec_local_of("soapenv:Envelope"@) =~= "Envelope"@) by {
        lemma_local_of_soapenv();
    }
    assert(spec_local_of("soapenv:Body"@) =~= "Body"@) by {
        lemma_local_of_soapenv();
    }
    assert(events.skip(2) =~= spec_value_events(v) + seq![EventView::End, EventView::End]);
    lemma_value_round_trip(v, s, seq![EventView::End, EventView::End]);
}

/// The local parts of the `soapenv:` tags.
proof fn lemma_local_of_soapenv()
    ensures
        spec_local_of("soapenv:Envelope"@) == "Envelope"@,
        spec_local_of("soapenv:Body"@) == "Body"@,
{
    reveal_strlit("soapenv:Envelope");
    reveal_strlit("soapenv:Body");
    reveal_strlit("Envelope");
    reveal_strlit("Body");
    lemma_colon_at("soapenv:Envelope"@, 7);
    lemma_colon_at("soapenv:Body"@, 7);
    assert(spec_local_of("soapenv:Envelope"@) =~= "Envelope"@);
    assert(spec_local_of("soapenv:Body"@) =~= "Body"@);
}

/// Identifies the first colon of a sequence.
proof fn lemma_colon_at(s: Seq<char>, i: int)
    requires
        0 <= i < s.len(),
        s[i] == ':',
        forall|k: int| 0 <= k < i ==> s[k] != ':',
    ensures
        crate::event::spec_colon_index(s) == Some(i),
{
    crate::event::lemma_colon_index(s);
    match crate::event::spec_colon_index(s) {
        Some(j) => {
            if j < i {
                assert(s[j] != ':');
            } else if j > i {
                assert(s[i] != ':');
            }
        },
        None => {
            assert(s[i] != ':');
        },
    }
}

} // verus!
