use suds::codegen::Primitive;
use suds::error::Error;
use suds::event::{
    expect_end, expect_start, expect_text, is_start, split_namespaced_name, XmlEvent, XmlReader,
    XmlWriter,
};
use suds::parser::{parse, CurrentNamespaces, Document};
use suds::soap::{Envelope, PrimValue, XmlShape, XmlValue};
use suds::types::Namespaces;

#[test]
fn qualified_names_split_at_the_first_colon() {
    assert_eq!(split_namespaced_name("tns:Foo"), (Some("tns"), "Foo"));
    assert_eq!(split_namespaced_name("Foo"), (None, "Foo"));
    assert_eq!(split_namespaced_name(":Foo"), (Some(""), "Foo"));
    assert_eq!(split_namespaced_name("a:b:c"), (Some("a"), "b:c"));
}

#[test]
fn start_events_match_on_the_local_name() {
    let ev = XmlEvent::Start { name: "soapenv:Envelope".to_owned(), attrs: vec![] };
    assert!(is_start(&ev, "Envelope"));
    assert!(!is_start(&ev, "Body"));
    assert!(!is_start(&XmlEvent::End, "Envelope"));
}

#[test]
fn reader_walks_the_events() {
    let events = vec![
        XmlEvent::Start { name: "a:x".to_owned(), attrs: vec![] },
        XmlEvent::Text { text: "hi".to_owned() },
        XmlEvent::End,
    ];
    let mut reader = XmlReader::new(events);
    assert!(expect_start(&mut reader, "x").is_some());
    assert_eq!(expect_text(&mut reader).as_deref(), Some("hi"));
    assert!(expect_end(&mut reader));
    assert!(!expect_end(&mut reader));
}

#[test]
fn writer_collects_what_it_wrote() {
    let mut writer = XmlWriter::new();
    writer.write_start("t", vec![("k".to_owned(), "v".to_owned())]);
    writer.write_text("body".to_owned());
    writer.write_end();
    let events = writer.into_events();
    assert_eq!(events.len(), 3);
    match &events[0] {
        XmlEvent::Start { name, attrs } => {
            assert_eq!(name, "t");
            assert_eq!(attrs[0].0, "k");
            assert_eq!(attrs[0].1, "v");
        }
        other => panic!("expected a start event, got {:?}", other),
    }
}

#[test]
fn envelope_round_trips_at_the_event_level() {
    let body = XmlValue::Node {
        name: "ns0:Pair".to_owned(),
        attrs: vec![("xmlns:ns0".to_owned(), "http://p.example/".to_owned())],
        children: vec![
            XmlValue::Prim {
                name: "ns0:flag".to_owned(),
                attrs: vec![],
                value: PrimValue::Bool(true),
            },
            XmlValue::Prim {
                name: "ns0:label".to_owned(),
                attrs: vec![],
                value: PrimValue::Text("x".to_owned()),
            },
        ],
    };
    let shape = XmlShape::Node {
        name: "Pair".to_owned(),
        children: vec![
            XmlShape::Prim { name: "flag".to_owned(), prim: Primitive::Bool },
            XmlShape::Prim { name: "label".to_owned(), prim: Primitive::Text },
        ],
    };
    let envelope = Envelope::new(body);
    let events = envelope.to_events();
    let back = Envelope::<XmlValue>::from_events(events, &shape).expect("parse");
    match back.into_body() {
        XmlValue::Node { name, attrs, children } => {
            assert_eq!(name, "ns0:Pair");
            assert_eq!(attrs.len(), 1);
            assert_eq!(children.len(), 2);
            match &children[0] {
                XmlValue::Prim { value: PrimValue::Bool(b), .. } => assert!(*b),
                other => panic!("expected the flag, got {:?}", other),
            }
            match &children[1] {
                XmlValue::Prim { value: PrimValue::Text(t), .. } => assert_eq!(t, "x"),
                other => panic!("expected the label, got {:?}", other),
            }
        }
        other => panic!("expected a node, got {:?}", other),
    }
}

#[test]
fn namespace_context_resolves_prefixes() {
    let mut table = Namespaces::new();
    let mut cn = CurrentNamespaces::new();
    cn.push_target_namespace("http://t.example/".to_owned());
    cn.add_namespace_prefix(Some("s".to_owned()), "http://s.example/");
    cn.add_namespace_prefix(None, "http://default.example/");

    let tn = cn.target_namespaced(&mut table, "A".to_owned()).expect("target");
    let sn = cn
        .resolved_prefix(&mut table, Some("s".to_owned()), "B".to_owned())
        .expect("prefixed");
    let dn = cn.resolved_prefix(&mut table, None, "C".to_owned()).expect("default");
    assert_eq!(tn.index(), 0);
    assert_eq!(sn.index(), 1);
    assert_eq!(dn.index(), 2);
    assert_eq!(table.namespaces().len(), 3);

    // rebinding a prefix replaces the earlier binding
    cn.add_namespace_prefix(Some("s".to_owned()), "http://other.example/");
    let sn2 = cn
        .resolved_prefix(&mut table, Some("s".to_owned()), "B".to_owned())
        .expect("rebound");
    assert_eq!(table.namespaces()[sn2.index()], "http://other.example/");

    // an unknown prefix is a structural error
    match cn.resolved_prefix(&mut table, Some("zz".to_owned()), "D".to_owned()) {
        Err(Error::StructuralError) => {}
        other => panic!("expected a structural error, got {:?}", other),
    }

    // a copy with another innermost target namespace
    let cn2 = cn.with_target("http://inner.example/".to_owned());
    let inner = cn2.target_namespaced(&mut table, "E".to_owned()).expect("inner");
    assert_eq!(table.namespaces()[inner.index()], "http://inner.example/");

    // popping restores the outer target
    cn.pop_target_namespace();
    match cn.target_namespaced(&mut table, "F".to_owned()) {
        Err(Error::StructuralError) => {}
        other => panic!("expected an empty target stack, got {:?}", other),
    }
}

#[test]
fn unparsable_root_url_is_reported() {
    let docs: Vec<Document> = Vec::new();
    match parse("not a url at all", &docs) {
        Err(Error::UrlParseError) => {}
        other => panic!("expected a URL parse error, got {:?}", other),
    }
}

#[test]
fn rendering_checks_balance() {
    // an end tag with no open element is refused
    let unbalanced = vec![XmlEvent::End];
    match suds::xmlio::render_events(&unbalanced) {
        Err(Error::XmlParseError) => {}
        other => panic!("expected a balance error, got {:?}", other),
    }
    // an element left open is refused
    let open = vec![XmlEvent::Start { name: "a".to_owned(), attrs: vec![] }];
    match suds::xmlio::render_events(&open) {
        Err(Error::XmlParseError) => {}
        other => panic!("expected a balance error, got {:?}", other),
    }
    // a balanced sequence renders
    let balanced = vec![
        XmlEvent::Start { name: "a".to_owned(), attrs: vec![] },
        XmlEvent::Text { text: "x".to_owned() },
        XmlEvent::End,
    ];
    let bytes = suds::xmlio::render_events(&balanced).expect("render");
    let text = String::from_utf8(bytes).expect("utf8");
    assert_eq!(text, "<a>x</a>");
}
