use suds::codegen::Primitive;
use suds::event::{XmlEvent, XmlReader, XmlWriter};
use suds::soap::{
    expect_value, prim_from_text, prim_to_text, write_value, Envelope, PrimValue, XmlShape,
    XmlValue,
};

fn add_body(a: isize, b: isize) -> XmlValue {
    XmlValue::Node {
        name: "ns0:Add".to_owned(),
        attrs: vec![("xmlns:ns0".to_owned(), "http://tempuri.org/".to_owned())],
        children: vec![
            XmlValue::Prim {
                name: "ns0:intA".to_owned(),
                attrs: vec![],
                value: PrimValue::Int(a),
            },
            XmlValue::Prim {
                name: "ns0:intB".to_owned(),
                attrs: vec![],
                value: PrimValue::Int(b),
            },
        ],
    }
}

fn add_shape() -> XmlShape {
    XmlShape::Node {
        name: "Add".to_owned(),
        children: vec![
            XmlShape::Prim { name: "intA".to_owned(), prim: Primitive::Int },
            XmlShape::Prim { name: "intB".to_owned(), prim: Primitive::Int },
        ],
    }
}

#[test]
fn request_body_spells_the_fields_in_order() {
    let envelope = Envelope::new(add_body(2, 3));
    let bytes = envelope.to_request().expect("render");
    let text = String::from_utf8(bytes).expect("utf8");
    assert!(text.contains("<soapenv:Envelope xmlns:soapenv=\"http://schemas.xmlsoap.org/soap/envelope/\">"));
    assert!(text.contains("<soapenv:Body>"));
    assert!(text.contains("<ns0:Add xmlns:ns0=\"http://tempuri.org/\">"));
    assert!(text.contains("<ns0:intA>2</ns0:intA>"));
    assert!(text.contains("<ns0:intB>3</ns0:intB>"));
    let a = text.find("<ns0:intA>").expect("intA present");
    let b = text.find("<ns0:intB>").expect("intB present");
    assert!(a < b);
}

#[test]
fn envelope_round_trips_through_bytes() {
    let envelope = Envelope::new(add_body(2, 3));
    let bytes = envelope.to_request().expect("render");
    let back = Envelope::<XmlValue>::from_response(bytes, &add_shape()).expect("parse");
    match back.body() {
        XmlValue::Node { name, children, .. } => {
            assert_eq!(name, "ns0:Add");
            assert_eq!(children.len(), 2);
            match &children[0] {
                XmlValue::Prim { value: PrimValue::Int(a), .. } => assert_eq!(*a, 2),
                other => panic!("expected an integer leaf, got {:?}", other),
            }
            match &children[1] {
                XmlValue::Prim { value: PrimValue::Int(b), .. } => assert_eq!(*b, 3),
                other => panic!("expected an integer leaf, got {:?}", other),
            }
        }
        other => panic!("expected a node, got {:?}", other),
    }
}

#[test]
fn response_deserializes_to_the_result() {
    let xml = br#"<?xml version="1.0" encoding="utf-8"?>
<soap:Envelope xmlns:soap="http://schemas.xmlsoap.org/soap/envelope/">
  <soap:Body>
    <AddResponse xmlns="http://tempuri.org/">
      <AddResult>5</AddResult>
    </AddResponse>
  </soap:Body>
</soap:Envelope>"#;
    let shape = XmlShape::Node {
        name: "AddResponse".to_owned(),
        children: vec![XmlShape::Prim { name: "AddResult".to_owned(), prim: Primitive::Int }],
    };
    let envelope = Envelope::<XmlValue>::from_response(xml.to_vec(), &shape).expect("parse");
    match envelope.into_body() {
        XmlValue::Node { children, .. } => match &children[0] {
            XmlValue::Prim { value: PrimValue::Int(v), .. } => assert_eq!(*v, 5),
            other => panic!("expected an integer leaf, got {:?}", other),
        },
        other => panic!("expected a node, got {:?}", other),
    }
}

#[test]
fn newtype_value_serializes_its_text() {
    let v = XmlValue::Prim {
        name: "ns0:CRSType".to_owned(),
        attrs: vec![("xmlns:ns0".to_owned(), "http://crs.example/".to_owned())],
        value: PrimValue::Text("BSK".to_owned()),
    };
    let mut w = XmlWriter::new();
    write_value(&mut w, &v);
    let bytes = suds::xmlio::render_events(&w.into_events()).expect("render");
    let text = String::from_utf8(bytes).expect("utf8");
    assert!(text.contains("<ns0:CRSType xmlns:ns0=\"http://crs.example/\">BSK</ns0:CRSType>"));
}

#[test]
fn wrong_shape_is_rejected() {
    let envelope = Envelope::new(add_body(2, 3));
    let bytes = envelope.to_request().expect("render");
    let wrong = XmlShape::Node {
        name: "Subtract".to_owned(),
        children: vec![],
    };
    match Envelope::<XmlValue>::from_response(bytes, &wrong) {
        Err(suds::error::Error::XmlParseError) => {}
        other => panic!("expected an XML parse error, got {:?}", other.map(|e| e.into_body())),
    }
}

#[test]
fn text_escaping_round_trips() {
    let v = XmlValue::Prim {
        name: "note".to_owned(),
        attrs: vec![],
        value: PrimValue::Text("a < b & c".to_owned()),
    };
    let shape = XmlShape::Prim { name: "note".to_owned(), prim: Primitive::Text };
    let envelope = Envelope::new(v);
    let bytes = envelope.to_request().expect("render");
    let back = Envelope::<XmlValue>::from_response(bytes, &shape).expect("parse");
    match back.into_body() {
        XmlValue::Prim { value: PrimValue::Text(s), .. } => assert_eq!(s, "a < b & c"),
        other => panic!("expected a text leaf, got {:?}", other),
    }
}

#[test]
fn expect_value_parses_a_text_event() {
    let events = vec![XmlEvent::Text { text: "42".to_owned() }];
    let mut reader = XmlReader::new(events);
    match expect_value(&mut reader, Primitive::UnsignedInt) {
        Some(PrimValue::UInt(v)) => assert_eq!(v, 42),
        other => panic!("expected an unsigned value, got {:?}", other),
    }
}

#[test]
fn primitive_texts_are_exact() {
    assert_eq!(prim_to_text(&PrimValue::Int(-42)), "-42");
    assert_eq!(prim_to_text(&PrimValue::Int(0)), "0");
    assert_eq!(prim_to_text(&PrimValue::UInt(65535)), "65535");
    assert_eq!(prim_to_text(&PrimValue::Bool(true)), "true");
    assert_eq!(prim_to_text(&PrimValue::Bool(false)), "false");
    match prim_from_text(Primitive::Int, "-42") {
        Some(PrimValue::Int(v)) => assert_eq!(v, -42),
        other => panic!("expected an integer, got {:?}", other),
    }
    match prim_from_text(Primitive::UnsignedShort, "65536") {
        None => {}
        other => panic!("expected a range failure, got {:?}", other),
    }
    match prim_from_text(Primitive::Bool, "TRUE") {
        None => {}
        other => panic!("expected a parse failure, got {:?}", other),
    }
}
