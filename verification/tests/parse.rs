use suds::error::Error;
use suds::parser::{parse, Document};
use suds::resolve::{preprocess, validate_references};
use suds::types::{FieldKind, TypeKind};

fn doc(url: &str, xml: &str) -> Document {
    Document::from_bytes(url.to_owned(), xml.as_bytes().to_vec()).expect("tokenize")
}

const CALC_URL: &str = "http://example.com/calc.wsdl";

fn calculator_wsdl() -> &'static str {
    r#"<?xml version="1.0" encoding="utf-8"?>
<wsdl:definitions targetNamespace="http://tempuri.org/"
    xmlns:wsdl="http://schemas.xmlsoap.org/wsdl/"
    xmlns:soap="http://schemas.xmlsoap.org/wsdl/soap/"
    xmlns:s="http://www.w3.org/2001/XMLSchema"
    xmlns:tns="http://tempuri.org/">
  <wsdl:types>
    <s:schema targetNamespace="http://tempuri.org/">
      <s:element name="Add">
        <s:complexType>
          <s:sequence>
            <s:element name="intA" type="s:int"/>
            <s:element name="intB" type="s:int"/>
          </s:sequence>
        </s:complexType>
      </s:element>
      <s:element name="AddResponse">
        <s:complexType>
          <s:sequence>
            <s:element name="AddResult" type="s:int"/>
          </s:sequence>
        </s:complexType>
      </s:element>
    </s:schema>
  </wsdl:types>
  <wsdl:message name="AddSoapIn">
    <wsdl:part name="parameters" element="tns:Add"/>
  </wsdl:message>
  <wsdl:message name="AddSoapOut">
    <wsdl:part name="parameters" element="tns:AddResponse"/>
  </wsdl:message>
  <wsdl:portType name="CalculatorSoap">
    <wsdl:operation name="Add">
      <wsdl:documentation>Adds two integers.</wsdl:documentation>
      <wsdl:input message="tns:AddSoapIn"/>
      <wsdl:output message="tns:AddSoapOut"/>
    </wsdl:operation>
  </wsdl:portType>
  <wsdl:binding name="CalculatorSoapBinding" type="tns:CalculatorSoap">
    <soap:binding transport="http://schemas.xmlsoap.org/soap/http"/>
    <wsdl:operation name="Add">
      <soap:operation soapAction="http://tempuri.org/Add" style="document"/>
      <wsdl:input><soap:body use="literal"/></wsdl:input>
      <wsdl:output><soap:body use="literal"/></wsdl:output>
    </wsdl:operation>
  </wsdl:binding>
  <wsdl:service name="Calculator">
    <wsdl:port name="CalculatorSoap" binding="tns:CalculatorSoapBinding">
      <soap:address location="http://host/calc.asmx"/>
    </wsdl:port>
  </wsdl:service>
</wsdl:definitions>"#
}

#[test]
fn parses_calculator_model() {
    let docs = vec![doc(CALC_URL, calculator_wsdl())];
    let (def, names) = parse(CALC_URL, &docs).expect("parse");
    assert_eq!(def.types.len(), 2);
    assert_eq!(def.types[0].name.name, "Add");
    assert_eq!(def.types[1].name.name, "AddResponse");
    assert_eq!(def.messages.len(), 2);
    assert_eq!(def.messages[0].name.name, "AddSoapIn");
    assert_eq!(def.port_types.len(), 1);
    assert_eq!(def.bindings.len(), 1);
    assert_eq!(def.bindings[0].transport, "http://schemas.xmlsoap.org/soap/http");
    assert_eq!(def.services.len(), 1);
    assert_eq!(def.services[0].ports[0].location, "http://host/calc.asmx");
    // the target namespace was interned
    assert!(names
        .namespaces()
        .iter()
        .any(|u| u == "http://tempuri.org/"));
    // the operation documentation was collected
    assert_eq!(
        def.port_types[0].operations[0].documentation.as_deref(),
        Some("Adds two integers.")
    );
}

#[test]
fn field_order_is_document_order() {
    let docs = vec![doc(CALC_URL, calculator_wsdl())];
    let (def, _) = parse(CALC_URL, &docs).expect("parse");
    match &def.types[0].kind {
        TypeKind::Struct(fields) => {
            assert_eq!(fields.len(), 2);
            assert_eq!(fields[0].name.name, "intA");
            assert_eq!(fields[1].name.name, "intB");
        }
        other => panic!("expected a struct, got {:?}", other),
    }
}

#[test]
fn resolved_port_carries_port_type_operations() {
    let docs = vec![doc(CALC_URL, calculator_wsdl())];
    let (def, _) = parse(CALC_URL, &docs).expect("parse");
    let resolved = preprocess(&def).expect("resolve");
    assert_eq!(resolved.services.len(), 1);
    let port = &resolved.services[0].ports[0];
    assert_eq!(port.location, "http://host/calc.asmx");
    assert_eq!(port.operations.len(), 1);
    assert_eq!(port.operations[0].name.name, "Add");
    assert!(validate_references(&resolved));
}

#[test]
fn missing_target_namespace_is_structural() {
    let xml = r#"<definitions xmlns="http://schemas.xmlsoap.org/wsdl/"></definitions>"#;
    let docs = vec![doc(CALC_URL, xml)];
    match parse(CALC_URL, &docs) {
        Err(Error::StructuralError) => {}
        other => panic!("expected a structural error, got {:?}", other),
    }
}

#[test]
fn undefined_port_type_fails_at_resolution() {
    let xml = r#"<wsdl:definitions targetNamespace="http://tempuri.org/"
        xmlns:wsdl="http://schemas.xmlsoap.org/wsdl/"
        xmlns:soap="http://schemas.xmlsoap.org/wsdl/soap/"
        xmlns:tns="http://tempuri.org/">
      <wsdl:binding name="B" type="tns:NoSuchPortType">
        <soap:binding transport="http://schemas.xmlsoap.org/soap/http"/>
      </wsdl:binding>
      <wsdl:service name="S">
        <wsdl:port name="P" binding="tns:B">
          <soap:address location="http://host/x"/>
        </wsdl:port>
      </wsdl:service>
    </wsdl:definitions>"#;
    let docs = vec![doc(CALC_URL, xml)];
    let (def, _) = parse(CALC_URL, &docs).expect("parse");
    match preprocess(&def) {
        Err(Error::StructuralError) => {}
        other => panic!("expected a structural error, got {:?}", other),
    }
}

#[test]
fn unsupported_scheme_is_reported() {
    let docs = vec![doc("ftp://example.com/x.wsdl", "<a/>")];
    match parse("ftp://example.com/x.wsdl", &docs) {
        Err(Error::UnsupportedScheme(s)) => assert_eq!(s, "ftp"),
        other => panic!("expected an unsupported scheme, got {:?}", other),
    }
}

#[test]
fn missing_document_is_requested() {
    let docs: Vec<Document> = Vec::new();
    match parse(CALC_URL, &docs) {
        Err(Error::MissingDocument(u)) => assert_eq!(u, CALC_URL),
        other => panic!("expected a missing document, got {:?}", other),
    }
}

#[test]
fn malformed_xml_is_a_parse_error() {
    match Document::from_bytes(CALC_URL.to_owned(), b"<a><b></a>".to_vec()) {
        Err(Error::XmlParseError) => {}
        other => panic!("expected an XML parse error, got {:?}", other.map(|_| ())),
    }
}

#[test]
fn import_is_parsed_inline() {
    let root = r#"<wsdl:definitions targetNamespace="http://outer.example/"
        xmlns:wsdl="http://schemas.xmlsoap.org/wsdl/">
      <wsdl:import location="inner.wsdl" namespace="http://inner.example/"/>
    </wsdl:definitions>"#;
    let inner = r#"<wsdl:definitions targetNamespace="http://inner.example/"
        xmlns:wsdl="http://schemas.xmlsoap.org/wsdl/"
        xmlns:tns="http://inner.example/">
      <wsdl:message name="Note">
        <wsdl:part name="body" element="tns:NoteBody"/>
      </wsdl:message>
    </wsdl:definitions>"#;
    let docs = vec![
        doc("http://example.com/root.wsdl", root),
        doc("http://example.com/inner.wsdl", inner),
    ];
    let (def, _) = parse("http://example.com/root.wsdl", &docs).expect("parse");
    assert_eq!(def.messages.len(), 1);
    assert_eq!(def.messages[0].name.name, "Note");
}

#[test]
fn import_of_missing_document_names_the_resolved_url() {
    let root = r#"<wsdl:definitions targetNamespace="http://outer.example/"
        xmlns:wsdl="http://schemas.xmlsoap.org/wsdl/">
      <wsdl:import location="missing.wsdl" namespace="http://inner.example/"/>
    </wsdl:definitions>"#;
    let docs = vec![doc("http://example.com/sub/root.wsdl", root)];
    match parse("http://example.com/sub/root.wsdl", &docs) {
        Err(Error::MissingDocument(u)) => assert_eq!(u, "http://example.com/sub/missing.wsdl"),
        other => panic!("expected a missing document, got {:?}", other),
    }
}

#[test]
fn simple_type_restriction_becomes_simple_kind() {
    let xml = r#"<wsdl:definitions targetNamespace="http://s.example/"
        xmlns:wsdl="http://schemas.xmlsoap.org/wsdl/"
        xmlns:s="http://www.w3.org/2001/XMLSchema">
      <wsdl:types>
        <s:schema targetNamespace="http://s.example/">
          <s:simpleType name="CRSType">
            <s:restriction base="s:string"/>
          </s:simpleType>
        </s:schema>
      </wsdl:types>
    </wsdl:definitions>"#;
    let docs = vec![doc(CALC_URL, xml)];
    let (def, _) = parse(CALC_URL, &docs).expect("parse");
    assert_eq!(def.types.len(), 1);
    assert_eq!(def.types[0].name.name, "CRSType");
    match &def.types[0].kind {
        TypeKind::Simple(base) => assert_eq!(base.name, "string"),
        other => panic!("expected a simple type, got {:?}", other),
    }
}

#[test]
fn extension_base_is_first_field() {
    let xml = r#"<wsdl:definitions targetNamespace="http://e.example/"
        xmlns:wsdl="http://schemas.xmlsoap.org/wsdl/"
        xmlns:s="http://www.w3.org/2001/XMLSchema"
        xmlns:tns="http://e.example/">
      <wsdl:types>
        <s:schema targetNamespace="http://e.example/">
          <s:complexType name="Derived">
            <s:complexContent>
              <s:extension base="tns:BaseType">
                <s:sequence>
                  <s:element name="extra" type="s:string"/>
                </s:sequence>
              </s:extension>
            </s:complexContent>
          </s:complexType>
        </s:schema>
      </wsdl:types>
    </wsdl:definitions>"#;
    let docs = vec![doc(CALC_URL, xml)];
    let (def, _) = parse(CALC_URL, &docs).expect("parse");
    match &def.types[0].kind {
        TypeKind::Struct(fields) => {
            assert_eq!(fields.len(), 2);
            assert_eq!(fields[0].name.name, "base");
            match &fields[0].ty {
                FieldKind::Type(base) => assert_eq!(base.name, "BaseType"),
                other => panic!("expected a type reference, got {:?}", other),
            }
            assert_eq!(fields[1].name.name, "extra");
        }
        other => panic!("expected a struct, got {:?}", other),
    }
}

#[test]
fn prefix_choice_does_not_change_the_model() {
    let a = r#"<wsdl:definitions targetNamespace="http://p.example/"
        xmlns:wsdl="http://schemas.xmlsoap.org/wsdl/"
        xmlns:s="http://www.w3.org/2001/XMLSchema"
        xmlns:tns="http://p.example/">
      <wsdl:types>
        <s:schema targetNamespace="http://p.example/">
          <s:element name="Ping" type="s:string"/>
        </s:schema>
      </wsdl:types>
      <wsdl:message name="PingIn">
        <wsdl:part name="parameters" element="tns:Ping"/>
      </wsdl:message>
    </wsdl:definitions>"#;
    let b = r#"<w:definitions targetNamespace="http://p.example/"
        xmlns:w="http://schemas.xmlsoap.org/wsdl/"
        xmlns:xsd="http://www.w3.org/2001/XMLSchema"
        xmlns:tns="http://p.example/">
      <w:types>
        <xsd:schema targetNamespace="http://p.example/">
          <xsd:element name="Ping" type="xsd:string"/>
        </xsd:schema>
      </w:types>
      <w:message name="PingIn">
        <w:part name="parameters" element="tns:Ping"/>
      </w:message>
    </w:definitions>"#;
    let docs_a = vec![doc(CALC_URL, a)];
    let docs_b = vec![doc(CALC_URL, b)];
    let (da, na) = parse(CALC_URL, &docs_a).expect("parse a");
    let (db, nb) = parse(CALC_URL, &docs_b).expect("parse b");
    assert_eq!(na.namespaces(), nb.namespaces());
    assert_eq!(da.types.len(), db.types.len());
    for (ta, tb) in da.types.iter().zip(db.types.iter()) {
        assert!(ta.name == tb.name);
    }
    assert_eq!(da.messages.len(), db.messages.len());
    for (ma, mb) in da.messages.iter().zip(db.messages.iter()) {
        assert!(ma.name == mb.name);
        assert_eq!(ma.parts.len(), mb.parts.len());
        for (pa, pb) in ma.parts.iter().zip(mb.parts.iter()) {
            assert!(pa.name == pb.name);
        }
    }
}

#[test]
fn entity_references_are_resolved_in_text() {
    let xml = r#"<wsdl:definitions targetNamespace="http://d.example/"
        xmlns:wsdl="http://schemas.xmlsoap.org/wsdl/"
        xmlns:tns="http://d.example/">
      <wsdl:portType name="P">
        <wsdl:operation name="Op">
          <wsdl:documentation>a &amp; b &#65;</wsdl:documentation>
        </wsdl:operation>
      </wsdl:portType>
    </wsdl:definitions>"#;
    let docs = vec![doc(CALC_URL, xml)];
    let (def, _) = parse(CALC_URL, &docs).expect("parse");
    assert_eq!(
        def.port_types[0].operations[0].documentation.as_deref(),
        Some("a & b A")
    );
}

#[test]
fn simple_content_extension_becomes_an_alias_kind() {
    let xml = r#"<wsdl:definitions targetNamespace="http://sc.example/"
        xmlns:wsdl="http://schemas.xmlsoap.org/wsdl/"
        xmlns:s="http://www.w3.org/2001/XMLSchema">
      <wsdl:types>
        <s:schema targetNamespace="http://sc.example/">
          <s:complexType name="Price">
            <s:simpleContent>
              <s:extension base="s:string"/>
            </s:simpleContent>
          </s:complexType>
        </s:schema>
      </wsdl:types>
    </wsdl:definitions>"#;
    let docs = vec![doc(CALC_URL, xml)];
    let (def, _) = parse(CALC_URL, &docs).expect("parse");
    assert_eq!(def.types.len(), 1);
    match &def.types[0].kind {
        TypeKind::Alias(base) => assert_eq!(base.name, "string"),
        other => panic!("expected an alias kind, got {:?}", other),
    }
}

#[test]
fn unknown_elements_are_tolerated() {
    let xml = r#"<wsdl:definitions targetNamespace="http://tol.example/"
        xmlns:wsdl="http://schemas.xmlsoap.org/wsdl/"
        xmlns:tns="http://tol.example/">
      <wsdl:strange><inner/></wsdl:strange>
      <wsdl:message name="M">
        <wsdl:part name="p" element="tns:E"/>
      </wsdl:message>
    </wsdl:definitions>"#;
    let docs = vec![doc(CALC_URL, xml)];
    let (def, _) = parse(CALC_URL, &docs).expect("parse");
    assert_eq!(def.messages.len(), 1);
}
