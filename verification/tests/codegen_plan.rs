use suds::codegen::{codegen, from_definition, get_ty_ident, Primitive, RustItem, RustType, State};
use suds::parser::{parse, Document};
use suds::resolve::preprocess;
use suds::types::{NamespacedName, Namespaces};

fn doc(url: &str, xml: &str) -> Document {
    Document::from_bytes(url.to_owned(), xml.as_bytes().to_vec()).expect("tokenize")
}

const URL: &str = "http://example.com/a.wsdl";

#[test]
fn disambiguator_is_stable_and_suffixes_repeats() {
    let mut names = Namespaces::new();
    let a = NamespacedName::new(&mut names, "http://one.example/", "Name".to_owned());
    let b = NamespacedName::new(&mut names, "http://two.example/", "Name".to_owned());
    let c = NamespacedName::new(&mut names, "http://three.example/", "Name".to_owned());
    let mut state = State::new();
    assert_eq!(state.rust_name(&a), "Name");
    assert_eq!(state.rust_name(&b), "Name1");
    assert_eq!(state.rust_name(&c), "Name2");
    // the same input yields the same output across calls
    assert_eq!(state.rust_name(&a), "Name");
    assert_eq!(state.rust_name(&b), "Name1");
    // and the names keep their namespace indices
    assert_eq!(a.index(), 0);
    assert_eq!(b.index(), 1);
    assert_eq!(c.index(), 2);
}

#[test]
fn is_new_type_deduplicates() {
    let mut names = Namespaces::new();
    let a = NamespacedName::new(&mut names, "http://one.example/", "T".to_owned());
    let a2 = NamespacedName::new(&mut names, "http://one.example/", "T".to_owned());
    let mut state = State::new();
    assert!(state.is_new_type(a));
    assert!(!state.is_new_type(a2));
}

#[test]
fn builtins_map_to_target_primitives() {
    assert_eq!(get_ty_ident("boolean"), Some(Primitive::Bool));
    assert_eq!(get_ty_ident("int"), Some(Primitive::Int));
    assert_eq!(get_ty_ident("unsignedShort"), Some(Primitive::UnsignedShort));
    assert_eq!(get_ty_ident("unsignedInt"), Some(Primitive::UnsignedInt));
    assert_eq!(get_ty_ident("string"), Some(Primitive::Text));
    assert_eq!(get_ty_ident("dateTime"), Some(Primitive::Text));
    assert_eq!(get_ty_ident("decimal"), None);
    assert_eq!(Primitive::Int.rust_ident(), "isize");
    assert_eq!(Primitive::Text.rust_ident(), "String");
}

#[test]
fn inline_complex_type_collapses_into_the_field() {
    let xml = r#"<wsdl:definitions targetNamespace="http://i.example/"
        xmlns:wsdl="http://schemas.xmlsoap.org/wsdl/"
        xmlns:s="http://www.w3.org/2001/XMLSchema">
      <wsdl:types>
        <s:schema targetNamespace="http://i.example/">
          <s:element name="Outer">
            <s:complexType>
              <s:sequence>
                <s:element name="wrapper">
                  <s:complexType>
                    <s:sequence>
                      <s:element name="inner" type="s:int"/>
                    </s:sequence>
                  </s:complexType>
                </s:element>
              </s:sequence>
            </s:complexType>
          </s:element>
        </s:schema>
      </wsdl:types>
    </wsdl:definitions>"#;
    let docs = vec![doc(URL, xml)];
    let (def, names) = parse(URL, &docs).expect("parse");
    // the anonymous inline type makes no separate top-level type
    assert_eq!(def.types.len(), 1);
    let resolved = preprocess(&def).expect("resolve");
    let plan = codegen(&resolved, &names).expect("plan");
    assert_eq!(plan.types.len(), 1);
    match &plan.types[0] {
        RustItem::Record { ident, fields, .. } => {
            assert_eq!(ident, "Outer");
            assert_eq!(fields.len(), 1);
            // the inline type collapsed: the field keeps the outer name
            // and takes the single inner field's primitive type
            assert_eq!(fields[0].ident, "wrapper");
            match &fields[0].ty {
                RustType::Prim(Primitive::Int) => {}
                other => panic!("expected the collapsed primitive, got {:?}", other),
            }
        }
        other => panic!("expected a record, got {:?}", other),
    }
}

#[test]
fn calculator_plan_names_ports_and_operations() {
    let xml = r#"<wsdl:definitions targetNamespace="http://tempuri.org/"
        xmlns:wsdl="http://schemas.xmlsoap.org/wsdl/"
        xmlns:soap="http://schemas.xmlsoap.org/wsdl/soap/"
        xmlns:s="http://www.w3.org/2001/XMLSchema"
        xmlns:tns="http://tempuri.org/">
      <wsdl:types>
        <s:schema targetNamespace="http://tempuri.org/">
          <s:element name="Add">
            <s:complexType><s:sequence>
              <s:element name="intA" type="s:int"/>
              <s:element name="intB" type="s:int"/>
            </s:sequence></s:complexType>
          </s:element>
          <s:element name="AddResponse">
            <s:complexType><s:sequence>
              <s:element name="AddResult" type="s:int"/>
            </s:sequence></s:complexType>
          </s:element>
        </s:schema>
      </wsdl:types>
      <wsdl:message name="AddSoapIn"><wsdl:part name="parameters" element="tns:Add"/></wsdl:message>
      <wsdl:message name="AddSoapOut"><wsdl:part name="parameters" element="tns:AddResponse"/></wsdl:message>
      <wsdl:portType name="CalculatorSoap">
        <wsdl:operation name="Add">
          <wsdl:input message="tns:AddSoapIn"/>
          <wsdl:output message="tns:AddSoapOut"/>
        </wsdl:operation>
      </wsdl:portType>
      <wsdl:binding name="CalculatorSoapBinding" type="tns:CalculatorSoap">
        <soap:binding transport="http://schemas.xmlsoap.org/soap/http"/>
        <wsdl:operation name="Add">
          <soap:operation soapAction="http://tempuri.org/Add" style="document"/>
          <wsdl:input><soap:body use="literal"/></wsdl:input>
          <wsdl:output><soap:body use="literal"/></wsdl:output>
        </wsdl:operation>
      </wsdl:binding>
      <wsdl:service name="Calculator">
        <wsdl:port name="CalculatorSoap" binding="tns:CalculatorSoapBinding">
          <soap:address location="http://host/calc.asmx"/>
        </wsdl:port>
      </wsdl:service>
    </wsdl:definitions>"#;
    let docs = vec![doc(URL, xml)];
    let (def, names) = parse(URL, &docs).expect("parse");
    let plan = from_definition(&def, &names).expect("plan");

    // types: Add and AddResponse, with write names carrying the
    // namespace index of http://tempuri.org/
    assert_eq!(plan.types.len(), 2);
    match &plan.types[0] {
        RustItem::Record { ident, write_name, read_name, fields } => {
            assert_eq!(ident, "Add");
            assert_eq!(read_name, "Add");
            assert!(write_name.starts_with("ns"));
            assert!(write_name.ends_with(":Add"));
            assert_eq!(fields.len(), 2);
            assert_eq!(fields[0].ident, "intA");
            assert_eq!(fields[1].ident, "intB");
        }
        other => panic!("expected a record, got {:?}", other),
    }

    // messages: one record per message, fields per part
    assert_eq!(plan.messages.len(), 2);
    match &plan.messages[0] {
        RustItem::Record { ident, fields, .. } => {
            assert_eq!(ident, "AddSoapIn");
            assert_eq!(fields.len(), 1);
            assert_eq!(fields[0].ident, "parameters");
            match &fields[0].ty {
                RustType::Named(n) => assert_eq!(n, "Add"),
                other => panic!("expected the generated type, got {:?}", other),
            }
        }
        other => panic!("expected a record, got {:?}", other),
    }

    // services: one client per port, one method per operation
    assert_eq!(plan.services.len(), 1);
    assert_eq!(plan.services[0].ident, "Calculator");
    let port = &plan.services[0].ports[0];
    assert_eq!(port.ident, "CalculatorSoap");
    assert_eq!(port.location, "http://host/calc.asmx");
    assert_eq!(port.operations.len(), 1);
    assert_eq!(port.operations[0].ident, "Add");
    assert_eq!(port.operations[0].input.as_deref(), Some("AddSoapIn"));
    assert_eq!(port.operations[0].output.as_deref(), Some("AddSoapOut"));

    // one xmlns declaration per interned namespace
    assert_eq!(plan.namespaces.len(), names.namespaces().len());
    assert_eq!(plan.namespaces[0].0, "xmlns:ns0");
}

#[test]
fn repeated_local_names_across_schemas_are_suffixed() {
    let xml = r#"<wsdl:definitions targetNamespace="http://two.example/"
        xmlns:wsdl="http://schemas.xmlsoap.org/wsdl/"
        xmlns:s="http://www.w3.org/2001/XMLSchema">
      <wsdl:types>
        <s:schema targetNamespace="http://one.example/ns">
          <s:complexType name="Name">
            <s:sequence><s:element name="a" type="s:string"/></s:sequence>
          </s:complexType>
        </s:schema>
        <s:schema targetNamespace="http://two.example/ns">
          <s:complexType name="Name">
            <s:sequence><s:element name="b" type="s:string"/></s:sequence>
          </s:complexType>
        </s:schema>
      </wsdl:types>
    </wsdl:definitions>"#;
    let docs = vec![doc(URL, xml)];
    let (def, names) = parse(URL, &docs).expect("parse");
    assert_eq!(def.types.len(), 2);
    assert_ne!(def.types[0].name.index(), def.types[1].name.index());
    let resolved = preprocess(&def).expect("resolve");
    let plan = codegen(&resolved, &names).expect("plan");
    let idents: Vec<&str> = plan
        .types
        .iter()
        .map(|t| match t {
            RustItem::Record { ident, .. } => ident.as_str(),
            RustItem::Newtype { ident, .. } => ident.as_str(),
            RustItem::TypeAlias { ident, .. } => ident.as_str(),
        })
        .collect();
    assert_eq!(idents, vec!["Name", "Name1"]);
    // both keep their own namespace index in the written names
    match (&plan.types[0], &plan.types[1]) {
        (
            RustItem::Record { write_name: w0, .. },
            RustItem::Record { write_name: w1, .. },
        ) => {
            assert_ne!(w0, w1);
            assert!(w0.ends_with(":Name"));
            assert!(w1.ends_with(":Name"));
        }
        other => panic!("expected two records, got {:?}", other),
    }
}

#[test]
fn simple_type_becomes_a_newtype() {
    let xml = r#"<wsdl:definitions targetNamespace="http://c.example/"
        xmlns:wsdl="http://schemas.xmlsoap.org/wsdl/"
        xmlns:s="http://www.w3.org/2001/XMLSchema">
      <wsdl:types>
        <s:schema targetNamespace="http://c.example/">
          <s:simpleType name="CRSType">
            <s:restriction base="s:string"/>
          </s:simpleType>
        </s:schema>
      </wsdl:types>
    </wsdl:definitions>"#;
    let docs = vec![doc(URL, xml)];
    let (def, names) = parse(URL, &docs).expect("parse");
    let plan = from_definition(&def, &names).expect("plan");
    assert_eq!(plan.types.len(), 1);
    match &plan.types[0] {
        RustItem::Newtype { ident, prim, .. } => {
            assert_eq!(ident, "CRSType");
            assert_eq!(*prim, Primitive::Text);
        }
        other => panic!("expected a newtype, got {:?}", other),
    }
}

#[test]
fn wsdl_import_supplies_the_inner_schema() {
    let root = r#"<wsdl:definitions targetNamespace="http://outer.example/"
        xmlns:wsdl="http://schemas.xmlsoap.org/wsdl/">
      <wsdl:import location="inner.wsdl" namespace="http://inner.example/"/>
    </wsdl:definitions>"#;
    let inner = r#"<wsdl:definitions targetNamespace="http://inner.example/"
        xmlns:wsdl="http://schemas.xmlsoap.org/wsdl/"
        xmlns:s="http://www.w3.org/2001/XMLSchema">
      <wsdl:types>
        <s:schema targetNamespace="http://inner.example/">
          <s:simpleType name="CRSType">
            <s:restriction base="s:string"/>
          </s:simpleType>
        </s:schema>
      </wsdl:types>
    </wsdl:definitions>"#;
    let docs = vec![
        doc("http://example.com/root.wsdl", root),
        doc("http://example.com/inner.wsdl", inner),
    ];
    let (def, names) = parse("http://example.com/root.wsdl", &docs).expect("parse");
    let plan = from_definition(&def, &names).expect("plan");
    match &plan.types[0] {
        RustItem::Newtype { ident, prim, .. } => {
            assert_eq!(ident, "CRSType");
            assert_eq!(*prim, Primitive::Text);
        }
        other => panic!("expected a newtype, got {:?}", other),
    }
}

#[test]
fn top_level_element_with_type_becomes_an_alias() {
    let xml = r#"<wsdl:definitions targetNamespace="http://al.example/"
        xmlns:wsdl="http://schemas.xmlsoap.org/wsdl/"
        xmlns:s="http://www.w3.org/2001/XMLSchema"
        xmlns:tns="http://al.example/">
      <wsdl:types>
        <s:schema targetNamespace="http://al.example/">
          <s:complexType name="Real">
            <s:sequence><s:element name="x" type="s:string"/></s:sequence>
          </s:complexType>
          <s:element name="Plain" type="s:string"/>
          <s:element name="Named" type="tns:Real"/>
          <s:element name="Real" type="tns:Real"/>
        </s:schema>
      </wsdl:types>
    </wsdl:definitions>"#;
    let docs = vec![doc(URL, xml)];
    let (def, names) = parse(URL, &docs).expect("parse");
    let plan = from_definition(&def, &names).expect("plan");
    // Real (a record), Plain (alias of a primitive), Named (alias of Real);
    // the self-alias Real = Real is omitted
    assert_eq!(plan.types.len(), 3);
    match &plan.types[1] {
        RustItem::TypeAlias { ident, target } => {
            assert_eq!(ident, "Plain");
            match target {
                RustType::Prim(Primitive::Text) => {}
                other => panic!("expected the string primitive, got {:?}", other),
            }
        }
        other => panic!("expected an alias, got {:?}", other),
    }
    match &plan.types[2] {
        RustItem::TypeAlias { ident, target } => {
            assert_eq!(ident, "Named");
            match target {
                RustType::Named(n) => assert_eq!(n, "Real"),
                other => panic!("expected the generated type, got {:?}", other),
            }
        }
        other => panic!("expected an alias, got {:?}", other),
    }
}
