use psrp_rs::clixml::decode::{parse_clixml, MAX_NESTING_DEPTH};
use psrp_rs::clixml::encode::to_clixml;
use psrp_rs::clixml::escape::decode_pwsh_escapes;
use psrp_rs::clixml::normalize::normalize;
use psrp_rs::clixml::xml::{lookup_attribute, resolve_char_ref, tag_attribute, XmlTag};
use psrp_rs::clixml::value::{PsObject, PsValue};

fn s(x: &str) -> String {
    x.to_string()
}

fn object(v: &PsValue) -> &PsObject {
    match v {
        PsValue::Object(o) => o,
        _ => panic!("expected object"),
    }
}

#[test]
fn deep_nesting_is_rejected_not_fatal() {
    let deep = |n: usize| "<Obj><MS>".repeat(n) + "<Nil/>" + &"</MS></Obj>".repeat(n);

    parse_clixml(&deep(MAX_NESTING_DEPTH as usize / 2)).expect("shallow document");

    let err = parse_clixml(&deep(MAX_NESTING_DEPTH as usize + 5))
        .expect_err("over-deep document must be rejected");
    assert!(err.message().contains("nested deeper"), "unexpected error: {:?}", err);

    assert!(parse_clixml(&deep(20_000)).is_err());
}

#[test]
fn property_names_are_xml_unescaped() {
    let value = PsValue::Object(
        PsObject::new()
            .with(s("a<b"), PsValue::I32(1))
            .with(s("x&y"), PsValue::I32(2))
            .with(s("q\"r"), PsValue::I32(3)),
    );

    let xml = to_clixml(&value);
    let decoded = parse_clixml(&xml).expect("decodes");
    assert_eq!(decoded[0], value, "property names were mangled");

    let again = parse_clixml(&to_clixml(&decoded[0])).expect("decodes");
    assert_eq!(again[0], value);
}

#[test]
fn property_names_decode_pwsh_escapes() {
    let value = PsValue::Object(PsObject::new().with(s("a\u{1}b"), PsValue::Null));
    let xml = to_clixml(&value);
    assert!(xml.contains("_x0001_"), "encoder did not escape: {xml}");
    let decoded = parse_clixml(&xml).expect("decodes");
    assert_eq!(decoded[0], value);
}

#[test]
fn decode_primitives() {
    let cases = vec![
        ("<S>hi</S>", PsValue::String(s("hi"))),
        ("<I32>-5</I32>", PsValue::I32(-5)),
        ("<I64>99</I64>", PsValue::I64(99)),
        ("<B>true</B>", PsValue::Bool(true)),
        ("<B>false</B>", PsValue::Bool(false)),
        ("<Db>1.5</Db>", PsValue::Double(s("1.5"))),
        ("<Nil/>", PsValue::Null),
    ];
    for (xml, expected) in cases {
        let got = parse_clixml(xml).unwrap();
        assert_eq!(got.len(), 1, "{xml}");
        assert_eq!(got[0], expected, "{xml}");
    }
}

fn double_of(v: &PsValue) -> f64 {
    match v {
        PsValue::Double(t) => t.parse::<f64>().expect("a float"),
        _ => panic!("expected Double"),
    }
}

#[test]
fn decode_double_special_values() {
    assert!(double_of(&parse_clixml("<Db>NaN</Db>").unwrap()[0]).is_nan());
    let inf = double_of(&parse_clixml("<Db>Infinity</Db>").unwrap()[0]);
    assert!(inf.is_infinite() && inf.is_sign_positive());
    let ninf = double_of(&parse_clixml("<Db>-Infinity</Db>").unwrap()[0]);
    assert!(ninf.is_infinite() && ninf.is_sign_negative());
}

#[test]
fn bool_accepts_1_and_0() {
    assert_eq!(parse_clixml("<B>1</B>").unwrap()[0], PsValue::Bool(true));
    assert_eq!(parse_clixml("<B>0</B>").unwrap()[0], PsValue::Bool(false));
}

#[test]
fn bad_bool_errors() {
    assert!(parse_clixml("<B>maybe</B>").is_err());
}

#[test]
fn bad_int_errors() {
    assert!(parse_clixml("<I32>not-a-number</I32>").is_err());
    assert!(parse_clixml("<I64>xx</I64>").is_err());
    assert!(parse_clixml("<Db>oops</Db>").is_err());
}

#[test]
fn escapes_and_bom() {
    let xml = "\u{FEFF}  <S>&lt;hi&amp;&gt;</S>";
    let got = parse_clixml(xml).unwrap();
    assert_eq!(got[0], PsValue::String(s("<hi&>")));
}

#[test]
fn pwsh_escape_decode() {
    let got = parse_clixml("<S>ab_x0001_cd</S>").unwrap();
    assert_eq!(got[0], PsValue::String(s("ab\u{0001}cd")));
}

#[test]
fn object_with_member_set() {
    let xml = r#"<Obj RefId="0"><TN RefId="0"><T>System.Diagnostics.Process</T></TN><MS><S N="Name">svchost</S><I32 N="Id">42</I32><Nil N="Maybe"/></MS></Obj>"#;
    let got = parse_clixml(xml).unwrap();
    assert_eq!(got.len(), 1);
    let obj = object(&got[0]);
    assert_eq!(obj.type_names, vec![s("System.Diagnostics.Process")]);
    assert_eq!(obj.get("Name"), Some(&PsValue::String(s("svchost"))));
    assert_eq!(obj.get("Id"), Some(&PsValue::I32(42)));
    assert_eq!(obj.get("Maybe"), Some(&PsValue::Null));
}

#[test]
fn object_with_list_and_dict() {
    let xml = r#"<Obj RefId="0"><LST><I32>1</I32><I32>2</I32></LST></Obj>"#;
    let got = parse_clixml(xml).unwrap();
    let obj = object(&got[0]);
    assert_eq!(obj.get("_value"), Some(&PsValue::List(vec![PsValue::I32(1), PsValue::I32(2)])));
}

#[test]
fn tnref_resolution() {
    let xml = r#"
      <Obj RefId="0"><TN RefId="0"><T>Foo</T></TN><MS><S N="k">v</S></MS></Obj>
      <Obj RefId="1"><TNRef RefId="0"/><MS><I32 N="n">7</I32></MS></Obj>
    "#;
    let got = parse_clixml(xml).unwrap();
    assert_eq!(got.len(), 2);
    let o = object(&got[1]);
    assert_eq!(o.type_names, vec![s("Foo")]);
    assert_eq!(o.get("n"), Some(&PsValue::I32(7)));
}

#[test]
fn ref_resolution() {
    let xml = r#"<Obj RefId="abc"><MS><S N="k">v</S></MS></Obj><Ref RefId="abc"/>"#;
    let got = parse_clixml(xml).unwrap();
    assert_eq!(got.len(), 2);
    assert_eq!(got[0], got[1]);
}

#[test]
fn dangling_ref_becomes_null() {
    let got = parse_clixml(r#"<Ref RefId="missing"/>"#).unwrap();
    assert_eq!(got[0], PsValue::Null);
}

#[test]
fn unknown_elements_are_skipped() {
    let xml = r#"<Obj RefId="0"><UnknownThing><nested/></UnknownThing><MS><S N="k">v</S></MS></Obj>"#;
    let got = parse_clixml(xml).unwrap();
    assert_eq!(object(&got[0]).get("k"), Some(&PsValue::String(s("v"))));
}

#[test]
fn roundtrip_complex_object() {
    let obj = PsObject {
        type_names: vec![s("Foo"), s("Bar")],
        to_string: None,
        properties: vec![
            (s("name"), PsValue::String(s("n"))),
            (s("count"), PsValue::I32(3)),
            (s("flag"), PsValue::Bool(true)),
            (s("empty"), PsValue::Null),
            (s("tags"), PsValue::List(vec![PsValue::String(s("a")), PsValue::String(s("b"))])),
        ],
    };
    let xml = to_clixml(&PsValue::Object(PsObject {
        type_names: obj.type_names.clone(),
        to_string: None,
        properties: vec![
            (s("name"), PsValue::String(s("n"))),
            (s("count"), PsValue::I32(3)),
            (s("flag"), PsValue::Bool(true)),
            (s("empty"), PsValue::Null),
            (s("tags"), PsValue::List(vec![PsValue::String(s("a")), PsValue::String(s("b"))])),
        ],
    }));
    let got = parse_clixml(&xml).unwrap();
    let got_obj = object(&got[0]);
    assert_eq!(got_obj.type_names, obj.type_names);
    assert_eq!(got_obj.get("name"), obj.get("name"));
    assert_eq!(got_obj.get("count"), obj.get("count"));
    assert_eq!(got_obj.get("flag"), obj.get("flag"));
    assert_eq!(got_obj.get("empty"), Some(&PsValue::Null));
    match got_obj.get("tags") {
        Some(PsValue::Object(tags_obj)) => assert_eq!(
            tags_obj.get("_value"),
            Some(&PsValue::List(vec![PsValue::String(s("a")), PsValue::String(s("b"))]))
        ),
        _ => panic!("expected tags to be an object wrapping a list"),
    }
}

#[test]
fn cdata_section_decoded() {
    let got = parse_clixml("<S><![CDATA[hello & <world>]]></S>").unwrap();
    assert_eq!(got[0], PsValue::String(s("hello & <world>")));
}

#[test]
fn top_level_ref_with_content_resolves() {
    let xml = r#"<Obj RefId="a"><MS><S N="k">v</S></MS></Obj><Ref RefId="a">ignored</Ref>"#;
    let got = parse_clixml(xml).unwrap();
    assert_eq!(got.len(), 2);
    assert_eq!(got[0], got[1]);
}

#[test]
fn empty_obj_body_produces_empty_object() {
    let got = parse_clixml("<Obj RefId=\"0\"></Obj>").unwrap();
    let o = object(&got[0]);
    assert!(o.properties.is_empty());
    assert!(o.type_names.is_empty());
}

#[test]
fn props_element_is_treated_like_ms() {
    let xml = r#"<Obj RefId="0"><Props><S N="k">v</S></Props></Obj>"#;
    let got = parse_clixml(xml).unwrap();
    assert_eq!(object(&got[0]).get("k"), Some(&PsValue::String(s("v"))));
}

#[test]
fn pwsh_escape_roundtrip() {
    assert_eq!(decode_pwsh_escapes("_x0041_BC"), "ABC");
    assert_eq!(decode_pwsh_escapes("no escapes here"), "no escapes here");
    assert_eq!(decode_pwsh_escapes("_xZZZZ_"), "_xZZZZ_", "invalid hex passes through");
    assert_eq!(decode_pwsh_escapes("café"), "café", "multi-byte chars preserved");
}

#[test]
fn extended_primitives() {
    let cases: Vec<(&str, PsValue)> = vec![
        ("<SB>-128</SB>", PsValue::I8(-128)),
        ("<By>255</By>", PsValue::U8(255)),
        ("<I16>-32000</I16>", PsValue::I16(-32000)),
        ("<U16>65535</U16>", PsValue::U16(65535)),
        ("<U32>4000000000</U32>", PsValue::U32(4_000_000_000)),
        ("<U64>18446744073709551615</U64>", PsValue::U64(u64::MAX)),
    ];
    for (xml, expected) in cases {
        let got = parse_clixml(xml).unwrap();
        assert_eq!(got.len(), 1, "{xml}");
        assert_eq!(got[0], expected, "{xml}");
    }
}

#[test]
fn extended_primitive_errors() {
    assert!(parse_clixml("<SB>not_int</SB>").is_err());
    assert!(parse_clixml("<By>-1</By>").is_err());
    assert!(parse_clixml("<I16>99999</I16>").is_err());
    assert!(parse_clixml("<U16>-1</U16>").is_err());
    assert!(parse_clixml("<U32>-1</U32>").is_err());
    assert!(parse_clixml("<U64>not_a_number</U64>").is_err());
}

#[test]
fn char_primitive() {
    let got = parse_clixml("<C>65</C>").unwrap();
    assert_eq!(got[0], PsValue::Char('A'));
}

#[test]
fn char_invalid_code_point() {
    assert!(parse_clixml("<C>55296</C>").is_err());
    assert!(parse_clixml("<C>abc</C>").is_err());
}

#[test]
fn base64_primitive() {
    let got = parse_clixml("<BA>aGVsbG8=</BA>").unwrap();
    assert_eq!(got[0], PsValue::Bytes(b"hello".to_vec()));
}

#[test]
fn base64_invalid() {
    assert!(parse_clixml("<BA>!!!not-base64!!!</BA>").is_err());
}

#[test]
fn guid_primitive() {
    let got = parse_clixml("<G>12345678-1234-1234-1234-123456789abc</G>").unwrap();
    match &got[0] {
        PsValue::Guid(g) => assert_eq!(
            uuid::Uuid::from_bytes(*g).to_string(),
            "12345678-1234-1234-1234-123456789abc"
        ),
        _ => panic!("expected Guid"),
    }
}

#[test]
fn guid_invalid() {
    assert!(parse_clixml("<G>not-a-guid</G>").is_err());
}

#[test]
fn datetime_and_duration() {
    let got = parse_clixml("<DT>2024-01-01T00:00:00Z</DT>").unwrap();
    assert_eq!(got[0], PsValue::DateTime(s("2024-01-01T00:00:00Z")));
    let got = parse_clixml("<TS>P1DT2H</TS>").unwrap();
    assert_eq!(got[0], PsValue::Duration(s("P1DT2H")));
}

#[test]
fn version_uri_xml_scriptblock_securestring() {
    let cases = vec![
        ("<Version>5.1</Version>", PsValue::Version(s("5.1"))),
        ("<URI>http://example.com</URI>", PsValue::Uri(s("http://example.com"))),
        ("<XD>some xml data</XD>", PsValue::Xml(s("some xml data"))),
        ("<SCT>Get-Process</SCT>", PsValue::ScriptBlock(s("Get-Process"))),
        ("<SS>encrypted</SS>", PsValue::SecureString(s("encrypted"))),
    ];
    for (xml, expected) in cases {
        let got = parse_clixml(xml).unwrap();
        assert_eq!(got.len(), 1, "{xml}");
        assert_eq!(got[0], expected, "{xml}");
    }
}

#[test]
fn decimal_primitive() {
    let got = parse_clixml("<D>123.456</D>").unwrap();
    assert_eq!(got[0], PsValue::Decimal(s("123.456")));
}

fn single_of(v: &PsValue) -> f32 {
    match v {
        PsValue::F32(t) => t.parse::<f64>().expect("a float") as f32,
        _ => panic!("expected F32"),
    }
}

#[test]
fn single_float() {
    let got = parse_clixml("<Sg>1.5</Sg>").unwrap();
    assert!((single_of(&got[0]) - 1.5).abs() < f32::EPSILON);
}

#[test]
fn single_float_special() {
    let got = parse_clixml("<Sg>NaN</Sg>").unwrap();
    assert!(single_of(&got[0]).is_nan());
    let got = parse_clixml("<Sg>Infinity</Sg>").unwrap();
    assert!(single_of(&got[0]).is_infinite());
}

#[test]
fn single_float_error() {
    assert!(parse_clixml("<Sg>not-float</Sg>").is_err());
}

#[test]
fn unknown_top_level_element_skipped() {
    let xml = "<FutureTag><nested>data</nested></FutureTag><I32>42</I32>";
    let got = parse_clixml(xml).unwrap();
    assert_eq!(got.len(), 1);
    assert_eq!(got[0], PsValue::I32(42));
}

#[test]
fn unknown_self_closing_element_skipped() {
    let got = parse_clixml("<UnknownThing/><I32>7</I32>").unwrap();
    assert_eq!(got.len(), 1);
    assert_eq!(got[0], PsValue::I32(7));
}

#[test]
fn empty_s_tag_self_closing() {
    let got = parse_clixml("<S/>").unwrap();
    assert_eq!(got[0], PsValue::String(String::new()));
}

#[test]
fn eof_inside_obj_is_error() {
    assert!(parse_clixml("<Obj RefId=\"0\"><MS>").is_err());
}

#[test]
fn eof_inside_list_is_error() {
    assert!(parse_clixml("<Obj RefId=\"0\"><LST><I32>1</I32>").is_err());
}

#[test]
fn eof_inside_dict_is_error() {
    assert!(parse_clixml("<Obj RefId=\"0\"><DCT><En>").is_err());
}

#[test]
fn eof_inside_text_is_error() {
    assert!(parse_clixml("<S>unclosed").is_err());
}

#[test]
fn dict_entry_with_nil_key_and_value() {
    let xml = r#"<Obj RefId="0"><DCT><En><Nil N="Key"/><Nil N="Value"/></En></DCT></Obj>"#;
    let got = parse_clixml(xml).unwrap();
    match object(&got[0]).get("_value") {
        Some(PsValue::Dict(entries)) => {
            assert_eq!(entries.len(), 1);
            assert_eq!(entries[0], (PsValue::Null, PsValue::Null));
        },
        _ => panic!("expected dict"),
    }
}

#[test]
fn ref_inside_member_set() {
    let xml = r#"<Obj RefId="a"><MS><S N="k">v</S></MS></Obj><Obj RefId="b"><MS><Ref N="copy" RefId="a"/></MS></Obj>"#;
    let got = parse_clixml(xml).unwrap();
    assert_eq!(object(&got[1]).get("copy"), Some(&got[0]));
}

#[test]
fn ie_que_stk_treated_as_list() {
    for tag in ["IE", "QUE", "STK"] {
        let xml = format!(r#"<Obj RefId="0"><{tag}><I32>1</I32><I32>2</I32></{tag}></Obj>"#);
        let got = parse_clixml(&xml).unwrap();
        assert_eq!(
            object(&got[0]).get("_value"),
            Some(&PsValue::List(vec![PsValue::I32(1), PsValue::I32(2)])),
            "{tag} should be treated as list"
        );
    }
}

#[test]
fn tnref_self_closing_in_obj() {
    let xml = r#"
      <Obj RefId="0"><TN RefId="0"><T>Foo</T></TN><MS><S N="k">v</S></MS></Obj>
      <Obj RefId="1"><TNRef RefId="0"/><MS><I32 N="n">7</I32></MS></Obj>
    "#;
    let got = parse_clixml(xml).unwrap();
    assert_eq!(object(&got[1]).type_names, vec![s("Foo")]);
}

#[test]
fn nil_inside_list() {
    let xml = r#"<Obj RefId="0"><LST><I32>1</I32><Nil/><I32>3</I32></LST></Obj>"#;
    let got = parse_clixml(xml).unwrap();
    assert_eq!(
        object(&got[0]).get("_value"),
        Some(&PsValue::List(vec![PsValue::I32(1), PsValue::Null, PsValue::I32(3)]))
    );
}

#[test]
fn dict_roundtrip() {
    let v = PsValue::Dict(vec![
        (PsValue::String(s("k1")), PsValue::I32(1)),
        (PsValue::String(s("k2")), PsValue::String(s("v"))),
    ]);
    let xml = to_clixml(&v);
    let got = parse_clixml(&xml).unwrap();
    match object(&got[0]).get("_value") {
        Some(PsValue::Dict(entries)) => {
            assert_eq!(entries.len(), 2);
            assert_eq!(entries[0].0, PsValue::String(s("k1")));
            assert_eq!(entries[0].1, PsValue::I32(1));
        },
        _ => panic!("dict lost"),
    }
}

#[test]
fn text_scalars_read_back_as_written() {
    let values = vec![
        PsValue::Bool(true),
        PsValue::Bool(false),
        PsValue::I8(i8::MIN),
        PsValue::U8(u8::MAX),
        PsValue::I16(-12345),
        PsValue::U16(65535),
        PsValue::I32(i32::MIN),
        PsValue::U32(u32::MAX),
        PsValue::I64(i64::MIN),
        PsValue::U64(u64::MAX),
        PsValue::Char('\u{1F600}'),
        PsValue::Char('\0'),
        PsValue::Bytes(Vec::new()),
        PsValue::Bytes(vec![0, 1, 2, 253, 254, 255, 7]),
    ];
    for v in values {
        let xml = to_clixml(&v);
        assert_eq!(parse_clixml(&xml).unwrap(), vec![v], "{xml}");
    }
}

#[test]
fn normalize_wraps_containers_and_drops_to_string() {
    let list = PsValue::List(vec![PsValue::I32(1), PsValue::Dict(vec![(s_v("k"), PsValue::Null)])]);
    let n = normalize(&list);
    let o = object(&n);
    assert!(o.type_names.is_empty());
    assert_eq!(o.to_string, None);
    assert_eq!(o.properties.len(), 1);
    assert_eq!(o.properties[0].0, "_value");
    match &o.properties[0].1 {
        PsValue::List(items) => {
            assert_eq!(items[0], PsValue::I32(1));
            let inner = object(&items[1]);
            assert_eq!(inner.properties[0].0, "_value");
            assert_eq!(inner.properties[0].1, PsValue::Dict(vec![(s_v("k"), PsValue::Null)]));
        }
        other => panic!("expected a list, got {other:?}"),
    }

    let obj = PsObject::new()
        .with_type_names(vec![s("T")])
        .with(s("a"), PsValue::I64(7))
        .with(s("b"), PsValue::List(vec![]));
    let mut obj = obj;
    obj.to_string = Some(s("shown"));
    let n = normalize(&PsValue::Object(obj));
    let o = object(&n);
    assert_eq!(o.type_names, vec![s("T")]);
    assert_eq!(o.to_string, None);
    assert_eq!(o.properties[0], (s("a"), PsValue::I64(7)));
    assert_eq!(object(&o.properties[1].1).properties[0].0, "_value");
}

#[test]
fn roundtrip_gives_the_normalized_value() {
    let values = vec![
        PsValue::List(vec![PsValue::String(s("a<b&c")), PsValue::U16(9)]),
        PsValue::String(s("q\"'<>&\u{1}\tz")),
        PsValue::Dict(vec![(s_v("key"), PsValue::Bool(true))]),
        PsValue::Dict(vec![
            (PsValue::I64(-4), PsValue::Decimal(s("1.25"))),
            (PsValue::Null, PsValue::DateTime(s("2024-01-02T03:04:05Z"))),
        ]),
        PsValue::List(vec![PsValue::Version(s("1.2.3")), PsValue::Bytes(vec![9, 8]), PsValue::Null]),
        PsValue::Object(
            PsObject::new()
                .with_type_names(vec![s("System.Object")])
                .with(s("n"), PsValue::I32(-3))
                .with(s("inner"), PsValue::List(vec![PsValue::Null])),
        ),
    ];
    for v in values {
        let xml = to_clixml(&v);
        assert_eq!(parse_clixml(&xml).unwrap(), vec![normalize(&v)], "{xml}");
    }
}

fn s_v(x: &str) -> PsValue {
    PsValue::String(s(x))
}

#[test]
fn tag_attributes_need_the_name_at_the_start() {
    let t = XmlTag { name: s("Obj"), content: s("Obj RefId=\"3\" N=\"a&lt;b\"") };
    assert_eq!(tag_attribute(&t, "RefId"), Ok(Some(s("3"))));
    assert_eq!(tag_attribute(&t, "N"), Ok(Some(s("a<b"))));
    assert_eq!(tag_attribute(&t, "TN"), Ok(None));
    let odd = XmlTag { name: s("x"), content: s("é='1'") };
    assert_eq!(tag_attribute(&odd, "é"), Ok(None));
}

#[test]
fn nested_values_round_trip_to_their_normalized_form() {
    let inner_obj = PsObject::new()
        .with_type_names(vec![s("Inner.Type"), s("System.Object")])
        .with(s("deep"), PsValue::List(vec![PsValue::Dict(vec![(s_v("k"), PsValue::Null)])]))
        .with(s("flag"), PsValue::Bool(false));
    let v = PsValue::List(vec![
        PsValue::Object(inner_obj),
        PsValue::List(vec![PsValue::List(vec![PsValue::I32(1)]), PsValue::Null]),
        PsValue::Dict(vec![(
            PsValue::List(vec![PsValue::Char('x')]),
            PsValue::Object(PsObject::new().with(s("n"), PsValue::U64(5))),
        )]),
    ]);
    let xml = to_clixml(&v);
    let decoded = parse_clixml(&xml).unwrap();
    assert_eq!(decoded, vec![normalize(&v)], "{xml}");
    let again = parse_clixml(&to_clixml(&decoded[0])).unwrap();
    assert_eq!(again, decoded, "{xml}");
}

#[test]
fn ref_ids_run_from_zero_in_document_order() {
    let v = PsValue::List(vec![
        PsValue::Object(
            PsObject::new()
                .with_type_names(vec![s("T")])
                .with(s("a"), PsValue::Dict(vec![])),
        ),
        PsValue::List(vec![]),
    ]);
    let xml = to_clixml(&v);
    let mut ids = Vec::new();
    let mut rest = xml.as_str();
    while let Some(p) = rest.find("RefId=\"") {
        rest = &rest[p + 7..];
        let end = rest.find('"').unwrap();
        ids.push(rest[..end].parse::<u32>().unwrap());
    }
    assert_eq!(ids, vec![0, 1, 2, 3, 4], "{xml}");
    assert_eq!(to_clixml(&v), xml);
}

#[test]
fn character_references_resolve_like_xml() {
    assert_eq!(resolve_char_ref("#x41"), Some(Some('A')));
    assert_eq!(resolve_char_ref("#xe9"), Some(Some('é')));
    assert_eq!(resolve_char_ref("#xE9"), Some(Some('é')));
    assert_eq!(resolve_char_ref("#65"), Some(Some('A')));
    assert_eq!(resolve_char_ref("#0065"), Some(Some('A')));
    assert_eq!(resolve_char_ref("#x1F600"), Some(Some('\u{1F600}')));
    assert_eq!(resolve_char_ref("lt"), Some(None));
    assert_eq!(resolve_char_ref(""), Some(None));
    assert_eq!(resolve_char_ref("#"), None);
    assert_eq!(resolve_char_ref("#x"), None);
    assert_eq!(resolve_char_ref("#0"), None);
    assert_eq!(resolve_char_ref("#+65"), None);
    assert_eq!(resolve_char_ref("#-65"), None);
    assert_eq!(resolve_char_ref("#X41"), None);
    assert_eq!(resolve_char_ref("#6a"), None);
    assert_eq!(resolve_char_ref("#xD800"), None);
    assert_eq!(resolve_char_ref("#x110000"), None);
    assert_eq!(resolve_char_ref("#99999999999"), None);
}

#[test]
fn text_with_character_references_decodes() {
    let xml = "<S>&#x41;&#66;&lt;</S>";
    assert_eq!(parse_clixml(xml).unwrap(), vec![PsValue::String(s("AB<"))]);
    assert!(parse_clixml("<S>&#0;</S>").is_err());
}

#[test]
fn attribute_lookup_takes_the_first_of_a_name() {
    let attrs = vec![
        None,
        Some((s("N"), Some(s("a")))),
        Some((s("RefId"), None)),
        Some((s("N"), Some(s("b")))),
    ];
    assert_eq!(lookup_attribute(&attrs, "N"), Ok(Some(s("a"))));
    assert_eq!(lookup_attribute(&attrs, "RefId"), Err(()));
    assert_eq!(lookup_attribute(&attrs, "TN"), Ok(None));
    assert_eq!(lookup_attribute(&vec![], "N"), Ok(None));
}

#[test]
fn nesting_limit_counts_elements_not_empty_tags() {
    let nest = |inner: PsValue, n: usize| {
        let mut v = inner;
        for _ in 0..n {
            v = PsValue::List(vec![v]);
        }
        v
    };
    let at_limit = nest(PsValue::Null, MAX_NESTING_DEPTH as usize);
    assert_eq!(
        parse_clixml(&to_clixml(&at_limit)).unwrap(),
        vec![normalize(&at_limit)]
    );
    let too_deep = nest(PsValue::I32(1), MAX_NESTING_DEPTH as usize);
    assert!(parse_clixml(&to_clixml(&too_deep)).is_err());
    let just_fits = nest(PsValue::I32(1), MAX_NESTING_DEPTH as usize - 1);
    assert_eq!(
        parse_clixml(&to_clixml(&just_fits)).unwrap(),
        vec![normalize(&just_fits)]
    );
}
