use psrp_rs::clixml::base64::{base64_decode, base64_encode};
use psrp_rs::clixml::decode::parse_clixml;
use psrp_rs::clixml::encode::{to_clixml, RefIdAllocator};
use psrp_rs::clixml::pipeline_xml::{build_create_pipeline_xml, PipelineArgSpec, PipelineCommandSpec};
use psrp_rs::clixml::value::{PsObject, PsValue};

fn s(x: &str) -> String {
    x.to_string()
}

#[test]
fn value_property_container_is_written_bare() {
    let mut obj = PsObject::new();
    obj.insert(s("_value"), PsValue::List(vec![PsValue::U8(0), PsValue::String(s("x"))]));
    let value = PsValue::Object(obj);

    let xml = to_clixml(&value);
    assert_eq!(xml, r#"<Obj RefId="0"><LST><By>0</By><S>x</S></LST></Obj>"#);

    let decoded = parse_clixml(&xml).expect("decodes");
    assert_eq!(decoded.len(), 1);
    assert_eq!(decoded[0], value, "container under `_value` did not round-trip");
}

#[test]
fn attribute_names_escape_whitespace_but_text_does_not() {
    let value = PsValue::Object(PsObject::new().with(s("a\tb\nc"), PsValue::String(s("x\ty\nz"))));
    let xml = to_clixml(&value);
    assert!(xml.contains("_x0009_"), "tab not escaped in name: {xml}");
    assert!(xml.contains("x\ty\nz"), "text was escaped: {xml}");

    let decoded = parse_clixml(&xml).expect("decodes");
    assert_eq!(decoded[0], value);
}

#[test]
fn value_property_dict_is_written_bare() {
    let mut obj = PsObject::new();
    obj.insert(s("_value"), PsValue::Dict(vec![(PsValue::String(s("k")), PsValue::I32(7))]));
    let value = PsValue::Object(obj);

    let xml = to_clixml(&value);
    let decoded = parse_clixml(&xml).expect("decodes");
    assert_eq!(decoded[0], value, "dict under `_value` did not round-trip");
}

#[test]
fn encode_primitives() {
    assert_eq!(to_clixml(&PsValue::Null), "<Nil/>");
    assert_eq!(to_clixml(&PsValue::Bool(true)), "<B>true</B>");
    assert_eq!(to_clixml(&PsValue::Bool(false)), "<B>false</B>");
    assert_eq!(to_clixml(&PsValue::I32(-7)), "<I32>-7</I32>");
    assert_eq!(to_clixml(&PsValue::I64(42)), "<I64>42</I64>");
    assert_eq!(to_clixml(&PsValue::Double(s("1.5"))), "<Db>1.5</Db>");
    assert_eq!(to_clixml(&PsValue::F32(s("0.5"))), "<Sg>0.5</Sg>");
    assert_eq!(to_clixml(&PsValue::I8(-1)), "<SB>-1</SB>");
    assert_eq!(to_clixml(&PsValue::U8(255)), "<By>255</By>");
    assert_eq!(to_clixml(&PsValue::I16(-1)), "<I16>-1</I16>");
    assert_eq!(to_clixml(&PsValue::U16(65_535)), "<U16>65535</U16>");
    assert_eq!(to_clixml(&PsValue::U32(1)), "<U32>1</U32>");
    assert_eq!(to_clixml(&PsValue::U64(1)), "<U64>1</U64>");
    assert_eq!(to_clixml(&PsValue::Char('A')), "<C>65</C>");
    assert_eq!(to_clixml(&PsValue::Decimal(s("1.5"))), "<D>1.5</D>");
}

#[test]
fn string_like_variants() {
    assert_eq!(
        to_clixml(&PsValue::DateTime(s("2024-01-01T00:00:00"))),
        "<DT>2024-01-01T00:00:00</DT>"
    );
    assert_eq!(to_clixml(&PsValue::Duration(s("00:00:05"))), "<TS>00:00:05</TS>");
    assert_eq!(to_clixml(&PsValue::Version(s("5.1.0.0"))), "<Version>5.1.0.0</Version>");
    assert_eq!(to_clixml(&PsValue::Uri(s("http://x"))), "<URI>http://x</URI>");
    assert_eq!(to_clixml(&PsValue::Xml(s("<a/>"))), "<XD>&lt;a/&gt;</XD>");
    assert_eq!(to_clixml(&PsValue::ScriptBlock(s("Get-Date"))), "<SCT>Get-Date</SCT>");
    assert_eq!(to_clixml(&PsValue::SecureString(s("x"))), "<SS>x</SS>");
}

#[test]
fn guid_encoding() {
    let g = uuid::Uuid::parse_str("11112222-3333-4444-5555-666677778888").unwrap();
    assert_eq!(
        to_clixml(&PsValue::Guid(*g.as_bytes())),
        "<G>11112222-3333-4444-5555-666677778888</G>"
    );
}

#[test]
fn byte_array_roundtrip() {
    let bytes = vec![0u8, 1, 2, 3, 4, 5];
    let b64 = base64_encode(&bytes);
    assert_eq!(b64, "AAECAwQF");
    assert_eq!(base64_decode(&b64).unwrap(), bytes);
    assert_eq!(to_clixml(&PsValue::Bytes(bytes.clone())), format!("<BA>{b64}</BA>"));
}

#[test]
fn base64_edge_cases() {
    assert_eq!(base64_encode(b""), "");
    assert_eq!(base64_encode(b"f"), "Zg==");
    assert_eq!(base64_encode(b"fo"), "Zm8=");
    assert_eq!(base64_encode(b"foo"), "Zm9v");
    assert_eq!(base64_encode(b"foobar"), "Zm9vYmFy");
    assert_eq!(base64_decode("Zg==").unwrap(), b"f");
    assert_eq!(base64_decode("Zm8=").unwrap(), b"fo");
    assert_eq!(base64_decode("Zm9v").unwrap(), b"foo");
    assert_eq!(base64_decode("  Zm\n9v ").unwrap(), b"foo");
    assert!(base64_decode("!!!").is_none());
}

#[test]
fn encode_double_special_values() {
    // A double is carried by its CLIXML text; the special values are
    // spelled as PowerShell spells them.
    assert_eq!(to_clixml(&PsValue::Double(s("NaN"))), "<Db>NaN</Db>");
    assert_eq!(to_clixml(&PsValue::Double(s("Infinity"))), "<Db>Infinity</Db>");
    assert_eq!(to_clixml(&PsValue::Double(s("-Infinity"))), "<Db>-Infinity</Db>");
}

#[test]
fn string_escaping() {
    let xml = to_clixml(&PsValue::String(s("<hi & \"world\" 'x'\u{0001}")));
    assert!(xml.contains("&lt;"));
    assert!(xml.contains("&amp;"));
    assert!(xml.contains("&quot;"));
    assert!(xml.contains("&apos;"));
    assert!(xml.contains("_x0001_"));
}

#[test]
fn space_is_not_escaped() {
    let xml = to_clixml(&PsValue::String(s("a b")));
    assert!(!xml.contains("_x0020_"));
    assert!(xml.contains("a b"));
}

#[test]
fn list_encoding() {
    let v = PsValue::List(vec![PsValue::I32(1), PsValue::String(s("a"))]);
    let xml = to_clixml(&v);
    assert!(xml.contains("<LST>"));
    assert!(xml.contains("<I32>1</I32>"));
    assert!(xml.contains("<S>a</S>"));
}

#[test]
fn dict_encoding() {
    let v = PsValue::Dict(vec![(PsValue::String(s("k")), PsValue::I32(9))]);
    let xml = to_clixml(&v);
    assert!(xml.contains("<DCT>"));
    assert!(xml.contains("<En>"));
    assert!(xml.contains("N=\"Key\""));
    assert!(xml.contains("N=\"Value\""));
}

#[test]
fn object_encoding_with_typenames_and_tostring() {
    let obj = PsObject::new()
        .with(s("Name"), PsValue::String(s("Alice")))
        .with(s("Id"), PsValue::I32(7))
        .with_type_names(vec![s("System.Diagnostics.Process")]);
    let mut obj = obj;
    obj.to_string = Some(s("alice"));
    let xml = to_clixml(&PsValue::Object(obj));
    assert!(xml.contains("<TN RefId=\"1\">"));
    assert!(xml.contains("<T>System.Diagnostics.Process</T>"));
    assert!(xml.contains("<ToString>alice</ToString>"));
    assert!(xml.contains("<MS>"));
    assert!(xml.contains("<S N=\"Name\">Alice</S>"));
    assert!(xml.contains("<I32 N=\"Id\">7</I32>"));
}

#[test]
fn nil_with_name() {
    let xml = to_clixml(&PsValue::Object(PsObject::new().with(s("Maybe"), PsValue::Null)));
    assert!(xml.contains("<Nil N=\"Maybe\"/>"));
}

#[test]
fn refid_allocator() {
    let mut a = RefIdAllocator::new();
    assert_eq!(a.next(), 0);
    assert_eq!(a.next(), 1);
    assert_eq!(a.next(), 2);
    let mut b = RefIdAllocator::starting_at(42);
    assert_eq!(b.next(), 42);
    assert_eq!(b.next(), 43);
    let _ = RefIdAllocator::default();
}

fn command<'a>(name: &'a str, is_script: bool, args: Vec<PipelineArgSpec<'a>>) -> PipelineCommandSpec<'a> {
    PipelineCommandSpec { name, is_script, merge_errors_to_output: false, args }
}

#[test]
fn pipeline_xml_single_script_has_one_tn_and_seven_tnref_for_prt() {
    let xml = build_create_pipeline_xml(true, false, true, &[command("1+1", true, vec![])]);
    let prt = "System.Management.Automation.Runspaces.PipelineResultTypes";
    assert_eq!(xml.matches(prt).count(), 1, "PRT type string should appear once (in <TN>)");
    assert_eq!(
        xml.matches("<TNRef").count(),
        8,
        "expected 8 TNRef total (7 for PRT enums + 1 for Args list)"
    );
}

#[test]
fn pipeline_xml_args_uses_tnref_to_cmds_list() {
    let value = PsValue::String(s("svchost"));
    let xml = build_create_pipeline_xml(
        true,
        false,
        false,
        &[command("Get-Process", false, vec![PipelineArgSpec::Named { name: "Name", value: &value }])],
    );
    assert!(xml.contains("N=\"Args\""), "Args field must be present");
    let args_pos = xml.find("N=\"Args\"").unwrap();
    let after_args = &xml[args_pos..];
    assert!(
        after_args.starts_with("N=\"Args\"><TNRef"),
        "Args should use TNRef to reference the Cmds list TN"
    );
}

#[test]
fn pipeline_xml_two_commands_share_prt_tnref() {
    let five = PsValue::I32(5);
    let xml = build_create_pipeline_xml(
        true,
        false,
        true,
        &[
            command("Get-Process", false, vec![]),
            command("Select-Object", false, vec![PipelineArgSpec::Named { name: "First", value: &five }]),
        ],
    );
    let prt = "System.Management.Automation.Runspaces.PipelineResultTypes";
    assert_eq!(xml.matches(prt).count(), 1);
    assert_eq!(xml.matches("<TNRef").count(), 17);
}

#[test]
fn pipeline_xml_switch_emits_bool_true() {
    let xml = build_create_pipeline_xml(
        true,
        false,
        false,
        &[command("Get-Process", false, vec![PipelineArgSpec::Switch("FileVersionInfo")])],
    );
    assert!(xml.contains("<S N=\"N\">FileVersionInfo</S>"));
    assert!(xml.contains("<B N=\"V\">true</B>"));
}

#[test]
fn pipeline_xml_positional_has_nil_name() {
    let value = PsValue::String(s("svchost"));
    let xml = build_create_pipeline_xml(
        true,
        false,
        false,
        &[command("Get-Process", false, vec![PipelineArgSpec::Positional(&value)])],
    );
    assert!(xml.contains("<Nil N=\"N\"/>"));
    assert!(xml.contains("<S N=\"V\">svchost</S>"));
}

#[test]
fn float_text_is_escaped_like_any_text() {
    assert_eq!(to_clixml(&PsValue::Double("<x".to_string())), "<Db>&lt;x</Db>");
    assert_eq!(to_clixml(&PsValue::F32("-1.5E+3".to_string())), "<Sg>-1.5E+3</Sg>");
}

#[test]
fn allocator_issues_consecutive_ids() {
    for start in [0u32, 7, 1000] {
        let mut a = RefIdAllocator::starting_at(start);
        for k in 0..50u32 {
            assert_eq!(a.next(), start + k);
        }
    }
    let mut fresh = RefIdAllocator::new();
    let ids: Vec<u32> = (0..5).map(|_| fresh.next()).collect();
    assert_eq!(ids, vec![0, 1, 2, 3, 4]);
}
