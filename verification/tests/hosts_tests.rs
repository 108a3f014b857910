use crow_config::edit::{ConfigDocument, EditError, EditOp};
use crow_config::hosts::{parse_hosts_cst, HostsPlugin};
use crow_config::ir::{FieldIr, RowIr};
use crow_config::json::JsonValue;
use crow_config::schema::FieldType;
use crow_config::{ConfigPlugin, CstNode, SourceSpan, SyntaxKind};

const SAMPLE_HOSTS: &str = "# /etc/hosts: static table of host names\n\
127.0.0.1\tlocalhost\n\
::1\tlocalhost ip6-localhost ip6-loopback\n\
10.0.4.12  db-primary-01.internal db-primary-01  # primary postgres\n\
10.0.4.20  cache-01.internal cache-01\n";

fn s(x: &str) -> JsonValue {
    JsonValue::String(x.to_string())
}

fn arr(xs: &[&str]) -> JsonValue {
    JsonValue::Array(xs.iter().map(|x| s(x)).collect())
}

#[test]
fn test_ir_row_json_serialization_matches_spec() {
    let mut row = RowIr::new("line-4", "key_value_list_row", SourceSpan::new(4, 4));
    row.fields.push(FieldIr::new("address", FieldType::IpAddress, s("10.0.4.12")).with_validity(true));
    row.fields.push(FieldIr::new("hostnames", FieldType::StringList, arr(&["db-primary-01.internal", "db-primary-01"])));
    row.fields.push(FieldIr::new("comment", FieldType::String, s("primary postgres")));

    assert_eq!(row.row_id, "line-4");
    assert_eq!(row.widget, "key_value_list_row");
    assert_eq!(row.source_span, SourceSpan::new(4, 4));
    assert_eq!(row.fields.len(), 3);
    assert_eq!(row.get_field("address").unwrap().valid, Some(true));
    assert_eq!(row.get_field("hostnames").unwrap().value, arr(&["db-primary-01.internal", "db-primary-01"]));
    assert_eq!(row.get_field("comment").unwrap().field_type, FieldType::String);
    assert_eq!(row.get_field("comment").unwrap().valid, None);
    assert_eq!(row.is_blank, None);
    row.get_field_mut("comment").unwrap().value = s("changed");
    assert_eq!(row.fields[2].value, s("changed"));
    let invalid = FieldIr::new("x", FieldType::String, JsonValue::Null).with_error("bad".to_string());
    assert_eq!((invalid.valid, invalid.validation_error.as_deref()), (Some(false), Some("bad")));
}

#[test]
fn test_acceptance_ir_target_step_1() {
    let plugin = HostsPlugin::new();
    let doc = ConfigDocument::parse(&plugin, SAMPLE_HOSTS).expect("Failed to parse hosts file");
    let ir = doc.to_ir().expect("Failed to bind to IR");
    let row_4 = ir.rows.iter().find(|r| r.row_id == "line-4").expect("Row line-4 must exist");

    let mut expected = RowIr::new("line-4", "key_value_list_row", SourceSpan::new(4, 4));
    expected.fields.push(FieldIr::new("address", FieldType::IpAddress, s("10.0.4.12")).with_validity(true));
    expected.fields.push(FieldIr::new("hostnames", FieldType::StringList, arr(&["db-primary-01.internal", "db-primary-01"])));
    expected.fields.push(FieldIr::new("comment", FieldType::String, s("primary postgres")));
    assert_eq!(*row_4, expected);
    assert_eq!(ir.plugin_name, "hosts");
    assert_eq!(ir.rows.len(), 4);
}

#[test]
fn test_lossless_roundtrip_unedited() {
    let plugin = HostsPlugin::new();
    let doc = ConfigDocument::parse(&plugin, SAMPLE_HOSTS).expect("Failed to parse hosts");
    let serialized = doc.serialize();
    assert_eq!(serialized, SAMPLE_HOSTS);
    let doc2 = ConfigDocument::parse(&plugin, &serialized).expect("Failed to re-parse");
    assert_eq!(doc.cst(), doc2.cst());
    assert_eq!(doc.to_ir().unwrap(), doc2.to_ir().unwrap());
}

#[test]
fn test_single_semantic_edit_only_intended_line_changes() {
    let plugin = HostsPlugin::new();
    let mut doc = ConfigDocument::parse(&plugin, SAMPLE_HOSTS).expect("Failed to parse hosts");
    let edit = EditOp::UpdateField { row_id: "line-4".to_string(), field_name: "address".to_string(), new_value: s("10.0.4.13") };
    doc.apply_edit(&edit).expect("Failed to apply edit");
    let serialized = doc.serialize();
    let orig_lines: Vec<&str> = SAMPLE_HOSTS.lines().collect();
    let new_lines: Vec<&str> = serialized.lines().collect();
    assert_eq!(orig_lines.len(), new_lines.len());
    for (i, (orig, new)) in orig_lines.iter().zip(new_lines.iter()).enumerate() {
        let line_no = i + 1;
        if line_no == 4 {
            assert_eq!(*new, "10.0.4.13  db-primary-01.internal db-primary-01  # primary postgres");
        } else {
            assert_eq!(orig, new, "Line {} changed unexpectedly", line_no);
        }
    }
}

#[test]
fn test_edit_hostnames_and_comment() {
    let plugin = HostsPlugin::new();
    let mut doc = ConfigDocument::parse(&plugin, SAMPLE_HOSTS).expect("Failed to parse hosts");
    doc.apply_edit(&EditOp::UpdateField {
        row_id: "line-4".to_string(),
        field_name: "hostnames".to_string(),
        new_value: arr(&["db-primary-01.internal", "db-primary-01", "db-01"]),
    })
    .unwrap();
    doc.apply_edit(&EditOp::UpdateField {
        row_id: "line-4".to_string(),
        field_name: "comment".to_string(),
        new_value: s("updated postgres comment"),
    })
    .unwrap();
    let serialized = doc.serialize();
    assert!(serialized.contains("10.0.4.12  db-primary-01.internal db-primary-01 db-01  # updated postgres comment"));
    let orig_lines: Vec<&str> = SAMPLE_HOSTS.lines().collect();
    let new_lines: Vec<&str> = serialized.lines().collect();
    assert_eq!(orig_lines[0], new_lines[0]);
    assert_eq!(orig_lines[1], new_lines[1]);
    assert_eq!(orig_lines[2], new_lines[2]);
    assert_eq!(orig_lines[4], new_lines[4]);
}

#[test]
fn test_delete_and_insert_row() {
    let plugin = HostsPlugin::new();
    let mut doc = ConfigDocument::parse(&plugin, SAMPLE_HOSTS).unwrap();
    doc.apply_edit(&EditOp::DeleteRow { row_id: "line-4".to_string() }).unwrap();
    assert!(!doc.serialize().contains("10.0.4.12"));
    let fields = vec![
        ("address".to_string(), s("10.0.4.99")),
        ("hostnames".to_string(), arr(&["new-host.internal"])),
        ("comment".to_string(), s("brand new host")),
    ];
    doc.apply_edit(&EditOp::InsertRow { after_row_id: Some("line-3".to_string()), fields }).unwrap();
    assert!(doc.serialize().contains("10.0.4.99\tnew-host.internal  # brand new host\n"));
}

#[test]
fn test_malformed_input_never_panics_and_is_lossless() {
    let malformed = "### Header\nnot-an-ip-or-anything\n127.0.0.1\n999.999.999.999 validname\n\n";
    let plugin = HostsPlugin::new();
    let doc = ConfigDocument::parse(&plugin, malformed).expect("Should parse without panic");
    assert_eq!(doc.serialize(), malformed);
    let ir = doc.to_ir().unwrap();
    let invalid_ip_row = ir.rows.iter().find(|r| r.fields.iter().any(|f| f.name == "address" && f.value == s("999.999.999.999")));
    assert!(invalid_ip_row.is_some());
    let addr_field = invalid_ip_row.unwrap().get_field("address").unwrap();
    assert_eq!(addr_field.valid, Some(false));
}

#[test]
fn hosts_input_with_crlf_and_odd_bytes_round_trips() {
    let plugin = HostsPlugin::new();
    let inputs = [
        "",
        "\n",
        "\r\n",
        "1.2.3.4 host\rjunk\n",
        "  \t# only a comment\r\n",
        "1.2.3.4\n",
        "1.2.3.4 a b c#c\n::1 x",
        "ünïcödé  名前 # コメント\n",
        "\t\t\n\n  1.1.1.1\t\tone   two\t",
    ];
    for text in inputs {
        let doc = ConfigDocument::parse(&plugin, text).unwrap();
        assert_eq!(doc.serialize(), text);
        let lines = parse_hosts_cst(text);
        let joined: String = lines.iter().map(|l| l.to_string_lossless()).collect();
        assert_eq!(joined, text);
    }
}

#[test]
fn pseudo_random_hosts_text_round_trips() {
    let alphabet = ['1', '.', ' ', '\t', '#', '\n', '\r', 'a', 'é', ':', '='];
    let mut state: u64 = 0x9e37_79b9_7f4a_7c15;
    let plugin = HostsPlugin::new();
    for _ in 0..300 {
        let mut text = String::new();
        state ^= state << 13;
        state ^= state >> 7;
        state ^= state << 17;
        let len = (state % 40) as usize;
        for _ in 0..len {
            state ^= state << 13;
            state ^= state >> 7;
            state ^= state << 17;
            text.push(alphabet[(state % alphabet.len() as u64) as usize]);
        }
        let doc = ConfigDocument::parse(&plugin, &text).unwrap();
        assert_eq!(doc.serialize(), text);
        let _ = doc.to_ir().unwrap();
    }
}

#[test]
fn hosts_edits_report_what_is_wrong() {
    let plugin = HostsPlugin::new();
    let mut doc = ConfigDocument::parse(&plugin, SAMPLE_HOSTS).unwrap();
    let update = |row: &str, field: &str, v: JsonValue| EditOp::UpdateField { row_id: row.to_string(), field_name: field.to_string(), new_value: v };
    assert!(matches!(doc.apply_edit(&update("line-9", "address", s("1.1.1.1"))), Err(EditError::RowNotFound(r)) if r == "line-9"));
    assert!(matches!(doc.apply_edit(&update("row-1", "address", s("1.1.1.1"))), Err(EditError::RowNotFound(_))));
    assert!(matches!(doc.apply_edit(&update("line-1", "address", s("1.1.1.1"))), Err(EditError::FieldNotFound(f, r)) if f == "address" && r == "line-1"));
    assert!(matches!(doc.apply_edit(&update("line-2", "address", JsonValue::Null)), Err(EditError::InvalidValue { .. })));
    assert!(matches!(doc.apply_edit(&update("line-2", "hostnames", arr(&[]))), Err(EditError::InvalidValue { .. })));
    assert!(matches!(doc.apply_edit(&update("line-2", "hostnames", JsonValue::Array(vec![JsonValue::Null]))), Err(EditError::InvalidValue { .. })));
    assert!(matches!(doc.apply_edit(&update("line-2", "aliases", arr(&["x"]))), Err(EditError::FieldNotFound(..))));
    let e = doc.apply_edit(&update("line-2", "comment", JsonValue::Bool(true))).unwrap_err();
    assert_eq!(e.to_text(), "Invalid value for field 'comment': Comment must be a string");
    assert_eq!(doc.serialize(), SAMPLE_HOSTS, "failed edits change nothing");
}

#[test]
fn comments_are_added_replaced_and_removed() {
    let plugin = HostsPlugin::new();
    let mut doc = ConfigDocument::parse(&plugin, SAMPLE_HOSTS).unwrap();
    let update = |v: JsonValue| EditOp::UpdateField { row_id: "line-2".to_string(), field_name: "comment".to_string(), new_value: v };
    doc.apply_edit(&update(s("loopback"))).unwrap();
    assert!(doc.serialize().contains("127.0.0.1\tlocalhost  # loopback\n"));
    doc.apply_edit(&update(s("still loopback"))).unwrap();
    assert!(doc.serialize().contains("127.0.0.1\tlocalhost  # still loopback\n"));
    doc.apply_edit(&update(s(""))).unwrap();
    assert_eq!(doc.serialize(), SAMPLE_HOSTS);
    doc.apply_edit(&update(JsonValue::Null)).unwrap();
    assert_eq!(doc.serialize(), SAMPLE_HOSTS);
}

#[test]
fn rows_move_and_inserts_go_to_the_end_without_a_target() {
    let plugin = HostsPlugin::new();
    let mut doc = ConfigDocument::parse(&plugin, SAMPLE_HOSTS).unwrap();
    doc.apply_edit(&EditOp::MoveRow { row_id: "line-5".to_string(), after_row_id: None, before_row_id: Some("line-2".to_string()) }).unwrap();
    let lines: Vec<String> = doc.serialize().lines().map(|l| l.to_string()).collect();
    assert_eq!(lines[1], "10.0.4.20  cache-01.internal cache-01");
    assert_eq!(lines[2], "127.0.0.1\tlocalhost");
    let fields = vec![("address".to_string(), s("10.9.9.9")), ("hostnames".to_string(), arr(&["a", "b"]))];
    doc.apply_edit(&EditOp::InsertRow { after_row_id: None, fields }).unwrap();
    assert!(doc.serialize().ends_with("10.0.4.12  db-primary-01.internal db-primary-01  # primary postgres\n10.9.9.9\ta b\n"));
    let missing = vec![("hostnames".to_string(), arr(&["a"]))];
    assert!(matches!(doc.apply_edit(&EditOp::InsertRow { after_row_id: None, fields: missing }), Err(EditError::InvalidValue { field, .. }) if field == "address"));
}

#[test]
fn hosts_lines_get_their_kinds() {
    let plugin = HostsPlugin::new();
    let cst = plugin.parse("# c\n\n1.1.1.1 a\nbad\n").unwrap();
    let kinds: Vec<SyntaxKind> = cst.children().iter().map(|c| c.kind().clone()).collect();
    assert_eq!(kinds, vec![SyntaxKind::CommentLine, SyntaxKind::BlankLine, SyntaxKind::Entry, SyntaxKind::Error]);
    assert_eq!(plugin.manifest().plugin.name, "hosts");
    match &cst.children()[2].children()[0] {
        CstNode::Token { text, .. } => assert_eq!(text, "1.1.1.1"),
        CstNode::Rule { .. } => panic!("expected a token"),
    }
}
