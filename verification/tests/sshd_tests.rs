use crow_config::edit::{ConfigDocument, EditError, EditOp};
use crow_config::json::{JsonNumber, JsonValue};
use crow_config::schema::{FieldType, RiskLevel};
use crow_config::sshd::{parse_sshd_cst, SshdPlugin};
use crow_config::SyntaxKind;

const SAMPLE_SSHD: &str = "# OpenSSH server configuration\n\
# See sshd_config(5) for the keywords.\n\
\n\
Port 2222\n\
ListenAddress 0.0.0.0\n\
\n\
# Authentication\n\
PermitRootLogin prohibit-password\n\
PubkeyAuthentication yes\n\
MaxAuthTries 3\n\
\n\
AllowUsers deploy admin\n\
\n\
# Keys only\n\
KbdInteractiveAuthentication no\n\
PasswordAuthentication = no\n\
PermitEmptyPasswords no\n\
\n\
X11Forwarding no # disable GUI tunneling\n\
UsePAM yes\n\
Subsystem sftp /usr/lib/openssh/sftp-server\n";

fn s(x: &str) -> JsonValue {
    JsonValue::String(x.to_string())
}

#[test]
fn test_sshd_config_lossless_roundtrip() {
    let plugin = SshdPlugin::new();
    let doc = ConfigDocument::parse(&plugin, SAMPLE_SSHD).expect("Failed to parse sshd_config");
    let serialized = doc.serialize();
    assert_eq!(serialized, SAMPLE_SSHD);
    let doc2 = ConfigDocument::parse(&plugin, &serialized).expect("Failed to re-parse");
    assert_eq!(doc.cst(), doc2.cst());
    assert_eq!(doc.to_ir().unwrap(), doc2.to_ir().unwrap());
}

#[test]
fn test_sshd_config_risk_metadata_and_docs() {
    let plugin = SshdPlugin::new();
    let doc = ConfigDocument::parse(&plugin, SAMPLE_SSHD).unwrap();
    let ir = doc.to_ir().unwrap();

    let root_login_row = ir.rows.iter().find(|r| r.get_field("PermitRootLogin").is_some()).expect("PermitRootLogin row must exist");
    let field = root_login_row.get_field("PermitRootLogin").unwrap();
    assert_eq!(field.value, s("prohibit-password"));
    assert_eq!(field.valid, Some(true));
    assert_eq!(field.docs_source.as_deref(), Some("man:sshd_config(5)#PermitRootLogin"));
    let opts = field.options.as_ref().expect("Options must be populated");
    let rec = opts.iter().find(|o| o.value == "prohibit-password").unwrap();
    assert_eq!(rec.risk, Some(RiskLevel::Recommended));
    let bad = opts.iter().find(|o| o.value == "yes").unwrap();
    assert_eq!(bad.risk, Some(RiskLevel::NeverOnProd));

    let pass_row = ir.rows.iter().find(|r| r.get_field("PasswordAuthentication").is_some()).expect("PasswordAuthentication row must exist");
    let pass_field = pass_row.get_field("PasswordAuthentication").unwrap();
    assert_eq!(pass_field.value, s("no"));
    assert_eq!(pass_field.valid, Some(true));
    let pass_opts = pass_field.options.as_ref().unwrap();
    assert_eq!(pass_opts.iter().find(|o| o.value == "no").unwrap().risk, Some(RiskLevel::Recommended));
    assert_eq!(pass_opts.iter().find(|o| o.value == "yes").unwrap().risk, Some(RiskLevel::Caution));
}

#[test]
fn test_sshd_config_semantic_edit() {
    let plugin = SshdPlugin::new();
    let mut doc = ConfigDocument::parse(&plugin, SAMPLE_SSHD).unwrap();
    doc.apply_edit(&EditOp::UpdateField { row_id: "line-4".to_string(), field_name: "Port".to_string(), new_value: s("22") }).unwrap();
    let serialized = doc.serialize();
    let orig_lines: Vec<&str> = SAMPLE_SSHD.lines().collect();
    let new_lines: Vec<&str> = serialized.lines().collect();
    assert_eq!(orig_lines.len(), new_lines.len());
    for (i, (orig, new)) in orig_lines.iter().zip(new_lines.iter()).enumerate() {
        let line_no = i + 1;
        if line_no == 4 {
            assert_eq!(*new, "Port 22");
        } else {
            assert_eq!(orig, new, "Line {} changed unexpectedly", line_no);
        }
    }
}

#[test]
fn test_sshd_config_edit_preserves_equals_separator_and_comment() {
    let plugin = SshdPlugin::new();
    let mut doc = ConfigDocument::parse(&plugin, SAMPLE_SSHD).unwrap();
    let ir = doc.to_ir().unwrap();
    let pass_row = ir.rows.iter().find(|r| r.get_field("PasswordAuthentication").is_some()).unwrap();
    doc.apply_edit(&EditOp::UpdateField {
        row_id: pass_row.row_id.clone(),
        field_name: "PasswordAuthentication".to_string(),
        new_value: s("yes"),
    })
    .unwrap();
    assert!(doc.serialize().contains("PasswordAuthentication = yes\n"));
    let x11_row = ir.rows.iter().find(|r| r.get_field("X11Forwarding").is_some()).unwrap();
    doc.apply_edit(&EditOp::UpdateField { row_id: x11_row.row_id.clone(), field_name: "X11Forwarding".to_string(), new_value: s("yes") })
        .unwrap();
    assert!(doc.serialize().contains("X11Forwarding yes # disable GUI tunneling\n"));
}

#[test]
fn test_sshd_delete_and_insert() {
    let plugin = SshdPlugin::new();
    let mut doc = ConfigDocument::parse(&plugin, SAMPLE_SSHD).unwrap();
    doc.apply_edit(&EditOp::DeleteRow { row_id: "line-4".to_string() }).unwrap();
    assert!(!doc.serialize().contains("Port 2222"));
    let fields = vec![("Banner".to_string(), s("/etc/issue.net")), ("comment".to_string(), s("legal warning banner"))];
    doc.apply_edit(&EditOp::InsertRow { after_row_id: Some("line-15".to_string()), fields }).unwrap();
    assert!(doc.serialize().contains("Banner /etc/issue.net  # legal warning banner\n"));
}

#[test]
fn directive_values_come_from_any_json_scalar_or_list() {
    let plugin = SshdPlugin::new();
    let mut doc = ConfigDocument::parse(&plugin, SAMPLE_SSHD).unwrap();
    let update = |row: &str, field: &str, v: JsonValue| EditOp::UpdateField { row_id: row.to_string(), field_name: field.to_string(), new_value: v };
    doc.apply_edit(&update("line-4", "port", JsonValue::Number(JsonNumber::PosInt(2022)))).unwrap();
    assert!(doc.serialize().contains("\nPort 2022\n"), "keywords match without regard to case");
    doc.apply_edit(&update("line-20", "UsePAM", JsonValue::Bool(false))).unwrap();
    assert!(doc.serialize().contains("\nUsePAM no\n"));
    doc.apply_edit(&update("line-12", "AllowUsers", JsonValue::Array(vec![s("ops"), JsonValue::Null, s("ci")]))).unwrap();
    assert!(doc.serialize().contains("\nAllowUsers ops ci\n"));
    let e = doc.apply_edit(&update("line-12", "AllowUsers", JsonValue::Null)).unwrap_err();
    assert_eq!(e.to_text(), "Invalid value for field 'AllowUsers': Unsupported JSON value type for directive");
    assert!(matches!(doc.apply_edit(&update("line-12", "Port", s("1"))), Err(EditError::FieldNotFound(..))));
    assert!(matches!(doc.apply_edit(&update("line-1", "Port", s("1"))), Err(EditError::FieldNotFound(..))));
}

#[test]
fn sshd_rows_bind_to_manifest_fields() {
    let plugin = SshdPlugin::new();
    let doc = ConfigDocument::parse(&plugin, SAMPLE_SSHD).unwrap();
    let ir = doc.to_ir().unwrap();
    assert_eq!(ir.plugin_name, "sshd_config");
    let users = ir.rows.iter().find_map(|r| r.get_field("AllowUsers")).unwrap();
    assert_eq!(users.field_type, FieldType::StringList);
    assert_eq!(users.value, JsonValue::Array(vec![s("deploy"), s("admin")]));
    let sub = ir.rows.iter().find_map(|r| r.get_field("Subsystem")).unwrap();
    assert_eq!(sub.value, s("sftp /usr/lib/openssh/sftp-server"));
    let x11 = ir.rows.iter().find(|r| r.get_field("X11Forwarding").is_some()).unwrap();
    assert_eq!(x11.row_id, "line-19");
    assert_eq!(x11.get_field("comment").unwrap().value, s("disable GUI tunneling"));
    let tries = ir.rows.iter().find_map(|r| r.get_field("MaxAuthTries")).unwrap();
    assert_eq!(tries.valid, Some(true));
    let unknown = ConfigDocument::parse(&plugin, "Ciphers aes256-ctr\n").unwrap().to_ir().unwrap();
    assert_eq!(unknown.rows[0].fields[0].name, "Ciphers");
    assert_eq!(unknown.rows[0].fields[0].valid, None);
}

#[test]
fn sshd_malformed_lines_are_errors_that_round_trip() {
    let text = "=oops\nPort\nPort   \n  # indented comment\nKey \"quoted # value\" # comment\r\n";
    let lines = parse_sshd_cst(text);
    let kinds: Vec<SyntaxKind> = lines.iter().map(|l| l.kind().clone()).collect();
    assert_eq!(kinds, vec![SyntaxKind::Error, SyntaxKind::Error, SyntaxKind::Error, SyntaxKind::CommentLine, SyntaxKind::Entry]);
    let joined: String = lines.iter().map(|l| l.to_string_lossless()).collect();
    assert_eq!(joined, text);
    assert_eq!(lines[4].collect_token_texts(&SyntaxKind::Value), vec!["\"quoted # value\"".to_string()]);
}
