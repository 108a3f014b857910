use crow_config::edit::{ConfigDocument, EditError, EditOp};
use crow_config::json::JsonValue;
use crow_config::pg_hba::{parse_pg_hba_cst, PgHbaPlugin};
use crow_config::schema::RiskLevel;
use crow_config::ufw::{parse_ufw_cst, UfwPlugin};
use crow_config::SyntaxKind;

const SAMPLE_PG_HBA: &str = "# TYPE  DATABASE  USER  ADDRESS  METHOD\n\
local   all       postgres          peer\n\
host    all       all   127.0.0.1/32  scram-sha-256\n\
host    app       app   10.0.0.0/8    md5  # legacy clients\n\
hostssl all       all   0.0.0.0/0     trust\n";

const SAMPLE_UFW: &str = "# ufw rules\n\
ALLOW   in  tcp  any  any  22\n\
LIMIT   in  tcp  any  any  2222   # ssh, rate limited\n\
DENY    in  udp  any  any  53\n";

fn s(x: &str) -> JsonValue {
    JsonValue::String(x.to_string())
}

#[test]
fn pg_hba_rules_bind_to_a_rule_table() {
    let plugin = PgHbaPlugin::new();
    let doc = ConfigDocument::parse(&plugin, SAMPLE_PG_HBA).unwrap();
    assert_eq!(doc.serialize(), SAMPLE_PG_HBA);
    let ir = doc.to_ir().unwrap();
    assert_eq!(ir.rows.len(), 4);
    let local = &ir.rows[0];
    assert_eq!(local.row_id, "line-2");
    assert_eq!(local.widget, "rule_table_row");
    assert_eq!(local.get_field("type").unwrap().value, s("local"));
    assert!(local.get_field("address").is_none());
    assert_eq!(local.get_field("method").unwrap().value, s("peer"));
    let legacy = &ir.rows[2];
    let method = legacy.get_field("method").unwrap();
    assert_eq!(method.valid, Some(true));
    assert_eq!(method.docs_source.as_deref(), Some("man:pg_hba.conf(5)#auth-method"));
    let md5 = method.options.as_ref().unwrap().iter().find(|o| o.value == "md5").unwrap();
    assert_eq!(md5.risk, Some(RiskLevel::Weak));
    assert_eq!(legacy.get_field("address").unwrap().value, s("10.0.0.0/8"));
    assert_eq!(legacy.get_field("comment").unwrap().value, s("legacy clients"));
    let trust = ir.rows[3].get_field("method").unwrap();
    let trust_opt = trust.options.as_ref().unwrap().iter().find(|o| o.value == "trust").unwrap();
    assert_eq!(trust_opt.risk, Some(RiskLevel::NeverOnProd));
}

#[test]
fn pg_hba_edits_touch_one_rule() {
    let plugin = PgHbaPlugin::new();
    let mut doc = ConfigDocument::parse(&plugin, SAMPLE_PG_HBA).unwrap();
    doc.apply_edit(&EditOp::UpdateField { row_id: "line-4".into(), field_name: "method".into(), new_value: s("scram-sha-256") }).unwrap();
    assert!(doc.serialize().contains("host    app       app   10.0.0.0/8    scram-sha-256  # legacy clients\n"));
    assert!(matches!(
        doc.apply_edit(&EditOp::UpdateField { row_id: "line-2".into(), field_name: "address".into(), new_value: s("x") }),
        Err(EditError::FieldNotFound(..))
    ));
    assert!(matches!(
        doc.apply_edit(&EditOp::UpdateField { row_id: "line-2".into(), field_name: "user".into(), new_value: JsonValue::Null }),
        Err(EditError::InvalidValue { .. })
    ));
    doc.apply_edit(&EditOp::MoveRow { row_id: "line-5".into(), after_row_id: None, before_row_id: Some("line-2".into()) }).unwrap();
    let lines: Vec<String> = doc.serialize().lines().map(|l| l.to_string()).collect();
    assert_eq!(lines[1], "hostssl all       all   0.0.0.0/0     trust");
    doc.apply_edit(&EditOp::InsertRow { after_row_id: Some("line-1".into()), fields: vec![("type".into(), s("local")), ("comment".into(), s("admin"))] }).unwrap();
    let lines: Vec<String> = doc.serialize().lines().map(|l| l.to_string()).collect();
    assert_eq!(lines[1], "local\tall\tall\tscram-sha-256  # admin");
    doc.apply_edit(&EditOp::InsertRow { after_row_id: None, fields: vec![("options".into(), s("clientcert=verify-full"))] }).unwrap();
    assert!(doc.serialize().ends_with("host\tall\tall\t127.0.0.1/32\tscram-sha-256\tclientcert=verify-full\n"));
    assert!(matches!(
        doc.apply_edit(&EditOp::MoveRow { row_id: "line-2".into(), after_row_id: Some("line-99".into()), before_row_id: None }),
        Err(EditError::RowNotFound(r)) if r == "line-99"
    ));
    doc.apply_edit(&EditOp::DeleteRow { row_id: "line-2".into() }).unwrap();
    assert!(!doc.serialize().contains("0.0.0.0/0"));
}

#[test]
fn pg_hba_short_rules_are_errors() {
    let text = "host all all md5\nlocal all all\nlocal \"my db\" all peer\n";
    let lines = parse_pg_hba_cst(text);
    let kinds: Vec<SyntaxKind> = lines.iter().map(|l| l.kind().clone()).collect();
    assert_eq!(kinds, vec![SyntaxKind::Error, SyntaxKind::Error, SyntaxKind::Entry]);
    assert_eq!(lines[2].collect_token_texts(&SyntaxKind::custom("database")), vec!["\"my db\"".to_string()]);
    let joined: String = lines.iter().map(|l| l.to_string_lossless()).collect();
    assert_eq!(joined, text);
}

#[test]
fn ufw_rules_bind_and_reorder() {
    let plugin = UfwPlugin::new();
    let mut doc = ConfigDocument::parse(&plugin, SAMPLE_UFW).unwrap();
    assert_eq!(doc.serialize(), SAMPLE_UFW);
    let ir = doc.to_ir().unwrap();
    assert_eq!(ir.rows.len(), 3);
    let limit = &ir.rows[1];
    assert_eq!(limit.get_field("action").unwrap().value, s("LIMIT"));
    assert_eq!(limit.get_field("action").unwrap().valid, Some(true));
    assert_eq!(limit.get_field("port").unwrap().value, s("2222"));
    assert_eq!(limit.get_field("comment").unwrap().value, s("ssh, rate limited"));
    let deny = ir.rows[2].get_field("action").unwrap();
    let deny_opt = deny.options.as_ref().unwrap().iter().find(|o| o.value == "DENY").unwrap();
    assert_eq!(deny_opt.risk, Some(RiskLevel::Deny));
    doc.apply_edit(&EditOp::MoveRow { row_id: "line-4".into(), after_row_id: None, before_row_id: Some("line-2".into()) }).unwrap();
    let lines: Vec<String> = doc.serialize().lines().map(|l| l.to_string()).collect();
    assert_eq!(lines[1], "DENY    in  udp  any  any  53");
    doc.apply_edit(&EditOp::UpdateField { row_id: "line-3".into(), field_name: "port".into(), new_value: s("2200") }).unwrap();
    assert!(doc.serialize().contains("ALLOW   in  tcp  any  any  2200\n"));
    doc.apply_edit(&EditOp::InsertRow { after_row_id: None, fields: vec![("port".into(), s("443"))] }).unwrap();
    assert!(doc.serialize().ends_with("ALLOW\tin\ttcp\tany\tany\t443\n"));
}

#[test]
fn ufw_needs_six_columns() {
    let text = "ALLOW in tcp any any\nALLOW in tcp any any 80 extra\n";
    let lines = parse_ufw_cst(text);
    assert_eq!(*lines[0].kind(), SyntaxKind::Error);
    assert_eq!(*lines[1].kind(), SyntaxKind::Entry);
    assert_eq!(lines[1].collect_token_texts(&SyntaxKind::custom("extra")), vec!["extra".to_string()]);
    let joined: String = lines.iter().map(|l| l.to_string_lossless()).collect();
    assert_eq!(joined, text);
}
