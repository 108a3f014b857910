use crow_config::edit::{ConfigDocument, EditError, EditOp};
use crow_config::hosts::HostsPlugin;
use crow_config::json::JsonValue;
use crow_config::pg_hba::PgHbaPlugin;
use crow_config::sshd::SshdPlugin;
use crow_config::ufw::UfwPlugin;
use crow_config::ConfigPlugin;

const HOSTS: &str = "# hosts\n127.0.0.1\tlocalhost\n10.0.4.12  db-01 db  # primary\n";
const SSHD: &str = "# sshd\nPort 2222\nPasswordAuthentication = no   # keys only\n";
const PG_HBA: &str = "# TYPE DATABASE USER ADDRESS METHOD\nlocal all postgres peer\nhost  app  app  10.0.0.0/8  md5  # legacy\n";
const UFW: &str = "# ufw\nALLOW   in  tcp  any  any  22\nDENY    in  udp  any  any  53  # dns\n";

fn s(x: &str) -> JsonValue {
    JsonValue::String(x.to_string())
}

fn edited<P: ConfigPlugin>(plugin: &P, text: &str, op: &EditOp) -> (String, Result<(), EditError>) {
    let mut doc = ConfigDocument::parse(plugin, text).unwrap();
    let r = doc.apply_edit(op);
    (doc.serialize(), r)
}

/// Whether `after` is `before` with one stretch of bytes replaced by `t`.
fn replaced_once(before: &str, after: &str, t: &str) -> bool {
    let (b, a, t) = (before.as_bytes(), after.as_bytes(), t.as_bytes());
    if a.len() < t.len() {
        return false;
    }
    (0..=a.len() - t.len()).any(|p| {
        let rest = &a[p + t.len()..];
        &a[p..p + t.len()] == t && b.len() >= p + rest.len() && b.starts_with(&a[..p]) && b.ends_with(rest)
    })
}

fn update(row: &str, field: &str, v: JsonValue) -> EditOp {
    EditOp::UpdateField { row_id: row.to_string(), field_name: field.to_string(), new_value: v }
}

fn insert(after: Option<&str>, fields: &[(&str, JsonValue)]) -> EditOp {
    EditOp::InsertRow {
        after_row_id: after.map(|a| a.to_string()),
        fields: fields.iter().map(|(k, v)| (k.to_string(), v.duplicate())).collect(),
    }
}

/// Whether the lines of `after` are those of `before` with one line put in.
fn one_line_added(before: &str, after: &str) -> bool {
    let b: Vec<&str> = before.split_inclusive('\n').collect();
    let a: Vec<&str> = after.split_inclusive('\n').collect();
    a.len() == b.len() + 1
        && (0..a.len()).any(|j| {
            let mut rest = a.clone();
            rest.remove(j);
            rest == b
        })
}

#[test]
fn value_edits_replace_one_stretch_of_text() {
    let (t, r) = edited(&HostsPlugin::new(), HOSTS, &update("line-3", "address", s("10.9.9.9")));
    r.unwrap();
    assert_eq!(t, "# hosts\n127.0.0.1\tlocalhost\n10.9.9.9  db-01 db  # primary\n");
    assert!(replaced_once(HOSTS, &t, "10.9.9.9"));

    let (t, r) = edited(&SshdPlugin::new(), SSHD, &update("line-3", "PasswordAuthentication", s("yes")));
    r.unwrap();
    assert_eq!(t, "# sshd\nPort 2222\nPasswordAuthentication = yes   # keys only\n");
    assert!(replaced_once(SSHD, &t, "yes"));

    let (t, r) = edited(&PgHbaPlugin::new(), PG_HBA, &update("line-3", "method", s("scram-sha-256")));
    r.unwrap();
    assert_eq!(t, "# TYPE DATABASE USER ADDRESS METHOD\nlocal all postgres peer\nhost  app  app  10.0.0.0/8  scram-sha-256  # legacy\n");
    assert!(replaced_once(PG_HBA, &t, "scram-sha-256"));

    let (t, r) = edited(&UfwPlugin::new(), UFW, &update("line-3", "port", s("5353")));
    r.unwrap();
    assert_eq!(t, "# ufw\nALLOW   in  tcp  any  any  22\nDENY    in  udp  any  any  5353  # dns\n");
    assert!(replaced_once(UFW, &t, "5353"));
}

#[test]
fn inserts_add_exactly_one_line() {
    let hosts = insert(Some("line-1"), &[("address", s("10.0.0.1")), ("hostnames", JsonValue::Array(vec![s("a")]))]);
    let (t, r) = edited(&HostsPlugin::new(), HOSTS, &hosts);
    r.unwrap();
    assert!(one_line_added(HOSTS, &t));
    assert_eq!(t.lines().nth(1), Some("10.0.0.1\ta"));

    let (t, r) = edited(&SshdPlugin::new(), SSHD, &insert(None, &[("UsePAM", s("yes"))]));
    r.unwrap();
    assert!(one_line_added(SSHD, &t));
    assert!(t.ends_with("UsePAM yes\n"));

    let (t, r) = edited(&PgHbaPlugin::new(), PG_HBA, &insert(Some("line-2"), &[("type", s("local"))]));
    r.unwrap();
    assert!(one_line_added(PG_HBA, &t));

    let (t, r) = edited(&UfwPlugin::new(), UFW, &insert(None, &[("port", s("443"))]));
    r.unwrap();
    assert!(one_line_added(UFW, &t));
}

#[test]
fn refused_edits_leave_the_document_as_it_was() {
    let refused = [
        update("line-9", "address", s("1.2.3.4")),
        update("row-3", "address", s("1.2.3.4")),
        update("line-3", "address", JsonValue::Bool(true)),
        update("line-3", "nonsense", s("x")),
        update("line-3", "hostnames", JsonValue::Array(vec![])),
        update("line-3", "comment", JsonValue::Bool(false)),
        EditOp::DeleteRow { row_id: "line-42".to_string() },
        insert(None, &[("hostnames", JsonValue::Array(vec![s("a")]))]),
        insert(Some("line-42"), &[("address", s("1.1.1.1")), ("hostnames", JsonValue::Array(vec![s("a")]))]),
        EditOp::MoveRow { row_id: "line-42".to_string(), after_row_id: None, before_row_id: None },
    ];
    for op in &refused {
        let (t, r) = edited(&HostsPlugin::new(), HOSTS, op);
        assert!(r.is_err(), "{:?}", op);
        assert_eq!(t, HOSTS, "{:?}", op);
    }
    let (t, r) = edited(&SshdPlugin::new(), SSHD, &update("line-2", "ListenAddress", s("::")));
    assert!(r.is_err());
    assert_eq!(t, SSHD);
    let (t, r) = edited(&SshdPlugin::new(), SSHD, &insert(None, &[("comment", s("no directive"))]));
    assert!(r.is_err());
    assert_eq!(t, SSHD);
    let (t, r) = edited(&PgHbaPlugin::new(), PG_HBA, &update("line-2", "address", s("::1/128")));
    assert!(r.is_err());
    assert_eq!(t, PG_HBA);
    let (t, r) = edited(&UfwPlugin::new(), UFW, &update("line-2", "port", JsonValue::Null));
    assert!(r.is_err());
    assert_eq!(t, UFW);
}

#[test]
fn a_move_to_a_missing_target_has_taken_the_row_out() {
    let op = EditOp::MoveRow { row_id: "line-2".to_string(), after_row_id: Some("line-9".to_string()), before_row_id: None };
    let (t, r) = edited(&UfwPlugin::new(), UFW, &op);
    assert!(matches!(r, Err(EditError::RowNotFound(ref id)) if id == "line-9"));
    assert_eq!(t, "# ufw\nDENY    in  udp  any  any  53  # dns\n");
}

#[test]
fn every_plugin_parses_any_text_losslessly() {
    let odd = "\u{feff}x\r\n\t# only a comment\r\n1.2.3.4\n= = =\n\n   \nALLOW\nhost\u{e9} a b c d e f g h\nno-newline-at-end";
    assert_eq!(ConfigDocument::parse(&HostsPlugin::new(), odd).unwrap().serialize(), odd);
    assert_eq!(ConfigDocument::parse(&SshdPlugin::new(), odd).unwrap().serialize(), odd);
    assert_eq!(ConfigDocument::parse(&PgHbaPlugin::new(), odd).unwrap().serialize(), odd);
    assert_eq!(ConfigDocument::parse(&UfwPlugin::new(), odd).unwrap().serialize(), odd);
}

#[test]
fn written_addresses_and_host_names_read_back_in_the_ir() {
    let plugin = HostsPlugin::new();
    let mut doc = ConfigDocument::parse(&plugin, HOSTS).unwrap();
    doc.apply_edit(&update("line-3", "address", s("10.9.9.9"))).unwrap();
    doc.apply_edit(&update("line-3", "hostnames", JsonValue::Array(vec![s("db-02"), s("db")]))).unwrap();
    let ir = doc.to_ir().unwrap();
    let row = ir.rows.iter().find(|r| r.row_id == "line-3").unwrap();
    assert_eq!(row.fields[0].name, "address");
    assert_eq!(row.fields[0].value, s("10.9.9.9"));
    assert_eq!(row.get_field("hostnames").unwrap().value, JsonValue::Array(vec![s("db-02"), s("db")]));
}

#[test]
fn written_comments_read_back_trimmed_and_cleared_comments_disappear() {
    let plugin = HostsPlugin::new();
    let mut doc = ConfigDocument::parse(&plugin, HOSTS).unwrap();
    doc.apply_edit(&update("line-2", "comment", s("  loopback "))).unwrap();
    doc.apply_edit(&update("line-3", "comment", JsonValue::Null)).unwrap();
    assert_eq!(doc.serialize(), "# hosts\n127.0.0.1\tlocalhost  #   loopback \n10.0.4.12  db-01 db\n");
    let ir = doc.to_ir().unwrap();
    let two = ir.rows.iter().find(|r| r.row_id == "line-2").unwrap();
    assert_eq!(two.fields.last().unwrap().name, "comment");
    assert_eq!(two.fields.last().unwrap().value, s("loopback"));
    let three = ir.rows.iter().find(|r| r.row_id == "line-3").unwrap();
    assert!(three.get_field("comment").is_none());
}

fn ids_address_their_lines<P: ConfigPlugin>(plugin: &P, text: &str) {
    let doc = ConfigDocument::parse(plugin, text).unwrap();
    let ir = doc.to_ir().unwrap();
    assert!(!ir.rows.is_empty());
    let lines: Vec<&str> = text.split_inclusive('\n').collect();
    for row in &ir.rows {
        let n: usize = row.row_id.strip_prefix("line-").unwrap().parse().unwrap();
        assert_eq!(row.source_span.start_line, n);
        let (t, r) = edited(plugin, text, &EditOp::DeleteRow { row_id: row.row_id.clone() });
        r.unwrap();
        let mut expected = lines.clone();
        expected.remove(n - 1);
        assert_eq!(t, expected.concat());
    }
}

#[test]
fn row_ids_in_the_ir_address_the_lines_they_came_from() {
    ids_address_their_lines(&HostsPlugin::new(), HOSTS);
    ids_address_their_lines(&SshdPlugin::new(), SSHD);
    ids_address_their_lines(&PgHbaPlugin::new(), PG_HBA);
    ids_address_their_lines(&UfwPlugin::new(), UFW);
}

#[test]
fn written_directives_read_back_as_their_type_makes_them() {
    let text = "Port 2222\nAllowUsers deploy\nPasswordAuthentication no\n";
    let plugin = SshdPlugin::new();
    let mut doc = ConfigDocument::parse(&plugin, text).unwrap();
    doc.apply_edit(&update("line-2", "AllowUsers", s("deploy admin  ops"))).unwrap();
    doc.apply_edit(&update("line-3", "passwordauthentication", JsonValue::Bool(true))).unwrap();
    let ir = doc.to_ir().unwrap();
    let users = ir.rows.iter().find(|r| r.row_id == "line-2").unwrap();
    assert_eq!(users.fields[0].value, JsonValue::Array(vec![s("deploy"), s("admin"), s("ops")]));
    let pw = ir.rows.iter().find(|r| r.row_id == "line-3").unwrap();
    assert_eq!(pw.fields[0].value, s("yes"));
}

#[test]
fn written_rule_columns_read_back() {
    let plugin = PgHbaPlugin::new();
    let mut doc = ConfigDocument::parse(&plugin, PG_HBA).unwrap();
    doc.apply_edit(&update("line-3", "address", s("10.1.0.0/16"))).unwrap();
    doc.apply_edit(&update("line-3", "user", s("svc"))).unwrap();
    let ir = doc.to_ir().unwrap();
    let row = ir.rows.iter().find(|r| r.row_id == "line-3").unwrap();
    assert_eq!(row.get_field("address").unwrap().value, s("10.1.0.0/16"));
    assert_eq!(row.get_field("user").unwrap().value, s("svc"));

    let plugin = UfwPlugin::new();
    let mut doc = ConfigDocument::parse(&plugin, UFW).unwrap();
    doc.apply_edit(&update("line-2", "port", s("2222"))).unwrap();
    doc.apply_edit(&update("line-2", "action", s("LIMIT"))).unwrap();
    let ir = doc.to_ir().unwrap();
    let row = ir.rows.iter().find(|r| r.row_id == "line-2").unwrap();
    assert_eq!(row.get_field("port").unwrap().value, s("2222"));
    assert_eq!(row.get_field("action").unwrap().value, s("LIMIT"));
}

#[test]
fn a_multi_word_options_column_reads_back_its_last_word() {
    let text = "host all all 10.0.0.0/8 md5 clientcert=verify-full map=ops\n";
    let plugin = PgHbaPlugin::new();
    let mut doc = ConfigDocument::parse(&plugin, text).unwrap();
    doc.apply_edit(&update("line-1", "options", s("clientcert=verify-ca"))).unwrap();
    assert_eq!(doc.serialize(), "host all all 10.0.0.0/8 md5 clientcert=verify-ca map=ops\n");
    let ir = doc.to_ir().unwrap();
    assert_eq!(ir.rows[0].get_field("options").unwrap().value, s("map=ops"));
}
