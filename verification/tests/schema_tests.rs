use crow_config::json::{JsonNumber, JsonValue};
use crow_config::schema::{
    check_field_value, validate_field_value, validate_secret, EnumOption, FieldDef, FieldType, IpFamily, PluginManifest,
    PluginMeta, RiskLevel, ShapeMeta, ValidatorDef, WidgetKind,
};
use crow_config::plugin::PluginKind;
use crow_config::secret::SecretValue;

fn s(x: &str) -> JsonValue {
    JsonValue::String(x.to_string())
}

fn field(name: &str, field_type: FieldType) -> FieldDef {
    FieldDef {
        name: name.to_string(),
        label: None,
        field_type,
        required: None,
        help: None,
        docs_source: None,
        options: None,
        group: None,
        default: None,
        min: None,
        max: None,
    }
}

fn opt(value: &str, label: &str, risk: RiskLevel) -> EnumOption {
    EnumOption { value: value.to_string(), label: label.to_string(), risk: Some(risk) }
}

#[test]
fn test_manifest_deserialization() {
    let mut address = field("address", FieldType::IpAddress);
    address.required = Some(true);
    let mut hostnames = field("hostnames", FieldType::StringList);
    hostnames.required = Some(true);
    hostnames.help = Some("First entry is the canonical hostname; the rest are aliases.".to_string());
    let mut comment = field("comment", FieldType::String);
    comment.required = Some(false);
    let manifest = PluginManifest {
        plugin: PluginMeta {
            name: "hosts".to_string(),
            display_name: None,
            grammar: Some("hosts-line-grammar".to_string()),
            kind: PluginKind::Config,
            category: None,
            capabilities: vec![],
        },
        shape: ShapeMeta { kind: WidgetKind::KeyValueList, order_sensitive: true, order_note: None },
        fields: vec![address, hostnames, comment],
        validators: vec![ValidatorDef {
            command: "getent hosts {address}".to_string(),
            description: Some("Confirms the address resolves as entered.".to_string()),
        }],
        requires: vec![],
    };
    assert_eq!(manifest.plugin.name, "hosts");
    assert_eq!(manifest.shape.kind, WidgetKind::KeyValueList);
    assert!(manifest.shape.order_sensitive);
    assert_eq!(manifest.fields.len(), 3);
    assert_eq!(manifest.validators.len(), 1);

    let params = vec![("address".to_string(), "10.0.4.12".to_string())];
    assert_eq!(manifest.validators[0].render_command(&params), "getent hosts 10.0.4.12");
}

#[test]
fn test_manifest_with_enum_risk_and_docs() {
    let mut method = field("method", FieldType::Enum);
    method.docs_source = Some("man:pg_hba.conf(5)#auth-method".to_string());
    method.options = Some(vec![
        opt("scram-sha-256", "Salted challenge-response, password never in cleartext", RiskLevel::Recommended),
        opt("md5", "Deprecated hash, replayable on the wire", RiskLevel::Weak),
        opt("trust", "Any connection accepted with no password whatsoever", RiskLevel::NeverOnProd),
    ]);
    let manifest = PluginManifest {
        plugin: PluginMeta {
            name: "pg_hba".to_string(),
            display_name: None,
            grammar: Some("tree-sitter-pg-hba".to_string()),
            kind: PluginKind::Config,
            category: None,
            capabilities: vec![],
        },
        shape: ShapeMeta {
            kind: WidgetKind::RuleTable,
            order_sensitive: true,
            order_note: Some("First match wins — rule order is evaluated top to bottom.".to_string()),
        },
        fields: vec![method],
        validators: vec![ValidatorDef { command: "postgres --check-config".to_string(), description: None }],
        requires: vec![],
    };
    assert_eq!(manifest.plugin.name, "pg_hba");
    assert_eq!(manifest.shape.kind, WidgetKind::RuleTable);
    let method_field = manifest.find_field("method").unwrap();
    assert_eq!(method_field.docs_source.as_deref(), Some("man:pg_hba.conf(5)#auth-method"));
    let opts = method_field.options.as_ref().unwrap();
    assert_eq!(opts.len(), 3);
    assert_eq!(opts[0].risk, Some(RiskLevel::Recommended));
    assert_eq!(opts[1].risk, Some(RiskLevel::Weak));
    assert_eq!(opts[2].risk, Some(RiskLevel::NeverOnProd));
}

#[test]
fn test_validation_logic() {
    let mut ip_field = field("address", FieldType::IpAddress);
    ip_field.required = Some(true);
    assert!(validate_field_value(&ip_field, &s("10.0.4.12")).is_ok());
    assert!(validate_field_value(&ip_field, &s("::1")).is_ok());
    assert!(validate_field_value(&ip_field, &s("invalid-ip")).is_err());
    assert!(validate_field_value(&ip_field, &JsonValue::Null).is_err());
}

#[test]
fn validation_messages_name_the_field() {
    let mut ip_field = field("address", FieldType::IpAddress);
    ip_field.required = Some(true);
    assert_eq!(validate_field_value(&ip_field, &JsonValue::Null), Err("Field 'address' is required".to_string()));
    assert_eq!(
        validate_field_value(&ip_field, &JsonValue::Bool(true)),
        Err("Field 'address' must be an IP address string".to_string())
    );
    let e = validate_field_value(&ip_field, &s("999.999.999.999")).unwrap_err();
    assert!(e.starts_with("Invalid IP address '999.999.999.999': "), "{e}");
    let optional = field("note", FieldType::String);
    assert_eq!(validate_field_value(&optional, &JsonValue::Null), Ok(()));
    assert_eq!(
        validate_field_value(&optional, &JsonValue::Number(JsonNumber::PosInt(1))),
        Err("Field 'note' must be a string".to_string())
    );
}

#[test]
fn ports_are_between_one_and_65535() {
    let port = field("Port", FieldType::Port);
    assert_eq!(validate_field_value(&port, &s("22")), Ok(()));
    assert_eq!(validate_field_value(&port, &s("+22")), Ok(()));
    assert_eq!(validate_field_value(&port, &JsonValue::Number(JsonNumber::PosInt(65535))), Ok(()));
    assert_eq!(
        validate_field_value(&port, &JsonValue::Number(JsonNumber::PosInt(70000))),
        Err("Port number 70000 is out of range (1-65535)".to_string())
    );
    assert_eq!(validate_field_value(&port, &s("0")), Err("Port number 0 is out of range (1-65535)".to_string()));
    assert_eq!(validate_field_value(&port, &s("ssh")), Err("Invalid port number 'ssh'".to_string()));
    assert_eq!(
        validate_field_value(&port, &JsonValue::Number(JsonNumber::NegInt(-1))),
        Err("Field 'Port' must be a port number".to_string())
    );
}

#[test]
fn cidrs_need_an_address_and_a_prefix_that_fits() {
    let cidr = field("net", FieldType::Cidr);
    assert_eq!(validate_field_value(&cidr, &s("10.0.0.0/8")), Ok(()));
    assert_eq!(validate_field_value(&cidr, &s("fe80::/64")), Ok(()));
    assert_eq!(validate_field_value(&cidr, &s("::/128")), Ok(()));
    assert_eq!(
        validate_field_value(&cidr, &s("10.0.0.0/33")),
        Err("CIDR prefix /33 exceeds maximum /32".to_string())
    );
    assert_eq!(
        validate_field_value(&cidr, &s("10.0.0.0")),
        Err("Invalid CIDR format '10.0.0.0', expected ip/prefix".to_string())
    );
    assert_eq!(
        validate_field_value(&cidr, &s("10.0.0.0/8/1")),
        Err("Invalid CIDR format '10.0.0.0/8/1', expected ip/prefix".to_string())
    );
    assert_eq!(validate_field_value(&cidr, &s("10.0.0.0/x")), Err("Invalid CIDR prefix 'x'".to_string()));
    assert!(validate_field_value(&cidr, &s("host/8")).unwrap_err().starts_with("Invalid CIDR IP 'host': "));
    assert_eq!(
        validate_field_value(&cidr, &JsonValue::Bool(false)),
        Err("Field 'net' must be a CIDR string".to_string())
    );
}

#[test]
fn the_ip_outcome_decides_what_follows() {
    let cidr = field("net", FieldType::Cidr);
    assert_eq!(check_field_value(&cidr, &s("1.2.3.4/64"), &Ok(IpFamily::V6)), Ok(()));
    assert_eq!(
        check_field_value(&cidr, &s("1.2.3.4/64"), &Ok(IpFamily::V4)),
        Err("CIDR prefix /64 exceeds maximum /32".to_string())
    );
    assert_eq!(
        check_field_value(&cidr, &s("a/1"), &Err("bad".to_string())),
        Err("Invalid CIDR IP 'a': bad".to_string())
    );
    let ip = field("address", FieldType::IpAddress);
    assert_eq!(
        check_field_value(&ip, &s("x"), &Err("no".to_string())),
        Err("Invalid IP address 'x': no".to_string())
    );
    assert_eq!(check_field_value(&ip, &s("x"), &Ok(IpFamily::V4)), Ok(()));
}

#[test]
fn booleans_accept_the_usual_words_in_any_case() {
    let b = field("UsePAM", FieldType::Bool);
    for ok in ["yes", "No", "TRUE", "false", "on", "Off", "1", "0"] {
        assert_eq!(validate_field_value(&b, &s(ok)), Ok(()), "{ok}");
    }
    assert_eq!(validate_field_value(&b, &JsonValue::Bool(false)), Ok(()));
    assert_eq!(validate_field_value(&b, &s("maybe")), Err("Field 'UsePAM' must be a boolean".to_string()));
    assert_eq!(
        validate_field_value(&b, &JsonValue::Number(JsonNumber::PosInt(1))),
        Err("Field 'UsePAM' must be a boolean".to_string())
    );
}

#[test]
fn string_lists_hold_strings_only() {
    let mut l = field("hostnames", FieldType::StringList);
    l.required = Some(true);
    assert_eq!(validate_field_value(&l, &JsonValue::Array(vec![s("a"), s("b")])), Ok(()));
    assert_eq!(
        validate_field_value(&l, &JsonValue::Array(vec![s("a"), JsonValue::Bool(true)])),
        Err("Field 'hostnames' items must be strings".to_string())
    );
    assert_eq!(
        validate_field_value(&l, &JsonValue::Array(vec![])),
        Err("Field 'hostnames' requires at least one entry".to_string())
    );
    assert_eq!(validate_field_value(&l, &s("a")), Err("Field 'hostnames' must be a list of strings".to_string()));
}

#[test]
fn enums_list_the_allowed_options() {
    let mut e = field("method", FieldType::Enum);
    e.options = Some(vec![opt("md5", "m", RiskLevel::Weak), opt("trust", "t", RiskLevel::NeverOnProd)]);
    assert_eq!(validate_field_value(&e, &s("md5")), Ok(()));
    assert_eq!(
        validate_field_value(&e, &s("peer")),
        Err("Invalid value 'peer' for field 'method'. Allowed options: [\"md5\", \"trust\"]".to_string())
    );
    assert_eq!(validate_field_value(&e, &JsonValue::Null), Ok(()));
    assert_eq!(
        validate_field_value(&e, &JsonValue::Array(vec![])),
        Err("Field 'method' must be a string".to_string())
    );
    assert_eq!(validate_field_value(&field("free", FieldType::Enum), &s("anything")), Ok(()));
}

#[test]
fn integers_respect_their_bounds() {
    let mut n = field("MaxAuthTries", FieldType::Integer);
    n.min = Some(1);
    n.max = Some(10);
    assert_eq!(validate_field_value(&n, &s(" 3 ")), Ok(()));
    assert_eq!(validate_field_value(&n, &JsonValue::Number(JsonNumber::PosInt(10))), Ok(()));
    assert_eq!(
        validate_field_value(&n, &JsonValue::Number(JsonNumber::NegInt(-4))),
        Err("Field 'MaxAuthTries' must be at least 1".to_string())
    );
    assert_eq!(validate_field_value(&n, &s("11")), Err("Field 'MaxAuthTries' must be at most 10".to_string()));
    assert_eq!(validate_field_value(&n, &s("three")), Err("Field 'MaxAuthTries' must be a whole number".to_string()));
    n.min = Some(-5);
    assert_eq!(validate_field_value(&n, &s("-9")), Err("Field 'MaxAuthTries' must be at least -5".to_string()));
}

#[test]
fn secrets_are_checked_without_echoing_them() {
    let mut t = field("api_token", FieldType::Secret);
    t.required = Some(true);
    assert_eq!(validate_field_value(&t, &s("tok")), Ok(()));
    assert_eq!(validate_field_value(&t, &s("")), Err("Field 'api_token' can't be empty".to_string()));
    assert_eq!(
        validate_secret(&t, &SecretValue::new("abc\ndef-SECRET")),
        Err("Field 'api_token' contains control characters (a stray line break?)".to_string())
    );
    assert_eq!(validate_field_value(&t, &JsonValue::Bool(true)), Err("Field 'api_token' must be text".to_string()));
}

#[test]
fn commands_replace_every_placeholder() {
    let v = ValidatorDef { command: "check {a} {b} {a}".to_string(), description: None };
    let params = vec![("a".to_string(), "1".to_string()), ("b".to_string(), "{a}".to_string())];
    assert_eq!(v.render_command(&params), "check 1 {a} 1");
    assert_eq!(v.render_command(&vec![]), "check {a} {b} {a}");
}

#[test]
fn widget_kinds_print_as_manifests_write_them() {
    assert_eq!(WidgetKind::RuleTable.as_str(), "rule_table");
    assert_eq!(WidgetKind::KeyValueList.as_str(), "key_value_list");
    assert_eq!(WidgetKind::BlockTree.as_str(), "block_tree");
    assert_eq!(WidgetKind::TogglePanel.as_str(), "toggle_panel");
}
