use crow_config::edit::{EditError, EditOp};
use crow_config::json::{JsonNumber, JsonValue};
use crow_config::plugin::PluginKind;
use crow_config::schema::{FieldDef, FieldType, PluginManifest, PluginMeta, ShapeMeta, WidgetKind};
use crow_config::secret::SecretValue;
use crow_config::store::{SettingsChange, SettingsDocument, SettingsEdit};

fn s(x: &str) -> JsonValue {
    JsonValue::String(x.to_string())
}

fn setting(key: &str, field_type: FieldType) -> FieldDef {
    FieldDef {
        name: key.to_string(),
        label: None,
        field_type,
        required: None,
        help: None,
        docs_source: None,
        options: None,
        group: None,
        default: None,
        min: None,
        max: None,
    }
}

fn manifest() -> PluginManifest {
    let mut token = setting("api_token", FieldType::Secret);
    token.label = Some("API token".to_string());
    token.required = Some(true);
    token.help = Some("A personal access token with Linodes read/write.".to_string());
    let mut region = setting("default_region", FieldType::String);
    region.label = Some("Default region".to_string());
    region.default = Some("eu-central".to_string());
    let page = setting("page_size", FieldType::Port);
    PluginManifest {
        plugin: PluginMeta {
            name: "linode".to_string(),
            display_name: None,
            grammar: None,
            kind: PluginKind::Provider,
            category: Some("provider.hosts".to_string()),
            capabilities: vec!["instances.list".to_string(), "instances.power".to_string(), "snapshots".to_string()],
        },
        shape: ShapeMeta::default(),
        fields: vec![token, region, page],
        validators: vec![],
        requires: vec![],
    }
}

fn set(key: &str, value: JsonValue) -> SettingsEdit {
    SettingsEdit::SetValue { key: key.to_string(), value }
}

#[test]
fn a_settings_only_manifest_parses_without_grammar_or_shape() {
    let m = manifest();
    assert_eq!(m.validate(), Ok(()));
    assert_eq!(m.plugin.grammar, None);
    assert_eq!(m.shape.kind, WidgetKind::KeyValueList);
    let token = m.find_field("api_token").unwrap();
    assert_eq!((token.label.as_deref(), &token.field_type), (Some("API token"), &FieldType::Secret));
}

#[test]
fn renders_one_row_per_setting_with_secret_state_not_value() {
    let m = manifest();
    let doc = SettingsDocument::new(
        &m,
        vec![("page_size".to_string(), JsonValue::Number(JsonNumber::PosInt(100)))],
        vec!["api_token".to_string()],
    );
    let ir = doc.to_ir();
    assert_eq!(ir.rows.iter().map(|r| r.row_id.as_str()).collect::<Vec<_>>(), ["api_token", "default_region", "page_size"]);
    assert_eq!(ir.rows[0].fields[0].value, JsonValue::Object(vec![("set".to_string(), JsonValue::Bool(true))]));
    assert_eq!(ir.rows[1].fields[0].value, JsonValue::Null, "unset: the renderer shows the default");
    assert_eq!(doc.effective("default_region"), Some(s("eu-central")));
    assert_eq!(ir.rows[2].fields[0].valid, Some(true));
    assert!(doc.missing_required().is_empty());
}

#[test]
fn edits_are_validated_and_returned_for_the_host_to_store() {
    let m = manifest();
    let mut doc = SettingsDocument::new(&m, vec![], vec![]);
    assert_eq!(doc.missing_required(), vec!["api_token"]);

    let change = doc.apply(set("default_region", s("us-east"))).ok().unwrap();
    assert!(change == SettingsChange::SetValue { key: "default_region".into(), value: s("us-east") });
    assert_eq!(doc.value("default_region"), Some(&s("us-east")));

    let bad = doc.apply(set("page_size", JsonValue::Number(JsonNumber::PosInt(70000)))).err().unwrap();
    assert!(matches!(bad, EditError::InvalidValue { .. }), "{}", bad.to_text());
    assert_eq!(doc.value("page_size"), None, "a rejected edit changes nothing");

    assert!(
        doc.apply(SettingsEdit::Unset { key: "default_region".into() }).ok().unwrap()
            == SettingsChange::Unset { key: "default_region".into() }
    );
    assert!(matches!(doc.apply(set("nope", JsonValue::Number(JsonNumber::PosInt(1)))), Err(EditError::FieldNotFound(..))));
}

#[test]
fn generic_edit_ops_work_like_on_a_file() {
    let m = manifest();
    let mut doc = SettingsDocument::new(&m, vec![], vec![]);
    let op = EditOp::UpdateField { row_id: "default_region".into(), field_name: "default_region".into(), new_value: s("ap-south") };
    assert!(doc.apply_op(&op).ok().unwrap() == SettingsChange::SetValue { key: "default_region".into(), value: s("ap-south") });
    assert!(matches!(doc.apply_op(&EditOp::InsertRow { after_row_id: None, fields: vec![] }), Err(EditError::Unsupported(_))));
}

#[test]
fn secrets_go_to_the_vault_and_nowhere_else() {
    let m = manifest();
    let mut doc = SettingsDocument::new(&m, vec![], vec![]);
    let token = "lin-SECRET-9f8e7d";

    // Plain JSON can't carry a secret in.
    let err = doc.apply(set("api_token", s(token))).err().unwrap();
    assert!(!err.to_text().contains(token));
    let op = EditOp::UpdateField { row_id: "api_token".into(), field_name: "api_token".into(), new_value: s(token) };
    assert!(doc.apply_op(&op).is_err());
    assert!(!doc.is_secret_set("api_token"));

    let edit = SettingsEdit::SetSecret { key: "api_token".into(), value: SecretValue::new(token) };
    let change = doc.apply(edit).ok().unwrap();
    let SettingsChange::StoreSecret { value, .. } = &change else { panic!("expected StoreSecret") };
    assert_eq!(value.expose(), token, "the host gets the value to put in its vault");
    assert_eq!(value.to_text(), "[secret]");
    assert!(doc.is_secret_set("api_token"));

    // Nothing the host might log or render contains it.
    let ir = doc.to_ir();
    let surfaces = [format!("{doc:?}"), format!("{ir:?}")];
    for surface in &surfaces {
        assert!(!surface.contains(token), "secret leaked into: {surface}");
    }

    // Bad secrets are rejected without echoing them.
    let bad = doc.apply(SettingsEdit::SetSecret { key: "api_token".into(), value: SecretValue::new("abc\ndef-SECRET") }).err().unwrap();
    assert!(!bad.to_text().contains("SECRET"), "{}", bad.to_text());
    // A required secret can be replaced, not cleared.
    assert!(doc.apply(SettingsEdit::ClearSecret { key: "api_token".into() }).is_err());
}

#[test]
fn stale_keys_and_stray_secret_values_are_dropped_on_load() {
    let m = manifest();
    let doc = SettingsDocument::new(
        &m,
        vec![("old_key".to_string(), s("x")), ("api_token".to_string(), s("leaked-into-plain-store"))],
        vec![],
    );
    assert_eq!(doc.value("old_key"), None);
    assert!(doc.is_secret_set("api_token"));
    assert!(!format!("{doc:?}").contains("leaked-into-plain-store"));
}

#[test]
fn unset_falls_back_to_the_default_and_null_unsets() {
    let m = manifest();
    let mut doc = SettingsDocument::new(&m, vec![("default_region".to_string(), s("us-west"))], vec![]);
    assert_eq!(doc.effective("default_region"), Some(s("us-west")));
    assert!(doc.apply(set("default_region", JsonValue::Null)).ok().unwrap() == SettingsChange::Unset { key: "default_region".into() });
    assert_eq!(doc.value("default_region"), None);
    assert_eq!(doc.effective("default_region"), Some(s("eu-central")));
    assert_eq!(doc.effective("page_size"), None);
    let err = doc.apply(SettingsEdit::SetSecret { key: "page_size".into(), value: SecretValue::new("x") }).err().unwrap();
    assert_eq!(err.to_text(), "Edit operation unsupported: 'page_size' isn't a secret field");
    let row = doc.apply_op(&EditOp::UpdateField { row_id: "page_size".into(), field_name: "x".into(), new_value: s("1") });
    assert!(matches!(row, Err(EditError::FieldNotFound(..))));
    assert!(doc.apply_op(&EditOp::DeleteRow { row_id: "page_size".into() }).ok().unwrap() == SettingsChange::Unset { key: "page_size".into() });
}

#[test]
fn later_values_override_earlier_ones_and_nulls_are_dropped() {
    let m = manifest();
    let doc = SettingsDocument::new(
        &m,
        vec![
            ("default_region".to_string(), s("a")),
            ("default_region".to_string(), s("b")),
            ("page_size".to_string(), JsonValue::Null),
        ],
        vec!["default_region".to_string()],
    );
    assert_eq!(doc.value("default_region"), Some(&s("b")));
    assert_eq!(doc.value("page_size"), None);
    assert!(!doc.is_secret_set("default_region"), "only secret fields can be marked set");
    assert_eq!(doc.manifest().plugin.name, "linode");
    let ir = doc.to_ir();
    assert_eq!(ir.plugin_name, "linode");
    assert_eq!(ir.rows[2].source_span.start_line, 3);
    assert_eq!(ir.rows[0].widget, "setting");
}
