use crow_config::plugin::categories::{capabilities, CONFIG_FORMAT, PROVIDER_DNS, PROVIDER_HOSTS};
use crow_config::plugin::{candidates, is_valid_category, satisfies, NearMiss, PluginKind, Requirement};
use crow_config::schema::{ManifestError, PluginManifest, PluginMeta, ShapeMeta};

fn meta(name: &str, kind: PluginKind, grammar: Option<&str>, category: Option<&str>, caps: &[&str]) -> PluginMeta {
    PluginMeta {
        name: name.to_string(),
        display_name: None,
        grammar: grammar.map(|g| g.to_string()),
        kind,
        category: category.map(|c| c.to_string()),
        capabilities: caps.iter().map(|c| c.to_string()).collect(),
    }
}

fn manifest(plugin: PluginMeta, requires: Vec<Requirement>) -> PluginManifest {
    PluginManifest { plugin, shape: ShapeMeta::default(), fields: vec![], validators: vec![], requires }
}

fn provider(name: &str, category: &str, caps: &[&str]) -> PluginManifest {
    manifest(meta(name, PluginKind::Provider, None, Some(category), caps), vec![])
}

fn requirement(category: &str, caps: &[&str], min: u32) -> Requirement {
    Requirement { category: category.to_string(), capabilities: caps.iter().map(|c| c.to_string()).collect(), min }
}

fn paas() -> PluginManifest {
    manifest(
        meta("paas", PluginKind::Module, None, None, &[]),
        vec![requirement("provider.dns", &["records.write"], 1), requirement("provider.hosts", &["instances.list"], 1)],
    )
}

#[test]
fn old_manifests_are_config_plugins_without_a_category() {
    let m = manifest(meta("hosts", PluginKind::default(), Some("hosts-line-grammar"), None, &[]), vec![]);
    assert_eq!(m.plugin.kind, PluginKind::Config);
    assert_eq!(m.plugin.category, None);
    assert!(m.plugin.capabilities.is_empty() && m.requires.is_empty());
    assert_eq!(m.validate(), Ok(()));
}

#[test]
fn a_module_is_satisfied_by_any_plugins_of_the_right_categories() {
    let module = paas();
    assert_eq!(module.validate(), Ok(()));
    assert_eq!(module.requires[0].min, 1, "min defaults to 1");
    let cloudflare = provider("cloudflare", "provider.dns", &["zones.list", "records.read", "records.write"]);
    let linode = provider("linode", "provider.hosts", &["instances.list", "instances.power", "snapshots"]);
    assert_eq!(satisfies(&module.requires, &[&cloudflare, &linode]), Ok(()));
    let bunny = provider("bunny", "provider.dns", &["zones.list", "records.read", "records.write"]);
    let upcloud = provider("upcloud", "provider.hosts", &["instances.list", "instances.power"]);
    assert_eq!(satisfies(&module.requires, &[&bunny, &upcloud]), Ok(()), "a different pair works just the same");
}

#[test]
fn a_missing_category_is_reported() {
    let module = paas();
    let linode = provider("linode", "provider.hosts", &["instances.list"]);
    let missing = satisfies(&module.requires, &[&linode]).unwrap_err();
    assert_eq!(missing.len(), 1);
    assert_eq!(missing[0].requirement.category, "provider.dns");
    assert_eq!(missing[0].found, 0);
    assert_eq!(missing[0].to_text(), "needs 1 provider.dns plugin with records.write (found 0)");
}

#[test]
fn a_plugin_lacking_the_capability_is_a_near_miss() {
    let module = paas();
    let read_only = provider("bunny", "provider.dns", &["zones.list", "records.read"]);
    let linode = provider("linode", "provider.hosts", &["instances.list"]);
    let missing = satisfies(&module.requires, &[&read_only, &linode]).unwrap_err();
    assert_eq!(missing[0].near_misses, vec![NearMiss { plugin: "bunny".into(), lacking: vec!["records.write".into()] }]);
    assert_eq!(missing[0].to_text(), "needs 1 provider.dns plugin with records.write (found 0; bunny lacks records.write)");
}

#[test]
fn min_counts_plugins() {
    let r = vec![Requirement { category: "provider.hosts".into(), capabilities: vec![], min: 2 }];
    let a = provider("linode", "provider.hosts", &[]);
    let b = provider("upcloud", "provider.hosts", &[]);
    assert_eq!(satisfies(&r, &[&a]).unwrap_err()[0].found, 1);
    assert_eq!(satisfies(&r, &[&a, &b]), Ok(()));
}

#[test]
fn candidates_lists_plugins_that_would_do() {
    let module = paas();
    let known = [
        provider("cloudflare", "provider.dns", &["records.write"]),
        provider("readonly-dns", "provider.dns", &["records.read"]),
        provider("linode", "provider.hosts", &["instances.list"]),
    ];
    assert_eq!(candidates(&module.requires[0], &known), vec!["cloudflare"]);
}

#[test]
fn declarations_are_validated() {
    let no_category = manifest(meta("x", PluginKind::Provider, None, None, &[]), vec![]);
    assert_eq!(no_category.validate(), Err(vec![ManifestError::MissingCategory("x".into())]));
    let no_grammar = manifest(meta("x", PluginKind::Config, None, None, &[]), vec![]);
    assert_eq!(no_grammar.validate(), Err(vec![ManifestError::MissingGrammar("x".into())]));
    let bare_module = manifest(meta("m", PluginKind::Module, None, None, &[]), vec![]);
    assert_eq!(bare_module.validate(), Err(vec![ManifestError::ModuleWithoutRequirements("m".into())]));
    let bad = manifest(
        meta("x", PluginKind::Provider, None, Some("Provider..DNS"), &[]),
        vec![requirement("provider.dns", &[], 0)],
    );
    assert_eq!(
        bad.validate(),
        Err(vec![
            ManifestError::BadCategory("Provider..DNS".into()),
            ManifestError::RequirementsOnNonModule("x".into(), PluginKind::Provider),
            ManifestError::ZeroMin("provider.dns".into()),
        ])
    );
}

#[test]
fn unknown_capabilities_are_flagged_but_allowed() {
    let p = provider("linode", "provider.hosts", &["instances.list", "teleport"]);
    assert_eq!(p.validate(), Ok(()));
    assert_eq!(p.unknown_capabilities(), vec!["teleport"]);
    let custom = provider("x", "provider.queue", &["anything"]);
    assert!(custom.unknown_capabilities().is_empty(), "no vocabulary to check a custom category against");
}

#[test]
fn category_names_are_lowercase_words_joined_by_dots() {
    assert!(is_valid_category("provider.dns"));
    assert!(is_valid_category("config.format"));
    assert!(is_valid_category("a_1.b2"));
    assert!(!is_valid_category(""));
    assert!(!is_valid_category("Provider.dns"));
    assert!(!is_valid_category("provider..dns"));
    assert!(!is_valid_category(".provider"));
    assert!(!is_valid_category("provider."));
    assert!(!is_valid_category("provider-dns"));
}

#[test]
fn well_known_categories_have_vocabularies() {
    assert_eq!(capabilities(CONFIG_FORMAT), Some(vec![]));
    assert_eq!(capabilities(PROVIDER_DNS), Some(vec!["zones.list", "records.read", "records.write"]));
    assert_eq!(
        capabilities(PROVIDER_HOSTS),
        Some(vec!["instances.list", "instances.power", "snapshots", "firewall.read"])
    );
    assert_eq!(capabilities("provider.queue"), None);
}

#[test]
fn plugin_kinds_print_as_manifests_write_them() {
    assert_eq!(PluginKind::Config.as_str(), "config");
    assert_eq!(PluginKind::Provider.as_str(), "provider");
    assert_eq!(PluginKind::Module.as_str(), "module");
}

#[test]
fn missing_text_counts_and_lists_capabilities() {
    let r = vec![requirement("provider.hosts", &["instances.list", "snapshots"], 2)];
    let a = provider("linode", "provider.hosts", &["instances.list", "snapshots"]);
    let b = provider("upcloud", "provider.hosts", &["instances.list"]);
    let missing = satisfies(&r, &[&a, &b]).unwrap_err();
    assert_eq!(missing[0].found, 1);
    assert_eq!(
        missing[0].to_text(),
        "needs 2 provider.hosts plugins with instances.list, snapshots (found 1; upcloud lacks snapshots)"
    );
}

#[test]
fn a_requirement_accepts_only_its_category_with_every_capability() {
    let r = requirement("provider.dns", &["records.read", "records.write"], 1);
    assert!(r.accepts(&provider("cf", "provider.dns", &["records.write", "records.read", "zones.list"])));
    assert!(!r.accepts(&provider("ro", "provider.dns", &["records.read"])));
    assert!(!r.accepts(&provider("host", "provider.hosts", &["records.read", "records.write"])));
    assert!(requirement("provider.dns", &[], 1).accepts(&provider("any", "provider.dns", &[])));
}

#[test]
fn display_name_falls_back_to_the_plugin_name() {
    let mut m = provider("upcloud", "provider.hosts", &[]);
    assert_eq!(m.display_name(), "upcloud");
    m.plugin.display_name = Some("UpCloud".to_string());
    assert_eq!(m.display_name(), "UpCloud");
    assert!(m.find_field("x").is_none());
    assert!(!m.has_capability("snapshots"));
}
