//! The manifests of the shipped config plugins: their fields, enum options
//! with risk ratings, documentation anchors and validator commands.
use vstd::prelude::*;

use crate::plugin::PluginKind;
use crate::schema::{EnumOption, FieldDef, FieldType, PluginManifest, PluginMeta, RiskLevel, ShapeMeta, ValidatorDef, WidgetKind};

verus! {

fn some(s: &str) -> (r: Option<String>)
    ensures
        r matches Some(t) && t@ == s@,
{
    Some(s.to_owned())
}

/// A field with a name and a type, and nothing else set.
fn field(name: &str, field_type: FieldType) -> (r: FieldDef)
    ensures
        r.name@ == name@,
        r.field_type == field_type,
{
    FieldDef {
        name: name.to_owned(),
        label: None,
        field_type,
        required: None,
        help: None,
        docs_source: None,
        options: None,
        group: None,
        default: None,
        min: None,
        max: None,
    }
}

fn opt(value: &str, label: &str, risk: Option<RiskLevel>) -> (r: EnumOption)
    ensures
        r.value@ == value@,
{
    EnumOption { value: value.to_owned(), label: label.to_owned(), risk }
}

fn enum_field(name: &str, options: Vec<EnumOption>, docs: &str, help: &str) -> (r: FieldDef)
    ensures
        r.name@ == name@,
        r.field_type == FieldType::Enum,
{
    let mut f = field(name, FieldType::Enum);
    f.options = Some(options);
    f.docs_source = some(docs);
    f.help = some(help);
    f
}

fn config_meta(name: &str, grammar: &str) -> (r: PluginMeta)
    ensures
        r.name@ == name@,
{
    PluginMeta {
        name: name.to_owned(),
        display_name: None,
        grammar: some(grammar),
        kind: PluginKind::Config,
        category: None,
        capabilities: Vec::new(),
    }
}

fn validator(command: &str, description: &str) -> (r: ValidatorDef)
    ensures
        r.command@ == command@,
{
    ValidatorDef { command: command.to_owned(), description: some(description) }
}

/// The `/etc/hosts` manifest.
pub fn hosts_manifest() -> (r: PluginManifest)
    ensures
        r.plugin.name@ == "hosts"@,
        r.shape.kind == WidgetKind::KeyValueList,
        r.shape.order_sensitive,
{
    let mut address = field("address", FieldType::IpAddress);
    address.required = Some(true);
    address.help = some("IPv4 or IPv6 address the names resolve to.");
    address.docs_source = some("man:hosts(5)");
    let mut hostnames = field("hostnames", FieldType::StringList);
    hostnames.required = Some(true);
    hostnames.help = some("First entry is the canonical hostname; the rest are aliases.");
    let mut comment = field("comment", FieldType::String);
    comment.required = Some(false);
    PluginManifest {
        plugin: config_meta("hosts", "hosts-line-grammar"),
        shape: ShapeMeta {
            kind: WidgetKind::KeyValueList,
            order_sensitive: true,
            order_note: some(
                "On most systems, the first matching entry for a hostname wins; duplicate entries below the first are effectively dead.",
            ),
        },
        fields: vec![address, hostnames, comment],
        validators: vec![validator("getent hosts {address}", "Confirms the address resolves as entered.")],
        requires: Vec::new(),
    }
}

fn yes_no(name: &str, yes: RiskLevel, no: RiskLevel, yes_label: &str, no_label: &str, help: &str) -> (r: FieldDef)
    ensures
        r.name@ == name@,
{
    let mut docs = String::new();
    crate::text::push_str(&mut docs, "man:sshd_config(5)#");
    crate::text::push_str(&mut docs, name);
    let mut f = field(name, FieldType::Enum);
    f.options = Some(vec![opt("yes", yes_label, Some(yes)), opt("no", no_label, Some(no))]);
    f.docs_source = Some(docs);
    f.help = some(help);
    f.group = some("Authentication");
    f
}

/// The OpenSSH `sshd_config` manifest, with risk ratings for the settings
/// that decide who can log in.
pub fn sshd_manifest() -> (r: PluginManifest)
    ensures
        r.plugin.name@ == "sshd_config"@,
        r.shape.kind == WidgetKind::KeyValueList,
{
    let mut port = field("Port", FieldType::Port);
    port.docs_source = some("man:sshd_config(5)#Port");
    port.help = some("TCP port sshd listens on.");
    port.default = some("22");
    port.group = some("Network");
    let mut listen = field("ListenAddress", FieldType::String);
    listen.docs_source = some("man:sshd_config(5)#ListenAddress");
    listen.group = some("Network");
    let mut root = enum_field(
        "PermitRootLogin",
        vec![
            opt("yes", "Root may log in with a password", Some(RiskLevel::NeverOnProd)),
            opt("prohibit-password", "Root may log in with a key only", Some(RiskLevel::Recommended)),
            opt("without-password", "Old name for prohibit-password", Some(RiskLevel::Recommended)),
            opt("forced-commands-only", "Root may run the key's forced command only", Some(RiskLevel::Caution)),
            opt("no", "Root may not log in", Some(RiskLevel::Recommended)),
        ],
        "man:sshd_config(5)#PermitRootLogin",
        "Whether root can log in over SSH, and how.",
    );
    root.default = some("prohibit-password");
    root.group = some("Authentication");
    let password = yes_no(
        "PasswordAuthentication",
        RiskLevel::Caution,
        RiskLevel::Recommended,
        "Passwords accepted; open to guessing",
        "Keys only",
        "Whether passwords are accepted.",
    );
    let pubkey = yes_no(
        "PubkeyAuthentication",
        RiskLevel::Recommended,
        RiskLevel::Weak,
        "Key logins allowed",
        "Key logins refused",
        "Whether public keys are accepted.",
    );
    let kbd = yes_no(
        "KbdInteractiveAuthentication",
        RiskLevel::Caution,
        RiskLevel::Recommended,
        "Keyboard-interactive logins allowed",
        "Keyboard-interactive logins refused",
        "Whether keyboard-interactive logins are accepted.",
    );
    let empty = yes_no(
        "PermitEmptyPasswords",
        RiskLevel::NeverOnProd,
        RiskLevel::Recommended,
        "Accounts without a password may log in",
        "A password is needed",
        "Whether accounts with an empty password may log in.",
    );
    let x11 = yes_no(
        "X11Forwarding",
        RiskLevel::Caution,
        RiskLevel::Recommended,
        "GUI programs can be tunnelled",
        "No X11 tunnelling",
        "Whether X11 connections are forwarded.",
    );
    let mut pam = field("UsePAM", FieldType::Bool);
    pam.docs_source = some("man:sshd_config(5)#UsePAM");
    let mut users = field("AllowUsers", FieldType::StringList);
    users.docs_source = some("man:sshd_config(5)#AllowUsers");
    users.help = some("Only these users may log in.");
    let mut tries = field("MaxAuthTries", FieldType::Integer);
    tries.docs_source = some("man:sshd_config(5)#MaxAuthTries");
    tries.min = Some(1);
    tries.max = Some(100);
    tries.default = some("6");
    let mut alive = field("ClientAliveInterval", FieldType::Integer);
    alive.docs_source = some("man:sshd_config(5)#ClientAliveInterval");
    alive.min = Some(0);
    let mut subsystem = field("Subsystem", FieldType::String);
    subsystem.docs_source = some("man:sshd_config(5)#Subsystem");
    PluginManifest {
        plugin: config_meta("sshd_config", "sshd-config-grammar"),
        shape: ShapeMeta {
            kind: WidgetKind::KeyValueList,
            order_sensitive: false,
            order_note: some("For most keywords sshd uses the first value it reads; later duplicates are ignored."),
        },
        fields: vec![port, listen, root, password, pubkey, kbd, empty, x11, pam, users, tries, alive, subsystem],
        validators: vec![validator("sshd -t -f {file}", "Checks the configuration file for errors.")],
        requires: Vec::new(),
    }
}

/// The PostgreSQL `pg_hba.conf` manifest, with risk ratings for the
/// authentication methods.
pub fn pg_hba_manifest() -> (r: PluginManifest)
    ensures
        r.plugin.name@ == "pg_hba"@,
        r.shape.kind == WidgetKind::RuleTable,
        r.shape.order_sensitive,
{
    let conn = enum_field(
        "type",
        vec![
            opt("local", "Unix-domain socket", None),
            opt("host", "TCP/IP, with or without TLS", Some(RiskLevel::Caution)),
            opt("hostssl", "TCP/IP with TLS only", Some(RiskLevel::Recommended)),
            opt("hostnossl", "TCP/IP without TLS only", Some(RiskLevel::Weak)),
            opt("hostgssenc", "TCP/IP with GSSAPI encryption only", None),
            opt("hostnogssenc", "TCP/IP without GSSAPI encryption only", None),
        ],
        "man:pg_hba.conf(5)#connection-type",
        "What kind of connection the rule matches.",
    );
    let database = field("database", FieldType::String);
    let user = field("user", FieldType::String);
    let address = field("address", FieldType::String);
    let method = enum_field(
        "method",
        vec![
            opt("scram-sha-256", "Salted challenge-response, password never in cleartext", Some(RiskLevel::Recommended)),
            opt("md5", "Deprecated hash, replayable on the wire", Some(RiskLevel::Weak)),
            opt("password", "Cleartext password on the wire", Some(RiskLevel::NeverOnProd)),
            opt("trust", "Any connection accepted with no password whatsoever", Some(RiskLevel::NeverOnProd)),
            opt("reject", "Connection refused", Some(RiskLevel::Deny)),
            opt("peer", "Operating system user name must match", Some(RiskLevel::Recommended)),
            opt("ident", "Ident server vouches for the user", Some(RiskLevel::Weak)),
            opt("cert", "TLS client certificate", Some(RiskLevel::Recommended)),
            opt("gss", "Kerberos through GSSAPI", None),
            opt("sspi", "Windows single sign-on", None),
            opt("ldap", "Password checked against LDAP", Some(RiskLevel::Caution)),
            opt("radius", "Password checked against RADIUS", Some(RiskLevel::Caution)),
            opt("pam", "Password checked through PAM", Some(RiskLevel::Caution)),
        ],
        "man:pg_hba.conf(5)#auth-method",
        "How clients matching the rule must authenticate.",
    );
    let options = field("options", FieldType::String);
    let comment = field("comment", FieldType::String);
    PluginManifest {
        plugin: config_meta("pg_hba", "pg-hba-line-grammar"),
        shape: ShapeMeta {
            kind: WidgetKind::RuleTable,
            order_sensitive: true,
            order_note: some("First match wins; rules are evaluated top to bottom."),
        },
        fields: vec![conn, database, user, address, method, options, comment],
        validators: vec![validator("postgres --check-config", "Has the server check its configuration.")],
        requires: Vec::new(),
    }
}

/// The UFW rules manifest, with risk ratings for the rule actions.
pub fn ufw_manifest() -> (r: PluginManifest)
    ensures
        r.plugin.name@ == "ufw"@,
        r.shape.kind == WidgetKind::RuleTable,
        r.shape.order_sensitive,
{
    let action = enum_field(
        "action",
        vec![
            opt("ALLOW", "Traffic let through", Some(RiskLevel::Caution)),
            opt("DENY", "Traffic dropped silently", Some(RiskLevel::Deny)),
            opt("REJECT", "Traffic refused with an error", Some(RiskLevel::Deny)),
            opt("LIMIT", "Traffic let through, with repeated connections blocked", Some(RiskLevel::Recommended)),
        ],
        "man:ufw(8)#RULE SYNTAX",
        "What happens to matching traffic.",
    );
    let direction = enum_field(
        "direction",
        vec![opt("in", "Incoming traffic", None), opt("out", "Outgoing traffic", None)],
        "man:ufw(8)#RULE SYNTAX",
        "Which way the traffic flows.",
    );
    let proto = enum_field(
        "proto",
        vec![opt("tcp", "TCP", None), opt("udp", "UDP", None), opt("any", "Any protocol", None)],
        "man:ufw(8)#RULE SYNTAX",
        "The protocol the rule matches.",
    );
    PluginManifest {
        plugin: config_meta("ufw", "ufw-rules-grammar"),
        shape: ShapeMeta {
            kind: WidgetKind::RuleTable,
            order_sensitive: true,
            order_note: some("First match wins; rules are evaluated top to bottom."),
        },
        fields: vec![
            action,
            direction,
            proto,
            field("from", FieldType::String),
            field("to", FieldType::String),
            field("port", FieldType::String),
        ],
        validators: vec![validator("ufw --dry-run reload", "Loads the rules without applying them.")],
        requires: Vec::new(),
    }
}

} // verus!
