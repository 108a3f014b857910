//! Plugin manifests: field types, risk levels, validators, and the checks
//! that values and declarations are run through.
use vstd::prelude::*;

use crate::json::{json_as_i64, json_as_u64, view_jsons, lemma_view_jsons, JsonV, JsonValue, NumV};
use crate::plugin::{valid_category, is_valid_category, PluginKind};
use crate::secret::SecretValue;
use crate::text::{
    chars_of, concat3, dec, eq_ignore_ascii_case, eq_ignore_ascii_case_exec, has_control, int_text, is_control,
    parse_i64, parse_i64_exec, str_views, parse_unsigned, parse_unsigned_exec, push_dec, push_i64, push_str, str_eq,
    trim_ws, trim_ws_string,
};

verus! {

/// High-level generic widget kinds that a config format can request.
#[derive(Debug, Clone, Copy, PartialEq, Eq, Hash, Structural)]
pub enum WidgetKind {
    RuleTable,
    KeyValueList,
    BlockTree,
    TogglePanel,
}

pub open spec fn widget_kind_name(k: WidgetKind) -> Seq<char> {
    match k {
        WidgetKind::RuleTable => "rule_table"@,
        WidgetKind::KeyValueList => "key_value_list"@,
        WidgetKind::BlockTree => "block_tree"@,
        WidgetKind::TogglePanel => "toggle_panel"@,
    }
}

impl WidgetKind {
    /// The kind as manifests write it.
    pub fn as_str(&self) -> (r: &'static str)
        ensures
            r@ == widget_kind_name(*self),
    {
        match self {
            WidgetKind::RuleTable => "rule_table",
            WidgetKind::KeyValueList => "key_value_list",
            WidgetKind::BlockTree => "block_tree",
            WidgetKind::TogglePanel => "toggle_panel",
        }
    }
}

/// Primitive and semantic types for fields.
#[derive(Debug, Clone, PartialEq, Eq, Hash)]
pub enum FieldType {
    IpAddress,
    String,
    StringList,
    Enum,
    Cidr,
    Bool,
    Path,
    Port,
    /// A whole number, optionally bounded by the field's `min` / `max`.
    Integer,
    /// A credential (API token, password). Its value never appears in IR
    /// or error messages.
    Secret,
    Other(String),
}

impl FieldType {
    /// A copy of this type.
    pub fn duplicate(&self) -> (r: Self)
        ensures
            field_type_same(r, *self),
    {
        match self {
            FieldType::IpAddress => FieldType::IpAddress,
            FieldType::String => FieldType::String,
            FieldType::StringList => FieldType::StringList,
            FieldType::Enum => FieldType::Enum,
            FieldType::Cidr => FieldType::Cidr,
            FieldType::Bool => FieldType::Bool,
            FieldType::Path => FieldType::Path,
            FieldType::Port => FieldType::Port,
            FieldType::Integer => FieldType::Integer,
            FieldType::Secret => FieldType::Secret,
            FieldType::Other(s) => FieldType::Other(s.clone()),
        }
    }

    pub fn is_secret(&self) -> (r: bool)
        ensures
            r == (*self is Secret),
    {
        match self {
            FieldType::Secret => true,
            _ => false,
        }
    }

    pub fn is_string_list(&self) -> (r: bool)
        ensures
            r == (*self is StringList),
    {
        match self {
            FieldType::StringList => true,
            _ => false,
        }
    }
}

/// Two field types are the same type (an `Other` type by its name).
pub open spec fn field_type_same(a: FieldType, b: FieldType) -> bool {
    match (a, b) {
        (FieldType::Other(x), FieldType::Other(y)) => x@ == y@,
        (FieldType::Other(_), _) => false,
        (_, FieldType::Other(_)) => false,
        _ => a == b,
    }
}

/// Risk classification for enum options and configuration choices.
#[derive(Debug, Clone, PartialEq, Eq, Hash)]
pub enum RiskLevel {
    Recommended,
    Caution,
    Weak,
    NeverOnProd,
    Deny,
    Other(String),
}

/// An option for enum fields with human labels and risk metadata.
#[derive(Debug, Clone, PartialEq, Eq)]
pub struct EnumOption {
    pub value: String,
    pub label: String,
    pub risk: Option<RiskLevel>,
}

/// Field definition within a plugin manifest.
#[derive(Debug, Clone, PartialEq, Eq)]
pub struct FieldDef {
    /// The field's key. Settings manifests may call it `key`.
    pub name: String,
    /// A human name for the field, where the key isn't one.
    pub label: Option<String>,
    pub field_type: FieldType,
    pub required: Option<bool>,
    pub help: Option<String>,
    pub docs_source: Option<String>,
    pub options: Option<Vec<EnumOption>>,
    /// Section a UI lists this field under (e.g. "Authentication").
    pub group: Option<String>,
    /// The value the program uses when the field isn't set in the file.
    pub default: Option<String>,
    /// Bounds for `integer` fields, inclusive.
    pub min: Option<i64>,
    pub max: Option<i64>,
}

/// External validation command specification.
#[derive(Debug, Clone, PartialEq, Eq)]
pub struct ValidatorDef {
    pub command: String,
    pub description: Option<String>,
}

#[derive(Debug, Clone, PartialEq, Eq)]
pub struct PluginMeta {
    pub name: String,
    /// How the plugin is named to people ("UpCloud" for `upcloud`).
    pub display_name: Option<String>,
    /// The file grammar. Config plugins have one; providers and modules don't.
    pub grammar: Option<String>,
    pub kind: PluginKind,
    /// The contract the plugin implements (e.g. `provider.dns`).
    pub category: Option<String>,
    /// Which parts of the category's contract the plugin supports.
    pub capabilities: Vec<String>,
}

/// How a UI lays out the document.
#[derive(Debug, Clone, PartialEq, Eq)]
pub struct ShapeMeta {
    pub kind: WidgetKind,
    pub order_sensitive: bool,
    pub order_note: Option<String>,
}

impl Default for ShapeMeta {
    fn default() -> (r: Self)
        ensures
            r.kind == WidgetKind::KeyValueList,
            !r.order_sensitive,
            r.order_note is None,
    {
        ShapeMeta { kind: WidgetKind::KeyValueList, order_sensitive: false, order_note: None }
    }
}

/// A complete plugin manifest describing format schema, shape, and validation.
#[derive(Debug, Clone, PartialEq, Eq)]
pub struct PluginManifest {
    pub plugin: PluginMeta,
    pub shape: ShapeMeta,
    /// The fields. Settings manifests (providers, modules) write them as
    /// `[[settings]]`.
    pub fields: Vec<FieldDef>,
    pub validators: Vec<ValidatorDef>,
    /// What a module needs from other plugins.
    pub requires: Vec<crate::plugin::Requirement>,
}

pub open spec fn first_match(fields: Seq<FieldDef>, name: Seq<char>, i: int) -> bool {
    0 <= i < fields.len() && fields[i].name@ == name && forall|j: int| 0 <= j < i ==> #[trigger] fields[j].name@ != name
}

/// The first field of the manifest named `name`.
pub open spec fn find_field_spec(m: PluginManifest, name: Seq<char>) -> Option<FieldDef> {
    if exists|i: int| #[trigger] first_match(m.fields@, name, i) {
        Some(m.fields@[choose|i: int| #[trigger] first_match(m.fields@, name, i)])
    } else {
        None
    }
}

pub proof fn lemma_find_field_spec(m: PluginManifest, name: Seq<char>, i: int)
    requires
        first_match(m.fields@, name, i),
    ensures
        find_field_spec(m, name) == Some(m.fields@[i]),
{
    let c = choose|i: int| #[trigger] first_match(m.fields@, name, i);
    assert(first_match(m.fields@, name, c));
    if c < i {
        assert(m.fields@[c].name@ != name);
    } else if c > i {
        assert(m.fields@[i].name@ != name);
    }
}

/// The plugin declares `c` among its capabilities.
pub open spec fn has_capability_spec(m: PluginManifest, c: Seq<char>) -> bool {
    exists|i: int| 0 <= i < m.plugin.capabilities@.len() && #[trigger] m.plugin.capabilities@[i]@ == c
}

/// A problem with a manifest's plugin declaration.
#[derive(Debug, Clone, PartialEq, Eq)]
pub enum ManifestError {
    MissingGrammar(String),
    MissingCategory(String),
    ModuleWithoutRequirements(String),
    RequirementsOnNonModule(String, PluginKind),
    BadCategory(String),
    ZeroMin(String),
}

pub enum ManifestErrorV {
    MissingGrammar(Seq<char>),
    MissingCategory(Seq<char>),
    ModuleWithoutRequirements(Seq<char>),
    RequirementsOnNonModule(Seq<char>, PluginKind),
    BadCategory(Seq<char>),
    ZeroMin(Seq<char>),
}

impl View for ManifestError {
    type V = ManifestErrorV;

    open spec fn view(&self) -> ManifestErrorV {
        match self {
            ManifestError::MissingGrammar(s) => ManifestErrorV::MissingGrammar(s@),
            ManifestError::MissingCategory(s) => ManifestErrorV::MissingCategory(s@),
            ManifestError::ModuleWithoutRequirements(s) => ManifestErrorV::ModuleWithoutRequirements(s@),
            ManifestError::RequirementsOnNonModule(s, k) => ManifestErrorV::RequirementsOnNonModule(s@, *k),
            ManifestError::BadCategory(s) => ManifestErrorV::BadCategory(s@),
            ManifestError::ZeroMin(s) => ManifestErrorV::ZeroMin(s@),
        }
    }
}

/// `ZeroMin` for each requirement with `min == 0`, in order.
pub open spec fn zero_min_errors(reqs: Seq<crate::plugin::Requirement>) -> Seq<ManifestErrorV>
    decreases reqs.len(),
{
    if reqs.len() == 0 {
        Seq::empty()
    } else {
        let last = reqs[reqs.len() - 1];
        zero_min_errors(reqs.subrange(0, reqs.len() - 1)) + if last.min == 0 {
            seq![ManifestErrorV::ZeroMin(last.category@)]
        } else {
            Seq::empty()
        }
    }
}

/// Every problem with the plugin declaration, in the order they are reported.
pub open spec fn manifest_errors(m: PluginManifest) -> Seq<ManifestErrorV> {
    let name = m.plugin.name@;
    let kind_errors = match m.plugin.kind {
        PluginKind::Config => if m.plugin.grammar is None {
            seq![ManifestErrorV::MissingGrammar(name)]
        } else {
            Seq::empty()
        },
        PluginKind::Provider => if m.plugin.category is None {
            seq![ManifestErrorV::MissingCategory(name)]
        } else {
            Seq::empty()
        },
        PluginKind::Module => if m.requires@.len() == 0 {
            seq![ManifestErrorV::ModuleWithoutRequirements(name)]
        } else {
            Seq::empty()
        },
    };
    let category_errors = match m.plugin.category {
        Some(c) => if !valid_category(c@) {
            seq![ManifestErrorV::BadCategory(c@)]
        } else {
            Seq::empty()
        },
        None => Seq::empty(),
    };
    let requires_errors = if m.plugin.kind != PluginKind::Module && m.requires@.len() > 0 {
        seq![ManifestErrorV::RequirementsOnNonModule(name, m.plugin.kind)]
    } else {
        Seq::empty()
    };
    kind_errors + category_errors + requires_errors + zero_min_errors(m.requires@)
}

pub open spec fn manifest_error_views(v: Seq<ManifestError>) -> Seq<ManifestErrorV> {
    v.map_values(|e: ManifestError| e@)
}

/// The capabilities the plugin declares that its well-known category does not define.
pub open spec fn unknown_caps(caps: Seq<String>, known: Seq<Seq<char>>) -> Seq<Seq<char>>
    decreases caps.len(),
{
    if caps.len() == 0 {
        Seq::empty()
    } else {
        let last = caps[caps.len() - 1]@;
        unknown_caps(caps.subrange(0, caps.len() - 1), known) + if known.contains(last) {
            Seq::<Seq<char>>::empty()
        } else {
            seq![last]
        }
    }
}

impl PluginManifest {
    pub fn find_field(&self, name: &str) -> (r: Option<&FieldDef>)
        ensures
            match r {
                Some(f) => exists|i: int| first_match(self.fields@, name@, i) && *f == self.fields@[i],
                None => forall|i: int| 0 <= i < self.fields@.len() ==> #[trigger] self.fields@[i].name@ != name@,
            },
            match find_field_spec(*self, name@) {
                Some(f) => r matches Some(g) && *g == f,
                None => r is None,
            },
    {
        let mut i: usize = 0;
        while i < self.fields.len()
            invariant
                i <= self.fields@.len(),
                forall|j: int| 0 <= j < i ==> #[trigger] self.fields@[j].name@ != name@,
            decreases self.fields@.len() - i,
        {
            if str_eq(self.fields[i].name.as_str(), name) {
                assert(first_match(self.fields@, name@, i as int));
                proof {
                    lemma_find_field_spec(*self, name@, i as int);
                }
                return Some(&self.fields[i]);
            }
            i = i + 1;
        }
        None
    }

    /// The display name, else the plugin name.
    pub fn display_name(&self) -> (r: &str)
        ensures
            r@ == match self.plugin.display_name {
                Some(d) => d@,
                None => self.plugin.name@,
            },
    {
        match &self.plugin.display_name {
            Some(d) => d.as_str(),
            None => self.plugin.name.as_str(),
        }
    }

    pub fn has_capability(&self, capability: &str) -> (r: bool)
        ensures
            r == has_capability_spec(*self, capability@),
    {
        let caps = &self.plugin.capabilities;
        let mut i: usize = 0;
        while i < caps.len()
            invariant
                caps == &self.plugin.capabilities,
                i <= caps@.len(),
                forall|j: int| 0 <= j < i ==> #[trigger] caps@[j]@ != capability@,
            decreases caps@.len() - i,
        {
            if str_eq(caps[i].as_str(), capability) {
                return true;
            }
            i = i + 1;
        }
        false
    }

    /// Checks the plugin declaration: kind, grammar, category, requirements.
    pub fn validate(&self) -> (r: Result<(), Vec<ManifestError>>)
        ensures
            match r {
                Ok(()) => manifest_errors(*self).len() == 0,
                Err(v) => manifest_error_views(v@) == manifest_errors(*self) && v@.len() > 0,
            },
    {
        let meta = &self.plugin;
        let mut errors: Vec<ManifestError> = Vec::new();
        match meta.kind {
            PluginKind::Config => if meta.grammar.is_none() {
                errors.push(ManifestError::MissingGrammar(meta.name.clone()));
            },
            PluginKind::Provider => if meta.category.is_none() {
                errors.push(ManifestError::MissingCategory(meta.name.clone()));
            },
            PluginKind::Module => if self.requires.len() == 0 {
                errors.push(ManifestError::ModuleWithoutRequirements(meta.name.clone()));
            },
        }
        let ghost e1 = manifest_error_views(errors@);
        match &meta.category {
            Some(c) => if !is_valid_category(c.as_str()) {
                errors.push(ManifestError::BadCategory(c.clone()));
            },
            None => {},
        }
        let ghost e2 = manifest_error_views(errors@);
        if meta.kind != PluginKind::Module && self.requires.len() > 0 {
            errors.push(ManifestError::RequirementsOnNonModule(meta.name.clone(), meta.kind));
        }
        let ghost e3 = manifest_error_views(errors@);
        let mut i: usize = 0;
        assert(self.requires@.subrange(0, 0) =~= Seq::<crate::plugin::Requirement>::empty());
        while i < self.requires.len()
            invariant
                i <= self.requires@.len(),
                manifest_error_views(errors@) == e3 + zero_min_errors(self.requires@.subrange(0, i as int)),
            decreases self.requires@.len() - i,
        {
            let ghost before = errors@;
            if self.requires[i].min == 0 {
                errors.push(ManifestError::ZeroMin(self.requires[i].category.clone()));
            }
            proof {
                let sub = self.requires@.subrange(0, i + 1);
                assert(sub.subrange(0, i as int) =~= self.requires@.subrange(0, i as int));
                assert(sub.len() == i + 1 && sub[i as int] == self.requires@[i as int]);
                let tail = if self.requires@[i as int].min == 0 {
                    seq![ManifestErrorV::ZeroMin(self.requires@[i as int].category@)]
                } else {
                    Seq::<ManifestErrorV>::empty()
                };
                assert(zero_min_errors(sub) == zero_min_errors(self.requires@.subrange(0, i as int)) + tail);
                assert(manifest_error_views(errors@) =~= manifest_error_views(before) + tail);
                assert(manifest_error_views(errors@) =~= e3 + zero_min_errors(sub));
            }
            i = i + 1;
        }
        assert(self.requires@.subrange(0, self.requires@.len() as int) =~= self.requires@);
        assert(manifest_error_views(errors@) =~= manifest_errors(*self));
        if errors.len() == 0 {
            Ok(())
        } else {
            Err(errors)
        }
    }

    /// Declared capabilities that the plugin's (well-known) category doesn't
    /// define. They're allowed, but usually a typo.
    pub fn unknown_capabilities(&self) -> (r: Vec<&str>)
        ensures
            r@.map_values(|s: &str| s@) == match self.plugin.category {
                Some(c) => match crate::plugin::categories::known_capabilities(c@) {
                    Some(known) => unknown_caps(self.plugin.capabilities@, known),
                    None => Seq::empty(),
                },
                None => Seq::empty(),
            },
    {
        let mut out: Vec<&str> = Vec::new();
        let known = match &self.plugin.category {
            Some(c) => match crate::plugin::categories::capabilities(c.as_str()) {
                Some(k) => k,
                None => {
                    assert(out@.map_values(|s: &str| s@) =~= Seq::<Seq<char>>::empty());
                    return out;
                },
            },
            None => {
                assert(out@.map_values(|s: &str| s@) =~= Seq::<Seq<char>>::empty());
                return out;
            },
        };
        let ghost kv = known@.map_values(|s: &str| s@);
        let caps = &self.plugin.capabilities;
        let mut i: usize = 0;
        assert(caps@.subrange(0, 0) =~= Seq::<String>::empty());
        assert(out@.map_values(|s: &str| s@) =~= unknown_caps(caps@.subrange(0, 0), kv));
        while i < caps.len()
            invariant
                caps == &self.plugin.capabilities,
                i <= caps@.len(),
                kv == known@.map_values(|s: &str| s@),
                out@.map_values(|s: &str| s@) == unknown_caps(caps@.subrange(0, i as int), kv),
            decreases caps@.len() - i,
        {
            let c = caps[i].as_str();
            let mut found = false;
            let mut j: usize = 0;
            while j < known.len()
                invariant
                    j <= known@.len(),
                    kv == known@.map_values(|s: &str| s@),
                    found == exists|k: int| 0 <= k < j && #[trigger] kv[k] == c@,
                decreases known@.len() - j,
            {
                proof {
                    assert(kv[j as int] == known@[j as int]@);
                }
                if str_eq(known[j], c) {
                    found = true;
                }
                j = j + 1;
            }
            assert(found == kv.contains(c@));
            let ghost before = out@;
            if !found {
                out.push(c);
            }
            proof {
                let sub = caps@.subrange(0, i + 1);
                assert(sub.subrange(0, i as int) =~= caps@.subrange(0, i as int));
                assert(out@.map_values(|s: &str| s@) =~= unknown_caps(sub, kv));
            }
            i = i + 1;
        }
        assert(caps@.subrange(0, caps@.len() as int) =~= caps@);
        out
    }
}

} // verus!

verus! {

/// The family of a parsed IP address.
#[derive(Debug, Clone, Copy, PartialEq, Eq, Structural)]
pub enum IpFamily {
    V4,
    V6,
}

/// What `str::parse::<IpAddr>` gives for `s`: the address family, or the
/// text of the parse error.
pub uninterp spec fn ip_addr_parse(s: Seq<char>) -> Result<IpFamily, Seq<char>>;

pub open spec fn ip_result_view(r: Result<IpFamily, String>) -> Result<IpFamily, Seq<char>> {
    match r {
        Ok(f) => Ok(f),
        Err(e) => Err(e@),
    }
}

/// Parses `s` as an IPv4 or IPv6 address with `str::parse::<IpAddr>`;
/// the contract claims only that the result is the one `ip_addr_parse`
/// names for `s`.
#[verifier::external_body]
fn parse_ip_addr(s: &str) -> (r: Result<IpFamily, String>)
    ensures
        ip_result_view(r) == ip_addr_parse(s@),
{
    match s.parse::<core::net::IpAddr>() {
        Ok(core::net::IpAddr::V4(_)) => Ok(IpFamily::V4),
        Ok(core::net::IpAddr::V6(_)) => Ok(IpFamily::V6),
        Err(e) => Err(e.to_string()),
    }
}

/// The `Debug` text of a list of strings, as `format!("{:?}", ..)` writes it.
pub uninterp spec fn debug_str_list(items: Seq<Seq<char>>) -> Seq<char>;

/// Formats a list of strings with `Debug` (`["a", "b"]`); the contract
/// claims only that the text is the one `debug_str_list` names.
#[verifier::external_body]
fn debug_list(items: &Vec<&str>) -> (r: String)
    ensures
        r@ == debug_str_list(str_views(items@)),
{
    format!("{:?}", items)
}

pub open spec fn check_view(r: Result<(), String>) -> Result<(), Seq<char>> {
    match r {
        Ok(()) => Ok(()),
        Err(e) => Err(e@),
    }
}

/// `Field '<name><tail>`.
pub open spec fn field_msg(name: Seq<char>, tail: Seq<char>) -> Seq<char> {
    "Field '"@ + name + tail
}

pub open spec fn json_str(v: JsonV) -> Option<Seq<char>> {
    match v {
        JsonV::String(s) => Some(s),
        _ => None,
    }
}

/// The two sides of `ip/prefix`, when `s` holds exactly one `/`.
pub open spec fn cidr_parts(s: Seq<char>) -> Option<(Seq<char>, Seq<char>)> {
    if exists|i: int| 0 <= i < s.len() && s[i] == '/' && forall|j: int| 0 <= j < s.len() && j != i ==> #[trigger] s[j] != '/' {
        let i = choose|i: int| 0 <= i < s.len() && s[i] == '/' && forall|j: int| 0 <= j < s.len() && j != i ==> #[trigger] s[j] != '/';
        Some((s.subrange(0, i), s.subrange(i + 1, s.len() as int)))
    } else {
        None
    }
}

/// The words a boolean field accepts, in any ASCII case.
pub open spec fn is_bool_word(s: Seq<char>) -> bool {
    ||| eq_ignore_ascii_case(s, "yes"@)
    ||| eq_ignore_ascii_case(s, "no"@)
    ||| eq_ignore_ascii_case(s, "true"@)
    ||| eq_ignore_ascii_case(s, "false"@)
    ||| eq_ignore_ascii_case(s, "on"@)
    ||| eq_ignore_ascii_case(s, "off"@)
    ||| eq_ignore_ascii_case(s, "1"@)
    ||| eq_ignore_ascii_case(s, "0"@)
}

pub open spec fn all_strings(items: Seq<JsonV>) -> bool {
    forall|i: int| 0 <= i < items.len() ==> (#[trigger] items[i]) is String
}

pub open spec fn option_values(opts: Seq<EnumOption>) -> Seq<Seq<char>> {
    opts.map_values(|o: EnumOption| o.value@)
}

/// What `check_secret` answers for the text `s`.
pub open spec fn secret_check(def: FieldDef, s: Seq<char>) -> Result<(), Seq<char>> {
    if s.len() == 0 && def.required == Some(true) {
        Err(field_msg(def.name@, "' can't be empty"@))
    } else if exists|i: int| 0 <= i < s.len() && #[trigger] is_control(s[i]) {
        Err(field_msg(def.name@, "' contains control characters (a stray line break?)"@))
    } else {
        Ok(())
    }
}

/// The text whose IP parse a check needs: a whole `ip_address` value, or the
/// part before the `/` of a `cidr` value.
pub open spec fn ip_subject(def: FieldDef, v: JsonV) -> Option<Seq<char>> {
    match (def.field_type, v) {
        (FieldType::IpAddress, JsonV::String(s)) => Some(s),
        (FieldType::Cidr, JsonV::String(s)) => match cidr_parts(s) {
            Some((a, _)) => Some(a),
            None => None,
        },
        _ => None,
    }
}

/// The port a `port` value names, or the error for it.
pub open spec fn port_number(name: Seq<char>, v: JsonV) -> Result<u64, Seq<char>> {
    match json_as_u64(v) {
        Some(n) => Ok(n),
        None => match json_str(v) {
            Some(s) => match parse_unsigned(s, u64::MAX as nat) {
                Some(n) => Ok(n as u64),
                None => Err("Invalid port number '"@ + s + "'"@),
            },
            None => Err(field_msg(name, "' must be a port number"@)),
        },
    }
}

/// The whole number an `integer` value names.
pub open spec fn integer_value(v: JsonV) -> Option<int> {
    match json_as_i64(v) {
        Some(n) => Some(n),
        None => match json_str(v) {
            Some(s) => parse_i64(trim_ws(s)),
            None => None,
        },
    }
}

/// What validating the value `v` of a field defined by `def` answers, given
/// `ip`, the outcome of parsing `ip_subject(def, v)` as an IP address.
pub open spec fn field_value_check_with(def: FieldDef, v: JsonV, ip: Result<IpFamily, Seq<char>>) -> Result<(), Seq<char>> {
    let name = def.name@;
    if v is Null {
        if def.required == Some(true) {
            Err(field_msg(name, "' is required"@))
        } else {
            Ok(())
        }
    } else {
        match def.field_type {
            FieldType::IpAddress => match json_str(v) {
                None => Err(field_msg(name, "' must be an IP address string"@)),
                Some(s) => match ip {
                    Ok(_) => Ok(()),
                    Err(e) => Err("Invalid IP address '"@ + s + "': "@ + e),
                },
            },
            FieldType::Port => match port_number(name, v) {
                Err(e) => Err(e),
                Ok(n) => if n == 0 || n > 65535 {
                    Err("Port number "@ + dec(n as nat) + " is out of range (1-65535)"@)
                } else {
                    Ok(())
                },
            },
            FieldType::Cidr => match json_str(v) {
                None => Err(field_msg(name, "' must be a CIDR string"@)),
                Some(s) => match cidr_parts(s) {
                    None => Err("Invalid CIDR format '"@ + s + "', expected ip/prefix"@),
                    Some((a, b)) => match ip {
                        Err(e) => Err("Invalid CIDR IP '"@ + a + "': "@ + e),
                        Ok(fam) => match parse_unsigned(b, u32::MAX as nat) {
                            None => Err("Invalid CIDR prefix '"@ + b + "'"@),
                            Some(p) => {
                                let max: nat = if fam == IpFamily::V4 { 32 } else { 128 };
                                if p > max {
                                    Err("CIDR prefix /"@ + dec(p) + " exceeds maximum /"@ + dec(max))
                                } else {
                                    Ok(())
                                }
                            },
                        },
                    },
                },
            },
            FieldType::Bool => if v is Bool {
                Ok(())
            } else {
                match json_str(v) {
                    Some(s) => if is_bool_word(s) {
                        Ok(())
                    } else {
                        Err(field_msg(name, "' must be a boolean"@))
                    },
                    None => Err(field_msg(name, "' must be a boolean"@)),
                }
            },
            FieldType::StringList => match v {
                JsonV::Array(items) => if !all_strings(items) {
                    Err(field_msg(name, "' items must be strings"@))
                } else if def.required == Some(true) && items.len() == 0 {
                    Err(field_msg(name, "' requires at least one entry"@))
                } else {
                    Ok(())
                },
                _ => Err(field_msg(name, "' must be a list of strings"@)),
            },
            FieldType::Enum => match json_str(v) {
                None => Err(field_msg(name, "' must be a string"@)),
                Some(s) => match def.options {
                    Some(opts) => if option_values(opts@).contains(s) {
                        Ok(())
                    } else {
                        Err("Invalid value '"@ + s + "' for field '"@ + name + "'. Allowed options: "@
                            + debug_str_list(option_values(opts@)))
                    },
                    None => Ok(()),
                },
            },
            FieldType::Integer => match integer_value(v) {
                None => Err(field_msg(name, "' must be a whole number"@)),
                Some(n) => if def.min is Some && n < def.min->0 {
                    Err(field_msg(name, "' must be at least "@ + int_text(def.min->0 as int)))
                } else if def.max is Some && n > def.max->0 {
                    Err(field_msg(name, "' must be at most "@ + int_text(def.max->0 as int)))
                } else {
                    Ok(())
                },
            },
            FieldType::Secret => match json_str(v) {
                None => Err(field_msg(name, "' must be text"@)),
                Some(s) => secret_check(def, s),
            },
            _ => if v is String {
                Ok(())
            } else {
                Err(field_msg(name, "' must be a string"@))
            },
        }
    }
}

/// What `validate_field_value` answers for the value `v` of a field defined by `def`.
pub open spec fn field_value_check(def: FieldDef, v: JsonV) -> Result<(), Seq<char>> {
    field_value_check_with(
        def,
        v,
        match ip_subject(def, v) {
            Some(t) => ip_addr_parse(t),
            None => Err(Seq::empty()),
        },
    )
}

} // verus!

verus! {

/// `Field '<name><tail>`.
fn field_err(name: &str, tail: &str) -> (r: String)
    ensures
        r@ == field_msg(name@, tail@),
{
    concat3("Field '", name, tail)
}

/// Splits `ip/prefix` at its only `/`.
fn split_cidr(s: &str) -> (r: Option<(String, String)>)
    ensures
        match cidr_parts(s@) {
            Some((a, b)) => r matches Some(p) && p.0@ == a && p.1@ == b,
            None => r is None,
        },
{
    let v = chars_of(s);
    let n = v.len();
    let mut first: usize = 0;
    let mut second: usize = 0;
    let mut cnt: usize = 0;
    let mut k: usize = 0;
    while k < n && cnt < 2
        invariant
            v@ == s@,
            n == v@.len(),
            k <= n,
            cnt <= 2,
            cnt == 0 ==> forall|j: int| 0 <= j < k ==> v@[j] != '/',
            cnt >= 1 ==> first < k && v@[first as int] == '/',
            cnt == 1 ==> forall|j: int| 0 <= j < k && j != first ==> v@[j] != '/',
            cnt == 2 ==> second < k && second != first && v@[second as int] == '/',
        decreases n - k,
    {
        if v[k] == '/' {
            if cnt == 0 {
                first = k;
            } else {
                second = k;
            }
            cnt = cnt + 1;
        }
        k = k + 1;
    }
    if cnt == 1 {
        let ghost sq = s@;
        assert(forall|j: int| 0 <= j < sq.len() && j != first ==> #[trigger] sq[j] != '/');
        assert(exists|i: int| 0 <= i < sq.len() && sq[i] == '/' && forall|j: int| 0 <= j < sq.len() && j != i ==> #[trigger] sq[j] != '/');
        let ghost i = choose|i: int| 0 <= i < sq.len() && sq[i] == '/' && forall|j: int| 0 <= j < sq.len() && j != i ==> #[trigger] sq[j] != '/';
        assert(i == first);
        let a = crate::text::string_of(&v, 0, first);
        let b = crate::text::string_of(&v, first + 1, n);
        Some((a, b))
    } else {
        proof {
            let sq = s@;
            if cnt == 0 {
                assert(!exists|i: int| 0 <= i < sq.len() && sq[i] == '/' && forall|j: int| 0 <= j < sq.len() && j != i ==> #[trigger] sq[j] != '/');
            } else {
                assert forall|i: int| 0 <= i < sq.len() && sq[i] == '/' implies !(forall|j: int| 0 <= j < sq.len() && j != i ==> #[trigger] sq[j] != '/') by {
                    if i == first {
                        assert(sq[second as int] == '/');
                    } else {
                        assert(sq[first as int] == '/');
                    }
                }
            }
        }
        None
    }
}

/// Whether `s` is one of the words a boolean field accepts.
fn is_bool_word_exec(s: &str) -> (r: bool)
    ensures
        r == is_bool_word(s@),
{
    eq_ignore_ascii_case_exec(s, "yes") || eq_ignore_ascii_case_exec(s, "no")
        || eq_ignore_ascii_case_exec(s, "true") || eq_ignore_ascii_case_exec(s, "false")
        || eq_ignore_ascii_case_exec(s, "on") || eq_ignore_ascii_case_exec(s, "off")
        || eq_ignore_ascii_case_exec(s, "1") || eq_ignore_ascii_case_exec(s, "0")
}

fn check_secret(field_def: &FieldDef, s: &str) -> (r: Result<(), String>)
    ensures
        check_view(r) == secret_check(*field_def, s@),
{
    if s.unicode_len() == 0 {
        match field_def.required {
            Some(true) => {
                return Err(field_err(field_def.name.as_str(), "' can't be empty"));
            },
            _ => {},
        }
    }
    if has_control(s) {
        return Err(field_err(field_def.name.as_str(), "' contains control characters (a stray line break?)"));
    }
    Ok(())
}

/// Validates a secret. Error messages name the field, never the value.
pub fn validate_secret(field_def: &FieldDef, value: &SecretValue) -> (r: Result<(), String>)
    ensures
        check_view(r) == secret_check(*field_def, value.value()),
{
    check_secret(field_def, value.expose())
}

fn check_port(name: &str, value: &JsonValue) -> (r: Result<u64, String>)
    ensures
        match (r, port_number(name@, value@)) {
            (Ok(a), Ok(b)) => a == b,
            (Err(e), Err(m)) => e@ == m,
            _ => false,
        },
{
    match value.as_u64() {
        Some(n) => Ok(n),
        None => match value.as_str() {
            Some(s) => match parse_unsigned_exec(&chars_of(s), u64::MAX) {
                Some(n) => Ok(n),
                None => Err(concat3("Invalid port number '", s, "'")),
            },
            None => Err(field_err(name, "' must be a port number")),
        },
    }
}

fn check_cidr(name: &str, s: &str, ip: &Result<IpFamily, String>, Ghost(v): Ghost<JsonV>, Ghost(def): Ghost<FieldDef>) -> (r: Result<(), String>)
    requires
        v == JsonV::String(s@),
        def.name@ == name@,
        def.field_type is Cidr,
    ensures
        check_view(r) == field_value_check_with(def, v, ip_result_view(*ip)),
{
    match split_cidr(s) {
        None => Err(concat3("Invalid CIDR format '", s, "', expected ip/prefix")),
        Some((a, b)) => match ip {
            Err(e) => {
                let mut m = concat3("Invalid CIDR IP '", a.as_str(), "': ");
                push_str(&mut m, e.as_str());
                Err(m)
            },
            Ok(fam) => match parse_unsigned_exec(&chars_of(b.as_str()), 0xffff_ffffu64) {
                None => Err(concat3("Invalid CIDR prefix '", b.as_str(), "'")),
                Some(p) => {
                    let max: u64 = match fam {
                        IpFamily::V4 => 32,
                        IpFamily::V6 => 128,
                    };
                    if p > max {
                        let mut m = String::new();
                        push_str(&mut m, "CIDR prefix /");
                        push_dec(&mut m, p);
                        push_str(&mut m, " exceeds maximum /");
                        push_dec(&mut m, max);
                        assert(m@ =~= "CIDR prefix /"@ + dec(p as nat) + " exceeds maximum /"@ + dec(max as nat));
                        Err(m)
                    } else {
                        Ok(())
                    }
                },
            },
        },
    }
}

#[verifier::loop_isolation(false)]
fn check_string_list(field_def: &FieldDef, value: &JsonValue) -> (r: Result<(), String>)
    requires
        field_def.field_type is StringList,
        !(value@ is Null),
    ensures
        check_view(r) == field_value_check_with(*field_def, value@, Err(Seq::empty())),
{
    let name = field_def.name.as_str();
    match value.as_array() {
        None => Err(field_err(name, "' must be a list of strings")),
        Some(arr) => {
            let ghost items = value@->Array_0;
            proof {
                crate::json::lemma_view_jsons(arr@);
            }
            let mut i: usize = 0;
            while i < arr.len()
                invariant
                    i <= arr@.len(),
                    items == view_jsons(arr@),
                    items.len() == arr@.len(),
                    forall|j: int| 0 <= j < items.len() ==> #[trigger] items[j] == arr@[j]@,
                    forall|j: int| 0 <= j < i ==> (#[trigger] items[j]) is String,
                decreases arr@.len() - i,
            {
                assert(items[i as int] == arr@[i as int]@);
                if !arr[i].is_string() {
                    assert(!(items[i as int] is String));
                    return Err(field_err(name, "' items must be strings"));
                }
                i = i + 1;
            }
            let req = match field_def.required {
                Some(true) => true,
                _ => false,
            };
            if req && arr.len() == 0 {
                return Err(field_err(name, "' requires at least one entry"));
            }
            Ok(())
        },
    }
}

#[verifier::loop_isolation(false)]
fn check_enum(field_def: &FieldDef, s: &str) -> (r: Result<(), String>)
    requires
        field_def.field_type is Enum,
    ensures
        check_view(r) == field_value_check_with(*field_def, JsonV::String(s@), Err(Seq::empty())),
{
    match &field_def.options {
        None => Ok(()),
        Some(opts) => {
            let ghost vals = option_values(opts@);
            let mut i: usize = 0;
            while i < opts.len()
                invariant
                    i <= opts@.len(),
                    vals == option_values(opts@),
                    forall|j: int| 0 <= j < i ==> #[trigger] vals[j] != s@,
                decreases opts@.len() - i,
            {
                assert(vals[i as int] == opts@[i as int].value@);
                if str_eq(opts[i].value.as_str(), s) {
                    assert(vals[i as int] == s@);
                    assert(vals.contains(s@));
                    return Ok(());
                }
                i = i + 1;
            }
            assert(!vals.contains(s@));
            let mut names: Vec<&str> = Vec::new();
            let mut k: usize = 0;
            while k < opts.len()
                invariant
                    k <= opts@.len(),
                    vals == option_values(opts@),
                    str_views(names@) == vals.subrange(0, k as int),
                decreases opts@.len() - k,
            {
                let ghost before = names@;
                let t = opts[k].value.as_str();
                names.push(t);
                proof {
                    crate::text::lemma_str_views_push(before, t);
                    assert(vals[k as int] == opts@[k as int].value@);
                    assert(vals.subrange(0, k as int).push(vals[k as int]) =~= vals.subrange(0, k + 1));
                }
                assert(str_views(names@) =~= vals.subrange(0, k + 1));
                k = k + 1;
            }
            assert(vals.subrange(0, opts@.len() as int) =~= vals);
            let listed = debug_list(&names);
            let mut m = concat3("Invalid value '", s, "' for field '");
            push_str(&mut m, field_def.name.as_str());
            push_str(&mut m, "'. Allowed options: ");
            push_str(&mut m, listed.as_str());
            assert(m@ =~= "Invalid value '"@ + s@ + "' for field '"@ + field_def.name@ + "'. Allowed options: "@
                + debug_str_list(vals));
            Err(m)
        },
    }
}

fn check_integer(field_def: &FieldDef, value: &JsonValue) -> (r: Result<(), String>)
    requires
        field_def.field_type is Integer,
        !(value@ is Null),
    ensures
        check_view(r) == field_value_check_with(*field_def, value@, Err(Seq::empty())),
{
    let name = field_def.name.as_str();
    let n: Option<i64> = match value.as_i64() {
        Some(n) => Some(n),
        None => match value.as_str() {
            Some(s) => {
                let t = trim_ws_string(s);
                parse_i64_exec(&chars_of(t.as_str()))
            },
            None => None,
        },
    };
    match n {
        None => Err(field_err(name, "' must be a whole number")),
        Some(n) => {
            match field_def.min {
                Some(min) => if n < min {
                    let mut m = field_err(name, "' must be at least ");
                    push_i64(&mut m, min);
                    assert(m@ =~= field_msg(name@, "' must be at least "@ + int_text(min as int)));
                    return Err(m);
                },
                None => {},
            }
            match field_def.max {
                Some(max) => if n > max {
                    let mut m = field_err(name, "' must be at most ");
                    push_i64(&mut m, max);
                    assert(m@ =~= field_msg(name@, "' must be at most "@ + int_text(max as int)));
                    return Err(m);
                },
                None => {},
            }
            Ok(())
        },
    }
}

/// Validates `value` for the field `field_def`, given `ip`, the outcome of
/// parsing [`ip_subject`] as an IP address (ignored by the types that parse
/// none).
pub fn check_field_value(field_def: &FieldDef, value: &JsonValue, ip: &Result<IpFamily, String>) -> (r: Result<(), String>)
    ensures
        check_view(r) == field_value_check_with(*field_def, value@, ip_result_view(*ip)),
{
    let name = field_def.name.as_str();
    if value.is_null() {
        return match field_def.required {
            Some(true) => Err(field_err(name, "' is required")),
            _ => Ok(()),
        };
    }
    match &field_def.field_type {
        FieldType::IpAddress => match value.as_str() {
            None => Err(field_err(name, "' must be an IP address string")),
            Some(s) => match ip {
                Ok(_) => Ok(()),
                Err(e) => {
                    let mut m = concat3("Invalid IP address '", s, "': ");
                    push_str(&mut m, e.as_str());
                    Err(m)
                },
            },
        },
        FieldType::Port => match check_port(name, value) {
            Err(e) => Err(e),
            Ok(n) => if n == 0 || n > 65535 {
                let mut m = String::new();
                push_str(&mut m, "Port number ");
                push_dec(&mut m, n);
                push_str(&mut m, " is out of range (1-65535)");
                assert(m@ =~= "Port number "@ + dec(n as nat) + " is out of range (1-65535)"@);
                Err(m)
            } else {
                Ok(())
            },
        },
        FieldType::Cidr => match value.as_str() {
            None => Err(field_err(name, "' must be a CIDR string")),
            Some(s) => check_cidr(name, s, ip, Ghost(value@), Ghost(*field_def)),
        },
        FieldType::Bool => {
            if value.is_boolean() {
                Ok(())
            } else {
                match value.as_str() {
                    Some(s) => if is_bool_word_exec(s) {
                        Ok(())
                    } else {
                        Err(field_err(name, "' must be a boolean"))
                    },
                    None => Err(field_err(name, "' must be a boolean")),
                }
            }
        },
        FieldType::StringList => check_string_list(field_def, value),
        FieldType::Enum => match value.as_str() {
            None => Err(field_err(name, "' must be a string")),
            Some(s) => check_enum(field_def, s),
        },
        FieldType::Integer => check_integer(field_def, value),
        FieldType::Secret => match value.as_str() {
            None => Err(field_err(name, "' must be text")),
            Some(s) => check_secret(field_def, s),
        },
        _ => if value.is_string() {
            Ok(())
        } else {
            Err(field_err(name, "' must be a string"))
        },
    }
}

/// Validates a candidate value against its field definition.
pub fn validate_field_value(field_def: &FieldDef, value: &JsonValue) -> (r: Result<(), String>)
    ensures
        check_view(r) == field_value_check(*field_def, value@),
{
    let ip: Result<IpFamily, String> = match (&field_def.field_type, value.as_str()) {
        (FieldType::IpAddress, Some(s)) => parse_ip_addr(s),
        (FieldType::Cidr, Some(s)) => match split_cidr(s) {
            Some((a, _)) => parse_ip_addr(a.as_str()),
            None => Err(String::new()),
        },
        _ => Err(String::new()),
    };
    check_field_value(field_def, value, &ip)
}

} // verus!

verus! {

/// The mathematical value of a [`FieldType`].
pub enum FieldTypeV {
    IpAddress,
    String,
    StringList,
    Enum,
    Cidr,
    Bool,
    Path,
    Port,
    Integer,
    Secret,
    Other(Seq<char>),
}

impl View for FieldType {
    type V = FieldTypeV;

    open spec fn view(&self) -> FieldTypeV {
        match self {
            FieldType::IpAddress => FieldTypeV::IpAddress,
            FieldType::String => FieldTypeV::String,
            FieldType::StringList => FieldTypeV::StringList,
            FieldType::Enum => FieldTypeV::Enum,
            FieldType::Cidr => FieldTypeV::Cidr,
            FieldType::Bool => FieldTypeV::Bool,
            FieldType::Path => FieldTypeV::Path,
            FieldType::Port => FieldTypeV::Port,
            FieldType::Integer => FieldTypeV::Integer,
            FieldType::Secret => FieldTypeV::Secret,
            FieldType::Other(s) => FieldTypeV::Other(s@),
        }
    }
}

/// The mathematical value of a [`RiskLevel`].
pub enum RiskV {
    Recommended,
    Caution,
    Weak,
    NeverOnProd,
    Deny,
    Other(Seq<char>),
}

impl View for RiskLevel {
    type V = RiskV;

    open spec fn view(&self) -> RiskV {
        match self {
            RiskLevel::Recommended => RiskV::Recommended,
            RiskLevel::Caution => RiskV::Caution,
            RiskLevel::Weak => RiskV::Weak,
            RiskLevel::NeverOnProd => RiskV::NeverOnProd,
            RiskLevel::Deny => RiskV::Deny,
            RiskLevel::Other(s) => RiskV::Other(s@),
        }
    }
}

pub struct EnumOptionV {
    pub value: Seq<char>,
    pub label: Seq<char>,
    pub risk: Option<RiskV>,
}

impl View for EnumOption {
    type V = EnumOptionV;

    open spec fn view(&self) -> EnumOptionV {
        EnumOptionV {
            value: self.value@,
            label: self.label@,
            risk: match self.risk {
                Some(r) => Some(r@),
                None => None,
            },
        }
    }
}

pub open spec fn option_views(v: Seq<EnumOption>) -> Seq<EnumOptionV> {
    v.map_values(|o: EnumOption| o@)
}

/// The texts of an optional string.
pub open spec fn opt_text(o: Option<String>) -> Option<Seq<char>> {
    match o {
        Some(s) => Some(s@),
        None => None,
    }
}

/// A copy of an optional string.
pub fn clone_opt_string(o: &Option<String>) -> (r: Option<String>)
    ensures
        opt_text(r) == opt_text(*o),
{
    match o {
        Some(s) => Some(s.clone()),
        None => None,
    }
}

impl RiskLevel {
    pub fn duplicate(&self) -> (r: Self)
        ensures
            r@ == self@,
    {
        match self {
            RiskLevel::Recommended => RiskLevel::Recommended,
            RiskLevel::Caution => RiskLevel::Caution,
            RiskLevel::Weak => RiskLevel::Weak,
            RiskLevel::NeverOnProd => RiskLevel::NeverOnProd,
            RiskLevel::Deny => RiskLevel::Deny,
            RiskLevel::Other(s) => RiskLevel::Other(s.clone()),
        }
    }
}

impl EnumOption {
    pub fn duplicate(&self) -> (r: Self)
        ensures
            r@ == self@,
    {
        EnumOption {
            value: self.value.clone(),
            label: self.label.clone(),
            risk: match &self.risk {
                Some(k) => Some(k.duplicate()),
                None => None,
            },
        }
    }
}

/// A copy of an optional list of enum options.
pub fn clone_options(o: &Option<Vec<EnumOption>>) -> (r: Option<Vec<EnumOption>>)
    ensures
        match (r, *o) {
            (Some(a), Some(b)) => option_views(a@) == option_views(b@),
            (None, None) => true,
            _ => false,
        },
{
    match o {
        None => None,
        Some(v) => {
            let mut out: Vec<EnumOption> = Vec::new();
            let mut i: usize = 0;
            while i < v.len()
                invariant
                    i <= v@.len(),
                    option_views(out@) == option_views(v@).subrange(0, i as int),
                decreases v@.len() - i,
            {
                let ghost before = out@;
                let c = v[i].duplicate();
                out.push(c);
                assert(option_views(out@) =~= option_views(before).push(c@));
                assert(option_views(v@).subrange(0, i as int).push(v@[i as int]@) =~= option_views(v@).subrange(0, i + 1));
                i = i + 1;
            }
            assert(option_views(v@).subrange(0, v@.len() as int) =~= option_views(v@));
            Some(out)
        },
    }
}

} // verus!

verus! {

/// `s` with each non-overlapping occurrence of the (nonempty) pattern `pat`,
/// from left to right, replaced by `rep` (`str::replace`).
pub open spec fn replace_all(s: Seq<char>, pat: Seq<char>, rep: Seq<char>) -> Seq<char>
    decreases s.len(),
{
    if pat.len() == 0 || s.len() < pat.len() {
        s
    } else if s.subrange(0, pat.len() as int) == pat {
        rep + replace_all(s.subrange(pat.len() as int, s.len() as int), pat, rep)
    } else {
        seq![s[0]] + replace_all(s.subrange(1, s.len() as int), pat, rep)
    }
}

/// `{key}`.
pub open spec fn placeholder(key: Seq<char>) -> Seq<char> {
    "{"@ + key + "}"@
}

/// The command with each parameter's placeholder replaced by its value, the
/// parameters taken in order.
pub open spec fn render_spec(cmd: Seq<char>, params: Seq<(Seq<char>, Seq<char>)>) -> Seq<char>
    decreases params.len(),
{
    if params.len() == 0 {
        cmd
    } else {
        replace_all(render_spec(cmd, params.drop_last()), placeholder(params.last().0), params.last().1)
    }
}

pub open spec fn text_pairs(v: Seq<(String, String)>) -> Seq<(Seq<char>, Seq<char>)> {
    v.map_values(|p: (String, String)| (p.0@, p.1@))
}

/// Whether `p` occurs in `v` at `i`.
fn occurs_at(v: &Vec<char>, i: usize, p: &Vec<char>) -> (r: bool)
    requires
        i + p@.len() <= v@.len(),
    ensures
        r == (v@.subrange(i as int, i + p@.len()) == p@),
{
    let n = v.len();
    let mut k: usize = 0;
    while k < p.len()
        invariant
            k <= p@.len(),
            n == v@.len(),
            i + p@.len() <= v@.len(),
            forall|j: int| 0 <= j < k ==> v@[i + j] == p@[j],
        decreases p@.len() - k,
    {
        if v[i + k] != p[k] {
            assert(v@.subrange(i as int, i + p@.len())[k as int] != p@[k as int]);
            return false;
        }
        k = k + 1;
    }
    assert(v@.subrange(i as int, i + p@.len()) =~= p@);
    true
}

/// `str::replace` with a nonempty pattern.
fn replace_all_exec(s: &str, pat: &str, rep: &str) -> (r: String)
    requires
        pat@.len() > 0,
    ensures
        r@ == replace_all(s@, pat@, rep@),
{
    let v = chars_of(s);
    let p = chars_of(pat);
    let n = v.len();
    let m = p.len();
    let mut out = String::new();
    let mut i: usize = 0;
    assert(v@.subrange(0, n as int) =~= v@);
    while i < n
        invariant
            v@ == s@,
            p@ == pat@,
            n == v@.len(),
            m == p@.len(),
            m > 0,
            i <= n,
            out@ + replace_all(v@.subrange(i as int, n as int), p@, rep@) == replace_all(s@, pat@, rep@),
        decreases n - i,
    {
        let ghost rest = v@.subrange(i as int, n as int);
        if n - i >= m && occurs_at(&v, i, &p) {
            proof {
                assert(rest.subrange(0, m as int) =~= v@.subrange(i as int, i + m));
                assert(rest.subrange(m as int, rest.len() as int) =~= v@.subrange(i + m, n as int));
            }
            push_str(&mut out, rep);
            i = i + m;
        } else {
            proof {
                if n - i >= m {
                    assert(rest.subrange(0, m as int) =~= v@.subrange(i as int, i + m));
                }
                assert(rest.subrange(1, rest.len() as int) =~= v@.subrange(i + 1, n as int));
                if rest.len() < m {
                    assert(replace_all(rest, p@, rep@) == rest);
                    assert(replace_all(v@.subrange(i + 1, n as int), p@, rep@) == v@.subrange(i + 1, n as int));
                    assert(rest =~= seq![rest[0]] + v@.subrange(i + 1, n as int));
                }
            }
            crate::text::push_char(&mut out, v[i]);
            i = i + 1;
        }
        proof {
            assert(out@ + replace_all(v@.subrange(i as int, n as int), p@, rep@) =~= replace_all(s@, pat@, rep@));
        }
    }
    assert(v@.subrange(n as int, n as int) =~= Seq::<char>::empty());
    assert(out@ + Seq::<char>::empty() =~= out@);
    out
}

impl ValidatorDef {
    /// Renders the validation command, replacing each placeholder `{param}`
    /// by the parameter's value, the parameters taken in order.
    pub fn render_command(&self, params: &Vec<(String, String)>) -> (r: String)
        ensures
            r@ == render_spec(self.command@, text_pairs(params@)),
    {
        let mut cmd = self.command.clone();
        let ghost pv = text_pairs(params@);
        let mut i: usize = 0;
        assert(pv.subrange(0, 0) =~= Seq::<(Seq<char>, Seq<char>)>::empty());
        while i < params.len()
            invariant
                i <= params@.len(),
                pv == text_pairs(params@),
                pv.len() == params@.len(),
                cmd@ == render_spec(self.command@, pv.subrange(0, i as int)),
            decreases params@.len() - i,
        {
            let (key, val) = &params[i];
            let ph = concat3("{", key.as_str(), "}");
            proof {
                reveal_strlit("{");
                let sub = pv.subrange(0, i + 1);
                assert(sub.drop_last() =~= pv.subrange(0, i as int));
                assert(sub.last() == (key@, val@));
                assert(ph@ == placeholder(key@));
                assert(ph@.len() > 0);
            }
            cmd = replace_all_exec(cmd.as_str(), ph.as_str(), val.as_str());
            i = i + 1;
        }
        assert(pv.subrange(0, params@.len() as int) =~= pv);
        cmd
    }
}

} // verus!
