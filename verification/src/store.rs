//! Settings that live in the host app's store instead of a file.
//!
//! A provider's API token or default region has no config file behind it.
//! The same manifest fields (types, options, `default`, `group`, `help`)
//! describe it, and a [`SettingsDocument`] turns them into the same
//! [`ConfigDocumentIr`] a file produces, so one renderer shows both.
//!
//! The core does no I/O. The host hands in the stored values, applies
//! [`SettingsEdit`]s, and persists each validated [`SettingsChange`] that
//! comes back. Secrets are never held: the document only knows whether one
//! is set, and a [`SettingsChange::StoreSecret`] carries the value straight
//! to the host's vault.
use vstd::prelude::*;

use crate::bind::{doc_ir, doc_ir_spec, push_field, validate_into, validated};
use crate::cst::SourceSpan;
use crate::edit::{EditError, EditErrorV, EditOp, EditOpV};
use crate::ir::{opt_options, row_views, ConfigDocumentIr, DocumentIrV, FieldIr, FieldIrV, RowIr, RowIrV};
use crate::json::{lemma_view_members, view_members, JsonV, JsonValue};
use crate::rows::{lookup, lookup_field};
use crate::schema::{
    check_view, clone_opt_string, clone_options, field_value_check, find_field_spec, opt_text, secret_check,
    validate_field_value, validate_secret, FieldDef, PluginManifest,
};
use crate::secret::{secret_state, secret_state_spec, SecretValue};
use crate::text::{lemma_string_views_push, str_eq, string_views};

verus! {

/// The IR widget name of a settings row.
pub const SETTING_WIDGET: &'static str = "setting";

/// An edit requested by a UI.
#[derive(PartialEq)]
pub enum SettingsEdit {
    SetValue { key: String, value: JsonValue },
    Unset { key: String },
    SetSecret { key: String, value: SecretValue },
    ClearSecret { key: String },
}

/// A validated change for the host to persist.
#[derive(PartialEq)]
pub enum SettingsChange {
    /// Store `value` under `key`.
    SetValue { key: String, value: JsonValue },
    /// Remove `key`; the field falls back to its default.
    Unset { key: String },
    /// Put `value` in the vault under `key`. Never write it anywhere else.
    StoreSecret { key: String, value: SecretValue },
    /// Remove the secret under `key` from the vault.
    DeleteSecret { key: String },
}

/// The mathematical value of a [`SettingsEdit`].
pub enum SettingsEditV {
    SetValue { key: Seq<char>, value: JsonV },
    Unset { key: Seq<char> },
    SetSecret { key: Seq<char>, value: Seq<char> },
    ClearSecret { key: Seq<char> },
}

/// The mathematical value of a [`SettingsChange`].
pub enum SettingsChangeV {
    SetValue { key: Seq<char>, value: JsonV },
    Unset { key: Seq<char> },
    StoreSecret { key: Seq<char>, value: Seq<char> },
    DeleteSecret { key: Seq<char> },
}

impl View for SettingsEdit {
    type V = SettingsEditV;

    open spec fn view(&self) -> SettingsEditV {
        match self {
            SettingsEdit::SetValue { key, value } => SettingsEditV::SetValue { key: key@, value: value@ },
            SettingsEdit::Unset { key } => SettingsEditV::Unset { key: key@ },
            SettingsEdit::SetSecret { key, value } => SettingsEditV::SetSecret { key: key@, value: value.value() },
            SettingsEdit::ClearSecret { key } => SettingsEditV::ClearSecret { key: key@ },
        }
    }
}

impl View for SettingsChange {
    type V = SettingsChangeV;

    open spec fn view(&self) -> SettingsChangeV {
        match self {
            SettingsChange::SetValue { key, value } => SettingsChangeV::SetValue { key: key@, value: value@ },
            SettingsChange::Unset { key } => SettingsChangeV::Unset { key: key@ },
            SettingsChange::StoreSecret { key, value } => SettingsChangeV::StoreSecret { key: key@, value: value.value() },
            SettingsChange::DeleteSecret { key } => SettingsChangeV::DeleteSecret { key: key@ },
        }
    }
}

pub open spec fn change_result(r: Result<SettingsChange, EditError>) -> Result<SettingsChangeV, EditErrorV> {
    match r {
        Ok(c) => Ok(c@),
        Err(e) => Err(e@),
    }
}

/// A plugin's settings, bound to values the host supplied.
#[derive(Debug)]
pub struct SettingsDocument<'m> {
    manifest: &'m PluginManifest,
    values: Vec<(String, JsonValue)>,
    secrets_set: Vec<String>,
}

/// The state of a settings document: the stored values (the last pair for
/// a key holds its value) and the keys of the secrets that are set.
pub struct SettingsV {
    pub values: Seq<(Seq<char>, JsonV)>,
    pub secrets: Seq<Seq<char>>,
}

/// The field is a secret.
pub open spec fn is_secret_def(d: FieldDef) -> bool {
    d.field_type is Secret
}

/// The pairs without those for `k`.
pub open spec fn without(vals: Seq<(Seq<char>, JsonV)>, k: Seq<char>) -> Seq<(Seq<char>, JsonV)>
    decreases vals.len(),
{
    if vals.len() == 0 {
        Seq::empty()
    } else {
        without(vals.drop_last(), k) + if vals.last().0 == k {
            Seq::<(Seq<char>, JsonV)>::empty()
        } else {
            seq![vals.last()]
        }
    }
}

/// The keys without `k`.
pub open spec fn without_key(s: Seq<Seq<char>>, k: Seq<char>) -> Seq<Seq<char>>
    decreases s.len(),
{
    if s.len() == 0 {
        Seq::empty()
    } else {
        without_key(s.drop_last(), k) + if s.last() == k {
            Seq::<Seq<char>>::empty()
        } else {
            seq![s.last()]
        }
    }
}

/// Storing `v` under `k`.
pub open spec fn set_val(vals: Seq<(Seq<char>, JsonV)>, k: Seq<char>, v: JsonV) -> Seq<(Seq<char>, JsonV)> {
    without(vals, k).push((k, v))
}

/// Noting that the secret `k` is set.
pub open spec fn add_secret(s: Seq<Seq<char>>, k: Seq<char>) -> Seq<Seq<char>> {
    if s.contains(k) {
        s
    } else {
        s.push(k)
    }
}

/// The secrets the vault holds that the manifest defines as secrets, in order.
pub open spec fn load_secrets(m: PluginManifest, keys: Seq<Seq<char>>) -> Seq<Seq<char>>
    decreases keys.len(),
{
    if keys.len() == 0 {
        Seq::empty()
    } else {
        let s = load_secrets(m, keys.drop_last());
        let k = keys.last();
        match find_field_spec(m, k) {
            Some(d) => if is_secret_def(d) {
                add_secret(s, k)
            } else {
                s
            },
            None => s,
        }
    }
}

/// Loading stored values on top of `st`: values of unknown keys are
/// dropped, a value for a secret field only marks the secret as set, and a
/// `null` is no value.
pub open spec fn load_values(m: PluginManifest, st: SettingsV, pairs: Seq<(Seq<char>, JsonV)>) -> SettingsV
    decreases pairs.len(),
{
    if pairs.len() == 0 {
        st
    } else {
        let s = load_values(m, st, pairs.drop_last());
        let (k, v) = pairs.last();
        match find_field_spec(m, k) {
            Some(d) => if is_secret_def(d) {
                SettingsV { values: s.values, secrets: add_secret(s.secrets, k) }
            } else if !(v is Null) {
                SettingsV { values: set_val(s.values, k, v), secrets: s.secrets }
            } else {
                s
            },
            None => s,
        }
    }
}

/// The value in effect: the stored one, else the manifest's default.
pub open spec fn effective_spec(m: PluginManifest, st: SettingsV, key: Seq<char>) -> Option<JsonV> {
    match lookup(st.values, key) {
        Some(v) => Some(v),
        None => match find_field_spec(m, key) {
            Some(d) => match d.default {
                Some(t) => Some(JsonV::String(t@)),
                None => None,
            },
            None => None,
        },
    }
}

/// The required field has no value, stored or default (a secret: is not set).
pub open spec fn is_missing(m: PluginManifest, st: SettingsV, d: FieldDef) -> bool {
    &&& d.required == Some(true)
    &&& if is_secret_def(d) {
        !st.secrets.contains(d.name@)
    } else {
        effective_spec(m, st, d.name@) is None
    }
}

/// The names of the required fields among `fields` that have no value.
pub open spec fn missing_spec(m: PluginManifest, st: SettingsV, fields: Seq<FieldDef>) -> Seq<Seq<char>>
    decreases fields.len(),
{
    if fields.len() == 0 {
        Seq::empty()
    } else {
        missing_spec(m, st, fields.drop_last()) + if is_missing(m, st, fields.last()) {
            seq![fields.last().name@]
        } else {
            Seq::<Seq<char>>::empty()
        }
    }
}

/// The IR field of a setting: `{"set": bool}` for a secret, else the stored
/// value (or `null`), checked when there is one.
pub open spec fn setting_field(d: FieldDef, st: SettingsV) -> FieldIrV {
    let value = if is_secret_def(d) {
        secret_state_spec(st.secrets.contains(d.name@))
    } else {
        match lookup(st.values, d.name@) {
            Some(v) => v,
            None => JsonV::Null,
        }
    };
    let f = FieldIrV {
        name: d.name@,
        value,
        field_type: d.field_type@,
        valid: None,
        validation_error: None,
        options: opt_options(d.options),
        docs_source: opt_text(d.docs_source),
        help: opt_text(d.help),
    };
    if !is_secret_def(d) && !(value is Null) {
        validated(f, Some(d), value)
    } else {
        f
    }
}

/// The row of setting `i`.
pub open spec fn setting_row(d: FieldDef, i: int, st: SettingsV) -> RowIrV {
    RowIrV {
        row_id: d.name@,
        widget: "setting"@,
        fields: seq![setting_field(d, st)],
        source_span: SourceSpan { start_line: (i + 1) as usize, end_line: (i + 1) as usize },
        is_comment_only: None,
        is_blank: None,
    }
}

/// One row per field, in manifest order.
pub open spec fn settings_ir(m: PluginManifest, st: SettingsV) -> DocumentIrV {
    doc_ir_spec(m, Seq::new(m.fields@.len(), |i: int| setting_row(m.fields@[i], i, st)))
}

pub open spec fn edit_key(e: SettingsEditV) -> Seq<char> {
    match e {
        SettingsEditV::SetValue { key, .. } => key,
        SettingsEditV::Unset { key } => key,
        SettingsEditV::SetSecret { key, .. } => key,
        SettingsEditV::ClearSecret { key } => key,
    }
}

pub open spec fn invalid_value(field: Seq<char>, message: Seq<char>) -> EditErrorV {
    EditErrorV::InvalidValue { field, message }
}

/// Removing the value of a plain field.
pub open spec fn unset_spec(d: FieldDef, st: SettingsV, key: Seq<char>) -> (SettingsV, Result<SettingsChangeV, EditErrorV>) {
    if d.required == Some(true) && d.default is None {
        (st, Err(invalid_value(key, "is required and has no default"@)))
    } else {
        (SettingsV { values: without(st.values, key), secrets: st.secrets }, Ok(SettingsChangeV::Unset { key }))
    }
}

/// What applying `e` does: the new state, and the change to persist or the
/// error (when the state stays as it was).
pub open spec fn apply_spec(m: PluginManifest, st: SettingsV, e: SettingsEditV) -> (SettingsV, Result<SettingsChangeV, EditErrorV>) {
    let key = edit_key(e);
    match find_field_spec(m, key) {
        None => (st, Err(EditErrorV::FieldNotFound(key, m.plugin.name@))),
        Some(d) => if !is_secret_def(d) {
            match e {
                SettingsEditV::SetValue { value, .. } => if value is Null {
                    unset_spec(d, st, key)
                } else {
                    match field_value_check(d, value) {
                        Err(msg) => (st, Err(invalid_value(key, msg))),
                        Ok(()) => (
                            SettingsV { values: set_val(st.values, key, value), secrets: st.secrets },
                            Ok(SettingsChangeV::SetValue { key, value }),
                        ),
                    }
                },
                SettingsEditV::Unset { .. } => unset_spec(d, st, key),
                _ => (st, Err(EditErrorV::Unsupported("'"@ + key + "' isn't a secret field"@))),
            }
        } else {
            match e {
                SettingsEditV::SetSecret { value, .. } => match secret_check(d, value) {
                    Err(msg) => (st, Err(invalid_value(key, msg))),
                    Ok(()) => (
                        SettingsV { values: st.values, secrets: add_secret(st.secrets, key) },
                        Ok(SettingsChangeV::StoreSecret { key, value }),
                    ),
                },
                SettingsEditV::SetValue { .. } => (
                    st,
                    Err(
                        EditErrorV::Unsupported(
                            "'"@ + key + "' is a secret; set it with SetSecret so the value never passes through plain JSON"@,
                        ),
                    ),
                ),
                _ => if d.required == Some(true) {
                    (st, Err(invalid_value(key, "is required; replace it instead of clearing it"@)))
                } else {
                    (
                        SettingsV { values: st.values, secrets: without_key(st.secrets, key) },
                        Ok(SettingsChangeV::DeleteSecret { key }),
                    )
                },
            }
        },
    }
}

/// What applying a generic edit operation does: rows are keyed by field
/// name; `UpdateField` sets, `DeleteRow` unsets, and rows can't be added or
/// moved.
pub open spec fn apply_op_spec(m: PluginManifest, st: SettingsV, op: EditOpV) -> (SettingsV, Result<SettingsChangeV, EditErrorV>) {
    match op {
        EditOpV::UpdateField { row_id, field_name, new_value } => if row_id != field_name {
            (st, Err(EditErrorV::FieldNotFound(field_name, row_id)))
        } else {
            apply_spec(m, st, SettingsEditV::SetValue { key: row_id, value: new_value })
        },
        EditOpV::DeleteRow { row_id } => apply_spec(m, st, SettingsEditV::Unset { key: row_id }),
        _ => (st, Err(EditErrorV::Unsupported("settings have one row per field; rows can't be added or moved"@))),
    }
}

/// The pairs without those for `k`.
fn without_exec(vals: &mut Vec<(String, JsonValue)>, k: &str)
    ensures
        view_members(final(vals)@) == without(view_members(old(vals)@), k@),
{
    let ghost orig = view_members(vals@);
    proof {
        lemma_view_members(vals@);
    }
    let mut i: usize = 0;
    let ghost mut j: int = 0;
    assert(orig.subrange(0, 0) =~= Seq::<(Seq<char>, JsonV)>::empty());
    assert(view_members(vals@).subrange(0, 0) =~= without(orig.subrange(0, 0), k@));
    while i < vals.len()
        invariant
            0 <= j <= orig.len(),
            i <= vals@.len(),
            orig.len() == view_members(old(vals)@).len(),
            orig == view_members(old(vals)@),
            view_members(vals@).subrange(0, i as int) == without(orig.subrange(0, j), k@),
            view_members(vals@).subrange(i as int, vals@.len() as int) == orig.subrange(j, orig.len() as int),
        decreases vals@.len() - i,
    {
        proof {
            lemma_view_members(vals@);
            assert(view_members(vals@).len() == vals@.len());
            assert(view_members(vals@).subrange(i as int, vals@.len() as int).len() == vals@.len() - i);
            assert(j < orig.len());
            let sub = orig.subrange(0, j + 1);
            assert(orig.subrange(j, orig.len() as int)[0] == orig[j]);
            assert(view_members(vals@)[i as int] == orig[j]);
            assert(sub.drop_last() =~= orig.subrange(0, j));
            assert(sub.last() == orig[j]);
        }
        if str_eq(vals[i].0.as_str(), k) {
            let ghost before = vals@;
            vals.remove(i);
            proof {
                lemma_view_members(vals@);
                lemma_view_members(before);
                assert(view_members(vals@).subrange(0, i as int) =~= view_members(before).subrange(0, i as int));
                assert(view_members(vals@).subrange(i as int, vals@.len() as int) =~= view_members(before).subrange(
                    i + 1,
                    before.len() as int,
                ));
                assert(orig.subrange(j + 1, orig.len() as int) =~= orig.subrange(j, orig.len() as int).subrange(
                    1,
                    orig.len() - j,
                ));
                j = j + 1;
                assert(without(orig.subrange(0, j), k@) =~= without(orig.subrange(0, j - 1), k@));
            }
        } else {
            proof {
                lemma_view_members(vals@);
                assert(view_members(vals@).subrange(0, i + 1) =~= view_members(vals@).subrange(0, i as int).push(
                    orig[j],
                ));
                assert(orig.subrange(j + 1, orig.len() as int) =~= orig.subrange(j, orig.len() as int).subrange(
                    1,
                    orig.len() - j,
                ));
                j = j + 1;
            }
            i = i + 1;
        }
    }
    proof {
        lemma_view_members(vals@);
        assert(orig.subrange(j, orig.len() as int).len() == 0);
        assert(j == orig.len());
        assert(orig.subrange(0, j) =~= orig);
        assert(view_members(vals@) =~= view_members(vals@).subrange(0, i as int));
    }
}

/// The keys without `k`.
fn without_key_exec(keys: &Vec<String>, k: &str) -> (r: Vec<String>)
    ensures
        string_views(r@) == without_key(string_views(keys@), k@),
{
    let ghost sv = string_views(keys@);
    let mut out: Vec<String> = Vec::new();
    let mut i: usize = 0;
    while i < keys.len()
        invariant
            i <= keys@.len(),
            sv == string_views(keys@),
            sv.len() == keys@.len(),
            string_views(out@) == without_key(sv.subrange(0, i as int), k@),
        decreases keys@.len() - i,
    {
        let ghost before = out@;
        proof {
            let sub = sv.subrange(0, i + 1);
            assert(sub.drop_last() =~= sv.subrange(0, i as int));
            assert(sub.last() == keys@[i as int]@);
        }
        if !str_eq(keys[i].as_str(), k) {
            let t = keys[i].clone();
            out.push(t);
            proof {
                lemma_string_views_push(before, t);
            }
        }
        assert(string_views(out@) =~= without_key(sv.subrange(0, i + 1), k@));
        i = i + 1;
    }
    assert(sv.subrange(0, keys@.len() as int) =~= sv);
    out
}

/// Whether `keys` holds `k`.
fn holds_key(keys: &Vec<String>, k: &str) -> (r: bool)
    ensures
        r == string_views(keys@).contains(k@),
{
    let mut i: usize = 0;
    while i < keys.len()
        invariant
            i <= keys@.len(),
            forall|j: int| 0 <= j < i ==> #[trigger] string_views(keys@)[j] != k@,
        decreases keys@.len() - i,
    {
        assert(string_views(keys@)[i as int] == keys@[i as int]@);
        if str_eq(keys[i].as_str(), k) {
            return true;
        }
        i = i + 1;
    }
    false
}

/// Notes that the secret `k` is set.
fn add_secret_exec(keys: &mut Vec<String>, k: &str)
    ensures
        string_views(final(keys)@) == add_secret(string_views(old(keys)@), k@),
{
    if !holds_key(keys, k) {
        let t = k.to_owned();
        let ghost before = keys@;
        keys.push(t);
        proof {
            lemma_string_views_push(before, t);
        }
    }
}

impl<'m> SettingsDocument<'m> {
    /// The document's manifest.
    pub closed spec fn manifest_of(&self) -> PluginManifest {
        *self.manifest
    }

    /// The document's state.
    pub closed spec fn state(&self) -> SettingsV {
        SettingsV { values: view_members(self.values@), secrets: string_views(self.secrets_set@) }
    }

    /// Binds `manifest` to stored `values` and the keys of the secrets the
    /// vault holds. Keys the manifest doesn't define are ignored (stale
    /// settings from an older plugin version), and so is any value handed in
    /// for a secret field, beyond noting that it's set.
    pub fn new(manifest: &'m PluginManifest, values: Vec<(String, JsonValue)>, secrets_set: Vec<String>) -> (r: Self)
        ensures
            r.manifest_of() == *manifest,
            r.state() == load_values(
                *manifest,
                SettingsV { values: Seq::empty(), secrets: load_secrets(*manifest, string_views(secrets_set@)) },
                view_members(values@),
            ),
    {
        let mut doc = SettingsDocument { manifest, values: Vec::new(), secrets_set: Vec::new() };
        let ghost keys = string_views(secrets_set@);
        let mut i: usize = 0;
        assert(string_views(doc.secrets_set@) =~= load_secrets(*manifest, keys.subrange(0, 0)));
        while i < secrets_set.len()
            invariant
                i <= secrets_set@.len(),
                keys == string_views(secrets_set@),
                keys.len() == secrets_set@.len(),
                doc.manifest == manifest,
                doc.values@.len() == 0,
                string_views(doc.secrets_set@) == load_secrets(*manifest, keys.subrange(0, i as int)),
            decreases secrets_set@.len() - i,
        {
            let key = secrets_set[i].as_str();
            proof {
                let sub = keys.subrange(0, i + 1);
                assert(sub.drop_last() =~= keys.subrange(0, i as int));
                assert(sub.last() == key@);
            }
            match manifest.find_field(key) {
                Some(def) => {
                    if def.field_type.is_secret() {
                        add_secret_exec(&mut doc.secrets_set, key);
                    }
                },
                None => {},
            }
            i = i + 1;
        }
        assert(keys.subrange(0, secrets_set@.len() as int) =~= keys);
        let ghost st0 = SettingsV { values: Seq::empty(), secrets: load_secrets(*manifest, keys) };
        assert(view_members(doc.values@) =~= Seq::<(Seq<char>, JsonV)>::empty());
        let ghost pv = view_members(values@);
        proof {
            lemma_view_members(values@);
        }
        let mut k: usize = 0;
        assert(pv.subrange(0, 0) =~= Seq::<(Seq<char>, JsonV)>::empty());
        while k < values.len()
            invariant
                k <= values@.len(),
                pv == view_members(values@),
                pv.len() == values@.len(),
                forall|j: int| 0 <= j < pv.len() ==> #[trigger] pv[j] == (values@[j].0@, values@[j].1@),
                doc.manifest == manifest,
                doc.state() == load_values(*manifest, st0, pv.subrange(0, k as int)),
            decreases values@.len() - k,
        {
            let key = values[k].0.as_str();
            let value = &values[k].1;
            proof {
                let sub = pv.subrange(0, k + 1);
                assert(sub.drop_last() =~= pv.subrange(0, k as int));
                assert(sub.last() == pv[k as int]);
            }
            match manifest.find_field(key) {
                Some(def) => {
                    if def.field_type.is_secret() {
                        add_secret_exec(&mut doc.secrets_set, key);
                    } else if !value.is_null() {
                        without_exec(&mut doc.values, key);
                        let ghost before = doc.values@;
                        doc.values.push((key.to_owned(), value.duplicate()));
                        proof {
                            lemma_view_members(doc.values@);
                            lemma_view_members(before);
                            assert(view_members(doc.values@) =~= view_members(before).push((key@, value@)));
                        }
                    }
                },
                None => {},
            }
            k = k + 1;
        }
        assert(pv.subrange(0, values@.len() as int) =~= pv);
        doc
    }

    pub fn manifest(&self) -> (r: &'m PluginManifest)
        ensures
            *r == self.manifest_of(),
    {
        self.manifest
    }

    /// The stored value of a plain field, if set.
    pub fn value(&self, key: &str) -> (r: Option<&JsonValue>)
        ensures
            match lookup(self.state().values, key@) {
                Some(v) => r matches Some(x) && x@ == v,
                None => r is None,
            },
    {
        lookup_field(&self.values, key)
    }

    /// The value in effect: the stored one, else the manifest's default.
    pub fn effective(&self, key: &str) -> (r: Option<JsonValue>)
        ensures
            match effective_spec(self.manifest_of(), self.state(), key@) {
                Some(v) => r matches Some(x) && x@ == v,
                None => r is None,
            },
    {
        match lookup_field(&self.values, key) {
            Some(v) => Some(v.duplicate()),
            None => match self.manifest.find_field(key) {
                Some(def) => match &def.default {
                    Some(t) => Some(JsonValue::String(t.clone())),
                    None => None,
                },
                None => None,
            },
        }
    }

    pub fn is_secret_set(&self, key: &str) -> (r: bool)
        ensures
            r == self.state().secrets.contains(key@),
    {
        holds_key(&self.secrets_set, key)
    }

    /// Required fields with no value, stored or default. Empty means the
    /// plugin is fully configured.
    pub fn missing_required(&self) -> (r: Vec<&'m str>)
        ensures
            crate::text::str_views(r@) == missing_spec(self.manifest_of(), self.state(), self.manifest_of().fields@),
    {
        let m: &'m PluginManifest = self.manifest;
        let mut out: Vec<&'m str> = Vec::new();
        let mut i: usize = 0;
        while i < m.fields.len()
            invariant
                m == self.manifest,
                i <= m.fields@.len(),
                crate::text::str_views(out@) == missing_spec(*m, self.state(), m.fields@.subrange(0, i as int)),
            decreases m.fields@.len() - i,
        {
            let f: &'m FieldDef = &m.fields[i];
            proof {
                let sub = m.fields@.subrange(0, i + 1);
                assert(sub.drop_last() =~= m.fields@.subrange(0, i as int));
                assert(sub.last() == *f);
            }
            let required = match f.required {
                Some(true) => true,
                _ => false,
            };
            let missing = required && if f.field_type.is_secret() {
                !self.is_secret_set(f.name.as_str())
            } else {
                self.effective(f.name.as_str()).is_none()
            };
            if missing {
                let ghost before = out@;
                let name: &'m str = f.name.as_str();
                out.push(name);
                proof {
                    crate::text::lemma_str_views_push(before, name);
                }
            }
            assert(crate::text::str_views(out@) =~= missing_spec(*m, self.state(), m.fields@.subrange(0, i + 1)));
            i = i + 1;
        }
        assert(m.fields@.subrange(0, m.fields@.len() as int) =~= m.fields@);
        out
    }

    /// One row per field, in manifest order. Secret fields carry
    /// `{"set": bool}` instead of a value.
    pub fn to_ir(&self) -> (r: ConfigDocumentIr)
        ensures
            r@ == settings_ir(self.manifest_of(), self.state()),
    {
        let m = self.manifest;
        let mut rows: Vec<RowIr> = Vec::new();
        let mut i: usize = 0;
        while i < m.fields.len()
            invariant
                m == self.manifest,
                i <= m.fields@.len(),
                row_views(rows@) == Seq::new(i as nat, |j: int| setting_row(m.fields@[j], j, self.state())),
            decreases m.fields@.len() - i,
        {
            let def = &m.fields[i];
            let mut row = RowIr::new(def.name.as_str(), SETTING_WIDGET, SourceSpan::new(i + 1, i + 1));
            let secret = def.field_type.is_secret();
            let value = if secret {
                secret_state(self.is_secret_set(def.name.as_str()))
            } else {
                match lookup_field(&self.values, def.name.as_str()) {
                    Some(v) => v.duplicate(),
                    None => JsonValue::Null,
                }
            };
            let check = value.duplicate();
            let mut field = FieldIr::new(def.name.as_str(), def.field_type.duplicate(), value);
            field.options = clone_options(&def.options);
            field.help = clone_opt_string(&def.help);
            field.docs_source = clone_opt_string(&def.docs_source);
            if !secret && !check.is_null() {
                field = validate_into(field, def, &check);
            }
            push_field(&mut row.fields, field);
            proof {
                reveal_strlit("setting");
                assert(SETTING_WIDGET@ =~= "setting"@);
                assert(row@ == setting_row(*def, i as int, self.state()));
            }
            let ghost before = rows@;
            let ghost rv = row@;
            rows.push(row);
            assert(row_views(rows@) =~= row_views(before).push(rv));
            assert(Seq::new((i + 1) as nat, |j: int| setting_row(m.fields@[j], j, self.state())) =~= Seq::new(
                i as nat,
                |j: int| setting_row(m.fields@[j], j, self.state()),
            ).push(setting_row(m.fields@[i as int], i as int, self.state())));
            assert(row_views(rows@) =~= Seq::new((i + 1) as nat, |j: int| setting_row(m.fields@[j], j, self.state())));
            i = i + 1;
        }
        doc_ir(m, rows)
    }

    /// Removes the value of a plain field, unless it is required and has no
    /// default.
    fn unset(&mut self, def: &FieldDef, key: String) -> (r: Result<SettingsChange, EditError>)
        ensures
            final(self).manifest_of() == old(self).manifest_of(),
            (final(self).state(), change_result(r)) == unset_spec(*def, old(self).state(), key@),
    {
        let required = match def.required {
            Some(true) => true,
            _ => false,
        };
        if required && def.default.is_none() {
            return Err(EditError::InvalidValue { field: key, message: "is required and has no default".to_owned() });
        }
        without_exec(&mut self.values, key.as_str());
        Ok(SettingsChange::Unset { key })
    }

    /// Validates `edit`, updates the document, and returns the change to
    /// persist. On error nothing changes.
    pub fn apply(&mut self, edit: SettingsEdit) -> (r: Result<SettingsChange, EditError>)
        ensures
            final(self).manifest_of() == old(self).manifest_of(),
            (final(self).state(), change_result(r)) == apply_spec(old(self).manifest_of(), old(self).state(), edit@),
    {
        let manifest = self.manifest;
        let key = match &edit {
            SettingsEdit::SetValue { key, .. } => key.clone(),
            SettingsEdit::Unset { key } => key.clone(),
            SettingsEdit::SetSecret { key, .. } => key.clone(),
            SettingsEdit::ClearSecret { key } => key.clone(),
        };
        let def = match manifest.find_field(key.as_str()) {
            Some(d) => d,
            None => return Err(EditError::FieldNotFound(key, manifest.plugin.name.clone())),
        };
        if !def.field_type.is_secret() {
            match edit {
                SettingsEdit::SetValue { value, .. } => {
                    if value.is_null() {
                        return self.unset(def, key);
                    }
                    match validate_field_value(def, &value) {
                        Err(message) => Err(EditError::InvalidValue { field: key, message }),
                        Ok(()) => {
                            without_exec(&mut self.values, key.as_str());
                            let ghost before = self.values@;
                            self.values.push((key.clone(), value.duplicate()));
                            proof {
                                lemma_view_members(self.values@);
                                lemma_view_members(before);
                                assert(view_members(self.values@) =~= view_members(before).push((key@, value@)));
                            }
                            Ok(SettingsChange::SetValue { key, value })
                        },
                    }
                },
                SettingsEdit::Unset { .. } => self.unset(def, key),
                _ => {
                    let mut m = crate::text::concat3("'", key.as_str(), "' isn't a secret field");
                    Err(EditError::Unsupported(m))
                },
            }
        } else {
            match edit {
                SettingsEdit::SetSecret { value, .. } => match validate_secret(def, &value) {
                    Err(message) => Err(EditError::InvalidValue { field: key, message }),
                    Ok(()) => {
                        add_secret_exec(&mut self.secrets_set, key.as_str());
                        Ok(SettingsChange::StoreSecret { key, value })
                    },
                },
                SettingsEdit::SetValue { .. } => Err(
                    EditError::Unsupported(
                        crate::text::concat3(
                            "'",
                            key.as_str(),
                            "' is a secret; set it with SetSecret so the value never passes through plain JSON",
                        ),
                    ),
                ),
                _ => {
                    let required = match def.required {
                        Some(true) => true,
                        _ => false,
                    };
                    if required {
                        return Err(
                            EditError::InvalidValue {
                                field: key,
                                message: "is required; replace it instead of clearing it".to_owned(),
                            },
                        );
                    }
                    self.secrets_set = without_key_exec(&self.secrets_set, key.as_str());
                    Ok(SettingsChange::DeleteSecret { key })
                },
            }
        }
    }

    /// Applies a generic [`EditOp`], so a renderer written for file
    /// documents works here too. Rows are keyed by field name:
    /// `UpdateField` sets, `DeleteRow` unsets; rows can't be inserted or
    /// moved. Secret fields refuse `UpdateField`, since its value is plain JSON.
    pub fn apply_op(&mut self, op: &EditOp) -> (r: Result<SettingsChange, EditError>)
        ensures
            final(self).manifest_of() == old(self).manifest_of(),
            (final(self).state(), change_result(r)) == apply_op_spec(old(self).manifest_of(), old(self).state(), op@),
    {
        match op {
            EditOp::UpdateField { row_id, field_name, new_value } => {
                if !str_eq(row_id.as_str(), field_name.as_str()) {
                    return Err(EditError::FieldNotFound(field_name.clone(), row_id.clone()));
                }
                self.apply(SettingsEdit::SetValue { key: row_id.clone(), value: new_value.duplicate() })
            },
            EditOp::DeleteRow { row_id } => self.apply(SettingsEdit::Unset { key: row_id.clone() }),
            _ => Err(EditError::Unsupported("settings have one row per field; rows can't be added or moved".to_owned())),
        }
    }
}

} // verus!
