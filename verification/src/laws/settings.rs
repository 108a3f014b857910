//! Settings keep what was set, forget what was unset, never keep a secret
//! value, and are left alone by a refused edit.
use vstd::prelude::*;

use crate::json::JsonV;
use crate::rows::lookup;
use crate::schema::PluginManifest;
use crate::store::{SettingsChangeV, SettingsEditV, SettingsV, apply_spec, settings_ir, without};

verus! {

/// Settings: an edit that is refused changes nothing.
pub proof fn lemma_refused_edit_changes_nothing(m: PluginManifest, st: SettingsV, e: SettingsEditV)
    requires
        apply_spec(m, st, e).1 is Err,
    ensures
        apply_spec(m, st, e).0 == st,
{
}

/// Removing a key from a list of values leaves no value under that key.
pub proof fn lemma_without_has_no_key(vals: Seq<(Seq<char>, JsonV)>, k: Seq<char>)
    ensures
        lookup(without(vals, k), k) is None,
    decreases vals.len(),
{
    if vals.len() > 0 {
        lemma_without_has_no_key(vals.drop_last(), k);
        let w = without(vals.drop_last(), k);
        if vals.last().0 != k {
            assert(without(vals, k) == w.push(vals.last()));
            assert(w.push(vals.last()).drop_last() =~= w);
        } else {
            assert(without(vals, k) =~= w);
        }
    }
}

/// Settings: a value that was set reads back as set, and a value that was
/// unset reads back as unset.
pub proof fn lemma_settings_read_back(m: PluginManifest, st: SettingsV, e: SettingsEditV)
    requires
        apply_spec(m, st, e).1 is Ok,
    ensures
        match apply_spec(m, st, e).1 {
            Ok(SettingsChangeV::SetValue { key, value }) => lookup(apply_spec(m, st, e).0.values, key) == Some(value),
            Ok(SettingsChangeV::Unset { key }) => lookup(apply_spec(m, st, e).0.values, key) is None,
            Ok(SettingsChangeV::StoreSecret { key, .. }) => apply_spec(m, st, e).0.secrets.contains(key)
                && apply_spec(m, st, e).0.values == st.values,
            _ => apply_spec(m, st, e).0.values == st.values,
        },
{
    let key = crate::store::edit_key(e);
    lemma_without_has_no_key(st.values, key);
    let new = apply_spec(m, st, e).0;
    match apply_spec(m, st, e).1 {
        Ok(SettingsChangeV::SetValue { key: k, value }) => {
            assert(new.values == without(st.values, key).push((key, value)));
            assert(without(st.values, key).push((key, value)).drop_last() =~= without(st.values, key));
        },
        Ok(SettingsChangeV::StoreSecret { key: k, .. }) => {
            assert(new.secrets == crate::store::add_secret(st.secrets, key));
            if !st.secrets.contains(key) {
                assert(st.secrets.push(key)[st.secrets.len() as int] == key);
            }
        },
        _ => {},
    }
}

/// Settings: a secret's value is never kept. Setting a secret to two
/// different values that both pass the check leaves the same document, and
/// so the same IR, with the stored plain values unchanged.
pub proof fn lemma_secret_value_never_kept(m: PluginManifest, st: SettingsV, key: Seq<char>, a: Seq<char>, b: Seq<char>)
    requires
        apply_spec(m, st, SettingsEditV::SetSecret { key, value: a }).1 is Ok,
        apply_spec(m, st, SettingsEditV::SetSecret { key, value: b }).1 is Ok,
    ensures
        apply_spec(m, st, SettingsEditV::SetSecret { key, value: a }).0 == apply_spec(
            m,
            st,
            SettingsEditV::SetSecret { key, value: b },
        ).0,
        apply_spec(m, st, SettingsEditV::SetSecret { key, value: a }).0.values == st.values,
        settings_ir(m, apply_spec(m, st, SettingsEditV::SetSecret { key, value: a }).0) == settings_ir(
            m,
            apply_spec(m, st, SettingsEditV::SetSecret { key, value: b }).0,
        ),
{
}

} // verus!
