//! Values of `secret` fields (API tokens, passwords).
//!
//! A [`SecretValue`] can be moved around like any other value, but it never
//! shows itself by accident: its printed form is always [`REDACTED`]. The
//! only way to read it is [`SecretValue::expose`], which the host app calls
//! at the moment it hands the value to its vault or to the request that
//! needs it.
//!
//! Documents never keep secret values. Their IR only says whether a secret
//! is set (see [`secret_state`]).
use vstd::prelude::*;

use crate::json::{JsonV, JsonValue};

verus! {

/// What secrets print as, everywhere.
pub const REDACTED: &'static str = "[secret]";

/// A secret value that never prints itself.
#[derive(Clone, PartialEq, Eq)]
pub struct SecretValue(String);

impl SecretValue {
    pub closed spec fn value(&self) -> Seq<char> {
        self.0@
    }

    pub fn new(value: &str) -> (r: Self)
        ensures
            r.value() == value@,
    {
        SecretValue(value.to_owned())
    }

    /// The value itself. Call this only where the value is used (vault,
    /// outgoing request), never to display or log it.
    pub fn expose(&self) -> (r: &str)
        ensures
            r@ == self.value(),
    {
        self.0.as_str()
    }

    pub fn is_empty(&self) -> (r: bool)
        ensures
            r == (self.value().len() == 0),
    {
        self.0.as_str().unicode_len() == 0
    }

    /// How the secret is shown anywhere it is printed: always [`REDACTED`],
    /// whatever the value.
    pub fn to_text(&self) -> (r: &'static str)
        ensures
            r@ == REDACTED@,
    {
        REDACTED
    }

    /// A copy of the secret.
    pub fn duplicate(&self) -> (r: Self)
        ensures
            r.value() == self.value(),
    {
        SecretValue(self.0.clone())
    }
}

/// The IR value of a secret field: `{"set": true}` or `{"set": false}`.
pub open spec fn secret_state_spec(is_set: bool) -> JsonV {
    JsonV::Object(seq![("set"@, JsonV::Bool(is_set))])
}

/// The IR value of a secret field: `{"set": true}` or `{"set": false}`.
pub fn secret_state(is_set: bool) -> (r: JsonValue)
    ensures
        r@ == secret_state_spec(is_set),
{
    let mut members: Vec<(String, JsonValue)> = Vec::new();
    members.push(("set".to_owned(), JsonValue::Bool(is_set)));
    proof {
        crate::json::lemma_view_members(members@);
        assert(crate::json::view_members(members@) =~= seq![("set"@, JsonV::Bool(is_set))]);
    }
    JsonValue::Object(members)
}

} // verus!
