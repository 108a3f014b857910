//! Field values validate as their type says.
use vstd::prelude::*;

use crate::json::{JsonV, NumV};
use crate::schema::{field_value_check, FieldDef, FieldType};

verus! {

/// A field of type `bool` takes every JSON boolean, `true` as well as
/// `false`, and the words `yes`, `no`, `true`, `false`, `on`, `off`, `1`,
/// `0`; it refuses numbers, arrays and objects.
pub proof fn lemma_booleans_validate(def: FieldDef, b: bool, v: JsonV)
    requires
        def.field_type == FieldType::Bool,
    ensures
        field_value_check(def, JsonV::Bool(b)) == Ok::<(), Seq<char>>(()),
        field_value_check(def, JsonV::String("yes"@)) is Ok,
        field_value_check(def, JsonV::String("no"@)) is Ok,
        field_value_check(def, JsonV::String("true"@)) is Ok,
        field_value_check(def, JsonV::String("false"@)) is Ok,
        field_value_check(def, JsonV::String("on"@)) is Ok,
        field_value_check(def, JsonV::String("off"@)) is Ok,
        field_value_check(def, JsonV::String("1"@)) is Ok,
        field_value_check(def, JsonV::String("0"@)) is Ok,
        (v is Number || v is Array || v is Object) ==> field_value_check(def, v) is Err,
{
}

/// A missing value (`null`) is refused exactly when the field is required,
/// whatever its type.
pub proof fn lemma_null_is_refused_exactly_when_required(def: FieldDef)
    ensures
        field_value_check(def, JsonV::Null) is Ok <==> def.required != Some(true),
{
}

/// A port is a whole number from 1 to 65535.
pub proof fn lemma_ports_range(def: FieldDef, u: u64)
    requires
        def.field_type == FieldType::Port,
    ensures
        field_value_check(def, JsonV::Number(NumV::PosInt(u))) is Ok <==> 1 <= u <= 65535,
{
}

/// An integer field takes exactly the whole numbers within its bounds.
pub proof fn lemma_integers_within_bounds(def: FieldDef, n: i64)
    requires
        def.field_type == FieldType::Integer,
    ensures
        field_value_check(def, JsonV::Number(NumV::NegInt(n))) is Ok <==> ((def.min is None || def.min->0 <= n) && (
            def.max is None || n <= def.max->0)),
{
}

/// An enum field takes exactly the strings among its options' values (any
/// string when it lists none) and refuses every value that is not a string.
pub proof fn lemma_enums_take_their_options(def: FieldDef, s: Seq<char>, v: JsonV)
    requires
        def.field_type == FieldType::Enum,
    ensures
        def.options is Some ==> (field_value_check(def, JsonV::String(s)) is Ok <==> exists|i: int|
            0 <= i < def.options->0@.len() && (#[trigger] def.options->0@[i]).value@ == s),
        def.options is None ==> field_value_check(def, JsonV::String(s)) is Ok,
        (v is Bool || v is Number || v is Array || v is Object) ==> field_value_check(def, v) is Err,
{
    if def.options is Some {
        let vals = crate::schema::option_values(def.options->0@);
        if vals.contains(s) {
            let i = choose|i: int| 0 <= i < vals.len() && vals[i] == s;
            assert(def.options->0@[i].value@ == s);
        }
        if exists|i: int| 0 <= i < def.options->0@.len() && (#[trigger] def.options->0@[i]).value@ == s {
            let i = choose|i: int| 0 <= i < def.options->0@.len() && (#[trigger] def.options->0@[i]).value@ == s;
            assert(vals[i] == s);
        }
    }
}

/// A string list takes exactly the arrays of strings (non-empty ones when
/// the field is required) and refuses every value that is not an array.
pub proof fn lemma_string_lists_take_arrays_of_strings(def: FieldDef, items: Seq<JsonV>, v: JsonV)
    requires
        def.field_type == FieldType::StringList,
    ensures
        field_value_check(def, JsonV::Array(items)) is Ok <==> ((forall|i: int| 0 <= i < items.len() ==> (#[trigger] items[i]) is String)
            && !(def.required == Some(true) && items.len() == 0)),
        (v is Bool || v is Number || v is String || v is Object) ==> field_value_check(def, v) is Err,
{
}

/// A plain string field takes every string and refuses every other value.
pub proof fn lemma_strings_take_strings(def: FieldDef, s: Seq<char>, v: JsonV)
    requires
        def.field_type == FieldType::String,
    ensures
        field_value_check(def, JsonV::String(s)) is Ok,
        (v is Bool || v is Number || v is Array || v is Object) ==> field_value_check(def, v) is Err,
{
}

} // verus!
