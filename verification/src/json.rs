//! JSON values as the IR and the edit operations carry them.
use vstd::prelude::*;

use crate::text::{dec, dec_string, push_char, push_dec};

verus! {

/// A JSON number: a non-negative or a negative integer, or a float kept as
/// the text it is written as.
#[derive(Debug, PartialEq)]
pub enum JsonNumber {
    PosInt(u64),
    NegInt(i64),
    Float(String),
}

/// A JSON value. Objects keep their members in order.
#[derive(Debug, PartialEq)]
pub enum JsonValue {
    Null,
    Bool(bool),
    Number(JsonNumber),
    String(String),
    Array(Vec<JsonValue>),
    Object(Vec<(String, JsonValue)>),
}

pub enum NumV {
    PosInt(u64),
    NegInt(i64),
    Float(Seq<char>),
}

/// The mathematical value of a [`JsonValue`].
pub enum JsonV {
    Null,
    Bool(bool),
    Number(NumV),
    String(Seq<char>),
    Array(Seq<JsonV>),
    Object(Seq<(Seq<char>, JsonV)>),
}

pub open spec fn view_num(n: JsonNumber) -> NumV {
    match n {
        JsonNumber::PosInt(u) => NumV::PosInt(u),
        JsonNumber::NegInt(i) => NumV::NegInt(i),
        JsonNumber::Float(t) => NumV::Float(t@),
    }
}

pub open spec fn view_json(v: JsonValue) -> JsonV
    decreases v,
{
    match v {
        JsonValue::Null => JsonV::Null,
        JsonValue::Bool(b) => JsonV::Bool(b),
        JsonValue::Number(n) => JsonV::Number(view_num(n)),
        JsonValue::String(s) => JsonV::String(s@),
        JsonValue::Array(a) => JsonV::Array(view_jsons(a@)),
        JsonValue::Object(m) => JsonV::Object(view_members(m@)),
    }
}

pub open spec fn view_jsons(s: Seq<JsonValue>) -> Seq<JsonV>
    decreases s,
{
    if s.len() == 0 {
        Seq::empty()
    } else {
        view_jsons(s.subrange(0, s.len() - 1)).push(view_json(s[s.len() - 1]))
    }
}

pub open spec fn view_members(s: Seq<(String, JsonValue)>) -> Seq<(Seq<char>, JsonV)>
    decreases s,
{
    if s.len() == 0 {
        Seq::empty()
    } else {
        view_members(s.subrange(0, s.len() - 1)).push((s[s.len() - 1].0@, view_json(s[s.len() - 1].1)))
    }
}

impl View for JsonValue {
    type V = JsonV;

    open spec fn view(&self) -> JsonV {
        view_json(*self)
    }
}

pub proof fn lemma_view_jsons(s: Seq<JsonValue>)
    ensures
        view_jsons(s).len() == s.len(),
        forall|i: int| 0 <= i < s.len() ==> #[trigger] view_jsons(s)[i] == view_json(s[i]),
    decreases s.len(),
{
    if s.len() > 0 {
        lemma_view_jsons(s.subrange(0, s.len() - 1));
    }
}

pub proof fn lemma_view_members(s: Seq<(String, JsonValue)>)
    ensures
        view_members(s).len() == s.len(),
        forall|i: int| 0 <= i < s.len() ==> #[trigger] view_members(s)[i] == (s[i].0@, view_json(s[i].1)),
    decreases s.len(),
{
    if s.len() > 0 {
        lemma_view_members(s.subrange(0, s.len() - 1));
    }
}

/// The text a number is written as.
pub open spec fn num_text(n: NumV) -> Seq<char> {
    match n {
        NumV::PosInt(u) => dec(u as nat),
        NumV::NegInt(i) => if i < 0 {
            seq!['-'] + dec((-i) as nat)
        } else {
            dec(i as nat)
        },
        NumV::Float(t) => t,
    }
}

/// `as_i64`: integers that fit in `i64`.
pub open spec fn json_as_i64(v: JsonV) -> Option<int> {
    match v {
        JsonV::Number(NumV::PosInt(u)) => if u <= i64::MAX {
            Some(u as int)
        } else {
            None
        },
        JsonV::Number(NumV::NegInt(i)) => Some(i as int),
        _ => None,
    }
}

/// `as_u64`: non-negative integers.
pub open spec fn json_as_u64(v: JsonV) -> Option<u64> {
    match v {
        JsonV::Number(NumV::PosInt(u)) => Some(u),
        JsonV::Number(NumV::NegInt(i)) => if i >= 0 {
            Some(i as u64)
        } else {
            None
        },
        _ => None,
    }
}

impl JsonNumber {
    pub fn duplicate(&self) -> (r: Self)
        ensures
            view_num(r) == view_num(*self),
    {
        match self {
            JsonNumber::PosInt(u) => JsonNumber::PosInt(*u),
            JsonNumber::NegInt(i) => JsonNumber::NegInt(*i),
            JsonNumber::Float(t) => JsonNumber::Float(t.clone()),
        }
    }

    /// The text the number is written as.
    pub fn to_text(&self) -> (r: String)
        ensures
            r@ == num_text(view_num(*self)),
    {
        match self {
            JsonNumber::PosInt(u) => dec_string(*u),
            JsonNumber::NegInt(i) => {
                if *i < 0 {
                    let mut s = String::new();
                    push_char(&mut s, '-');
                    let m: u64 = if *i == i64::MIN {
                        0x8000_0000_0000_0000u64
                    } else {
                        (-*i) as u64
                    };
                    push_dec(&mut s, m);
                    assert(s@ =~= seq!['-'] + dec((-*i) as nat));
                    s
                } else {
                    dec_string(*i as u64)
                }
            },
            JsonNumber::Float(t) => t.clone(),
        }
    }
}

impl JsonValue {
    /// A copy of this value.
    #[verifier::loop_isolation(false)]
    pub fn duplicate(&self) -> (r: Self)
        ensures
            r@ == self@,
        decreases self,
    {
        match self {
            JsonValue::Null => JsonValue::Null,
            JsonValue::Bool(b) => JsonValue::Bool(*b),
            JsonValue::Number(n) => JsonValue::Number(n.duplicate()),
            JsonValue::String(s) => JsonValue::String(s.clone()),
            JsonValue::Array(a) => {
                let mut out: Vec<JsonValue> = Vec::new();
                let mut i: usize = 0;
                proof {
                    lemma_view_jsons(a@);
                }
                while i < a.len()
                    invariant
                        i <= a@.len(),
                        view_jsons(out@) == view_jsons(a@).subrange(0, i as int),
                    decreases a@.len() - i,
                {
                    proof {
                        assert(decreases_to!(*a => a@));
                        assert(decreases_to!(a@ => a@[i as int]));
                    }
                    let x = a[i].duplicate();
                    let ghost before = out@;
                    out.push(x);
                    proof {
                        assert(out@.subrange(0, out@.len() - 1) =~= before);
                        assert(view_jsons(a@).subrange(0, i + 1) =~= view_jsons(a@).subrange(0, i as int).push(view_json(a@[i as int])));
                    }
                    i = i + 1;
                }
                assert(view_jsons(a@).subrange(0, a@.len() as int) =~= view_jsons(a@));
                JsonValue::Array(out)
            },
            JsonValue::Object(m) => {
                let mut out: Vec<(String, JsonValue)> = Vec::new();
                let mut i: usize = 0;
                proof {
                    lemma_view_members(m@);
                }
                while i < m.len()
                    invariant
                        i <= m@.len(),
                        view_members(out@) == view_members(m@).subrange(0, i as int),
                    decreases m@.len() - i,
                {
                    proof {
                        assert(decreases_to!(*m => m@));
                        assert(decreases_to!(m@ => m@[i as int]));
                        assert(decreases_to!(m@[i as int] => m@[i as int].1));
                    }
                    let k = m[i].0.clone();
                    let x = m[i].1.duplicate();
                    let ghost before = out@;
                    out.push((k, x));
                    proof {
                        assert(out@.subrange(0, out@.len() - 1) =~= before);
                        assert(view_members(m@).subrange(0, i + 1) =~= view_members(m@).subrange(0, i as int).push(
                            (m@[i as int].0@, view_json(m@[i as int].1)),
                        ));
                    }
                    i = i + 1;
                }
                assert(view_members(m@).subrange(0, m@.len() as int) =~= view_members(m@));
                JsonValue::Object(out)
            },
        }
    }

    pub fn is_null(&self) -> (r: bool)
        ensures
            r == (self@ is Null),
    {
        match self {
            JsonValue::Null => true,
            _ => false,
        }
    }

    pub fn is_boolean(&self) -> (r: bool)
        ensures
            r == (self@ is Bool),
    {
        match self {
            JsonValue::Bool(_) => true,
            _ => false,
        }
    }

    pub fn is_string(&self) -> (r: bool)
        ensures
            r == (self@ is String),
    {
        match self {
            JsonValue::String(_) => true,
            _ => false,
        }
    }

    pub fn as_str(&self) -> (r: Option<&str>)
        ensures
            self@ is String ==> (r matches Some(s) && s@ == self@->String_0),
            !(self@ is String) ==> r is None,
    {
        match self {
            JsonValue::String(s) => Some(s.as_str()),
            _ => None,
        }
    }

    pub fn as_array(&self) -> (r: Option<&Vec<JsonValue>>)
        ensures
            self@ is Array ==> (r matches Some(a) && view_jsons(a@) == self@->Array_0),
            !(self@ is Array) ==> r is None,
    {
        match self {
            JsonValue::Array(a) => Some(a),
            _ => None,
        }
    }

    pub fn as_u64(&self) -> (r: Option<u64>)
        ensures
            r == json_as_u64(self@),
    {
        match self {
            JsonValue::Number(JsonNumber::PosInt(u)) => Some(*u),
            JsonValue::Number(JsonNumber::NegInt(i)) => if *i >= 0 {
                Some(*i as u64)
            } else {
                None
            },
            _ => None,
        }
    }

    pub fn as_i64(&self) -> (r: Option<i64>)
        ensures
            r == (match json_as_i64(self@) {
                Some(v) => Some(v as i64),
                None => None,
            }),
    {
        match self {
            JsonValue::Number(JsonNumber::PosInt(u)) => if *u <= 0x7fff_ffff_ffff_ffffu64 {
                Some(*u as i64)
            } else {
                None
            },
            JsonValue::Number(JsonNumber::NegInt(i)) => Some(*i),
            _ => None,
        }
    }

    /// A JSON string holding `s`.
    pub fn from_str(s: &str) -> (r: Self)
        ensures
            r@ == JsonV::String(s@),
    {
        JsonValue::String(s.to_owned())
    }
}

} // verus!
