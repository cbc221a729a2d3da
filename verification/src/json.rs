//! JSON documents, as the JSON protocols read them: each value reachable
//! from the root through object members, by its path of keys.

use vstd::prelude::*;

use serde_json::Value;

use crate::numbers::{parse_dec_i64, parse_dec_i64_of};
use crate::text::{chars_eq, chars_of};

verus! {

/// What a JSON value is. A number is held as the text `serde_json` prints
/// for it; arrays and objects as markers, their members as entries of their
/// own.
#[derive(Debug, Clone, PartialEq)]
pub enum JsonKind {
    Null,
    Bool(bool),
    Number(String),
    Str(String),
    Array,
    Object,
}

/// A value reached from the root through object members with these keys.
#[derive(Debug, Clone, PartialEq)]
pub struct JsonEntry {
    pub path: Vec<String>,
    pub kind: JsonKind,
}

/// A JSON document: the root's object members and theirs, each path once.
#[derive(Debug, Clone, PartialEq)]
pub struct JsonDocument {
    pub entries: Vec<JsonEntry>,
}

pub open spec fn path_view(p: Seq<String>) -> Seq<Seq<char>> {
    p.map_values(|s: String| s@)
}

/// The value at the path: the first entry with it.
pub open spec fn json_at(entries: Seq<JsonEntry>, path: Seq<Seq<char>>) -> Option<JsonKind>
    decreases entries.len(),
{
    if entries.len() == 0 {
        None
    } else if path_view(entries[0].path@) == path {
        Some(entries[0].kind)
    } else {
        json_at(entries.drop_first(), path)
    }
}

pub open spec fn json_str(v: Option<JsonKind>) -> Option<Seq<char>> {
    match v {
        Some(JsonKind::Str(s)) => Some(s@),
        _ => None,
    }
}

pub open spec fn json_bool(v: Option<JsonKind>) -> Option<bool> {
    match v {
        Some(JsonKind::Bool(b)) => Some(b),
        _ => None,
    }
}

/// `as_f64`, kept as the number's text.
pub open spec fn json_number(v: Option<JsonKind>) -> Option<Seq<char>> {
    match v {
        Some(JsonKind::Number(t)) => Some(t@),
        _ => None,
    }
}

/// `as_i64`: a number written as an integer that fits in 64 bits.
pub open spec fn json_i64(v: Option<JsonKind>) -> Option<i64> {
    match v {
        Some(JsonKind::Number(t)) => parse_dec_i64(t@),
        _ => None,
    }
}

fn path_eq(p: &Vec<String>, q: &Vec<&str>) -> (r: bool)
    ensures
        r == (path_view(p@) == q@.map_values(|s: &str| s@)),
{
    let ghost pv = path_view(p@);
    let ghost qv = q@.map_values(|s: &str| s@);
    if p.len() != q.len() {
        assert(pv.len() != qv.len());
        return false;
    }
    let mut i: usize = 0;
    while i < p.len()
        invariant
            i <= p@.len(),
            p@.len() == q@.len(),
            pv == path_view(p@),
            qv == q@.map_values(|s: &str| s@),
            forall|k: int| 0 <= k < i ==> pv[k] == qv[k],
        decreases p.len() - i,
    {
        let a = chars_of(p[i].as_str());
        let b = chars_of(q[i]);
        if !chars_eq(&a, &b) {
            assert(pv[i as int] != qv[i as int]);
            return false;
        }
        i = i + 1;
    }
    assert(pv =~= qv);
    true
}

impl JsonDocument {
    /// The value at the path of keys.
    pub fn at(&self, path: &Vec<&str>) -> (r: Option<&JsonKind>)
        ensures
            match r {
                Some(x) => json_at(self.entries@, path@.map_values(|s: &str| s@)) == Some(*x),
                None => json_at(self.entries@, path@.map_values(|s: &str| s@)) is None,
            },
    {
        let ghost key = path@.map_values(|s: &str| s@);
        let mut i: usize = 0;
        assert(self.entries@.skip(0) =~= self.entries@);
        while i < self.entries.len()
            invariant
                i <= self.entries@.len(),
                key == path@.map_values(|s: &str| s@),
                json_at(self.entries@, key) == json_at(self.entries@.skip(i as int), key),
            decreases self.entries.len() - i,
        {
            let e = &self.entries[i];
            if path_eq(&e.path, path) {
                return Some(&e.kind);
            }
            assert(self.entries@.skip(i as int).drop_first() =~= self.entries@.skip(i as int + 1));
            i = i + 1;
        }
        None
    }
}

pub open spec fn opt(v: Option<&JsonKind>) -> Option<JsonKind> {
    match v {
        Some(x) => Some(*x),
        None => None,
    }
}

pub fn as_str(v: Option<&JsonKind>) -> (r: Option<&String>)
    ensures
        match r {
            Some(s) => json_str(opt(v)) == Some(s@),
            None => json_str(opt(v)) is None,
        },
{
    match v {
        Some(JsonKind::Str(s)) => Some(s),
        _ => None,
    }
}

pub fn as_bool(v: Option<&JsonKind>) -> (r: Option<bool>)
    ensures
        r == json_bool(opt(v)),
{
    match v {
        Some(JsonKind::Bool(b)) => Some(*b),
        _ => None,
    }
}

pub fn as_number(v: Option<&JsonKind>) -> (r: Option<&String>)
    ensures
        match r {
            Some(t) => json_number(opt(v)) == Some(t@),
            None => json_number(opt(v)) is None,
        },
{
    match v {
        Some(JsonKind::Number(t)) => Some(t),
        _ => None,
    }
}

pub fn as_i64(v: Option<&JsonKind>) -> (r: Option<i64>)
    ensures
        r == json_i64(opt(v)),
{
    match v {
        Some(JsonKind::Number(t)) => {
            let c = chars_of(t.as_str());
            parse_dec_i64_of(&c)
        },
        _ => None,
    }
}


#[verifier::external_type_specification]
#[verifier::external_body]
pub struct ExJsonValue(serde_json::Value);

/// What `serde_json::from_str` makes of the text: the value it parses, as
/// a document, or the message of its error.
pub uninterp spec fn json_parsed(text: Seq<char>) -> Result<JsonDocument, Seq<char>>;

/// Adds the entries of a parsed value found at `path`: its own, then those
/// of its object members, in the order `serde_json` keeps them.
#[verifier::external_body]
fn flatten_json(v: &Value, path: &Vec<String>, out: &mut Vec<JsonEntry>) {
    let kind = match v {
        Value::Null => JsonKind::Null,
        Value::Bool(b) => JsonKind::Bool(*b),
        Value::Number(n) => JsonKind::Number(n.to_string()),
        Value::String(t) => JsonKind::Str(t.clone()),
        Value::Array(_) => JsonKind::Array,
        Value::Object(_) => JsonKind::Object,
    };
    out.push(JsonEntry { path: path.clone(), kind });
    for (k, m) in v.as_object().into_iter().flatten() {
        flatten_json(m, &[path.clone(), vec![k.clone()]].concat(), out);
    }
}

/// `serde_json::from_str::<Value>`: the parsed document, or the error's
/// message. What it parses is left to the name `json_parsed`.
#[verifier::external_body]
pub(crate) fn parse_json(text: &str) -> (r: Result<JsonDocument, String>)
    ensures
        match r {
            Ok(d) => json_parsed(text@) == Ok::<JsonDocument, Seq<char>>(d),
            Err(m) => json_parsed(text@) == Err::<JsonDocument, Seq<char>>(m@),
        },
{
    match serde_json::from_str::<Value>(text) {
        Ok(v) => {
            let mut entries = Vec::new();
            flatten_json(&v, &Vec::new(), &mut entries);
            Ok(JsonDocument { entries })
        },
        Err(e) => Err(e.to_string()),
    }
}

} // verus!
