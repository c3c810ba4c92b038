//! The language-model port: requests, responses, errors, and the prompt
//! fingerprint fakes key their canned answers by.
//!
//! Structured responses are carried as `JsonValue`, a plain JSON tree; a
//! request's schema is carried as its compact JSON text.

use vstd::prelude::*;

use crate::search::{first_where, lemma_first_where, lemma_first_where_none};
use crate::text::push_str;

verus! {

/// A JSON document as plain values. Numbers keep their JSON text; an
/// object keeps its members in order.
#[derive(Debug)]
pub enum JsonValue {
    Null,
    Bool(bool),
    Number(String),
    String(String),
    Array(Vec<JsonValue>),
    Object(Vec<(String, JsonValue)>),
}

/// A JSON document as mathematical values.
pub enum JsonModel {
    Null,
    Bool(bool),
    Number(Seq<char>),
    String(Seq<char>),
    Array(Seq<JsonModel>),
    Object(Seq<(Seq<char>, JsonModel)>),
}

/// The mathematical value of a JSON document.
pub open spec fn json_model(v: JsonValue) -> JsonModel
    decreases v,
{
    match v {
        JsonValue::Null => JsonModel::Null,
        JsonValue::Bool(b) => JsonModel::Bool(b),
        JsonValue::Number(n) => JsonModel::Number(n@),
        JsonValue::String(s) => JsonModel::String(s@),
        JsonValue::Array(items) => JsonModel::Array(
            Seq::new(
                items@.len(),
                |i: int|
                    if 0 <= i < items@.len() {
                        proof {
                            broadcast use vstd::std_specs::vec::group_vec_axioms;

                            assert(decreases_to!(items => items@));
                        }
                        json_model(items@[i])
                    } else {
                        JsonModel::Null
                    },
            ),
        ),
        JsonValue::Object(members) => JsonModel::Object(
            Seq::new(
                members@.len(),
                |i: int|
                    if 0 <= i < members@.len() {
                        proof {
                            broadcast use vstd::std_specs::vec::group_vec_axioms;

                            assert(decreases_to!(members => members@));
                        }
                        (members@[i].0@, json_model(members@[i].1))
                    } else {
                        (Seq::empty(), JsonModel::Null)
                    },
            ),
        ),
    }
}

impl View for JsonValue {
    type V = JsonModel;

    open spec fn view(&self) -> JsonModel {
        json_model(*self)
    }
}

/// The object member is named `key`.
pub open spec fn member_named(key: Seq<char>) -> spec_fn((Seq<char>, JsonModel)) -> bool {
    |m: (Seq<char>, JsonModel)| m.0 == key
}

/// The member `key` of an object, if it is an object with such a member
/// (the first one, should the key repeat).
pub open spec fn json_get(v: JsonModel, key: Seq<char>) -> Option<JsonModel> {
    match v {
        JsonModel::Object(members) => match first_where(members, member_named(key)) {
            Some(i) => Some(members[i].1),
            None => None,
        },
        _ => None,
    }
}

impl JsonValue {
    /// A deep copy.
    pub fn duplicate(&self) -> (r: JsonValue)
        ensures
            r@ == self@,
        decreases self,
    {
        broadcast use vstd::std_specs::vec::group_vec_axioms;

        match self {
            JsonValue::Null => JsonValue::Null,
            JsonValue::Bool(b) => JsonValue::Bool(*b),
            JsonValue::Number(n) => JsonValue::Number(n.clone()),
            JsonValue::String(s) => JsonValue::String(s.clone()),
            JsonValue::Array(items) => {
                let mut out: Vec<JsonValue> = Vec::new();
                let mut i: usize = 0;
                while i < items.len()
                    invariant
                        i <= items.len(),
                        *self == JsonValue::Array(*items),
                        out@.len() == i,
                        forall|j: int| 0 <= j < i ==> (#[trigger] out@[j])@ == items@[j]@,
                    decreases items.len() - i,
                {
                    assert(decreases_to!(*self => items@[i as int])) by {
                        assert(decreases_to!(*self => self->Array_0));
                        assert(decreases_to!(*items => items@));
                        assert(decreases_to!(items@ => items@[i as int]));
                    }
                    let x = items[i].duplicate();
                    out.push(x);
                    i = i + 1;
                }
                let r = JsonValue::Array(out);
                assert(json_model(r) == json_model(*self)) by {
                    if let JsonModel::Array(a) = json_model(r) {
                        if let JsonModel::Array(b) = json_model(*self) {
                            assert(a =~= b);
                        }
                    }
                }
                r
            },
            JsonValue::Object(members) => {
                let mut out: Vec<(String, JsonValue)> = Vec::new();
                let mut i: usize = 0;
                while i < members.len()
                    invariant
                        i <= members.len(),
                        *self == JsonValue::Object(*members),
                        out@.len() == i,
                        forall|j: int|
                            0 <= j < i ==> (#[trigger] out@[j]).0@ == members@[j].0@ && out@[j].1@
                                == members@[j].1@,
                    decreases members.len() - i,
                {
                    assert(decreases_to!(*self => members@[i as int].1)) by {
                        assert(decreases_to!(*self => self->Object_0));
                        assert(decreases_to!(*members => members@));
                        assert(decreases_to!(members@ => members@[i as int]));
                        assert(decreases_to!(members@[i as int] => members@[i as int].1));
                    }
                    let k = members[i].0.clone();
                    let x = members[i].1.duplicate();
                    out.push((k, x));
                    i = i + 1;
                }
                let r = JsonValue::Object(out);
                assert(json_model(r) == json_model(*self)) by {
                    if let JsonModel::Object(a) = json_model(r) {
                        if let JsonModel::Object(b) = json_model(*self) {
                            assert(a =~= b);
                        }
                    }
                }
                r
            },
        }
    }

    /// The member `key`, when this is an object that has one.
    pub fn get(&self, key: &str) -> (r: Option<&JsonValue>)
        ensures
            match r {
                Some(x) => json_get(self@, key@) == Some(x@),
                None => json_get(self@, key@) is None,
            },
    {
        match self {
            JsonValue::Object(members) => {
                let k = key.to_owned();
                let ghost ms = match self@ {
                    JsonModel::Object(ms) => ms,
                    _ => Seq::empty(),
                };
                assert(self@ == JsonModel::Object(ms));
                assert(ms.len() == members@.len());
                let ghost p = member_named(key@);
                let mut i: usize = 0;
                while i < members.len()
                    invariant
                        i <= members.len(),
                        k@ == key@,
                        self@ == JsonModel::Object(ms),
                        ms.len() == members@.len(),
                        forall|j: int| 0 <= j < members@.len() ==> #[trigger] ms[j] == (members@[j].0@, members@[j].1@),
                        p == member_named(key@),
                        forall|j: int| 0 <= j < i ==> !p(#[trigger] ms[j]),
                    decreases members.len() - i,
                {
                    assert(ms[i as int] == (members@[i as int].0@, members@[i as int].1@));
                    if members[i].0 == k {
                        proof {
                            lemma_first_where(ms, p, i as int);
                        }
                        assert(json_get(self@, key@) == Some(ms[i as int].1));
                        return Some(&members[i].1);
                    }
                    i = i + 1;
                }
                proof {
                    crate::search::lemma_first_where_none(ms, p);
                }
                None
            },
            _ => None,
        }
    }

    /// Whether this is an object.
    pub fn is_object(&self) -> (r: bool)
        ensures
            r == (self@ is Object),
    {
        matches!(self, JsonValue::Object(_))
    }
}

/// The text of a JSON string value.
pub open spec fn as_text(x: JsonModel) -> Option<Seq<char>> {
    match x {
        JsonModel::String(t) => Some(t),
        _ => None,
    }
}

/// The text of the string member `key`.
pub open spec fn member_text(v: JsonModel, key: Seq<char>) -> Option<Seq<char>> {
    match json_get(v, key) {
        Some(x) => as_text(x),
        None => None,
    }
}

/// The string elements of the array member `key` (other elements are
/// skipped; no such array gives none).
pub open spec fn member_texts(v: JsonModel, key: Seq<char>) -> Seq<Seq<char>> {
    match json_get(v, key) {
        Some(JsonModel::Array(items)) => items.filter_map(|x: JsonModel| as_text(x)),
        _ => Seq::empty(),
    }
}

/// An action item read from JSON: an object with a string `description`,
/// and the string `owner` when there is one.
pub open spec fn as_action(x: JsonModel) -> Option<(Seq<char>, Option<Seq<char>>)> {
    match x {
        JsonModel::Object(_) => match member_text(x, "description"@) {
            Some(d) => Some((d, member_text(x, "owner"@))),
            None => None,
        },
        _ => None,
    }
}

/// The action items of the array member `key`.
pub open spec fn member_actions(v: JsonModel, key: Seq<char>) -> Seq<(Seq<char>, Option<Seq<char>>)> {
    match json_get(v, key) {
        Some(JsonModel::Array(items)) => items.filter_map(|x: JsonModel| as_action(x)),
        _ => Seq::empty(),
    }
}

/// The text of the string member `key`.
pub fn text_member<'a>(v: &'a JsonValue, key: &str) -> (r: Option<&'a String>)
    ensures
        match r {
            Some(t) => member_text(v@, key@) == Some(t@),
            None => member_text(v@, key@) is None,
        },
{
    match v.get(key) {
        Some(JsonValue::String(t)) => Some(t),
        _ => None,
    }
}

/// The string elements of the array member `key`.
pub fn texts_member(v: &JsonValue, key: &str) -> (r: Vec<String>)
    ensures
        r@.map_values(|t: String| t@) == member_texts(v@, key@),
{
    match v.get(key) {
        Some(JsonValue::Array(items)) => {
            let ghost m = match json_get(v@, key@) {
                Some(JsonModel::Array(ms)) => ms,
                _ => Seq::empty(),
            };
            let ghost f = |x: JsonModel| as_text(x);
            assert(m.len() == items@.len());
            let mut out: Vec<String> = Vec::new();
            let mut i: usize = 0;
            while i < items.len()
                invariant
                    i <= items.len(),
                    m.len() == items@.len(),
                    forall|j: int| 0 <= j < items@.len() ==> #[trigger] m[j] == items@[j]@,
                    f == (|x: JsonModel| as_text(x)),
                    member_texts(v@, key@) == m.filter_map(f),
                    out@.map_values(|t: String| t@) == m.take(i as int).filter_map(f),
                decreases items.len() - i,
            {
                let ghost before = out@.map_values(|t: String| t@);
                proof {
                    m.lemma_filter_map_take_succ(f, i as int);
                }
                assert(m[i as int] == items@[i as int]@);
                match &items[i] {
                    JsonValue::String(t) => {
                        out.push(t.clone());
                        assert(out@.map_values(|t: String| t@) =~= before + seq![t@]);
                    },
                    _ => {
                        assert(out@.map_values(|t: String| t@) =~= before + Seq::<Seq<char>>::empty());
                    },
                }
                i = i + 1;
            }
            assert(m.take(m.len() as int) =~= m);
            out
        },
        _ => {
            let out: Vec<String> = Vec::new();
            assert(out@.map_values(|t: String| t@) =~= Seq::<Seq<char>>::empty());
            out
        },
    }
}

/// The action items of the array member `key`: description and owner.
pub fn actions_member(v: &JsonValue, key: &str) -> (r: Vec<(String, Option<String>)>)
    ensures
        r@.map_values(|a: (String, Option<String>)| (a.0@, crate::storage::opt_view(a.1)))
            == member_actions(v@, key@),
{
    match v.get(key) {
        Some(JsonValue::Array(items)) => {
            let ghost m = match json_get(v@, key@) {
                Some(JsonModel::Array(ms)) => ms,
                _ => Seq::empty(),
            };
            let ghost f = |x: JsonModel| as_action(x);
            let mut out: Vec<(String, Option<String>)> = Vec::new();
            let mut i: usize = 0;
            while i < items.len()
                invariant
                    i <= items.len(),
                    m.len() == items@.len(),
                    forall|j: int| 0 <= j < items@.len() ==> #[trigger] m[j] == items@[j]@,
                    f == (|x: JsonModel| as_action(x)),
                    member_actions(v@, key@) == m.filter_map(f),
                    out@.map_values(
                        |a: (String, Option<String>)| (a.0@, crate::storage::opt_view(a.1)),
                    ) == m.take(i as int).filter_map(f),
                decreases items.len() - i,
            {
                let ghost before = out@.map_values(
                    |a: (String, Option<String>)| (a.0@, crate::storage::opt_view(a.1)),
                );
                proof {
                    m.lemma_filter_map_take_succ(f, i as int);
                }
                let x = &items[i];
                assert(m[i as int] == x@);
                let entry: Option<(String, Option<String>)> = if x.is_object() {
                    match text_member(x, "description") {
                        Some(d) => {
                            let owner = match text_member(x, "owner") {
                                Some(o) => Some(o.clone()),
                                None => None,
                            };
                            Some((d.clone(), owner))
                        },
                        None => None,
                    }
                } else {
                    None
                };
                match entry {
                    Some(e) => {
                        let ghost ev = (e.0@, crate::storage::opt_view(e.1));
                        assert(f(m[i as int]) == Some(ev));
                        out.push(e);
                        assert(out@.map_values(
                            |a: (String, Option<String>)| (a.0@, crate::storage::opt_view(a.1)),
                        ) =~= before + seq![ev]);
                    },
                    None => {
                        assert(f(m[i as int]) is None);
                        assert(out@.map_values(
                            |a: (String, Option<String>)| (a.0@, crate::storage::opt_view(a.1)),
                        ) =~= before + Seq::<(Seq<char>, Option<Seq<char>>)>::empty());
                    },
                }
                i = i + 1;
            }
            assert(m.take(m.len() as int) =~= m);
            out
        },
        _ => {
            let out: Vec<(String, Option<String>)> = Vec::new();
            assert(out@.map_values(
                |a: (String, Option<String>)| (a.0@, crate::storage::opt_view(a.1)),
            ) =~= Seq::<(Seq<char>, Option<Seq<char>>)>::empty());
            out
        },
    }
}

/// One request to a language model. `schema` is the compact JSON text of
/// the expected response shape; `temperature_milli` is the sampling
/// temperature in thousandths.
#[derive(Debug)]
pub struct LlmRequest {
    pub system: Option<String>,
    pub user: String,
    pub schema: Option<String>,
    pub temperature_milli: u32,
    pub max_tokens: u32,
}

/// A model's answer: free text, or a JSON document.
#[derive(Debug)]
pub enum LlmResponse {
    Text(String),
    Json(JsonValue),
}

/// A response as values: `Ok` text or `Err` JSON.
pub open spec fn response_view(r: LlmResponse) -> Result<Seq<char>, JsonModel> {
    match r {
        LlmResponse::Text(s) => Ok(s@),
        LlmResponse::Json(v) => Err(v@),
    }
}

impl LlmResponse {
    /// A deep copy.
    pub fn duplicate(&self) -> (r: LlmResponse)
        ensures
            response_view(r) == response_view(*self),
    {
        match self {
            LlmResponse::Text(s) => LlmResponse::Text(s.clone()),
            LlmResponse::Json(v) => LlmResponse::Json(v.duplicate()),
        }
    }
}

/// Why a completion failed.
#[derive(Debug)]
pub enum LlmError {
    Network(String),
    InvalidSchema { expected: String, got: String },
    EmptyResponse,
    Provider(String),
    Cancelled,
}

/// The message of a model error: `network: {0}`, `invalid schema:
/// expected {expected}, got {got}`, `empty response`, `provider: {0}` or
/// `cancelled`.
pub open spec fn llm_error_text(e: LlmError) -> Seq<char> {
    match e {
        LlmError::Network(m) => "network: "@ + m@,
        LlmError::InvalidSchema { expected, got } => "invalid schema: expected "@ + expected@ + ", got "@
            + got@,
        LlmError::EmptyResponse => "empty response"@,
        LlmError::Provider(m) => "provider: "@ + m@,
        LlmError::Cancelled => "cancelled"@,
    }
}

impl LlmError {
    /// The error's message (see `llm_error_text`).
    pub fn message(&self) -> (r: String)
        ensures
            r@ == llm_error_text(*self),
    {
        let mut s = String::new();
        match self {
            LlmError::Network(m) => {
                push_str(&mut s, "network: ");
                push_str(&mut s, m.as_str());
            },
            LlmError::InvalidSchema { expected, got } => {
                push_str(&mut s, "invalid schema: expected ");
                push_str(&mut s, expected.as_str());
                push_str(&mut s, ", got ");
                push_str(&mut s, got.as_str());
            },
            LlmError::EmptyResponse => {
                push_str(&mut s, "empty response");
            },
            LlmError::Provider(m) => {
                push_str(&mut s, "provider: ");
                push_str(&mut s, m.as_str());
            },
            LlmError::Cancelled => {
                push_str(&mut s, "cancelled");
            },
        }
        s
    }
}

/// The port: one `complete` call per round trip to a model. Callers
/// implement it. What a model answers is up to the implementation: each one
/// says, through `answers`, which answers it may give to a request, and the
/// pipeline's contracts speak of the answers it actually got.
pub trait LlmProvider {
    /// Whether `answer` is one this provider may give to `req`. Unless an
    /// implementation says more, any answer.
    closed spec fn answers(&self, req: LlmRequest, answer: Result<LlmResponse, LlmError>) -> bool {
        true
    }

    fn complete(&self, req: LlmRequest) -> (r: Result<LlmResponse, LlmError>)
        ensures
            self.answers(req, r),
    ;
}

/// The lowercase hex SHA-256 digest of `data`.
pub uninterp spec fn sha256_lower_hex(data: Seq<u8>) -> Seq<char>;

/// `sha2::Sha256::digest` (the `Digest` trait), written out with the
/// `LowerHex` formatting of its 32-byte output: the contract names the
/// result and states that it is 64 characters of `0-9a-f`.
#[verifier::external_body]
fn sha256_hex(data: &[u8]) -> (r: String)
    ensures
        r@ == sha256_lower_hex(data@),
        r@.len() == 64,
        forall|i: int|
            0 <= i < 64 ==> ('0' <= #[trigger] r@[i] <= '9' || 'a' <= r@[i] <= 'f'),
{
    format!("{:x}", <sha2::Sha256 as sha2::Digest>::digest(data))
}

/// An optional string slice's contents.
pub open spec fn opt_str(o: Option<&str>) -> Option<Seq<char>> {
    match o {
        Some(s) => Some(s@),
        None => None,
    }
}

/// What the fingerprint hashes: the system prompt (or nothing), a
/// `\n---\n` separator, and the user prompt.
pub open spec fn fingerprint_text(system: Option<Seq<char>>, user: Seq<char>) -> Seq<char> {
    (match system {
        Some(s) => s,
        None => Seq::empty(),
    }) + "\n---\n"@ + user
}

/// The fingerprint of a prompt pair.
pub open spec fn fingerprint_of(system: Option<Seq<char>>, user: Seq<char>) -> Seq<char> {
    sha256_lower_hex(vstd::utf8::encode_utf8(fingerprint_text(system, user)))
}

/// Stable fingerprint of `(system, user)`: the SHA-256 of the UTF-8 bytes
/// of `system || "\n---\n" || user`, in lowercase hex. Schema and
/// temperature are not part of it.
pub fn prompt_fingerprint(system: Option<&str>, user: &str) -> (r: String)
    ensures
        r@ == fingerprint_of(opt_str(system), user@),
        r@.len() == 64,
{
    let mut text = String::new();
    match system {
        Some(s) => push_str(&mut text, s),
        None => {},
    }
    push_str(&mut text, "\n---\n");
    push_str(&mut text, user);
    assert(text@ == fingerprint_text(opt_str(system), user@));
    let bytes = text.as_str().as_bytes();
    sha256_hex(bytes)
}

} // verus!
