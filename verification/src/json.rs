//! JSON values as the library reads them: parsing text with serde_json, and the
//! accessors the readers of LLM answers use (field, text, unsigned number, items).

use vstd::prelude::*;
use crate::text::same_text;

verus! {

/// A JSON number: its value as an unsigned integer when it is one, and its text as
/// serde_json writes it.
pub struct JsonNumber {
    pub unsigned: Option<u64>,
    pub text: String,
}

/// A JSON value.
pub enum Json {
    Null,
    Bool(bool),
    Number(JsonNumber),
    Text(String),
    Array(Vec<Json>),
    Object(Vec<(String, Json)>),
}

/// The content of a JSON value.
pub enum JsonView {
    Null,
    Bool(bool),
    Number(Option<u64>, Seq<char>),
    Text(Seq<char>),
    Array(Seq<JsonView>),
    Object(Seq<(Seq<char>, JsonView)>),
}

/// The content of a JSON value.
pub open spec fn json_view(j: Json) -> JsonView
    decreases j,
{
    match j {
        Json::Null => JsonView::Null,
        Json::Bool(b) => JsonView::Bool(b),
        Json::Number(n) => JsonView::Number(n.unsigned, n.text@),
        Json::Text(s) => JsonView::Text(s@),
        Json::Array(v) => JsonView::Array(Seq::new(v@.len(), |i: int| if 0 <= i < v@.len() {
            json_view(v@[i])
        } else {
            JsonView::Null
        })),
        Json::Object(v) => JsonView::Object(Seq::new(v@.len(), |i: int| if 0 <= i < v@.len() {
            (v@[i].0@, json_view(v@[i].1))
        } else {
            (Seq::empty(), JsonView::Null)
        })),
    }
}

/// The value serde_json reads from a text, if the text is JSON.
pub uninterp spec fn parsed_json(text: Seq<char>) -> Option<JsonView>;

/// serde_json's JSON value, carried opaque.
#[verifier::external_type_specification]
#[verifier::external_body]
pub struct ExJsonValue(serde_json::Value);

/// One-for-one conversion of a serde_json value into the library's form (objects in the
/// order serde_json keeps their fields).
#[verifier::external_body]
fn json_from_value(v: serde_json::Value) -> (r: Json) {
    match v {
        serde_json::Value::Null => Json::Null,
        serde_json::Value::Bool(b) => Json::Bool(b),
        serde_json::Value::Number(n) => Json::Number(JsonNumber { unsigned: n.as_u64(), text: n.to_string() }),
        serde_json::Value::String(s) => Json::Text(s),
        serde_json::Value::Array(a) => Json::Array(a.into_iter().map(json_from_value).collect()),
        serde_json::Value::Object(o) => Json::Object(o.into_iter().map(|(k, x)| (k, json_from_value(x))).collect()),
    }
}

/// `serde_json::from_str::<serde_json::Value>`: the JSON value of a text, none when the
/// text is not JSON. The result is named by `parsed_json`; nothing more of serde_json's
/// reading is stated.
#[verifier::external_body]
pub(crate) fn parse_json(text: &str) -> (r: Option<Json>)
    ensures
        match r {
            Some(j) => parsed_json(text@) == Some(json_view(j)),
            None => parsed_json(text@) is None,
        },
{
    match serde_json::from_str::<serde_json::Value>(text) {
        Ok(v) => Some(json_from_value(v)),
        Err(_) => None,
    }
}

/// The first field named `key` among `ps` from position `from` on.
pub open spec fn field_from(ps: Seq<(Seq<char>, JsonView)>, key: Seq<char>, from: int) -> Option<JsonView>
    decreases ps.len() - from,
{
    if from < 0 || from >= ps.len() {
        None
    } else if ps[from].0 == key {
        Some(ps[from].1)
    } else {
        field_from(ps, key, from + 1)
    }
}

/// The field `key` of an object (none for other values).
pub open spec fn field(j: JsonView, key: Seq<char>) -> Option<JsonView> {
    match j {
        JsonView::Object(ps) => field_from(ps, key, 0),
        _ => None,
    }
}

/// The value of an unsigned-integer number (none for other values).
pub open spec fn unsigned_of(j: Option<JsonView>) -> Option<u64> {
    match j {
        Some(JsonView::Number(u, _)) => u,
        _ => None,
    }
}

/// The text of a number (none for other values).
pub open spec fn number_text_of(j: Option<JsonView>) -> Option<Seq<char>> {
    match j {
        Some(JsonView::Number(_, t)) => Some(t),
        _ => None,
    }
}

/// The text of a string (none for other values).
pub open spec fn text_of(j: Option<JsonView>) -> Option<Seq<char>> {
    match j {
        Some(JsonView::Text(t)) => Some(t),
        _ => None,
    }
}

/// The items of an array (none for other values).
pub open spec fn items_of(j: Option<JsonView>) -> Option<Seq<JsonView>> {
    match j {
        Some(JsonView::Array(xs)) => Some(xs),
        _ => None,
    }
}

impl Json {
    /// The field `key` of an object (see `field`).
    pub fn get(&self, key: &str) -> (r: Option<&Json>)
        ensures
            match r {
                Some(x) => field(json_view(*self), key@) == Some(json_view(*x)),
                None => field(json_view(*self), key@) is None,
            },
    {
        match self {
            Json::Object(ps) => {
                let ghost pv = match json_view(*self) {
                    JsonView::Object(q) => q,
                    _ => Seq::empty(),
                };
                assert(json_view(*self) == JsonView::Object(pv));
                assert(pv.len() == ps@.len());
                assert forall|k: int| 0 <= k < ps@.len() implies #[trigger] pv[k] == (ps@[k].0@, json_view(ps@[k].1)) by {}
                let mut i: usize = 0;
                while i < ps.len()
                    invariant
                        i <= ps.len(),
                        json_view(*self) == JsonView::Object(pv),
                        pv.len() == ps@.len(),
                        forall|k: int| 0 <= k < ps@.len() ==> #[trigger] pv[k] == (ps@[k].0@, json_view(ps@[k].1)),
                        field_from(pv, key@, 0) == field_from(pv, key@, i as int),
                    decreases ps.len() - i,
                {
                    assert(pv[i as int] == (ps@[i as int].0@, json_view(ps@[i as int].1)));
                    if same_text(ps[i].0.as_str(), key) {
                        assert(pv[i as int].0 == key@);
                        assert(field_from(pv, key@, i as int) == Some(pv[i as int].1));
                        assert(field(json_view(*self), key@) == field_from(pv, key@, 0));
                        return Some(&ps[i].1);
                    }
                    i += 1;
                }
                None
            },
            _ => None,
        }
    }

    /// The value of an unsigned-integer number.
    pub fn as_u64(&self) -> (r: Option<u64>)
        ensures
            r == unsigned_of(Some(json_view(*self))),
    {
        match self {
            Json::Number(n) => n.unsigned,
            _ => None,
        }
    }

    /// The text of a number.
    pub fn as_number_text(&self) -> (r: Option<&String>)
        ensures
            match r {
                Some(t) => number_text_of(Some(json_view(*self))) == Some(t@),
                None => number_text_of(Some(json_view(*self))) is None,
            },
    {
        match self {
            Json::Number(n) => Some(&n.text),
            _ => None,
        }
    }

    /// The text of a string.
    pub fn as_text(&self) -> (r: Option<&String>)
        ensures
            match r {
                Some(t) => text_of(Some(json_view(*self))) == Some(t@),
                None => text_of(Some(json_view(*self))) is None,
            },
    {
        match self {
            Json::Text(s) => Some(s),
            _ => None,
        }
    }

    /// The items of an array.
    pub fn as_items(&self) -> (r: Option<&Vec<Json>>)
        ensures
            match r {
                Some(v) => items_of(Some(json_view(*self))) == Some(Seq::new(v@.len(), |i: int| if 0 <= i < v@.len() {
                    json_view(v@[i])
                } else {
                    JsonView::Null
                })),
                None => items_of(Some(json_view(*self))) is None,
            },
    {
        match self {
            Json::Array(v) => Some(v),
            _ => None,
        }
    }
}

/// The views of a list of JSON values.
pub open spec fn jsons_view(v: Seq<Json>) -> Seq<JsonView> {
    Seq::new(v.len(), |i: int| if 0 <= i < v.len() { json_view(v[i]) } else { JsonView::Null })
}

/// The first position of `c` in `s`, if any.
pub open spec fn first_pos(s: Seq<char>, c: char) -> Option<int> {
    if exists|i: int| 0 <= i < s.len() && s[i] == c {
        Some(choose|i: int| 0 <= i < s.len() && s[i] == c && forall|j: int| 0 <= j < i ==> s[j] != c)
    } else {
        None
    }
}

/// The last position of `c` in `s`, if any.
pub open spec fn last_pos(s: Seq<char>, c: char) -> Option<int> {
    if exists|i: int| 0 <= i < s.len() && s[i] == c {
        Some(choose|i: int| 0 <= i < s.len() && s[i] == c && forall|j: int| i < j < s.len() ==> s[j] != c)
    } else {
        None
    }
}

/// The part of `s` from the first `open` to the last `close`, both included, when the
/// last `close` comes after the first `open`.
pub open spec fn bracketed(s: Seq<char>, open: char, close: char) -> Option<Seq<char>> {
    match (first_pos(s, open), last_pos(s, close)) {
        (Some(a), Some(b)) => if b > a { Some(s.subrange(a, b + 1)) } else { None },
        _ => None,
    }
}

/// The part of a text from the first `open` to the last `close` (see `bracketed`).
pub fn bracketed_part(s: &Vec<char>, open: char, close: char) -> (r: Option<Vec<char>>)
    ensures
        match r {
            Some(v) => bracketed(s@, open, close) == Some(v@),
            None => bracketed(s@, open, close) is None,
        },
{
    let mut a: usize = 0;
    while a < s.len() && s[a] != open
        invariant
            a <= s.len(),
            forall|j: int| 0 <= j < a ==> s@[j] != open,
        decreases s.len() - a,
    {
        a += 1;
    }
    let mut b: usize = s.len();
    while b > 0 && s[b - 1] != close
        invariant
            b <= s.len(),
            forall|j: int| b <= j < s.len() ==> s@[j] != close,
        decreases b,
    {
        b -= 1;
    }
    proof {
        if a < s.len() {
            assert(exists|i: int| 0 <= i < s@.len() && s@[i] == open) by {
                assert(s@[a as int] == open);
            }
            let fa = choose|i: int| 0 <= i < s@.len() && s@[i] == open && forall|j: int| 0 <= j < i ==> s@[j] != open;
            assert(fa == a) by {
                assert(s@[a as int] == open);
                if fa < a {
                } else if fa > a {
                }
            }
        } else {
            assert(!exists|i: int| 0 <= i < s@.len() && s@[i] == open);
        }
        if b > 0 {
            assert(exists|i: int| 0 <= i < s@.len() && s@[i] == close) by {
                assert(s@[b - 1] == close);
            }
            let lb = choose|i: int| 0 <= i < s@.len() && s@[i] == close && forall|j: int| i < j < s@.len() ==> s@[j] != close;
            assert(lb == b - 1) by {
                assert(s@[b - 1] == close);
                if lb < b - 1 {
                } else if lb > b - 1 {
                }
            }
        } else {
            assert(!exists|i: int| 0 <= i < s@.len() && s@[i] == close);
        }
    }
    if a < s.len() && b > 0 && b - 1 > a {
        Some(crate::text::copy_range(s, a, b))
    } else {
        None
    }
}

} // verus!
