//! JSON values as the library reads them.
//!
//! `serde_json` reads a text into a value; the library keeps the value's top level and, for
//! arrays and objects, each member as its own compact JSON text, read again when the logic
//! descends into it. Numbers keep serde_json's three forms; a float is kept as the shortest
//! decimal text that reads back to it.
use vstd::prelude::*;
use serde_json::Value;
use self::Json::{Array, Bool, Null, Number, Object, Str};
use self::JsonNumber::{Float, NegInt, PosInt};
use crate::text::{chars_eq_str, chars_of};

verus! {

/// A JSON number in the form serde_json holds it.
#[derive(Clone, Debug, PartialEq)]
pub enum JsonNumber {
    /// A non-negative integer.
    PosInt(u64),
    /// A negative integer.
    NegInt(i64),
    /// Any other number, as the shortest decimal text that reads back to the same `f64`.
    Float(String),
}

/// One level of a JSON value; members of arrays and objects are compact JSON texts.
#[derive(Clone, Debug, PartialEq)]
pub enum Json {
    Null,
    Bool(bool),
    Number(JsonNumber),
    Str(String),
    Array(Vec<String>),
    Object(Vec<(String, String)>),
}

/// The mathematical form of a `JsonNumber`.
pub enum NumberView {
    PosInt(u64),
    NegInt(i64),
    Float(Seq<char>),
}

/// The mathematical form of a `Json`.
pub enum JsonView {
    Null,
    Bool(bool),
    Number(NumberView),
    Str(Seq<char>),
    Array(Seq<Seq<char>>),
    Object(Seq<(Seq<char>, Seq<char>)>),
}

/// The texts of a sequence of strings.
pub open spec fn texts_view(items: Seq<String>) -> Seq<Seq<char>> {
    items.map_values(|t: String| t@)
}

/// The texts of a sequence of named members.
pub open spec fn fields_view(fields: Seq<(String, String)>) -> Seq<(Seq<char>, Seq<char>)> {
    fields.map_values(|f: (String, String)| (f.0@, f.1@))
}

impl View for JsonNumber {
    type V = NumberView;

    open spec fn view(&self) -> NumberView {
        match self {
            JsonNumber::PosInt(u) => NumberView::PosInt(*u),
            JsonNumber::NegInt(i) => NumberView::NegInt(*i),
            JsonNumber::Float(t) => NumberView::Float(t@),
        }
    }
}

impl View for Json {
    type V = JsonView;

    open spec fn view(&self) -> JsonView {
        match self {
            Json::Null => JsonView::Null,
            Json::Bool(b) => JsonView::Bool(*b),
            Json::Number(n) => JsonView::Number(n@),
            Json::Str(s) => JsonView::Str(s@),
            Json::Array(items) => JsonView::Array(texts_view(items@)),
            Json::Object(fields) => JsonView::Object(fields_view(fields@)),
        }
    }
}

/// What serde_json reads from a JSON text (`serde_json::from_str::<Value>`): the value, with
/// array elements and object members (in serde_json's key order) as their compact JSON texts
/// (`Value`'s `Display`); or the text of the error it reports.
pub uninterp spec fn json_syntax(text: Seq<char>) -> Result<JsonView, Seq<char>>;

/// Reads a JSON text with `serde_json::from_str::<Value>`, keeping one level: a number in the
/// form serde_json holds it, array elements and object members as `Value::to_string` writes
/// them. A failure gives the error's `Display` text.
#[verifier::external_body]
pub(crate) fn parse_json(text: &str) -> (r: Result<Json, String>)
    ensures
        match r {
            Ok(j) => json_syntax(text@) == Ok::<JsonView, Seq<char>>(j@),
            Err(e) => json_syntax(text@) == Err::<JsonView, Seq<char>>(e@),
        },
{
    let value: Value = serde_json::from_str(text).map_err(|e| e.to_string())?;
    Ok(match value {
        Value::Null => Null,
        Value::Bool(b) => Bool(b),
        Value::Number(n) => Number(match (n.as_u64(), n.as_i64()) {
            (Some(u), _) => PosInt(u),
            (_, Some(i)) => NegInt(i),
            _ => Float(n.to_string()),
        }),
        Value::String(s) => Str(s),
        Value::Array(a) => Array(a.iter().map(Value::to_string).collect()),
        Value::Object(m) => Object(m.into_iter().map(|(k, v)| (k, v.to_string())).collect()),
    })
}

/// The value a JSON text reads as, if it reads.
pub open spec fn read(text: Seq<char>) -> Option<JsonView> {
    match json_syntax(text) {
        Ok(v) => Some(v),
        Err(_) => None,
    }
}

/// The view of an optional value.
pub open spec fn opt_view(o: Option<Json>) -> Option<JsonView> {
    match o {
        Some(j) => Some(j@),
        None => None,
    }
}

/// Text of the first member named `key`.
pub open spec fn field_text(fields: Seq<(Seq<char>, Seq<char>)>, key: Seq<char>) -> Option<
    Seq<char>,
>
    decreases fields.len(),
{
    if fields.len() == 0 {
        None
    } else if fields[0].0 == key {
        Some(fields[0].1)
    } else {
        field_text(fields.drop_first(), key)
    }
}

/// `Value::get(key)`: the member `key` of an object; `None` for other values.
pub open spec fn member(j: Option<JsonView>, key: Seq<char>) -> Option<JsonView> {
    match j {
        Some(JsonView::Object(fields)) => match field_text(fields, key) {
            Some(t) => read(t),
            None => None,
        },
        _ => None,
    }
}

/// `Value::as_str`.
pub open spec fn as_str(j: Option<JsonView>) -> Option<Seq<char>> {
    match j {
        Some(JsonView::Str(s)) => Some(s),
        _ => None,
    }
}

/// `Value::as_i64`: an integer that fits in `i64`.
pub open spec fn as_i64(j: Option<JsonView>) -> Option<i64> {
    match j {
        Some(JsonView::Number(NumberView::PosInt(u))) => if u <= i64::MAX as u64 {
            Some(u as i64)
        } else {
            None
        },
        Some(JsonView::Number(NumberView::NegInt(i))) => Some(i),
        _ => None,
    }
}

/// `Value::as_u64`: a non-negative integer.
pub open spec fn as_u64(j: Option<JsonView>) -> Option<u64> {
    match j {
        Some(JsonView::Number(NumberView::PosInt(u))) => Some(u),
        _ => None,
    }
}

/// `Value::as_f64`: any number (kept in its exact form).
pub open spec fn as_number(j: Option<JsonView>) -> Option<NumberView> {
    match j {
        Some(JsonView::Number(n)) => Some(n),
        _ => None,
    }
}

/// `Value::is_null`.
pub open spec fn is_null(j: JsonView) -> bool {
    j is Null
}

/// The values of element texts that read, in order.
pub open spec fn read_all(texts: Seq<Seq<char>>) -> Seq<JsonView>
    decreases texts.len(),
{
    if texts.len() == 0 {
        Seq::empty()
    } else {
        let rest = read_all(texts.drop_last());
        match read(texts.last()) {
            Some(v) => rest.push(v),
            None => rest,
        }
    }
}

/// `Value::as_array`: the elements of an array.
pub open spec fn as_array(j: Option<JsonView>) -> Option<Seq<JsonView>> {
    match j {
        Some(JsonView::Array(items)) => Some(read_all(items)),
        _ => None,
    }
}

/// Reads a JSON text, keeping the value only.
pub fn read_json(text: &str) -> (r: Option<Json>)
    ensures
        opt_view(r) == read(text@),
{
    match parse_json(text) {
        Ok(j) => Some(j),
        Err(_) => None,
    }
}

impl Json {
    /// `Value::get(key)`.
    pub fn member(&self, key: &str) -> (r: Option<Json>)
        ensures
            opt_view(r) == member(Some(self@), key@),
    {
        match self {
            Json::Object(fields) => {
                let ghost fv = fields_view(fields@);
                let mut i: usize = 0;
                assert(fv.skip(0) == fv);
                while i < fields.len()
                    invariant
                        0 <= i <= fields.len(),
                        fv == fields_view(fields@),
                        self@ == JsonView::Object(fv),
                        field_text(fv, key@) == field_text(fv.skip(i as int), key@),
                    decreases fields.len() - i,
                {
                    let name = chars_of(fields[i].0.as_str());
                    proof {
                        assert(fv.skip(i as int)[0] == fv[i as int]);
                        assert(fv.skip(i as int).drop_first() == fv.skip(i + 1));
                    }
                    if chars_eq_str(&name, key) {
                        let text = fields[i].1.as_str();
                        proof {
                            assert(fv[i as int] == (fields@[i as int].0@, fields@[i as int].1@));
                            assert(fv.skip(i as int)[0].0 == key@);
                            assert(field_text(fv, key@) == Some(text@));
                        }
                        return read_json(text);
                    }
                    i = i + 1;
                }
                proof {
                    assert(fv.skip(i as int).len() == 0);
                }
                None
            },
            _ => None,
        }
    }

    /// The compact JSON text of member `key` (`Value::get(key)` written with `Display`).
    pub fn member_text(&self, key: &str) -> (r: Option<String>)
        ensures
            match r {
                Some(t) => self@ matches JsonView::Object(fields) && field_text(fields, key@) == Some(
                    t@,
                ),
                None => !(self@ matches JsonView::Object(fields) && field_text(fields, key@) is Some),
            },
    {
        match self {
            Json::Object(fields) => {
                let ghost fv = fields_view(fields@);
                let mut i: usize = 0;
                assert(fv.skip(0) == fv);
                while i < fields.len()
                    invariant
                        0 <= i <= fields.len(),
                        fv == fields_view(fields@),
                        self@ == JsonView::Object(fv),
                        field_text(fv, key@) == field_text(fv.skip(i as int), key@),
                    decreases fields.len() - i,
                {
                    let name = chars_of(fields[i].0.as_str());
                    proof {
                        assert(fv.skip(i as int)[0] == fv[i as int]);
                        assert(fv.skip(i as int).drop_first() == fv.skip(i + 1));
                        assert(fv[i as int] == (fields@[i as int].0@, fields@[i as int].1@));
                    }
                    if chars_eq_str(&name, key) {
                        return Some(fields[i].1.clone());
                    }
                    i = i + 1;
                }
                proof {
                    assert(fv.skip(i as int).len() == 0);
                }
                None
            },
            _ => None,
        }
    }

    /// `Value::as_str`.
    pub fn str_value(&self) -> (r: Option<String>)
        ensures
            match r {
                Some(s) => as_str(Some(self@)) == Some(s@),
                None => as_str(Some(self@)) is None,
            },
    {
        match self {
            Json::Str(s) => Some(s.clone()),
            _ => None,
        }
    }

    /// `Value::as_i64`.
    pub fn i64_value(&self) -> (r: Option<i64>)
        ensures
            r == as_i64(Some(self@)),
    {
        match self {
            Json::Number(JsonNumber::PosInt(u)) => if *u <= i64::MAX as u64 {
                Some(*u as i64)
            } else {
                None
            },
            Json::Number(JsonNumber::NegInt(i)) => Some(*i),
            _ => None,
        }
    }

    /// `Value::as_u64`.
    pub fn u64_value(&self) -> (r: Option<u64>)
        ensures
            r == as_u64(Some(self@)),
    {
        match self {
            Json::Number(JsonNumber::PosInt(u)) => Some(*u),
            _ => None,
        }
    }

    /// `Value::as_f64`, the number kept exactly.
    pub fn number_value(&self) -> (r: Option<JsonNumber>)
        ensures
            match r {
                Some(n) => as_number(Some(self@)) == Some(n@),
                None => as_number(Some(self@)) is None,
            },
    {
        match self {
            Json::Number(n) => Some(copy_number(n)),
            _ => None,
        }
    }

    /// `Value::is_null`.
    pub fn null(&self) -> (r: bool)
        ensures
            r == is_null(self@),
    {
        match self {
            Json::Null => true,
            _ => false,
        }
    }

    /// `Value::as_array`: the elements of an array.
    pub fn elements(&self) -> (r: Option<Vec<Json>>)
        ensures
            match r {
                Some(v) => as_array(Some(self@)) == Some(v@.map_values(|j: Json| j@)),
                None => as_array(Some(self@)) is None,
            },
    {
        match self {
            Json::Array(items) => {
                let ghost texts = texts_view(items@);
                let mut out: Vec<Json> = Vec::new();
                let mut i: usize = 0;
                while i < items.len()
                    invariant
                        0 <= i <= items.len(),
                        texts == texts_view(items@),
                        out@.map_values(|j: Json| j@) == read_all(texts.take(i as int)),
                    decreases items.len() - i,
                {
                    let item = read_json(items[i].as_str());
                    proof {
                        assert(texts.take(i + 1).drop_last() == texts.take(i as int));
                        assert(texts.take(i + 1).last() == items@[i as int]@);
                    }
                    match item {
                        Some(j) => {
                            out.push(j);
                            proof {
                                assert(out@.map_values(|j: Json| j@) == read_all(
                                    texts.take(i as int),
                                ).push(j@));
                            }
                        },
                        None => {},
                    }
                    i = i + 1;
                }
                proof {
                    assert(texts.take(items.len() as int) == texts);
                }
                Some(out)
            },
            _ => None,
        }
    }
}

/// A copy of a list of texts.
fn copy_texts(items: &Vec<String>) -> (r: Vec<String>)
    ensures
        texts_view(r@) == texts_view(items@),
{
    let mut out: Vec<String> = Vec::new();
    let mut i: usize = 0;
    while i < items.len()
        invariant
            0 <= i <= items.len(),
            out@.len() == i,
            texts_view(out@) == texts_view(items@.take(i as int)),
        decreases items.len() - i,
    {
        let ghost prev = out@;
        let t = items[i].clone();
        assert(t@ == items@[i as int]@);
        out.push(t);
        proof {
            assert(items@.take(i + 1) == items@.take(i as int).push(items@[i as int]));
            assert forall|k: int| 0 <= k < i implies #[trigger] texts_view(out@)[k]
                == texts_view(items@.take(i + 1))[k] by {
                assert(texts_view(prev)[k] == texts_view(items@.take(i as int))[k]);
            }
            assert(texts_view(out@) =~= texts_view(items@.take(i + 1)));
        }
        i = i + 1;
    }
    proof {
        assert(items@.take(items.len() as int) == items@);
    }
    out
}

/// A copy of a list of named members.
fn copy_fields(fields: &Vec<(String, String)>) -> (r: Vec<(String, String)>)
    ensures
        fields_view(r@) == fields_view(fields@),
{
    let mut out: Vec<(String, String)> = Vec::new();
    let mut i: usize = 0;
    while i < fields.len()
        invariant
            0 <= i <= fields.len(),
            out@.len() == i,
            fields_view(out@) == fields_view(fields@.take(i as int)),
        decreases fields.len() - i,
    {
        let ghost prev = out@;
        let name = fields[i].0.clone();
        let text = fields[i].1.clone();
        out.push((name, text));
        proof {
            assert forall|k: int| 0 <= k < i implies #[trigger] fields_view(out@)[k]
                == fields_view(fields@.take(i + 1))[k] by {
                assert(fields_view(prev)[k] == fields_view(fields@.take(i as int))[k]);
            }
            assert(fields@.take(i + 1) == fields@.take(i as int).push(fields@[i as int]));
            assert(fields_view(out@) =~= fields_view(fields@.take(i + 1)));
        }
        i = i + 1;
    }
    proof {
        assert(fields@.take(fields.len() as int) == fields@);
    }
    out
}

impl Json {
    /// A copy of the value.
    pub fn clone_json(&self) -> (r: Json)
        ensures
            r@ == self@,
    {
        match self {
            Json::Null => Json::Null,
            Json::Bool(b) => Json::Bool(*b),
            Json::Number(n) => Json::Number(copy_number(n)),
            Json::Str(s) => Json::Str(s.clone()),
            Json::Array(items) => Json::Array(copy_texts(items)),
            Json::Object(fields) => Json::Object(copy_fields(fields)),
        }
    }
}

/// A copy of a number.
pub fn copy_number(n: &JsonNumber) -> (r: JsonNumber)
    ensures
        r@ == n@,
{
    match n {
        JsonNumber::PosInt(u) => JsonNumber::PosInt(*u),
        JsonNumber::NegInt(i) => JsonNumber::NegInt(*i),
        JsonNumber::Float(t) => JsonNumber::Float(t.clone()),
    }
}

/// Member `key` of an optional value (`Option::and_then(|v| v.get(key))`).
pub fn get(j: &Option<Json>, key: &str) -> (r: Option<Json>)
    ensures
        opt_view(r) == member(opt_view(*j), key@),
{
    match j {
        Some(v) => v.member(key),
        None => None,
    }
}

/// `as_str` of an optional value.
pub fn get_str(j: &Option<Json>) -> (r: Option<String>)
    ensures
        match r {
            Some(s) => as_str(opt_view(*j)) == Some(s@),
            None => as_str(opt_view(*j)) is None,
        },
{
    match j {
        Some(v) => v.str_value(),
        None => None,
    }
}

/// `as_i64` of an optional value.
pub fn get_i64(j: &Option<Json>) -> (r: Option<i64>)
    ensures
        r == as_i64(opt_view(*j)),
{
    match j {
        Some(v) => v.i64_value(),
        None => None,
    }
}

/// `as_u64` of an optional value.
pub fn get_u64(j: &Option<Json>) -> (r: Option<u64>)
    ensures
        r == as_u64(opt_view(*j)),
{
    match j {
        Some(v) => v.u64_value(),
        None => None,
    }
}

/// `as_f64` of an optional value, the number kept exactly.
pub fn get_number(j: &Option<Json>) -> (r: Option<JsonNumber>)
    ensures
        match r {
            Some(n) => as_number(opt_view(*j)) == Some(n@),
            None => as_number(opt_view(*j)) is None,
        },
{
    match j {
        Some(v) => v.number_value(),
        None => None,
    }
}

} // verus!
