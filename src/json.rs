//! A JSON document as plain values, read from text by serde_json, and the
//! lookups that extraction performs on it.

use vstd::prelude::*;
use crate::text::chars_of;

verus! {

/// A JSON value. Numbers keep the text serde_json prints for them; an object
/// keeps its members in the order serde_json hands them out.
#[derive(Debug)]
pub enum Json {
    Null,
    Bool(bool),
    Number(String),
    Str(String),
    Array(Vec<Json>),
    Object(Vec<(String, Json)>),
}

/// The last member of `entries` named `key`.
pub open spec fn lookup(entries: Seq<(String, Json)>, key: Seq<char>) -> Option<Json>
    decreases entries.len(),
{
    if entries.len() == 0 {
        None
    } else if entries.last().0@ == key {
        Some(entries.last().1)
    } else {
        lookup(entries.drop_last(), key)
    }
}

impl Json {
    /// The member `key` of an object; nothing for any other value.
    pub open spec fn field(self, key: Seq<char>) -> Option<Json> {
        match self {
            Json::Object(entries) => lookup(entries@, key),
            _ => None,
        }
    }

    pub open spec fn text(self) -> Option<Seq<char>> {
        match self {
            Json::Str(s) => Some(s@),
            _ => None,
        }
    }

    pub open spec fn number(self) -> Option<Seq<char>> {
        match self {
            Json::Number(s) => Some(s@),
            _ => None,
        }
    }

    pub open spec fn items(self) -> Option<Seq<Json>> {
        match self {
            Json::Array(a) => Some(a@),
            _ => None,
        }
    }

    /// The member `key` of an object.
    pub fn get(&self, key: &str) -> (r: Option<&Json>)
        ensures
            r is Some <==> self.field(key@) is Some,
            r is Some ==> *r->0 == self.field(key@)->0,
    {
        match self {
            Json::Object(entries) => {
                let mut i = entries.len();
                assert(entries@.take(i as int) =~= entries@);
                assert(self.field(key@) == lookup(entries@, key@));
                while i > 0
                    invariant
                        i <= entries.len(),
                        self.field(key@) == lookup(entries@, key@),
                        lookup(entries@, key@) == lookup(entries@.take(i as int), key@),
                    decreases i,
                {
                    assert(entries@.take(i - 1) =~= entries@.take(i as int).drop_last());
                    i = i - 1;
                    if same_text(entries[i].0.as_str(), key) {
                        return Some(&entries[i].1);
                    }
                }
                assert(entries@.take(0) =~= Seq::<(String, Json)>::empty());
                None
            },
            _ => None,
        }
    }

    pub fn as_str(&self) -> (r: Option<&String>)
        ensures
            r is Some <==> self.text() is Some,
            r is Some ==> r->0@ == self.text()->0,
    {
        match self {
            Json::Str(s) => Some(s),
            _ => None,
        }
    }

    pub fn as_number(&self) -> (r: Option<&String>)
        ensures
            r is Some <==> self.number() is Some,
            r is Some ==> r->0@ == self.number()->0,
    {
        match self {
            Json::Number(s) => Some(s),
            _ => None,
        }
    }

    pub fn as_array(&self) -> (r: Option<&Vec<Json>>)
        ensures
            r is Some <==> self.items() is Some,
            r is Some ==> r->0@ == self.items()->0,
    {
        match self {
            Json::Array(a) => Some(a),
            _ => None,
        }
    }

    /// Reads JSON text into a value; `None` where the text is not JSON.
    pub fn parse(text: &str) -> (r: Option<Json>)
        ensures
            r == json_of(text@),
    {
        parse_json_text(text)
    }
}

/// Whether two strings hold the same characters.
pub(crate) fn same_text(a: &str, b: &str) -> (r: bool)
    ensures
        r == (a@ == b@),
{
    let x = chars_of(a);
    let y = chars_of(b);
    if x.len() != y.len() {
        return false;
    }
    let mut i: usize = 0;
    while i < x.len()
        invariant
            x@ == a@,
            y@ == b@,
            x.len() == y.len(),
            i <= x.len(),
            forall|j: int| 0 <= j < i ==> x@[j] == y@[j],
        decreases x.len() - i,
    {
        if x[i] != y[i] {
            return false;
        }
        i = i + 1;
    }
    assert(x@ =~= y@);
    true
}

#[verifier::external_type_specification]
#[verifier::external_body]
pub struct ExJsonValue(serde_json::Value);

/// The value that serde_json reads from a text, if it reads one.
pub uninterp spec fn json_of(text: Seq<char>) -> Option<Json>;

/// Relies on serde_json's `Value` variants: each one is carried over as it is,
/// a number as the text its `Display` gives.
#[verifier::external_body]
fn from_value(v: serde_json::Value) -> Json {
    match v {
        serde_json::Value::Null => Json::Null,
        serde_json::Value::Bool(b) => Json::Bool(b),
        serde_json::Value::Number(n) => Json::Number(n.to_string()),
        serde_json::Value::String(s) => Json::Str(s),
        serde_json::Value::Array(a) => Json::Array(a.into_iter().map(from_value).collect()),
        serde_json::Value::Object(m) => Json::Object(
            m.into_iter().map(|(k, x)| (k, from_value(x))).collect(),
        ),
    }
}

/// Relies on `serde_json::from_str`: the value read depends on the text alone.
#[verifier::external_body]
fn parse_json_text(text: &str) -> (r: Option<Json>)
    ensures
        r == json_of(text@),
{
    serde_json::from_str::<serde_json::Value>(text).ok().map(from_value)
}

/// The text of the first text node of the first element that `selector`
/// matches in the HTML document `html`, if there is one.
pub uninterp spec fn selected_text(html: Seq<char>, selector: Seq<char>) -> Option<Seq<char>>;

/// Relies on scraper: `Html::parse_document`, `Selector::parse`, and the first
/// text node of the first match; the result depends on the two texts alone.
#[verifier::external_body]
fn first_match_text(html: &str, selector: &str) -> (r: Option<String>)
    ensures
        r is Some <==> selected_text(html@, selector@) is Some,
        r is Some ==> selected_text(html@, selector@) == Some(r->0@),
{
    let doc = scraper::Html::parse_document(html);
    let sel = scraper::Selector::parse(selector).ok()?;
    doc.select(&sel).next()?.text().next().map(|t| t.to_string())
}

/// Why embedded page data could not be had.
#[derive(Debug, PartialEq, Eq, Structural)]
pub enum PageDataError {
    /// No element matches the selector, or it holds no text.
    NotFound,
    /// The element's text is not JSON.
    NotJson,
}

/// Reads the JSON held in the first element of `html` that `selector` matches.
pub fn embedded_json(html: &str, selector: &str) -> (r: Result<Json, PageDataError>)
    ensures
        selected_text(html@, selector@) is None <==> r == Err::<Json, PageDataError>(
            PageDataError::NotFound,
        ),
        selected_text(html@, selector@) is Some ==> match r {
            Ok(j) => json_of(selected_text(html@, selector@)->0) == Some(j),
            Err(e) => e == PageDataError::NotJson && json_of(
                selected_text(html@, selector@)->0,
            ) is None,
        },
{
    match first_match_text(html, selector) {
        None => Err(PageDataError::NotFound),
        Some(t) => match Json::parse(t.as_str()) {
            Some(j) => Ok(j),
            None => Err(PageDataError::NotJson),
        },
    }
}

} // verus!
