//! Optional filter configuration: blacklisted lines and length limits, read
//! from a JSON file.

use vstd::prelude::*;
use crate::lines::texts;
use crate::paths::opt_view;

verus! {

/// Settings read from the configuration file. A setting that is absent, or
/// set to a value of the wrong kind, is `None`.
pub struct Config {
    /// Location of the history file, used where given.
    pub histfile: Option<String>,
    /// Lines that are removed from the history.
    pub blacklist: Option<Vec<String>>,
    /// Lines with more characters than this are removed.
    pub max_char_limit: Option<u64>,
    /// Lines with fewer characters than this are removed.
    pub min_char_limit: Option<u64>,
}

impl Config {
    /// Whether line `l` passes every filter that is set.
    pub open spec fn keeps(&self, l: Seq<char>) -> bool {
        &&& match self.blacklist {
            Some(b) => !texts(b@).contains(l),
            None => true,
        }
        &&& match self.min_char_limit {
            Some(m) => l.len() >= m,
            None => true,
        }
        &&& match self.max_char_limit {
            Some(m) => l.len() <= m,
            None => true,
        }
    }
}

#[verifier::external_type_specification]
#[verifier::external_body]
pub struct ExJsonValue(json::JsonValue);

#[verifier::external_type_specification]
#[verifier::external_body]
pub struct ExJsonError(json::Error);

/// A JSON value, holding what the configuration reads of it.
pub enum Json {
    Null,
    Boolean(bool),
    /// A number, as the unsigned integer it is exactly, if it is one.
    Number(Option<u64>),
    Text(String),
    Array(Vec<Json>),
    /// The members of an object, in the order they were read.
    Object(Vec<(String, Json)>),
}

/// The JSON value that `json::parse` reads from a text, in the library's
/// model; none where the text is not valid JSON.
pub uninterp spec fn json_of(text: Seq<char>) -> Option<Json>;

/// Relies on `json::parse`: parses JSON text, whose value depends on the text
/// alone; the value is moved into the library's model.
#[verifier::external_body]
fn parse_json_model(text: &str) -> (r: Result<Json, json::Error>)
    ensures
        r is Ok <==> json_of(text@) is Some,
        r matches Ok(j) ==> json_of(text@) == Some(j),
{
    json::parse(text).map(|v| json_model(&v))
}

/// Relies on `JsonValue::as_u64` for numbers; moves the contents of every
/// other kind of value into the library's model unchanged.
#[verifier::external_body]
fn json_model(v: &json::JsonValue) -> (r: Json) {
    match v {
        json::JsonValue::Null => Json::Null,
        json::JsonValue::Short(s) => Json::Text(s.as_str().to_owned()),
        json::JsonValue::String(s) => Json::Text(s.clone()),
        json::JsonValue::Number(_) => Json::Number(v.as_u64()),
        json::JsonValue::Boolean(b) => Json::Boolean(*b),
        json::JsonValue::Object(o) => Json::Object(
            o.iter().map(|(k, x)| (k.to_owned(), json_model(x))).collect(),
        ),
        json::JsonValue::Array(a) => Json::Array(a.iter().map(json_model).collect()),
    }
}

/// The value under `key` among `entries`: the first with that key, else null.
pub open spec fn field(entries: Seq<(String, Json)>, key: Seq<char>) -> Json
    decreases entries.len(),
{
    if entries.len() == 0 {
        Json::Null
    } else if entries[0].0@ == key {
        entries[0].1
    } else {
        field(entries.drop_first(), key)
    }
}

/// The member `key` of `j`: null where `j` is no object or has no such member.
pub open spec fn member(j: Json, key: Seq<char>) -> Json {
    match j {
        Json::Object(entries) => field(entries@, key),
        _ => Json::Null,
    }
}

/// The strings among `items`, in order.
pub open spec fn strings_in(items: Seq<Json>) -> Seq<Seq<char>>
    decreases items.len(),
{
    if items.len() == 0 {
        Seq::empty()
    } else {
        let rest = strings_in(items.drop_last());
        match items.last() {
            Json::Text(s) => rest.push(s@),
            _ => rest,
        }
    }
}

/// A setting that is a string.
pub open spec fn text_setting(v: Json) -> Option<Seq<char>> {
    match v {
        Json::Text(s) => Some(s@),
        _ => None,
    }
}

/// A setting that is a list of strings: its strings, where it is an array.
pub open spec fn list_setting(v: Json) -> Option<Seq<Seq<char>>> {
    match v {
        Json::Array(items) => Some(strings_in(items@)),
        _ => None,
    }
}

/// A setting that is an unsigned integer.
pub open spec fn number_setting(v: Json) -> Option<u64> {
    match v {
        Json::Number(n) => n,
        _ => None,
    }
}

/// Whether `c` holds the settings of the JSON object `j`.
pub open spec fn read_from(c: Config, j: Json) -> bool {
    &&& opt_view(c.histfile) == text_setting(member(j, "histfile"@))
    &&& match c.blacklist {
        Some(b) => list_setting(member(j, "blacklist"@)) == Some(texts(b@)),
        None => list_setting(member(j, "blacklist"@)) is None,
    }
    &&& c.max_char_limit == number_setting(member(j, "max_char_limit"@))
    &&& c.min_char_limit == number_setting(member(j, "min_char_limit"@))
}

fn get_member<'a>(j: &'a Json, key: &String) -> (r: &'a Json)
    ensures
        *r == member(*j, key@),
{
    match j {
        Json::Object(entries) => {
            let mut i: usize = 0;
            assert(entries@.skip(0) =~= entries@);
            while i < entries.len()
                invariant
                    i <= entries.len(),
                    member(*j, key@) == field(entries@, key@),
                    field(entries@.skip(i as int), key@) == field(entries@, key@),
                decreases entries.len() - i,
            {
                assert(entries@.skip(i as int).drop_first() =~= entries@.skip(i + 1));
                assert(entries@.skip(i as int)[0] == entries@[i as int]);
                let entry = &entries[i];
                if entry.0 == *key {
                    assert(field(entries@.skip(i as int), key@) == entry.1);
                    return &entry.1;
                }
                i = i + 1;
            }
            &Json::Null
        },
        _ => &Json::Null,
    }
}

fn strings_of(items: &Vec<Json>) -> (r: Vec<String>)
    ensures
        texts(r@) == strings_in(items@),
{
    let mut out: Vec<String> = Vec::new();
    let mut i: usize = 0;
    while i < items.len()
        invariant
            i <= items.len(),
            texts(out@) == strings_in(items@.take(i as int)),
        decreases items.len() - i,
    {
        assert(items@.take(i + 1).drop_last() =~= items@.take(i as int));
        match &items[i] {
            Json::Text(s) => out.push(s.clone()),
            _ => {},
        }
        assert(texts(out@) =~= strings_in(items@.take(i + 1)));
        i = i + 1;
    }
    assert(items@.take(items.len() as int) =~= items@);
    out
}

/// Reads the settings from the JSON object `object`. A setting that is
/// missing, or of the wrong kind, is `None`; of a blacklist, only the strings
/// are kept.
pub fn parse_json_object(object: &Json) -> (r: Config)
    ensures
        read_from(r, *object),
{
    proof {
        reveal_strlit("histfile");
        reveal_strlit("blacklist");
        reveal_strlit("max_char_limit");
        reveal_strlit("min_char_limit");
    }
    let histfile = match get_member(object, &"histfile".to_owned()) {
        Json::Text(s) => Some(s.clone()),
        _ => None,
    };
    let blacklist = match get_member(object, &"blacklist".to_owned()) {
        Json::Array(items) => Some(strings_of(items)),
        _ => None,
    };
    let max_char_limit = match get_member(object, &"max_char_limit".to_owned()) {
        Json::Number(n) => *n,
        _ => None,
    };
    let min_char_limit = match get_member(object, &"min_char_limit".to_owned()) {
        Json::Number(n) => *n,
        _ => None,
    };
    Config { histfile, blacklist, max_char_limit, min_char_limit }
}

/// Reads the configuration from the text of the configuration file: `None`
/// where it is no valid JSON, and then nothing is filtered beyond
/// deduplication; else the settings of the value it holds.
pub fn config(file_contents: &str) -> (r: Option<Config>)
    ensures
        r is Some <==> json_of(file_contents@) is Some,
        r matches Some(c) ==> read_from(c, json_of(file_contents@)->0),
{
    match parse_json_model(file_contents) {
        Ok(j) => Some(parse_json_object(&j)),
        Err(_) => None,
    }
}

} // verus!
