//! JSON values of `serde_json`, as far as the files of this library use them.

use vstd::prelude::*;

verus! {

/// What a JSON value holds. Of a number that is no count, nothing is known.
pub ghost enum Json {
    Null,
    Bool(bool),
    Count(u64),
    Number,
    Text(Seq<char>),
    List(Seq<Json>),
    Table(Map<Seq<char>, Json>),
}

#[verifier::external_type_specification]
#[verifier::external_body]
pub struct ExValue(serde_json::Value);

#[verifier::external_type_specification]
#[verifier::external_body]
pub struct ExError(serde_json::Error);

/// What a JSON value holds.
pub uninterp spec fn json(v: serde_json::Value) -> Json;

/// What a JSON text stands for, if it is one.
pub uninterp spec fn parsed(t: Seq<char>) -> Option<Json>;

/// The text that stands for a value made of texts and counts, with line
/// breaks and indentation.
pub uninterp spec fn pretty_text(j: Json) -> Seq<char>;

/// A text or a count.
pub open spec fn is_plain(j: Json) -> bool {
    j is Text || j is Count
}

/// A table of texts and counts.
pub open spec fn is_flat(j: Json) -> bool {
    j is Table && forall|k: Seq<char>| #[trigger]
        j->Table_0.dom().contains(k) ==> is_plain(j->Table_0[k])
}

/// A list of tables of texts and counts.
pub open spec fn is_rows(j: Json) -> bool {
    j is List && forall|i: int| 0 <= i < j->List_0.len() ==> is_flat(#[trigger] j->List_0[i])
}

/// The table that pairs make, a later pair taking the place of an earlier one.
pub open spec fn table_of(pairs: Seq<(String, serde_json::Value)>) -> Map<Seq<char>, Json>
    decreases pairs.len(),
{
    if pairs.len() == 0 {
        Map::empty()
    } else {
        table_of(pairs.drop_last()).insert(pairs.last().0@, json(pairs.last().1))
    }
}

/// `serde_json::from_str`, into a value: what it gives depends on the text
/// alone.
#[verifier::external_body]
pub(crate) fn parse_json(t: &str) -> (res: Result<serde_json::Value, serde_json::Error>)
    ensures
        match res {
            Ok(v) => parsed(t@) == Some(json(v)),
            Err(_) => parsed(t@) is None,
        },
{
    serde_json::from_str(t)
}

/// `serde_json::to_string_pretty`, of a value: a table or rows of texts and
/// counts can be printed, the text depends on what the value holds alone, and
/// parsing it gives the value back.
#[verifier::external_body]
pub(crate) fn print_json(v: &serde_json::Value) -> (res: Result<String, serde_json::Error>)
    ensures
        is_flat(json(*v)) || is_rows(json(*v)) ==> {
            &&& res is Ok
            &&& res->Ok_0@ == pretty_text(json(*v))
            &&& parsed(res->Ok_0@) == Some(json(*v))
        },
{
    serde_json::to_string_pretty(v)
}

/// `Value::as_array` gives the elements of a list, and nothing of anything
/// else.
pub assume_specification[ serde_json::Value::as_array ](v: &serde_json::Value) -> (res: Option<
    &Vec<serde_json::Value>,
>)
    ensures
        match res {
            Some(l) => json(*v) == Json::List(Seq::new(l@.len(), |i: int| json(l@[i]))),
            None => !(json(*v) is List),
        },
;

/// `Value::as_str` gives the characters of a text, and nothing of anything
/// else.
pub assume_specification[ serde_json::Value::as_str ](v: &serde_json::Value) -> (res: Option<&str>)
    ensures
        match res {
            Some(s) => json(*v) == Json::Text(s@),
            None => !(json(*v) is Text),
        },
;

/// `Value::as_u64` gives a count, and nothing of anything else.
pub assume_specification[ serde_json::Value::as_u64 ](v: &serde_json::Value) -> (res: Option<u64>)
    ensures
        match res {
            Some(n) => json(*v) == Json::Count(n),
            None => !(json(*v) is Count),
        },
;

/// The entry of a table, and null where there is none or no table.
pub open spec fn entry(j: Json, k: Seq<char>) -> Json {
    if j is Table && j->Table_0.dom().contains(k) {
        j->Table_0[k]
    } else {
        Json::Null
    }
}

/// `Value`'s index by a text gives the entry of a table, and null where there
/// is none or no table.
#[verifier::external_body]
pub(crate) fn field<'a>(v: &'a serde_json::Value, k: &str) -> (res: &'a serde_json::Value)
    ensures
        json(*res) == entry(json(*v), k@),
{
    &v[k]
}

/// `Value::as_object` gives the entries of a table, each once, in the order of
/// their keys, and nothing of anything else.
#[verifier::external_body]
pub(crate) fn entries(v: &serde_json::Value) -> (res: Option<Vec<(String, serde_json::Value)>>)
    ensures
        match res {
            Some(l) => {
                &&& json(*v) == Json::Table(table_of(l@))
                &&& forall|i: int, j: int|
                    0 <= i < j < l@.len() ==> crate::order::text_lt(
                        (#[trigger] l@[i]).0@,
                        (#[trigger] l@[j]).0@,
                    )
            },
            None => !(json(*v) is Table),
        },
{
    v.as_object().map(|m| m.iter().map(|(k, x)| (k.clone(), x.clone())).collect())
}

/// `Value::String` is a value that holds a text.
#[verifier::external_body]
pub(crate) fn text_value(s: String) -> (res: serde_json::Value)
    ensures
        json(res) == Json::Text(s@),
{
    serde_json::Value::String(s)
}

/// `Value::from`, of an unsigned number: a value that holds a count.
#[verifier::external_body]
pub(crate) fn count_value(n: u64) -> (res: serde_json::Value)
    ensures
        json(res) == Json::Count(n),
{
    serde_json::Value::from(n)
}

/// `Value::Array` is a value that holds a list.
#[verifier::external_body]
pub(crate) fn list_value(l: Vec<serde_json::Value>) -> (res: serde_json::Value)
    ensures
        json(res) == Json::List(Seq::new(l@.len(), |i: int| json(l@[i]))),
{
    serde_json::Value::Array(l)
}

/// `Value::Object`, of entries that `Map` collects: a value that holds a table.
#[verifier::external_body]
pub(crate) fn table_value(pairs: Vec<(String, serde_json::Value)>) -> (res: serde_json::Value)
    ensures
        json(res) == Json::Table(table_of(pairs@)),
{
    serde_json::Value::Object(pairs.into_iter().collect())
}

} // verus!
