//! JSON objects: `serde_json::Map` keyed by strings, with contracts over their entries.

use vstd::prelude::*;

verus! {

#[verifier::external_type_specification]
#[verifier::external_body]
pub struct ExJsonValue(serde_json::Value);

#[verifier::external_type_specification]
#[verifier::external_body]
#[verifier::reject_recursive_types(K)]
#[verifier::reject_recursive_types(V)]
pub struct ExJsonMap<K, V>(serde_json::Map<K, V>);

/// The entries of a JSON object, by key.
pub uninterp spec fn json_entries(m: serde_json::Map<String, serde_json::Value>) -> Map<Seq<char>, serde_json::Value>;

/// An empty JSON object.
///
/// Calls `serde_json::Map::new`, which makes a map with no entries.
#[verifier::external_body]
pub(crate) fn json_object_new() -> (r: serde_json::Map<String, serde_json::Value>)
    ensures
        json_entries(r).dom().is_empty(),
{
    serde_json::Map::new()
}

/// Sets the value of `key`.
///
/// Calls `serde_json::Map::insert`, which adds the entry or replaces the value of an
/// existing key.
#[verifier::external_body]
pub(crate) fn json_object_insert(m: &mut serde_json::Map<String, serde_json::Value>, key: String, value: serde_json::Value)
    ensures
        json_entries(*final(m)) == json_entries(*old(m)).insert(key@, value),
{
    m.insert(key, value);
}

/// The value of `key`, if the object has one.
///
/// Calls `serde_json::Map::get`, which looks the key up.
#[verifier::external_body]
pub(crate) fn json_object_get<'a>(m: &'a serde_json::Map<String, serde_json::Value>, key: &str) -> (r: Option<&'a serde_json::Value>)
    ensures
        match r {
            Some(v) => json_entries(*m).contains_key(key@) && json_entries(*m)[key@] == *v,
            None => !json_entries(*m).contains_key(key@),
        },
{
    m.get(key)
}

/// A copy of the object.
///
/// Calls `Clone::clone` of `serde_json::Map`, which clones every key and value.
#[verifier::external_body]
pub(crate) fn json_object_clone(m: &serde_json::Map<String, serde_json::Value>) -> (r: serde_json::Map<String, serde_json::Value>)
    ensures
        json_entries(r) == json_entries(*m),
{
    m.clone()
}

/// Adds every entry of `other`, whose values replace those of keys already present.
///
/// Calls `Extend::extend` of `serde_json::Map`, which inserts the entries of `other` one by one.
#[verifier::external_body]
pub(crate) fn json_object_extend(m: &mut serde_json::Map<String, serde_json::Value>, other: serde_json::Map<String, serde_json::Value>)
    ensures
        json_entries(*final(m)) == json_entries(*old(m)).union_prefer_right(json_entries(other)),
{
    m.extend(other);
}

/// The member `key` of a JSON value, if it is an object that has one.
pub uninterp spec fn json_member(v: serde_json::Value, key: Seq<char>) -> Option<serde_json::Value>;

/// The text of a JSON value, if it is a string.
pub uninterp spec fn json_str(v: serde_json::Value) -> Option<Seq<char>>;

/// The elements of a JSON value, if it is an array.
pub uninterp spec fn json_elements(v: serde_json::Value) -> Option<Seq<serde_json::Value>>;

/// The JSON string holding `s`.
pub uninterp spec fn json_text(s: Seq<char>) -> serde_json::Value;

/// The JSON string holding `s`, or null.
pub uninterp spec fn json_opt_text(s: Option<Seq<char>>) -> serde_json::Value;

/// The JSON array of these strings.
pub uninterp spec fn json_texts(s: Seq<Seq<char>>) -> serde_json::Value;

/// The JSON boolean `b`.
pub uninterp spec fn json_bool(b: bool) -> serde_json::Value;

/// The JSON object with these entries.
pub uninterp spec fn json_object_of(entries: Map<Seq<char>, serde_json::Value>) -> serde_json::Value;

/// The member `key` of a JSON object.
///
/// Calls `serde_json::Value::get` with a string key, which looks the key up in an object
/// and finds nothing in any other kind of value.
#[verifier::external_body]
pub(crate) fn json_get<'a>(v: &'a serde_json::Value, key: &str) -> (r: Option<&'a serde_json::Value>)
    ensures
        match r {
            Some(m) => json_member(*v, key@) == Some(*m),
            None => json_member(*v, key@) is None,
        },
{
    v.get(key)
}

/// The text of a JSON string.
///
/// Calls `serde_json::Value::as_str`, which gives the text of a string and nothing for
/// any other kind of value.
#[verifier::external_body]
pub(crate) fn json_as_str(v: &serde_json::Value) -> (r: Option<String>)
    ensures
        match r {
            Some(s) => json_str(*v) == Some(s@),
            None => json_str(*v) is None,
        },
{
    v.as_str().map(|s| s.to_string())
}

/// The elements of a JSON array.
///
/// Calls `serde_json::Value::as_array`, which gives the elements of an array and nothing
/// for any other kind of value.
#[verifier::external_body]
pub(crate) fn json_as_array<'a>(v: &'a serde_json::Value) -> (r: Option<&'a Vec<serde_json::Value>>)
    ensures
        match r {
            Some(a) => json_elements(*v) == Some(a@),
            None => json_elements(*v) is None,
        },
{
    v.as_array()
}

/// A JSON string.
///
/// Makes `serde_json::Value::String(s)`.
#[verifier::external_body]
pub(crate) fn json_from_string(s: String) -> (r: serde_json::Value)
    ensures
        r == json_text(s@),
{
    serde_json::Value::String(s)
}

/// A JSON string, or null for `None`.
///
/// Calls `serde_json::Value::from` on an `Option<String>`, which gives null for `None`
/// and a string otherwise.
#[verifier::external_body]
pub(crate) fn json_from_opt_string(s: Option<String>) -> (r: serde_json::Value)
    ensures
        r == json_opt_text(match s {
            Some(t) => Some(t@),
            None => None,
        }),
{
    serde_json::Value::from(s)
}

/// A JSON array of strings.
///
/// Calls `serde_json::Value::from` on a `Vec<String>`, which makes an array of strings in
/// the same order.
#[verifier::external_body]
pub(crate) fn json_from_strings(items: Vec<String>) -> (r: serde_json::Value)
    ensures
        r == json_texts(items@.map_values(|s: String| s@)),
{
    serde_json::Value::from(items)
}

/// A JSON boolean.
///
/// Makes `serde_json::Value::Bool(b)`.
#[verifier::external_body]
pub(crate) fn json_from_bool(b: bool) -> (r: serde_json::Value)
    ensures
        r == json_bool(b),
{
    serde_json::Value::Bool(b)
}

/// A JSON object.
///
/// Makes `serde_json::Value::Object(m)`.
#[verifier::external_body]
pub(crate) fn json_from_object(m: serde_json::Map<String, serde_json::Value>) -> (r: serde_json::Value)
    ensures
        r == json_object_of(json_entries(m)),
{
    serde_json::Value::Object(m)
}

/// The entries of a JSON value, if it is an object.
pub uninterp spec fn json_fields(v: serde_json::Value) -> Option<Map<Seq<char>, serde_json::Value>>;

/// The object of a JSON value.
///
/// Calls `serde_json::Value::as_object`, which gives the map of an object and nothing for
/// any other kind of value.
#[verifier::external_body]
pub(crate) fn json_as_object<'a>(v: &'a serde_json::Value) -> (r: Option<&'a serde_json::Map<String, serde_json::Value>>)
    ensures
        match r {
            Some(m) => json_fields(*v) == Some(json_entries(*m)),
            None => json_fields(*v) is None,
        },
{
    v.as_object()
}

/// The keys of a JSON object.
///
/// Calls `serde_json::Map::keys` and copies each key; every key of the object is listed.
#[verifier::external_body]
pub(crate) fn json_object_keys(m: &serde_json::Map<String, serde_json::Value>) -> (r: Vec<String>)
    ensures
        forall|k: Seq<char>| json_entries(*m).contains_key(k) ==> exists|i: int| 0 <= i < r@.len() && #[trigger] r@[i]@ == k,
{
    m.keys().cloned().collect()
}

/// The text of member `key` of `args`, if it is a string.
pub open spec fn str_member(args: serde_json::Value, key: Seq<char>) -> Option<Seq<char>> {
    match json_member(args, key) {
        Some(v) => json_str(v),
        None => None,
    }
}

/// The strings among the elements of member `key` of `args`, if it is an array.
pub open spec fn str_elements(args: serde_json::Value, key: Seq<char>) -> Seq<Seq<char>> {
    match json_member(args, key) {
        Some(v) => match json_elements(v) {
            Some(items) => items.filter_map(|e: serde_json::Value| json_str(e)),
            None => Seq::empty(),
        },
        None => Seq::empty(),
    }
}

pub fn string_member(args: &serde_json::Value, key: &str) -> (r: Option<String>)
    ensures
        match str_member(*args, key@) {
            Some(t) => r matches Some(s) && s@ == t,
            None => r is None,
        },
{
    match json_get(args, key) {
        Some(v) => json_as_str(v),
        None => None,
    }
}

/// The strings among the elements of member `key` of `args`, in order; none when the
/// member is missing or not an array.
pub fn string_elements(args: &serde_json::Value, key: &str) -> (r: Vec<String>)
    ensures
        r@.map_values(|o: String| o@) == str_elements(*args, key@),
{
    let mut out: Vec<String> = Vec::new();
    match json_get(args, key) {
        Some(v) => match json_as_array(v) {
            Some(items) => {
                let ghost f = |e: serde_json::Value| json_str(e);
                let mut i: usize = 0;
                while i < items.len()
                    invariant
                        i <= items@.len(),
                        f == (|e: serde_json::Value| json_str(e)),
                        out@.map_values(|o: String| o@) == items@.take(i as int).filter_map(f),
                    decreases items@.len() - i,
                {
                    proof {
                        items@.lemma_filter_map_take_succ(f, i as int);
                    }
                    let ghost before = out@.map_values(|o: String| o@);
                    match json_as_str(&items[i]) {
                        Some(s) => {
                            out.push(s);
                            assert(out@.map_values(|o: String| o@) =~= before.push(f(items@[i as int])->0));
                        },
                        None => {},
                    }
                    i = i + 1;
                }
                assert(items@.take(items@.len() as int) =~= items@);
            },
            None => {
                assert(out@.map_values(|o: String| o@) =~= Seq::<Seq<char>>::empty());
            },
        },
        None => {
            assert(out@.map_values(|o: String| o@) =~= Seq::<Seq<char>>::empty());
        },
    }
    out
}

/// A JSON value parsed from text, if the text is JSON.
pub uninterp spec fn json_value_of_text(text: Seq<char>) -> Option<serde_json::Value>;

/// Parses JSON text.
///
/// Calls `serde_json::from_str::<serde_json::Value>`; the value, or nothing when the text
/// is not JSON, is what that call gives for this text, named `json_value_of_text`.
#[verifier::external_body]
pub(crate) fn parse_json_value(text: &str) -> (r: Option<serde_json::Value>)
    ensures
        r == json_value_of_text(text@),
{
    serde_json::from_str::<serde_json::Value>(text).ok()
}

} // verus!
