//! What the library reads from JSON texts. `serde_json` parses and prints;
//! a JSON value travels through the library as its text, and picking members
//! out of an object is done here.
use vstd::prelude::*;
use crate::text::{chars_eq, chars_of, opt_strings, opt_view, pairs_view};

verus! {

/// The members of the JSON text `text`, each as its key and its value
/// printed back as compact JSON: `None` when `text` is not JSON, no members
/// when it is JSON but not an object.
pub uninterp spec fn json_members(text: Seq<char>) -> Option<Seq<(Seq<char>, Seq<char>)>>;

/// The items of the JSON text `text`, each printed back as compact JSON,
/// when `text` is a JSON array.
pub uninterp spec fn json_items(text: Seq<char>) -> Option<Seq<Seq<char>>>;

/// The content of the JSON text `text`, when it is a JSON string.
pub uninterp spec fn json_str(text: Seq<char>) -> Option<Seq<char>>;

/// The whole number the JSON text `text` holds, when it is a number that
/// fits in a `u64`.
pub uninterp spec fn json_u64(text: Seq<char>) -> Option<u64>;

/// The boolean the JSON text `text` holds, when it is `true` or `false`.
pub uninterp spec fn json_bool(text: Seq<char>) -> Option<bool>;

/// The pretty-printed JSON object with `members` (each a key and a value's
/// JSON text), when every value parses.
pub uninterp spec fn json_pretty_object(members: Seq<(Seq<char>, Seq<char>)>) -> Option<Seq<char>>;

/// The plain values of optional pairs of strings.
pub open spec fn opt_pairs_view(o: Option<Vec<(String, String)>>) -> Option<
    Seq<(Seq<char>, Seq<char>)>,
> {
    match o {
        Some(v) => Some(pairs_view(v@)),
        None => None,
    }
}

/// Parses `text` with `serde_json::from_str::<serde_json::Value>`; for an
/// object (`Value::as_object`) lists each key with its value printed by
/// `Value`'s `to_string`.
#[verifier::external_body]
pub(crate) fn members_of(text: &str) -> (r: Option<Vec<(String, String)>>)
    ensures
        opt_pairs_view(r) == json_members(text@),
{
    let v: serde_json::Value = serde_json::from_str(text).ok()?;
    Some(match v.as_object() {
        Some(o) => o.iter().map(|(k, x)| (k.clone(), x.to_string())).collect(),
        None => Vec::new(),
    })
}

/// Parses `text` with `serde_json::from_str::<serde_json::Value>`; for an
/// array (`Value::as_array`) prints each item with `Value`'s `to_string`.
#[verifier::external_body]
pub(crate) fn items_of(text: &str) -> (r: Option<Vec<String>>)
    ensures
        match json_items(text@) {
            Some(t) => r matches Some(v) && v@.map_values(|s: String| s@) == t,
            None => r is None,
        },
{
    let v: serde_json::Value = serde_json::from_str(text).ok()?;
    v.as_array().map(|a| a.iter().map(|x| x.to_string()).collect())
}

/// Parses `text` with `serde_json::from_str::<String>`.
#[verifier::external_body]
pub(crate) fn string_of_json(text: &str) -> (r: Option<String>)
    ensures
        opt_view(r) == json_str(text@),
{
    serde_json::from_str::<String>(text).ok()
}

/// Parses `text` with `serde_json::from_str::<serde_json::Value>`, then
/// reads `Value::as_u64`.
#[verifier::external_body]
pub(crate) fn u64_of_json(text: &str) -> (r: Option<u64>)
    ensures
        r == json_u64(text@),
{
    serde_json::from_str::<serde_json::Value>(text).ok()?.as_u64()
}

/// Parses `text` with `serde_json::from_str::<serde_json::Value>`, then
/// reads `Value::as_bool`.
#[verifier::external_body]
pub(crate) fn bool_of_json(text: &str) -> (r: Option<bool>)
    ensures
        r == json_bool(text@),
{
    serde_json::from_str::<serde_json::Value>(text).ok()?.as_bool()
}

/// Parses each value with `serde_json::from_str::<serde_json::Value>`,
/// inserts it under its key into a `serde_json::Map`, and prints the object
/// with `serde_json::to_string_pretty`.
#[verifier::external_body]
pub(crate) fn pretty_object(members: &Vec<(String, String)>) -> (r: Option<String>)
    ensures
        opt_view(r) == json_pretty_object(pairs_view(members@)),
{
    let mut out = serde_json::Map::new();
    for (k, v) in members {
        out.insert(k.clone(), serde_json::from_str(v).ok()?);
    }
    serde_json::to_string_pretty(&serde_json::Value::Object(out)).ok()
}

// ───────────────────────── reading members ─────────────────────────

/// The value at `key` among `members`: the first member with that key.
pub open spec fn lookup_s(members: Seq<(Seq<char>, Seq<char>)>, key: Seq<char>) -> Option<Seq<char>>
    decreases members.len(),
{
    if members.len() == 0 {
        None
    } else if members[0].0 == key {
        Some(members[0].1)
    } else {
        lookup_s(members.drop_first(), key)
    }
}

/// The value at `key` of the JSON text `text`, as JSON text.
pub open spec fn member_s(text: Seq<char>, key: Seq<char>) -> Option<Seq<char>> {
    match json_members(text) {
        Some(ms) => lookup_s(ms, key),
        None => None,
    }
}

/// The string at `key` of the JSON text `text`.
pub open spec fn member_str_s(text: Seq<char>, key: Seq<char>) -> Option<Seq<char>> {
    match member_s(text, key) {
        Some(v) => json_str(v),
        None => None,
    }
}

/// The value at `key` among `members`.
pub fn lookup(members: &Vec<(String, String)>, key: &str) -> (r: Option<String>)
    ensures
        opt_view(r) == lookup_s(pairs_view(members@), key@),
{
    let ghost ms = pairs_view(members@);
    let kv = chars_of(key);
    let mut i: usize = 0;
    assert(ms.skip(0) == ms);
    while i < members.len()
        invariant
            i <= members.len(),
            ms == pairs_view(members@),
            kv@ == key@,
            lookup_s(ms, key@) == lookup_s(ms.skip(i as int), key@),
        decreases members.len() - i,
    {
        assert(ms.skip(i as int)[0] == ms[i as int]);
        assert(ms.skip(i as int).drop_first() == ms.skip(i + 1));
        let mv = chars_of(members[i].0.as_str());
        if chars_eq(&mv, &kv) {
            return Some(members[i].1.clone());
        }
        i += 1;
    }
    assert(ms.skip(i as int).len() == 0);
    None
}

/// The value at `key` of the JSON text `text`, as JSON text.
pub fn member(text: &str, key: &str) -> (r: Option<String>)
    ensures
        opt_view(r) == member_s(text@, key@),
{
    match members_of(text) {
        Some(ms) => lookup(&ms, key),
        None => None,
    }
}

/// The string at `key` of the JSON text `text`.
pub fn member_str(text: &str, key: &str) -> (r: Option<String>)
    ensures
        opt_view(r) == member_str_s(text@, key@),
{
    match member(text, key) {
        Some(v) => string_of_json(v.as_str()),
        None => None,
    }
}

/// The whole number at `key` of the JSON text `text`.
pub open spec fn member_u64_s(text: Seq<char>, key: Seq<char>) -> Option<u64> {
    match member_s(text, key) {
        Some(v) => json_u64(v),
        None => None,
    }
}

/// The boolean at `key` of the JSON text `text`.
pub open spec fn member_bool_s(text: Seq<char>, key: Seq<char>) -> Option<bool> {
    match member_s(text, key) {
        Some(v) => json_bool(v),
        None => None,
    }
}

/// The items of the array at `key` of the JSON text `text`, each as its
/// string when it is one.
pub open spec fn member_strs_s(text: Seq<char>, key: Seq<char>) -> Option<Seq<Option<Seq<char>>>> {
    match member_s(text, key) {
        Some(t) => match json_items(t) {
            Some(items) => Some(items.map_values(|i: Seq<char>| json_str(i))),
            None => None,
        },
        None => None,
    }
}

/// The whole number at `key` of the JSON text `text`.
pub fn member_u64(text: &str, key: &str) -> (r: Option<u64>)
    ensures
        r == member_u64_s(text@, key@),
{
    match member(text, key) {
        Some(v) => u64_of_json(v.as_str()),
        None => None,
    }
}

/// The boolean at `key` of the JSON text `text`.
pub fn member_bool(text: &str, key: &str) -> (r: Option<bool>)
    ensures
        r == member_bool_s(text@, key@),
{
    match member(text, key) {
        Some(v) => bool_of_json(v.as_str()),
        None => None,
    }
}

/// The items of the array at `key` of the JSON text `text`, each as its
/// string when it is one.
pub fn member_strs(text: &str, key: &str) -> (r: Option<Vec<Option<String>>>)
    ensures
        match member_strs_s(text@, key@) {
            Some(t) => r matches Some(v) && opt_strings(v@) == t,
            None => r is None,
        },
{
    let t = match member(text, key) {
        Some(t) => t,
        None => return None,
    };
    let items = match items_of(t.as_str()) {
        Some(items) => items,
        None => return None,
    };
    let ghost iv = items@.map_values(|s: String| s@);
    let mut out: Vec<Option<String>> = Vec::new();
    let mut i: usize = 0;
    while i < items.len()
        invariant
            i <= items.len(),
            iv == items@.map_values(|s: String| s@),
            opt_strings(out@) == iv.take(i as int).map_values(|x: Seq<char>| json_str(x)),
        decreases items.len() - i,
    {
        let ghost before = opt_strings(out@);
        let s = string_of_json(items[i].as_str());
        out.push(s);
        assert(opt_strings(out@) == before.push(opt_view(s)));
        assert(iv.take(i + 1) == iv.take(i as int).push(iv[i as int]));
        assert(iv.take(i + 1).map_values(|x: Seq<char>| json_str(x)) == iv.take(i as int).map_values(
            |x: Seq<char>| json_str(x),
        ).push(json_str(iv[i as int])));
        i += 1;
    }
    assert(iv.take(items.len() as int) == iv);
    Some(out)
}

} // verus!
