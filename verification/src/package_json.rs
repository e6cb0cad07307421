//! What is read from a `package.json`: the name it declares, the workspace
//! patterns it lists, and the compact form of it that goes into a context
//! slice. `serde_json` parses and prints; which fields count is decided here.
use vstd::prelude::*;
use crate::text::{opt_strings, opt_view, pairs_view};
use crate::json::{json_members, json_pretty_object, lookup, lookup_s, members_of, pretty_object};

verus! {

/// The string at the top-level `key` of the JSON text `text`, if `text` is
/// JSON and that value is a string.
pub uninterp spec fn json_top_string(text: Seq<char>, key: Seq<char>) -> Option<Seq<char>>;

/// Parses `text` with `serde_json::from_str::<serde_json::Value>`, then reads
/// `Value::get(key)` and `Value::as_str`.
#[verifier::external_body]
fn top_level_string(text: &str, key: &str) -> (r: Option<String>)
    ensures
        match json_top_string(text@, key@) {
            Some(n) => r matches Some(s) && s@ == n,
            None => r is None,
        },
{
    let v: serde_json::Value = serde_json::from_str(text).ok()?;
    v.get(key).and_then(|x| x.as_str()).map(|s| s.to_string())
}

/// What stands at a top-level key of a JSON text, as far as a list of
/// strings can be read from it.
pub enum JsonList {
    /// The text is not JSON, or the key is missing or holds neither an
    /// array nor an object.
    Missing,
    /// An array: each item's text when it is a string.
    Array(Vec<Option<String>>),
    /// An object: the items of its array at the inner key, when it has one.
    Object(Option<Vec<Option<String>>>),
}

/// A `JsonList` as plain values.
pub enum JsonListV {
    Missing,
    Array(Seq<Option<Seq<char>>>),
    Object(Option<Seq<Option<Seq<char>>>>),
}

/// The plain values of a `JsonList`.
pub open spec fn json_list_v(l: JsonList) -> JsonListV {
    match l {
        JsonList::Missing => JsonListV::Missing,
        JsonList::Array(a) => JsonListV::Array(opt_strings(a@)),
        JsonList::Object(o) => JsonListV::Object(
            match o {
                Some(a) => Some(opt_strings(a@)),
                None => None,
            },
        ),
    }
}

/// What stands at the top-level `key` of the JSON text `text` (and, for an
/// object, at its `inner` key).
pub uninterp spec fn json_list_field(text: Seq<char>, key: Seq<char>, inner: Seq<char>) -> JsonListV;

/// Parses `text` with `serde_json::from_str::<serde_json::Value>`, reads
/// `Value::get(key)`; for an array each item through `Value::as_str`, for an
/// object `Value::get(inner)` and `Value::as_array`, then each item the same way.
#[verifier::external_body]
fn list_field(text: &str, key: &str, inner: &str) -> (r: JsonList)
    ensures
        json_list_v(r) == json_list_field(text@, key@, inner@),
{
    let Ok(v) = serde_json::from_str::<serde_json::Value>(text) else {
        return JsonList::Missing;
    };
    match v.get(key) {
        Some(serde_json::Value::Array(a)) => JsonList::Array(a.iter().map(|x| x.as_str().map(|s| s.to_string())).collect()),
        Some(serde_json::Value::Object(o)) => JsonList::Object(
            o.get(inner).and_then(|p| p.as_array()).map(|a| a.iter().map(|x| x.as_str().map(|s| s.to_string())).collect()),
        ),
        _ => JsonList::Missing,
    }
}

// ───────────────────────── what the library reads ─────────────────────────

/// The name a `package.json` declares.
pub fn package_json_name(text: &str) -> (r: Option<String>)
    ensures
        match json_top_string(text@, "name"@) {
            Some(n) => r matches Some(s) && s@ == n,
            None => r is None,
        },
{
    top_level_string(text, "name")
}

/// The name of a workspace member: the name its `package.json` declares,
/// else its directory's name.
pub fn member_name(package_json: Option<&str>, dir_name: &str) -> (r: String)
    ensures
        r@ == match package_json {
            Some(t) => match json_top_string(t@, "name"@) {
                Some(n) => n,
                None => dir_name@,
            },
            None => dir_name@,
        },
{
    match package_json {
        Some(t) => match package_json_name(t) {
            Some(n) => n,
            None => String::from_str(dir_name),
        },
        None => String::from_str(dir_name),
    }
}

/// The strings among `items`, in order.
pub open spec fn strings_of(items: Seq<Option<Seq<char>>>) -> Seq<Seq<char>>
    decreases items.len(),
{
    if items.len() == 0 {
        seq![]
    } else {
        match items.last() {
            Some(s) => strings_of(items.drop_last()).push(s),
            None => strings_of(items.drop_last()),
        }
    }
}

/// The workspace patterns of a `package.json`: the strings of its
/// `workspaces` array, or of the `packages` array of a `workspaces` object.
pub open spec fn npm_patterns_s(text: Seq<char>) -> Seq<Seq<char>> {
    match json_list_field(text, "workspaces"@, "packages"@) {
        JsonListV::Array(a) => strings_of(a),
        JsonListV::Object(Some(a)) => strings_of(a),
        _ => seq![],
    }
}

pub(crate) fn strings_in(items: &Vec<Option<String>>) -> (r: Vec<String>)
    ensures
        r@.map_values(|s: String| s@) == strings_of(opt_strings(items@)),
{
    let ghost iv = opt_strings(items@);
    let mut out: Vec<String> = Vec::new();
    let mut i: usize = 0;
    while i < items.len()
        invariant
            i <= items.len(),
            iv == opt_strings(items@),
            out@.map_values(|s: String| s@) == strings_of(iv.take(i as int)),
        decreases items.len() - i,
    {
        assert(iv.take(i + 1).drop_last() == iv.take(i as int));
        assert(iv.take(i + 1).last() == iv[i as int]);
        if let Some(s) = &items[i] {
            let ghost before = out@.map_values(|s: String| s@);
            out.push(s.clone());
            assert(out@.map_values(|s: String| s@) == before.push(s@));
        }
        i += 1;
    }
    assert(iv.take(items.len() as int) == iv);
    out
}

/// The workspace patterns of a `package.json`.
pub fn npm_workspace_patterns(text: &str) -> (r: Vec<String>)
    ensures
        r@.map_values(|s: String| s@) == npm_patterns_s(text@),
{
    match list_field(text, "workspaces", "packages") {
        JsonList::Array(a) => strings_in(&a),
        JsonList::Object(Some(a)) => strings_in(&a),
        _ => {
            let r: Vec<String> = Vec::new();
            assert(r@.map_values(|s: String| s@) =~= Seq::<Seq<char>>::empty());
            r
        },
    }
}

/// The fields of a `package.json` kept in its compact form, in this order.
pub open spec fn compact_package_keys() -> Seq<Seq<char>> {
    seq![
        "name"@, "version"@, "private"@, "type"@, "workspaces"@, "main"@, "module"@, "types"@,
        "exports"@, "scripts"@, "dependencies"@, "devDependencies"@, "peerDependencies"@,
        "optionalDependencies"@,
    ]
}

/// The members among `members` at `keys`, in the order of `keys`, each
/// key with its value.
pub open spec fn kept_members(members: Seq<(Seq<char>, Seq<char>)>, keys: Seq<Seq<char>>) -> Seq<
    (Seq<char>, Seq<char>),
>
    decreases keys.len(),
{
    if keys.len() == 0 {
        seq![]
    } else {
        let rest = kept_members(members, keys.drop_last());
        match lookup_s(members, keys.last()) {
            Some(v) => rest.push((keys.last(), v)),
            None => rest,
        }
    }
}

/// The compact form of a `package.json` text: its kept members, printed.
pub open spec fn compact_package_s(content: Seq<char>) -> Option<Seq<char>> {
    match json_members(content) {
        Some(ms) => json_pretty_object(kept_members(ms, compact_package_keys())),
        None => None,
    }
}

/// The compact form of a `package.json` for a context slice: the object of
/// its kept fields, pretty-printed; `None` when it is not JSON.
pub fn compact_package_json(content: &str) -> (r: Option<String>)
    ensures
        opt_view(r) == compact_package_s(content@),
{
    let names: [&str; 14] = [
        "name", "version", "private", "type", "workspaces", "main", "module", "types", "exports",
        "scripts", "dependencies", "devDependencies", "peerDependencies", "optionalDependencies",
    ];
    assert(names@.map_values(|n: &str| n@) =~= compact_package_keys());
    let members = match members_of(content) {
        Some(ms) => ms,
        None => return None,
    };
    let ghost ms = pairs_view(members@);
    let mut kept: Vec<(String, String)> = Vec::new();
    let mut i: usize = 0;
    while i < 14
        invariant
            i <= 14,
            ms == pairs_view(members@),
            names@.map_values(|n: &str| n@) == compact_package_keys(),
            pairs_view(kept@) == kept_members(ms, compact_package_keys().take(i as int)),
        decreases 14 - i,
    {
        let ghost keys = compact_package_keys();
        assert(keys.take(i + 1).drop_last() == keys.take(i as int));
        assert(names@.map_values(|n: &str| n@)[i as int] == names[i as int]@);
        assert(keys.take(i + 1).last() == names[i as int]@);
        let ghost before = pairs_view(kept@);
        match lookup(&members, names[i]) {
            Some(v) => {
                kept.push((String::from_str(names[i]), v));
                assert(pairs_view(kept@) == before.push((names[i as int]@, v@)));
            },
            None => {},
        }
        i += 1;
    }
    assert(compact_package_keys().take(14) == compact_package_keys());
    pretty_object(&kept)
}

} // verus!
