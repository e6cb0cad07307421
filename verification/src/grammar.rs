//! Grammar plugins: which languages are built in, where cached grammars
//! live, and what the grammar-management tool answers.
use vstd::prelude::*;
use crate::pathing::join_path;
use crate::text::{chars_of, push_str};

verus! {

/// The languages whose grammars are built in.
pub open spec fn core_languages() -> Seq<Seq<char>> {
    seq!["rust"@, "typescript"@, "python"@]
}

fn str_eq(a: &str, b: &str) -> (r: bool)
    ensures
        r == (a@ == b@),
{
    let x = chars_of(a);
    let y = chars_of(b);
    if x.len() != y.len() {
        return false;
    }
    let mut i: usize = 0;
    while i < x.len()
        invariant
            i <= x.len() == y.len(),
            x@ == a@,
            y@ == b@,
            forall|j: int| 0 <= j < i ==> x@[j] == y@[j],
        decreases x.len() - i,
    {
        if x[i] != y[i] {
            return false;
        }
        i += 1;
    }
    assert(x@ == y@);
    true
}

/// Whether a language's grammar is built in.
pub fn is_core_language(lang: &str) -> (r: bool)
    ensures
        r == core_languages().contains(lang@),
{
    let r = str_eq(lang, "rust") || str_eq(lang, "typescript") || str_eq(lang, "python");
    proof {
        if r {
            if lang@ == "rust"@ {
                assert(core_languages()[0] == lang@);
            } else if lang@ == "typescript"@ {
                assert(core_languages()[1] == lang@);
            } else {
                assert(core_languages()[2] == lang@);
            }
        } else {
            assert forall|i: int| 0 <= i < core_languages().len() implies core_languages()[i]
                != lang@ by {}
        }
    }
    r
}

/// `<cache_dir>/<lang>.wasm`: where the grammar of `lang` is cached.
pub fn wasm_path(cache_dir: &str, lang: &str) -> (r: String)
    ensures
        r@ == crate::path::join_s(cache_dir@, lang@ + ".wasm"@),
{
    let mut f = String::from_str(lang);
    push_str(&mut f, ".wasm");
    join_path(cache_dir, f.as_str())
}

/// `<cache_dir>/<lang>_prune.scm`: where the body-prune query of `lang` is cached.
pub fn scm_path(cache_dir: &str, lang: &str) -> (r: String)
    ensures
        r@ == crate::path::join_s(cache_dir@, lang@ + "_prune.scm"@),
{
    let mut f = String::from_str(lang);
    push_str(&mut f, "_prune.scm");
    join_path(cache_dir, f.as_str())
}

pub open spec fn grammar_missing_msg(lang: Seq<char>, wasm: Seq<char>) -> Seq<char> {
    "Grammar for '"@ + lang + "' is not available. Bundle the .wasm file at '"@ + wasm
        + "' to enable this language."@
}

/// Whether the grammar of `lang` can be used: built in, or cached at `wasm`
/// (`wasm_exists` says whether that file exists).  This build never downloads.
pub fn ensure_grammar_available(lang: &str, wasm: &str, wasm_exists: bool) -> (r: Result<(), String>)
    ensures
        core_languages().contains(lang@) || wasm_exists ==> r is Ok,
        !core_languages().contains(lang@) && !wasm_exists ==> (r matches Err(m) && m@
            == grammar_missing_msg(lang@, wasm@)),
{
    if is_core_language(lang) || wasm_exists {
        return Ok(());
    }
    let mut m = String::from_str("Grammar for '");
    push_str(&mut m, lang);
    push_str(&mut m, "' is not available. Bundle the .wasm file at '");
    push_str(&mut m, wasm);
    push_str(&mut m, "' to enable this language.");
    Err(m)
}

pub open spec fn add_unsupported_msg() -> Seq<char> {
    "action=add is not supported in this build (no external downloads). Bundle grammar .wasm files locally."@
}

pub open spec fn invalid_action_msg(action: Seq<char>) -> Seq<char> {
    "Invalid action '"@ + action + "'. Must be 'status' or 'add'."@
}

/// What the grammar tool answers to an action other than `status` (blanks
/// trimmed); `None` for `status`, whose report lists the languages.
pub fn grammar_action_error(action: &str) -> (r: Option<String>)
    ensures
        crate::text::trim_s(action@) == "status"@ ==> r is None,
        crate::text::trim_s(action@) == "add"@ ==> (r matches Some(m) && m@ == add_unsupported_msg()),
        crate::text::trim_s(action@) != "status"@ && crate::text::trim_s(action@) != "add"@ ==> (
        r matches Some(m) && m@ == invalid_action_msg(crate::text::trim_s(action@))),
{
    let a = crate::text::trim_string(action);
    proof {
        reveal_strlit("add");
        reveal_strlit("status");
    }
    assert("add"@.len() != "status"@.len());
    if str_eq(a.as_str(), "status") {
        None
    } else if str_eq(a.as_str(), "add") {
        let m = String::from_str(
            "action=add is not supported in this build (no external downloads). Bundle grammar .wasm files locally.",
        );
        assert(m@ == add_unsupported_msg());
        Some(m)
    } else {
        let mut m = String::from_str("Invalid action '");
        push_str(&mut m, a.as_str());
        push_str(&mut m, "'. Must be 'status' or 'add'.");
        Some(m)
    }
}

} // verus!
