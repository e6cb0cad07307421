//! What the tool server decides about its requests: the path a `file://`
//! URI names, how well a path matches search terms, and the cap on output
//! returned inline.
use vstd::prelude::*;
use crate::text::{opt_strings, opt_view, pairs_view, strings_view, trim_s, trim_string, chars_eq};
use crate::json::{
    json_items, json_members, json_u64, items_of, lookup, member, member_s, member_str, member_str_s, members_of,
    string_of_json, u64_of_json,
};
use crate::pathing::{default_alias, default_alias_s};
use crate::path::split_s;
use crate::text::lemma_byte_len_add;
use vstd::utf8::encode_scalar;
use crate::sort::is_perm;
use crate::text::{
    byte_len, chars_of, contains, contains_s, fitting_prefix, is_ascii_alpha, lower_s, push_dec,
    push_str, starts_with_s, string_of_range,
};

verus! {

// ───────────────────────── URIs ─────────────────────────

/// `u` without a leading `file://`.
pub open spec fn strip_file_scheme(u: Seq<char>) -> Seq<char> {
    if starts_with_s(u, "file://"@) {
        u.skip(7)
    } else {
        u
    }
}

/// `r` without the `/` before a drive letter, as in `/C:/work`.
pub open spec fn drop_drive_slash(r: Seq<char>) -> Seq<char> {
    if r.len() >= 3 && r[0] == '/' && is_ascii_alpha(r[1]) && r[2] == ':' {
        r.skip(1)
    } else {
        r
    }
}

/// `s` without its trailing `/`s.
pub open spec fn trim_slashes_end(s: Seq<char>) -> Seq<char>
    decreases s.len(),
{
    if s.len() > 0 && s.last() == '/' {
        trim_slashes_end(s.drop_last())
    } else {
        s
    }
}

/// The path a workspace URI names, if any.
pub open spec fn path_of_uri(u: Seq<char>) -> Option<Seq<char>> {
    let p = trim_slashes_end(drop_drive_slash(strip_file_scheme(u)));
    if p.len() == 0 {
        None
    } else {
        Some(p)
    }
}

/// The path a workspace URI names: the `file://` scheme, the slash before a
/// drive letter and trailing slashes go; an empty rest names none.
pub fn extract_path_from_uri(uri: &str) -> (r: Option<String>)
    ensures
        match path_of_uri(uri@) {
            Some(p) => r matches Some(s) && s@ == p,
            None => r is None,
        },
{
    let v = chars_of(uri);
    let scheme = chars_of("file://");
    proof {
        reveal_strlit("file://");
    }
    let mut start: usize = if crate::text::starts_with(&v, &scheme) {
        7
    } else {
        0
    };
    assert(v@.skip(start as int) == strip_file_scheme(v@));
    let ghost rest = v@.skip(start as int);
    if v.len() >= start + 3 && v[start] == '/' && (('a' <= v[start + 1] && v[start + 1] <= 'z') || (
    'A' <= v[start + 1] && v[start + 1] <= 'Z')) && v[start + 2] == ':' {
        assert(rest[0] == v@[start as int] && rest[1] == v@[start + 1] && rest[2] == v@[start + 2]);
        assert(rest.skip(1) == v@.skip(start + 1));
        start += 1;
    } else {
        proof {
            if rest.len() >= 3 {
                assert(rest[0] == v@[start as int] && rest[1] == v@[start + 1] && rest[2] == v@[start
                    + 2]);
            }
        }
    }
    let ghost d = v@.skip(start as int);
    assert(d == drop_drive_slash(rest));
    let mut end = v.len();
    while end > start && v[end - 1] == '/'
        invariant
            start <= end <= v.len(),
            d == v@.skip(start as int),
            trim_slashes_end(v@.subrange(start as int, end as int)) == trim_slashes_end(d),
        decreases end - start,
    {
        assert(v@.subrange(start as int, end as int).drop_last() == v@.subrange(
            start as int,
            end - 1,
        ));
        end -= 1;
    }
    assert(d == v@.subrange(start as int, v.len() as int));
    let ghost t = v@.subrange(start as int, end as int);
    assert(trim_slashes_end(t) == t) by {
        if t.len() > 0 {
            assert(t.last() == v@[end - 1]);
        }
    }
    if end == start {
        None
    } else {
        Some(string_of_range(&v, start, end))
    }
}

// ───────────────────────── search terms ─────────────────────────

/// What follows the last `/` of `p` (all of it when there is none).
pub open spec fn last_segment(p: Seq<char>) -> Seq<char> {
    split_s(p, '/').last()
}

/// The score of one term: 30 when the file name holds it, else 10 when the
/// path does, else 0.
pub open spec fn term_score(p: Seq<char>, t: Seq<char>) -> int {
    if contains_s(last_segment(p), t) {
        30
    } else if contains_s(p, t) {
        10
    } else {
        0
    }
}

/// The summed score of `terms` against the lower-cased path `p`.
pub open spec fn path_score(p: Seq<char>, terms: Seq<Seq<char>>) -> int
    decreases terms.len(),
{
    if terms.len() == 0 {
        0
    } else {
        path_score(p, terms.drop_last()) + term_score(p, terms.last())
    }
}

proof fn lemma_path_score_bounds(p: Seq<char>, terms: Seq<Seq<char>>)
    ensures
        0 <= path_score(p, terms) <= 30 * terms.len(),
    decreases terms.len(),
{
    if terms.len() > 0 {
        lemma_path_score_bounds(p, terms.drop_last());
    }
}

/// How well `rel_path` (compared in ASCII lower case) matches search
/// `terms`: each term found in the file name adds 30, each found only
/// elsewhere in the path adds 10.
pub fn score_path(rel_path: &str, terms: &Vec<String>) -> (r: i32)
    requires
        30 * terms.len() <= i32::MAX,
    ensures
        r == path_score(lower_s(rel_path@), terms@.map_values(|t: String| t@)),
{
    let p = crate::text::lower_chars(chars_of(rel_path).as_slice());
    let segs = crate::path::split_bounds(&p, '/');
    proof {
        crate::path::lemma_split_len(p@, '/');
    }
    let (a, b) = segs[segs.len() - 1];
    let mut file: Vec<char> = Vec::new();
    let mut j = a;
    while j < b
        invariant
            a <= j <= b <= p.len(),
            file@ == p@.subrange(a as int, j as int),
        decreases b - j,
    {
        file.push(p[j]);
        j += 1;
        assert(p@.subrange(a as int, j as int) == p@.subrange(a as int, j - 1).push(p@[j - 1]));
    }
    assert(file@ == last_segment(p@));
    let ghost tv = terms@.map_values(|t: String| t@);
    let mut score: i32 = 0;
    let mut k: usize = 0;
    while k < terms.len()
        invariant
            k <= terms.len(),
            30 * terms.len() <= i32::MAX,
            tv == terms@.map_values(|t: String| t@),
            file@ == last_segment(p@),
            score == path_score(p@, tv.take(k as int)),
        decreases terms.len() - k,
    {
        proof {
            lemma_path_score_bounds(p@, tv.take(k as int));
        }
        assert(tv.take(k + 1).drop_last() == tv.take(k as int));
        assert(tv.take(k + 1).last() == terms@[k as int]@);
        let t = chars_of(terms[k].as_str());
        if contains(&file, &t) {
            score += 30;
        } else if contains(&p, &t) {
            score += 10;
        }
        k += 1;
    }
    assert(tv.take(terms.len() as int) == tv);
    score
}

// ───────────────────────── inline output ─────────────────────────

/// What a capped output ends with.
pub open spec fn truncation_note(max: nat, total: nat) -> Seq<char> {
    "\n\n... ✂️ [TRUNCATED: "@ + crate::text::dec_s(max) + "/"@ + crate::text::dec_s(total)
        + " chars to prevent IDE spill]"@
}

/// Output capped for inline return: when `content` takes more than
/// `max_chars` bytes, it keeps the longest prefix that fits and gets a note
/// of the cap and of its full size.
pub fn force_inline_truncate(content: String, max_chars: usize) -> (r: String)
    ensures
        r@ == inline_s(content@, max_chars as nat),
{
    let cs = content.as_str();
    proof {
        crate::text::lemma_str_len(cs);
    }
    let total = cs.as_bytes().len();
    if total <= max_chars {
        return content;
    }
    let v = chars_of(content.as_str());
    let k = crate::text::fitting_prefix_len(&v, max_chars);
    let mut out = string_of_range(&v, 0, k);
    assert(v@.subrange(0, k as int) == v@.take(k as int));
    push_str(&mut out, "\n\n... ✂️ [TRUNCATED: ");
    push_dec(&mut out, max_chars as u64);
    push_str(&mut out, "/");
    push_dec(&mut out, total as u64);
    push_str(&mut out, " chars to prevent IDE spill]");
    out
}

/// Text capped inline at `max` bytes: itself when it fits, else its longest
/// fitting prefix followed by the truncation note.
pub open spec fn inline_s(t: Seq<char>, max: nat) -> Seq<char> {
    if byte_len(t) <= max {
        t
    } else {
        fitting_prefix(t, max) + truncation_note(max, byte_len(t))
    }
}

/// `10` to the power `k`.
pub open spec fn pow10(k: nat) -> nat
    decreases k,
{
    if k == 0 {
        1
    } else {
        10 * pow10((k - 1) as nat)
    }
}

proof fn lemma_fitting_prefix_fits(t: Seq<char>, max: nat)
    ensures
        byte_len(fitting_prefix(t, max)) <= max || fitting_prefix(t, max).len() == 0,
    decreases t.len(),
{
    if !(byte_len(t) <= max || t.len() == 0) {
        lemma_fitting_prefix_fits(t.drop_last(), max);
    }
}

proof fn lemma_byte_len_at_most_four(s: Seq<char>)
    ensures
        byte_len(s) <= 4 * s.len(),
    decreases s.len(),
{
    if s.len() > 0 {
        lemma_byte_len_at_most_four(s.drop_last());
        assert(s == s.drop_last().push(s.last()));
        crate::text::lemma_byte_len_push(s.drop_last(), s.last());
        assert(encode_scalar(s.last() as u32).len() <= 4);
    }
}

proof fn lemma_dec_ascii(n: nat, k: nat)
    requires
        1 <= k,
        n < pow10(k),
    ensures
        byte_len(crate::text::dec_s(n)) == crate::text::dec_s(n).len(),
        crate::text::dec_s(n).len() <= k,
    decreases n,
{
    let d = crate::text::dec_s(n);
    if n < 10 {
        assert(d == seq![crate::text::digit_char(n)]);
        crate::text::lemma_byte_len_push(Seq::<char>::empty(), crate::text::digit_char(n));
        assert(Seq::<char>::empty().push(crate::text::digit_char(n)) == d);
        assert(crate::text::digit_char(n) as u32 == ('0' as u32) + n);
        assert(encode_scalar(crate::text::digit_char(n) as u32).len() == 1);
    } else {
        let q = n / 10;
        let km1 = (k - 1) as nat;
        assert(k >= 2) by {
            if k == 1 {
                assert(pow10(1) == 10 * pow10(0));
            }
        }
        assert(pow10(k) == 10 * pow10(km1));
        assert(q < pow10(km1)) by (nonlinear_arith)
            requires
                q == n / 10,
                n < 10 * pow10(km1),
        ;
        lemma_dec_ascii(q, km1);
        let c = crate::text::digit_char(n % 10);
        assert(d == crate::text::dec_s(q).push(c));
        crate::text::lemma_byte_len_push(crate::text::dec_s(q), c);
        assert(c as u32 == ('0' as u32) + n % 10);
        assert(encode_scalar(c as u32).len() == 1);
    }
}

/// A capped output never runs more than 250 bytes past its cap, and an
/// output longer than its cap carries the `✂️` marker.
pub proof fn law_inline_cap(t: Seq<char>, max: nat)
    requires
        max <= u64::MAX,
        byte_len(t) <= u64::MAX,
    ensures
        byte_len(inline_s(t, max)) <= max + 250,
        byte_len(inline_s(t, max)) > max ==> contains_s(inline_s(t, max), "✂️"@),
{
    if byte_len(t) > max {
        let fp = fitting_prefix(t, max);
        let head = "\n\n... ✂️ [TRUNCATED: "@;
        let tail = " chars to prevent IDE spill]"@;
        let dm = crate::text::dec_s(max);
        let dt = crate::text::dec_s(byte_len(t));
        reveal_strlit("\n\n... ✂️ [TRUNCATED: ");
        reveal_strlit(" chars to prevent IDE spill]");
        reveal_strlit("/");
        reveal_strlit("✂️");
        reveal_with_fuel(pow10, 21);
        assert(pow10(20) == 100000000000000000000);
        lemma_dec_ascii(max, 20);
        lemma_dec_ascii(byte_len(t), 20);
        lemma_fitting_prefix_fits(t, max);
        assert(byte_len(Seq::<char>::empty()) == 0);
        lemma_byte_len_at_most_four(head);
        lemma_byte_len_at_most_four(tail);
        lemma_byte_len_at_most_four("/"@);
        let note = truncation_note(max, byte_len(t));
        assert(note == head + dm + "/"@ + dt + tail);
        lemma_byte_len_add(head + dm + "/"@ + dt, tail);
        lemma_byte_len_add(head + dm + "/"@, dt);
        lemma_byte_len_add(head + dm, "/"@);
        lemma_byte_len_add(head, dm);
        lemma_byte_len_add(fp, note);
        let r = fp + note;
        assert(r.subrange(fp.len() as int + 6, fp.len() as int + 8) == "✂️"@);
        assert(crate::text::occurs_at(r, "✂️"@, fp.len() as int + 6));
    }
}

// ───────────────────────── tool calls ─────────────────────────

/// The output cap a call asks for: its `max_chars` when positive, else 8000.
pub fn negotiated_max_chars(max_chars: Option<u64>) -> (r: usize)
    ensures
        r == match max_chars {
            Some(n) => if n as usize > 0 { n as usize } else { 8000 },
            None => 8000,
        },
{
    match max_chars {
        Some(n) => {
            let m = n as usize;
            if m > 0 {
                m
            } else {
                8000
            }
        },
        None => 8000,
    }
}

/// The answer to a tool call: its text, capped inline, and whether it is an error.
pub struct ToolReply {
    pub text: String,
    pub is_error: bool,
}

/// The reply to a tool call whose outcome is `outcome`, capped at `max_chars`.
pub fn tool_reply(outcome: Result<String, String>, max_chars: usize) -> (r: ToolReply)
    ensures
        r.is_error == outcome is Err,
        ({
            let t = match outcome {
                Ok(x) => x@,
                Err(x) => x@,
            };
            r.text@ == inline_s(t, max_chars as nat)
        }),
{
    match outcome {
        Ok(t) => ToolReply { text: force_inline_truncate(t, max_chars), is_error: false },
        Err(t) => ToolReply { text: force_inline_truncate(t, max_chars), is_error: true },
    }
}

/// The answer to a call of a tool that does not exist.
pub fn tool_not_found(name: &str) -> (r: String)
    ensures
        r@ == "Tool not found: "@ + name@,
{
    let mut m = String::from_str("Tool not found: ");
    push_str(&mut m, name);
    m
}

/// The older tool names kept working: the tool each stands for and the
/// action it defaults to.
pub open spec fn tool_alias_s(name: Seq<char>) -> Option<(Seq<char>, Seq<char>)> {
    if name == "map_repo"@ {
        Some(("cortex_code_explorer"@, "map_overview"@))
    } else if name == "get_context_slice"@ {
        Some(("cortex_code_explorer"@, "deep_slice"@))
    } else if name == "read_symbol"@ {
        Some(("cortex_symbol_analyzer"@, "read_source"@))
    } else if name == "find_usages"@ {
        Some(("cortex_symbol_analyzer"@, "find_usages"@))
    } else if name == "call_hierarchy"@ {
        Some(("cortex_symbol_analyzer"@, "blast_radius"@))
    } else if name == "propagation_checklist"@ {
        Some(("cortex_symbol_analyzer"@, "propagation_checklist"@))
    } else if name == "save_checkpoint"@ {
        Some(("cortex_chronos"@, "save_checkpoint"@))
    } else if name == "list_checkpoints"@ {
        Some(("cortex_chronos"@, "list_checkpoints"@))
    } else if name == "compare_checkpoint"@ {
        Some(("cortex_chronos"@, "compare_checkpoint"@))
    } else {
        None
    }
}

/// Each older tool name stands for its own default action: names that are
/// actions themselves default to that action, and two different older
/// names never share a default action (so `get_context_slice` slices and
/// `map_repo` maps).
pub proof fn law_aliases_keep_their_actions(a: Seq<char>, b: Seq<char>)
    ensures
        tool_alias_s(a) is Some && tool_alias_s(b) is Some && a != b ==> tool_alias_s(a).unwrap().1
            != tool_alias_s(b).unwrap().1,
        tool_alias_s(a) is Some ==> ({
            let act = tool_alias_s(a).unwrap().1;
            (act == "find_usages"@ || act == "propagation_checklist"@ || act == "save_checkpoint"@
                || act == "list_checkpoints"@ || act == "compare_checkpoint"@) ==> act == a
        }),
        tool_alias_s(a) is Some ==> ({
            let (tool, act) = tool_alias_s(a).unwrap();
            &&& (act == "map_overview"@ || act == "deep_slice"@) <==> tool == "cortex_code_explorer"@
            &&& (act == "save_checkpoint"@ || act == "list_checkpoints"@ || act == "compare_checkpoint"@)
                <==> tool == "cortex_chronos"@
        }),
        tool_alias_s("get_context_slice"@) matches Some(x) && x.1 == "deep_slice"@,
        tool_alias_s("map_repo"@) matches Some(x) && x.1 == "map_overview"@,
{
    reveal_strlit("map_repo");
    reveal_strlit("get_context_slice");
    reveal_strlit("read_symbol");
    reveal_strlit("find_usages");
    reveal_strlit("call_hierarchy");
    reveal_strlit("propagation_checklist");
    reveal_strlit("save_checkpoint");
    reveal_strlit("list_checkpoints");
    reveal_strlit("compare_checkpoint");
    reveal_strlit("map_overview");
    reveal_strlit("deep_slice");
    reveal_strlit("read_source");
    reveal_strlit("blast_radius");
    reveal_strlit("cortex_code_explorer");
    reveal_strlit("cortex_symbol_analyzer");
    reveal_strlit("cortex_chronos");
    assert("cortex_code_explorer"@.len() == 20);
    assert("cortex_symbol_analyzer"@.len() == 22);
    assert("cortex_chronos"@.len() == 14);
    assert("map_repo"@.len() == 8);
    assert("get_context_slice"@.len() == 17);
    assert("read_symbol"@.len() == 11);
    assert("find_usages"@.len() == 11);
    assert("call_hierarchy"@.len() == 14);
    assert("propagation_checklist"@.len() == 21);
    assert("save_checkpoint"@.len() == 15);
    assert("list_checkpoints"@.len() == 16);
    assert("compare_checkpoint"@.len() == 18);
    assert("map_overview"@.len() == 12);
    assert("deep_slice"@.len() == 10);
    assert("read_source"@.len() == 11);
    assert("blast_radius"@.len() == 12);
    assert("read_symbol"@[0] == 'r');
    assert("find_usages"@[0] == 'f');
    assert("read_source"@[0] == 'r');
    assert("map_overview"@[0] == 'm');
    assert("blast_radius"@[0] == 'b');
}

fn is(s: &str, lit: &str) -> (r: bool)
    ensures
        r == (s@ == lit@),
{
    crate::text::chars_eq(&chars_of(s), &chars_of(lit))
}

fn pair(a: &str, b: &str) -> (r: Option<(String, String)>)
    ensures
        r matches Some(p) && p.0@ == a@ && p.1@ == b@,
{
    Some((String::from_str(a), String::from_str(b)))
}

/// The tool and default action an older tool name stands for.
pub fn tool_alias(name: &str) -> (r: Option<(String, String)>)
    ensures
        match tool_alias_s(name@) {
            Some(p) => r matches Some(q) && q.0@ == p.0 && q.1@ == p.1,
            None => r is None,
        },
{
    if is(name, "map_repo") {
        pair("cortex_code_explorer", "map_overview")
    } else if is(name, "get_context_slice") {
        pair("cortex_code_explorer", "deep_slice")
    } else if is(name, "read_symbol") {
        pair("cortex_symbol_analyzer", "read_source")
    } else if is(name, "find_usages") {
        pair("cortex_symbol_analyzer", "find_usages")
    } else if is(name, "call_hierarchy") {
        pair("cortex_symbol_analyzer", "blast_radius")
    } else if is(name, "propagation_checklist") {
        pair("cortex_symbol_analyzer", "propagation_checklist")
    } else if is(name, "save_checkpoint") {
        pair("cortex_chronos", "save_checkpoint")
    } else if is(name, "list_checkpoints") {
        pair("cortex_chronos", "list_checkpoints")
    } else if is(name, "compare_checkpoint") {
        pair("cortex_chronos", "compare_checkpoint")
    } else {
        None
    }
}

/// Strings of a list argument: the plural form's strings (items that are
/// not strings left out), trimmed, without empty ones; else the singular
/// form trimmed, when not empty.
pub open spec fn string_list_s(plural: Option<Seq<Option<Seq<char>>>>, singular: Option<Seq<char>>) -> Seq<Seq<char>> {
    match plural {
        Some(items) => kept_trimmed(items),
        None => match singular {
            Some(s) => if crate::text::trim_s(s).len() > 0 { seq![crate::text::trim_s(s)] } else { seq![] },
            None => seq![],
        },
    }
}

/// The trimmed non-empty strings of `items`, in order.
pub open spec fn kept_trimmed(items: Seq<Option<Seq<char>>>) -> Seq<Seq<char>>
    decreases items.len(),
{
    if items.len() == 0 {
        seq![]
    } else {
        let r = kept_trimmed(items.drop_last());
        match items.last() {
            Some(s) => if crate::text::trim_s(s).len() > 0 { r.push(crate::text::trim_s(s)) } else { r },
            None => r,
        }
    }
}

/// A list argument given as an array (`plural`, an item `None` when it is
/// not a string) or as a single string (`singular`).
pub fn string_list_arg(plural: &Option<Vec<Option<String>>>, singular: &Option<String>) -> (r: Vec<String>)
    ensures
        r@.map_values(|s: String| s@) == string_list_s(
            match *plural {
                Some(v) => Some(opt_strings(v@)),
                None => None,
            },
            match *singular {
                Some(s) => Some(s@),
                None => None,
            },
        ),
{
    let mut out: Vec<String> = Vec::new();
    match plural {
        Some(items) => {
            let ghost iv = opt_strings(items@);
            let mut i: usize = 0;
            while i < items.len()
                invariant
                    i <= items.len(),
                    iv == opt_strings(items@),
                    out@.map_values(|s: String| s@) == kept_trimmed(iv.take(i as int)),
                decreases items.len() - i,
            {
                assert(iv.take(i + 1).drop_last() == iv.take(i as int));
                assert(iv.take(i + 1).last() == iv[i as int]);
                if let Some(s) = &items[i] {
                    let t = crate::text::trim_string(s.as_str());
                    if chars_of(t.as_str()).len() > 0 {
                        let ghost before = out@.map_values(|s: String| s@);
                        out.push(t);
                        assert(out@.map_values(|s: String| s@) == before.push(crate::text::trim_s(s@)));
                    }
                }
                i += 1;
            }
            assert(iv.take(items.len() as int) == iv);
        },
        None => {
            if let Some(s) = singular {
                let t = crate::text::trim_string(s.as_str());
                if chars_of(t.as_str()).len() > 0 {
                    out.push(t);
                    assert(out@.map_values(|s: String| s@) == seq![crate::text::trim_s(s@)]);
                } else {
                    assert(out@.map_values(|s: String| s@) =~= Seq::<Seq<char>>::empty());
                }
            } else {
                assert(out@.map_values(|s: String| s@) =~= Seq::<Seq<char>>::empty());
            }
        },
    }
    out
}

/// The roots a workspace request covers: only the request's project when it
/// names one (or when no workspace roots are known), else all the roots.
pub fn effective_workspace_roots(repo_root: &str, workspace_roots: &Vec<String>, names_project: bool) -> (r: Vec<String>)
    ensures
        r@.map_values(|s: String| s@) == if names_project || workspace_roots.len() == 0 {
            seq![repo_root@]
        } else {
            workspace_roots@.map_values(|s: String| s@)
        },
{
    if names_project || workspace_roots.len() == 0 {
        let v = vec![String::from_str(repo_root)];
        assert(v@.map_values(|s: String| s@) =~= seq![repo_root@]);
        v
    } else {
        let mut v: Vec<String> = Vec::new();
        let mut i: usize = 0;
        while i < workspace_roots.len()
            invariant
                i <= workspace_roots.len(),
                v@.map_values(|s: String| s@) == workspace_roots@.map_values(|s: String| s@).take(i as int),
            decreases workspace_roots.len() - i,
        {
            v.push(workspace_roots[i].clone());
            assert(workspace_roots@.map_values(|s: String| s@).take(i + 1) == workspace_roots@.map_values(
                |s: String| s@,
            ).take(i as int).push(workspace_roots@[i as int]@));
            i += 1;
        }
        assert(workspace_roots@.map_values(|s: String| s@).take(workspace_roots.len() as int)
            == workspace_roots@.map_values(|s: String| s@));
        v
    }
}

// ───────────────────────── query slices ─────────────────────────

/// How many search results a query slice asks for: as given, else a share
/// of the budget (one per 1500 tokens, between 8 and 60) capped at the
/// configured default, at least one.
pub open spec fn query_limit_s(query_limit: Option<usize>, budget_tokens: nat, default_limit: nat) -> nat {
    match query_limit {
        Some(l) => l as nat,
        None => {
            let b = budget_tokens / 1500;
            let c = if b < 8 { 8 } else if b > 60 { 60 } else { b };
            let m = if c < default_limit { c } else { default_limit };
            if m < 1 { 1 } else { m }
        },
    }
}

/// How many files are offered to the index for a limit: twelve per
/// result, kept between 80 and 400.
pub open spec fn max_candidates_s(limit: nat) -> nat {
    let t = limit * 12;
    if t < 80 { 80 } else if t > 400 { 400 } else { t }
}

/// The result limit and the candidate count of a query slice.
pub fn query_limits(query_limit: Option<usize>, budget_tokens: usize, default_limit: usize) -> (r: (usize, usize))
    ensures
        r.0 == query_limit_s(query_limit, budget_tokens as nat, default_limit as nat),
        r.1 == max_candidates_s(r.0 as nat),
{
    let limit = match query_limit {
        Some(l) => l,
        None => {
            let b = budget_tokens / 1500;
            let c = if b < 8 { 8 } else if b > 60 { 60 } else { b };
            let m = if c < default_limit { c } else { default_limit };
            if m < 1 { 1 } else { m }
        },
    };
    let t: u128 = (limit as u128) * 12;
    let cands: usize = if t < 80 { 80 } else if t > 400 { 400 } else { t as usize };
    (limit, cands)
}

/// A path lies in one of the scope prefixes: it is one, or lies below one.
pub open spec fn in_scope_s(rel: Seq<char>, prefixes: Seq<Seq<char>>) -> bool {
    exists|i: int| 0 <= i < prefixes.len() && (rel == #[trigger] prefixes[i] || starts_with_s(rel, prefixes[i] + "/"@))
}

/// Whether a path lies in one of the scope prefixes.
pub fn in_scope(rel: &str, prefixes: &Vec<String>) -> (r: bool)
    ensures
        r == in_scope_s(rel@, prefixes@.map_values(|p: String| p@)),
{
    let ghost pv = prefixes@.map_values(|p: String| p@);
    let v = chars_of(rel);
    let mut i: usize = 0;
    while i < prefixes.len()
        invariant
            i <= prefixes.len(),
            v@ == rel@,
            pv == prefixes@.map_values(|p: String| p@),
            forall|j: int| 0 <= j < i ==> !(rel@ == #[trigger] pv[j] || starts_with_s(rel@, pv[j] + "/"@)),
        decreases prefixes.len() - i,
    {
        let mut q = prefixes[i].clone();
        let same = crate::text::chars_eq(&v, &chars_of(q.as_str()));
        push_str(&mut q, "/");
        proof {
            reveal_strlit("/");
        }
        assert(pv[i as int] == prefixes@[i as int]@);
        if same || crate::text::starts_with(&v, &chars_of(q.as_str())) {
            return true;
        }
        i += 1;
    }
    false
}

/// The indices of `rels` among the first `n` that a query slice considers:
/// all of them when there are no scope prefixes, else those in scope.
pub open spec fn scoped_indices_s(rels: Seq<Seq<char>>, prefixes: Seq<Seq<char>>, n: int) -> Seq<usize>
    decreases n,
{
    if n <= 0 || n > rels.len() {
        seq![]
    } else {
        let r = scoped_indices_s(rels, prefixes, n - 1);
        if prefixes.len() == 0 || in_scope_s(rels[n - 1], prefixes) {
            r.push((n - 1) as usize)
        } else {
            r
        }
    }
}

/// The indices of the paths a query slice considers: all of them when no
/// scope prefixes are given, else those in one of the scopes.
pub fn scoped_candidates(rels: &Vec<String>, prefixes: &Vec<String>) -> (r: Vec<usize>)
    ensures
        r@ == scoped_indices_s(rels@.map_values(|s: String| s@), prefixes@.map_values(|p: String| p@), rels.len() as int),
{
    let ghost rv = rels@.map_values(|s: String| s@);
    let ghost pv = prefixes@.map_values(|p: String| p@);
    let mut out: Vec<usize> = Vec::new();
    let mut i: usize = 0;
    while i < rels.len()
        invariant
            i <= rels.len(),
            rv == rels@.map_values(|s: String| s@),
            pv == prefixes@.map_values(|p: String| p@),
            out@ == scoped_indices_s(rv, pv, i as int),
        decreases rels.len() - i,
    {
        assert(rv[i as int] == rels@[i as int]@);
        if prefixes.len() == 0 || in_scope(rels[i].as_str(), prefixes) {
            out.push(i);
        }
        i += 1;
    }
    out
}

/// The paths of `found` that lie in one of the scopes (all of them when
/// there are none), in order.
pub open spec fn in_scope_paths_s(found: Seq<Seq<char>>, prefixes: Seq<Seq<char>>) -> Seq<Seq<char>>
    decreases found.len(),
{
    if found.len() == 0 {
        seq![]
    } else {
        let r = in_scope_paths_s(found.drop_last(), prefixes);
        if prefixes.len() == 0 || in_scope_s(found.last(), prefixes) {
            r.push(found.last())
        } else {
            r
        }
    }
}

/// The search results that lie in one of the scopes, in order.
pub fn retain_in_scope(found: &Vec<String>, prefixes: &Vec<String>) -> (r: Vec<String>)
    ensures
        r@.map_values(|s: String| s@) == in_scope_paths_s(found@.map_values(|s: String| s@), prefixes@.map_values(|p: String| p@)),
{
    let ghost fv = found@.map_values(|s: String| s@);
    let ghost pv = prefixes@.map_values(|p: String| p@);
    let mut out: Vec<String> = Vec::new();
    let mut i: usize = 0;
    while i < found.len()
        invariant
            i <= found.len(),
            fv == found@.map_values(|s: String| s@),
            pv == prefixes@.map_values(|p: String| p@),
            out@.map_values(|s: String| s@) == in_scope_paths_s(fv.take(i as int), pv),
        decreases found.len() - i,
    {
        assert(fv.take(i + 1).drop_last() == fv.take(i as int));
        assert(fv.take(i + 1).last() == found@[i as int]@);
        let ghost before = out@.map_values(|s: String| s@);
        if prefixes.len() == 0 || in_scope(found[i].as_str(), prefixes) {
            out.push(found[i].clone());
            assert(out@.map_values(|s: String| s@) == before.push(found@[i as int]@));
        }
        i += 1;
    }
    assert(fv.take(found.len() as int) == fv);
    out
}

/// The files offered to the index: the `max_candidates` best by path score
/// against `terms` (descending), smaller files first among equals, files
/// alike in both in their listed order.
pub fn rank_candidates(rels: &Vec<String>, sizes: &Vec<u64>, terms: &Vec<String>, max_candidates: usize) -> (r: Vec<usize>)
    requires
        rels.len() == sizes.len(),
        30 * terms.len() <= i32::MAX,
    ensures
        exists|p: Seq<usize>|
            #![trigger is_perm(p, rels.len() as nat)]
            is_perm(p, rels.len() as nat) && crate::sort::sorted_by(
                p,
                crate::sort::score_desc_then_size(
                    Seq::new(rels.len() as nat, |i: int| path_score(lower_s(rels@[i]@), terms@.map_values(|t: String| t@)) as int),
                    sizes@,
                ),
            ) && crate::sort::stable_by(
                p,
                crate::sort::score_desc_then_size(
                    Seq::new(rels.len() as nat, |i: int| path_score(lower_s(rels@[i]@), terms@.map_values(|t: String| t@)) as int),
                    sizes@,
                ),
            ) && r@ == p.take(if max_candidates < rels.len() { max_candidates as int } else { rels.len() as int }),
{
    let mut scores: Vec<i32> = Vec::new();
    let mut i: usize = 0;
    while i < rels.len()
        invariant
            i <= rels.len(),
            30 * terms.len() <= i32::MAX,
            scores.len() == i,
            forall|j: int| 0 <= j < i ==> #[trigger] scores@[j] == path_score(lower_s(rels@[j]@), terms@.map_values(|t: String| t@)),
        decreases rels.len() - i,
    {
        scores.push(score_path(rels[i].as_str(), terms));
        i += 1;
    }
    assert(scores@.map_values(|x: i32| x as int) =~= Seq::new(
        rels.len() as nat,
        |i: int| path_score(lower_s(rels@[i]@), terms@.map_values(|t: String| t@)) as int,
    ));
    let p = crate::sort::sort_perm_score_desc_size(&scores, sizes);
    let n = if max_candidates < p.len() { max_candidates } else { p.len() };
    let mut r: Vec<usize> = Vec::new();
    let mut k: usize = 0;
    while k < n
        invariant
            k <= n <= p.len(),
            r@ == p@.take(k as int),
        decreases n - k,
    {
        r.push(p[k]);
        assert(p@.take(k + 1) == p@.take(k as int).push(p@[k as int]));
        k += 1;
    }
    assert(is_perm(p@, rels.len() as nat));
    r
}

// ───────────────────────── answers about missing paths ─────────────────────────

/// The first `k` of `items` in ascending order.
pub fn sorted_first(items: &Vec<String>, k: usize) -> (r: Vec<String>)
    ensures
        exists|srt: Seq<Seq<char>>|
            #[trigger] crate::sort::is_sorted_of(srt, crate::text::strings_view(items@))
                && r@.map_values(|s: String| s@) == srt.take(if k < items.len() { k as int } else { items.len() as int }),
{
    let ghost iv = items@.map_values(|s: String| s@);
    let mut keys: Vec<Vec<char>> = Vec::new();
    let mut i: usize = 0;
    while i < items.len()
        invariant
            i <= items.len(),
            iv == items@.map_values(|s: String| s@),
            keys.len() == i,
            forall|j: int| 0 <= j < i ==> (#[trigger] keys@[j])@ == iv[j],
        decreases items.len() - i,
    {
        keys.push(chars_of(items[i].as_str()));
        i += 1;
    }
    assert(keys@.map_values(|v: Vec<char>| v@) =~= iv);
    let p = crate::sort::sort_perm(&keys);
    let ghost srt = Seq::new(p.len() as nat, |j: int| iv[p@[j] as int]);
    let n = if k < items.len() { k } else { items.len() };
    let mut r: Vec<String> = Vec::new();
    let mut q: usize = 0;
    while q < n
        invariant
            q <= n <= p.len() == items.len(),
            is_perm(p@, items.len() as nat),
            iv == items@.map_values(|s: String| s@),
            srt == Seq::new(p.len() as nat, |j: int| iv[p@[j] as int]),
            r@.map_values(|s: String| s@) == srt.take(q as int),
        decreases n - q,
    {
        let ghost before = r@.map_values(|s: String| s@);
        r.push(items[p[q]].clone());
        assert(r@.map_values(|s: String| s@) == before.push(srt[q as int]));
        assert(srt.take(q + 1) == srt.take(q as int).push(srt[q as int]));
        q += 1;
    }
    assert(crate::sort::is_sorted_of(srt, crate::text::strings_view(items@))) by {
        assert(crate::sort::orders(p@, iv));
    }
    r
}

/// `'item'` for each of `items`, joined by `, `.
pub open spec fn quoted_list(items: Seq<Seq<char>>) -> Seq<char>
    decreases items.len(),
{
    if items.len() == 0 {
        seq![]
    } else if items.len() == 1 {
        "'"@ + items[0] + "'"@
    } else {
        quoted_list(items.drop_last()) + ", '"@ + items.last() + "'"@
    }
}

fn push_quoted_list(out: &mut String, items: &Vec<String>)
    ensures
        final(out)@ == old(out)@ + quoted_list(items@.map_values(|s: String| s@)),
{
    proof {
        reveal_strlit("'");
        reveal_strlit(", '");
    }
    let ghost start = out@;
    let ghost iv = items@.map_values(|s: String| s@);
    let mut i: usize = 0;
    while i < items.len()
        invariant
            i <= items.len(),
            iv == items@.map_values(|s: String| s@),
            out@ == start + quoted_list(iv.take(i as int)),
        decreases items.len() - i,
    {
        if i == 0 {
            push_str(out, "'");
        } else {
            push_str(out, ", '");
        }
        push_str(out, items[i].as_str());
        push_str(out, "'");
        assert(iv.take(i + 1).drop_last() == iv.take(i as int));
        assert(iv.take(i + 1).last() == iv[i as int]);
        if i == 0 {
            assert(iv.take(1)[0] == iv[0]);
        }
        i += 1;
    }
    assert(iv.take(items.len() as int) == iv);
}

/// The answer when a map target does not exist: the target, the
/// repository root, and up to 30 of its top-level entries in ascending order.
pub open spec fn missing_map_target_s(target: Seq<char>, repo_root: Seq<char>, shown: Seq<Seq<char>>) -> Seq<char> {
    "Error: Path '"@ + target + "' does not exist in repo root '"@ + repo_root
        + "'.\nAvailable top-level entries in this repo: ["@ + quoted_list(shown)
        + "].\nPlease correct your target_dirs array (or pass repoPath explicitly).\nYou can operate on multiple workspace roots simultaneously. Provide arrays of target directories (e.g. target_dirs=['[ProjectA]','[ProjectB]']) to analyze cross-repo features."@
}

/// The answer when a map target does not exist, listing the top-level
/// `entries` of the repository (sorted, at most 30).
pub fn missing_map_target(target: &str, repo_root: &str, entries: &Vec<String>) -> (r: String)
    ensures
        exists|srt: Seq<Seq<char>>|
            #[trigger] crate::sort::is_sorted_of(srt, crate::text::strings_view(entries@))
                && r@ == missing_map_target_s(
                target@,
                repo_root@,
                srt.take(if 30 < entries.len() { 30int } else { entries.len() as int }),
            ),
{
    let shown = sorted_first(entries, 30);
    let mut m = String::from_str("Error: Path '");
    push_str(&mut m, target);
    push_str(&mut m, "' does not exist in repo root '");
    push_str(&mut m, repo_root);
    push_str(&mut m, "'.\nAvailable top-level entries in this repo: [");
    push_quoted_list(&mut m, &shown);
    push_str(
        &mut m,
        "].\nPlease correct your target_dirs array (or pass repoPath explicitly).\nYou can operate on multiple workspace roots simultaneously. Provide arrays of target directories (e.g. target_dirs=['[ProjectA]','[ProjectB]']) to analyze cross-repo features.",
    );
    m
}

/// The suggestions for a missing slice target: the paths (relative to the
/// repository) of the entries whose names, in ASCII lower case, contain
/// the target's stem in ASCII lower case; at most five, in ascending order.
pub fn slice_target_suggestions(stem: &str, entries: &Vec<(String, String)>) -> (r: Vec<String>)
    ensures
        exists|srt: Seq<Seq<char>>|
            #[trigger] crate::sort::is_sorted_of(srt, matching_rels(lower_s(stem@), entries@))
                && r@.map_values(|s: String| s@) == srt.take(
                if 5 < matching_rels(lower_s(stem@), entries@).len() { 5int } else { matching_rels(lower_s(stem@), entries@).len() as int },
            ),
{
    let st = crate::text::lower_chars(chars_of(stem).as_slice());
    let mut picked: Vec<String> = Vec::new();
    let mut i: usize = 0;
    while i < entries.len()
        invariant
            i <= entries.len(),
            st@ == lower_s(stem@),
            picked@.map_values(|s: String| s@) == matching_rels(st@, entries@.take(i as int)),
        decreases entries.len() - i,
    {
        assert(entries@.take(i + 1).drop_last() == entries@.take(i as int));
        assert(entries@.take(i + 1).last() == entries@[i as int]);
        let name = crate::text::lower_chars(chars_of(entries[i].0.as_str()).as_slice());
        if contains(&name, &st) {
            let ghost before = picked@.map_values(|s: String| s@);
            picked.push(entries[i].1.clone());
            assert(picked@.map_values(|s: String| s@) == before.push(entries@[i as int].1@));
        }
        i += 1;
    }
    assert(entries@.take(entries.len() as int) == entries@);
    sorted_first(&picked, 5)
}

/// The repository paths of the entries (name, path) whose lower-cased names contain `stem`.
pub open spec fn matching_rels(stem: Seq<char>, entries: Seq<(String, String)>) -> Seq<Seq<char>>
    decreases entries.len(),
{
    if entries.len() == 0 {
        seq![]
    } else {
        let r = matching_rels(stem, entries.drop_last());
        if contains_s(lower_s(entries.last().0@), stem) {
            r.push(entries.last().1@)
        } else {
            r
        }
    }
}

// ───────────────────────── query terms ─────────────────────────

/// The words of `s`: its maximal runs of non-whitespace (`split_whitespace`).
pub open spec fn words_s(s: Seq<char>) -> Seq<Seq<char>>
    decreases s.len(),
{
    if s.len() == 0 {
        seq![]
    } else {
        let w = words_s(s.drop_last());
        let c = s.last();
        if crate::text::is_ws(c) {
            w
        } else if s.len() >= 2 && !crate::text::is_ws(s[s.len() - 2]) {
            w.update(w.len() - 1, w.last().push(c))
        } else {
            w.push(seq![c])
        }
    }
}

proof fn lemma_words_last(s: Seq<char>)
    requires
        s.len() > 0,
        !crate::text::is_ws(s.last()),
    ensures
        words_s(s).len() > 0,
    decreases s.len(),
{
    if s.len() >= 2 && !crate::text::is_ws(s[s.len() - 2]) {
        assert(s.drop_last().last() == s[s.len() - 2]);
        lemma_words_last(s.drop_last());
    }
}

/// The search terms of a query: its words in ASCII lower case, those of at
/// least two bytes.
pub open spec fn query_terms_s(q: Seq<char>) -> Seq<Seq<char>> {
    long_terms(words_s(q).map_values(|w: Seq<char>| lower_s(w)))
}

/// The terms of `ws` that take at least two bytes.
pub open spec fn long_terms(ws: Seq<Seq<char>>) -> Seq<Seq<char>>
    decreases ws.len(),
{
    if ws.len() == 0 {
        seq![]
    } else if byte_len(ws.last()) >= 2 {
        long_terms(ws.drop_last()).push(ws.last())
    } else {
        long_terms(ws.drop_last())
    }
}

/// The search terms of a query.
pub fn query_terms(query: &str) -> (r: Vec<String>)
    ensures
        r@.map_values(|s: String| s@) == query_terms_s(query@),
{
    let v = chars_of(query);
    let mut words: Vec<Vec<char>> = Vec::new();
    let mut i: usize = 0;
    while i < v.len()
        invariant
            i <= v.len(),
            v@ == query@,
            words@.map_values(|w: Vec<char>| w@) == words_s(v@.take(i as int)),
        decreases v.len() - i,
    {
        let ghost t = v@.take(i as int);
        let ghost tn = v@.take(i + 1);
        assert(tn.drop_last() == t);
        assert(tn.last() == v@[i as int]);
        let c = v[i];
        if !crate::text::is_ws_exec(c) {
            if i > 0 && !crate::text::is_ws_exec(v[i - 1]) {
                assert(tn[tn.len() - 2] == t.last());
                proof {
                    lemma_words_last(t);
                }
                let last = words.len() - 1;
                let ghost before = words@.map_values(|w: Vec<char>| w@);
                let mut w = words.pop().unwrap();
                w.push(c);
                words.push(w);
                assert(words@.map_values(|w: Vec<char>| w@) =~= before.update(last as int, before[last as int].push(c)));
            } else {
                let ghost before = words@.map_values(|w: Vec<char>| w@);
                let mut nw: Vec<char> = Vec::new();
                nw.push(c);
                assert(nw@ =~= seq![c]);
                words.push(nw);
                assert(words@.map_values(|w: Vec<char>| w@) =~= before.push(seq![c]));
            }
        }
        i += 1;
    }
    assert(v@.take(v.len() as int) == v@);
    let ghost lw = words_s(v@).map_values(|w: Seq<char>| lower_s(w));
    let mut out: Vec<String> = Vec::new();
    let mut k: usize = 0;
    while k < words.len()
        invariant
            k <= words.len(),
            words@.map_values(|w: Vec<char>| w@) == words_s(v@),
            lw == words_s(v@).map_values(|w: Seq<char>| lower_s(w)),
            out@.map_values(|s: String| s@) == long_terms(lw.take(k as int)),
        decreases words.len() - k,
    {
        assert(lw.take(k + 1).drop_last() == lw.take(k as int));
        assert(lw.take(k + 1).last() == lower_s(words@[k as int]@));
        let lowered = crate::text::lower_chars(words[k].as_slice());
        let s = crate::text::string_of(&lowered);
        let ss = s.as_str();
        proof {
            crate::text::lemma_str_len(ss);
        }
        if ss.as_bytes().len() >= 2 {
            let ghost before = out@.map_values(|s: String| s@);
            out.push(s);
            assert(out@.map_values(|s: String| s@) == before.push(lowered@));
        }
        k += 1;
    }
    assert(lw.take(words.len() as int) == lw);
    out
}


// ───────────────────────── the request loop ─────────────────────────

/// The first given value among `c`.
pub open spec fn first_some(c: Seq<Option<Seq<char>>>) -> Option<Seq<char>>
    decreases c.len(),
{
    if c.len() == 0 {
        None
    } else {
        match c[0] {
            Some(x) => Some(x),
            None => first_some(c.drop_first()),
        }
    }
}

/// `v`, unless it is the home directory (both trimmed).
pub open spec fn not_home(v: Option<Seq<char>>, home: Seq<char>) -> Option<Seq<char>> {
    match v {
        Some(x) => if trim_s(x) != trim_s(home) {
            Some(x)
        } else {
            None
        },
        None => None,
    }
}

/// The root a server starts with before any request: the root it was given,
/// else the first set of the explicit variables, else the working directory
/// and then the npm start directory when either is not the home directory;
/// trimmed, and none when blank.
pub open spec fn bootstrap_root_s(
    startup_root: Option<Seq<char>>,
    explicit: Seq<Option<Seq<char>>>,
    pwd: Option<Seq<char>>,
    init_cwd: Option<Seq<char>>,
    home: Seq<char>,
) -> Option<Seq<char>> {
    match startup_root {
        Some(r) => Some(r),
        None => {
            let pick = match first_some(explicit) {
                Some(x) => Some(x),
                None => match not_home(pwd, home) {
                    Some(x) => Some(x),
                    None => not_home(init_cwd, home),
                },
            };
            match pick {
                Some(x) => if trim_s(x).len() > 0 {
                    Some(trim_s(x))
                } else {
                    None
                },
                None => None,
            }
        },
    }
}

fn not_home_exec(v: Option<String>, home: &str) -> (r: Option<String>)
    ensures
        opt_view(r) == not_home(opt_view(v), home@),
{
    match v {
        Some(x) => {
            let a = chars_of(trim_string(x.as_str()).as_str());
            let b = chars_of(trim_string(home).as_str());
            if chars_eq(&a, &b) {
                None
            } else {
                Some(x)
            }
        },
        None => None,
    }
}

/// The root a server starts with: `startup_root` when given, else the first
/// set of `explicit` (in priority order), else `pwd`, else `init_cwd`, the
/// last two only when not the home directory; trimmed, and none when blank.
pub fn bootstrap_root(
    startup_root: Option<String>,
    explicit: &Vec<Option<String>>,
    pwd: Option<String>,
    init_cwd: Option<String>,
    home: &str,
) -> (r: Option<String>)
    ensures
        opt_view(r) == bootstrap_root_s(
            opt_view(startup_root),
            opt_strings(explicit@),
            opt_view(pwd),
            opt_view(init_cwd),
            home@,
        ),
{
    if let Some(r) = startup_root {
        return Some(r);
    }
    let ghost ev = opt_strings(explicit@);
    let mut pick: Option<String> = None;
    let mut i: usize = 0;
    assert(ev.skip(0) == ev);
    while i < explicit.len() && pick.is_none()
        invariant
            i <= explicit.len(),
            ev == opt_strings(explicit@),
            pick is None ==> first_some(ev) == first_some(ev.skip(i as int)),
            pick is Some ==> first_some(ev) == opt_view(pick),
        decreases explicit.len() - i,
    {
        assert(ev.skip(i as int)[0] == ev[i as int]);
        assert(ev.skip(i as int).drop_first() == ev.skip(i + 1));
        if let Some(x) = &explicit[i] {
            pick = Some(x.clone());
        }
        i += 1;
    }
    if pick.is_none() {
        assert(ev.skip(i as int).len() == 0);
        pick = not_home_exec(pwd, home);
        if pick.is_none() {
            pick = not_home_exec(init_cwd, home);
        }
    }
    match pick {
        Some(x) => {
            let t = trim_string(x.as_str());
            if !t.as_str().is_empty() {
                Some(t)
            } else {
                None
            }
        },
        None => None,
    }
}

/// The roots a server works in, with the names given to them.
pub struct ServerState {
    pub workspace_roots: Vec<String>,
    pub workspace_root_names: Vec<String>,
}

impl View for ServerState {
    type V = (Seq<Seq<char>>, Seq<Seq<char>>);

    open spec fn view(&self) -> (Seq<Seq<char>>, Seq<Seq<char>>) {
        (strings_view(self.workspace_roots@), strings_view(self.workspace_root_names@))
    }
}

/// The name of a workspace folder: its trimmed name when not blank, else
/// the default alias of its path.
pub open spec fn folder_name_s(name: Option<Seq<char>>, path: Seq<char>) -> Seq<char> {
    match name {
        Some(n) => if trim_s(n).len() > 0 {
            trim_s(n)
        } else {
            default_alias_s(path)
        },
        None => default_alias_s(path),
    }
}

/// The location text of a workspace folder: its `uri` when it has one, else
/// its `path`, when that is a string.
pub open spec fn folder_location_s(f: Seq<char>) -> Option<Seq<char>> {
    if member_s(f, "uri"@) is Some {
        member_str_s(f, "uri"@)
    } else {
        member_str_s(f, "path"@)
    }
}

/// The root and name a workspace folder (as JSON text) gives, if any.
pub open spec fn folder_entry_s(f: Seq<char>) -> Option<(Seq<char>, Seq<char>)> {
    match folder_location_s(f) {
        Some(u) => match path_of_uri(u) {
            Some(p) => Some((p, folder_name_s(member_str_s(f, "name"@), p))),
            None => None,
        },
        None => None,
    }
}

/// The roots and names the workspace folders `fs` give, in order.
pub open spec fn folder_entries_s(fs: Seq<Seq<char>>) -> Seq<(Seq<char>, Seq<char>)>
    decreases fs.len(),
{
    if fs.len() == 0 {
        seq![]
    } else {
        let rest = folder_entries_s(fs.drop_last());
        match folder_entry_s(fs.last()) {
            Some(e) => rest.push(e),
            None => rest,
        }
    }
}

/// The workspace folders listed in initialize parameters.
pub open spec fn folders_s(params: Seq<char>) -> Seq<Seq<char>> {
    match member_s(params, "workspaceFolders"@) {
        Some(t) => match json_items(t) {
            Some(fs) => fs,
            None => seq![],
        },
        None => seq![],
    }
}

/// The roots and names initialize parameters give: those of the workspace
/// folders, else the one `rootUri` (or `rootPath`) names.
pub open spec fn init_entries_s(params: Seq<char>) -> Seq<(Seq<char>, Seq<char>)> {
    let es = folder_entries_s(folders_s(params));
    if es.len() > 0 {
        es
    } else {
        let raw = if member_s(params, "rootUri"@) is Some {
            member_str_s(params, "rootUri"@)
        } else {
            member_str_s(params, "rootPath"@)
        };
        match raw {
            Some(u) => match path_of_uri(u) {
                Some(p) => seq![(p, default_alias_s(p))],
                None => seq![],
            },
            None => seq![],
        }
    }
}

/// The state after initialize parameters `params`: their roots and names
/// replace the known ones when they give any.
pub open spec fn captured_s(state: (Seq<Seq<char>>, Seq<Seq<char>>), params: Seq<char>) -> (
    Seq<Seq<char>>,
    Seq<Seq<char>>,
) {
    let es = init_entries_s(params);
    if es.len() > 0 {
        (
            es.map_values(|e: (Seq<char>, Seq<char>)| e.0),
            es.map_values(|e: (Seq<char>, Seq<char>)| e.1),
        )
    } else {
        state
    }
}

fn folder_entry(f: &str) -> (r: Option<(String, String)>)
    ensures
        match folder_entry_s(f@) {
            Some(e) => r matches Some(x) && x.0@ == e.0 && x.1@ == e.1,
            None => r is None,
        },
{
    let loc = if member(f, "uri").is_some() {
        member_str(f, "uri")
    } else {
        member_str(f, "path")
    };
    let u = match loc {
        Some(u) => u,
        None => return None,
    };
    let p = match extract_path_from_uri(u.as_str()) {
        Some(p) => p,
        None => return None,
    };
    let name = match member_str(f, "name") {
        Some(n) => {
            let t = trim_string(n.as_str());
            if !t.as_str().is_empty() {
                t
            } else {
                default_alias(p.as_str())
            }
        },
        None => default_alias(p.as_str()),
    };
    Some((p, name))
}

fn init_entries(params: &str) -> (r: Vec<(String, String)>)
    ensures
        pairs_view(r@) == init_entries_s(params@),
{
    let folders: Vec<String> = match member(params, "workspaceFolders") {
        Some(t) => match items_of(t.as_str()) {
            Some(fs) => fs,
            None => Vec::new(),
        },
        None => Vec::new(),
    };
    let ghost fs = folders@.map_values(|s: String| s@);
    assert(fs == folders_s(params@));
    let mut es: Vec<(String, String)> = Vec::new();
    let mut i: usize = 0;
    while i < folders.len()
        invariant
            i <= folders.len(),
            fs == folders@.map_values(|s: String| s@),
            pairs_view(es@) == folder_entries_s(fs.take(i as int)),
        decreases folders.len() - i,
    {
        assert(fs.take(i + 1).drop_last() == fs.take(i as int));
        assert(fs.take(i + 1).last() == folders@[i as int]@);
        let ghost before = pairs_view(es@);
        if let Some(e) = folder_entry(folders[i].as_str()) {
            es.push(e);
            assert(pairs_view(es@) == before.push((e.0@, e.1@)));
        }
        i += 1;
    }
    assert(fs.take(folders.len() as int) == fs);
    if es.len() > 0 {
        return es;
    }
    let raw = if member(params, "rootUri").is_some() {
        member_str(params, "rootUri")
    } else {
        member_str(params, "rootPath")
    };
    let mut out: Vec<(String, String)> = Vec::new();
    if let Some(u) = raw {
        if let Some(p) = extract_path_from_uri(u.as_str()) {
            let a = default_alias(p.as_str());
            out.push((p, a));
        }
    }
    assert(pairs_view(out@) == init_entries_s(params@));
    out
}

impl ServerState {
    /// A server that knows the root `root`, when one is given, and no names.
    pub fn new(root: Option<String>) -> (r: ServerState)
        ensures
            r@.0 == match root {
                Some(x) => seq![x@],
                None => Seq::<Seq<char>>::empty(),
            },
            r@.1.len() == 0,
    {
        let mut roots: Vec<String> = Vec::new();
        if let Some(x) = root {
            roots.push(x);
        }
        let r = ServerState { workspace_roots: roots, workspace_root_names: Vec::new() };
        assert(r@.0 =~= match root {
            Some(x) => seq![x@],
            None => Seq::<Seq<char>>::empty(),
        });
        r
    }

    /// The known workspace roots, in priority order.
    pub fn workspace_roots(&self) -> (r: &[String])
        ensures
            strings_view(r@) == self@.0,
    {
        self.workspace_roots.as_slice()
    }

    /// The names of the known workspace roots.
    pub fn workspace_root_names(&self) -> (r: &[String])
        ensures
            strings_view(r@) == self@.1,
    {
        self.workspace_root_names.as_slice()
    }

    /// Takes the workspace roots from initialize parameters (JSON text): the
    /// workspace folders, else `rootUri` / `rootPath`; the roots known before
    /// stay when the parameters give none.
    pub fn capture_init_root(&mut self, params: &str)
        ensures
            final(self)@ == captured_s(old(self)@, params@),
    {
        let es = init_entries(params);
        if es.len() == 0 {
            return;
        }
        let ghost ev = pairs_view(es@);
        let mut roots: Vec<String> = Vec::new();
        let mut names: Vec<String> = Vec::new();
        let mut i: usize = 0;
        while i < es.len()
            invariant
                i <= es.len(),
                ev == pairs_view(es@),
                strings_view(roots@) == ev.take(i as int).map_values(|e: (Seq<char>, Seq<char>)| e.0),
                strings_view(names@) == ev.take(i as int).map_values(|e: (Seq<char>, Seq<char>)| e.1),
            decreases es.len() - i,
        {
            let ghost r0 = strings_view(roots@);
            let ghost n0 = strings_view(names@);
            roots.push(es[i].0.clone());
            names.push(es[i].1.clone());
            assert(strings_view(roots@) == r0.push(ev[i as int].0));
            assert(strings_view(names@) == n0.push(ev[i as int].1));
            assert(ev.take(i + 1) == ev.take(i as int).push(ev[i as int]));
            assert(ev.take(i + 1).map_values(|e: (Seq<char>, Seq<char>)| e.0) == ev.take(
                i as int,
            ).map_values(|e: (Seq<char>, Seq<char>)| e.0).push(ev[i as int].0));
            assert(ev.take(i + 1).map_values(|e: (Seq<char>, Seq<char>)| e.1) == ev.take(
                i as int,
            ).map_values(|e: (Seq<char>, Seq<char>)| e.1).push(ev[i as int].1));
            i += 1;
        }
        assert(ev.take(es.len() as int) == ev);
        self.workspace_roots = roots;
        self.workspace_root_names = names;
    }
}

/// What a request is answered with.
#[derive(Clone, Copy, PartialEq, Eq, Debug, Structural)]
pub enum ReplyKind {
    /// The server's protocol version, capabilities and identity.
    Initialize,
    /// An empty result.
    Ping,
    /// The list of tools.
    ToolList,
    /// The outcome of a tool call.
    ToolCall,
    /// An empty list of resources.
    ResourceList,
    /// An empty list of prompts.
    PromptList,
    /// An error: the method is unknown.
    MethodNotFound,
}

/// The JSON-RPC error code for an unknown method.
pub const METHOD_NOT_FOUND: i32 = -32601;

/// The answer to a request: its kind, the request's `id` (JSON text), and
/// a detail: the protocol version (JSON text) for `Initialize`, the call's
/// parameters (JSON text) for `ToolCall`, the error message for
/// `MethodNotFound`, and empty otherwise.
pub struct Reply {
    pub kind: ReplyKind,
    pub id: String,
    pub detail: String,
}

/// The protocol version an initialize request is answered with: the one
/// its parameters give (as JSON text), else `"2024-11-05"`.
pub open spec fn protocol_version_s(params: Option<Seq<char>>) -> Seq<char> {
    match params {
        Some(p) => match member_s(p, "protocolVersion"@) {
            Some(v) => v,
            None => "\"2024-11-05\""@,
        },
        None => "\"2024-11-05\""@,
    }
}

/// The method a request line names: its `method` string, else empty.
pub open spec fn method_s(line: Seq<char>) -> Seq<char> {
    match member_str_s(line, "method"@) {
        Some(m) => m,
        None => ""@,
    }
}

/// The answer to a request line: none when the line is not JSON or has no
/// `id` (a notification); else by its method.
pub open spec fn reply_s(line: Seq<char>) -> Option<(ReplyKind, Seq<char>, Seq<char>)> {
    match member_s(line, "id"@) {
        None => None,
        Some(id) => {
            let m = method_s(line);
            let params = member_s(line, "params"@);
            Some(
                if m == "initialize"@ {
                    (ReplyKind::Initialize, id, protocol_version_s(params))
                } else if m == "ping"@ {
                    (ReplyKind::Ping, id, ""@)
                } else if m == "tools/list"@ {
                    (ReplyKind::ToolList, id, ""@)
                } else if m == "tools/call"@ {
                    (
                        ReplyKind::ToolCall,
                        id,
                        match params {
                            Some(p) => p,
                            None => "{}"@,
                        },
                    )
                } else if m == "resources/list"@ {
                    (ReplyKind::ResourceList, id, ""@)
                } else if m == "prompts/list"@ {
                    (ReplyKind::PromptList, id, ""@)
                } else {
                    (ReplyKind::MethodNotFound, id, "Method not found: "@ + m)
                },
            )
        },
    }
}

/// The state after a request line: an initialize request with parameters
/// takes its roots from them; any other line leaves the state as it is.
pub open spec fn after_line_s(state: (Seq<Seq<char>>, Seq<Seq<char>>), line: Seq<char>) -> (
    Seq<Seq<char>>,
    Seq<Seq<char>>,
) {
    if member_s(line, "id"@) is Some && method_s(line) == "initialize"@ {
        match member_s(line, "params"@) {
            Some(p) => captured_s(state, p),
            None => state,
        }
    } else {
        state
    }
}

/// The plain values of an answer.
pub open spec fn reply_v(r: Option<Reply>) -> Option<(ReplyKind, Seq<char>, Seq<char>)> {
    match r {
        Some(x) => Some((x.kind, x.id@, x.detail@)),
        None => None,
    }
}

fn is_text(v: &Vec<char>, lit: &str) -> (r: bool)
    ensures
        r == (v@ == lit@),
{
    let l = chars_of(lit);
    chars_eq(v, &l)
}

impl ServerState {
    /// Answers one request line, and takes the workspace roots from an
    /// initialize request.
    pub fn answer_line(&mut self, line: &str) -> (r: Option<Reply>)
        ensures
            reply_v(r) == reply_s(line@),
            final(self)@ == after_line_s(old(self)@, line@),
    {
        let ms = match members_of(line) {
            Some(ms) => ms,
            None => return None,
        };
        let id = match lookup(&ms, "id") {
            Some(id) => id,
            None => return None,
        };
        assert(member_s(line@, "id"@) == Some(id@));
        let method = match lookup(&ms, "method") {
            Some(t) => match string_of_json(t.as_str()) {
                Some(m) => m,
                None => String::from_str(""),
            },
            None => String::from_str(""),
        };
        assert(method@ == method_s(line@));
        let params = lookup(&ms, "params");
        assert(opt_view(params) == member_s(line@, "params"@));
        let mv = chars_of(method.as_str());
        let empty = String::from_str("");
        if is_text(&mv, "initialize") {
            let version = match &params {
                Some(p) => {
                    self.capture_init_root(p.as_str());
                    match member(p.as_str(), "protocolVersion") {
                        Some(v) => v,
                        None => String::from_str("\"2024-11-05\""),
                    }
                },
                None => String::from_str("\"2024-11-05\""),
            };
            return Some(Reply { kind: ReplyKind::Initialize, id, detail: version });
        }
        let reply = if is_text(&mv, "ping") {
            Reply { kind: ReplyKind::Ping, id, detail: empty }
        } else if is_text(&mv, "tools/list") {
            Reply { kind: ReplyKind::ToolList, id, detail: empty }
        } else if is_text(&mv, "tools/call") {
            let p = match params {
                Some(p) => p,
                None => String::from_str("{}"),
            };
            Reply { kind: ReplyKind::ToolCall, id, detail: p }
        } else if is_text(&mv, "resources/list") {
            Reply { kind: ReplyKind::ResourceList, id, detail: empty }
        } else if is_text(&mv, "prompts/list") {
            Reply { kind: ReplyKind::PromptList, id, detail: empty }
        } else {
            let mut m = String::from_str("Method not found: ");
            push_str(&mut m, method.as_str());
            Reply { kind: ReplyKind::MethodNotFound, id, detail: m }
        };
        Some(reply)
    }
}

/// Requests without an `id` (notifications) and lines that are not JSON are
/// never answered; and only an `initialize` request changes what the server
/// knows.
pub proof fn law_only_requests_are_answered(state: (Seq<Seq<char>>, Seq<Seq<char>>), line: Seq<char>)
    ensures
        member_s(line, "id"@) is None ==> reply_s(line) is None && after_line_s(state, line) == state,
        json_members(line) is None ==> reply_s(line) is None,
        method_s(line) != "initialize"@ ==> after_line_s(state, line) == state,
        reply_s(line) matches Some(r) && r.0 != ReplyKind::Initialize ==> after_line_s(state, line)
            == state,
{
}

/// The name a tool call names, else empty.
pub open spec fn call_name_s(params: Seq<char>) -> Seq<char> {
    match member_str_s(params, "name"@) {
        Some(n) => n,
        None => ""@,
    }
}

/// The arguments of a tool call (JSON text), else `{}`.
pub open spec fn call_arguments_s(params: Seq<char>) -> Seq<char> {
    match member_s(params, "arguments"@) {
        Some(a) => a,
        None => "{}"@,
    }
}

/// The `max_chars` a call's arguments ask for, as a whole number, if any.
pub open spec fn call_max_chars_s(arguments: Seq<char>) -> Option<u64> {
    match member_s(arguments, "max_chars"@) {
        Some(v) => json_u64(v),
        None => None,
    }
}

/// What a tool call asks for: the tool's name, its arguments (JSON text)
/// and the output cap it negotiates.
pub struct ToolCallHead {
    pub name: String,
    pub arguments: String,
    pub max_chars: usize,
}

/// Reads a tool call's parameters (JSON text): the tool's name (empty when
/// missing), its arguments (`{}` when missing) and the cap on its output
/// (its positive `max_chars`, else 8000).
pub fn tool_call_head(params: &str) -> (r: ToolCallHead)
    ensures
        r.name@ == call_name_s(params@),
        r.arguments@ == call_arguments_s(params@),
        r.max_chars == match call_max_chars_s(call_arguments_s(params@)) {
            Some(n) => if n as usize > 0 { n as usize } else { 8000 },
            None => 8000,
        },
{
    let name = match member_str(params, "name") {
        Some(n) => n,
        None => String::from_str(""),
    };
    let arguments = match member(params, "arguments") {
        Some(a) => a,
        None => String::from_str("{}"),
    };
    let asked = match member(arguments.as_str(), "max_chars") {
        Some(v) => u64_of_json(v.as_str()),
        None => None,
    };
    let max_chars = negotiated_max_chars(asked);
    ToolCallHead { name, arguments, max_chars }
}

/// The tool a call is served by.
#[derive(Clone, Copy, PartialEq, Eq, Debug, Structural)]
pub enum ToolTarget {
    ManageLanguages,
    CodeExplorer,
    SymbolAnalyzer,
    Chronos,
    Diagnostics,
    FileSkeleton,
    /// No tool of that name: the call is answered with `Tool not found`.
    Unknown,
}

/// The tool a current tool name names.
pub open spec fn direct_target_s(name: Seq<char>) -> ToolTarget {
    if name == "cortex_manage_ast_languages"@ {
        ToolTarget::ManageLanguages
    } else if name == "cortex_code_explorer"@ {
        ToolTarget::CodeExplorer
    } else if name == "cortex_symbol_analyzer"@ {
        ToolTarget::SymbolAnalyzer
    } else if name == "cortex_chronos"@ {
        ToolTarget::Chronos
    } else if name == "cortex_run_diagnostics"@ {
        ToolTarget::Diagnostics
    } else if name == "read_file_skeleton"@ {
        ToolTarget::FileSkeleton
    } else {
        ToolTarget::Unknown
    }
}

/// The tool a call of `name` is served by, and the action an older name
/// stands for (used when the call names none).
pub open spec fn tool_route_s(name: Seq<char>) -> (ToolTarget, Option<Seq<char>>) {
    match tool_alias_s(name) {
        Some((tool, action)) => (direct_target_s(tool), Some(action)),
        None => (direct_target_s(name), None),
    }
}

fn direct_target(name: &str) -> (r: ToolTarget)
    ensures
        r == direct_target_s(name@),
{
    if is(name, "cortex_manage_ast_languages") {
        ToolTarget::ManageLanguages
    } else if is(name, "cortex_code_explorer") {
        ToolTarget::CodeExplorer
    } else if is(name, "cortex_symbol_analyzer") {
        ToolTarget::SymbolAnalyzer
    } else if is(name, "cortex_chronos") {
        ToolTarget::Chronos
    } else if is(name, "cortex_run_diagnostics") {
        ToolTarget::Diagnostics
    } else if is(name, "read_file_skeleton") {
        ToolTarget::FileSkeleton
    } else {
        ToolTarget::Unknown
    }
}

/// The tool a call of `name` is served by, and the default action of an
/// older tool name.
pub fn tool_route(name: &str) -> (r: (ToolTarget, Option<String>))
    ensures
        r.0 == tool_route_s(name@).0,
        opt_view(r.1) == tool_route_s(name@).1,
{
    match tool_alias(name) {
        Some((tool, action)) => (direct_target(tool.as_str()), Some(action)),
        None => (direct_target(name), None),
    }
}

} // verus!
