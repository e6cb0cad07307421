//! Request and result records of the action tools, the index hooks, the
//! end of a SQL statement, and the `.env` patcher.
use vstd::prelude::*;
use crate::text::{vecs_view};
use crate::text::{chars_of, is_ws, is_ws_exec, matches_at, occurs_at, push_chars, push_str, res_view};
use crate::z4::{lemma_next_nl, line_text, line_text_end, lines_from, lines_s, next_nl, next_nl_exec};

verus! {

broadcast use vstd::seq_lib::group_seq_properties;

/// Parameters of a shell execution request.
#[derive(Debug, Clone, Default)]
pub struct ShellExecParams {
    pub command: Option<String>,
    pub cwd: Option<String>,
    pub timeout_secs: Option<u64>,
    pub run_diagnostics: Option<bool>,
    pub problem_matcher: Option<String>,
}

/// What a shell command produced.
#[derive(Debug, Clone)]
pub struct ShellResult {
    /// The command that was run.
    pub command: String,
    pub stdout: String,
    pub stderr: String,
    /// Exit code (`None` when the command timed out or was killed).
    pub exit_code: Option<i32>,
    pub timed_out: bool,
    /// Wall-clock time in milliseconds.
    pub duration_ms: u64,
}

/// One edit of a data file (JSON, YAML), addressed by a path such as `$.a.b`.
#[derive(Debug)]
pub struct DataEdit {
    pub target: String,
    /// `set` or `delete`.
    pub action: String,
    pub value: Option<String>,
}

/// One edit of a markup file (Markdown, HTML, XML).
#[derive(Debug)]
pub struct MarkupEdit {
    pub target: String,
    pub action: String,
    pub code: String,
}

/// One edit of a SQL file, addressed by a statement such as `create_table:users`.
#[derive(Debug)]
pub struct SqlEdit {
    pub target: String,
    pub action: String,
    pub code: String,
}

// ───────────────────────── SQL statements ─────────────────────────

/// Where a SQL statement read from byte `i` ends, in state (`depth` of open
/// parentheses, open `quote`): just past the first `;` outside quotes with
/// no parenthesis open, or at the end of the text. Quotes are `'` and `"`,
/// closed by the same byte; there are no escapes.
pub open spec fn sql_statement_end_s(b: Seq<u8>, i: int, depth: int, quote: Option<u8>) -> int
    decreases b.len() - i,
{
    if i < 0 || i >= b.len() {
        b.len() as int
    } else {
        let c = b[i];
        match quote {
            Some(q) => if c == q {
                sql_statement_end_s(b, i + 1, depth, None)
            } else {
                sql_statement_end_s(b, i + 1, depth, quote)
            },
            None => if c == 39u8 || c == 34u8 {
                sql_statement_end_s(b, i + 1, depth, Some(c))
            } else if c == 40u8 {
                sql_statement_end_s(b, i + 1, depth + 1, None)
            } else if c == 41u8 {
                sql_statement_end_s(b, i + 1, depth - 1, None)
            } else if c == 59u8 && depth == 0 {
                i + 1
            } else {
                sql_statement_end_s(b, i + 1, depth, None)
            },
        }
    }
}

/// The byte offset just past the `;` that ends the statement starting at
/// byte `from` (the text's length when none does).
pub fn find_sql_statement_end(source: &str, from: usize) -> (r: usize)
    ensures
        r == sql_statement_end_s(vstd::utf8::encode_utf8(source@), from as int, 0, None),
{
    let bytes = source.as_bytes();
    let mut i = from;
    let mut depth: i128 = 0;
    let mut quote: Option<u8> = None;
    while i < bytes.len()
        invariant
            bytes@ == vstd::utf8::encode_utf8(source@),
            from <= i,
            -(i as int) <= depth <= i as int,
            sql_statement_end_s(bytes@, i as int, depth as int, quote) == sql_statement_end_s(
                bytes@,
                from as int,
                0,
                None,
            ),
        decreases bytes.len() - i,
    {
        let c = bytes[i];
        match quote {
            Some(q) => {
                if c == q {
                    quote = None;
                }
            },
            None => {
                if c == 39u8 || c == 34u8 {
                    quote = Some(c);
                } else if c == 40u8 {
                    depth = depth + 1;
                } else if c == 41u8 {
                    depth = depth - 1;
                } else if c == 59u8 && depth == 0 {
                    return i + 1;
                }
            },
        }
        i += 1;
    }
    bytes.len()
}

/// Tells the semantic index that a file was removed.  This build keeps no
/// background index, so there is nothing to tell.
pub fn fire_tombstone(_project_path: String, _file_path: String) {
}

/// Tells the semantic index that a file changed.  This build keeps no
/// background index, so there is nothing to tell.
pub fn fire_index_modified(_project_path: String, _file_path: String) {
}

// ───────────────────────── `.env` files ─────────────────────────

/// End of the run of whitespace starting at `i`.
pub open spec fn ws_run(s: Seq<char>, i: int) -> int
    decreases s.len() - i,
{
    if 0 <= i < s.len() && is_ws(s[i]) {
        ws_run(s, i + 1)
    } else {
        i
    }
}

/// Whether `^\s*KEY\s*=` matches `line` with `key` read literally.
pub open spec fn env_key_matches(line: Seq<char>, key: Seq<char>) -> bool {
    exists|a: int|
        #![trigger occurs_at(line, key, a)]
        0 <= a <= ws_run(line, 0) && occurs_at(line, key, a) && ws_run(line, a + key.len())
            < line.len() && line[ws_run(line, a + key.len())] == '='
}

/// Index of the first line from `k` on that assigns `key`.
pub open spec fn first_env_line(ls: Seq<Seq<char>>, key: Seq<char>, k: int) -> Option<int>
    decreases ls.len() - k,
{
    if k < 0 || k >= ls.len() {
        None
    } else if env_key_matches(ls[k], key) {
        Some(k)
    } else {
        first_env_line(ls, key, k + 1)
    }
}

/// The lines that do not assign `key`.
pub open spec fn without_key(ls: Seq<Seq<char>>, key: Seq<char>) -> Seq<Seq<char>>
    decreases ls.len(),
{
    if ls.len() == 0 {
        ls
    } else if env_key_matches(ls.last(), key) {
        without_key(ls.drop_last(), key)
    } else {
        without_key(ls.drop_last(), key).push(ls.last())
    }
}

/// Each line followed by a line feed.
pub open spec fn lines_with_nl(ls: Seq<Seq<char>>) -> Seq<char>
    decreases ls.len(),
{
    if ls.len() == 0 {
        seq![]
    } else {
        lines_with_nl(ls.drop_last()) + ls.last() + seq!['\n']
    }
}

/// `lines.join("\n") + "\n"`.
pub open spec fn env_text(ls: Seq<Seq<char>>) -> Seq<char> {
    if ls.len() == 0 {
        seq!['\n']
    } else {
        lines_with_nl(ls)
    }
}

pub open spec fn value_required_msg() -> Seq<char> {
    "'value' required for 'set' action"@
}

pub open spec fn multiline_value_msg(key: Seq<char>) -> Seq<char> {
    "Value for key '"@ + key
        + "' contains newline/carriage-return characters. This would corrupt the .env file by injecting additional lines. Encode the value (e.g., use \\n) before setting it."@
}

pub open spec fn unknown_action_msg(action: Seq<char>) -> Seq<char> {
    "Unknown action: "@ + action
}

/// The new text of a `.env` file: `set` replaces the first line assigning
/// `key` (or appends one), `delete` drops every line assigning it.
pub open spec fn patch_env_s(
    raw: Seq<char>,
    action: Seq<char>,
    key: Seq<char>,
    value: Option<Seq<char>>,
) -> Result<Seq<char>, Seq<char>> {
    let ls = lines_s(raw);
    if action == "set"@ {
        match value {
            None => Err(value_required_msg()),
            Some(v) => if v.contains('\n') || v.contains('\r') {
                Err(multiline_value_msg(key))
            } else {
                let new_line = key + "="@ + v;
                Ok(
                    env_text(
                        match first_env_line(ls, key, 0) {
                            Some(k) => ls.update(k, new_line),
                            None => ls.push(new_line),
                        },
                    ),
                )
            },
        }
    } else if action == "delete"@ {
        Ok(env_text(without_key(ls, key)))
    } else {
        Err(unknown_action_msg(action))
    }
}

fn ws_run_exec(v: &[char], i: usize) -> (e: usize)
    requires
        i <= v.len(),
    ensures
        i <= e <= v.len(),
        e == ws_run(v@, i as int),
    decreases v.len() - i,
{
    if i < v.len() && is_ws_exec(v[i]) {
        ws_run_exec(v, i + 1)
    } else {
        i
    }
}

fn env_key_matches_exec(line: &[char], key: &[char]) -> (r: bool)
    ensures
        r == env_key_matches(line@, key@),
{
    let lead = ws_run_exec(line, 0);
    let mut a: usize = 0;
    loop
        invariant
            lead == ws_run(line@, 0),
            lead <= line.len(),
            a <= lead,
            forall|b: int|
                0 <= b < a ==> !(#[trigger] occurs_at(line@, key@, b) && ws_run(line@, b + key@.len())
                    < line@.len() && line@[ws_run(line@, b + key@.len())] == '='),
        decreases lead - a,
    {
        if matches_at(line, a, key) {
            let j = ws_run_exec(line, a + key.len());
            if j < line.len() && line[j] == '=' {
                return true;
            }
        }
        if a == lead {
            return false;
        }
        a += 1;
    }
}

proof fn lemma_lines_step(s: Seq<char>, i: int)
    requires
        0 <= i < s.len(),
    ensures
        i <= next_nl(s, i) <= s.len(),
        lines_from(s, i) == seq![line_text(s, i)] + lines_from(s, next_nl(s, i) + 1),
{
    lemma_next_nl(s, i);
}

/// The lines of `v`, as `str::lines` yields them.
pub fn lines_of(v: &[char]) -> (r: Vec<Vec<char>>)
    ensures
        r@.len() == lines_s(v@).len(),
        forall|k: int| 0 <= k < r.len() ==> (#[trigger] r@[k])@ == lines_s(v@)[k],
{
    let mut r: Vec<Vec<char>> = Vec::new();
    let mut i: usize = 0;
    let ghost whole = lines_s(v@);
    while i < v.len()
        invariant
            i <= v.len(),
            whole == lines_s(v@),
            r@.len() + lines_from(v@, i as int).len() == whole.len(),
            forall|k: int| 0 <= k < r.len() ==> (#[trigger] r@[k])@ == whole[k],
            forall|k: int|
                0 <= k < lines_from(v@, i as int).len() ==> #[trigger] whole[r.len() + k]
                    == lines_from(v@, i as int)[k],
        decreases v.len() - i,
    {
        let e = next_nl_exec(v, i);
        proof {
            lemma_lines_step(v@, i as int);
        }
        let t = line_text_end(v, i, e);
        let line = crate::z4::slice_chars(v, i, t);
        let ghost cur = lines_from(v@, i as int);
        let ghost rest = lines_from(v@, e + 1);
        let ghost n0 = r.len() as int;
        r.push(line);
        assert(whole[n0 + 0] == cur[0]);
        assert forall|k: int| 0 <= k < rest.len() implies #[trigger] whole[r.len() + k] == rest[k] by {
            assert(cur[k + 1] == rest[k]);
            assert(whole[n0 + (k + 1)] == cur[k + 1]);
        }
        let next = if e < v.len() {
            e + 1
        } else {
            e
        };
        proof {
            if e >= v.len() {
                assert(lines_from(v@, next as int).len() == 0);
            }
        }
        i = next;
    }
    r
}

fn find_env_line(ls: &Vec<Vec<char>>, kv: &Vec<char>) -> (r: Option<usize>)
    ensures
        match first_env_line(vecs_view(ls@), kv@, 0) {
            Some(k) => r matches Some(j) && j as int == k && j < ls.len(),
            None => r is None,
        },
{
    let ghost orig = vecs_view(ls@);
    let mut k: usize = 0;
    while k < ls.len()
        invariant
            k <= ls.len(),
            orig == vecs_view(ls@),
            first_env_line(orig, kv@, 0) == first_env_line(orig, kv@, k as int),
        decreases ls.len() - k,
    {
        if env_key_matches_exec(ls[k].as_slice(), kv.as_slice()) {
            return Some(k);
        }
        k += 1;
    }
    None
}

fn render_env(ls: &Vec<Vec<char>>) -> (r: String)
    ensures
        r@ == env_text(vecs_view(ls@)),
{
    let mut out = String::new();
    let mut i: usize = 0;
    while i < ls.len()
        invariant
            i <= ls.len(),
            out@ == lines_with_nl(vecs_view(ls@).take(i as int)),
        decreases ls.len() - i,
    {
        assert(vecs_view(ls@).take(i + 1).drop_last() == vecs_view(ls@).take(i as int));
        push_chars(&mut out, ls[i].as_slice());
        push_str(&mut out, "\n");
        proof {
            reveal_strlit("\n");
        }
        i += 1;
    }
    assert(vecs_view(ls@).take(ls.len() as int) == vecs_view(ls@));
    if ls.len() == 0 {
        push_str(&mut out, "\n");
        proof {
            reveal_strlit("\n");
        }
    }
    out
}

fn str_is(s: &str, lit: &str) -> (r: bool)
    ensures
        r == (s@ == lit@),
{
    let a = chars_of(s);
    let b = chars_of(lit);
    a.len() == b.len() && matches_at(&a, 0, &b) && {
        proof {
            if a.len() == b.len() && occurs_at(a@, b@, 0) {
                assert(a@.subrange(0, b@.len() as int) == a@);
            }
        }
        true
    }
}

/// Applies a `set` or `delete` of `key` to the text of a `.env` file.
pub fn patch_env_text(raw: &str, action: &str, key: &str, value: Option<&str>) -> (r: Result<
    String,
    String,
>)
    ensures
        res_view(r) == patch_env_s(raw@, action@, key@, crate::text::str_opt(value)),
{
    let v = chars_of(raw);
    let kv = chars_of(key);
    let ls = lines_of(&v);
    assert(vecs_view(ls@) == lines_s(raw@));
    if str_is(action, "set") {
        let val = match value {
            None => {
                return Err(String::from_str("'value' required for 'set' action"));
            },
            Some(x) => x,
        };
        let vv = chars_of(val);
        if crate::text::contains_char(&vv, '\n') || crate::text::contains_char(&vv, '\r') {
            let mut m = String::from_str("Value for key '");
            push_str(&mut m, key);
            push_str(
                &mut m,
                "' contains newline/carriage-return characters. This would corrupt the .env file by injecting additional lines. Encode the value (e.g., use \\n) before setting it.",
            );
            return Err(m);
        }
        let mut new_line = kv.clone();
        new_line.push('=');
        let mut j: usize = 0;
        while j < vv.len()
            invariant
                j <= vv.len(),
                new_line@ == kv@ + seq!['='] + vv@.take(j as int),
            decreases vv.len() - j,
        {
            new_line.push(vv[j]);
            j += 1;
            assert(vv@.take(j as int) == vv@.take(j - 1).push(vv@[j - 1]));
        }
        assert(vv@.take(vv.len() as int) == vv@);
        proof {
            reveal_strlit("=");
        }
        let mut ls = ls;
        let ghost orig = vecs_view(ls@);
        let found = find_env_line(&ls, &kv);
        let ghost nl = new_line@;
        assert(nl == key@ + "="@ + val@);
        if let Some(k) = found {
            ls.set(k, new_line);
            assert(vecs_view(ls@) =~= orig.update(k as int, nl));
        } else {
            ls.push(new_line);
            assert(vecs_view(ls@) =~= orig.push(nl));
        }
        Ok(render_env(&ls))
    } else if str_is(action, "delete") {
        let mut kept: Vec<Vec<char>> = Vec::new();
        let ghost orig = vecs_view(ls@);
        let mut i: usize = 0;
        while i < ls.len()
            invariant
                i <= ls.len(),
                orig == vecs_view(ls@),
                vecs_view(kept@) == without_key(orig.take(i as int), kv@),
            decreases ls.len() - i,
        {
            assert(orig.take(i + 1).drop_last() == orig.take(i as int));
            if !env_key_matches_exec(ls[i].as_slice(), &kv) {
                kept.push(ls[i].clone());
            }
            i += 1;
        }
        assert(orig.take(ls.len() as int) == orig);
        Ok(render_env(&kept))
    } else {
        let mut m = String::from_str("Unknown action: ");
        push_str(&mut m, action);
        Err(m)
    }
}

/// The message reported after a `.env` file was patched.
pub fn patched_env_message(file: &str, key: &str) -> (r: String)
    ensures
        r@ == "✅ Patched .env '"@ + file@ + "' for key '"@ + key@ + "'"@,
{
    let mut m = String::from_str("✅ Patched .env '");
    push_str(&mut m, file);
    push_str(&mut m, "' for key '");
    push_str(&mut m, key);
    push_str(&mut m, "'");
    m
}


// ───────────────────────── laws ─────────────────────────

/// After `delete`, no line assigns the key, and every line that did not
/// assign it is still there.
pub proof fn law_delete_removes_every_assignment(ls: Seq<Seq<char>>, key: Seq<char>)
    ensures
        forall|k: int| 0 <= k < without_key(ls, key).len() ==> !env_key_matches(
            #[trigger] without_key(ls, key)[k],
            key,
        ),
        forall|k: int| 0 <= k < ls.len() && !env_key_matches(ls[k], key) ==> without_key(ls, key).contains(
            #[trigger] ls[k],
        ),
    decreases ls.len(),
{
    if ls.len() > 0 {
        law_delete_removes_every_assignment(ls.drop_last(), key);
        let r = without_key(ls.drop_last(), key);
        assert forall|k: int| 0 <= k < ls.len() && !env_key_matches(ls[k], key) implies without_key(
            ls,
            key,
        ).contains(#[trigger] ls[k]) by {
            if k < ls.len() - 1 {
                assert(ls.drop_last()[k] == ls[k]);
                assert(r.contains(ls[k]));
                if !env_key_matches(ls.last(), key) {
                    let j = choose|j: int| 0 <= j < r.len() && r[j] == ls[k];
                    assert(r.push(ls.last())[j] == ls[k]);
                }
            } else {
                assert(without_key(ls, key) == r.push(ls.last()));
                assert(r.push(ls.last())[r.len() as int] == ls[k]);
            }
        }
        if !env_key_matches(ls.last(), key) {
            assert forall|k: int| 0 <= k < r.push(ls.last()).len() implies !env_key_matches(
                #[trigger] r.push(ls.last())[k],
                key,
            ) by {
                if k < r.len() {
                    assert(r.push(ls.last())[k] == r[k]);
                }
            }
        }
    }
}

/// After `set`, the first line that assigned the key (or, when none did, a
/// new last line) reads `KEY=VALUE`, and every other line is unchanged.
pub proof fn law_set_writes_one_assignment(ls: Seq<Seq<char>>, key: Seq<char>, v: Seq<char>)
    ensures
        ({
            let new_line = key + "="@ + v;
            let out = match first_env_line(ls, key, 0) {
                Some(k) => ls.update(k, new_line),
                None => ls.push(new_line),
            };
            &&& out.contains(new_line)
            &&& out.len() >= ls.len()
            &&& forall|j: int| 0 <= j < ls.len() && first_env_line(ls, key, 0) != Some(j) ==> #[trigger] out[j] == ls[j]
        }),
{
    let new_line = key + "="@ + v;
    lemma_first_env_line(ls, key, 0);
    match first_env_line(ls, key, 0) {
        Some(k) => {
            assert(ls.update(k, new_line)[k] == new_line);
        },
        None => {
            assert(ls.push(new_line)[ls.len() as int] == new_line);
        },
    }
}

proof fn lemma_first_env_line(ls: Seq<Seq<char>>, key: Seq<char>, k: int)
    ensures
        first_env_line(ls, key, k) matches Some(j) ==> k <= j < ls.len() && 0 <= j,
    decreases ls.len() - k,
{
    if 0 <= k < ls.len() && !env_key_matches(ls[k], key) {
        lemma_first_env_line(ls, key, k + 1);
    }
}

} // verus!
