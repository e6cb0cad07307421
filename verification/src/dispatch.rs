//! Routing of the action tools: which tool a name selects, how the edit
//! items of a request become edits (with their defaults and refusals), which
//! tools refuse z4 files, and which diagnostics command a project gets.
//! Reading the request and running the tool are the caller's.
use vstd::prelude::*;
use crate::act::{DataEdit, MarkupEdit, SqlEdit};
use crate::editor::AstEdit;
use crate::text::{chars_of, push_str};

verus! {

/// The tools of the action server.
#[derive(Debug, Clone, Copy, PartialEq, Eq, Structural)]
pub enum ActTool {
    EditAst,
    EditDataGraph,
    EditMarkup,
    SqlSurgery,
    ShellExec,
    SearchExact,
    HotReload,
    FsManage,
}

/// The tool a name selects.
pub open spec fn act_tool_s(name: Seq<char>) -> Option<ActTool> {
    if name == "cortex_act_edit_ast"@ {
        Some(ActTool::EditAst)
    } else if name == "cortex_act_edit_data_graph"@ {
        Some(ActTool::EditDataGraph)
    } else if name == "cortex_act_edit_markup"@ {
        Some(ActTool::EditMarkup)
    } else if name == "cortex_act_sql_surgery"@ {
        Some(ActTool::SqlSurgery)
    } else if name == "cortex_act_shell_exec"@ {
        Some(ActTool::ShellExec)
    } else if name == "cortex_search_exact"@ {
        Some(ActTool::SearchExact)
    } else if name == "cortex_mcp_hot_reload"@ {
        Some(ActTool::HotReload)
    } else if name == "cortex_fs_manage"@ {
        Some(ActTool::FsManage)
    } else {
        None
    }
}

/// The answer to a name that selects no tool.
pub open spec fn unknown_tool_msg(name: Seq<char>) -> Seq<char> {
    "Unknown tool: '"@ + name
        + "'. Available: cortex_act_edit_ast, cortex_fs_manage, cortex_act_edit_data_graph, cortex_act_edit_markup, cortex_act_sql_surgery, cortex_act_shell_exec, cortex_act_batch_execute, cortex_search_exact, cortex_mcp_hot_reload"@
}

fn is(s: &str, lit: &str) -> (r: bool)
    ensures
        r == (s@ == lit@),
{
    crate::text::chars_eq(&chars_of(s), &chars_of(lit))
}

/// The tool that `name` selects, or the unknown-tool answer.
pub fn act_tool(name: &str) -> (r: Result<ActTool, String>)
    ensures
        match act_tool_s(name@) {
            Some(t) => r == Ok::<ActTool, String>(t),
            None => r matches Err(m) && m@ == unknown_tool_msg(name@),
        },
{
    if is(name, "cortex_act_edit_ast") {
        Ok(ActTool::EditAst)
    } else if is(name, "cortex_act_edit_data_graph") {
        Ok(ActTool::EditDataGraph)
    } else if is(name, "cortex_act_edit_markup") {
        Ok(ActTool::EditMarkup)
    } else if is(name, "cortex_act_sql_surgery") {
        Ok(ActTool::SqlSurgery)
    } else if is(name, "cortex_act_shell_exec") {
        Ok(ActTool::ShellExec)
    } else if is(name, "cortex_search_exact") {
        Ok(ActTool::SearchExact)
    } else if is(name, "cortex_mcp_hot_reload") {
        Ok(ActTool::HotReload)
    } else if is(name, "cortex_fs_manage") {
        Ok(ActTool::FsManage)
    } else {
        let mut m = String::from_str("Unknown tool: '");
        push_str(&mut m, name);
        push_str(
            &mut m,
            "'. Available: cortex_act_edit_ast, cortex_fs_manage, cortex_act_edit_data_graph, cortex_act_edit_markup, cortex_act_sql_surgery, cortex_act_shell_exec, cortex_act_batch_execute, cortex_search_exact, cortex_mcp_hot_reload",
        );
        Err(m)
    }
}

/// The tools that refuse to edit a z4 file.
pub open spec fn z4_refusal_s(tool: ActTool, file_is_z4: bool) -> Option<Seq<char>> {
    if !file_is_z4 {
        None
    } else {
        match tool {
            ActTool::EditMarkup => Some(
                "cortex_act_edit_markup is disabled when z4=true. Use cortex_fs_manage so z4c validation can run before the mutation is accepted."@,
            ),
            ActTool::SqlSurgery => Some(
                "cortex_act_sql_surgery is disabled when z4=true. Use cortex_fs_manage so z4c validation can run before the mutation is accepted."@,
            ),
            _ => None,
        }
    }
}

/// Why `tool` refuses a file, when it is a z4 file that the tool must not edit.
pub fn z4_refusal(tool: ActTool, file_is_z4: bool) -> (r: Option<String>)
    ensures
        match z4_refusal_s(tool, file_is_z4) {
            Some(m) => r matches Some(x) && x@ == m,
            None => r is None,
        },
{
    if !file_is_z4 {
        return None;
    }
    match tool {
        ActTool::EditMarkup => Some(
            String::from_str(
                "cortex_act_edit_markup is disabled when z4=true. Use cortex_fs_manage so z4c validation can run before the mutation is accepted.",
            ),
        ),
        ActTool::SqlSurgery => Some(
            String::from_str(
                "cortex_act_sql_surgery is disabled when z4=true. Use cortex_fs_manage so z4c validation can run before the mutation is accepted.",
            ),
        ),
        _ => None,
    }
}

// ───────────────────────── edit items ─────────────────────────

/// The string fields of one edit item, as the request gave them (a field
/// that is missing or not a string is `None`).
#[derive(Debug, Clone)]
pub struct EditFields {
    pub target: Option<String>,
    pub action: Option<String>,
    pub code: Option<String>,
    pub content: Option<String>,
    pub value: Option<String>,
}

/// An optional string's text, or `d`.
pub open spec fn or_default(o: Option<String>, d: Seq<char>) -> Seq<char> {
    match o {
        Some(s) => s@,
        None => d,
    }
}

/// The answer to an edit without a target.
pub open spec fn missing_target_msg() -> Seq<char> {
    "Each edit must have a 'target'"@
}

/// The answer to a markup edit that would replace or insert nothing.
pub open spec fn empty_code_msg(action: Seq<char>, target: Seq<char>) -> Seq<char> {
    "Action '"@ + action + "' on target '"@ + target
        + "' requires non-empty 'code' (replacement content). Use the 'code' field (not 'content') for replacement text."@
}

/// An edit as plain values: target, action, code.
pub open spec fn code_edit_s(tool: ActTool, f: EditFields) -> (Seq<char>, Seq<char>, Seq<char>) {
    let code = if tool == ActTool::EditMarkup {
        match f.code {
            Some(c) => c@,
            None => or_default(f.content, ""@),
        }
    } else {
        or_default(f.code, ""@)
    };
    (or_default(f.target, ""@), or_default(f.action, "replace"@), code)
}

/// What is wrong with an edit item, if anything: no target; or, for a
/// markup edit that replaces or inserts, no code.
pub open spec fn code_edit_error(tool: ActTool, f: EditFields) -> Option<Seq<char>> {
    let (t, a, c) = code_edit_s(tool, f);
    if t.len() == 0 {
        Some(missing_target_msg())
    } else if tool == ActTool::EditMarkup && (a == "replace"@ || a == "insert_before"@ || a
        == "insert_after"@) && c.len() == 0 {
        Some(empty_code_msg(a, t))
    } else {
        None
    }
}

/// The first error among the first `n` items.
pub open spec fn first_code_error(tool: ActTool, items: Seq<EditFields>, n: int) -> Option<Seq<char>>
    decreases n,
{
    if n <= 0 {
        None
    } else {
        match first_code_error(tool, items, n - 1) {
            Some(e) => Some(e),
            None => code_edit_error(tool, items[n - 1]),
        }
    }
}

fn text_or(o: &Option<String>, d: &str) -> (r: String)
    ensures
        r@ == or_default(*o, d@),
{
    match o {
        Some(s) => s.clone(),
        None => String::from_str(d),
    }
}

/// One edit item of a code-editing tool (AST, markup or SQL) as plain
/// values, or what is wrong with it.
fn code_edit(tool: ActTool, f: &EditFields) -> (r: Result<(String, String, String), String>)
    ensures
        match code_edit_error(tool, *f) {
            Some(e) => r matches Err(m) && m@ == e,
            None => r matches Ok(x) && (x.0@, x.1@, x.2@) == code_edit_s(tool, *f),
        },
{
    let target = text_or(&f.target, "");
    let action = text_or(&f.action, "replace");
    let code = if tool == ActTool::EditMarkup {
        match &f.code {
            Some(c) => c.clone(),
            None => text_or(&f.content, ""),
        }
    } else {
        text_or(&f.code, "")
    };
    proof {
        reveal_strlit("");
    }
    if chars_of(target.as_str()).len() == 0 {
        return Err(String::from_str("Each edit must have a 'target'"));
    }
    if tool == ActTool::EditMarkup && (is(action.as_str(), "replace") || is(action.as_str(), "insert_before")
        || is(action.as_str(), "insert_after")) && chars_of(code.as_str()).len() == 0 {
        let mut m = String::from_str("Action '");
        push_str(&mut m, action.as_str());
        push_str(&mut m, "' on target '");
        push_str(&mut m, target.as_str());
        push_str(
            &mut m,
            "' requires non-empty 'code' (replacement content). Use the 'code' field (not 'content') for replacement text.",
        );
        return Err(m);
    }
    Ok((target, action, code))
}

/// The edit items of a code-editing tool as plain values (target, action
/// with `replace` by default, code with empty by default, a markup edit
/// taking `content` when `code` is missing), or the first item's error.
pub fn code_edits(tool: ActTool, items: &Vec<EditFields>) -> (r: Result<Vec<(String, String, String)>, String>)
    ensures
        match first_code_error(tool, items@, items.len() as int) {
            Some(e) => r matches Err(m) && m@ == e,
            None => r matches Ok(v) && v.len() == items.len() && forall|i: int|
                0 <= i < v.len() ==> ((#[trigger] v@[i]).0@, v@[i].1@, v@[i].2@) == code_edit_s(
                    tool,
                    items@[i],
                ),
        },
{
    let mut out: Vec<(String, String, String)> = Vec::new();
    let mut i: usize = 0;
    while i < items.len()
        invariant
            i <= items.len(),
            out.len() == i,
            first_code_error(tool, items@, i as int) is None,
            forall|j: int|
                0 <= j < i ==> ((#[trigger] out@[j]).0@, out@[j].1@, out@[j].2@) == code_edit_s(
                    tool,
                    items@[j],
                ),
        decreases items.len() - i,
    {
        match code_edit(tool, &items[i]) {
            Err(m) => {
                proof {
                    lemma_first_error_stays(tool, items@, i as int + 1, items.len() as int);
                }
                return Err(m);
            },
            Ok(e) => {
                out.push(e);
            },
        }
        i += 1;
    }
    Ok(out)
}

proof fn lemma_first_error_stays(tool: ActTool, items: Seq<EditFields>, n: int, m: int)
    requires
        1 <= n <= m,
        first_code_error(tool, items, n) is Some,
    ensures
        first_code_error(tool, items, m) == first_code_error(tool, items, n),
    decreases m - n,
{
    if n < m {
        lemma_first_error_stays(tool, items, n, m - 1);
    }
}

/// The edits of an AST edit request.
pub fn ast_edits(items: &Vec<EditFields>) -> (r: Result<Vec<AstEdit>, String>)
    ensures
        match first_code_error(ActTool::EditAst, items@, items.len() as int) {
            Some(e) => r matches Err(m) && m@ == e,
            None => r matches Ok(v) && v.len() == items.len() && forall|i: int|
                0 <= i < v.len() ==> ((#[trigger] v@[i]).target@, v@[i].action@, v@[i].code@)
                    == code_edit_s(ActTool::EditAst, items@[i]),
        },
{
    let es = code_edits(ActTool::EditAst, items)?;
    let mut out: Vec<AstEdit> = Vec::new();
    let mut i: usize = 0;
    while i < es.len()
        invariant
            i <= es.len(),
            out.len() == i,
            forall|j: int|
                0 <= j < i ==> ((#[trigger] out@[j]).target@, out@[j].action@, out@[j].code@) == (
                    es@[j].0@,
                    es@[j].1@,
                    es@[j].2@,
                ),
        decreases es.len() - i,
    {
        out.push(AstEdit { target: es[i].0.clone(), action: es[i].1.clone(), code: es[i].2.clone() });
        i += 1;
    }
    Ok(out)
}

/// The edits of a markup edit request.
pub fn markup_edits(items: &Vec<EditFields>) -> (r: Result<Vec<MarkupEdit>, String>)
    ensures
        match first_code_error(ActTool::EditMarkup, items@, items.len() as int) {
            Some(e) => r matches Err(m) && m@ == e,
            None => r matches Ok(v) && v.len() == items.len() && forall|i: int|
                0 <= i < v.len() ==> ((#[trigger] v@[i]).target@, v@[i].action@, v@[i].code@)
                    == code_edit_s(ActTool::EditMarkup, items@[i]),
        },
{
    let es = code_edits(ActTool::EditMarkup, items)?;
    let mut out: Vec<MarkupEdit> = Vec::new();
    let mut i: usize = 0;
    while i < es.len()
        invariant
            i <= es.len(),
            out.len() == i,
            forall|j: int|
                0 <= j < i ==> ((#[trigger] out@[j]).target@, out@[j].action@, out@[j].code@) == (
                    es@[j].0@,
                    es@[j].1@,
                    es@[j].2@,
                ),
        decreases es.len() - i,
    {
        out.push(
            MarkupEdit { target: es[i].0.clone(), action: es[i].1.clone(), code: es[i].2.clone() },
        );
        i += 1;
    }
    Ok(out)
}

/// The edits of a SQL surgery request.
pub fn sql_edits(items: &Vec<EditFields>) -> (r: Result<Vec<SqlEdit>, String>)
    ensures
        match first_code_error(ActTool::SqlSurgery, items@, items.len() as int) {
            Some(e) => r matches Err(m) && m@ == e,
            None => r matches Ok(v) && v.len() == items.len() && forall|i: int|
                0 <= i < v.len() ==> ((#[trigger] v@[i]).target@, v@[i].action@, v@[i].code@)
                    == code_edit_s(ActTool::SqlSurgery, items@[i]),
        },
{
    let es = code_edits(ActTool::SqlSurgery, items)?;
    let mut out: Vec<SqlEdit> = Vec::new();
    let mut i: usize = 0;
    while i < es.len()
        invariant
            i <= es.len(),
            out.len() == i,
            forall|j: int|
                0 <= j < i ==> ((#[trigger] out@[j]).target@, out@[j].action@, out@[j].code@) == (
                    es@[j].0@,
                    es@[j].1@,
                    es@[j].2@,
                ),
        decreases es.len() - i,
    {
        out.push(SqlEdit { target: es[i].0.clone(), action: es[i].1.clone(), code: es[i].2.clone() });
        i += 1;
    }
    Ok(out)
}

/// The edits of a data-graph request: target, action (`set` by default)
/// and value; the first item without a target refuses the request.
pub fn data_edits(items: &Vec<EditFields>) -> (r: Result<Vec<DataEdit>, String>)
    ensures
        match r {
            Err(m) => m@ == missing_target_msg() && exists|i: int|
                0 <= i < items.len() && or_default(#[trigger] items@[i].target, ""@).len() == 0,
            Ok(v) => v.len() == items.len() && forall|i: int|
                0 <= i < v.len() ==> or_default(items@[i].target, ""@).len() != 0
                    && (#[trigger] v@[i]).target@ == or_default(items@[i].target, ""@)
                    && v@[i].action@ == or_default(items@[i].action, "set"@) && match items@[i].value {
                    Some(x) => v@[i].value matches Some(y) && y@ == x@,
                    None => v@[i].value is None,
                },
        },
{
    proof {
        reveal_strlit("");
    }
    let mut out: Vec<DataEdit> = Vec::new();
    let mut i: usize = 0;
    while i < items.len()
        invariant
            i <= items.len(),
            out.len() == i,
            forall|j: int| 0 <= j < i ==> or_default(#[trigger] items@[j].target, ""@).len() != 0,
            forall|j: int|
                0 <= j < i ==> (#[trigger] out@[j]).target@ == or_default(items@[j].target, ""@)
                    && out@[j].action@ == or_default(items@[j].action, "set"@) && match items@[j].value {
                    Some(x) => out@[j].value matches Some(y) && y@ == x@,
                    None => out@[j].value is None,
                },
        decreases items.len() - i,
    {
        let target = text_or(&items[i].target, "");
        if chars_of(target.as_str()).len() == 0 {
            return Err(String::from_str("Each edit must have a 'target'"));
        }
        let value = match &items[i].value {
            Some(v) => Some(v.clone()),
            None => None,
        };
        out.push(DataEdit { target, action: text_or(&items[i].action, "set"), value });
        i += 1;
    }
    Ok(out)
}

// ───────────────────────── shell execution ─────────────────────────

/// Which manifests and build wrappers a project directory holds.
#[derive(Debug, Clone, Copy)]
pub struct ProjectFiles {
    pub cargo_toml: bool,
    pub package_json: bool,
    pub go_mod: bool,
    pub pom_xml: bool,
    pub mvnw: bool,
    pub build_gradle: bool,
    pub build_gradle_kts: bool,
    pub gradlew: bool,
}

/// The diagnostics command for a project, by its first manifest in the
/// order Cargo, npm, Go, Maven, Gradle (a project wrapper preferred); the
/// refusal naming `root` when there is none.
pub open spec fn diagnostics_command_s(root: Seq<char>, p: ProjectFiles) -> Result<Seq<char>, Seq<char>> {
    if p.cargo_toml {
        Ok("cargo check 2>&1"@)
    } else if p.package_json {
        Ok("npx tsc --noEmit 2>&1"@)
    } else if p.go_mod {
        Ok("go build ./... 2>&1"@)
    } else if p.pom_xml {
        Ok(if p.mvnw { "./mvnw compile -q 2>&1"@ } else { "mvn compile -q 2>&1"@ })
    } else if p.build_gradle || p.build_gradle_kts {
        Ok(if p.gradlew { "./gradlew assemble -q 2>&1"@ } else { "gradle assemble -q 2>&1"@ })
    } else {
        Err(
            "No supported manifest found in '"@ + root
                + "'. run_diagnostics supports: Cargo.toml, package.json, go.mod, pom.xml, build.gradle."@,
        )
    }
}

/// The diagnostics command for the project at `root`.
pub fn diagnostics_command(root: &str, p: ProjectFiles) -> (r: Result<String, String>)
    ensures
        crate::text::res_view(r) == diagnostics_command_s(root@, p),
{
    if p.cargo_toml {
        Ok(String::from_str("cargo check 2>&1"))
    } else if p.package_json {
        Ok(String::from_str("npx tsc --noEmit 2>&1"))
    } else if p.go_mod {
        Ok(String::from_str("go build ./... 2>&1"))
    } else if p.pom_xml {
        Ok(if p.mvnw { String::from_str("./mvnw compile -q 2>&1") } else { String::from_str("mvn compile -q 2>&1") })
    } else if p.build_gradle || p.build_gradle_kts {
        Ok(if p.gradlew { String::from_str("./gradlew assemble -q 2>&1") } else { String::from_str("gradle assemble -q 2>&1") })
    } else {
        let mut m = String::from_str("No supported manifest found in '");
        push_str(&mut m, root);
        push_str(
            &mut m,
            "'. run_diagnostics supports: Cargo.toml, package.json, go.mod, pom.xml, build.gradle.",
        );
        Err(m)
    }
}

/// The timeout of a shell execution: as asked, else 60 seconds for
/// diagnostics and 30 for a command.
pub fn shell_timeout(run_diagnostics: bool, timeout_secs: Option<u64>) -> (r: u64)
    ensures
        r == match timeout_secs {
            Some(t) => t,
            None => if run_diagnostics { 60u64 } else { 30u64 },
        },
{
    match timeout_secs {
        Some(t) => t,
        None => if run_diagnostics { 60 } else { 30 },
    }
}

} // verus!
