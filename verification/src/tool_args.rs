//! The argument checks of the symbol analyzer tool: which request a call
//! makes, with its defaults, or which answer tells the caller what is
//! missing; and how a failure of the analysis is reported.
use vstd::prelude::*;
use crate::text::{opt_view, strings_view, opt_strings};
use crate::server::{string_list_arg, string_list_s};
use crate::package_json::{strings_in, strings_of};
use crate::json::{
    member_bool, member_bool_s, member_str, member_str_s, member_strs, member_strs_s, member_u64,
    member_u64_s,
};
use crate::text::{chars_of, contains_s, push_str, trim_s};

verus! {

/// The arguments of a symbol analyzer call, as the request gave them (a
/// field that is missing or of another type is `None`; an array item that
/// is not a string is `None`).
pub struct AnalyzerArgs {
    pub action: Option<String>,
    pub path: Option<String>,
    pub symbol_name: Option<String>,
    pub symbol_names: Option<Vec<Option<String>>>,
    pub target_dir: Option<String>,
    pub changed_path: Option<String>,
    pub only_dir: Option<String>,
    pub aliases: Option<Vec<Option<String>>>,
    pub instance_index: Option<u64>,
    pub max_symbols: Option<u64>,
    pub skeleton_only: Option<bool>,
    pub ignore_gitignore: Option<bool>,
}

/// What a symbol analyzer call asks for.
pub enum AnalyzerRequest {
    /// Several symbols of one file.
    ReadMany { path: String, names: Vec<String>, skeleton_only: bool },
    /// One symbol of one file.
    ReadOne { path: String, symbol: String, skeleton_only: bool, instance_index: Option<u64> },
    FindUsages { target_dir: String, symbol: String },
    FindImplementations { target_dir: String, symbol: String },
    BlastRadius { target_dir: String, symbol: String },
    /// The checklist of a changed contract file.
    ChangedFile { changed_path: String, max_symbols: u64 },
    /// The checklist of a shared symbol.
    Checklist { symbol: String, scan_dir: String, aliases: Vec<String>, ignore_gitignore: bool },
}

/// The plain values of a request.
pub enum AnalyzerRequestV {
    ReadMany { path: Seq<char>, names: Seq<Seq<char>>, skeleton_only: bool },
    ReadOne { path: Seq<char>, symbol: Seq<char>, skeleton_only: bool, instance_index: Option<u64> },
    FindUsages { target_dir: Seq<char>, symbol: Seq<char> },
    FindImplementations { target_dir: Seq<char>, symbol: Seq<char> },
    BlastRadius { target_dir: Seq<char>, symbol: Seq<char> },
    ChangedFile { changed_path: Seq<char>, max_symbols: u64 },
    Checklist { symbol: Seq<char>, scan_dir: Seq<char>, aliases: Seq<Seq<char>>, ignore_gitignore: bool },
}

/// The plain values of a request.
pub open spec fn request_v(r: AnalyzerRequest) -> AnalyzerRequestV {
    match r {
        AnalyzerRequest::ReadMany { path, names, skeleton_only } => AnalyzerRequestV::ReadMany {
            path: path@,
            names: strings_view(names@),
            skeleton_only,
        },
        AnalyzerRequest::ReadOne { path, symbol, skeleton_only, instance_index } =>
            AnalyzerRequestV::ReadOne { path: path@, symbol: symbol@, skeleton_only, instance_index },
        AnalyzerRequest::FindUsages { target_dir, symbol } => AnalyzerRequestV::FindUsages {
            target_dir: target_dir@,
            symbol: symbol@,
        },
        AnalyzerRequest::FindImplementations { target_dir, symbol } =>
            AnalyzerRequestV::FindImplementations { target_dir: target_dir@, symbol: symbol@ },
        AnalyzerRequest::BlastRadius { target_dir, symbol } => AnalyzerRequestV::BlastRadius {
            target_dir: target_dir@,
            symbol: symbol@,
        },
        AnalyzerRequest::ChangedFile { changed_path, max_symbols } => AnalyzerRequestV::ChangedFile {
            changed_path: changed_path@,
            max_symbols,
        },
        AnalyzerRequest::Checklist { symbol, scan_dir, aliases, ignore_gitignore } =>
            AnalyzerRequestV::Checklist {
            symbol: symbol@,
            scan_dir: scan_dir@,
            aliases: strings_view(aliases@),
            ignore_gitignore,
        },
    }
}

// ───────────────────────── the answers ─────────────────────────

pub open spec fn read_missing_path_msg() -> Seq<char> {
    "Error: action 'read_source' requires both 'path' (source file containing the symbol) and 'symbol_name'. You omitted 'path'. Please call cortex_symbol_analyzer again with action='read_source', path='<file>', and symbol_name='<name>'. Tip: use cortex_code_explorer(action=map_overview) first if you are unsure of the file path."@
}

pub open spec fn read_empty_names_msg() -> Seq<char> {
    "Error: action 'read_source' with 'symbol_names' requires a non-empty array of symbol name strings. You provided an empty array or all entries were blank. Example: symbol_names=['process_request', 'handle_error']"@
}

pub open spec fn read_missing_symbol_msg() -> Seq<char> {
    "Error: action 'read_source' requires both 'path' and 'symbol_name'. You omitted 'symbol_name'. Please call cortex_symbol_analyzer again with action='read_source', path='<file>', and symbol_name='<name>'. For batch extraction of multiple symbols from the same file, use symbol_names=['A','B'] instead."@
}

/// The answer when a search action lacks its target directory.
pub open spec fn missing_target_dir_msg(action: Seq<char>) -> Seq<char> {
    "Error: action '"@ + action + "' requires both 'symbol_name' and 'target_dir'. You omitted 'target_dir'. Use '.' to search the entire repo. Please call cortex_symbol_analyzer again with action='"@
        + action + "', symbol_name='<name>', and target_dir='.'."@
}

/// The answer when a search action lacks its symbol.
pub open spec fn missing_symbol_msg(action: Seq<char>) -> Seq<char> {
    "Error: action '"@ + action + "' requires both 'symbol_name' and 'target_dir'. You omitted 'symbol_name'. Please call cortex_symbol_analyzer again with action='"@
        + action + "', symbol_name='<name>', and target_dir='.'."@
}

pub open spec fn checklist_missing_symbol_msg() -> Seq<char> {
    "Error: action 'propagation_checklist' requires 'symbol_name' (the shared type/struct/interface to trace). You omitted 'symbol_name'. Please call cortex_symbol_analyzer again with action='propagation_checklist' and symbol_name='<name>'. Alternatively, pass 'changed_path' (path to a .proto or contract file) for legacy file-based mode."@
}

/// The answer to an action the analyzer does not know.
pub open spec fn invalid_action_msg(action: Seq<char>) -> Seq<char> {
    "Error: Invalid or missing 'action' for cortex_symbol_analyzer: received '"@ + action
        + "'. Choose one of: 'read_source' (extract symbol AST), 'find_usages' (trace all call sites), 'find_implementations' (find implementors of a trait/interface), 'blast_radius' (call hierarchy before rename/delete), or 'propagation_checklist' (cross-module update checklist). Example: cortex_symbol_analyzer with action='find_usages', symbol_name='my_fn', and target_dir='.'"@
}

// ───────────────────────── the decision ─────────────────────────

/// The items that are strings with something besides blanks, as given.
pub open spec fn nonblank(items: Seq<Option<Seq<char>>>) -> Seq<Seq<char>>
    decreases items.len(),
{
    if items.len() == 0 {
        seq![]
    } else {
        let r = nonblank(items.drop_last());
        match items.last() {
            Some(s) => if trim_s(s).len() > 0 { r.push(s) } else { r },
            None => r,
        }
    }
}

/// The items that are strings with something besides blanks, trimmed.
pub open spec fn nonblank_trimmed(items: Seq<Option<Seq<char>>>) -> Seq<Seq<char>>
    decreases items.len(),
{
    if items.len() == 0 {
        seq![]
    } else {
        let r = nonblank_trimmed(items.drop_last());
        match items.last() {
            Some(s) => if trim_s(s).len() > 0 { r.push(trim_s(s)) } else { r },
            None => r,
        }
    }
}

/// The trimmed text of an optional argument, when it is not blank.
pub open spec fn filled(o: Option<String>) -> Option<Seq<char>> {
    match o {
        Some(s) => if trim_s(s@).len() > 0 { Some(trim_s(s@)) } else { None },
        None => None,
    }
}

/// A search action (find usages, implementations, blast radius): its target
/// directory, then its symbol, are required.
pub open spec fn search_plan(a: AnalyzerArgs, action: Seq<char>) -> Result<(Seq<char>, Seq<char>), Seq<char>> {
    match a.target_dir {
        None => Err(missing_target_dir_msg(action)),
        Some(t) => match a.symbol_name {
            None => Err(missing_symbol_msg(action)),
            Some(s) => Ok((t@, s@)),
        },
    }
}

/// What a symbol analyzer call asks for, or the answer to it.
pub open spec fn analyzer_plan_s(a: AnalyzerArgs) -> Result<AnalyzerRequestV, Seq<char>> {
    let action = match a.action {
        Some(x) => trim_s(x@),
        None => seq![],
    };
    let skel = match a.skeleton_only { Some(b) => b, None => false };
    if action == "read_source"@ {
        match a.path {
            None => Err(read_missing_path_msg()),
            Some(p) => match a.symbol_names {
                Some(items) => {
                    let names = nonblank(opt_strings(items@));
                    if names.len() == 0 {
                        Err(read_empty_names_msg())
                    } else {
                        Ok(AnalyzerRequestV::ReadMany { path: p@, names, skeleton_only: skel })
                    }
                },
                None => match a.symbol_name {
                    None => Err(read_missing_symbol_msg()),
                    Some(s) => Ok(AnalyzerRequestV::ReadOne {
                        path: p@,
                        symbol: s@,
                        skeleton_only: skel,
                        instance_index: a.instance_index,
                    }),
                },
            },
        }
    } else if action == "find_usages"@ {
        match search_plan(a, action) {
            Ok((t, s)) => Ok(AnalyzerRequestV::FindUsages { target_dir: t, symbol: s }),
            Err(e) => Err(e),
        }
    } else if action == "find_implementations"@ {
        match search_plan(a, action) {
            Ok((t, s)) => Ok(AnalyzerRequestV::FindImplementations { target_dir: t, symbol: s }),
            Err(e) => Err(e),
        }
    } else if action == "blast_radius"@ {
        match search_plan(a, action) {
            Ok((t, s)) => Ok(AnalyzerRequestV::BlastRadius { target_dir: t, symbol: s }),
            Err(e) => Err(e),
        }
    } else if action == "propagation_checklist"@ {
        match filled(a.changed_path) {
            Some(c) => Ok(AnalyzerRequestV::ChangedFile {
                changed_path: c,
                max_symbols: match a.max_symbols { Some(m) => m, None => 20 },
            }),
            None => match filled(a.symbol_name) {
                None => Err(checklist_missing_symbol_msg()),
                Some(s) => Ok(AnalyzerRequestV::Checklist {
                    symbol: s,
                    scan_dir: match a.only_dir {
                        Some(o) => if o@.len() > 0 {
                            o@
                        } else {
                            match a.target_dir { Some(t) => t@, None => "."@ }
                        },
                        None => match a.target_dir { Some(t) => t@, None => "."@ },
                    },
                    aliases: match a.aliases {
                        Some(items) => nonblank_trimmed(opt_strings(items@)),
                        None => seq![],
                    },
                    ignore_gitignore: match a.ignore_gitignore { Some(b) => b, None => false },
                }),
            },
        }
    } else {
        Err(invalid_action_msg(action))
    }
}

fn is(s: &str, lit: &str) -> (r: bool)
    ensures
        r == (s@ == lit@),
{
    crate::text::chars_eq(&chars_of(s), &chars_of(lit))
}

fn filled_exec(o: &Option<String>) -> (r: Option<String>)
    ensures
        match filled(*o) {
            Some(t) => r matches Some(x) && x@ == t,
            None => r is None,
        },
{
    match o {
        Some(s) => {
            let t = crate::text::trim_string(s.as_str());
            if chars_of(t.as_str()).len() > 0 { Some(t) } else { None }
        },
        None => None,
    }
}

fn nonblank_exec(items: &Vec<Option<String>>, trimmed: bool) -> (r: Vec<String>)
    ensures
        strings_view(r@) == if trimmed { nonblank_trimmed(opt_strings(items@)) } else { nonblank(opt_strings(items@)) },
{
    let ghost iv = opt_strings(items@);
    let mut out: Vec<String> = Vec::new();
    let mut i: usize = 0;
    while i < items.len()
        invariant
            i <= items.len(),
            iv == opt_strings(items@),
            strings_view(out@) == if trimmed { nonblank_trimmed(iv.take(i as int)) } else { nonblank(iv.take(i as int)) },
        decreases items.len() - i,
    {
        assert(iv.take(i + 1).drop_last() == iv.take(i as int));
        assert(iv.take(i + 1).last() == iv[i as int]);
        if let Some(s) = &items[i] {
            let t = crate::text::trim_string(s.as_str());
            if chars_of(t.as_str()).len() > 0 {
                let ghost before = strings_view(out@);
                if trimmed {
                    out.push(t);
                } else {
                    out.push(s.clone());
                }
                assert(strings_view(out@) == before.push(if trimmed { trim_s(s@) } else { s@ }));
            }
        }
        i += 1;
    }
    assert(iv.take(items.len() as int) == iv);
    out
}

fn search_exec(a: &AnalyzerArgs, action: &str) -> (r: Result<(String, String), String>)
    ensures
        match search_plan(*a, action@) {
            Ok((t, s)) => r matches Ok(x) && x.0@ == t && x.1@ == s,
            Err(e) => r matches Err(m) && m@ == e,
        },
{
    match &a.target_dir {
        None => {
            let mut m = String::from_str("Error: action '");
            push_str(&mut m, action);
            push_str(&mut m, "' requires both 'symbol_name' and 'target_dir'. You omitted 'target_dir'. Use '.' to search the entire repo. Please call cortex_symbol_analyzer again with action='");
            push_str(&mut m, action);
            push_str(&mut m, "', symbol_name='<name>', and target_dir='.'.");
            Err(m)
        },
        Some(t) => match &a.symbol_name {
            None => {
                let mut m = String::from_str("Error: action '");
                push_str(&mut m, action);
                push_str(&mut m, "' requires both 'symbol_name' and 'target_dir'. You omitted 'symbol_name'. Please call cortex_symbol_analyzer again with action='");
                push_str(&mut m, action);
                push_str(&mut m, "', symbol_name='<name>', and target_dir='.'.");
                Err(m)
            },
            Some(s) => Ok((t.clone(), s.clone())),
        },
    }
}

/// What a symbol analyzer call asks for: the request with its defaults, or
/// the answer naming what is missing or wrong.
pub fn plan_analyzer_call(a: &AnalyzerArgs) -> (r: Result<AnalyzerRequest, String>)
    ensures
        match analyzer_plan_s(*a) {
            Ok(q) => r matches Ok(x) && request_v(x) == q,
            Err(e) => r matches Err(m) && m@ == e,
        },
{
    let action = match &a.action {
        Some(x) => crate::text::trim_string(x.as_str()),
        None => String::new(),
    };
    let skel = match a.skeleton_only { Some(b) => b, None => false };
    let act = action.as_str();
    if is(act, "read_source") {
        match &a.path {
            None => Err(String::from_str("Error: action 'read_source' requires both 'path' (source file containing the symbol) and 'symbol_name'. You omitted 'path'. Please call cortex_symbol_analyzer again with action='read_source', path='<file>', and symbol_name='<name>'. Tip: use cortex_code_explorer(action=map_overview) first if you are unsure of the file path.")),
            Some(p) => match &a.symbol_names {
                Some(items) => {
                    let names = nonblank_exec(items, false);
                    if names.len() == 0 {
                        Err(String::from_str("Error: action 'read_source' with 'symbol_names' requires a non-empty array of symbol name strings. You provided an empty array or all entries were blank. Example: symbol_names=['process_request', 'handle_error']"))
                    } else {
                        Ok(AnalyzerRequest::ReadMany { path: p.clone(), names, skeleton_only: skel })
                    }
                },
                None => match &a.symbol_name {
                    None => Err(String::from_str("Error: action 'read_source' requires both 'path' and 'symbol_name'. You omitted 'symbol_name'. Please call cortex_symbol_analyzer again with action='read_source', path='<file>', and symbol_name='<name>'. For batch extraction of multiple symbols from the same file, use symbol_names=['A','B'] instead.")),
                    Some(s) => Ok(AnalyzerRequest::ReadOne {
                        path: p.clone(),
                        symbol: s.clone(),
                        skeleton_only: skel,
                        instance_index: a.instance_index,
                    }),
                },
            },
        }
    } else if is(act, "find_usages") {
        match search_exec(a, act) {
            Ok((t, s)) => Ok(AnalyzerRequest::FindUsages { target_dir: t, symbol: s }),
            Err(e) => Err(e),
        }
    } else if is(act, "find_implementations") {
        match search_exec(a, act) {
            Ok((t, s)) => Ok(AnalyzerRequest::FindImplementations { target_dir: t, symbol: s }),
            Err(e) => Err(e),
        }
    } else if is(act, "blast_radius") {
        match search_exec(a, act) {
            Ok((t, s)) => Ok(AnalyzerRequest::BlastRadius { target_dir: t, symbol: s }),
            Err(e) => Err(e),
        }
    } else if is(act, "propagation_checklist") {
        match filled_exec(&a.changed_path) {
            Some(c) => Ok(AnalyzerRequest::ChangedFile {
                changed_path: c,
                max_symbols: match a.max_symbols { Some(m) => m, None => 20 },
            }),
            None => match filled_exec(&a.symbol_name) {
                None => Err(String::from_str("Error: action 'propagation_checklist' requires 'symbol_name' (the shared type/struct/interface to trace). You omitted 'symbol_name'. Please call cortex_symbol_analyzer again with action='propagation_checklist' and symbol_name='<name>'. Alternatively, pass 'changed_path' (path to a .proto or contract file) for legacy file-based mode.")),
                Some(s) => {
                    let target = match &a.target_dir {
                        Some(t) => t.clone(),
                        None => String::from_str("."),
                    };
                    let scan_dir = match &a.only_dir {
                        Some(o) => if chars_of(o.as_str()).len() > 0 { o.clone() } else { target },
                        None => target,
                    };
                    let aliases = match &a.aliases {
                        Some(items) => nonblank_exec(items, true),
                        None => {
                            let v: Vec<String> = Vec::new();
                            assert(strings_view(v@) =~= Seq::<Seq<char>>::empty());
                            v
                        },
                    };
                    Ok(AnalyzerRequest::Checklist {
                        symbol: s,
                        scan_dir,
                        aliases,
                        ignore_gitignore: match a.ignore_gitignore { Some(b) => b, None => false },
                    })
                },
            },
        }
    } else {
        let mut m = String::from_str("Error: Invalid or missing 'action' for cortex_symbol_analyzer: received '");
        push_str(&mut m, act);
        push_str(&mut m, "'. Choose one of: 'read_source' (extract symbol AST), 'find_usages' (trace all call sites), 'find_implementations' (find implementors of a trait/interface), 'blast_radius' (call hierarchy before rename/delete), or 'propagation_checklist' (cross-module update checklist). Example: cortex_symbol_analyzer with action='find_usages', symbol_name='my_fn', and target_dir='.'");
        Err(m)
    }
}

/// How a failed analysis is reported: the analysis's name, then the error.
pub open spec fn analyzer_failure_s(req: AnalyzerRequestV, e: Seq<char>) -> Seq<char> {
    match req {
        AnalyzerRequestV::ReadMany { .. } => "read_symbol failed: "@ + e,
        AnalyzerRequestV::ReadOne { .. } => "read_symbol failed: "@ + e,
        AnalyzerRequestV::FindUsages { .. } => "find_usages failed: "@ + e,
        AnalyzerRequestV::FindImplementations { .. } => "find_implementations failed: "@ + e,
        AnalyzerRequestV::BlastRadius { .. } => "call_hierarchy failed: "@ + e,
        AnalyzerRequestV::ChangedFile { .. } => "propagation_checklist failed: "@ + e,
        AnalyzerRequestV::Checklist { .. } => "propagation_checklist failed: "@ + e,
    }
}

/// The answer to a request whose analysis failed with `e`.
pub fn analyzer_failure(req: &AnalyzerRequest, e: &str) -> (r: String)
    ensures
        r@ == analyzer_failure_s(request_v(*req), e@),
{
    let mut m = match req {
        AnalyzerRequest::ReadMany { .. } => String::from_str("read_symbol failed: "),
        AnalyzerRequest::ReadOne { .. } => String::from_str("read_symbol failed: "),
        AnalyzerRequest::FindUsages { .. } => String::from_str("find_usages failed: "),
        AnalyzerRequest::FindImplementations { .. } => String::from_str("find_implementations failed: "),
        AnalyzerRequest::BlastRadius { .. } => String::from_str("call_hierarchy failed: "),
        AnalyzerRequest::ChangedFile { .. } => String::from_str("propagation_checklist failed: "),
        AnalyzerRequest::Checklist { .. } => String::from_str("propagation_checklist failed: "),
    };
    push_str(&mut m, e);
    m
}

// ───────────────────────── reading the arguments ─────────────────────────

/// Whether `a` holds what the JSON arguments `args` give.
pub open spec fn analyzer_args_of_s(a: AnalyzerArgs, args: Seq<char>) -> bool {
    &&& opt_view(a.action) == member_str_s(args, "action"@)
    &&& opt_view(a.path) == member_str_s(args, "path"@)
    &&& opt_view(a.symbol_name) == member_str_s(args, "symbol_name"@)
    &&& opt_view(a.target_dir) == member_str_s(args, "target_dir"@)
    &&& opt_view(a.changed_path) == member_str_s(args, "changed_path"@)
    &&& opt_view(a.only_dir) == member_str_s(args, "only_dir"@)
    &&& match member_strs_s(args, "symbol_names"@) {
        Some(t) => a.symbol_names matches Some(v) && opt_strings(v@) == t,
        None => a.symbol_names is None,
    }
    &&& match member_strs_s(args, "aliases"@) {
        Some(t) => a.aliases matches Some(v) && opt_strings(v@) == t,
        None => a.aliases is None,
    }
    &&& a.instance_index == member_u64_s(args, "instance_index"@)
    &&& a.max_symbols == member_u64_s(args, "max_symbols"@)
    &&& a.skeleton_only == member_bool_s(args, "skeleton_only"@)
    &&& a.ignore_gitignore == member_bool_s(args, "ignore_gitignore"@)
}

/// The arguments of a symbol analyzer call, read from its JSON arguments.
pub fn analyzer_args(args: &str) -> (r: AnalyzerArgs)
    ensures
        analyzer_args_of_s(r, args@),
{
    AnalyzerArgs {
        action: member_str(args, "action"),
        path: member_str(args, "path"),
        symbol_name: member_str(args, "symbol_name"),
        symbol_names: member_strs(args, "symbol_names"),
        target_dir: member_str(args, "target_dir"),
        changed_path: member_str(args, "changed_path"),
        only_dir: member_str(args, "only_dir"),
        aliases: member_strs(args, "aliases"),
        instance_index: member_u64(args, "instance_index"),
        max_symbols: member_u64(args, "max_symbols"),
        skeleton_only: member_bool(args, "skeleton_only"),
        ignore_gitignore: member_bool(args, "ignore_gitignore"),
    }
}

// ───────────────────────── checkpoints ─────────────────────────

/// What a checkpoint tool call asks for.
pub enum ChronosRequest {
    /// Snapshot a symbol of a file under a tag.
    Save { path: String, symbol: String, tag: String, namespace: Option<String> },
    /// List the snapshots.
    List { namespace: Option<String> },
    /// Compare a symbol between two tags (`__live__` is the file as it is now).
    Compare { symbol: String, tag_a: String, tag_b: String, path: Option<String>, namespace: Option<String> },
    /// Delete the snapshots the filters select.
    Delete { symbol: Option<String>, tag: Option<String>, path: Option<String>, namespace: Option<String> },
}

/// The plain values of a checkpoint request.
pub enum ChronosRequestV {
    Save { path: Seq<char>, symbol: Seq<char>, tag: Seq<char>, namespace: Option<Seq<char>> },
    List { namespace: Option<Seq<char>> },
    Compare {
        symbol: Seq<char>,
        tag_a: Seq<char>,
        tag_b: Seq<char>,
        path: Option<Seq<char>>,
        namespace: Option<Seq<char>>,
    },
    Delete {
        symbol: Option<Seq<char>>,
        tag: Option<Seq<char>>,
        path: Option<Seq<char>>,
        namespace: Option<Seq<char>>,
    },
}

/// The plain values of a checkpoint request.
pub open spec fn chronos_request_v(r: ChronosRequest) -> ChronosRequestV {
    match r {
        ChronosRequest::Save { path, symbol, tag, namespace } => ChronosRequestV::Save {
            path: path@,
            symbol: symbol@,
            tag: tag@,
            namespace: opt_view(namespace),
        },
        ChronosRequest::List { namespace } => ChronosRequestV::List { namespace: opt_view(namespace) },
        ChronosRequest::Compare { symbol, tag_a, tag_b, path, namespace } => ChronosRequestV::Compare {
            symbol: symbol@,
            tag_a: tag_a@,
            tag_b: tag_b@,
            path: opt_view(path),
            namespace: opt_view(namespace),
        },
        ChronosRequest::Delete { symbol, tag, path, namespace } => ChronosRequestV::Delete {
            symbol: opt_view(symbol),
            tag: opt_view(tag),
            path: opt_view(path),
            namespace: opt_view(namespace),
        },
    }
}

pub open spec fn save_missing_path_msg() -> Seq<char> {
    "Error: action 'save_checkpoint' requires 'path' (source file), 'symbol_name', and 'semantic_tag'. You omitted 'path'. Please call cortex_chronos again with action='save_checkpoint', path='<file>', symbol_name='<name>', and semantic_tag='pre-refactor' (or any descriptive tag)."@
}

pub open spec fn save_missing_symbol_msg() -> Seq<char> {
    "Error: action 'save_checkpoint' requires 'path', 'symbol_name', and 'semantic_tag'. You omitted 'symbol_name'. Please call cortex_chronos again with action='save_checkpoint', path='<file>', symbol_name='<name>', and semantic_tag='pre-refactor'."@
}

pub open spec fn compare_missing_symbol_msg() -> Seq<char> {
    "Error: action 'compare_checkpoint' requires 'symbol_name', 'tag_a', and 'tag_b'. You omitted 'symbol_name'. Please call cortex_chronos again with action='compare_checkpoint', symbol_name='<name>', tag_a='<before-tag>', and tag_b='<after-tag>'. Tip: call cortex_chronos(action=list_checkpoints) first to see all available tags."@
}

pub open spec fn compare_missing_tag_a_msg() -> Seq<char> {
    "Error: action 'compare_checkpoint' requires 'symbol_name', 'tag_a', and 'tag_b'. You omitted 'tag_a' (the 'before' snapshot tag). Please call cortex_chronos again with action='compare_checkpoint', symbol_name='<name>', tag_a='<before-tag>', and tag_b='<after-tag>'. Tip: call cortex_chronos(action=list_checkpoints) to see all available tags."@
}

pub open spec fn compare_missing_tag_b_msg() -> Seq<char> {
    "Error: action 'compare_checkpoint' requires 'symbol_name', 'tag_a', and 'tag_b'. You omitted 'tag_b' (the 'after' snapshot tag). Please call cortex_chronos again with action='compare_checkpoint', symbol_name='<name>', tag_a='<before-tag>', and tag_b='<after-tag>'."@
}

pub open spec fn live_without_path_msg() -> Seq<char> {
    "Error: tag_b='__live__' requires 'path' (the source file containing the symbol). Please call cortex_chronos again with action='compare_checkpoint', symbol_name='<name>', tag_a='<snapshot-tag>', tag_b='__live__', and path='<file>'."@
}

pub open spec fn delete_without_filter_msg() -> Seq<char> {
    "Error: action 'delete_checkpoint' requires at least one filter: 'symbol_name', 'semantic_tag'/'tag', or 'namespace'. Provide 'namespace' alone to purge an entire namespace (e.g. namespace='qa-run-1'). Call cortex_chronos with action='list_checkpoints' first to see what exists."@
}

/// The answer to an action the checkpoint tool does not know.
pub open spec fn chronos_invalid_action_msg(action: Seq<char>) -> Seq<char> {
    "Error: Invalid or missing 'action' for cortex_chronos: received '"@ + action
        + "'. Choose one of: 'save_checkpoint' (snapshot before edit), 'list_checkpoints' (show all snapshots), 'compare_checkpoint' (AST diff after edit), or 'delete_checkpoint' (remove saved checkpoints). Example: cortex_chronos with action='save_checkpoint', path='src/main.rs', symbol_name='my_fn', and semantic_tag='pre-refactor'"@
}

/// The tag a call names: its `semantic_tag`, else its `tag`.
pub open spec fn tag_arg_s(args: Seq<char>) -> Option<Seq<char>> {
    match member_str_s(args, "semantic_tag"@) {
        Some(t) => Some(t),
        None => member_str_s(args, "tag"@),
    }
}

/// The trimmed text of an optional argument, when it is not blank.
pub open spec fn filled_s(o: Option<Seq<char>>) -> Option<Seq<char>> {
    match o {
        Some(s) => if trim_s(s).len() > 0 { Some(trim_s(s)) } else { None },
        None => None,
    }
}

/// What a checkpoint tool call with JSON arguments `args` asks for, or the
/// answer to it.
pub open spec fn chronos_plan_s(args: Seq<char>) -> Result<ChronosRequestV, Seq<char>> {
    let action = match member_str_s(args, "action"@) {
        Some(x) => trim_s(x),
        None => seq![],
    };
    let namespace = member_str_s(args, "namespace"@);
    let path = member_str_s(args, "path"@);
    if action == "save_checkpoint"@ {
        match path {
            None => Err(save_missing_path_msg()),
            Some(p) => match member_str_s(args, "symbol_name"@) {
                None => Err(save_missing_symbol_msg()),
                Some(s) => Ok(ChronosRequestV::Save {
                    path: p,
                    symbol: s,
                    tag: match tag_arg_s(args) {
                        Some(t) => t,
                        None => seq![],
                    },
                    namespace,
                }),
            },
        }
    } else if action == "list_checkpoints"@ {
        Ok(ChronosRequestV::List { namespace })
    } else if action == "compare_checkpoint"@ {
        match member_str_s(args, "symbol_name"@) {
            None => Err(compare_missing_symbol_msg()),
            Some(s) => match member_str_s(args, "tag_a"@) {
                None => Err(compare_missing_tag_a_msg()),
                Some(a) => match member_str_s(args, "tag_b"@) {
                    None => Err(compare_missing_tag_b_msg()),
                    Some(b) => if trim_s(b) == "__live__"@ && path is None {
                        Err(live_without_path_msg())
                    } else {
                        Ok(ChronosRequestV::Compare { symbol: s, tag_a: a, tag_b: b, path, namespace })
                    },
                },
            },
        }
    } else if action == "delete_checkpoint"@ {
        let symbol = filled_s(member_str_s(args, "symbol_name"@));
        let tag = filled_s(tag_arg_s(args));
        let has_namespace = match namespace {
            Some(n) => trim_s(n).len() > 0,
            None => false,
        };
        if symbol is None && tag is None && path is None && !has_namespace {
            Err(delete_without_filter_msg())
        } else {
            Ok(ChronosRequestV::Delete { symbol, tag, path, namespace })
        }
    } else {
        Err(chronos_invalid_action_msg(action))
    }
}

fn tag_arg(args: &str) -> (r: Option<String>)
    ensures
        opt_view(r) == tag_arg_s(args@),
{
    match member_str(args, "semantic_tag") {
        Some(t) => Some(t),
        None => member_str(args, "tag"),
    }
}

/// What a checkpoint tool call asks for, read from its JSON arguments, or
/// the answer that tells the caller which argument is missing.
pub fn plan_chronos_call(args: &str) -> (r: Result<ChronosRequest, String>)
    ensures
        match chronos_plan_s(args@) {
            Ok(q) => r matches Ok(x) && chronos_request_v(x) == q,
            Err(e) => r matches Err(m) && m@ == e,
        },
{
    let action = match member_str(args, "action") {
        Some(x) => crate::text::trim_string(x.as_str()),
        None => String::new(),
    };
    let act = action.as_str();
    let namespace = member_str(args, "namespace");
    let path = member_str(args, "path");
    if is(act, "save_checkpoint") {
        let p = match path {
            Some(p) => p,
            None => return Err(String::from_str("Error: action 'save_checkpoint' requires 'path' (source file), 'symbol_name', and 'semantic_tag'. You omitted 'path'. Please call cortex_chronos again with action='save_checkpoint', path='<file>', symbol_name='<name>', and semantic_tag='pre-refactor' (or any descriptive tag).")),
        };
        let s = match member_str(args, "symbol_name") {
            Some(s) => s,
            None => return Err(String::from_str("Error: action 'save_checkpoint' requires 'path', 'symbol_name', and 'semantic_tag'. You omitted 'symbol_name'. Please call cortex_chronos again with action='save_checkpoint', path='<file>', symbol_name='<name>', and semantic_tag='pre-refactor'.")),
        };
        let tag = match tag_arg(args) {
            Some(t) => t,
            None => String::new(),
        };
        Ok(ChronosRequest::Save { path: p, symbol: s, tag, namespace })
    } else if is(act, "list_checkpoints") {
        Ok(ChronosRequest::List { namespace })
    } else if is(act, "compare_checkpoint") {
        let s = match member_str(args, "symbol_name") {
            Some(s) => s,
            None => return Err(String::from_str("Error: action 'compare_checkpoint' requires 'symbol_name', 'tag_a', and 'tag_b'. You omitted 'symbol_name'. Please call cortex_chronos again with action='compare_checkpoint', symbol_name='<name>', tag_a='<before-tag>', and tag_b='<after-tag>'. Tip: call cortex_chronos(action=list_checkpoints) first to see all available tags.")),
        };
        let a = match member_str(args, "tag_a") {
            Some(a) => a,
            None => return Err(String::from_str("Error: action 'compare_checkpoint' requires 'symbol_name', 'tag_a', and 'tag_b'. You omitted 'tag_a' (the 'before' snapshot tag). Please call cortex_chronos again with action='compare_checkpoint', symbol_name='<name>', tag_a='<before-tag>', and tag_b='<after-tag>'. Tip: call cortex_chronos(action=list_checkpoints) to see all available tags.")),
        };
        let b = match member_str(args, "tag_b") {
            Some(b) => b,
            None => return Err(String::from_str("Error: action 'compare_checkpoint' requires 'symbol_name', 'tag_a', and 'tag_b'. You omitted 'tag_b' (the 'after' snapshot tag). Please call cortex_chronos again with action='compare_checkpoint', symbol_name='<name>', tag_a='<before-tag>', and tag_b='<after-tag>'.")),
        };
        let bt = crate::text::trim_string(b.as_str());
        if is(bt.as_str(), "__live__") && path.is_none() {
            return Err(String::from_str("Error: tag_b='__live__' requires 'path' (the source file containing the symbol). Please call cortex_chronos again with action='compare_checkpoint', symbol_name='<name>', tag_a='<snapshot-tag>', tag_b='__live__', and path='<file>'."));
        }
        Ok(ChronosRequest::Compare { symbol: s, tag_a: a, tag_b: b, path, namespace })
    } else if is(act, "delete_checkpoint") {
        let sym_arg = member_str(args, "symbol_name");
        let tag_given = tag_arg(args);
        let symbol = filled_exec(&sym_arg);
        let tag = filled_exec(&tag_given);
        assert(opt_view(symbol) == filled_s(opt_view(sym_arg)));
        assert(opt_view(tag) == filled_s(opt_view(tag_given)));
        let has_namespace = match &namespace {
            Some(n) => !crate::text::trim_string(n.as_str()).as_str().is_empty(),
            None => false,
        };
        if symbol.is_none() && tag.is_none() && path.is_none() && !has_namespace {
            return Err(String::from_str("Error: action 'delete_checkpoint' requires at least one filter: 'symbol_name', 'semantic_tag'/'tag', or 'namespace'. Provide 'namespace' alone to purge an entire namespace (e.g. namespace='qa-run-1'). Call cortex_chronos with action='list_checkpoints' first to see what exists."));
        }
        Ok(ChronosRequest::Delete { symbol, tag, path, namespace })
    } else {
        let mut m = String::from_str("Error: Invalid or missing 'action' for cortex_chronos: received '");
        push_str(&mut m, act);
        push_str(&mut m, "'. Choose one of: 'save_checkpoint' (snapshot before edit), 'list_checkpoints' (show all snapshots), 'compare_checkpoint' (AST diff after edit), or 'delete_checkpoint' (remove saved checkpoints). Example: cortex_chronos with action='save_checkpoint', path='src/main.rs', symbol_name='my_fn', and semantic_tag='pre-refactor'");
        Err(m)
    }
}

/// How a failed checkpoint action is reported: the action's name, then the
/// error; a failed comparison that found no checkpoint also gets a tip.
pub open spec fn chronos_failure_s(req: ChronosRequestV, e: Seq<char>) -> Seq<char> {
    match req {
        ChronosRequestV::Save { .. } => "checkpoint_symbol failed: "@ + e,
        ChronosRequestV::List { .. } => "list_checkpoints failed: "@ + e,
        ChronosRequestV::Compare { .. } => if contains_s(e, "No checkpoint found"@) || contains_s(
            e,
            "No checkpoints found"@,
        ) {
            "compare_symbol failed: "@ + e
                + "\n\nTip: run cortex_chronos(action=list_checkpoints) to see valid tag+symbol combinations, then retry.\nCommon cause: you saved a checkpoint for a different symbol or under a different tag."@
        } else {
            "compare_symbol failed: "@ + e
        },
        ChronosRequestV::Delete { .. } => "delete_checkpoints failed: "@ + e,
    }
}

/// The answer to a checkpoint request whose action failed with `e`.
pub fn chronos_failure(req: &ChronosRequest, e: &str) -> (r: String)
    ensures
        r@ == chronos_failure_s(chronos_request_v(*req), e@),
{
    match req {
        ChronosRequest::Save { .. } => {
            let mut m = String::from_str("checkpoint_symbol failed: ");
            push_str(&mut m, e);
            m
        },
        ChronosRequest::List { .. } => {
            let mut m = String::from_str("list_checkpoints failed: ");
            push_str(&mut m, e);
            m
        },
        ChronosRequest::Compare { .. } => {
            let mut m = String::from_str("compare_symbol failed: ");
            push_str(&mut m, e);
            let ev = chars_of(e);
            let a = chars_of("No checkpoint found");
            let b = chars_of("No checkpoints found");
            if crate::text::contains(&ev, &a) || crate::text::contains(&ev, &b) {
                push_str(&mut m, "\n\nTip: run cortex_chronos(action=list_checkpoints) to see valid tag+symbol combinations, then retry.\nCommon cause: you saved a checkpoint for a different symbol or under a different tag.");
            }
            m
        },
        ChronosRequest::Delete { .. } => {
            let mut m = String::from_str("delete_checkpoints failed: ");
            push_str(&mut m, e);
            m
        },
    }
}

// ───────────────────────── the code explorer ─────────────────────────

/// What a code explorer call asks for.
pub enum ExplorerRequest {
    /// The workspace topology.
    Topology,
    /// The map of the target directories.
    MapOverview { target_dirs: Vec<String>, search_filter: Option<String>, ignore_gitignore: bool, exclude: Vec<String> },
    /// The project skeleton of the target directories (the workspace roots when none).
    Skeleton { target_dirs: Vec<String> },
    /// A token-budgeted slice of a target.
    DeepSlice {
        target: String,
        budget_tokens: u64,
        skeleton_only: bool,
        exclude: Vec<String>,
        single_file: bool,
        only_dirs: Vec<String>,
        query: Option<String>,
        query_limit: Option<u64>,
    },
}

/// The plain values of a code explorer request.
pub enum ExplorerRequestV {
    Topology,
    MapOverview {
        target_dirs: Seq<Seq<char>>,
        search_filter: Option<Seq<char>>,
        ignore_gitignore: bool,
        exclude: Seq<Seq<char>>,
    },
    Skeleton { target_dirs: Seq<Seq<char>> },
    DeepSlice {
        target: Seq<char>,
        budget_tokens: u64,
        skeleton_only: bool,
        exclude: Seq<Seq<char>>,
        single_file: bool,
        only_dirs: Seq<Seq<char>>,
        query: Option<Seq<char>>,
        query_limit: Option<u64>,
    },
}

/// The plain values of a code explorer request.
pub open spec fn explorer_request_v(r: ExplorerRequest) -> ExplorerRequestV {
    match r {
        ExplorerRequest::Topology => ExplorerRequestV::Topology,
        ExplorerRequest::MapOverview { target_dirs, search_filter, ignore_gitignore, exclude } =>
            ExplorerRequestV::MapOverview {
            target_dirs: strings_view(target_dirs@),
            search_filter: opt_view(search_filter),
            ignore_gitignore,
            exclude: strings_view(exclude@),
        },
        ExplorerRequest::Skeleton { target_dirs } => ExplorerRequestV::Skeleton {
            target_dirs: strings_view(target_dirs@),
        },
        ExplorerRequest::DeepSlice {
            target,
            budget_tokens,
            skeleton_only,
            exclude,
            single_file,
            only_dirs,
            query,
            query_limit,
        } => ExplorerRequestV::DeepSlice {
            target: target@,
            budget_tokens,
            skeleton_only,
            exclude: strings_view(exclude@),
            single_file,
            only_dirs: strings_view(only_dirs@),
            query: opt_view(query),
            query_limit,
        },
    }
}

pub open spec fn map_missing_targets_msg() -> Seq<char> {
    "Error: action 'map_overview' requires 'target_dirs' (array of directories). In multi-root workspaces, prefer explicit prefixes such as target_dirs=['[Host]','[Daemon]'] instead of '.'. You can operate on multiple workspace roots simultaneously. Provide arrays of target directories to analyze cross-repo features."@
}

pub open spec fn slice_missing_target_msg() -> Seq<char> {
    "Error: action 'deep_slice' requires the 'target' parameter (relative path to a file or directory within the repo, e.g. 'src'). Please call cortex_code_explorer again with action='deep_slice' and target='<path>'."@
}

/// The answer to an action the code explorer does not know.
pub open spec fn explorer_invalid_action_msg(action: Seq<char>) -> Seq<char> {
    "Error: Invalid or missing 'action' for cortex_code_explorer: received '"@ + action
        + "'. Choose one of: 'workspace_topology' (project-only workspace summary), 'map_overview' (repo structure map), 'deep_slice' (token-budgeted content slice), or 'skeleton' (project-wide YAML signatures). You can operate on multiple workspace roots simultaneously. Provide arrays of target directories, e.g. target_dirs=['[ProjectA]','[ProjectB]']."@
}

/// A list argument of JSON arguments: the array at `plural`, else the
/// string at `singular`; trimmed, blanks dropped.
pub open spec fn list_arg_s(args: Seq<char>, plural: Seq<char>, singular: Seq<char>) -> Seq<Seq<char>> {
    string_list_s(member_strs_s(args, plural), member_str_s(args, singular))
}

/// The strings of the array at `key` of JSON arguments, as given.
pub open spec fn strings_arg_s(args: Seq<char>, key: Seq<char>) -> Seq<Seq<char>> {
    match member_strs_s(args, key) {
        Some(items) => strings_of(items),
        None => seq![],
    }
}

/// What a code explorer call with JSON arguments `args` asks for, or the
/// answer to it.
pub open spec fn explorer_plan_s(args: Seq<char>) -> Result<ExplorerRequestV, Seq<char>> {
    let action = match member_str_s(args, "action"@) {
        Some(x) => trim_s(x),
        None => seq![],
    };
    if action == "workspace_topology"@ {
        Ok(ExplorerRequestV::Topology)
    } else if action == "map_overview"@ {
        let targets = list_arg_s(args, "target_dirs"@, "target_dir"@);
        if targets.len() == 0 {
            Err(map_missing_targets_msg())
        } else {
            Ok(ExplorerRequestV::MapOverview {
                target_dirs: targets,
                search_filter: filled_s(member_str_s(args, "search_filter"@)),
                ignore_gitignore: member_bool_s(args, "ignore_gitignore"@) == Some(true),
                exclude: strings_arg_s(args, "exclude"@),
            })
        }
    } else if action == "skeleton"@ {
        Ok(ExplorerRequestV::Skeleton { target_dirs: list_arg_s(args, "target_dirs"@, "target_dir"@) })
    } else if action == "deep_slice"@ {
        match member_str_s(args, "target"@) {
            None => Err(slice_missing_target_msg()),
            Some(t) => {
                let single = member_bool_s(args, "single_file"@) == Some(true);
                Ok(ExplorerRequestV::DeepSlice {
                    target: t,
                    budget_tokens: match member_u64_s(args, "budget_tokens"@) {
                        Some(n) => n,
                        None => 32000,
                    },
                    skeleton_only: member_bool_s(args, "skeleton_only"@) == Some(true),
                    exclude: strings_arg_s(args, "exclude"@),
                    single_file: single,
                    only_dirs: list_arg_s(args, "only_dirs"@, "only_dir"@),
                    query: if single {
                        None
                    } else {
                        match member_str_s(args, "query"@) {
                            Some(q) => if q.len() > 0 { Some(q) } else { None },
                            None => None,
                        }
                    },
                    query_limit: member_u64_s(args, "query_limit"@),
                })
            },
        }
    } else {
        Err(explorer_invalid_action_msg(action))
    }
}

fn list_arg(args: &str, plural: &str, singular: &str) -> (r: Vec<String>)
    ensures
        strings_view(r@) == list_arg_s(args@, plural@, singular@),
{
    let p = member_strs(args, plural);
    let s = member_str(args, singular);
    let r = string_list_arg(&p, &s);
    assert(strings_view(r@) == r@.map_values(|x: String| x@));
    r
}

fn strings_arg(args: &str, key: &str) -> (r: Vec<String>)
    ensures
        strings_view(r@) == strings_arg_s(args@, key@),
{
    match member_strs(args, key) {
        Some(items) => strings_in(&items),
        None => Vec::new(),
    }
}

fn flag(args: &str, key: &str) -> (r: bool)
    ensures
        r == (member_bool_s(args@, key@) == Some(true)),
{
    match member_bool(args, key) {
        Some(b) => b,
        None => false,
    }
}

/// What a code explorer call asks for, read from its JSON arguments, or the
/// answer that tells the caller what is missing.
pub fn plan_explorer_call(args: &str) -> (r: Result<ExplorerRequest, String>)
    ensures
        match explorer_plan_s(args@) {
            Ok(q) => r matches Ok(x) && explorer_request_v(x) == q,
            Err(e) => r matches Err(m) && m@ == e,
        },
{
    let action = match member_str(args, "action") {
        Some(x) => crate::text::trim_string(x.as_str()),
        None => String::new(),
    };
    let act = action.as_str();
    if is(act, "workspace_topology") {
        Ok(ExplorerRequest::Topology)
    } else if is(act, "map_overview") {
        let targets = list_arg(args, "target_dirs", "target_dir");
        if targets.len() == 0 {
            return Err(String::from_str("Error: action 'map_overview' requires 'target_dirs' (array of directories). In multi-root workspaces, prefer explicit prefixes such as target_dirs=['[Host]','[Daemon]'] instead of '.'. You can operate on multiple workspace roots simultaneously. Provide arrays of target directories to analyze cross-repo features."));
        }
        let sf = member_str(args, "search_filter");
        let search_filter = filled_exec(&sf);
        assert(opt_view(search_filter) == filled_s(opt_view(sf)));
        Ok(ExplorerRequest::MapOverview {
            target_dirs: targets,
            search_filter,
            ignore_gitignore: flag(args, "ignore_gitignore"),
            exclude: strings_arg(args, "exclude"),
        })
    } else if is(act, "skeleton") {
        Ok(ExplorerRequest::Skeleton { target_dirs: list_arg(args, "target_dirs", "target_dir") })
    } else if is(act, "deep_slice") {
        let target = match member_str(args, "target") {
            Some(t) => t,
            None => return Err(String::from_str("Error: action 'deep_slice' requires the 'target' parameter (relative path to a file or directory within the repo, e.g. 'src'). Please call cortex_code_explorer again with action='deep_slice' and target='<path>'.")),
        };
        let single = flag(args, "single_file");
        let query = if single {
            None
        } else {
            match member_str(args, "query") {
                Some(q) => if q.as_str().is_empty() { None } else { Some(q) },
                None => None,
            }
        };
        Ok(ExplorerRequest::DeepSlice {
            target,
            budget_tokens: match member_u64(args, "budget_tokens") {
                Some(n) => n,
                None => 32000,
            },
            skeleton_only: flag(args, "skeleton_only"),
            exclude: strings_arg(args, "exclude"),
            single_file: single,
            only_dirs: list_arg(args, "only_dirs", "only_dir"),
            query,
            query_limit: member_u64(args, "query_limit"),
        })
    } else {
        let mut m = String::from_str("Error: Invalid or missing 'action' for cortex_code_explorer: received '");
        push_str(&mut m, act);
        push_str(&mut m, "'. Choose one of: 'workspace_topology' (project-only workspace summary), 'map_overview' (repo structure map), 'deep_slice' (token-budgeted content slice), or 'skeleton' (project-wide YAML signatures). You can operate on multiple workspace roots simultaneously. Provide arrays of target directories, e.g. target_dirs=['[ProjectA]','[ProjectB]'].");
        Err(m)
    }
}

} // verus!
