//! The local stores (agent rules, memory history, checkpoints, the code
//! index) keep their rows in a columnar database. This module holds what the
//! library decides around each query: the filter predicates it sends, with
//! every value written as a quoted SQL literal, and the in-process steps on
//! the rows that come back (tag filtering, ordering, truncation, per-project
//! aggregation).
use vstd::prelude::*;
use crate::text::{strings_view, opt_view};
use crate::sort::{
    count_desc, is_perm, orders, sort_perm, sort_perm_counts_desc, sort_perm_desc, sorted_by, stable,
    stable_by, text_desc,
};
use crate::text::{chars_of, joined, push_char, push_str};

verus! {

broadcast use vstd::seq_lib::group_seq_properties;

// ───────────────────────── quoting ─────────────────────────

/// What one character of a value becomes inside a single-quoted literal.
pub open spec fn escaped_char(c: char) -> Seq<char> {
    if c == '\'' {
        seq!['\'', '\'']
    } else {
        seq![c]
    }
}

/// The body of a single-quoted SQL literal for `s`: every `'` doubled.
pub open spec fn sql_escape_s(s: Seq<char>) -> Seq<char>
    decreases s.len(),
{
    if s.len() == 0 {
        Seq::empty()
    } else {
        sql_escape_s(s.drop_last()) + escaped_char(s.last())
    }
}

/// `'<escaped s>'`.
pub open spec fn sql_literal_s(s: Seq<char>) -> Seq<char> {
    seq!['\''] + sql_escape_s(s) + seq!['\'']
}

/// Reads a literal's body from the front of `t` (the text just after its
/// opening quote): `''` stands for one `'`, a lone `'` closes it. Gives the
/// value read and what follows the closing quote; `None` when it never closes.
pub open spec fn read_literal_body(t: Seq<char>) -> Option<(Seq<char>, Seq<char>)>
    decreases t.len(),
{
    if t.len() == 0 {
        None
    } else if t[0] == '\'' {
        if t.len() >= 2 && t[1] == '\'' {
            match read_literal_body(t.subrange(2, t.len() as int)) {
                Some(r) => Some((seq!['\''] + r.0, r.1)),
                None => None,
            }
        } else {
            Some((Seq::<char>::empty(), t.drop_first()))
        }
    } else {
        match read_literal_body(t.drop_first()) {
            Some(r) => Some((seq![t[0]] + r.0, r.1)),
            None => None,
        }
    }
}

proof fn lemma_escape_concat(a: Seq<char>, b: Seq<char>)
    ensures
        sql_escape_s(a + b) == sql_escape_s(a) + sql_escape_s(b),
    decreases b.len(),
{
    if b.len() == 0 {
        assert(a + b == a);
    } else {
        lemma_escape_concat(a, b.drop_last());
        assert((a + b).drop_last() == a + b.drop_last());
        assert((a + b).last() == b.last());
    }
}

/// A quoted value reads back whole: the text after the opening quote of
/// `sql_literal_s(s)` yields `s` again, and the literal closes exactly at its
/// own final quote, whatever `s` holds, so long as what follows the literal
/// does not itself begin with a quote.
pub proof fn law_quoted_value_reads_back(s: Seq<char>, tail: Seq<char>)
    requires
        tail.len() == 0 || tail[0] != '\'',
    ensures
        read_literal_body(sql_escape_s(s) + seq!['\''] + tail) == Some((s, tail)),
    decreases s.len(),
{
    let t = sql_escape_s(s) + seq!['\''] + tail;
    if s.len() == 0 {
        assert(t == seq!['\''] + tail);
        assert(t.drop_first() == tail);
    } else {
        let rest = s.drop_first();
        assert(s == seq![s[0]] + rest);
        lemma_escape_concat(seq![s[0]], rest);
        assert(sql_escape_s(seq![s[0]]) == escaped_char(s[0])) by {
            let one = seq![s[0]];
            assert(one.drop_last() == Seq::<char>::empty());
            assert(one.last() == s[0]);
            assert(sql_escape_s(one.drop_last()) == Seq::<char>::empty());
            assert(Seq::<char>::empty() + escaped_char(s[0]) == escaped_char(s[0]));
        }
        law_quoted_value_reads_back(rest, tail);
        let inner = sql_escape_s(rest) + seq!['\''] + tail;
        if s[0] == '\'' {
            assert(t == seq!['\'', '\''] + inner);
            assert(t.subrange(2, t.len() as int) == inner);
        } else {
            assert(t == seq![s[0]] + inner);
            assert(t.drop_first() == inner);
        }
    }
}

/// `s` with every `'` doubled.
pub fn sql_escape(s: &str) -> (r: String)
    ensures
        r@ == sql_escape_s(s@),
{
    let v = chars_of(s);
    let mut out = String::new();
    let mut i: usize = 0;
    while i < v.len()
        invariant
            i <= v.len(),
            out@ == sql_escape_s(v@.take(i as int)),
        decreases v.len() - i,
    {
        assert(v@.take(i + 1).drop_last() == v@.take(i as int));
        if v[i] == '\'' {
            push_char(&mut out, '\'');
            push_char(&mut out, '\'');
            assert(out@ == sql_escape_s(v@.take(i as int)) + seq!['\'', '\'']);
        } else {
            push_char(&mut out, v[i]);
        }
        i += 1;
    }
    assert(v@.take(v.len() as int) == v@);
    out
}

/// Appends `'<escaped value>'`.
fn push_literal(out: &mut String, value: &str)
    ensures
        final(out)@ == old(out)@ + sql_literal_s(value@),
{
    push_char(out, '\'');
    let e = sql_escape(value);
    push_str(out, e.as_str());
    push_char(out, '\'');
}

// ───────────────────────── predicates ─────────────────────────

/// `column = '<value>'`.
pub open spec fn eq_filter_s(column: Seq<char>, value: Seq<char>) -> Seq<char> {
    column + " = "@ + sql_literal_s(value)
}

/// The predicate that selects the rows whose `column` equals `value`.
pub fn eq_filter(column: &str, value: &str) -> (r: String)
    ensures
        r@ == eq_filter_s(column@, value@),
{
    let mut out = String::new();
    push_str(&mut out, column);
    push_str(&mut out, " = ");
    push_literal(&mut out, value);
    out
}

/// `scope IN ('<s1>', '<s2>', ...)`.
pub open spec fn scope_filter_s(scopes: Seq<Seq<char>>) -> Seq<char> {
    "scope IN ("@ + joined(scopes.map_values(|s: Seq<char>| sql_literal_s(s)), ", "@) + ")"@
}

/// The predicate for rules of any of `scopes`; `None` when there are no
/// scopes, which asks for every rule.
pub fn scope_filter(scopes: &Vec<String>) -> (r: Option<String>)
    ensures
        scopes.len() == 0 ==> r is None,
        scopes.len() > 0 ==> (r matches Some(f) && f@ == scope_filter_s(
            scopes@.map_values(|s: String| s@),
        )),
{
    if scopes.len() == 0 {
        return None;
    }
    let ghost sv = scopes@.map_values(|s: String| s@);
    let ghost lits = sv.map_values(|s: Seq<char>| sql_literal_s(s));
    let mut body = String::new();
    let mut i: usize = 0;
    while i < scopes.len()
        invariant
            0 < scopes.len(),
            i <= scopes.len(),
            sv == scopes@.map_values(|s: String| s@),
            lits == sv.map_values(|s: Seq<char>| sql_literal_s(s)),
            body@ == joined(lits.take(i as int), ", "@),
        decreases scopes.len() - i,
    {
        assert(lits.take(i + 1).drop_last() == lits.take(i as int));
        if i > 0 {
            push_str(&mut body, ", ");
        } else {
            assert(lits.take(0) == Seq::<Seq<char>>::empty());
        }
        push_literal(&mut body, scopes[i].as_str());
        i += 1;
    }
    assert(lits.take(scopes.len() as int) == lits);
    let mut out = String::new();
    push_str(&mut out, "scope IN (");
    push_str(&mut out, body.as_str());
    push_str(&mut out, ")");
    Some(out)
}

/// The strings of `parts` joined by `sep`.
pub fn join_strings(parts: &Vec<String>, sep: &str) -> (r: String)
    ensures
        r@ == joined(parts@.map_values(|s: String| s@), sep@),
{
    let ghost pv = parts@.map_values(|s: String| s@);
    let mut out = String::new();
    let mut i: usize = 0;
    while i < parts.len()
        invariant
            i <= parts.len(),
            pv == parts@.map_values(|s: String| s@),
            out@ == joined(pv.take(i as int), sep@),
        decreases parts.len() - i,
    {
        assert(pv.take(i + 1).drop_last() == pv.take(i as int));
        if i > 0 {
            push_str(&mut out, sep);
        } else {
            assert(pv.take(0) == Seq::<Seq<char>>::empty());
        }
        push_str(&mut out, parts[i].as_str());
        i += 1;
    }
    assert(pv.take(parts.len() as int) == pv);
    out
}

/// `column LIKE '%<escaped q>%'`.
pub open spec fn like_clause_s(column: Seq<char>, q: Seq<char>) -> Seq<char> {
    column + " LIKE '%"@ + sql_escape_s(q) + "%'"@
}

/// `(c1 LIKE '%q%' OR c2 LIKE '%q%' ...)`: some column holds `q`.
pub open spec fn keyword_filter_s(columns: Seq<Seq<char>>, q: Seq<char>) -> Seq<char> {
    "("@ + joined(columns.map_values(|c: Seq<char>| like_clause_s(c, q)), " OR "@) + ")"@
}

/// The keyword predicate of a search without an embedding: some of `columns`
/// contains `query` (`%` and `_` in it keep their LIKE meaning).
pub fn keyword_filter(columns: &Vec<&str>, query: &str) -> (r: String)
    ensures
        r@ == keyword_filter_s(columns@.map_values(|c: &str| c@), query@),
{
    let ghost cv = columns@.map_values(|c: &str| c@);
    let e = sql_escape(query);
    let mut clauses: Vec<String> = Vec::new();
    let mut i: usize = 0;
    while i < columns.len()
        invariant
            i <= columns.len(),
            cv == columns@.map_values(|c: &str| c@),
            e@ == sql_escape_s(query@),
            clauses@.map_values(|s: String| s@) == cv.take(i as int).map_values(
                |c: Seq<char>| like_clause_s(c, query@),
            ),
        decreases columns.len() - i,
    {
        let mut c = String::new();
        push_str(&mut c, columns[i]);
        push_str(&mut c, " LIKE '%");
        push_str(&mut c, e.as_str());
        push_str(&mut c, "%'");
        assert(cv[i as int] == columns@[i as int]@);
        assert(c@ == like_clause_s(cv[i as int], query@));
        let ghost old_cl = clauses@;
        clauses.push(c);
        assert(clauses@.map_values(|s: String| s@) =~= old_cl.map_values(|s: String| s@).push(
            like_clause_s(cv[i as int], query@),
        ));
        assert(cv.take(i + 1).map_values(|c: Seq<char>| like_clause_s(c, query@)) =~= cv.take(
            i as int,
        ).map_values(|c: Seq<char>| like_clause_s(c, query@)).push(
            like_clause_s(cv[i as int], query@),
        ));
        i += 1;
    }
    assert(cv.take(columns.len() as int) == cv);
    let body = join_strings(&clauses, " OR ");
    let mut out = String::new();
    push_str(&mut out, "(");
    push_str(&mut out, body.as_str());
    push_str(&mut out, ")");
    out
}

/// The view of an optional string.
/// The limit a history search works with: 10 when none is given.
pub open spec fn history_limit(limit: usize) -> nat {
    if limit == 0 {
        10
    } else {
        limit as nat
    }
}

/// The predicates on project and time range, in this order, for the bounds given.
pub open spec fn history_scalar_filters_s(
    project_path: Option<Seq<char>>,
    start_date: Option<Seq<char>>,
    end_date: Option<Seq<char>>,
) -> Seq<Seq<char>> {
    (match project_path {
        Some(p) => seq![eq_filter_s("project_path"@, p)],
        None => Seq::<Seq<char>>::empty(),
    }) + (match start_date {
        Some(d) => seq!["ts >= "@ + sql_literal_s(d)],
        None => Seq::<Seq<char>>::empty(),
    }) + (match end_date {
        Some(d) => seq!["ts <= "@ + sql_literal_s(d)],
        None => Seq::<Seq<char>>::empty(),
    })
}

/// The columns a keyword search of the history looks in.
pub open spec fn history_keyword_columns() -> Seq<Seq<char>> {
    seq!["intent"@, "decision"@, "data"@]
}

/// The whole predicate of a history search: the scalar bounds, then, for a
/// keyword search with a non-empty query, the keyword predicate; all joined
/// by ` AND `, or none at all.
pub open spec fn history_predicate_s(
    query: Seq<char>,
    by_vector: bool,
    project_path: Option<Seq<char>>,
    start_date: Option<Seq<char>>,
    end_date: Option<Seq<char>>,
) -> Option<Seq<char>> {
    let base = history_scalar_filters_s(project_path, start_date, end_date);
    let all = if !by_vector && query.len() > 0 {
        base.push(keyword_filter_s(history_keyword_columns(), query))
    } else {
        base
    };
    if all.len() == 0 {
        None
    } else {
        Some(joined(all, " AND "@))
    }
}

/// What a history search asks of the store: the predicate, and how many rows
/// to fetch (four times the limit, so that tag filtering still leaves enough).
pub struct HistoryQuery {
    pub predicate: Option<String>,
    pub fetch_limit: usize,
    pub limit: usize,
}

/// Plans a history search; `by_vector` when an embedding of the query is at hand.
pub fn plan_history_query(
    query: &str,
    by_vector: bool,
    project_path: Option<&str>,
    start_date: Option<&str>,
    end_date: Option<&str>,
    limit: usize,
) -> (r: HistoryQuery)
    requires
        history_limit(limit) * 4 <= usize::MAX,
    ensures
        r.limit == history_limit(limit),
        r.fetch_limit == 4 * history_limit(limit),
        opt_view(r.predicate) == history_predicate_s(
            query@,
            by_vector,
            crate::text::str_opt(project_path),
            crate::text::str_opt(start_date),
            crate::text::str_opt(end_date),
        ),
{
    let lim: usize = if limit == 0 {
        10
    } else {
        limit
    };
    let mut filters: Vec<String> = Vec::new();
    let ghost sv = filters@.map_values(|s: String| s@);
    if let Some(p) = project_path {
        filters.push(eq_filter("project_path", p));
    }
    if let Some(d) = start_date {
        let mut f = String::new();
        push_str(&mut f, "ts >= ");
        push_literal(&mut f, d);
        filters.push(f);
    }
    if let Some(d) = end_date {
        let mut f = String::new();
        push_str(&mut f, "ts <= ");
        push_literal(&mut f, d);
        filters.push(f);
    }
    let ghost base = history_scalar_filters_s(
        crate::text::str_opt(project_path),
        crate::text::str_opt(start_date),
        crate::text::str_opt(end_date),
    );
    assert(filters@.map_values(|s: String| s@) == base);
    let qv = chars_of(query);
    if !by_vector && qv.len() > 0 {
        let mut cols: Vec<&str> = Vec::new();
        cols.push("intent");
        cols.push("decision");
        cols.push("data");
        assert(cols@.map_values(|c: &str| c@) == history_keyword_columns());
        filters.push(keyword_filter(&cols, query));
    }
    assert(filters@.map_values(|s: String| s@) == (if !by_vector && query@.len() > 0 {
        base.push(keyword_filter_s(history_keyword_columns(), query@))
    } else {
        base
    }));
    let predicate = if filters.len() == 0 {
        None
    } else {
        Some(join_strings(&filters, " AND "))
    };
    HistoryQuery { predicate, fetch_limit: lim * 4, limit: lim }
}

/// The prefixes of paths that the code index never keeps (both separators).
pub open spec fn excluded_prefixes() -> Seq<Seq<char>> {
    seq![
        "target/"@,
        "node_modules/"@,
        "dist/"@,
        "build/"@,
        "out/"@,
        ".git/"@,
        "target\\"@,
        "node_modules\\"@,
        "dist\\"@,
        "build\\"@,
        "out\\"@,
        ".git\\"@
    ]
}

/// `file_path LIKE '<prefix>%'`.
pub open spec fn prefix_clause_s(prefix: Seq<char>) -> Seq<char> {
    "file_path LIKE '"@ + prefix + "%'"@
}

/// The rows of `project` whose file lies under an excluded prefix.
pub open spec fn purge_filter_s(project: Seq<char>) -> Seq<char> {
    eq_filter_s("project_path"@, project) + " AND ("@ + joined(
        excluded_prefixes().map_values(|p: Seq<char>| prefix_clause_s(p)),
        " OR "@,
    ) + ")"@
}

/// The predicate that finds the rows of `project_path` kept from excluded
/// directories (build output, dependencies, version control).
pub fn purge_excluded_filter(project_path: &str) -> (r: String)
    ensures
        r@ == purge_filter_s(project_path@),
{
    let mut prefixes: Vec<&str> = Vec::new();
    prefixes.push("target/");
    prefixes.push("node_modules/");
    prefixes.push("dist/");
    prefixes.push("build/");
    prefixes.push("out/");
    prefixes.push(".git/");
    prefixes.push("target\\");
    prefixes.push("node_modules\\");
    prefixes.push("dist\\");
    prefixes.push("build\\");
    prefixes.push("out\\");
    prefixes.push(".git\\");
    let ghost pv = prefixes@.map_values(|c: &str| c@);
    assert(pv == excluded_prefixes());
    let mut clauses: Vec<String> = Vec::new();
    let mut i: usize = 0;
    while i < prefixes.len()
        invariant
            i <= prefixes.len(),
            pv == prefixes@.map_values(|c: &str| c@),
            clauses@.map_values(|s: String| s@) == pv.take(i as int).map_values(
                |p: Seq<char>| prefix_clause_s(p),
            ),
        decreases prefixes.len() - i,
    {
        let mut c = String::new();
        push_str(&mut c, "file_path LIKE '");
        push_str(&mut c, prefixes[i]);
        push_str(&mut c, "%'");
        assert(pv[i as int] == prefixes@[i as int]@);
        assert(c@ == prefix_clause_s(pv[i as int]));
        let ghost old_cl = clauses@;
        clauses.push(c);
        assert(clauses@.map_values(|s: String| s@) =~= old_cl.map_values(|s: String| s@).push(
            prefix_clause_s(pv[i as int]),
        ));
        assert(pv.take(i + 1).map_values(|p: Seq<char>| prefix_clause_s(p)) =~= pv.take(
            i as int,
        ).map_values(|p: Seq<char>| prefix_clause_s(p)).push(prefix_clause_s(pv[i as int])));
        i += 1;
    }
    assert(pv.take(prefixes.len() as int) == pv);
    let body = join_strings(&clauses, " OR ");
    let mut out = eq_filter("project_path", project_path);
    push_str(&mut out, " AND (");
    push_str(&mut out, body.as_str());
    push_str(&mut out, ")");
    out
}

// ───────────────────────── tags ─────────────────────────

/// The strings of `text` read as a JSON array of strings, in order; `None`
/// when `text` is not such an array.
pub uninterp spec fn json_string_array(text: Seq<char>) -> Option<Seq<Seq<char>>>;

/// `serde_json::from_str::<Vec<String>>`: the strings of a JSON array of
/// strings, or `None` when `text` is not one.
#[verifier::external_body]
fn parse_string_array(text: &str) -> (r: Option<Vec<String>>)
    ensures
        match r {
            Some(v) => json_string_array(text@) == Some(v@.map_values(|s: String| s@)),
            None => json_string_array(text@) is None,
        },
{
    serde_json::from_str::<Vec<String>>(text).ok()
}

/// The tags stored as `text`: its strings when it is a JSON array of
/// strings, else none.
pub open spec fn tags_of(text: Seq<char>) -> Seq<Seq<char>> {
    match json_string_array(text) {
        Some(t) => t,
        None => Seq::empty(),
    }
}

/// The view of a list of strings.
/// Reads the stored tags; what does not parse counts as no tags.
pub fn parse_tags(text: &str) -> (r: Vec<String>)
    ensures
        strings_view(r@) == tags_of(text@),
{
    match parse_string_array(text) {
        Some(v) => v,
        None => Vec::new(),
    }
}

/// Every one of `required` is among `tags`.
pub open spec fn has_all(tags: Seq<Seq<char>>, required: Seq<Seq<char>>) -> bool {
    forall|k: int| 0 <= k < required.len() ==> tags.contains(#[trigger] required[k])
}

fn contains_string(v: &Vec<String>, x: &String) -> (r: bool)
    ensures
        r == strings_view(v@).contains(x@),
{
    let mut i: usize = 0;
    while i < v.len()
        invariant
            i <= v.len(),
            forall|j: int| 0 <= j < i ==> v@[j]@ != x@,
        decreases v.len() - i,
    {
        if v[i] == *x {
            assert(strings_view(v@)[i as int] == x@);
            return true;
        }
        i += 1;
    }
    assert forall|j: int| 0 <= j < strings_view(v@).len() implies strings_view(v@)[j] != x@ by {
        assert(strings_view(v@)[j] == v@[j]@);
    }
    false
}

fn has_all_tags(tags: &Vec<String>, required: &Vec<String>) -> (r: bool)
    ensures
        r == has_all(strings_view(tags@), strings_view(required@)),
{
    let ghost rv = strings_view(required@);
    let mut k: usize = 0;
    while k < required.len()
        invariant
            k <= required.len(),
            rv == strings_view(required@),
            forall|j: int| 0 <= j < k ==> strings_view(tags@).contains(#[trigger] rv[j]),
        decreases required.len() - k,
    {
        assert(rv[k as int] == required@[k as int]@);
        if !contains_string(tags, &required[k]) {
            return false;
        }
        k += 1;
    }
    true
}

// ───────────────────────── memory history ─────────────────────────

/// A history record as the store returns it, tags still in their stored form.
#[derive(Debug, Clone)]
pub struct HistoryRow {
    pub id: String,
    pub session_id: String,
    pub project_path: String,
    pub intent: String,
    pub decision: String,
    pub source_ide: String,
    pub tags_json: String,
    pub ts: String,
    pub data: String,
}

/// A record of the memory history.
#[derive(Debug, Clone)]
pub struct HistoryEntry {
    pub id: String,
    pub session_id: String,
    pub project_path: String,
    pub intent: String,
    pub decision: String,
    pub source_ide: String,
    pub tags: Vec<String>,
    pub ts: String,
    /// The raw JSON blob of the record.
    pub data: String,
}

/// `e` is `row` with its tags read.
pub open spec fn entry_of_row(e: HistoryEntry, row: HistoryRow) -> bool {
    &&& e.id@ == row.id@
    &&& e.session_id@ == row.session_id@
    &&& e.project_path@ == row.project_path@
    &&& e.intent@ == row.intent@
    &&& e.decision@ == row.decision@
    &&& e.source_ide@ == row.source_ide@
    &&& strings_view(e.tags@) == tags_of(row.tags_json@)
    &&& e.ts@ == row.ts@
    &&& e.data@ == row.data@
}

/// The view of an optional list of strings.
pub open spec fn opt_strings_view(o: Option<Vec<String>>) -> Option<Seq<Seq<char>>> {
    match o {
        Some(v) => Some(strings_view(v@)),
        None => None,
    }
}

/// A row passes when it carries every required tag (or none are required).
pub open spec fn row_passes(row: HistoryRow, required: Option<Seq<Seq<char>>>) -> bool {
    match required {
        Some(req) => has_all(tags_of(row.tags_json@), req),
        None => true,
    }
}

/// The rows that pass, in their order.
pub open spec fn passing_rows(rows: Seq<HistoryRow>, required: Option<Seq<Seq<char>>>) -> Seq<
    HistoryRow,
>
    decreases rows.len(),
{
    if rows.len() == 0 {
        Seq::empty()
    } else {
        let before = passing_rows(rows.drop_last(), required);
        if row_passes(rows.last(), required) {
            before.push(rows.last())
        } else {
            before
        }
    }
}

/// The first `limit` passing rows (all of them when fewer pass).
pub open spec fn selected_rows(
    rows: Seq<HistoryRow>,
    required: Option<Seq<Seq<char>>>,
    limit: nat,
) -> Seq<HistoryRow> {
    let p = passing_rows(rows, required);
    if p.len() <= limit {
        p
    } else {
        p.take(limit as int)
    }
}

proof fn lemma_passing_prefix(rows: Seq<HistoryRow>, required: Option<Seq<Seq<char>>>, i: int)
    requires
        0 <= i <= rows.len(),
    ensures
        passing_rows(rows.take(i), required).len() <= passing_rows(rows, required).len(),
        passing_rows(rows, required).take(passing_rows(rows.take(i), required).len() as int)
            == passing_rows(rows.take(i), required),
    decreases rows.len() - i,
{
    if i < rows.len() {
        lemma_passing_prefix(rows, required, i + 1);
        assert(rows.take(i + 1).drop_last() == rows.take(i));
        assert(rows.take(i + 1).last() == rows[i]);
    } else {
        assert(rows.take(i) == rows);
    }
}

/// A history search never returns more than its limit, and with required
/// tags every row it keeps carries all of them.
pub proof fn law_selected_rows_carry_required_tags(
    rows: Seq<HistoryRow>,
    required: Seq<Seq<char>>,
    limit: nat,
)
    ensures
        selected_rows(rows, Some(required), limit).len() <= limit,
        forall|k: int|
            0 <= k < selected_rows(rows, Some(required), limit).len() ==> has_all(
                tags_of((#[trigger] selected_rows(rows, Some(required), limit)[k]).tags_json@),
                required,
            ),
{
    lemma_passing_rows_pass(rows, Some(required));
}

proof fn lemma_passing_rows_pass(rows: Seq<HistoryRow>, required: Option<Seq<Seq<char>>>)
    ensures
        forall|k: int|
            0 <= k < passing_rows(rows, required).len() ==> row_passes(
                #[trigger] passing_rows(rows, required)[k],
                required,
            ),
    decreases rows.len(),
{
    if rows.len() > 0 {
        lemma_passing_rows_pass(rows.drop_last(), required);
        let b = passing_rows(rows.drop_last(), required);
        if row_passes(rows.last(), required) {
            assert forall|k: int| 0 <= k < b.len() + 1 implies row_passes(
                #[trigger] b.push(rows.last())[k],
                required,
            ) by {
                if k < b.len() {
                    assert(b.push(rows.last())[k] == b[k]);
                }
            }
        }
    }
}

fn entry_from_row(row: &HistoryRow) -> (e: HistoryEntry)
    ensures
        entry_of_row(e, *row),
{
    HistoryEntry {
        id: row.id.clone(),
        session_id: row.session_id.clone(),
        project_path: row.project_path.clone(),
        intent: row.intent.clone(),
        decision: row.decision.clone(),
        source_ide: row.source_ide.clone(),
        tags: parse_tags(row.tags_json.as_str()),
        ts: row.ts.clone(),
        data: row.data.clone(),
    }
}

/// The timestamps of `rows`.
pub open spec fn row_stamps(rows: Seq<HistoryRow>) -> Seq<Seq<char>> {
    rows.map_values(|r: HistoryRow| r.ts@)
}

/// What a history search returns of the rows the store gave: the first
/// `limit` rows that carry every required tag, newest first (rows with equal
/// stamps keep their order), each with its tags read.
pub fn select_history(
    rows: &Vec<HistoryRow>,
    required_tags: &Option<Vec<String>>,
    limit: usize,
) -> (r: Vec<HistoryEntry>)
    ensures
        ({
            let sel = selected_rows(rows@, opt_strings_view(*required_tags), limit as nat);
            &&& r.len() == sel.len()
            &&& exists|p: Seq<usize>|
                {
                    &&& is_perm(p, sel.len())
                    &&& sorted_by(p, text_desc(row_stamps(sel)))
                    &&& stable_by(p, text_desc(row_stamps(sel)))
                    &&& forall|k: int|
                        0 <= k < r.len() ==> entry_of_row(#[trigger] r@[k], sel[p[k] as int])
                }
        }),
{
    let ghost req = opt_strings_view(*required_tags);
    let mut picked: Vec<usize> = Vec::new();
    let mut i: usize = 0;
    while i < rows.len() && picked.len() < limit
        invariant
            i <= rows.len(),
            picked.len() <= limit,
            req == opt_strings_view(*required_tags),
            forall|k: int| 0 <= k < picked.len() ==> #[trigger] picked@[k] < rows.len(),
            picked@.map_values(|j: usize| rows@[j as int]) == passing_rows(rows@.take(i as int), req),
        decreases rows.len() - i,
    {
        let passes = match required_tags {
            Some(req_tags) => {
                let tags = parse_tags(rows[i].tags_json.as_str());
                has_all_tags(&tags, req_tags)
            },
            None => true,
        };
        assert(rows@.take(i + 1).drop_last() == rows@.take(i as int));
        assert(rows@.take(i + 1).last() == rows@[i as int]);
        assert(passes == row_passes(rows@[i as int], req));
        if passes {
            let ghost old_picked = picked@;
            picked.push(i);
            assert(picked@.map_values(|j: usize| rows@[j as int]) =~= old_picked.map_values(
                |j: usize| rows@[j as int],
            ).push(rows@[i as int]));
        }
        i += 1;
    }
    let ghost sel = selected_rows(rows@, req, limit as nat);
    proof {
        lemma_passing_prefix(rows@, req, i as int);
        if i == rows.len() {
            assert(rows@.take(i as int) == rows@);
        }
        assert(picked@.map_values(|j: usize| rows@[j as int]) == sel);
    }
    let mut keys: Vec<Vec<char>> = Vec::new();
    let mut k: usize = 0;
    while k < picked.len()
        invariant
            k <= picked.len(),
            forall|q: int| 0 <= q < picked.len() ==> #[trigger] picked@[q] < rows.len(),
            picked@.map_values(|j: usize| rows@[j as int]) == sel,
            keys@.map_values(|v: Vec<char>| v@) == row_stamps(sel).take(k as int),
        decreases picked.len() - k,
    {
        let ghost old_keys = keys@;
        let kv = chars_of(rows[picked[k]].ts.as_str());
        assert(sel[k as int] == rows@[picked@[k as int] as int]);
        assert(kv@ == row_stamps(sel)[k as int]);
        keys.push(kv);
        assert(keys@.map_values(|v: Vec<char>| v@) =~= old_keys.map_values(|v: Vec<char>| v@).push(
            kv@,
        ));
        assert(keys@.map_values(|v: Vec<char>| v@) =~= row_stamps(sel).take(k + 1));
        k += 1;
    }
    assert(row_stamps(sel).take(picked.len() as int) == row_stamps(sel));
    let p = sort_perm_desc(&keys);
    let mut out: Vec<HistoryEntry> = Vec::new();
    let mut m: usize = 0;
    while m < p.len()
        invariant
            m <= p.len() == picked.len(),
            is_perm(p@, picked.len() as nat),
            forall|q: int| 0 <= q < picked.len() ==> #[trigger] picked@[q] < rows.len(),
            picked@.map_values(|j: usize| rows@[j as int]) == sel,
            out.len() == m,
            forall|q: int| 0 <= q < m ==> entry_of_row(#[trigger] out@[q], sel[p@[q] as int]),
        decreases p.len() - m,
    {
        let e = entry_from_row(&rows[picked[p[m]]]);
        assert(sel[p@[m as int] as int] == rows@[picked@[p@[m as int] as int] as int]);
        out.push(e);
        m += 1;
    }
    out
}

// ───────────────────────── agent rules ─────────────────────────

/// A learnt rule.
#[derive(Debug, Clone)]
pub struct AgentRule {
    pub id: String,
    pub scope: String,
    pub rule: String,
    pub ts: String,
}

/// The timestamps of `rules`.
pub open spec fn rule_stamps(rules: Seq<AgentRule>) -> Seq<Seq<char>> {
    rules.map_values(|r: AgentRule| r.ts@)
}

/// The rules oldest first; rules with equal stamps keep their order.
pub fn sort_rules_by_ts(rules: &Vec<AgentRule>) -> (r: Vec<AgentRule>)
    ensures
        r.len() == rules.len(),
        exists|p: Seq<usize>|
            {
                &&& is_perm(p, rules.len() as nat)
                &&& orders(p, rule_stamps(rules@))
                &&& stable(p, rule_stamps(rules@))
                &&& forall|k: int| 0 <= k < r.len() ==> #[trigger] r@[k] == rules@[p[k] as int]
            },
{
    let mut keys: Vec<Vec<char>> = Vec::new();
    let mut k: usize = 0;
    while k < rules.len()
        invariant
            k <= rules.len(),
            keys@.map_values(|v: Vec<char>| v@) == rule_stamps(rules@).take(k as int),
        decreases rules.len() - k,
    {
        let ghost old_keys = keys@;
        let kv = chars_of(rules[k].ts.as_str());
        assert(kv@ == rule_stamps(rules@)[k as int]);
        keys.push(kv);
        assert(keys@.map_values(|v: Vec<char>| v@) =~= old_keys.map_values(|v: Vec<char>| v@).push(
            kv@,
        ));
        assert(keys@.map_values(|v: Vec<char>| v@) =~= rule_stamps(rules@).take(k + 1));
        k += 1;
    }
    assert(rule_stamps(rules@).take(rules.len() as int) == rule_stamps(rules@));
    let p = sort_perm(&keys);
    let mut out: Vec<AgentRule> = Vec::new();
    let mut m: usize = 0;
    while m < p.len()
        invariant
            m <= p.len() == rules.len(),
            is_perm(p@, rules.len() as nat),
            out.len() == m,
            forall|q: int| 0 <= q < m ==> #[trigger] out@[q] == rules@[p@[q] as int],
        decreases p.len() - m,
    {
        let src = &rules[p[m]];
        out.push(
            AgentRule {
                id: src.id.clone(),
                scope: src.scope.clone(),
                rule: src.rule.clone(),
                ts: src.ts.clone(),
            },
        );
        m += 1;
    }
    out
}

// ───────────────────────── checkpoints ─────────────────────────

/// A checkpoint record as the store returns it, tags still in their stored form.
#[derive(Debug, Clone)]
pub struct CheckpointRow {
    pub id: String,
    pub concept_key: String,
    pub core_logic: String,
    pub tags_json: String,
    pub ts: String,
}

/// A saved checkpoint.
#[derive(Debug, Clone)]
pub struct CheckpointEntry {
    pub id: String,
    pub concept_key: String,
    pub core_logic: String,
    pub tags: Vec<String>,
    pub ts: String,
}

/// `e` is `row` with its tags read.
pub open spec fn checkpoint_of_row(e: CheckpointEntry, row: CheckpointRow) -> bool {
    &&& e.id@ == row.id@
    &&& e.concept_key@ == row.concept_key@
    &&& e.core_logic@ == row.core_logic@
    &&& strings_view(e.tags@) == tags_of(row.tags_json@)
    &&& e.ts@ == row.ts@
}

/// The number of checkpoints a search returns: 3 when none is given.
pub open spec fn checkpoint_limit(limit: usize) -> nat {
    if limit == 0 {
        3
    } else {
        limit as nat
    }
}

/// The keyword predicate of a checkpoint search without an embedding.
pub fn checkpoint_keyword_filter(query: &str) -> (r: String)
    ensures
        r@ == keyword_filter_s(seq!["concept_key"@, "core_logic"@, "tags"@], query@),
{
    let mut cols: Vec<&str> = Vec::new();
    cols.push("concept_key");
    cols.push("core_logic");
    cols.push("tags");
    assert(cols@.map_values(|c: &str| c@) == seq!["concept_key"@, "core_logic"@, "tags"@]);
    keyword_filter(&cols, query)
}

/// What a checkpoint search returns of the rows the store gave: the first
/// `checkpoint_limit(limit)` of them, in order, each with its tags read.
pub fn checkpoint_entries(rows: &Vec<CheckpointRow>, limit: usize) -> (r: Vec<CheckpointEntry>)
    ensures
        r.len() == if rows.len() <= checkpoint_limit(limit) {
            rows.len() as nat
        } else {
            checkpoint_limit(limit)
        },
        forall|k: int| 0 <= k < r.len() ==> checkpoint_of_row(#[trigger] r@[k], rows@[k]),
{
    let lim: usize = if limit == 0 {
        3
    } else {
        limit
    };
    let mut out: Vec<CheckpointEntry> = Vec::new();
    let mut i: usize = 0;
    while i < rows.len() && out.len() < lim
        invariant
            i <= rows.len(),
            out.len() == i,
            i <= lim,
            lim == checkpoint_limit(limit),
            forall|k: int| 0 <= k < i ==> checkpoint_of_row(#[trigger] out@[k], rows@[k]),
        decreases rows.len() - i,
    {
        let row = &rows[i];
        out.push(
            CheckpointEntry {
                id: row.id.clone(),
                concept_key: row.concept_key.clone(),
                core_logic: row.core_logic.clone(),
                tags: parse_tags(row.tags_json.as_str()),
                ts: row.ts.clone(),
            },
        );
        i += 1;
    }
    out
}

// ───────────────────────── index statistics ─────────────────────────

/// What the code index holds for one project.
#[derive(Debug, Clone)]
pub struct IndexStats {
    /// The workspace root.
    pub project_path: String,
    /// The number of distinct source files with symbols.
    pub file_count: usize,
    /// The number of named symbols.
    pub symbol_count: usize,
}

/// `(project, file)` pairs as texts.
pub open spec fn pair_view(rows: Seq<(String, String)>) -> Seq<(Seq<char>, Seq<char>)> {
    rows.map_values(|r: (String, String)| (r.0@, r.1@))
}

/// The projects of `s`, each once, in order of first appearance.
pub open spec fn projects_in(s: Seq<(Seq<char>, Seq<char>)>) -> Seq<Seq<char>>
    decreases s.len(),
{
    if s.len() == 0 {
        Seq::empty()
    } else {
        let d = projects_in(s.drop_last());
        if d.contains(s.last().0) {
            d
        } else {
            d.push(s.last().0)
        }
    }
}

/// The pairs of `s`, each once, in order of first appearance.
pub open spec fn distinct_pairs(s: Seq<(Seq<char>, Seq<char>)>) -> Seq<(Seq<char>, Seq<char>)>
    decreases s.len(),
{
    if s.len() == 0 {
        Seq::empty()
    } else {
        let d = distinct_pairs(s.drop_last());
        if d.contains(s.last()) {
            d
        } else {
            d.push(s.last())
        }
    }
}

/// How many pairs of `s` belong to project `p`.
pub open spec fn count_project(s: Seq<(Seq<char>, Seq<char>)>, p: Seq<char>) -> nat
    decreases s.len(),
{
    if s.len() == 0 {
        0
    } else {
        count_project(s.drop_last(), p) + if s.last().0 == p {
            1nat
        } else {
            0nat
        }
    }
}

/// The symbols of project `p`: its rows.
pub open spec fn symbols_of(s: Seq<(Seq<char>, Seq<char>)>, p: Seq<char>) -> nat {
    count_project(s, p)
}

/// The files of project `p`: its distinct files.
pub open spec fn files_of(s: Seq<(Seq<char>, Seq<char>)>, p: Seq<char>) -> nat {
    count_project(distinct_pairs(s), p)
}

proof fn lemma_projects_grow(s: Seq<(Seq<char>, Seq<char>)>, x: (Seq<char>, Seq<char>), p: Seq<char>)
    requires
        projects_in(s).contains(p),
    ensures
        projects_in(s.push(x)).contains(p),
{
    assert(s.push(x).drop_last() == s);
    let d = projects_in(s);
    if !d.contains(x.0) {
        let j = choose|j: int| 0 <= j < d.len() && d[j] == p;
        assert(d.push(x.0)[j] == p);
    }
}

proof fn lemma_counted_project_listed(s: Seq<(Seq<char>, Seq<char>)>, p: Seq<char>)
    ensures
        count_project(s, p) > 0 ==> projects_in(s).contains(p),
        count_project(distinct_pairs(s), p) > 0 ==> projects_in(s).contains(p),
    decreases s.len(),
{
    if s.len() > 0 {
        let t = s.drop_last();
        let x = s.last();
        lemma_counted_project_listed(t, p);
        assert(t.push(x) == s);
        let d = projects_in(t);
        if x.0 == p {
            if !d.contains(x.0) {
                assert(d.push(x.0)[d.len() as int] == p);
            }
        } else {
            let dp = distinct_pairs(t);
            if !dp.contains(x) {
                assert(dp.push(x).drop_last() == dp);
            }
            if count_project(t, p) > 0 || count_project(dp, p) > 0 {
                lemma_projects_grow(t, x, p);
            }
        }
    }
}

/// The symbol counts of `ps` summed.
pub open spec fn symbol_total(s: Seq<(Seq<char>, Seq<char>)>, ps: Seq<Seq<char>>) -> nat
    decreases ps.len(),
{
    if ps.len() == 0 {
        0
    } else {
        symbol_total(s, ps.drop_last()) + symbols_of(s, ps.last())
    }
}

/// How many times `p` occurs in `ps`.
pub open spec fn occurrences(ps: Seq<Seq<char>>, p: Seq<char>) -> nat
    decreases ps.len(),
{
    if ps.len() == 0 {
        0
    } else {
        occurrences(ps.drop_last(), p) + if ps.last() == p {
            1nat
        } else {
            0nat
        }
    }
}

proof fn lemma_symbol_total_push_row(
    s: Seq<(Seq<char>, Seq<char>)>,
    x: (Seq<char>, Seq<char>),
    ps: Seq<Seq<char>>,
)
    ensures
        symbol_total(s.push(x), ps) == symbol_total(s, ps) + occurrences(ps, x.0),
    decreases ps.len(),
{
    assert(s.push(x).drop_last() == s);
    if ps.len() > 0 {
        lemma_symbol_total_push_row(s, x, ps.drop_last());
    }
}

proof fn lemma_occurrences(ps: Seq<Seq<char>>, p: Seq<char>)
    requires
        forall|a: int, b: int| 0 <= a < b < ps.len() ==> ps[a] != ps[b],
    ensures
        occurrences(ps, p) == if ps.contains(p) {
            1nat
        } else {
            0nat
        },
    decreases ps.len(),
{
    if ps.len() > 0 {
        let t = ps.drop_last();
        lemma_occurrences(t, p);
        if ps.last() == p {
            assert(!t.contains(p)) by {
                if t.contains(p) {
                    let j = choose|j: int| 0 <= j < t.len() && t[j] == p;
                    assert(ps[j] == ps[ps.len() - 1]);
                }
            }
            assert(ps[ps.len() - 1] == p);
        } else {
            if ps.contains(p) {
                let j = choose|j: int| 0 <= j < ps.len() && ps[j] == p;
                assert(t[j] == p);
            }
            if t.contains(p) {
                let j = choose|j: int| 0 <= j < t.len() && t[j] == p;
                assert(ps[j] == p);
            }
        }
    }
}

proof fn lemma_projects_distinct(s: Seq<(Seq<char>, Seq<char>)>)
    ensures
        forall|a: int, b: int|
            0 <= a < b < projects_in(s).len() ==> projects_in(s)[a] != projects_in(s)[b],
    decreases s.len(),
{
    if s.len() > 0 {
        lemma_projects_distinct(s.drop_last());
        let d = projects_in(s.drop_last());
        if !d.contains(s.last().0) {
            let e = d.push(s.last().0);
            assert forall|a: int, b: int| 0 <= a < b < e.len() implies e[a] != e[b] by {
                if b == e.len() - 1 {
                    assert(e[a] == d[a]);
                }
            }
        }
    }
}

/// Every symbol row is counted once, under its own project: the symbol
/// counts of all projects add up to the number of rows.
pub proof fn law_symbol_counts_cover_rows(s: Seq<(Seq<char>, Seq<char>)>)
    ensures
        symbol_total(s, projects_in(s)) == s.len(),
    decreases s.len(),
{
    if s.len() > 0 {
        let t = s.drop_last();
        let x = s.last();
        assert(t.push(x) == s);
        law_symbol_counts_cover_rows(t);
        let d = projects_in(t);
        lemma_projects_distinct(t);
        lemma_symbol_total_push_row(t, x, d);
        lemma_occurrences(d, x.0);
        if !d.contains(x.0) {
            lemma_counted_project_listed(t, x.0);
            assert(d.push(x.0).drop_last() == d);
            assert(count_project(s, x.0) == count_project(t, x.0) + 1);
        }
    }
}

fn find_string(v: &Vec<String>, x: &String) -> (r: Option<usize>)
    ensures
        match r {
            Some(k) => k < v.len() && v@[k as int]@ == x@,
            None => !strings_view(v@).contains(x@),
        },
{
    let mut i: usize = 0;
    while i < v.len()
        invariant
            i <= v.len(),
            forall|j: int| 0 <= j < i ==> v@[j]@ != x@,
        decreases v.len() - i,
    {
        if v[i] == *x {
            return Some(i);
        }
        i += 1;
    }
    assert forall|j: int| 0 <= j < strings_view(v@).len() implies strings_view(v@)[j] != x@ by {
        assert(strings_view(v@)[j] == v@[j]@);
    }
    None
}

fn pair_seen(seen: &Vec<(String, String)>, p: &String, f: &String) -> (r: bool)
    ensures
        r == pair_view(seen@).contains((p@, f@)),
{
    let mut i: usize = 0;
    while i < seen.len()
        invariant
            i <= seen.len(),
            forall|j: int| 0 <= j < i ==> (seen@[j].0@, seen@[j].1@) != (p@, f@),
        decreases seen.len() - i,
    {
        if seen[i].0 == *p && seen[i].1 == *f {
            assert(pair_view(seen@)[i as int] == (p@, f@));
            return true;
        }
        i += 1;
    }
    assert forall|j: int| 0 <= j < pair_view(seen@).len() implies pair_view(seen@)[j] != (
    p@,
    f@,
    ) by {
        assert(pair_view(seen@)[j] == (seen@[j].0@, seen@[j].1@));
    }
    false
}

/// Statistics per project of the index's symbol rows, each a `(project,
/// file)` pair: one entry per project, with its symbol and distinct-file
/// counts, the projects with most symbols first.
pub fn index_stats(rows: &Vec<(String, String)>) -> (r: Vec<IndexStats>)
    ensures
        ({
            let s = pair_view(rows@);
            let projs = projects_in(s);
            &&& r.len() == projs.len()
            &&& forall|i: int, j: int|
                0 <= i < j < r.len() ==> #[trigger] r@[i].symbol_count >= #[trigger] r@[j].symbol_count
            &&& exists|p: Seq<usize>|
                {
                    &&& is_perm(p, projs.len())
                    &&& forall|k: int|
                        0 <= k < r.len() ==> {
                            &&& (#[trigger] r@[k]).project_path@ == projs[p[k] as int]
                            &&& r@[k].symbol_count == symbols_of(s, projs[p[k] as int])
                            &&& r@[k].file_count == files_of(s, projs[p[k] as int])
                        }
                }
        }),
{
    let ghost s = pair_view(rows@);
    let mut projs: Vec<String> = Vec::new();
    let mut syms: Vec<usize> = Vec::new();
    let mut files: Vec<usize> = Vec::new();
    let mut seen: Vec<(String, String)> = Vec::new();
    let mut i: usize = 0;
    while i < rows.len()
        invariant
            i <= rows.len(),
            s == pair_view(rows@),
            strings_view(projs@) == projects_in(s.take(i as int)),
            pair_view(seen@) == distinct_pairs(s.take(i as int)),
            syms.len() == projs.len(),
            files.len() == projs.len(),
            forall|k: int|
                0 <= k < projs.len() ==> #[trigger] syms@[k] == count_project(
                    s.take(i as int),
                    projs@[k]@,
                ) && syms@[k] <= i,
            forall|k: int|
                0 <= k < projs.len() ==> #[trigger] files@[k] == count_project(
                    distinct_pairs(s.take(i as int)),
                    projs@[k]@,
                ) && files@[k] <= i,
            forall|a: int, b: int| 0 <= a < b < projs.len() ==> projs@[a]@ != projs@[b]@,
        decreases rows.len() - i,
    {
        let ghost t = s.take(i as int);
        let ghost x = s[i as int];
        assert(s.take(i + 1) == t.push(x));
        assert(t.push(x).drop_last() == t);
        assert(x == (rows@[i as int].0@, rows@[i as int].1@));
        let ghost old_projs = projs@;
        let ghost old_seen = seen@;
        let p = &rows[i].0;
        let f = &rows[i].1;
        let new_pair = !pair_seen(&seen, p, f);
        if new_pair {
            seen.push((p.clone(), f.clone()));
            assert(pair_view(seen@) =~= pair_view(old_seen).push(x));
        }
        assert(pair_view(seen@) == distinct_pairs(t.push(x)));
        let ghost dnew = distinct_pairs(t.push(x));
        assert(forall|q: Seq<char>|
            #[trigger] count_project(dnew, q) == count_project(distinct_pairs(t), q) + if new_pair
                && x.0 == q {
                1nat
            } else {
                0nat
            }) by {
            if new_pair {
                assert(dnew.drop_last() == distinct_pairs(t));
            }
        }
        match find_string(&projs, p) {
            Some(k) => {
                let ghost old_syms = syms@;
                let ghost old_files = files@;
                let sk = syms[k];
                syms.set(k, sk + 1);
                if new_pair {
                    let fk = files[k];
                    files.set(k, fk + 1);
                }
                assert(strings_view(projs@)[k as int] == x.0);
                assert(projects_in(t).contains(x.0));
                assert forall|q: int| 0 <= q < projs.len() implies #[trigger] syms@[q]
                    == count_project(s.take(i + 1), projs@[q]@) && syms@[q] <= i + 1 by {
                    assert(strings_view(projs@)[q] == projs@[q]@);
                }
                assert forall|q: int| 0 <= q < projs.len() implies #[trigger] files@[q]
                    == count_project(distinct_pairs(s.take(i + 1)), projs@[q]@) && files@[q] <= i
                    + 1 by {
                    assert(strings_view(projs@)[q] == projs@[q]@);
                }
            },
            None => {
                proof {
                    lemma_counted_project_listed(t, x.0);
                }
                projs.push(p.clone());
                syms.push(1);
                files.push(
                    if new_pair {
                        1
                    } else {
                        0
                    },
                );
                assert(strings_view(projs@) =~= strings_view(old_projs).push(x.0));
                assert forall|q: int| 0 <= q < projs.len() implies #[trigger] syms@[q]
                    == count_project(s.take(i + 1), projs@[q]@) && syms@[q] <= i + 1 by {
                    assert(strings_view(projs@)[q] == projs@[q]@);
                }
                assert forall|q: int| 0 <= q < projs.len() implies #[trigger] files@[q]
                    == count_project(distinct_pairs(s.take(i + 1)), projs@[q]@) && files@[q] <= i
                    + 1 by {
                    assert(strings_view(projs@)[q] == projs@[q]@);
                }
                assert forall|a: int, b: int| 0 <= a < b < projs.len() implies projs@[a]@
                    != projs@[b]@ by {
                    if b == projs.len() - 1 {
                        assert(strings_view(old_projs)[a] == projs@[a]@);
                    }
                }
            },
        }
        i += 1;
    }
    assert(s.take(rows.len() as int) == s);
    let ghost projs_v = projects_in(s);
    let order = sort_perm_counts_desc(&syms);
    let mut out: Vec<IndexStats> = Vec::new();
    let mut m: usize = 0;
    while m < order.len()
        invariant
            m <= order.len() == projs.len() == syms.len() == files.len(),
            is_perm(order@, projs.len() as nat),
            sorted_by(order@, count_desc(syms@)),
            strings_view(projs@) == projs_v,
            projs_v == projects_in(s),
            forall|k: int|
                0 <= k < projs.len() ==> #[trigger] syms@[k] == count_project(s, projs@[k]@),
            forall|k: int|
                0 <= k < projs.len() ==> #[trigger] files@[k] == count_project(
                    distinct_pairs(s),
                    projs@[k]@,
                ),
            out.len() == m,
            forall|k: int|
                0 <= k < m ==> {
                    &&& (#[trigger] out@[k]).project_path@ == projs_v[order@[k] as int]
                    &&& out@[k].symbol_count == syms@[order@[k] as int]
                    &&& out@[k].file_count == files@[order@[k] as int]
                },
        decreases order.len() - m,
    {
        let k = order[m];
        assert(strings_view(projs@)[k as int] == projs@[k as int]@);
        out.push(
            IndexStats {
                project_path: projs[k].clone(),
                file_count: files[k],
                symbol_count: syms[k],
            },
        );
        m += 1;
    }
    assert forall|i: int, j: int| 0 <= i < j < out.len() implies #[trigger] out@[i].symbol_count
        >= #[trigger] out@[j].symbol_count by {
        assert(!count_desc(syms@)(order@[j] as int, order@[i] as int));
    }
    assert forall|k: int| 0 <= k < out.len() implies {
        &&& (#[trigger] out@[k]).project_path@ == projs_v[order@[k] as int]
        &&& out@[k].symbol_count == symbols_of(s, projs_v[order@[k] as int])
        &&& out@[k].file_count == files_of(s, projs_v[order@[k] as int])
    } by {
        assert(strings_view(projs@)[order@[k] as int] == projs@[order@[k] as int]@);
    }
    out
}

} // verus!
