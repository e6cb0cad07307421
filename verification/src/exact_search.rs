//! Exact (regex) search over source files: its parameters and caps, which
//! matched lines are kept as the walk goes, and the report. The walk, the
//! filters by glob and the regex itself are the caller's; each line comes
//! here already marked as matching or not.
use vstd::prelude::*;
use crate::slicer::lowercase;
use crate::text::{chars_of, dec_s, push_dec, push_str, trim_s};

verus! {

/// The parameters of a search.
pub struct SearchParams {
    pub pattern: String,
    /// The extension to keep, lower case and without a leading dot.
    pub ext: Option<String>,
    pub max_results: usize,
    pub max_files: usize,
}

/// The cap on result lines: as asked (50 when not), at most 500.
pub open spec fn max_results_s(asked: Option<u64>) -> nat {
    let n: nat = match asked {
        Some(x) => (x as usize) as nat,
        None => 50,
    };
    if n > 500 { 500 } else { n }
}

/// The cap on files with matches: a fifth of the result cap, between 5 and 50.
pub open spec fn max_files_s(max_results: nat) -> nat {
    let f = max_results / 5;
    let g: nat = if f < 5 { 5 } else { f };
    if g > 50 { 50 } else { g }
}

/// `s` without its leading dots.
pub open spec fn strip_dots(s: Seq<char>) -> Seq<char>
    decreases s.len(),
{
    if s.len() > 0 && s[0] == '.' { strip_dots(s.drop_first()) } else { s }
}

pub open spec fn missing_pattern_msg() -> Seq<char> {
    "'regex_pattern' is required and must be a non-empty string"@
}

/// The parameters of a search, or the answer to a call without a pattern:
/// the extension filter without leading dots, in lower case; the caps.
pub fn search_params(pattern: Option<&str>, file_extension: Option<&str>, max_results: Option<u64>) -> (r: Result<SearchParams, String>)
    ensures
        match pattern {
            None => r matches Err(m) && m@ == missing_pattern_msg(),
            Some(p) => if p@.len() == 0 {
                r matches Err(m) && m@ == missing_pattern_msg()
            } else {
                r matches Ok(sp) && sp.pattern@ == p@ && sp.max_results == max_results_s(max_results)
                    && sp.max_files == max_files_s(sp.max_results as nat) && match file_extension {
                    Some(e) => if e@.len() > 0 {
                        sp.ext matches Some(x) && x@ == lowercase(strip_dots(e@))
                    } else {
                        sp.ext is None
                    },
                    None => sp.ext is None,
                }
            },
        },
{
    let p = match pattern {
        None => return Err(String::from_str("'regex_pattern' is required and must be a non-empty string")),
        Some(p) => p,
    };
    if chars_of(p).len() == 0 {
        return Err(String::from_str("'regex_pattern' is required and must be a non-empty string"));
    }
    let ext = match file_extension {
        Some(e) => {
            let v = chars_of(e);
            if v.len() == 0 {
                None
            } else {
                let mut a: usize = 0;
                assert(v@.skip(0) == v@);
                while a < v.len() && v[a] == '.'
                    invariant
                        a <= v.len(),
                        v@ == e@,
                        strip_dots(v@.skip(a as int)) == strip_dots(e@),
                    decreases v.len() - a,
                {
                    assert(v@.skip(a as int).drop_first() == v@.skip(a + 1));
                    a += 1;
                }
                assert(v@.skip(a as int) == v@.subrange(a as int, v.len() as int));
                let rest = crate::text::string_of_range(&v, a, v.len());
                Some(crate::slicer::to_lowercase(rest.as_str()))
            }
        },
        None => None,
    };
    let asked: usize = match max_results {
        Some(x) => x as usize,
        None => 50,
    };
    let mr = if asked > 500 { 500 } else { asked };
    let f = mr / 5;
    let g = if f < 5 { 5 } else { f };
    let mf = if g > 50 { 50 } else { g };
    Ok(SearchParams { pattern: String::from_str(p), ext, max_results: mr, max_files: mf })
}

// ───────────────────────── the walk ─────────────────────────

/// A file met by the walk: its path, and its lines each marked as matching
/// or not; `None` when the file was filtered out or could not be read.
pub struct WalkedFile {
    pub path: String,
    pub lines: Option<Vec<(String, bool)>>,
}

/// What the walk has kept so far.
pub struct SearchState {
    pub hits: Seq<Seq<char>>,
    pub scanned: nat,
    pub with_matches: nat,
    pub capped: bool,
}

/// The line kept for a match: path, line number, trimmed text.
pub open spec fn hit_line(path: Seq<char>, line_no: nat, text: Seq<char>) -> Seq<char> {
    path + ":"@ + dec_s(line_no) + ": "@ + trim_s(text)
}

/// The walk's state after the first `n` lines of a file at `path` (and
/// whether the file has matched), from `st`.
pub open spec fn lines_fold(
    st: SearchState,
    path: Seq<char>,
    ls: Seq<(Seq<char>, bool)>,
    n: int,
    max_results: nat,
) -> (SearchState, bool)
    decreases n,
{
    if n <= 0 {
        (st, false)
    } else {
        let (s, had) = lines_fold(st, path, ls, n - 1, max_results);
        if s.hits.len() >= max_results {
            (SearchState { capped: true, ..s }, had)
        } else if ls[n - 1].1 {
            (
                SearchState {
                    hits: s.hits.push(hit_line(path, n as nat, ls[n - 1].0)),
                    with_matches: if had { s.with_matches } else { s.with_matches + 1 },
                    ..s
                },
                true,
            )
        } else {
            (s, had)
        }
    }
}

/// A walked file as plain values.
pub open spec fn file_lines(f: WalkedFile) -> Option<Seq<(Seq<char>, bool)>> {
    match f.lines {
        Some(v) => Some(v@.map_values(|l: (String, bool)| (l.0@, l.1))),
        None => None,
    }
}

/// The walk's state after the first `n` files: the walk stops (marking the
/// result capped) at the first file met once either cap is reached.
pub open spec fn walk_fold(fs: Seq<WalkedFile>, n: int, max_results: nat, max_files: nat) -> SearchState
    decreases n,
{
    if n <= 0 {
        SearchState { hits: seq![], scanned: 0, with_matches: 0, capped: false }
    } else {
        let s = walk_fold(fs, n - 1, max_results, max_files);
        if s.with_matches >= max_files || s.hits.len() >= max_results {
            SearchState { capped: true, ..s }
        } else {
            match file_lines(fs[n - 1]) {
                None => s,
                Some(ls) => lines_fold(
                    SearchState { scanned: s.scanned + 1, ..s },
                    fs[n - 1].path@,
                    ls,
                    ls.len() as int,
                    max_results,
                ).0,
            }
        }
    }
}

proof fn lemma_lines_fold_bounds(st: SearchState, path: Seq<char>, ls: Seq<(Seq<char>, bool)>, n: int, max_results: nat)
    requires
        0 <= n,
        st.hits.len() <= max_results,
    ensures
        lines_fold(st, path, ls, n, max_results).0.hits.len() <= max_results,
        lines_fold(st, path, ls, n, max_results).0.scanned == st.scanned,
        lines_fold(st, path, ls, n, max_results).0.with_matches <= st.with_matches + 1,
        lines_fold(st, path, ls, n, max_results).0.hits.len() >= st.hits.len(),
        !lines_fold(st, path, ls, n, max_results).1 ==> lines_fold(st, path, ls, n, max_results).0.with_matches == st.with_matches,
    decreases n,
{
    if n > 0 {
        lemma_lines_fold_bounds(st, path, ls, n - 1, max_results);
    }
}

proof fn lemma_walk_fold_bounds(fs: Seq<WalkedFile>, n: int, max_results: nat, max_files: nat)
    requires
        0 <= n,
    ensures
        walk_fold(fs, n, max_results, max_files).hits.len() <= max_results,
        walk_fold(fs, n, max_results, max_files).scanned <= n,
        walk_fold(fs, n, max_results, max_files).with_matches <= n,
    decreases n,
{
    if n > 0 {
        lemma_walk_fold_bounds(fs, n - 1, max_results, max_files);
        let s = walk_fold(fs, n - 1, max_results, max_files);
        if !(s.with_matches >= max_files || s.hits.len() >= max_results) {
            match file_lines(fs[n - 1]) {
                None => {},
                Some(ls) => {
                    lemma_lines_fold_bounds(
                        SearchState { scanned: s.scanned + 1, ..s },
                        fs[n - 1].path@,
                        ls,
                        ls.len() as int,
                        max_results,
                    );
                },
            }
        }
    }
}

/// What a search kept: its lines, the files read, the files with matches,
/// and whether a cap ended it.
pub struct SearchTally {
    pub hits: Vec<String>,
    pub scanned: usize,
    pub with_matches: usize,
    pub capped: bool,
}

/// Runs the walk's bookkeeping over the files met, in order.
pub fn tally_search(files: &Vec<WalkedFile>, max_results: usize, max_files: usize) -> (r: SearchTally)
    ensures
        ({
            let s = walk_fold(files@, files.len() as int, max_results as nat, max_files as nat);
            &&& r.hits@.map_values(|h: String| h@) == s.hits
            &&& r.scanned == s.scanned
            &&& r.with_matches == s.with_matches
            &&& r.capped == s.capped
        }),
{
    let mut hits: Vec<String> = Vec::new();
    let mut scanned: usize = 0;
    let mut with_matches: usize = 0;
    let mut capped = false;
    let ghost fs = files@;
    let mut i: usize = 0;
    while i < files.len()
        invariant
            i <= files.len(),
            fs == files@,
            ({
                let s = walk_fold(fs, i as int, max_results as nat, max_files as nat);
                &&& hits@.map_values(|h: String| h@) == s.hits
                &&& scanned == s.scanned
                &&& with_matches == s.with_matches
                &&& capped == s.capped
            }),
        decreases files.len() - i,
    {
        proof {
            lemma_walk_fold_bounds(fs, i as int, max_results as nat, max_files as nat);
        }
        if with_matches >= max_files || hits.len() >= max_results {
            capped = true;
        } else {
            match &files[i].lines {
                None => {},
                Some(ls) => {
                    let ghost s0 = walk_fold(fs, i as int, max_results as nat, max_files as nat);
                    let ghost st = SearchState { scanned: s0.scanned + 1, ..s0 };
                    let ghost lv = ls@.map_values(|l: (String, bool)| (l.0@, l.1));
                    scanned = scanned + 1;
                    let mut had = false;
                    let mut k: usize = 0;
                    while k < ls.len()
                        invariant
                            k <= ls.len(),
                            i < files.len(),
                            fs == files@,
                            lv == ls@.map_values(|l: (String, bool)| (l.0@, l.1)),
                            st.hits.len() <= max_results,
                            st.with_matches <= i,
                            ({
                                let (s, h) = lines_fold(st, files@[i as int].path@, lv, k as int, max_results as nat);
                                &&& hits@.map_values(|x: String| x@) == s.hits
                                &&& scanned == s.scanned
                                &&& with_matches == s.with_matches
                                &&& capped == s.capped
                                &&& had == h
                            }),
                        decreases ls.len() - k,
                    {
                        proof {
                            lemma_lines_fold_bounds(st, files@[i as int].path@, lv, k as int, max_results as nat);
                        }
                        if hits.len() >= max_results {
                            capped = true;
                        } else if ls[k].1 {
                            if !had {
                                with_matches = with_matches + 1;
                                had = true;
                            }
                            let mut line = files[i].path.clone();
                            push_str(&mut line, ":");
                            push_dec(&mut line, (k + 1) as u64);
                            push_str(&mut line, ": ");
                            let t = crate::text::trim_string(ls[k].0.as_str());
                            push_str(&mut line, t.as_str());
                            let ghost before = hits@.map_values(|x: String| x@);
                            hits.push(line);
                            assert(hits@.map_values(|x: String| x@) == before.push(
                                hit_line(files@[i as int].path@, (k + 1) as nat, lv[k as int].0),
                            ));
                        }
                        k += 1;
                    }
                },
            }
        }
        i += 1;
    }
    SearchTally { hits, scanned, with_matches, capped }
}

// ───────────────────────── the report ─────────────────────────

/// The report of a search.
pub open spec fn report_s(
    pattern: Seq<char>,
    project: Seq<char>,
    ext: Option<Seq<char>>,
    hits: Seq<Seq<char>>,
    scanned: nat,
    with_matches: nat,
    capped: bool,
    max_results: nat,
    max_files: nat,
) -> Seq<char> {
    if hits.len() == 0 {
        "No matches for `"@ + pattern + "` in `"@ + project + "` ("@ + dec_s(scanned) + " file(s) scanned"@
            + match ext {
            Some(e) => ", filtering *."@ + e,
            None => seq![],
        } + ")."@
    } else {
        "## Exact Search — `"@ + pattern + "`\n_"@ + dec_s(hits.len()) + " match(es) across "@ + dec_s(with_matches)
            + " file(s) ("@ + dec_s(scanned) + " scanned)"@ + match ext {
            Some(e) => " (*."@ + e + ")"@,
            None => seq![],
        } + if capped {
            " ⚠️ Results capped at "@ + dec_s(max_results) + " lines / "@ + dec_s(max_files)
                + " files. Increase max_results or narrow your pattern."@
        } else {
            seq![]
        } + "_\n\n```\n"@ + lines_block(hits) + "```\n"@
    }
}

/// Each of `hits` followed by a newline.
pub open spec fn lines_block(hits: Seq<Seq<char>>) -> Seq<char>
    decreases hits.len(),
{
    if hits.len() == 0 { seq![] } else { lines_block(hits.drop_last()) + hits.last() + "\n"@ }
}

/// The report of a search over `project`.
pub fn search_report(project: &str, p: &SearchParams, t: &SearchTally) -> (r: String)
    ensures
        r@ == report_s(
            p.pattern@,
            project@,
            match p.ext {
                Some(e) => Some(e@),
                None => None,
            },
            t.hits@.map_values(|h: String| h@),
            t.scanned as nat,
            t.with_matches as nat,
            t.capped,
            p.max_results as nat,
            p.max_files as nat,
        ),
{
    let ghost hv = t.hits@.map_values(|h: String| h@);
    let mut out: String;
    if t.hits.len() == 0 {
        out = String::from_str("No matches for `");
        push_str(&mut out, p.pattern.as_str());
        push_str(&mut out, "` in `");
        push_str(&mut out, project);
        push_str(&mut out, "` (");
        push_dec(&mut out, t.scanned as u64);
        push_str(&mut out, " file(s) scanned");
        match &p.ext {
            Some(e) => {
                push_str(&mut out, ", filtering *.");
                push_str(&mut out, e.as_str());
            },
            None => {},
        }
        push_str(&mut out, ").");
        proof {
            assert(hv.len() == 0);
        }
        return out;
    }
    out = String::from_str("## Exact Search — `");
    push_str(&mut out, p.pattern.as_str());
    push_str(&mut out, "`\n_");
    push_dec(&mut out, t.hits.len() as u64);
    push_str(&mut out, " match(es) across ");
    push_dec(&mut out, t.with_matches as u64);
    push_str(&mut out, " file(s) (");
    push_dec(&mut out, t.scanned as u64);
    push_str(&mut out, " scanned)");
    match &p.ext {
        Some(e) => {
            push_str(&mut out, " (*.");
            push_str(&mut out, e.as_str());
            push_str(&mut out, ")");
        },
        None => {},
    }
    if t.capped {
        push_str(&mut out, " ⚠️ Results capped at ");
        push_dec(&mut out, p.max_results as u64);
        push_str(&mut out, " lines / ");
        push_dec(&mut out, p.max_files as u64);
        push_str(&mut out, " files. Increase max_results or narrow your pattern.");
    }
    push_str(&mut out, "_\n\n```\n");
    let ghost head = out@;
    let mut i: usize = 0;
    while i < t.hits.len()
        invariant
            i <= t.hits.len(),
            hv == t.hits@.map_values(|h: String| h@),
            out@ == head + lines_block(hv.take(i as int)),
        decreases t.hits.len() - i,
    {
        push_str(&mut out, t.hits[i].as_str());
        push_str(&mut out, "\n");
        assert(hv.take(i + 1).drop_last() == hv.take(i as int));
        assert(hv.take(i + 1).last() == t.hits@[i as int]@);
        i += 1;
    }
    assert(hv.take(t.hits.len() as int) == hv);
    push_str(&mut out, "```\n");
    out
}

} // verus!
