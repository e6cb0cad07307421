//! Symbol-addressed source edits: the edit records, finding where a
//! decorated declaration really starts, and applying edits to a source.
use vstd::prelude::*;
use crate::path::{split_bounds, split_s};
use crate::text::{
    byte_len, byte_len_of, char_width, chars_of, ends_with_s, lemma_byte_len_add, lemma_byte_len_mono,
    lemma_byte_len_push, lemma_byte_len_take, lemma_char_width_pos, lemma_str_len, skip_ws_forward,
    trim_bounds, trim_s, trim_start_s,
};
use crate::z4::{count_char, lemma_next_nl, line_text, lines_from, lines_s, next_nl};
use crate::act::lines_of;
use crate::sort::{count_desc, is_perm, sorted_by, stable_by};
use crate::z4::slice_chars;

verus! {

/// A symbol found in a source file, with its byte range.
pub struct Symbol {
    pub name: String,
    pub kind: String,
    pub start_byte: usize,
    pub end_byte: usize,
}

/// One edit addressed to a symbol (`class:Auth`, `function:login`, or a bare name).
#[derive(Clone, Debug)]
pub struct AstEdit {
    pub target: String,
    /// `replace` or `delete`.
    pub action: String,
    pub code: String,
}

/// The outcome of planning edits on one file, before anything is written.
#[derive(Clone, Debug)]
pub struct PlannedAstEdit {
    pub file_path: String,
    pub updated_source: String,
    pub edit_count: usize,
    pub message: String,
}

// ───────────────────────── decorators ─────────────────────────

/// Whether a line is a decorator line: once its leading blanks are dropped it starts with `@`.
pub open spec fn is_decorator_line(line: Seq<char>) -> bool {
    let t = trim_start_s(line);
    t.len() > 0 && t[0] == '@'
}

/// Bytes of the run of decorator lines that ends at line `i` (each counted
/// with the line feed after it), walking up from `i`.
pub open spec fn decorator_bytes(lines: Seq<Seq<char>>, i: int) -> nat
    decreases i + 1,
{
    if i < 0 || i >= lines.len() {
        0
    } else if is_decorator_line(lines[i]) {
        byte_len(lines[i]) + 1 + decorator_bytes(lines, i - 1)
    } else {
        0
    }
}

/// `a.saturating_sub(b)`.
pub open spec fn sat_sub(a: nat, b: nat) -> nat {
    if a >= b {
        (a - b) as nat
    } else {
        0
    }
}

/// Where a declaration that starts at character `c` (byte `def_start`) of
/// `s` really starts once the decorator lines right above it are included.
pub open spec fn backtrack_s(s: Seq<char>, c: int, def_start: nat) -> nat {
    if c == 0 {
        def_start
    } else {
        let lines = split_s(s.take(c), '\n');
        let from = if lines.len() >= 2 {
            lines.len() - 2
        } else {
            0
        };
        sat_sub(def_start, decorator_bytes(lines, from))
    }
}

pub proof fn lemma_byte_len_sub(s: Seq<char>, i: int, j: int)
    requires
        0 <= i <= j <= s.len(),
    ensures
        byte_len(s.subrange(i, j)) <= byte_len(s),
{
    assert(s.take(i) + s.subrange(i, j) == s.take(j));
    lemma_byte_len_add(s.take(i), s.subrange(i, j));
    lemma_byte_len_mono(s, i, j);
}

/// The character index whose byte offset in `v` is `b`.
fn char_index_of_byte(v: &[char], b: usize) -> (c: usize)
    requires
        exists|k: int| 0 <= k <= v.len() && byte_len(v@.take(k)) == b,
    ensures
        c <= v.len(),
        byte_len(v@.take(c as int)) == b,
{
    let ghost k0 = choose|k: int| 0 <= k <= v.len() && byte_len(v@.take(k)) == b;
    let mut c: usize = 0;
    let mut n: usize = 0;
    proof {
        lemma_byte_len_mono(v@, 0, k0);
        assert(v@.take(0).len() == 0);
    }
    while n < b
        invariant
            0 <= k0 <= v.len(),
            byte_len(v@.take(k0)) == b,
            c <= k0,
            n == byte_len(v@.take(c as int)),
            n <= b,
        decreases k0 - c,
    {
        proof {
            if c == k0 {
                assert(false);
            }
            lemma_byte_len_take(v@, c as int);
            lemma_byte_len_mono(v@, c + 1, k0);
        }
        n = n + char_width(v[c]);
        c += 1;
    }
    proof {
        if c < k0 {
            lemma_byte_len_take(v@, c as int);
            lemma_byte_len_mono(v@, c + 1, k0);
            assert(false);
        }
    }
    c
}

/// Moves a declaration start (a byte offset of `source`) up over the
/// decorator lines (`@app.get("/")`, `@Injectable()`) directly above it, so
/// that replacing the declaration also replaces its decorators.
pub fn backtrack_decorators(source: &str, def_start: usize) -> (r: usize)
    requires
        byte_len(source@) <= usize::MAX,
        exists|k: int| 0 <= k <= source@.len() && byte_len(source@.take(k)) == def_start,
    ensures
        r <= def_start,
        exists|k: int|
            0 <= k <= source@.len() && byte_len(source@.take(k)) == def_start && r == backtrack_s(
                source@,
                k,
                def_start as nat,
            ),
{
    let v = chars_of(source);
    let c = char_index_of_byte(&v, def_start);
    if c == 0 {
        assert(backtrack_s(source@, 0, def_start as nat) == def_start);
        return def_start;
    }
    let pre = slice_chars(&v, 0, c);
    assert(pre@ == v@.take(c as int));
    let parts = split_bounds(&pre, '\n');
    let ghost lines = split_s(pre@, '\n');
    let n = parts.len();
    let mut i: usize = if n >= 2 {
        n - 2
    } else {
        0
    };
    let ghost from = i as int;
    let ghost mut acc: nat = 0;
    let mut extra: usize = 0;
    let mut done = false;
    proof {
        crate::path::lemma_split_len(pre@, '\n');
    }
    while !done
        invariant
            n == lines.len(),
            n >= 1,
            i < n,
            0 <= from < n,
            i <= from,
            parts.len() == n,
            lines == split_s(pre@, '\n'),
            pre@ == v@.take(c as int),
            c <= v.len(),
            byte_len(v@) <= usize::MAX,
            forall|k: int|
                0 <= k < parts.len() ==> {
                    let (a, b) = #[trigger] parts@[k];
                    &&& a <= b <= pre.len()
                    &&& pre@.subrange(a as int, b as int) == lines[k]
                },
            !done ==> acc + decorator_bytes(lines, i as int) == decorator_bytes(lines, from),
            done ==> acc == decorator_bytes(lines, from),
            extra == (if acc > usize::MAX {
                usize::MAX as nat
            } else {
                acc
            }),
        decreases i + (if done {
            0int
        } else {
            1int
        }),
    {
        let (a, b) = parts[i];
        let s = skip_ws_forward(&pre, a, b);
        assert(pre@.subrange(a as int, b as int) == lines[i as int]);
        if s < b && pre[s] == '@' {
            assert(is_decorator_line(lines[i as int]));
            assert(decorator_bytes(lines, i as int) == byte_len(lines[i as int]) + 1
                + decorator_bytes(lines, i - 1));
            assert(decorator_bytes(lines, -1) == 0);
            let line = slice_chars(&pre, a, b);
            proof {
                lemma_byte_len_sub(pre@, a as int, b as int);
                lemma_byte_len_mono(v@, c as int, c as int);
                acc = acc + byte_len(lines[i as int]) + 1;
            }
            let w = byte_len_of(&line);
            let add = if w == usize::MAX {
                usize::MAX
            } else {
                w + 1
            };
            extra = if usize::MAX - extra < add {
                usize::MAX
            } else {
                extra + add
            };
            if i == 0 {
                done = true;
            } else {
                i -= 1;
            }
        } else {
            assert(!is_decorator_line(lines[i as int]));
            assert(decorator_bytes(lines, i as int) == 0);
            done = true;
        }
    }
    let r = if extra >= def_start {
        0
    } else {
        def_start - extra
    };
    assert(r == backtrack_s(source@, c as int, def_start as nat));
    r
}

// ───────────────────────── applying edits ─────────────────────────

/// `b` is a byte offset of `v` that falls between two characters (or at an end).
pub open spec fn is_char_offset(v: Seq<char>, b: int) -> bool {
    exists|k: int| 0 <= k <= v.len() && byte_len(v.take(k)) == b
}

/// How many characters of `v` come before byte offset `b`.
pub open spec fn char_index(v: Seq<char>, b: int) -> int {
    choose|k: int| 0 <= k <= v.len() && byte_len(v.take(k)) == b
}

/// The text an edit puts where its symbol was: nothing for `delete`, its code otherwise.
pub open spec fn replacement_s(e: AstEdit) -> Seq<char> {
    if e.action@ == "delete"@ {
        Seq::empty()
    } else {
        e.code@
    }
}

/// What goes between a replacement and the text after it: a blank line when
/// the replacement does not end its last line; a line feed when it ends it
/// but not with a blank line and the text after does not start a new line.
pub open spec fn separator_s(rep: Seq<char>, suffix: Seq<char>) -> Seq<char> {
    if rep.len() > 0 && rep.last() != '\n' {
        seq!['\n', '\n']
    } else if rep.len() > 0 && !ends_with_s(rep, seq!['\n', '\n']) && !(suffix.len() > 0 && suffix[0]
        == '\n') {
        seq!['\n']
    } else {
        Seq::empty()
    }
}

/// `v` with the bytes `start..end` replaced as edit `e` says.
pub open spec fn apply_edit_s(v: Seq<char>, start: int, end: int, e: AstEdit) -> Seq<char> {
    let rep = replacement_s(e);
    let suffix = v.skip(char_index(v, end));
    v.take(char_index(v, start)) + rep + separator_s(rep, suffix) + suffix
}

/// Every operation, applied in turn, addresses offsets between characters.
pub open spec fn edits_apply(v: Seq<char>, ops: Seq<(usize, usize, AstEdit)>) -> bool
    decreases ops.len(),
{
    ops.len() == 0 || (is_char_offset(v, ops[0].0 as int) && is_char_offset(v, ops[0].1 as int)
        && edits_apply(apply_edit_s(v, ops[0].0 as int, ops[0].1 as int, ops[0].2), ops.drop_first()))
}

/// `v` after the operations, applied in turn.
pub open spec fn rendered_s(v: Seq<char>, ops: Seq<(usize, usize, AstEdit)>) -> Seq<char>
    decreases ops.len(),
{
    if ops.len() == 0 {
        v
    } else {
        rendered_s(apply_edit_s(v, ops[0].0 as int, ops[0].1 as int, ops[0].2), ops.drop_first())
    }
}

proof fn lemma_char_index_unique(v: Seq<char>, b: int, k: int)
    requires
        0 <= k <= v.len(),
        byte_len(v.take(k)) == b,
    ensures
        is_char_offset(v, b),
        char_index(v, b) == k,
{
    let c = char_index(v, b);
    if c < k {
        crate::text::lemma_byte_len_strict(v, c, k);
    } else if c > k {
        crate::text::lemma_byte_len_strict(v, k, c);
    }
}

/// An edit leaves the text before its start alone: every offset up to the
/// start still falls between the same characters, with the same text before
/// it, so edits applied latest-first each find their symbol where the source had it.
pub proof fn law_edit_keeps_earlier_offsets(v: Seq<char>, start: int, end: int, e: AstEdit, b: int)
    requires
        is_char_offset(v, start),
        is_char_offset(v, end),
        is_char_offset(v, b),
        b <= start,
    ensures
        is_char_offset(apply_edit_s(v, start, end, e), b),
        char_index(apply_edit_s(v, start, end, e), b) == char_index(v, b),
        apply_edit_s(v, start, end, e).take(char_index(v, b)) == v.take(char_index(v, b)),
{
    let kb = char_index(v, b);
    let ks = char_index(v, start);
    if kb > ks {
        crate::text::lemma_byte_len_strict(v, ks, kb);
    }
    let w = apply_edit_s(v, start, end, e);
    assert(w.take(kb) == v.take(kb)) by {
        assert(w.take(ks as int) == v.take(ks as int));
    }
    lemma_char_index_unique(w, b, kb);
}

fn char_index_exec(v: &Vec<char>, b: usize) -> (r: usize)
    requires
        is_char_offset(v@, b as int),
    ensures
        r == char_index(v@, b as int),
        r <= v.len(),
        byte_len(v@.take(r as int)) == b,
{
    let ghost target = char_index(v@, b as int);
    let mut used: usize = 0;
    let mut k: usize = 0;
    while k < v.len() && used < b
        invariant
            0 <= target <= v.len(),
            byte_len(v@.take(target)) == b,
            k <= target,
            used == byte_len(v@.take(k as int)),
        decreases v.len() - k,
    {
        proof {
            lemma_byte_len_take(v@, k as int);
            if k + 1 <= target {
                lemma_byte_len_mono(v@, k + 1, target);
            } else {
                crate::text::lemma_byte_len_strict(v@, k as int, target);
            }
        }
        used += char_width(v[k]);
        k += 1;
    }
    proof {
        if k < target {
            crate::text::lemma_byte_len_strict(v@, k as int, target);
        }
    }
    k
}

fn seq_of(v: &Vec<char>, a: usize, b: usize, out: &mut Vec<char>)
    requires
        a <= b <= v.len(),
    ensures
        final(out)@ == old(out)@ + v@.subrange(a as int, b as int),
{
    let ghost start = out@;
    let mut i = a;
    while i < b
        invariant
            a <= i <= b <= v.len(),
            out@ == start + v@.subrange(a as int, i as int),
        decreases b - i,
    {
        out.push(v[i]);
        i += 1;
        assert(v@.subrange(a as int, i as int) == v@.subrange(a as int, i - 1).push(v@[i - 1]));
    }
}

fn apply_edit(v: &Vec<char>, start: usize, end: usize, e: &AstEdit) -> (r: Vec<char>)
    requires
        is_char_offset(v@, start as int),
        is_char_offset(v@, end as int),
    ensures
        r@ == apply_edit_s(v@, start as int, end as int, *e),
{
    let ks = char_index_exec(v, start);
    let ke = char_index_exec(v, end);
    let del = chars_of("delete");
    let act = chars_of(e.action.as_str());
    let rep: Vec<char> = if crate::text::chars_eq(act.as_slice(), del.as_slice()) {
        Vec::new()
    } else {
        chars_of(e.code.as_str())
    };
    assert(rep@ == replacement_s(*e));
    let mut out: Vec<char> = Vec::new();
    seq_of(v, 0, ks, &mut out);
    let ghost prefix = out@;
    let n = rep.len();
    seq_of(&rep, 0, n, &mut out);
    assert(rep@.subrange(0, n as int) == rep@);
    let ghost suffix = v@.skip(ke as int);
    let suffix_starts_line = ke < v.len() && v[ke] == '\n';
    proof {
        if ke < v.len() {
            assert(suffix[0] == v@[ke as int]);
        }
    }
    if n > 0 && rep[n - 1] != '\n' {
        out.push('\n');
        out.push('\n');
    } else if n > 0 && !(n >= 2 && rep[n - 2] == '\n') && !suffix_starts_line {
        proof {
            if n >= 2 {
                assert(rep@.skip(n - 2) =~= seq![rep@[n - 2], rep@[n - 1]]);
            }
        }
        out.push('\n');
    } else {
        proof {
            if n >= 2 && rep@[n - 2] == '\n' {
                assert(rep@.skip(n - 2) =~= seq!['\n', '\n']);
            }
        }
    }
    let ghost sep = separator_s(rep@, suffix);
    assert(out@ == v@.take(ks as int) + rep@ + sep) by {
        assert(v@.subrange(0, ks as int) == v@.take(ks as int));
        if n >= 2 {
            assert(rep@.skip(n - 2).len() == 2);
        }
    }
    let len = v.len();
    seq_of(v, ke, len, &mut out);
    assert(v@.subrange(ke as int, len as int) == suffix);
    out
}

/// The source after the edit operations `(start byte, end byte, edit)`, each
/// applied in turn to the text the previous ones left.
pub fn render_ast_edits(current_source: &str, operations: &Vec<(usize, usize, AstEdit)>) -> (r: String)
    requires
        edits_apply(current_source@, operations@),
    ensures
        r@ == rendered_s(current_source@, operations@),
{
    let mut v = chars_of(current_source);
    let mut i: usize = 0;
    assert(operations@.skip(0) == operations@);
    while i < operations.len()
        invariant
            i <= operations.len(),
            edits_apply(v@, operations@.skip(i as int)),
            rendered_s(v@, operations@.skip(i as int)) == rendered_s(current_source@, operations@),
        decreases operations.len() - i,
    {
        let ghost rest = operations@.skip(i as int);
        assert(rest[0] == operations@[i as int]);
        assert(rest.drop_first() == operations@.skip(i + 1));
        let op = &operations[i];
        v = apply_edit(&v, op.0, op.1, &op.2);
        i += 1;
    }
    assert(operations@.skip(operations.len() as int) == Seq::<(usize, usize, AstEdit)>::empty());
    crate::text::string_of(v.as_slice())
}

/// The first symbol that edit target `target` names: `kind:name` or the bare name.
pub open spec fn target_symbol(symbols: Seq<Symbol>, target: Seq<char>, n: int) -> Option<int>
    decreases n,
{
    if n <= 0 {
        None
    } else {
        match target_symbol(symbols, target, n - 1) {
            Some(k) => Some(k),
            None => if target == symbols[n - 1].kind@ + ":"@ + symbols[n - 1].name@ || target
                == symbols[n - 1].name@ {
                Some(n - 1)
            } else {
                None
            },
        }
    }
}

/// The error for an edit whose target names no symbol.
pub open spec fn target_not_found_msg(target: Seq<char>) -> Seq<char> {
    "AST target not found in source: '"@ + target
        + "'. Use `map_overview` first to discover symbol names."@
}

/// The first edit among the first `n` whose target names no symbol.
pub open spec fn first_unmatched(symbols: Seq<Symbol>, edits: Seq<AstEdit>, n: int) -> Option<int>
    decreases n,
{
    if n <= 0 {
        None
    } else {
        match first_unmatched(symbols, edits, n - 1) {
            Some(j) => Some(j),
            None => if target_symbol(symbols, edits[n - 1].target@, symbols.len() as int) is None {
                Some(n - 1)
            } else {
                None
            },
        }
    }
}

/// The start byte of the symbol edit `j` names.
pub open spec fn edit_start(symbols: Seq<Symbol>, edits: Seq<AstEdit>, j: int) -> usize {
    symbols[target_symbol(symbols, edits[j].target@, symbols.len() as int).unwrap()].start_byte
}

/// The end byte of the symbol edit `j` names.
pub open spec fn edit_end(symbols: Seq<Symbol>, edits: Seq<AstEdit>, j: int) -> usize {
    symbols[target_symbol(symbols, edits[j].target@, symbols.len() as int).unwrap()].end_byte
}

/// The start bytes of the symbols the edits name, edit by edit.
pub open spec fn edit_starts(symbols: Seq<Symbol>, edits: Seq<AstEdit>) -> Seq<usize> {
    Seq::new(edits.len(), |j: int| edit_start(symbols, edits, j))
}

fn target_matches(s: &Symbol, target: &String) -> (r: bool)
    ensures
        r == (target@ == s.kind@ + ":"@ + s.name@ || target@ == s.name@),
{
    let mut full = String::new();
    crate::text::push_str(&mut full, s.kind.as_str());
    crate::text::push_str(&mut full, ":");
    crate::text::push_str(&mut full, s.name.as_str());
    *target == full || *target == s.name
}

fn find_target(symbols: &Vec<Symbol>, target: &String) -> (r: Option<usize>)
    ensures
        r matches Some(k) ==> k < symbols.len(),
        match target_symbol(symbols@, target@, symbols.len() as int) {
            Some(k) => r == Some(k as usize),
            None => r is None,
        },
{
    let mut i: usize = 0;
    while i < symbols.len()
        invariant
            i <= symbols.len(),
            target_symbol(symbols@, target@, i as int) is None,
        decreases symbols.len() - i,
    {
        if target_matches(&symbols[i], target) {
            proof {
                lemma_target_symbol_from(symbols@, target@, i as int + 1, symbols.len() as int);
            }
            return Some(i);
        }
        i += 1;
    }
    None
}

proof fn lemma_target_symbol_range(symbols: Seq<Symbol>, target: Seq<char>, n: int)
    ensures
        target_symbol(symbols, target, n) matches Some(k) ==> 0 <= k < n,
    decreases n,
{
    if n > 0 {
        lemma_target_symbol_range(symbols, target, n - 1);
    }
}

proof fn lemma_target_symbol_from(symbols: Seq<Symbol>, target: Seq<char>, m: int, n: int)
    requires
        0 <= m <= n,
        target_symbol(symbols, target, m) is Some,
    ensures
        target_symbol(symbols, target, n) == target_symbol(symbols, target, m),
    decreases n - m,
{
    if m < n {
        lemma_target_symbol_from(symbols, target, m, n - 1);
    }
}

/// The edit operations `(start byte, end byte, edit)` for `edits` on a source
/// with `symbols`, latest start first (so each edit leaves the offsets of the
/// next ones in place; edits with equal starts keep their order); an error
/// for the first edit whose target names no symbol.
pub fn collect_ast_operations(symbols: &Vec<Symbol>, edits: &Vec<AstEdit>) -> (r: Result<
    Vec<(usize, usize, AstEdit)>,
    String,
>)
    ensures
        match first_unmatched(symbols@, edits@, edits.len() as int) {
            Some(j) => r matches Err(e) && e@ == target_not_found_msg(edits@[j].target@),
            None => r matches Ok(ops) && ops.len() == edits.len() && exists|p: Seq<usize>|
                {
                    &&& is_perm(p, edits.len() as nat)
                    &&& sorted_by(p, count_desc(edit_starts(symbols@, edits@)))
                    &&& stable_by(p, count_desc(edit_starts(symbols@, edits@)))
                    &&& forall|k: int|
                        0 <= k < ops.len() ==> #[trigger] ops@[k] == (
                            edit_start(symbols@, edits@, p[k] as int),
                            edit_end(symbols@, edits@, p[k] as int),
                            edits@[p[k] as int],
                        )
                }
        },
{
    let mut starts: Vec<usize> = Vec::new();
    let mut ends: Vec<usize> = Vec::new();
    let mut j: usize = 0;
    while j < edits.len()
        invariant
            j <= edits.len(),
            first_unmatched(symbols@, edits@, j as int) is None,
            starts.len() == j,
            ends.len() == j,
            forall|q: int| 0 <= q < j ==> #[trigger] starts@[q] == edit_start(symbols@, edits@, q),
            forall|q: int| 0 <= q < j ==> #[trigger] ends@[q] == edit_end(symbols@, edits@, q),
        decreases edits.len() - j,
    {
        match find_target(symbols, &edits[j].target) {
            None => {
                proof {
                    lemma_first_unmatched_from(symbols@, edits@, j as int + 1, edits.len() as int);
                }
                let mut m = String::new();
                crate::text::push_str(&mut m, "AST target not found in source: '");
                crate::text::push_str(&mut m, edits[j].target.as_str());
                crate::text::push_str(&mut m, "'. Use `map_overview` first to discover symbol names.");
                return Err(m);
            },
            Some(k) => {
                proof {
                    lemma_target_symbol_range(symbols@, edits@[j as int].target@, symbols.len() as int);
                    assert(edit_start(symbols@, edits@, j as int) == symbols@[k as int].start_byte);
                    assert(edit_end(symbols@, edits@, j as int) == symbols@[k as int].end_byte);
                }
                starts.push(symbols[k].start_byte);
                ends.push(symbols[k].end_byte);
            },
        }
        j += 1;
    }
    assert(starts@ =~= edit_starts(symbols@, edits@));
    let p = crate::sort::sort_perm_counts_desc(&starts);
    let mut ops: Vec<(usize, usize, AstEdit)> = Vec::new();
    let mut m: usize = 0;
    while m < p.len()
        invariant
            m <= p.len() == edits.len() == starts.len() == ends.len(),
            is_perm(p@, edits.len() as nat),
            forall|q: int| 0 <= q < edits.len() ==> #[trigger] starts@[q] == edit_start(symbols@, edits@, q),
            forall|q: int| 0 <= q < edits.len() ==> #[trigger] ends@[q] == edit_end(symbols@, edits@, q),
            ops.len() == m,
            forall|q: int|
                0 <= q < m ==> #[trigger] ops@[q] == (
                    edit_start(symbols@, edits@, p@[q] as int),
                    edit_end(symbols@, edits@, p@[q] as int),
                    edits@[p@[q] as int],
                ),
        decreases p.len() - m,
    {
        let k = p[m];
        let e = &edits[k];
        let copy = AstEdit { target: e.target.clone(), action: e.action.clone(), code: e.code.clone() };
        ops.push((starts[k], ends[k], copy));
        m += 1;
    }
    Ok(ops)
}

proof fn lemma_first_unmatched_from(symbols: Seq<Symbol>, edits: Seq<AstEdit>, m: int, n: int)
    requires
        0 <= m <= n,
        first_unmatched(symbols, edits, m) is Some,
    ensures
        first_unmatched(symbols, edits, n) == first_unmatched(symbols, edits, m),
    decreases n - m,
{
    if m < n {
        lemma_first_unmatched_from(symbols, edits, m, n - 1);
    }
}


// ───────────────────────── block ends ─────────────────────────

/// A character that opens a string or character literal for the brace scan.
pub open spec fn is_quote(c: char) -> bool {
    c == '"' || c == '\'' || c == '`'
}

/// One step of the brace scan over a character: the brace depth, the open
/// quote (if inside a literal) and the previous character.
pub open spec fn scan_step(st: (nat, Option<char>, char), ch: char) -> (nat, Option<char>, char) {
    match st.1 {
        Some(d) => (
            st.0,
            if ch == d && st.2 != '\\' {
                None
            } else {
                Some(d)
            },
            ch,
        ),
        None => if is_quote(ch) {
            (st.0, Some(ch), ch)
        } else if ch == '{' {
            (st.0 + 1, None, ch)
        } else if ch == '}' && st.0 > 0 {
            ((st.0 - 1) as nat, None, ch)
        } else {
            (st.0, None, ch)
        },
    }
}

/// The brace scan's state after the first `n` characters of `s`.
pub open spec fn scan_state(s: Seq<char>, n: int) -> (nat, Option<char>, char)
    decreases n,
{
    if n <= 0 || n > s.len() {
        (0, None, '\0')
    } else {
        scan_step(scan_state(s, n - 1), s[n - 1])
    }
}

/// Whether character `i` of `s` is the `}` that closes the first block.
pub open spec fn closes_at(s: Seq<char>, i: int) -> bool {
    let st = scan_state(s, i);
    st.1 is None && s[i] == '}' && st.0 == 1
}

/// The first index from `i` on where the first block closes.
pub open spec fn first_close(s: Seq<char>, i: int) -> Option<int>
    decreases s.len() - i,
{
    if i < 0 || i >= s.len() {
        None
    } else if closes_at(s, i) {
        Some(i)
    } else {
        first_close(s, i + 1)
    }
}

/// The index of the first `c` in `s` from `i` on.
pub open spec fn first_of(s: Seq<char>, c: char, i: int) -> Option<int>
    decreases s.len() - i,
{
    if i < 0 || i >= s.len() {
        None
    } else if s[i] == c {
        Some(i)
    } else {
        first_of(s, c, i + 1)
    }
}

/// The bytes of a line's leading blanks.
pub open spec fn lead_bytes(l: Seq<char>) -> int {
    byte_len(l) - byte_len(trim_start_s(l))
}

/// Whether a line is blank.
pub open spec fn is_blank(l: Seq<char>) -> bool {
    trim_s(l).len() == 0
}

/// The indentation scan from line `k` on: `pos` is the offset after line
/// `k - 1` (each line counted with one byte for its line feed) and `last`
/// the offset after the last non-blank line so far; the block ends at the
/// first non-blank line indented no deeper than `base`.
pub open spec fn indent_scan(ls: Seq<Seq<char>>, base: int, k: int, pos: int, last: int) -> int
    decreases ls.len() - k,
{
    if k < 1 || k >= ls.len() {
        last
    } else {
        let l = ls[k];
        if !is_blank(l) && lead_bytes(l) <= base {
            last
        } else {
            let p2 = pos + byte_len(l) + 1;
            indent_scan(ls, base, k + 1, p2, if is_blank(l) { last } else { p2 })
        }
    }
}

/// Where an indentation-delimited block at the start of `s` ends: after its
/// last non-blank line deeper than the first line, at most the end of `s`.
pub open spec fn indent_block_end(s: Seq<char>) -> nat {
    let ls = lines_s(s);
    if ls.len() == 0 {
        byte_len(s)
    } else {
        let p = byte_len(ls[0]) as int + 1;
        let e = indent_scan(ls, lead_bytes(ls[0]), 1, p, p);
        if e < byte_len(s) {
            e as nat
        } else {
            byte_len(s)
        }
    }
}

/// Where the first top-level block at the start of `s` ends (a byte
/// offset): when a `{` stands within the first four lines, just after the
/// `}` that closes it (skipping quoted literals), or the end of `s` when
/// none does; else where its indentation ends.
pub open spec fn find_block_end_s(s: Seq<char>) -> nat {
    match first_of(s, '{', 0) {
        Some(b) => if count_char(s.take(b), '\n') <= 3 {
            match first_close(s, 0) {
                Some(i) => byte_len(s.take(i + 1)),
                None => byte_len(s),
            }
        } else {
            indent_block_end(s)
        },
        None => indent_block_end(s),
    }
}

/// The bytes `str::lines` accounts for: each line with one byte for its line feed.
pub open spec fn lines_bytes(ls: Seq<Seq<char>>) -> int
    decreases ls.len(),
{
    if ls.len() == 0 {
        0
    } else {
        lines_bytes(ls.drop_last()) + byte_len(ls.last()) + 1
    }
}

proof fn lemma_lines_bytes_cons(a: Seq<char>, rest: Seq<Seq<char>>)
    ensures
        lines_bytes(seq![a] + rest) == byte_len(a) + 1 + lines_bytes(rest),
    decreases rest.len(),
{
    if rest.len() > 0 {
        assert((seq![a] + rest).drop_last() == seq![a] + rest.drop_last());
        assert((seq![a] + rest).last() == rest.last());
        lemma_lines_bytes_cons(a, rest.drop_last());
    } else {
        assert(seq![a] + rest == seq![a]);
        assert(seq![a].drop_last().len() == 0);
        assert(seq![a].last() == a);
        assert(lines_bytes(seq![a].drop_last()) == 0);
    }
}

proof fn lemma_lines_bytes_prefix(ls: Seq<Seq<char>>, k: int)
    requires
        0 <= k <= ls.len(),
    ensures
        lines_bytes(ls.take(k)) <= lines_bytes(ls),
    decreases ls.len(),
{
    if k < ls.len() {
        assert(ls.drop_last().take(k) == ls.take(k));
        lemma_lines_bytes_prefix(ls.drop_last(), k);
    } else {
        assert(ls.take(k) == ls);
    }
}

proof fn lemma_lines_budget(s: Seq<char>, i: int)
    requires
        0 <= i <= s.len(),
    ensures
        lines_bytes(lines_from(s, i)) <= byte_len(s.skip(i)) + 1,
    decreases s.len() - i,
{
    if i < s.len() {
        lemma_next_nl(s, i);
        let e = next_nl(s, i);
        let line = line_text(s, i);
        let rest = lines_from(s, e + 1);
        assert(lines_from(s, i) == seq![line] + rest);
        lemma_lines_bytes_cons(line, rest);
        let t: int = if e < s.len() && e > i && s[e - 1] == '\r' {
            e - 1
        } else {
            e
        };
        assert(line == s.subrange(i, t));
        assert(s.skip(i) == s.subrange(i, t) + s.subrange(t, e) + s.skip(e));
        lemma_byte_len_add(s.subrange(i, t) + s.subrange(t, e), s.skip(e));
        lemma_byte_len_add(s.subrange(i, t), s.subrange(t, e));
        if e < s.len() {
            lemma_lines_budget(s, e + 1);
            assert(s.skip(e) == seq![s[e]] + s.skip(e + 1));
            lemma_byte_len_add(seq![s[e]], s.skip(e + 1));
            lemma_byte_len_push(Seq::<char>::empty(), s[e]);
            assert(Seq::<char>::empty().push(s[e]) == seq![s[e]]);
            lemma_char_width_pos(s[e]);
        } else {
            assert(rest.len() == 0);
        }
    }
}

/// Bytes of the leading blanks of `l` and whether `l` is blank.
fn line_shape(l: &Vec<char>) -> (r: (usize, bool))
    requires
        byte_len(l@) <= usize::MAX,
    ensures
        r.0 == lead_bytes(l@),
        r.1 == is_blank(l@),
{
    let (a, b) = trim_bounds(l, 0, l.len());
    assert(l@.subrange(0, l.len() as int) == l@);
    let head = slice_chars(l, 0, a);
    proof {
        assert(l@ == head@ + l@.subrange(a as int, l.len() as int));
        lemma_byte_len_add(head@, l@.subrange(a as int, l.len() as int));
    }
    (byte_len_of(&head), a == b)
}

/// Where the first top-level block at the start of `src` ends, as a byte
/// offset: for a brace-delimited block (a `{` within the first four lines)
/// just after the `}` that closes it, skipping quoted literals, or the end of
/// `src` if it never closes; for an indentation-delimited block after its
/// last line indented deeper than its first.
pub fn find_block_end(src: &str) -> (r: usize)
    ensures
        r == find_block_end_s(src@),
{
    let total = src.as_bytes().len();
    proof {
        lemma_str_len(src);
    }
    let v = chars_of(src);
    // ── brace-delimited ──
    let mut b: usize = 0;
    while b < v.len() && v[b] != '{'
        invariant
            b <= v.len(),
            first_of(v@, '{', 0) == first_of(v@, '{', b as int),
        decreases v.len() - b,
    {
        b += 1;
    }
    if b < v.len() {
        let mut nl: usize = 0;
        let mut j: usize = 0;
        while j < b
            invariant
                j <= b < v.len(),
                nl == count_char(v@.take(j as int), '\n'),
                nl <= j,
            decreases b - j,
        {
            assert(v@.take(j + 1).drop_last() == v@.take(j as int));
            if v[j] == '\n' {
                nl += 1;
            }
            j += 1;
        }
        assert(v@.take(j as int) == v@.take(b as int));
        assert(first_of(v@, '{', b as int) == Some(b as int));
        if nl <= 3 {
            let mut depth: usize = 0;
            let mut quote: Option<char> = None;
            let mut prev: char = '\0';
            let mut bytes: usize = 0;
            let mut i: usize = 0;
            while i < v.len()
                invariant
                    i <= v.len(),
                    (depth as nat, quote, prev) == scan_state(v@, i as int),
                    depth <= i,
                    bytes == byte_len(v@.take(i as int)),
                    byte_len(v@) == total,
                    v@ == src@,
                    first_close(v@, 0) == first_close(v@, i as int),
                    first_of(v@, '{', 0) == Some(b as int),
                    count_char(v@.take(b as int), '\n') <= 3,
                decreases v.len() - i,
            {
                proof {
                    lemma_byte_len_take(v@, i as int);
                    lemma_byte_len_mono(v@, i + 1, i + 1);
                }
                let ch = v[i];
                let w = char_width(ch);
                match quote {
                    Some(d) => {
                        if ch == d && prev != '\\' {
                            quote = None;
                        }
                    },
                    None => {
                        if ch == '"' || ch == '\'' || ch == '`' {
                            quote = Some(ch);
                        } else if ch == '{' {
                            depth += 1;
                        } else if ch == '}' && depth > 0 {
                            if depth == 1 {
                                assert(closes_at(v@, i as int));
                                assert(first_close(v@, i as int) == Some(i as int));
                                assert(first_close(v@, 0) == Some(i as int));
                                assert(bytes + w == byte_len(v@.take(i + 1)));
                                assert(v@ == src@);
                                assert(find_block_end_s(src@) == byte_len(v@.take(i + 1)));
                                return bytes + w;
                            }
                            depth -= 1;
                        }
                    },
                }
                prev = ch;
                bytes = bytes + w;
                i += 1;
            }
            assert(v@.take(v.len() as int) == v@);
            return total;
        }
    }
    // ── indentation-delimited ──
    let ls = lines_of(&v);
    let ghost lv = lines_s(v@);
    assert(ls@.map_values(|l: Vec<char>| l@) == lv);
    if ls.len() == 0 {
        return total;
    }
    proof {
        lemma_lines_budget(v@, 0);
        lemma_lines_bytes_prefix(lv, 1);
        assert(v@.skip(0) == v@);
        assert(lv.take(1) == seq![lv[0]]);
        assert(lv.take(1).drop_last().len() == 0);
        assert(lv.take(1).last() == lv[0]);
        assert(total == byte_len(v@));
        assert(lines_bytes(lv.take(1).drop_last()) == 0);
        assert(lines_bytes(lv.take(1)) == byte_len(lv[0]) + 1);
        assert(lines_bytes(lv) <= total + 1);
        assert(ls@.map_values(|l: Vec<char>| l@)[0] == ls@[0]@);
        assert(lines_bytes(lv.take(1)) <= lines_bytes(lv));
        assert(byte_len(lv[0]) <= total);
        assert(byte_len(ls@[0]@) <= usize::MAX);
        assert(ls@[0]@ == lv[0]);
    }
    let (base, _) = line_shape(&ls[0]);
    let first = byte_len_of(&ls[0]) as u128 + 1;
    let mut pos: u128 = first;
    let mut last: u128 = first;
    let mut k: usize = 1;
    let mut done = false;
    while k < ls.len() && !done
        invariant
            1 <= k <= ls.len(),
            done ==> indent_scan(lv, base as int, k as int, pos as int, last as int) == last,
            ls@.map_values(|l: Vec<char>| l@) == lv,
            lv.len() == ls.len(),
            lv.len() > 0,
            pos == lines_bytes(lv.take(k as int)),
            last <= pos,
            lines_bytes(lv) <= total + 1,
            total <= usize::MAX,
            base == lead_bytes(lv[0]),
            indent_scan(lv, base as int, 1, first as int, first as int) == indent_scan(
                lv,
                base as int,
                k as int,
                pos as int,
                last as int,
            ),
        decreases ls.len() - k + (if done { 0int } else { 1int }),
    {
        assert(ls@[k as int]@ == lv[k as int]);
        proof {
            lemma_lines_bytes_prefix(lv, k + 1);
            assert(lv.take(k + 1).drop_last() == lv.take(k as int));
            assert(lv.take(k + 1).last() == lv[k as int]);
        }
        let (indent, blank) = line_shape(&ls[k]);
        if !blank && indent <= base {
            done = true;
        } else {
            let n = byte_len_of(&ls[k]);
            pos = pos + n as u128 + 1;
            if !blank {
                last = pos;
            }
            k += 1;
        }
    }
    assert(v@ == src@);
    if last < total as u128 {
        last as usize
    } else {
        total
    }
}

} // verus!
