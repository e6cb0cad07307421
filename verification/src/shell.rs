//! Shell command output: escape sequences stripped, streams combined, and
//! the last lines kept.
use vstd::prelude::*;
use vstd::utf8::encode_utf8;
use crate::text::{from_utf8_lossy, push_chars, push_str, trim_s, utf8_lossy};
use crate::z4::{lemma_next_nl, line_text, lines_from, lines_s, next_nl};
use crate::path::{lemma_split_len, split_s};

verus! {

/// What `strip_ansi_escapes::strip` leaves of `bytes`.
pub uninterp spec fn ansi_stripped(bytes: Seq<u8>) -> Seq<u8>;

/// `strip_ansi_escapes::strip` (crate strip-ansi-escapes): the bytes that
/// remain once ANSI escape sequences are removed.  The contract only names
/// the result as a function of the input; which sequences are removed is
/// left to that crate.
#[verifier::external_body]
fn strip_ansi_bytes(bytes: &[u8]) -> (r: Vec<u8>)
    ensures
        r@ == ansi_stripped(bytes@),
{
    strip_ansi_escapes::strip(bytes)
}

/// The text of `s` once ANSI escapes are removed (invalid UTF-8 replaced).
pub open spec fn strip_ansi_s(s: Seq<char>) -> Seq<char> {
    utf8_lossy(ansi_stripped(encode_utf8(s)))
}

/// Removes ANSI escape sequences from command output.
pub fn strip_ansi(input: &str) -> (r: String)
    ensures
        r@ == strip_ansi_s(input@),
{
    let clean = strip_ansi_bytes(input.as_bytes());
    from_utf8_lossy(clean.as_slice())
}

/// Standard output and standard error of a command, escapes removed, joined
/// by a line feed when both hold more than blanks.
pub open spec fn combined_output_s(out: Seq<char>, err: Seq<char>) -> Seq<char> {
    let (eo, ee) = (trim_s(out).len() == 0, trim_s(err).len() == 0);
    if eo && ee {
        seq![]
    } else if !eo && ee {
        out
    } else if eo && !ee {
        err
    } else {
        out + seq!['\n'] + err
    }
}

/// Combines the two output streams of a command.
pub fn combine_output_stripped(stdout: &str, stderr: &str) -> (r: String)
    ensures
        r@ == combined_output_s(strip_ansi_s(stdout@), strip_ansi_s(stderr@)),
{
    let out = strip_ansi(stdout);
    let err = strip_ansi(stderr);
    let eo = crate::text::trim_string(out.as_str());
    let ee = crate::text::trim_string(err.as_str());
    let eo_empty = crate::text::chars_of(eo.as_str()).len() == 0;
    let ee_empty = crate::text::chars_of(ee.as_str()).len() == 0;
    if eo_empty && ee_empty {
        String::new()
    } else if !eo_empty && ee_empty {
        out
    } else if eo_empty && !ee_empty {
        err
    } else {
        let mut r = out;
        push_str(&mut r, "\n");
        push_str(&mut r, err.as_str());
        proof {
            reveal_strlit("\n");
        }
        r
    }
}

/// `lines.join("\n")`.
pub open spec fn join_lines(ls: Seq<Seq<char>>) -> Seq<char>
    decreases ls.len(),
{
    if ls.len() == 0 {
        seq![]
    } else if ls.len() == 1 {
        ls[0]
    } else {
        join_lines(ls.drop_last()) + seq!['\n'] + ls.last()
    }
}

/// The last `max_lines` lines of `text`, joined by line feeds.
pub open spec fn tail_lines_s(text: Seq<char>, max_lines: usize) -> Seq<char> {
    let ls = lines_s(text);
    let start = if ls.len() > max_lines {
        ls.len() - max_lines
    } else {
        0
    };
    join_lines(ls.subrange(start, ls.len() as int))
}

/// Keeps the last `max_lines` lines of a command's output.
pub fn tail_lines(text: &str, max_lines: usize) -> (r: String)
    ensures
        r@ == tail_lines_s(text@, max_lines),
{
    let v = crate::text::chars_of(text);
    let ls = crate::act::lines_of(&v);
    let n = ls.len();
    let start = if n > max_lines {
        n - max_lines
    } else {
        0
    };
    let ghost all = lines_s(text@);
    let mut out = String::new();
    let mut i = start;
    while i < n
        invariant
            start <= i <= n == ls.len(),
            all == lines_s(text@),
            all.len() == n,
            forall|k: int| 0 <= k < n ==> (#[trigger] ls@[k])@ == all[k],
            out@ == join_lines(all.subrange(start as int, i as int)),
        decreases n - i,
    {
        let ghost before = all.subrange(start as int, i as int);
        assert(all.subrange(start as int, i + 1).drop_last() == before);
        if i > start {
            push_str(&mut out, "\n");
            proof {
                reveal_strlit("\n");
            }
        } else {
            assert(before.len() == 0);
        }
        push_chars(&mut out, ls[i].as_slice());
        i += 1;
    }
    out
}

proof fn lemma_lines_have_no_line_feed(s: Seq<char>, i: int)
    requires
        0 <= i,
    ensures
        forall|k: int, j: int|
            0 <= k < lines_from(s, i).len() && 0 <= j < lines_from(s, i)[k].len() ==> #[trigger] lines_from(
                s,
                i,
            )[k][j] != '\n',
    decreases s.len() + 1 - i,
{
    if i < s.len() {
        lemma_next_nl(s, i);
        let e = next_nl(s, i);
        let line = line_text(s, i);
        let rest = lines_from(s, e + 1);
        assert(lines_from(s, i) == seq![line] + rest);
        lemma_lines_have_no_line_feed(s, e + 1);
        assert forall|k: int, j: int|
            0 <= k < lines_from(s, i).len() && 0 <= j < lines_from(s, i)[k].len() implies #[trigger] lines_from(
            s,
            i,
        )[k][j] != '\n' by {
            if k == 0 {
                assert(lines_from(s, i)[0] == line);
            } else {
                assert(lines_from(s, i)[k] == rest[k - 1]);
            }
        }
    }
}

proof fn lemma_split_append(y: Seq<char>, l: Seq<char>, c: char)
    requires
        forall|j: int| 0 <= j < l.len() ==> l[j] != c,
    ensures
        split_s(y + l, c) == split_s(y, c).update(
            split_s(y, c).len() - 1,
            split_s(y, c).last() + l,
        ),
    decreases l.len(),
{
    lemma_split_len(y, c);
    if l.len() == 0 {
        assert(y + l == y);
        assert(split_s(y, c).last() + l == split_s(y, c).last());
        assert(split_s(y, c).update(split_s(y, c).len() - 1, split_s(y, c).last()) =~= split_s(y, c));
    } else {
        lemma_split_append(y, l.drop_last(), c);
        assert((y + l).drop_last() == y + l.drop_last());
        assert((y + l).last() == l.last());
        assert(split_s(y, c).last() + l == (split_s(y, c).last() + l.drop_last()).push(l.last()));
        assert(split_s(y + l, c) =~= split_s(y, c).update(
            split_s(y, c).len() - 1,
            split_s(y, c).last() + l,
        ));
    }
}

proof fn lemma_split_join(ls: Seq<Seq<char>>)
    requires
        ls.len() >= 1,
        forall|k: int, j: int| 0 <= k < ls.len() && 0 <= j < ls[k].len() ==> #[trigger] ls[k][j] != '\n',
    ensures
        split_s(join_lines(ls), '\n') == ls,
    decreases ls.len(),
{
    if ls.len() == 1 {
        lemma_split_append(Seq::<char>::empty(), ls[0], '\n');
        assert(Seq::<char>::empty() + ls[0] == ls[0]);
        assert(split_s(Seq::<char>::empty(), '\n') == seq![Seq::<char>::empty()]);
        assert(split_s(ls[0], '\n') =~= ls);
    } else {
        let front = ls.drop_last();
        lemma_split_join(front);
        let y = join_lines(front) + seq!['\n'];
        assert(y.drop_last() == join_lines(front));
        assert(y.last() == '\n');
        assert(split_s(y, '\n') == front.push(Seq::<char>::empty()));
        assert forall|j: int| 0 <= j < ls.last().len() implies ls.last()[j] != '\n' by {
            assert(ls.last() == ls[ls.len() - 1]);
        }
        lemma_split_append(y, ls.last(), '\n');
        assert(split_s(y + ls.last(), '\n') =~= ls);
    }
}

/// The result of keeping the last `max_lines` lines of a text consists of
/// exactly the text's last lines: split at its line feeds it gives the
/// final `min(n, max_lines)` of the text's `n` lines, in order; so it always
/// ends with the text's last line, and is empty only when nothing is kept.
pub proof fn law_tail_is_the_last_lines(text: Seq<char>, max_lines: usize)
    ensures
        ({
            let ls = lines_s(text);
            let k: int = if ls.len() < max_lines { ls.len() as int } else { max_lines as int };
            &&& k >= 1 ==> split_s(tail_lines_s(text, max_lines), '\n') == ls.subrange(ls.len() - k, ls.len() as int)
            &&& k >= 1 ==> crate::text::ends_with_s(tail_lines_s(text, max_lines), ls.last())
            &&& k == 0 ==> tail_lines_s(text, max_lines).len() == 0
        }),
{
    let ls = lines_s(text);
    let k: int = if ls.len() < max_lines { ls.len() as int } else { max_lines as int };
    let sub = ls.subrange(ls.len() - k, ls.len() as int);
    assert(tail_lines_s(text, max_lines) == join_lines(sub));
    if k >= 1 {
        lemma_lines_have_no_line_feed(text, 0);
        assert forall|q: int, j: int| 0 <= q < sub.len() && 0 <= j < sub[q].len() implies #[trigger] sub[q][j] != '\n' by {
            assert(sub[q] == lines_from(text, 0)[ls.len() - k + q]);
        }
        lemma_split_join(sub);
        let t = join_lines(sub);
        if sub.len() == 1 {
            assert(t == sub[0]);
        } else {
            assert(t == join_lines(sub.drop_last()) + seq!['\n'] + sub.last());
        }
        assert(sub.last() == ls.last());
        assert(t.subrange(t.len() - ls.last().len(), t.len() as int) =~= ls.last());
    } else {
        assert(sub.len() == 0);
    }
}

} // verus!
