//! Lexicographic ordering of texts (the order of `String`'s `Ord`: UTF-8
//! byte order, which is code-point order) and stable insertion sorts, under
//! that order and under other strict weak orders (descending texts or
//! counts, depth then text, text then descending count).
use vstd::prelude::*;

verus! {

broadcast use vstd::seq_lib::group_seq_properties;

/// `a < b` in lexicographic code-point order.
pub open spec fn lex_lt(a: Seq<char>, b: Seq<char>) -> bool
    decreases a.len(),
{
    if a.len() == 0 {
        b.len() > 0
    } else if b.len() == 0 {
        false
    } else if a[0] < b[0] {
        true
    } else if a[0] > b[0] {
        false
    } else {
        lex_lt(a.drop_first(), b.drop_first())
    }
}

/// `a <= b` in lexicographic code-point order.
pub open spec fn lex_le(a: Seq<char>, b: Seq<char>) -> bool {
    a == b || lex_lt(a, b)
}

pub proof fn lemma_lex_total(a: Seq<char>, b: Seq<char>)
    ensures
        lex_le(a, b) || lex_lt(b, a),
        !(lex_lt(a, b) && lex_lt(b, a)),
        !lex_lt(a, a),
    decreases a.len(),
{
    if a.len() > 0 && b.len() > 0 && a[0] == b[0] {
        lemma_lex_total(a.drop_first(), b.drop_first());
        if a.drop_first() == b.drop_first() {
            assert(a == b) by {
                assert(a == seq![a[0]] + a.drop_first());
                assert(b == seq![b[0]] + b.drop_first());
            }
        }
    }
    if a.len() > 0 {
        lemma_lex_irrefl(a);
    }
}

proof fn lemma_lex_irrefl(a: Seq<char>)
    ensures
        !lex_lt(a, a),
    decreases a.len(),
{
    if a.len() > 0 {
        lemma_lex_irrefl(a.drop_first());
    }
}

pub proof fn lemma_lex_trans(a: Seq<char>, b: Seq<char>, c: Seq<char>)
    requires
        lex_lt(a, b),
        lex_lt(b, c),
    ensures
        lex_lt(a, c),
    decreases a.len(),
{
    if a.len() > 0 && b.len() > 0 && c.len() > 0 && a[0] == b[0] && b[0] == c[0] {
        lemma_lex_trans(a.drop_first(), b.drop_first(), c.drop_first());
    }
}

pub proof fn lemma_lex_le_trans(a: Seq<char>, b: Seq<char>, c: Seq<char>)
    requires
        lex_le(a, b),
        lex_le(b, c),
    ensures
        lex_le(a, c),
{
    if a != b && b != c {
        lemma_lex_trans(a, b, c);
    }
}

/// `lex_lt(a, b)`.
pub fn lex_lt_exec(a: &[char], b: &[char]) -> (r: bool)
    ensures
        r == lex_lt(a@, b@),
{
    let mut i: usize = 0;
    while i < a.len() && i < b.len() && a[i] == b[i]
        invariant
            i <= a.len(),
            i <= b.len(),
            lex_lt(a@.skip(i as int), b@.skip(i as int)) == lex_lt(a@, b@),
        decreases a.len() - i,
    {
        assert(a@.skip(i as int).drop_first() == a@.skip(i + 1));
        assert(b@.skip(i as int).drop_first() == b@.skip(i + 1));
        i += 1;
    }
    let ghost sa = a@.skip(i as int);
    let ghost sb = b@.skip(i as int);
    if i == a.len() {
        assert(sa.len() == 0);
        i < b.len()
    } else if i == b.len() {
        false
    } else {
        assert(sa[0] == a@[i as int] && sb[0] == b@[i as int]);
        a[i] < b[i]
    }
}

/// `p` lists every index below `n` exactly once.
pub open spec fn is_perm(p: Seq<usize>, n: nat) -> bool {
    &&& p.len() == n
    &&& forall|i: int| 0 <= i < p.len() ==> #[trigger] p[i] < n
    &&& forall|i: int, j: int| 0 <= i < j < p.len() ==> p[i] != p[j]
}

/// `p` orders `keys` ascending.
pub open spec fn orders(p: Seq<usize>, keys: Seq<Seq<char>>) -> bool {
    forall|i: int, j: int|
        0 <= i < j < p.len() ==> lex_le(keys[#[trigger] p[i] as int], keys[#[trigger] p[j] as int])
}

/// Equal keys keep their original order.
pub open spec fn stable(p: Seq<usize>, keys: Seq<Seq<char>>) -> bool {
    forall|i: int, j: int|
        0 <= i < j < p.len() && keys[#[trigger] p[i] as int] == keys[#[trigger] p[j] as int] ==> p[i]
            < p[j]
}

/// `r` is `keys` sorted ascending.
pub open spec fn is_sorted_of(r: Seq<Seq<char>>, keys: Seq<Seq<char>>) -> bool {
    exists|p: Seq<usize>|
        is_perm(p, keys.len()) && orders(p, keys) && r.len() == keys.len() && forall|i: int|
            0 <= i < r.len() ==> #[trigger] r[i] == keys[p[i] as int]
}

proof fn lemma_insert_sorted(old_p: Seq<usize>, pos: int, n: usize, ks: Seq<Seq<char>>)
    requires
        0 <= pos <= old_p.len() == n < ks.len(),
        is_perm(old_p, n as nat),
        orders(old_p, ks),
        forall|q: int| pos <= q < old_p.len() ==> lex_lt(ks[n as int], ks[#[trigger] old_p[q] as int]),
        pos > 0 ==> lex_le(ks[old_p[pos - 1] as int], ks[n as int]),
        stable(old_p, ks),
    ensures
        is_perm(old_p.insert(pos, n), (n + 1) as nat),
        orders(old_p.insert(pos, n), ks),
        stable(old_p.insert(pos, n), ks),
{
    let p = old_p.insert(pos, n);
    old_p.insert_ensures(pos, n);
    assert forall|i: int, j: int|
        0 <= i < j < p.len() && ks[#[trigger] p[i] as int] == ks[#[trigger] p[j] as int] implies p[i]
        < p[j] by {
        if j < pos {
            assert(p[i] == old_p[i] && p[j] == old_p[j]);
        } else if j == pos {
            assert(p[i] == old_p[i]);
        } else if i == pos {
            assert(p[j] == old_p[j - 1]);
            assert(lex_lt(ks[n as int], ks[old_p[j - 1] as int]));
            lemma_lex_irrefl(ks[n as int]);
        } else if i < pos {
            assert(p[i] == old_p[i] && p[j] == old_p[j - 1]);
        } else {
            assert(p[i] == old_p[i - 1] && p[j] == old_p[j - 1]);
        }
    }
    assert forall|i: int, j: int| 0 <= i < j < p.len() implies lex_le(
        ks[#[trigger] p[i] as int],
        ks[#[trigger] p[j] as int],
    ) by {
        if j < pos {
            assert(p[i] == old_p[i] && p[j] == old_p[j]);
        } else if j == pos {
            assert(p[i] == old_p[i]);
            if i < pos - 1 {
                assert(lex_le(ks[old_p[i] as int], ks[old_p[pos - 1] as int]));
                lemma_lex_le_trans(ks[old_p[i] as int], ks[old_p[pos - 1] as int], ks[n as int]);
            }
        } else if i == pos {
            assert(p[j] == old_p[j - 1]);
        } else if i < pos {
            assert(p[i] == old_p[i] && p[j] == old_p[j - 1]);
        } else {
            assert(p[i] == old_p[i - 1] && p[j] == old_p[j - 1]);
        }
    }
    assert forall|i: int, j: int| 0 <= i < j < p.len() implies p[i] != p[j] by {
        if j < pos {
            assert(p[i] == old_p[i] && p[j] == old_p[j]);
        } else if j == pos {
            assert(p[i] == old_p[i]);
        } else if i == pos {
            assert(p[j] == old_p[j - 1]);
        } else if i < pos {
            assert(p[i] == old_p[i] && p[j] == old_p[j - 1]);
        } else {
            assert(p[i] == old_p[i - 1] && p[j] == old_p[j - 1]);
        }
    }
    assert forall|i: int| 0 <= i < p.len() implies #[trigger] p[i] < n + 1 by {
        if i < pos {
            assert(p[i] == old_p[i]);
        } else if i > pos {
            assert(p[i] == old_p[i - 1]);
        }
    }
}

/// An index permutation that sorts `keys` ascending; equal keys keep their order.
pub fn sort_perm(keys: &Vec<Vec<char>>) -> (p: Vec<usize>)
    ensures
        is_perm(p@, keys.len() as nat),
        orders(p@, keys@.map_values(|k: Vec<char>| k@)),
        stable(p@, keys@.map_values(|k: Vec<char>| k@)),
{
    let ghost ks = keys@.map_values(|k: Vec<char>| k@);
    let mut p: Vec<usize> = Vec::new();
    let mut n: usize = 0;
    while n < keys.len()
        invariant
            n <= keys.len(),
            ks == keys@.map_values(|k: Vec<char>| k@),
            is_perm(p@, n as nat),
            orders(p@, ks),
            stable(p@, ks),
        decreases keys.len() - n,
    {
        let x = &keys[n];
        assert(x@ == ks[n as int]);
        let mut pos = p.len();
        while pos > 0 && lex_lt_exec(x, &keys[p[pos - 1]])
            invariant
                pos <= p.len() == n < keys.len(),
                ks == keys@.map_values(|k: Vec<char>| k@),
                x@ == ks[n as int],
                is_perm(p@, n as nat),
                orders(p@, ks),
                stable(p@, ks),
                forall|q: int| pos <= q < p.len() ==> lex_lt(ks[n as int], ks[#[trigger] p@[q] as int]),
            decreases pos,
        {
            assert(keys@[p@[pos - 1] as int]@ == ks[p@[pos - 1] as int]);
            pos -= 1;
        }
        let ghost old_p = p@;
        proof {
            if pos > 0 {
                lemma_lex_total(ks[n as int], ks[old_p[pos - 1] as int]);
            }
        }
        p.insert(pos, n);
        proof {
            lemma_insert_sorted(old_p, pos as int, n, ks);
        }
        n += 1;
    }
    p
}


// ───────────────── sorting under a strict weak order ─────────────────

/// `p` never places an index after one that, by `before`, it must precede.
pub open spec fn sorted_by(p: Seq<usize>, before: spec_fn(int, int) -> bool) -> bool {
    forall|i: int, j: int|
        0 <= i < j < p.len() ==> !before(#[trigger] p[j] as int, #[trigger] p[i] as int)
}

/// Indices of which neither must precede the other keep their original order.
pub open spec fn stable_by(p: Seq<usize>, before: spec_fn(int, int) -> bool) -> bool {
    forall|i: int, j: int|
        0 <= i < j < p.len() && !before(#[trigger] p[i] as int, #[trigger] p[j] as int) && !before(
            p[j] as int,
            p[i] as int,
        ) ==> p[i] < p[j]
}

/// `before` is asymmetric and its complement is transitive on the indices below `n`.
pub open spec fn strict_weak(before: spec_fn(int, int) -> bool, n: nat) -> bool {
    &&& forall|a: int, b: int|
        0 <= a < n && 0 <= b < n && #[trigger] before(a, b) ==> !before(b, a)
    &&& forall|a: int, b: int, c: int|
        0 <= a < n && 0 <= b < n && 0 <= c < n && !#[trigger] before(b, a) && !#[trigger] before(
            c,
            b,
        ) ==> !before(c, a)
}

/// Inserting index `n` where every later entry must follow it and the entry
/// before it need not keeps a permutation sorted and stable.
#[verifier::spinoff_prover]
#[verifier::rlimit(40)]
pub proof fn lemma_insert_by(
    old_p: Seq<usize>,
    pos: int,
    n: usize,
    before: spec_fn(int, int) -> bool,
)
    requires
        0 <= pos <= old_p.len() == n,
        is_perm(old_p, n as nat),
        sorted_by(old_p, before),
        stable_by(old_p, before),
        strict_weak(before, (n + 1) as nat),
        forall|q: int| pos <= q < old_p.len() ==> before(n as int, #[trigger] old_p[q] as int),
        pos > 0 ==> !before(n as int, old_p[pos - 1] as int),
    ensures
        is_perm(old_p.insert(pos, n), (n + 1) as nat),
        sorted_by(old_p.insert(pos, n), before),
        stable_by(old_p.insert(pos, n), before),
{
    let p = old_p.insert(pos, n);
    old_p.insert_ensures(pos, n);
    assert forall|i: int| 0 <= i < p.len() implies #[trigger] p[i] < n + 1 by {
        if i < pos {
            assert(p[i] == old_p[i]);
        } else if i > pos {
            assert(p[i] == old_p[i - 1]);
        }
    }
    assert forall|i: int, j: int| 0 <= i < j < p.len() implies p[i] != p[j] by {
        if j < pos {
            assert(p[i] == old_p[i] && p[j] == old_p[j]);
        } else if j == pos {
            assert(p[i] == old_p[i]);
        } else if i == pos {
            assert(p[j] == old_p[j - 1]);
        } else if i < pos {
            assert(p[i] == old_p[i] && p[j] == old_p[j - 1]);
        } else {
            assert(p[i] == old_p[i - 1] && p[j] == old_p[j - 1]);
        }
    }
    assert forall|i: int, j: int| 0 <= i < j < p.len() implies !before(
        #[trigger] p[j] as int,
        #[trigger] p[i] as int,
    ) by {
        if j < pos {
            assert(p[i] == old_p[i] && p[j] == old_p[j]);
        } else if j == pos {
            assert(p[i] == old_p[i]);
            if i < pos - 1 {
                let a = old_p[i] as int;
                let b = old_p[pos - 1] as int;
                assert(!before(b, a));
                assert(!before(n as int, b));
            }
        } else if i == pos {
            assert(p[j] == old_p[j - 1]);
            assert(before(n as int, old_p[j - 1] as int));
        } else if i < pos {
            assert(p[i] == old_p[i] && p[j] == old_p[j - 1]);
        } else {
            assert(p[i] == old_p[i - 1] && p[j] == old_p[j - 1]);
        }
    }
    assert forall|i: int, j: int|
        0 <= i < j < p.len() && !before(#[trigger] p[i] as int, #[trigger] p[j] as int) && !before(
            p[j] as int,
            p[i] as int,
        ) implies p[i] < p[j] by {
        if j < pos {
            assert(p[i] == old_p[i] && p[j] == old_p[j]);
        } else if j == pos {
            assert(p[i] == old_p[i]);
        } else if i == pos {
            assert(p[j] == old_p[j - 1]);
            assert(before(n as int, old_p[j - 1] as int));
        } else if i < pos {
            assert(p[i] == old_p[i] && p[j] == old_p[j - 1]);
        } else {
            assert(p[i] == old_p[i - 1] && p[j] == old_p[j - 1]);
        }
    }
}

/// "Comes first" for a descending order of texts.
pub open spec fn text_desc(ks: Seq<Seq<char>>) -> spec_fn(int, int) -> bool {
    |a: int, b: int| lex_lt(ks[b], ks[a])
}

/// "Comes first" for a descending order of counts.
pub open spec fn count_desc(ks: Seq<usize>) -> spec_fn(int, int) -> bool {
    |a: int, b: int| ks[a] > ks[b]
}

proof fn lemma_text_desc_weak(ks: Seq<Seq<char>>)
    ensures
        strict_weak(text_desc(ks), ks.len()),
{
    let before = text_desc(ks);
    assert forall|a: int, b: int|
        0 <= a < ks.len() && 0 <= b < ks.len() && #[trigger] before(a, b) implies !before(b, a) by {
        lemma_lex_total(ks[a], ks[b]);
    }
    assert forall|a: int, b: int, c: int|
        0 <= a < ks.len() && 0 <= b < ks.len() && 0 <= c < ks.len() && !#[trigger] before(b, a)
            && !#[trigger] before(c, b) implies !before(c, a) by {
        lemma_lex_total(ks[a], ks[b]);
        lemma_lex_total(ks[b], ks[c]);
        lemma_lex_le_trans(ks[c], ks[b], ks[a]);
        lemma_lex_total(ks[a], ks[c]);
    }
}

/// An index permutation that orders `keys` descending; equal keys keep their order.
pub fn sort_perm_desc(keys: &Vec<Vec<char>>) -> (p: Vec<usize>)
    ensures
        is_perm(p@, keys.len() as nat),
        sorted_by(p@, text_desc(keys@.map_values(|k: Vec<char>| k@))),
        stable_by(p@, text_desc(keys@.map_values(|k: Vec<char>| k@))),
{
    let ghost ks = keys@.map_values(|k: Vec<char>| k@);
    let ghost before = text_desc(ks);
    proof {
        lemma_text_desc_weak(ks);
    }
    let mut p: Vec<usize> = Vec::new();
    let mut n: usize = 0;
    while n < keys.len()
        invariant
            n <= keys.len(),
            ks == keys@.map_values(|k: Vec<char>| k@),
            before == text_desc(ks),
            strict_weak(before, ks.len()),
            is_perm(p@, n as nat),
            sorted_by(p@, before),
            stable_by(p@, before),
        decreases keys.len() - n,
    {
        let x = &keys[n];
        assert(x@ == ks[n as int]);
        let mut pos = p.len();
        while pos > 0 && lex_lt_exec(&keys[p[pos - 1]], x)
            invariant
                pos <= p.len() == n < keys.len(),
                ks == keys@.map_values(|k: Vec<char>| k@),
                before == text_desc(ks),
                x@ == ks[n as int],
                is_perm(p@, n as nat),
                forall|q: int| pos <= q < p.len() ==> before(n as int, #[trigger] p@[q] as int),
            decreases pos,
        {
            assert(keys@[p@[pos - 1] as int]@ == ks[p@[pos - 1] as int]);
            pos -= 1;
        }
        proof {
            if pos > 0 {
                assert(keys@[p@[pos - 1] as int]@ == ks[p@[pos - 1] as int]);
            }
            lemma_insert_by(p@, pos as int, n, before);
        }
        p.insert(pos, n);
        n += 1;
    }
    p
}

/// An index permutation that orders `keys` descending; equal keys keep their order.
pub fn sort_perm_counts_desc(keys: &Vec<usize>) -> (p: Vec<usize>)
    ensures
        is_perm(p@, keys.len() as nat),
        sorted_by(p@, count_desc(keys@)),
        stable_by(p@, count_desc(keys@)),
{
    let ghost before = count_desc(keys@);
    let mut p: Vec<usize> = Vec::new();
    let mut n: usize = 0;
    while n < keys.len()
        invariant
            n <= keys.len(),
            before == count_desc(keys@),
            is_perm(p@, n as nat),
            sorted_by(p@, before),
            stable_by(p@, before),
        decreases keys.len() - n,
    {
        let mut pos = p.len();
        while pos > 0 && keys[p[pos - 1]] < keys[n]
            invariant
                pos <= p.len() == n < keys.len(),
                before == count_desc(keys@),
                is_perm(p@, n as nat),
                forall|q: int| pos <= q < p.len() ==> before(n as int, #[trigger] p@[q] as int),
            decreases pos,
        {
            pos -= 1;
        }
        proof {
            lemma_insert_by(p@, pos as int, n, before);
        }
        p.insert(pos, n);
        n += 1;
    }
    p
}

/// "Comes first" for shallower depth, then ascending text.
pub open spec fn depth_then_text(depths: Seq<usize>, ks: Seq<Seq<char>>) -> spec_fn(
    int,
    int,
) -> bool {
    |a: int, b: int| depths[a] < depths[b] || (depths[a] == depths[b] && lex_lt(ks[a], ks[b]))
}

proof fn lemma_depth_then_text_weak(depths: Seq<usize>, ks: Seq<Seq<char>>)
    requires
        depths.len() == ks.len(),
    ensures
        strict_weak(depth_then_text(depths, ks), ks.len()),
{
    let before = depth_then_text(depths, ks);
    assert forall|a: int, b: int|
        0 <= a < ks.len() && 0 <= b < ks.len() && #[trigger] before(a, b) implies !before(b, a) by {
        lemma_lex_total(ks[a], ks[b]);
    }
    assert forall|a: int, b: int, c: int|
        0 <= a < ks.len() && 0 <= b < ks.len() && 0 <= c < ks.len() && !#[trigger] before(b, a)
            && !#[trigger] before(c, b) implies !before(c, a) by {
        lemma_lex_total(ks[a], ks[b]);
        lemma_lex_total(ks[b], ks[c]);
        lemma_lex_total(ks[a], ks[c]);
        if depths[a] == depths[b] && depths[b] == depths[c] {
            lemma_lex_le_trans(ks[a], ks[b], ks[c]);
        }
    }
}

/// An index permutation ordering by `depths` ascending, then `keys`
/// ascending; entries equal in both keep their order.
pub fn sort_perm_depth_text(depths: &Vec<usize>, keys: &Vec<Vec<char>>) -> (p: Vec<usize>)
    requires
        depths.len() == keys.len(),
    ensures
        is_perm(p@, keys.len() as nat),
        sorted_by(p@, depth_then_text(depths@, keys@.map_values(|k: Vec<char>| k@))),
        stable_by(p@, depth_then_text(depths@, keys@.map_values(|k: Vec<char>| k@))),
{
    let ghost ks = keys@.map_values(|k: Vec<char>| k@);
    let ghost before = depth_then_text(depths@, ks);
    proof {
        lemma_depth_then_text_weak(depths@, ks);
    }
    let mut p: Vec<usize> = Vec::new();
    let mut n: usize = 0;
    while n < keys.len()
        invariant
            n <= keys.len() == depths.len(),
            ks == keys@.map_values(|k: Vec<char>| k@),
            before == depth_then_text(depths@, ks),
            strict_weak(before, ks.len()),
            is_perm(p@, n as nat),
            sorted_by(p@, before),
            stable_by(p@, before),
        decreases keys.len() - n,
    {
        let x = &keys[n];
        let d = depths[n];
        assert(x@ == ks[n as int]);
        let mut pos = p.len();
        while pos > 0 && (d < depths[p[pos - 1]] || (d == depths[p[pos - 1]] && lex_lt_exec(
            x,
            &keys[p[pos - 1]],
        )))
            invariant
                pos <= p.len() == n < keys.len() == depths.len(),
                ks == keys@.map_values(|k: Vec<char>| k@),
                before == depth_then_text(depths@, ks),
                x@ == ks[n as int],
                d == depths@[n as int],
                is_perm(p@, n as nat),
                forall|q: int| pos <= q < p.len() ==> before(n as int, #[trigger] p@[q] as int),
            decreases pos,
        {
            assert(keys@[p@[pos - 1] as int]@ == ks[p@[pos - 1] as int]);
            pos -= 1;
        }
        proof {
            if pos > 0 {
                assert(keys@[p@[pos - 1] as int]@ == ks[p@[pos - 1] as int]);
            }
            lemma_insert_by(p@, pos as int, n, before);
        }
        p.insert(pos, n);
        n += 1;
    }
    p
}

/// "Comes first" for ascending text, then descending count.
pub open spec fn text_then_count_desc(ks: Seq<Seq<char>>, cs: Seq<u64>) -> spec_fn(int, int) -> bool {
    |a: int, b: int| lex_lt(ks[a], ks[b]) || (ks[a] == ks[b] && cs[a] > cs[b])
}

proof fn lemma_text_then_count_desc_weak(ks: Seq<Seq<char>>, cs: Seq<u64>)
    requires
        ks.len() == cs.len(),
    ensures
        strict_weak(text_then_count_desc(ks, cs), ks.len()),
{
    let before = text_then_count_desc(ks, cs);
    assert forall|a: int, b: int|
        0 <= a < ks.len() && 0 <= b < ks.len() && #[trigger] before(a, b) implies !before(b, a) by {
        lemma_lex_total(ks[a], ks[b]);
    }
    assert forall|a: int, b: int, c: int|
        0 <= a < ks.len() && 0 <= b < ks.len() && 0 <= c < ks.len() && !#[trigger] before(b, a)
            && !#[trigger] before(c, b) implies !before(c, a) by {
        lemma_lex_total(ks[a], ks[b]);
        lemma_lex_total(ks[b], ks[c]);
        lemma_lex_total(ks[a], ks[c]);
        lemma_lex_le_trans(ks[a], ks[b], ks[c]);
        if ks[a] == ks[c] {
            lemma_lex_total(ks[b], ks[a]);
        }
    }
}

/// An index permutation ordering by `keys` ascending, then `counts`
/// descending; entries equal in both keep their order.
pub fn sort_perm_text_then_count_desc(keys: &Vec<Vec<char>>, counts: &Vec<u64>) -> (p: Vec<usize>)
    requires
        keys.len() == counts.len(),
    ensures
        is_perm(p@, keys.len() as nat),
        sorted_by(p@, text_then_count_desc(keys@.map_values(|k: Vec<char>| k@), counts@)),
        stable_by(p@, text_then_count_desc(keys@.map_values(|k: Vec<char>| k@), counts@)),
{
    let ghost ks = keys@.map_values(|k: Vec<char>| k@);
    let ghost before = text_then_count_desc(ks, counts@);
    proof {
        lemma_text_then_count_desc_weak(ks, counts@);
    }
    let mut p: Vec<usize> = Vec::new();
    let mut n: usize = 0;
    while n < keys.len()
        invariant
            n <= keys.len() == counts.len(),
            ks == keys@.map_values(|k: Vec<char>| k@),
            before == text_then_count_desc(ks, counts@),
            strict_weak(before, ks.len()),
            is_perm(p@, n as nat),
            sorted_by(p@, before),
            stable_by(p@, before),
        decreases keys.len() - n,
    {
        let x = &keys[n];
        let c = counts[n];
        assert(x@ == ks[n as int]);
        let mut pos = p.len();
        while pos > 0 && (lex_lt_exec(x, &keys[p[pos - 1]]) || (crate::text::chars_eq(
            x,
            &keys[p[pos - 1]],
        ) && c > counts[p[pos - 1]]))
            invariant
                pos <= p.len() == n < keys.len() == counts.len(),
                ks == keys@.map_values(|k: Vec<char>| k@),
                before == text_then_count_desc(ks, counts@),
                x@ == ks[n as int],
                c == counts@[n as int],
                is_perm(p@, n as nat),
                forall|q: int| pos <= q < p.len() ==> before(n as int, #[trigger] p@[q] as int),
            decreases pos,
        {
            assert(keys@[p@[pos - 1] as int]@ == ks[p@[pos - 1] as int]);
            pos -= 1;
        }
        proof {
            if pos > 0 {
                assert(keys@[p@[pos - 1] as int]@ == ks[p@[pos - 1] as int]);
            }
            lemma_insert_by(p@, pos as int, n, before);
        }
        p.insert(pos, n);
        n += 1;
    }
    p
}

/// "Comes first" ordering by `a` ascending, then `b`, then `c`.
pub open spec fn lex3(a: Seq<Seq<char>>, b: Seq<Seq<char>>, c: Seq<Seq<char>>) -> spec_fn(
    int,
    int,
) -> bool {
    |x: int, y: int|
        lex_lt(a[x], a[y]) || (a[x] == a[y] && (lex_lt(b[x], b[y]) || (b[x] == b[y] && lex_lt(
            c[x],
            c[y],
        ))))
}

proof fn lemma_lex3_weak(a: Seq<Seq<char>>, b: Seq<Seq<char>>, c: Seq<Seq<char>>)
    requires
        a.len() == b.len() == c.len(),
    ensures
        strict_weak(lex3(a, b, c), a.len()),
{
    let before = lex3(a, b, c);
    assert forall|x: int, y: int|
        0 <= x < a.len() && 0 <= y < a.len() && #[trigger] before(x, y) implies !before(y, x) by {
        lemma_lex_total(a[x], a[y]);
        lemma_lex_total(b[x], b[y]);
        lemma_lex_total(c[x], c[y]);
    }
    assert forall|x: int, y: int, z: int|
        0 <= x < a.len() && 0 <= y < a.len() && 0 <= z < a.len() && !#[trigger] before(y, x)
            && !#[trigger] before(z, y) implies !before(z, x) by {
        lemma_lex_total(a[x], a[y]);
        lemma_lex_total(a[y], a[z]);
        lemma_lex_total(a[x], a[z]);
        lemma_lex_total(b[x], b[y]);
        lemma_lex_total(b[y], b[z]);
        lemma_lex_total(b[x], b[z]);
        lemma_lex_total(c[x], c[y]);
        lemma_lex_total(c[y], c[z]);
        lemma_lex_total(c[x], c[z]);
        lemma_lex_le_trans(a[x], a[y], a[z]);
        if a[x] == a[y] && a[y] == a[z] {
            lemma_lex_le_trans(b[x], b[y], b[z]);
            if b[x] == b[y] && b[y] == b[z] {
                lemma_lex_le_trans(c[x], c[y], c[z]);
            }
        }
    }
}

/// `lex3` on the entries of three key columns, computed.
fn lex3_before(
    a: &Vec<Vec<char>>,
    b: &Vec<Vec<char>>,
    c: &Vec<Vec<char>>,
    x: usize,
    y: usize,
) -> (r: bool)
    requires
        a.len() == b.len() == c.len(),
        x < a.len(),
        y < a.len(),
    ensures
        r == lex3(
            a@.map_values(|k: Vec<char>| k@),
            b@.map_values(|k: Vec<char>| k@),
            c@.map_values(|k: Vec<char>| k@),
        )(x as int, y as int),
{
    let ghost ka = a@.map_values(|k: Vec<char>| k@);
    let ghost kb = b@.map_values(|k: Vec<char>| k@);
    let ghost kc = c@.map_values(|k: Vec<char>| k@);
    assert(ka[x as int] == a@[x as int]@ && ka[y as int] == a@[y as int]@);
    assert(kb[x as int] == b@[x as int]@ && kb[y as int] == b@[y as int]@);
    assert(kc[x as int] == c@[x as int]@ && kc[y as int] == c@[y as int]@);
    lex_lt_exec(&a[x], &a[y]) || (crate::text::chars_eq(&a[x], &a[y]) && (lex_lt_exec(&b[x], &b[y])
        || (crate::text::chars_eq(&b[x], &b[y]) && lex_lt_exec(&c[x], &c[y]))))
}

/// An index permutation ordering by `a` ascending, then `b`, then `c`;
/// entries equal in all three keep their order.
pub fn sort_perm_lex3(a: &Vec<Vec<char>>, b: &Vec<Vec<char>>, c: &Vec<Vec<char>>) -> (p: Vec<usize>)
    requires
        a.len() == b.len() == c.len(),
    ensures
        is_perm(p@, a.len() as nat),
        sorted_by(
            p@,
            lex3(
                a@.map_values(|k: Vec<char>| k@),
                b@.map_values(|k: Vec<char>| k@),
                c@.map_values(|k: Vec<char>| k@),
            ),
        ),
        stable_by(
            p@,
            lex3(
                a@.map_values(|k: Vec<char>| k@),
                b@.map_values(|k: Vec<char>| k@),
                c@.map_values(|k: Vec<char>| k@),
            ),
        ),
{
    let ghost before = lex3(
        a@.map_values(|k: Vec<char>| k@),
        b@.map_values(|k: Vec<char>| k@),
        c@.map_values(|k: Vec<char>| k@),
    );
    proof {
        lemma_lex3_weak(
            a@.map_values(|k: Vec<char>| k@),
            b@.map_values(|k: Vec<char>| k@),
            c@.map_values(|k: Vec<char>| k@),
        );
    }
    let mut p: Vec<usize> = Vec::new();
    let mut n: usize = 0;
    while n < a.len()
        invariant
            n <= a.len() == b.len() == c.len(),
            before == lex3(
                a@.map_values(|k: Vec<char>| k@),
                b@.map_values(|k: Vec<char>| k@),
                c@.map_values(|k: Vec<char>| k@),
            ),
            strict_weak(before, a.len() as nat),
            is_perm(p@, n as nat),
            sorted_by(p@, before),
            stable_by(p@, before),
        decreases a.len() - n,
    {
        let mut pos = p.len();
        while pos > 0 && lex3_before(a, b, c, n, p[pos - 1])
            invariant
                pos <= p.len() == n < a.len() == b.len() == c.len(),
                before == lex3(
                    a@.map_values(|k: Vec<char>| k@),
                    b@.map_values(|k: Vec<char>| k@),
                    c@.map_values(|k: Vec<char>| k@),
                ),
                is_perm(p@, n as nat),
                forall|q: int| pos <= q < p.len() ==> before(n as int, #[trigger] p@[q] as int),
            decreases pos,
        {
            pos -= 1;
        }
        proof {
            lemma_insert_by(p@, pos as int, n, before);
        }
        p.insert(pos, n);
        n += 1;
    }
    p
}

/// Every index below `n` occurs in a permutation of the indices below `n`.
pub proof fn lemma_perm_onto(p: Seq<usize>, n: nat, k: int)
    requires
        is_perm(p, n),
        0 <= k < n,
    ensures
        exists|i: int| 0 <= i < p.len() && #[trigger] p[i] == k,
{
    let q = p.map_values(|x: usize| x as int);
    assert forall|i: int, j: int| 0 <= i < q.len() && 0 <= j < q.len() && i != j implies q[i]
        != q[j] by {
        if i < j {
            assert(p[i] != p[j]);
        } else {
            assert(p[j] != p[i]);
        }
    }
    assert(q.no_duplicates());
    q.unique_seq_to_set();
    vstd::set_lib::lemma_int_range(0, n as int);
    let r = vstd::set_lib::set_int_range(0, n as int);
    assert forall|x: int| q.to_set().contains(x) implies r.contains(x) by {
        let i = choose|i: int| 0 <= i < q.len() && q[i] == x;
        assert(p[i] < n);
    }
    vstd::seq_lib::seq_to_set_is_finite(q);
    vstd::set_lib::lemma_subset_equality(q.to_set(), r);
    assert(r.contains(k));
    assert(q.to_set().contains(k));
    let i = choose|i: int| 0 <= i < q.len() && q[i] == k;
    assert(p[i] == k);
}

/// "Comes first" ordering by `scores` descending, then `keys` ascending.
pub open spec fn score_desc_then_text(scores: Seq<int>, ks: Seq<Seq<char>>) -> spec_fn(int, int) -> bool {
    |a: int, b: int| scores[a] > scores[b] || (scores[a] == scores[b] && lex_lt(ks[a], ks[b]))
}

proof fn lemma_score_desc_then_text_weak(scores: Seq<int>, ks: Seq<Seq<char>>)
    requires
        scores.len() == ks.len(),
    ensures
        strict_weak(score_desc_then_text(scores, ks), ks.len()),
{
    let before = score_desc_then_text(scores, ks);
    assert forall|a: int, b: int|
        0 <= a < ks.len() && 0 <= b < ks.len() && #[trigger] before(a, b) implies !before(b, a) by {
        lemma_lex_total(ks[a], ks[b]);
    }
    assert forall|a: int, b: int, c: int|
        0 <= a < ks.len() && 0 <= b < ks.len() && 0 <= c < ks.len() && !#[trigger] before(b, a)
            && !#[trigger] before(c, b) implies !before(c, a) by {
        lemma_lex_total(ks[a], ks[b]);
        lemma_lex_total(ks[b], ks[c]);
        lemma_lex_total(ks[a], ks[c]);
        if scores[a] == scores[b] && scores[b] == scores[c] {
            lemma_lex_le_trans(ks[a], ks[b], ks[c]);
        }
    }
}

/// An index permutation ordering by `scores` descending, then `keys`
/// ascending; entries equal in both keep their order.
pub fn sort_perm_score_desc_text(scores: &Vec<i128>, keys: &Vec<Vec<char>>) -> (p: Vec<usize>)
    requires
        scores.len() == keys.len(),
    ensures
        is_perm(p@, keys.len() as nat),
        sorted_by(p@, score_desc_then_text(scores@.map_values(|x: i128| x as int), keys@.map_values(|k: Vec<char>| k@))),
        stable_by(p@, score_desc_then_text(scores@.map_values(|x: i128| x as int), keys@.map_values(|k: Vec<char>| k@))),
{
    let ghost ks = keys@.map_values(|k: Vec<char>| k@);
    let ghost before = score_desc_then_text(scores@.map_values(|x: i128| x as int), ks);
    proof {
        lemma_score_desc_then_text_weak(scores@.map_values(|x: i128| x as int), ks);
    }
    let mut p: Vec<usize> = Vec::new();
    let mut n: usize = 0;
    while n < keys.len()
        invariant
            n <= keys.len() == scores.len(),
            ks == keys@.map_values(|k: Vec<char>| k@),
            before == score_desc_then_text(scores@.map_values(|x: i128| x as int), ks),
            strict_weak(before, ks.len()),
            is_perm(p@, n as nat),
            sorted_by(p@, before),
            stable_by(p@, before),
        decreases keys.len() - n,
    {
        let x = &keys[n];
        let sc = scores[n];
        assert(x@ == ks[n as int]);
        let mut pos = p.len();
        while pos > 0 && (sc > scores[p[pos - 1]] || (sc == scores[p[pos - 1]] && lex_lt_exec(
            x,
            &keys[p[pos - 1]],
        )))
            invariant
                pos <= p.len() == n < keys.len() == scores.len(),
                ks == keys@.map_values(|k: Vec<char>| k@),
                before == score_desc_then_text(scores@.map_values(|x: i128| x as int), ks),
                x@ == ks[n as int],
                sc == scores@[n as int],
                is_perm(p@, n as nat),
                forall|q: int| pos <= q < p.len() ==> before(n as int, #[trigger] p@[q] as int),
            decreases pos,
        {
            assert(keys@[p@[pos - 1] as int]@ == ks[p@[pos - 1] as int]);
            pos -= 1;
        }
        proof {
            if pos > 0 {
                assert(keys@[p@[pos - 1] as int]@ == ks[p@[pos - 1] as int]);
            }
            lemma_insert_by(p@, pos as int, n, before);
        }
        p.insert(pos, n);
        n += 1;
    }
    p
}

/// "Comes first" ordering by `scores` descending, then `sizes` ascending.
pub open spec fn score_desc_then_size(scores: Seq<int>, sizes: Seq<u64>) -> spec_fn(int, int) -> bool {
    |a: int, b: int| scores[a] > scores[b] || (scores[a] == scores[b] && sizes[a] < sizes[b])
}

/// An index permutation ordering by `scores` descending, then `sizes`
/// ascending; entries equal in both keep their order.
pub fn sort_perm_score_desc_size(scores: &Vec<i32>, sizes: &Vec<u64>) -> (p: Vec<usize>)
    requires
        scores.len() == sizes.len(),
    ensures
        is_perm(p@, scores.len() as nat),
        sorted_by(p@, score_desc_then_size(scores@.map_values(|x: i32| x as int), sizes@)),
        stable_by(p@, score_desc_then_size(scores@.map_values(|x: i32| x as int), sizes@)),
{
    let ghost before = score_desc_then_size(scores@.map_values(|x: i32| x as int), sizes@);
    assert(strict_weak(before, scores.len() as nat));
    let mut p: Vec<usize> = Vec::new();
    let mut n: usize = 0;
    while n < scores.len()
        invariant
            n <= scores.len() == sizes.len(),
            before == score_desc_then_size(scores@.map_values(|x: i32| x as int), sizes@),
            strict_weak(before, scores.len() as nat),
            is_perm(p@, n as nat),
            sorted_by(p@, before),
            stable_by(p@, before),
        decreases scores.len() - n,
    {
        let sc = scores[n];
        let sz = sizes[n];
        let mut pos = p.len();
        while pos > 0 && (sc > scores[p[pos - 1]] || (sc == scores[p[pos - 1]] && sz < sizes[p[pos - 1]]))
            invariant
                pos <= p.len() == n < scores.len() == sizes.len(),
                before == score_desc_then_size(scores@.map_values(|x: i32| x as int), sizes@),
                sc == scores@[n as int],
                sz == sizes@[n as int],
                is_perm(p@, n as nat),
                forall|q: int| pos <= q < p.len() ==> before(n as int, #[trigger] p@[q] as int),
            decreases pos,
        {
            pos -= 1;
        }
        proof {
            lemma_insert_by(p@, pos as int, n, before);
        }
        p.insert(pos, n);
        n += 1;
    }
    p
}

} // verus!
