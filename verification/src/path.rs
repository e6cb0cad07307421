//! Path syntax over text (Unix separators): components, file names,
//! extensions and joining.
use vstd::prelude::*;
use crate::text::{eq_ignore_case, eq_ignore_case_exec, string_of_range};

verus! {

broadcast use vstd::seq_lib::group_seq_properties;

/// `s` split at every occurrence of `c` (`str::split(c)`); never empty.
pub open spec fn split_s(s: Seq<char>, c: char) -> Seq<Seq<char>>
    decreases s.len(),
{
    if s.len() == 0 {
        seq![seq![]]
    } else {
        let r = split_s(s.drop_last(), c);
        if s.last() == c {
            r.push(seq![])
        } else {
            r.update(r.len() - 1, r.last().push(s.last()))
        }
    }
}

pub proof fn lemma_split_len(s: Seq<char>, c: char)
    ensures
        split_s(s, c).len() >= 1,
    decreases s.len(),
{
    if s.len() > 0 {
        lemma_split_len(s.drop_last(), c);
    }
}

/// The bounds of the pieces of `v` split at `c`.
pub fn split_bounds(v: &[char], c: char) -> (r: Vec<(usize, usize)>)
    ensures
        r.len() == split_s(v@, c).len(),
        forall|k: int|
            0 <= k < r.len() ==> {
                let (a, b) = #[trigger] r@[k];
                &&& a <= b <= v.len()
                &&& v@.subrange(a as int, b as int) == split_s(v@, c)[k]
            },
        forall|k: int| 0 <= k < r.len() - 1 ==> #[trigger] r@[k].1 < v.len() && v@[r@[k].1 as int] == c,
        r@[r.len() - 1].1 == v.len(),
        forall|k: int| 0 < k < r.len() ==> #[trigger] r@[k].0 == r@[k - 1].1 + 1,
        r@[0].0 == 0,
{
    let mut r: Vec<(usize, usize)> = Vec::new();
    let mut start: usize = 0;
    let mut i: usize = 0;
    while i < v.len()
        invariant
            start <= i <= v.len(),
            r.len() + 1 == split_s(v@.take(i as int), c).len(),
            forall|k: int|
                0 <= k < r.len() ==> {
                    let (a, b) = #[trigger] r@[k];
                    &&& a <= b <= i
                    &&& v@.subrange(a as int, b as int) == split_s(v@.take(i as int), c)[k]
                },
            v@.subrange(start as int, i as int) == split_s(v@.take(i as int), c).last(),
            forall|k: int| 0 <= k < r.len() ==> #[trigger] r@[k].1 < i && v@[r@[k].1 as int] == c,
            r.len() > 0 ==> start == r@[r.len() - 1].1 + 1,
            r.len() == 0 ==> start == 0,
            forall|k: int| 0 < k < r.len() ==> #[trigger] r@[k].0 == r@[k - 1].1 + 1,
            r.len() > 0 ==> r@[0].0 == 0,
        decreases v.len() - i,
    {
        proof {
            lemma_split_len(v@.take(i as int), c);
            assert(v@.take(i + 1).drop_last() == v@.take(i as int));
            assert(v@.take(i + 1).last() == v@[i as int]);
        }
        if v[i] == c {
            r.push((start, i));
            start = i + 1;
        }
        i += 1;
    }
    r.push((start, i));
    assert(v@.take(v.len() as int) == v@);
    r
}

/// A path component that `Path::components` keeps as a normal name.
pub open spec fn is_named_segment(seg: Seq<char>) -> bool {
    seg.len() > 0 && seg != seq!['.']
}

/// Index of the last named segment among the first `n` of `segs`.
pub open spec fn last_named(segs: Seq<Seq<char>>, n: int) -> Option<int>
    decreases n,
{
    if n <= 0 {
        None
    } else if is_named_segment(segs[n - 1]) {
        Some(n - 1)
    } else {
        last_named(segs, n - 1)
    }
}

/// `Path::file_name` with `/` as the separator.
pub open spec fn file_name_s(p: Seq<char>) -> Option<Seq<char>> {
    let segs = split_s(p, '/');
    match last_named(segs, segs.len() as int) {
        Some(k) => if segs[k] == seq!['.', '.'] {
            None
        } else {
            Some(segs[k])
        },
        None => None,
    }
}

/// Index of the last `.` in `f`, if any.
pub open spec fn last_dot(f: Seq<char>, n: int) -> Option<int>
    decreases n,
{
    if n <= 0 {
        None
    } else if f[n - 1] == '.' {
        Some(n - 1)
    } else {
        last_dot(f, n - 1)
    }
}

/// `Path::extension`.
pub open spec fn extension_s(p: Seq<char>) -> Option<Seq<char>> {
    match file_name_s(p) {
        Some(f) => match last_dot(f, f.len() as int) {
            Some(d) => if d == 0 {
                None
            } else {
                Some(f.subrange(d + 1, f.len() as int))
            },
            None => None,
        },
        None => None,
    }
}

/// `Path::is_absolute` (Unix).
pub open spec fn is_absolute_s(p: Seq<char>) -> bool {
    p.len() > 0 && p[0] == '/'
}

/// `Path::join`.
pub open spec fn join_s(root: Seq<char>, sub: Seq<char>) -> Seq<char> {
    if is_absolute_s(sub) {
        sub
    } else if root.len() == 0 || root.last() == '/' {
        root + sub
    } else {
        root + seq!['/'] + sub
    }
}

proof fn lemma_last_named_bound(segs: Seq<Seq<char>>, n: int)
    ensures
        last_named(segs, n) matches Some(k) ==> 0 <= k < n && is_named_segment(segs[k]),
        last_named(segs, n) is None ==> forall|j: int| 0 <= j < n ==> !is_named_segment(segs[j]),
    decreases n,
{
    if n > 0 {
        lemma_last_named_bound(segs, n - 1);
    }
}

/// Bounds of the file name of the path `v`, if it has one.
pub fn file_name_bounds(v: &[char]) -> (r: Option<(usize, usize)>)
    ensures
        match file_name_s(v@) {
            Some(f) => r matches Some((a, b)) && a <= b <= v.len() && v@.subrange(
                a as int,
                b as int,
            ) == f,
            None => r is None,
        },
{
    let segs = split_bounds(v, '/');
    let ghost ss = split_s(v@, '/');
    let mut n = segs.len();
    while n > 0
        invariant
            n <= segs.len() == ss.len(),
            ss == split_s(v@, '/'),
            last_named(ss, n as int) == last_named(ss, ss.len() as int),
            forall|k: int|
                0 <= k < segs.len() ==> {
                    let (a, b) = #[trigger] segs@[k];
                    &&& a <= b <= v.len()
                    &&& v@.subrange(a as int, b as int) == ss[k]
                },
        decreases n,
    {
        let (a, b) = segs[n - 1];
        assert(segs@[n - 1] == (a, b));
        let named = b > a && !(b == a + 1 && v[a] == '.');
        proof {
            let seg = v@.subrange(a as int, b as int);
            if b == a + 1 {
                assert(seg == seq!['.'] <==> v@[a as int] == '.') by {
                    if v@[a as int] == '.' {
                        assert(seg == seq!['.']);
                    }
                    if seg == seq!['.'] {
                        assert(seg[0] == v@[a as int]);
                    }
                }
            } else if b > a {
                assert(seg.len() != 1);
            }
            assert(named == is_named_segment(ss[n - 1]));
        }
        if named {
            let dotdot = b - a == 2 && v[a] == '.' && v[a + 1] == '.';
            proof {
                let seg = v@.subrange(a as int, b as int);
                if b == a + 2 {
                    assert(seg == seq!['.', '.'] <==> (v@[a as int] == '.' && v@[a + 1] == '.')) by {
                        if v@[a as int] == '.' && v@[a + 1] == '.' {
                            assert(seg == seq!['.', '.']);
                        }
                        if seg == seq!['.', '.'] {
                            assert(seg[0] == v@[a as int] && seg[1] == v@[a + 1]);
                        }
                    }
                } else {
                    assert(seg.len() != 2);
                }
            }
            if dotdot {
                return None;
            }
            return Some((a, b));
        }
        n -= 1;
    }
    None
}

/// Bounds of the extension of the path `v`, if it has one.
pub fn extension_bounds(v: &[char]) -> (r: Option<(usize, usize)>)
    ensures
        match extension_s(v@) {
            Some(e) => r matches Some((a, b)) && a <= b <= v.len() && v@.subrange(
                a as int,
                b as int,
            ) == e,
            None => r is None,
        },
{
    match file_name_bounds(v) {
        None => None,
        Some((a, b)) => {
            let ghost f = v@.subrange(a as int, b as int);
            let mut n = b;
            while n > a && v[n - 1] != '.'
                invariant
                    a <= n <= b <= v.len(),
                    f == v@.subrange(a as int, b as int),
                    last_dot(f, (n - a) as int) == last_dot(f, f.len() as int),
                decreases n - a,
            {
                n -= 1;
            }
            if n == a {
                None
            } else if n - 1 == a {
                None
            } else {
                assert(f.subrange(n - a, f.len() as int) == v@.subrange(n as int, b as int));
                Some((n, b))
            }
        },
    }
}

/// Whether the path `v` has an extension equal to `ext` ignoring ASCII case.
pub fn has_extension_ignore_case(v: &[char], ext: &[char]) -> (r: bool)
    ensures
        r == (extension_s(v@) matches Some(e) && eq_ignore_case(e, ext@)),
{
    match extension_bounds(v) {
        None => false,
        Some((a, b)) => {
            let e = crate::z4::slice_chars(v, a, b);
            eq_ignore_case_exec(&e, ext)
        },
    }
}

/// The file name of `v` as a string, if any.
pub fn file_name_string(v: &[char]) -> (r: Option<String>)
    ensures
        match file_name_s(v@) {
            Some(f) => r matches Some(s) && s@ == f,
            None => r is None,
        },
{
    match file_name_bounds(v) {
        None => None,
        Some((a, b)) => Some(string_of_range(v, a, b)),
    }
}

} // verus!
