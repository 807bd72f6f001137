//! File names and extensions of relative paths written with `/` separators.

use vstd::prelude::*;
use crate::text::chars_of;

verus! {

/// The index of the last `c` in `s`, or -1 where `s` holds none.
pub open spec fn last_index(s: Seq<char>, c: char) -> int
    decreases s.len(),
{
    if s.len() == 0 {
        -1
    } else if s.last() == c {
        s.len() - 1
    } else {
        last_index(s.drop_last(), c)
    }
}

pub proof fn lemma_last_index_bounds(s: Seq<char>, c: char)
    ensures
        -1 <= last_index(s, c) < s.len(),
        last_index(s, c) >= 0 ==> s[last_index(s, c)] == c,
        forall|j: int| last_index(s, c) < j < s.len() ==> s[j] != c,
    decreases s.len(),
{
    if s.len() > 0 && s.last() != c {
        lemma_last_index_bounds(s.drop_last(), c);
        assert forall|j: int| last_index(s, c) < j < s.len() implies s[j] != c by {
            if j < s.len() - 1 {
                assert(s[j] == s.drop_last()[j]);
            }
        }
    }
}

pub proof fn lemma_last_index_is(s: Seq<char>, c: char, k: int)
    requires
        -1 <= k < s.len(),
        k >= 0 ==> s[k] == c,
        forall|j: int| k < j < s.len() ==> s[j] != c,
    ensures
        last_index(s, c) == k,
    decreases s.len(),
{
    if s.len() > 0 && s.last() != c {
        lemma_last_index_is(s.drop_last(), c, k);
    }
}

/// The final component of a path, as `Path::file_name` gives it: trailing
/// separators and `.` components are passed over, and a path that ends in
/// `..`, or has no component left, has none.
pub open spec fn file_name(p: Seq<char>) -> Option<Seq<char>>
    decreases p.len(),
{
    let j = last_index(p, '/');
    let seg = p.skip(j + 1);
    if seg.len() == 0 || seg == seq!['.'] {
        if j < 0 {
            None
        } else {
            proof {
                lemma_last_index_bounds(p, '/');
            }
            file_name(p.take(j))
        }
    } else if seg == seq!['.', '.'] {
        None
    } else {
        Some(seg)
    }
}

/// The extension of a file name, as `Path::extension` gives it: the text after
/// the last `.`, where that `.` is not the first character.
pub open spec fn extension(name: Seq<char>) -> Option<Seq<char>> {
    let k = last_index(name, '.');
    if k <= 0 {
        None
    } else {
        Some(name.skip(k + 1))
    }
}

/// Whether a relative path names a `.tex` file.
pub open spec fn is_tex_path(p: Seq<char>) -> bool {
    match file_name(p) {
        Some(n) => extension(n) == Some(seq!['t', 'e', 'x']),
        None => false,
    }
}

/// The last index in `lo..hi` that holds `c`.
fn last_index_in(v: &Vec<char>, lo: usize, hi: usize, c: char) -> (r: Option<usize>)
    requires
        lo <= hi <= v@.len(),
    ensures
        last_index(v@.subrange(lo as int, hi as int), c) == match r {
            Some(k) => k - lo,
            None => -1,
        },
        r matches Some(k) ==> lo <= k < hi,
{
    let mut i: usize = hi;
    while i > lo
        invariant
            lo <= i <= hi <= v@.len(),
            forall|j: int| i <= j < hi ==> v@[j] != c,
        decreases i - lo,
    {
        if v[i - 1] == c {
            proof {
                lemma_last_index_is(v@.subrange(lo as int, hi as int), c, i - 1 - lo);
            }
            return Some(i - 1);
        }
        i = i - 1;
    }
    proof {
        lemma_last_index_is(v@.subrange(lo as int, hi as int), c, -1);
    }
    None
}

/// Whether `path` names a `.tex` file.
pub fn tex_path(path: &str) -> (r: bool)
    ensures
        r == is_tex_path(path@),
{
    let v = chars_of(path);
    let n = v.len();
    let mut end: usize = n;
    proof {
        assert(v@.subrange(0, n as int) =~= v@);
    }
    loop
        invariant
            v@ == path@,
            n == v@.len(),
            end <= n,
            file_name(v@) == file_name(v@.subrange(0, end as int)),
        decreases end,
    {
        let ghost p = v@.subrange(0, end as int);
        let slash = last_index_in(&v, 0, end, '/');
        let start: usize = match slash {
            Some(j) => j + 1,
            None => 0,
        };
        proof {
            assert(p.skip(last_index(p, '/') + 1) =~= v@.subrange(start as int, end as int));
        }
        let seg_len = end - start;
        if seg_len == 0 || (seg_len == 1 && v[start] == '.') {
            proof {
                if seg_len == 1 {
                    assert(v@.subrange(start as int, end as int) =~= seq!['.']);
                }
            }
            match slash {
                None => {
                    return false;
                },
                Some(j) => {
                    proof {
                        assert(p.take(j as int) =~= v@.subrange(0, j as int));
                    }
                    end = j;
                },
            }
        } else if seg_len == 2 && v[start] == '.' && v[start + 1] == '.' {
            proof {
                assert(v@.subrange(start as int, end as int) =~= seq!['.', '.']);
            }
            return false;
        } else {
            proof {
                let sg = v@.subrange(start as int, end as int);
                if seg_len == 1 {
                    assert(sg[0] == v@[start as int]);
                    assert(sg != seq!['.']);
                }
                if seg_len == 2 {
                    assert(sg[0] == v@[start as int]);
                    assert(sg[1] == v@[start + 1]);
                    assert(sg != seq!['.', '.']);
                }
            }
            let ghost name = v@.subrange(start as int, end as int);
            assert(file_name(v@) == Some(name));
            let dot = last_index_in(&v, start, end, '.');
            match dot {
                None => {
                    return false;
                },
                Some(k) => {
                    if k == start {
                        return false;
                    }
                    proof {
                        assert(name.skip(k - start + 1) =~= v@.subrange(k + 1, end as int));
                    }
                    let is_tex = end - k == 4 && v[k + 1] == 't' && v[k + 2] == 'e' && v[k + 3] == 'x';
                    proof {
                        if end - k == 4 {
                            if is_tex {
                                assert(v@.subrange(k + 1, end as int) =~= seq!['t', 'e', 'x']);
                            } else {
                                let e = v@.subrange(k + 1, end as int);
                                assert(e[0] != 't' || e[1] != 'e' || e[2] != 'x');
                            }
                        }
                    }
                    return is_tex;
                },
            }
        }
    }
}

/// A path whose last component ends in `.tex` (and is more than `.tex`) names
/// a `.tex` file, wherever it stands.
pub proof fn paths_ending_in_dot_tex_are_tex(p: Seq<char>)
    requires
        p.len() > 0,
        p.last() != '/',
    ensures
        is_tex_path(p + seq!['.', 't', 'e', 'x']),
{
    let ext = seq!['.', 't', 'e', 'x'];
    let q = p + ext;
    lemma_last_index_bounds(p, '/');
    let j = last_index(p, '/');
    assert(j < p.len() - 1) by {
        if j == p.len() - 1 {
            assert(p[j] == '/');
        }
    }
    assert forall|x: int| j < x < q.len() implies q[x] != '/' by {
        if x < p.len() {
            assert(q[x] == p[x]);
        } else {
            assert(q[x] == ext[x - p.len()]);
        }
    }
    if j >= 0 {
        assert(q[j] == p[j]);
    }
    lemma_last_index_is(q, '/', j);
    let seg = q.skip(j + 1);
    assert(seg.len() >= 5);
    assert(seg != seq!['.']);
    assert(seg != seq!['.', '.']);
    assert(file_name(q) == Some(seg));
    let d = seg.len() - 4;
    assert(seg[d] == '.');
    assert forall|x: int| d < x < seg.len() implies seg[x] != '.' by {
        assert(seg[x] == ext[x - d]);
    }
    lemma_last_index_is(seg, '.', d);
    assert(seg.skip(d + 1) =~= seq!['t', 'e', 'x']);
}

} // verus!
