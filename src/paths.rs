//! How a file's path is shown in a header, and the language tag of its fence.
use vstd::prelude::*;
use crate::text::{chars_of, lower_of, lowercase, replace_char, replace_chars, string_of};

verus! {

/// The views of a sequence of character vectors.
pub open spec fn views(v: Seq<Vec<char>>) -> Seq<Seq<char>> {
    v.map_values(|x: Vec<char>| x@)
}

/// `p` with each backslash turned into a slash.
pub open spec fn normalize(p: Seq<char>) -> Seq<char> {
    replace_char(p, '\\', '/')
}

/// The non-empty runs of `s` between slashes, after the pending run `cur`.
pub open spec fn split_segs(s: Seq<char>, cur: Seq<char>) -> Seq<Seq<char>>
    decreases s.len(),
{
    if s.len() == 0 {
        if cur.len() > 0 {
            seq![cur]
        } else {
            seq![]
        }
    } else if s[0] == '/' {
        (if cur.len() > 0 {
            seq![cur]
        } else {
            seq![]
        }) + split_segs(s.drop_first(), seq![])
    } else {
        split_segs(s.drop_first(), cur.push(s[0]))
    }
}

/// The non-empty segments of a slash-separated path.
pub open spec fn segments(s: Seq<char>) -> Seq<Seq<char>> {
    split_segs(s, seq![])
}

/// The parts joined, with `sep` between each two.
pub open spec fn join_with(parts: Seq<Seq<char>>, sep: Seq<char>) -> Seq<char>
    decreases parts.len(),
{
    if parts.len() == 0 {
        seq![]
    } else if parts.len() == 1 {
        parts[0]
    } else {
        join_with(parts.drop_last(), sep) + sep + parts.last()
    }
}

/// The path as a header shows it: normalized, and cut down to its last
/// `path_segments` segments when it has more than that and the count is positive.
pub open spec fn display_path(path: Seq<char>, path_segments: i32) -> Seq<char> {
    let n = normalize(path);
    let segs = segments(n);
    if path_segments < 1 || segs.len() <= path_segments {
        n
    } else {
        join_with(segs.skip(segs.len() - path_segments), seq!['/'])
    }
}

/// The position of the last dot of `s`, or -1.
pub open spec fn last_dot(s: Seq<char>) -> int
    decreases s.len(),
{
    if s.len() == 0 {
        -1
    } else if s.last() == '.' {
        s.len() - 1
    } else {
        last_dot(s.drop_last())
    }
}

/// The fence tag of a file: what follows the last dot, lower-cased; empty
/// without a dot.
pub open spec fn extension(path: Seq<char>) -> Seq<char> {
    if last_dot(path) < 0 {
        seq![]
    } else {
        lower_of(path.subrange(last_dot(path) + 1, path.len() as int))
    }
}

proof fn lemma_last_dot_bounds(s: Seq<char>)
    ensures
        -1 <= last_dot(s) < s.len(),
        last_dot(s) >= 0 ==> s[last_dot(s)] == '.',
    decreases s.len(),
{
    if s.len() > 0 && s.last() != '.' {
        lemma_last_dot_bounds(s.drop_last());
    }
}

/// The non-empty segments of a slash-separated path.
pub fn path_segments_of(s: &Vec<char>) -> (r: Vec<Vec<char>>)
    ensures
        views(r@) == segments(s@),
{
    let mut out: Vec<Vec<char>> = Vec::new();
    let mut cur: Vec<char> = Vec::new();
    let mut i: usize = 0;
    assert(s@.skip(0) =~= s@);
    while i < s.len()
        invariant
            i <= s@.len(),
            views(out@) + split_segs(s@.skip(i as int), cur@) == segments(s@),
        decreases s.len() - i,
    {
        let ghost t = s@.skip(i as int);
        assert(t[0] == s@[i as int]);
        assert(t.drop_first() =~= s@.skip(i + 1));
        if s[i] == '/' {
            if cur.len() > 0 {
                let ghost old_out = out@;
                out.push(cur);
                assert(views(out@) =~= views(old_out) + seq![cur@]);
            }
            cur = Vec::new();
            assert(cur@ =~= Seq::<char>::empty());
        } else {
            cur.push(s[i]);
        }
        i = i + 1;
        assert(views(out@) + split_segs(s@.skip(i as int), cur@) =~= segments(s@));
    }
    assert(s@.skip(i as int) =~= Seq::<char>::empty());
    if cur.len() > 0 {
        let ghost old_out = out@;
        out.push(cur);
        assert(views(out@) =~= views(old_out) + seq![cur@]);
    }
    assert(views(out@) =~= segments(s@));
    out
}

/// The parts from `start` on, joined by slashes.
fn join_from(parts: &Vec<Vec<char>>, start: usize) -> (r: Vec<char>)
    requires
        start < parts@.len(),
    ensures
        r@ == join_with(views(parts@).skip(start as int), seq!['/']),
{
    let ghost ps = views(parts@);
    let mut out: Vec<char> = parts[start].clone();
    assert(ps.subrange(start as int, start + 1).drop_last().len() == 0);
    assert(out@ == join_with(ps.subrange(start as int, start + 1), seq!['/']));
    let n = parts.len();
    let mut k: usize = start + 1;
    while k < parts.len()
        invariant
            start < k <= parts@.len(),
            ps == views(parts@),
            out@ == join_with(ps.subrange(start as int, k as int), seq!['/']),
        decreases parts.len() - k,
    {
        out.push('/');
        let mut j: usize = 0;
        let ghost before = out@;
        while j < parts[k].len()
            invariant
                k < parts@.len(),
                j <= parts@[k as int]@.len(),
                out@ == before + parts@[k as int]@.take(j as int),
            decreases parts@[k as int]@.len() - j,
        {
            out.push(parts[k][j]);
            j = j + 1;
            assert(out@ =~= before + parts@[k as int]@.take(j as int));
        }
        assert(parts@[k as int]@.take(j as int) =~= parts@[k as int]@);
        assert(ps.subrange(start as int, k + 1).drop_last() =~= ps.subrange(start as int, k as int));
        k = k + 1;
        assert(out@ =~= join_with(ps.subrange(start as int, k as int), seq!['/']));
    }
    assert(ps.subrange(start as int, k as int) =~= ps.skip(start as int));
    out
}

/// The path as a header shows it: slashes for backslashes, and only the last
/// `path_segments` segments when the path has more and the count is positive.
pub fn get_display_path(full_path: &str, path_segments: i32) -> (r: String)
    ensures
        r@ == display_path(full_path@, path_segments),
{
    let normalized = replace_chars(&chars_of(full_path), '\\', '/');
    if path_segments < 1 {
        return string_of(&normalized);
    }
    let parts = path_segments_of(&normalized);
    assert(views(parts@).len() == parts@.len());
    if parts.len() <= path_segments as usize {
        return string_of(&normalized);
    }
    let start = parts.len() - path_segments as usize;
    string_of(&join_from(&parts, start))
}

/// The language tag of a file's fence: what follows the last dot of the path,
/// lower-cased; empty when the path has no dot.
pub fn get_file_extension(file_path: &str) -> (r: String)
    ensures
        r@ == extension(file_path@),
{
    let v = chars_of(file_path);
    let n = v.len();
    let mut j: usize = n;
    assert(v@.take(n as int) =~= v@);
    while j > 0 && v[j - 1] != '.'
        invariant
            j <= n == v@.len(),
            last_dot(v@) == last_dot(v@.take(j as int)),
        decreases j,
    {
        assert(v@.take(j as int).drop_last() =~= v@.take(j - 1));
        j = j - 1;
    }
    if j == 0 {
        return String::new();
    }
    proof {
        lemma_last_dot_bounds(v@);
    }
    let mut tail: Vec<char> = Vec::new();
    let mut k: usize = j;
    while k < n
        invariant
            j <= k <= n == v@.len(),
            tail@ == v@.subrange(j as int, k as int),
        decreases n - k,
    {
        tail.push(v[k]);
        k = k + 1;
        assert(tail@ =~= v@.subrange(j as int, k as int));
    }
    let s = string_of(&tail);
    lowercase(s.as_str())
}

} // verus!
