//! Properties of composition that hold for every document.
use vstd::prelude::*;
use crate::compose::{
    block_content, block_contents, compose, file_part, hidden, is_selected, join_nonempty,
    lemma_match_at_found, match_at, placeholder, sections, substitute, text_part,
};
use crate::text::occurs_at;
use crate::model::{lookup, FileBoxItem, PromptFile};

verus! {

/// Whether the block keyed `id` may show anything: its text block, or its
/// file block with its file list, is there and neither disabled nor shadow.
pub open spec fn eligible(pf: PromptFile, id: Seq<char>) -> bool {
    ||| (lookup(pf.text_boxes@, id) matches Some(tb) && !hidden(tb.mode@))
    ||| (pf.file_boxes matches Some(fb) && pf.file_box_data matches Some(fd) && lookup(fb@, id)
        matches Some(b) && lookup(fd@, id) is Some && !hidden(b.mode@))
}

/// Joining parts that are all empty gives the empty text.
pub proof fn lemma_join_all_empty(parts: Seq<Seq<char>>)
    requires
        forall|i: int| 0 <= i < parts.len() ==> (#[trigger] parts[i]).len() == 0,
    ensures
        join_nonempty(parts) == Seq::<char>::empty(),
    decreases parts.len(),
{
    if parts.len() > 0 {
        lemma_join_all_empty(parts.drop_last());
    }
}

/// An empty part leaves no trace in the joined text: not even a separator.
pub proof fn lemma_join_skips_empty(parts: Seq<Seq<char>>, i: int)
    requires
        0 <= i < parts.len(),
        parts[i].len() == 0,
    ensures
        join_nonempty(parts) == join_nonempty(parts.remove(i)),
    decreases parts.len(),
{
    if i == parts.len() - 1 {
        assert(parts.remove(i) =~= parts.drop_last());
    } else {
        lemma_join_skips_empty(parts.drop_last(), i);
        assert(parts.remove(i).drop_last() =~= parts.drop_last().remove(i));
        assert(parts.remove(i).last() == parts.last());
    }
}

/// A block that is not eligible contributes nothing.
pub proof fn lemma_ineligible_block_is_empty(
    pf: PromptFile,
    reads: Seq<(String, Result<String, String>)>,
    id: Seq<char>,
)
    requires
        !eligible(pf, id),
    ensures
        block_content(pf, reads, id) == Seq::<char>::empty(),
{
}

/// A disabled or shadow text block gives no text, and a disabled or shadow
/// file block gives no file sections, whatever the other facet of the block.
pub proof fn lemma_hidden_facets_give_nothing(
    pf: PromptFile,
    reads: Seq<(String, Result<String, String>)>,
    id: Seq<char>,
)
    ensures
        (lookup(pf.text_boxes@, id) matches Some(tb) && hidden(tb.mode@)) ==> text_part(pf, id)
            == Seq::<char>::empty(),
        (pf.file_boxes matches Some(fb) && lookup(fb@, id) matches Some(b) && hidden(b.mode@))
            ==> file_part(pf, reads, id) == Seq::<char>::empty(),
{
}

/// A document whose order names no eligible block composes to the empty text.
pub proof fn lemma_no_eligible_block_gives_empty(pf: PromptFile, reads: Seq<(String, Result<String, String>)>)
    requires
        forall|i: int| 0 <= i < pf.order@.len() ==> !eligible(pf, #[trigger] pf.order@[i]@),
    ensures
        compose(pf, reads) == Seq::<char>::empty(),
{
    let parts = block_contents(pf, reads);
    assert forall|i: int| 0 <= i < parts.len() implies (#[trigger] parts[i]).len() == 0 by {
        lemma_ineligible_block_is_empty(pf, reads, pf.order@[i]@);
    }
    lemma_join_all_empty(parts);
}

/// A block whose text block and file block are each missing, disabled or
/// shadow adds nothing to the output: the document composes as if its place
/// in the order were gone.
pub proof fn lemma_hidden_block_leaves_no_trace(
    pf: PromptFile,
    reads: Seq<(String, Result<String, String>)>,
    i: int,
)
    requires
        0 <= i < pf.order@.len(),
        !eligible(pf, pf.order@[i]@),
    ensures
        compose(pf, reads) == join_nonempty(block_contents(pf, reads).remove(i)),
{
    lemma_ineligible_block_is_empty(pf, reads, pf.order@[i]@);
    lemma_join_skips_empty(block_contents(pf, reads), i);
}

/// A file entry that is unchecked or has an empty path adds no section: the
/// sections are those of the list without it.
pub proof fn lemma_unselected_file_leaves_no_trace(
    files: Seq<FileBoxItem>,
    path_segments: i32,
    reads: Seq<(String, Result<String, String>)>,
    i: int,
)
    requires
        0 <= i < files.len(),
        !is_selected(files[i]),
    ensures
        sections(files, path_segments, reads) == sections(files.remove(i), path_segments, reads),
    decreases files.len(),
{
    if i == files.len() - 1 {
        assert(files.remove(i) =~= files.drop_last());
    } else {
        lemma_unselected_file_leaves_no_trace(files.drop_last(), path_segments, reads, i);
        assert(files.remove(i).drop_last() =~= files.drop_last().remove(i));
        assert(files.remove(i).last() == files.last());
    }
}

/// Two compositions of the same document with the same file contents give
/// the same text.
pub proof fn lemma_compose_deterministic(
    pf1: PromptFile,
    pf2: PromptFile,
    reads1: Seq<(String, Result<String, String>)>,
    reads2: Seq<(String, Result<String, String>)>,
)
    requires
        pf1 == pf2,
        reads1 == reads2,
    ensures
        compose(pf1, reads1) == compose(pf2, reads2),
{
}

/// `k` holds no brace.
pub open spec fn brace_free(k: Seq<char>) -> bool {
    forall|i: int| 0 <= i < k.len() ==> #[trigger] k[i] != '{' && k[i] != '}'
}

/// No variable name holds a brace.
pub open spec fn names_brace_free(defs: Seq<(Seq<char>, Seq<char>)>) -> bool {
    forall|j: int| 0 <= j < defs.len() ==> brace_free(#[trigger] defs[j].0)
}

/// The index of the last of the first `n` variables named `k`.
pub open spec fn last_index(defs: Seq<(Seq<char>, Seq<char>)>, k: Seq<char>, n: int) -> Option<int>
    decreases n,
{
    if n <= 0 {
        None
    } else if defs[n - 1].0 == k {
        Some(n - 1)
    } else {
        last_index(defs, k, n - 1)
    }
}

/// No placeholder of a variable starts in `c1` and runs past its end into `c2`.
pub open spec fn no_straddle(c1: Seq<char>, c2: Seq<char>, defs: Seq<(Seq<char>, Seq<char>)>) -> bool {
    forall|i: int, j: int|
        0 <= i < c1.len() && 0 <= j < defs.len() && #[trigger] occurs_at(c1 + c2, i, placeholder(defs[j].0))
            ==> i + placeholder(defs[j].0).len() <= c1.len()
}

proof fn lemma_placeholder_chars(k: Seq<char>)
    ensures
        placeholder(k).len() == k.len() + 4,
        placeholder(k)[0] == '{',
        placeholder(k)[1] == '{',
        placeholder(k)[k.len() as int + 2] == '}',
        placeholder(k)[k.len() as int + 3] == '}',
        forall|m: int| 0 <= m < k.len() ==> #[trigger] placeholder(k)[m + 2] == k[m],
{
}

proof fn lemma_match_at_same(c: Seq<char>, d: Seq<char>, defs: Seq<(Seq<char>, Seq<char>)>, n: int)
    requires
        n <= defs.len(),
        forall|j: int| 0 <= j < n ==> occurs_at(c, 0, placeholder(#[trigger] defs[j].0)) == occurs_at(d, 0, placeholder(defs[j].0)),
    ensures
        match_at(c, defs, n) == match_at(d, defs, n),
    decreases n,
{
    if n > 0 {
        lemma_match_at_same(c, d, defs, n - 1);
    }
}

proof fn lemma_match_at_none(c: Seq<char>, defs: Seq<(Seq<char>, Seq<char>)>, n: int)
    requires
        n <= defs.len(),
        forall|j: int| 0 <= j < n ==> !occurs_at(c, 0, placeholder(#[trigger] defs[j].0)),
    ensures
        match_at(c, defs, n) is None,
    decreases n,
{
    if n > 0 {
        lemma_match_at_none(c, defs, n - 1);
    }
}

/// Substitution works piece by piece where no placeholder spans the seam.
pub proof fn lemma_substitute_concat(c1: Seq<char>, c2: Seq<char>, defs: Seq<(Seq<char>, Seq<char>)>)
    requires
        no_straddle(c1, c2, defs),
    ensures
        substitute(c1 + c2, defs) == substitute(c1, defs) + substitute(c2, defs),
    decreases c1.len(),
{
    let c = c1 + c2;
    if c1.len() == 0 {
        assert(c =~= c2);
        return;
    }
    let n = defs.len() as int;
    assert forall|j: int| 0 <= j < n implies occurs_at(c, 0, placeholder(#[trigger] defs[j].0))
        == occurs_at(c1, 0, placeholder(defs[j].0)) by {
        let p = placeholder(defs[j].0);
        if occurs_at(c, 0, p) {
            assert(c1.subrange(0, p.len() as int) =~= c.subrange(0, p.len() as int));
        }
        if occurs_at(c1, 0, p) {
            assert(c1.subrange(0, p.len() as int) =~= c.subrange(0, p.len() as int));
        }
    }
    lemma_match_at_same(c, c1, defs, n);
    lemma_match_at_found(c1, defs, n);
    let step: int = match match_at(c1, defs, n) {
        Some(j) => placeholder(defs[j].0).len() as int,
        None => 1,
    };
    assert(0 < step <= c1.len());
    let r1 = c1.skip(step);
    assert(c.skip(step) =~= r1 + c2);
    assert forall|i: int, j: int|
        0 <= i < r1.len() && 0 <= j < defs.len() && #[trigger] occurs_at(r1 + c2, i, placeholder(defs[j].0))
            implies i + placeholder(defs[j].0).len() <= r1.len() by {
        let p = placeholder(defs[j].0);
        assert((r1 + c2).subrange(i, i + p.len()) =~= c.subrange(i + step, i + step + p.len()));
        assert(occurs_at(c, i + step, p));
    }
    lemma_substitute_concat(r1, c2, defs);
    match match_at(c1, defs, n) {
        Some(j) => {
            assert(substitute(c, defs) == defs[j].1 + substitute(c.skip(step), defs));
            assert(substitute(c1, defs) == defs[j].1 + substitute(r1, defs));
        },
        None => {
            assert(c[0] == c1[0]);
            assert(substitute(c, defs) == seq![c[0]] + substitute(c.skip(step), defs));
            assert(substitute(c1, defs) == seq![c1[0]] + substitute(r1, defs));
        },
    }
    assert(substitute(c, defs) =~= substitute(c1, defs) + substitute(c2, defs));
}

/// Text in which no variable's placeholder occurs comes out of substitution
/// unchanged.
pub proof fn lemma_no_placeholder_unchanged(c: Seq<char>, defs: Seq<(Seq<char>, Seq<char>)>)
    requires
        forall|i: int, j: int|
            0 <= i < c.len() && 0 <= j < defs.len() ==> !#[trigger] occurs_at(c, i, placeholder(#[trigger] defs[j].0)),
    ensures
        substitute(c, defs) == c,
    decreases c.len(),
{
    if c.len() > 0 {
        assert forall|j: int| 0 <= j < defs.len() implies !occurs_at(c, 0, placeholder(#[trigger] defs[j].0)) by {
            assert(!occurs_at(c, 0, placeholder(defs[j].0)));
        }
        lemma_match_at_none(c, defs, defs.len() as int);
        let r = c.skip(1);
        assert forall|i: int, j: int| 0 <= i < r.len() && 0 <= j < defs.len() implies !#[trigger] occurs_at(r, i, placeholder(#[trigger] defs[j].0)) by {
            let p = placeholder(defs[j].0);
            if occurs_at(r, i, p) {
                assert(r.subrange(i, i + p.len()) =~= c.subrange(i + 1, i + 1 + p.len()));
                assert(occurs_at(c, i + 1, p));
            }
        }
        lemma_no_placeholder_unchanged(r, defs);
        assert(seq![c[0]] + r =~= c);
    }
}

/// With brace-free names, no placeholder runs from `c1` into text that opens
/// with two braces.
proof fn lemma_no_straddle_before_braces(c1: Seq<char>, c2: Seq<char>, defs: Seq<(Seq<char>, Seq<char>)>)
    requires
        names_brace_free(defs),
        c2.len() >= 2,
        c2[0] == '{',
        c2[1] == '{',
    ensures
        no_straddle(c1, c2, defs),
{
    let c = c1 + c2;
    assert forall|i: int, j: int|
        0 <= i < c1.len() && 0 <= j < defs.len() && #[trigger] occurs_at(c1 + c2, i, placeholder(defs[j].0))
            implies i + placeholder(defs[j].0).len() <= c1.len() by {
        let k = defs[j].0;
        let p = placeholder(k);
        lemma_placeholder_chars(k);
        assert(brace_free(k));
        if i + p.len() > c1.len() {
            let off = c1.len() - i;
            assert(p[off] == c.subrange(i, i + p.len())[off]);
            assert(p[off] == c[c1.len() as int]);
            assert(c[c1.len() as int] == '{');
            if off == 1 {
                assert(p[2] == c.subrange(i, i + p.len())[2]);
                assert(p[2] == c[c1.len() as int + 1]);
                if k.len() > 0 {
                    assert(p[(0 as int) + 2] == k[0]);
                }
            } else {
                if off - 2 < k.len() {
                    assert(p[(off - 2) + 2] == k[off - 2]);
                }
            }
        }
    }
}

/// With brace-free names, the placeholder of `k` at the start of a text
/// matches exactly the variables named `k`.
proof fn lemma_placeholder_matches_name(k: Seq<char>, rest: Seq<char>, k2: Seq<char>)
    requires
        brace_free(k),
        brace_free(k2),
    ensures
        occurs_at(placeholder(k) + rest, 0, placeholder(k2)) <==> k2 == k,
{
    let c = placeholder(k) + rest;
    lemma_placeholder_chars(k);
    lemma_placeholder_chars(k2);
    let p = placeholder(k2);
    if k2 == k {
        assert(c.subrange(0, p.len() as int) =~= p);
    }
    if occurs_at(c, 0, p) {
        assert forall|m: int| 0 <= m < p.len() implies p[m] == c[m] by {
            assert(c.subrange(0, p.len() as int)[m] == c[m]);
        }
        if k2.len() < k.len() {
            assert(p[k2.len() as int + 2] == c[k2.len() as int + 2]);
            assert(c[k2.len() as int + 2] == placeholder(k)[k2.len() as int + 2]);
            assert(placeholder(k)[k2.len() as int + 2] == k[k2.len() as int]);
        } else if k2.len() > k.len() {
            assert(p[k.len() as int + 2] == c[k.len() as int + 2]);
            assert(c[k.len() as int + 2] == placeholder(k)[k.len() as int + 2]);
            assert(p[k.len() as int + 2] == k2[k.len() as int]);
        } else {
            assert forall|m: int| 0 <= m < k.len() implies k2[m] == k[m] by {
                assert(p[m + 2] == c[m + 2]);
                assert(c[m + 2] == placeholder(k)[m + 2]);
            }
            assert(k2 =~= k);
        }
    }
}

proof fn lemma_match_at_is_last_index(k: Seq<char>, rest: Seq<char>, defs: Seq<(Seq<char>, Seq<char>)>, n: int)
    requires
        n <= defs.len(),
        names_brace_free(defs),
        brace_free(k),
    ensures
        match_at(placeholder(k) + rest, defs, n) == last_index(defs, k, n),
    decreases n,
{
    if n > 0 {
        assert(brace_free(defs[n - 1].0));
        lemma_placeholder_matches_name(k, rest, defs[n - 1].0);
        lemma_match_at_is_last_index(k, rest, defs, n - 1);
    }
}

/// With brace-free names, each placeholder of a defined name is replaced by
/// the value of the name's last definition, wherever it stands and however
/// often it occurs: the text around it is substituted on its own.
pub proof fn lemma_placeholder_replaced(
    c1: Seq<char>,
    k: Seq<char>,
    c2: Seq<char>,
    defs: Seq<(Seq<char>, Seq<char>)>,
)
    requires
        names_brace_free(defs),
        brace_free(k),
        last_index(defs, k, defs.len() as int) is Some,
    ensures
        substitute(c1 + placeholder(k) + c2, defs) == substitute(c1, defs) + defs[last_index(
            defs,
            k,
            defs.len() as int,
        )->0].1 + substitute(c2, defs),
{
    let p = placeholder(k);
    let tail = p + c2;
    lemma_placeholder_chars(k);
    assert(c1 + p + c2 =~= c1 + tail);
    lemma_no_straddle_before_braces(c1, tail, defs);
    lemma_substitute_concat(c1, tail, defs);
    lemma_match_at_is_last_index(k, c2, defs, defs.len() as int);
    let j = last_index(defs, k, defs.len() as int)->0;
    lemma_match_at_found(tail, defs, defs.len() as int);
    lemma_last_index_found(defs, k, defs.len() as int);
    assert(defs[j].0 == k);
    assert(tail.skip(p.len() as int) =~= c2);
    assert(substitute(tail, defs) == defs[j].1 + substitute(c2, defs));
}

proof fn lemma_last_index_found(defs: Seq<(Seq<char>, Seq<char>)>, k: Seq<char>, n: int)
    ensures
        last_index(defs, k, n) matches Some(j) ==> 0 <= j < n && defs[j].0 == k,
    decreases n,
{
    if n > 0 && defs[n - 1].0 != k {
        lemma_last_index_found(defs, k, n - 1);
    }
}

proof fn lemma_last_index_none(defs: Seq<(Seq<char>, Seq<char>)>, k: Seq<char>, n: int, j: int)
    requires
        last_index(defs, k, n) is None,
        0 <= j < n,
    ensures
        defs[j].0 != k,
    decreases n,
{
    if j < n - 1 {
        lemma_last_index_none(defs, k, n - 1, j);
    }
}

/// With brace-free names, a placeholder of a name that no variable has stays
/// as it is, wherever it stands: the text around it is substituted on its own.
pub proof fn lemma_unknown_placeholder_kept(
    c1: Seq<char>,
    k: Seq<char>,
    c2: Seq<char>,
    defs: Seq<(Seq<char>, Seq<char>)>,
)
    requires
        names_brace_free(defs),
        brace_free(k),
        last_index(defs, k, defs.len() as int) is None,
    ensures
        substitute(c1 + placeholder(k) + c2, defs) == substitute(c1, defs) + placeholder(k)
            + substitute(c2, defs),
{
    let p = placeholder(k);
    let tail = p + c2;
    lemma_placeholder_chars(k);
    assert(c1 + p + c2 =~= c1 + tail);
    lemma_no_straddle_before_braces(c1, tail, defs);
    lemma_substitute_concat(c1, tail, defs);
    // no placeholder of a variable starts inside `p`
    assert forall|i: int, j: int|
        0 <= i < p.len() && 0 <= j < defs.len() implies !#[trigger] occurs_at(p + c2, i, placeholder(#[trigger] defs[j].0)) by {
        let k2 = defs[j].0;
        let q = placeholder(k2);
        lemma_placeholder_chars(k2);
        if occurs_at(tail, i, q) {
            assert(q[0] == tail.subrange(i, i + q.len())[0]);
            assert(q[1] == tail.subrange(i, i + q.len())[1]);
            if i == 0 {
                lemma_placeholder_matches_name(k, c2, k2);
                lemma_last_index_none(defs, k, defs.len() as int, j);
            } else if i == 1 {
                if k.len() > 0 {
                    assert(p[(0 as int) + 2] == k[0]);
                }
                assert(tail[2] == p[2]);
            } else if i - 2 < k.len() {
                assert(p[(i - 2) + 2] == k[i - 2]);
                assert(tail[i] == p[i]);
            } else {
                assert(tail[i] == p[i]);
            }
        }
    }
    assert(no_straddle(p, c2, defs));
    lemma_substitute_concat(p, c2, defs);
    assert forall|i: int, j: int|
        0 <= i < p.len() && 0 <= j < defs.len() implies !#[trigger] occurs_at(p, i, placeholder(#[trigger] defs[j].0)) by {
        let q = placeholder(defs[j].0);
        if occurs_at(p, i, q) {
            assert(tail.subrange(i, i + q.len()) =~= p.subrange(i, i + q.len()));
            assert(occurs_at(tail, i, q));
        }
    }
    lemma_no_placeholder_unchanged(p, defs);
}

} // verus!
