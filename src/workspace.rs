//! Naming of document files, and which directory entries a workspace lists
//! and in what order.
use vstd::prelude::*;
use vstd::multiset::Multiset;
use vstd::seq_lib::to_multiset_build;
use vstd::seq_lib::to_multiset_insert;
use crate::model::WorkspaceItem;
use crate::text::{append_str, chars_of, chars_occur_at, occurs_at, string_of};

verus! {

/// Whether `s` ends with `suffix`.
pub open spec fn ends_with(s: Seq<char>, suffix: Seq<char>) -> bool {
    suffix.len() <= s.len() && occurs_at(s, s.len() - suffix.len(), suffix)
}

/// A document's file name: `name`, with ".prompt" added unless it ends so.
pub open spec fn prompt_file_name(name: Seq<char>) -> Seq<char> {
    if ends_with(name, ".prompt"@) {
        name
    } else {
        name + ".prompt"@
    }
}

/// Whether `s` ends with `suffix`.
pub fn text_ends_with(s: &str, suffix: &str) -> (r: bool)
    ensures
        r == ends_with(s@, suffix@),
{
    let v = chars_of(s);
    let p = chars_of(suffix);
    if p.len() > v.len() {
        return false;
    }
    chars_occur_at(&v, v.len() - p.len(), &p)
}

/// A document's file name: `name`, with ".prompt" added unless it ends so.
pub fn prompt_file_name_of(name: &str) -> (r: String)
    ensures
        r@ == prompt_file_name(name@),
{
    let mut r = string_of(&chars_of(name));
    if !text_ends_with(name, ".prompt") {
        append_str(&mut r, ".prompt");
    }
    r
}

/// `a` comes before `b` in code point order, or equals it.
pub open spec fn text_le(a: Seq<char>, b: Seq<char>) -> bool
    decreases a.len(),
{
    if a.len() == 0 {
        true
    } else if b.len() == 0 {
        false
    } else if a[0] != b[0] {
        a[0] < b[0]
    } else {
        text_le(a.drop_first(), b.drop_first())
    }
}

/// The listing order: directories before files, each by name.
pub open spec fn item_le(a: WorkspaceItem, b: WorkspaceItem) -> bool {
    if a.is_file == b.is_file {
        text_le(a.name@, b.name@)
    } else {
        !a.is_file
    }
}

/// A listing keeps directories, and files whose name ends with ".prompt".
pub open spec fn is_listed(a: WorkspaceItem) -> bool {
    !a.is_file || ends_with(a.name@, ".prompt"@)
}

/// The entries that a listing keeps, in order.
pub open spec fn listed(s: Seq<WorkspaceItem>) -> Seq<WorkspaceItem>
    decreases s.len(),
{
    if s.len() == 0 {
        seq![]
    } else {
        listed(s.drop_last()) + (if is_listed(s.last()) {
            seq![s.last()]
        } else {
            seq![]
        })
    }
}

/// The entries stand in listing order.
pub open spec fn sorted_items(s: Seq<WorkspaceItem>) -> bool {
    forall|i: int, j: int| 0 <= i < j < s.len() ==> item_le(#[trigger] s[i], #[trigger] s[j])
}

proof fn lemma_text_le_total(a: Seq<char>, b: Seq<char>)
    ensures
        text_le(a, b) || text_le(b, a),
    decreases a.len(),
{
    if a.len() > 0 && b.len() > 0 && a[0] == b[0] {
        lemma_text_le_total(a.drop_first(), b.drop_first());
    }
}

proof fn lemma_text_le_trans(a: Seq<char>, b: Seq<char>, c: Seq<char>)
    requires
        text_le(a, b),
        text_le(b, c),
    ensures
        text_le(a, c),
    decreases a.len(),
{
    if a.len() > 0 && b.len() > 0 && c.len() > 0 && a[0] == b[0] && b[0] == c[0] {
        lemma_text_le_trans(a.drop_first(), b.drop_first(), c.drop_first());
    }
}

/// Whether `a` comes before `b` in code point order, or equals it.
fn text_le_exec(a: &str, b: &str) -> (r: bool)
    ensures
        r == text_le(a@, b@),
{
    let x = chars_of(a);
    let y = chars_of(b);
    let mut i: usize = 0;
    assert(x@.skip(0) =~= x@);
    assert(y@.skip(0) =~= y@);
    while i < x.len() && i < y.len() && x[i] == y[i]
        invariant
            i <= x@.len(),
            i <= y@.len(),
            text_le(x@, y@) == text_le(x@.skip(i as int), y@.skip(i as int)),
        decreases x.len() - i,
    {
        assert(x@.skip(i as int).drop_first() =~= x@.skip(i + 1));
        assert(y@.skip(i as int).drop_first() =~= y@.skip(i + 1));
        i = i + 1;
    }
    if i == x.len() {
        true
    } else if i == y.len() {
        false
    } else {
        assert(x@.skip(i as int)[0] == x@[i as int]);
        assert(y@.skip(i as int)[0] == y@[i as int]);
        x[i] < y[i]
    }
}

/// Whether `a` comes before `b` in the listing order, or ties with it.
fn item_le_exec(a: &WorkspaceItem, b: &WorkspaceItem) -> (r: bool)
    ensures
        r == item_le(*a, *b),
{
    if a.is_file == b.is_file {
        text_le_exec(a.name.as_str(), b.name.as_str())
    } else {
        !a.is_file
    }
}

/// The entries of a workspace directory that its listing shows, in listing
/// order: directories, and files whose name ends with ".prompt"; directories
/// first, then by name.
pub fn select_workspace_items(items: Vec<WorkspaceItem>) -> (r: Vec<WorkspaceItem>)
    ensures
        r@.to_multiset() == listed(items@).to_multiset(),
        sorted_items(r@),
{
    broadcast use vstd::seq_lib::group_to_multiset_ensures, vstd::multiset::group_multiset_axioms;

    let ghost orig = items@;
    let mut rest = items;
    let mut r: Vec<WorkspaceItem> = Vec::new();
    assert(r@.to_multiset() =~= Multiset::empty());
    assert(listed(rest@).to_multiset().add(r@.to_multiset()) =~= listed(orig).to_multiset());
    while rest.len() > 0
        invariant
            listed(rest@).to_multiset().add(r@.to_multiset()) == listed(orig).to_multiset(),
            sorted_items(r@),
        decreases rest.len(),
    {
        let ghost before = rest@;
        let x = rest.pop().unwrap();
        assert(rest@ =~= before.drop_last());
        assert(x == before.last());
        if !x.is_file || text_ends_with(x.name.as_str(), ".prompt") {
            let mut p: usize = 0;
            while p < r.len() && item_le_exec(&r[p], &x)
                invariant
                    p <= r@.len(),
                    forall|i: int| 0 <= i < p ==> item_le(#[trigger] r@[i], x),
                decreases r.len() - p,
            {
                p = p + 1;
            }
            proof {
                if p < r@.len() {
                    lemma_text_le_total(r@[p as int].name@, x.name@);
                }
                assert forall|j: int| p <= j < r@.len() implies item_le(x, #[trigger] r@[j]) by {
                    lemma_text_le_total(r@[p as int].name@, x.name@);
                    if j > p {
                        assert(item_le(r@[p as int], r@[j]));
                        if x.is_file == r@[p as int].is_file && r@[p as int].is_file == r@[j].is_file {
                            lemma_text_le_trans(x.name@, r@[p as int].name@, r@[j].name@);
                        }
                    }
                }
                to_multiset_insert(r@, p as int, x);
                to_multiset_build(listed(rest@), x);
            }
            let ghost old_r = r@;
            r.insert(p, x);
            assert forall|i: int, j: int| 0 <= i < j < r@.len() implies item_le(#[trigger] r@[i], #[trigger] r@[j]) by {
                if j < p {
                    assert(item_le(old_r[i], old_r[j]));
                } else if j == p {
                } else if i < p {
                    assert(item_le(old_r[i], x));
                    assert(item_le(x, old_r[j - 1]));
                    if old_r[i].is_file == x.is_file && x.is_file == old_r[j - 1].is_file {
                        lemma_text_le_trans(old_r[i].name@, x.name@, old_r[j - 1].name@);
                    }
                } else if i == p {
                } else {
                    assert(item_le(old_r[i - 1], old_r[j - 1]));
                }
            }
            assert(listed(before) == listed(rest@).push(x));
            assert(r@.to_multiset() == old_r.to_multiset().insert(x));
            assert(listed(rest@).to_multiset().add(r@.to_multiset()) =~= listed(before).to_multiset().add(
                old_r.to_multiset(),
            ));
        } else {
            assert(listed(before) =~= listed(rest@));
        }
    }
    assert(listed(rest@) =~= Seq::<WorkspaceItem>::empty());
    assert(listed(rest@).to_multiset() =~= Multiset::empty());
    assert(r@.to_multiset() =~= Multiset::<WorkspaceItem>::empty().add(r@.to_multiset()));
    r
}

} // verus!
