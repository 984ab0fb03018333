//! Rendering of a document into one context text: shadow variables, text
//! blocks with placeholder substitution, file blocks, and their joining.
use vstd::prelude::*;
use crate::model::{
    find_entry, lookup, FileBox, FileBoxData, FileBoxItem, PromptFile, TextBox, Variant, VariantData,
};
use crate::paths::{display_path, extension, get_display_path, get_file_extension, join_with};
use crate::text::{
    append_str, chars_of, lower_of, lowercase, occurs_at, replace_char, replace_chars, same_text,
    string_of, trim, trim_chars,
};

verus! {

/// A mode that keeps a block out of the output.
pub open spec fn hidden(mode: Seq<char>) -> bool {
    mode == "disabled"@ || mode == "shadow"@
}

/// The variable name that a variant title gives: trimmed, lower-cased, with
/// underscores for spaces.
pub open spec fn var_name(title: Seq<char>) -> Seq<char> {
    replace_char(lower_of(trim(title)), ' ', '_')
}

/// The variables that a list of variants defines, in order.
pub open spec fn variant_defs(vs: Seq<Variant>) -> Seq<(Seq<char>, Seq<char>)>
    decreases vs.len(),
{
    if vs.len() == 0 {
        seq![]
    } else {
        variant_defs(vs.drop_last()) + (if var_name(vs.last().title@).len() > 0 {
            seq![(var_name(vs.last().title@), vs.last().content@)]
        } else {
            seq![]
        })
    }
}

/// The variables that one keyed text block defines: those of all its variants
/// when it is a shadow block.
pub open spec fn box_defs(entry: (String, TextBox), variants: Seq<(String, VariantData)>) -> Seq<
    (Seq<char>, Seq<char>),
> {
    if entry.1.mode@ == "shadow"@ {
        match lookup(variants, entry.0@) {
            Some(vd) => variant_defs(vd.variants@),
            None => seq![],
        }
    } else {
        seq![]
    }
}

/// The variables that a list of text blocks defines, in order.
pub open spec fn defs_from(boxes: Seq<(String, TextBox)>, variants: Seq<(String, VariantData)>) -> Seq<
    (Seq<char>, Seq<char>),
>
    decreases boxes.len(),
{
    if boxes.len() == 0 {
        seq![]
    } else {
        defs_from(boxes.drop_last(), variants) + box_defs(boxes.last(), variants)
    }
}

/// The variables of a document, as (name, value) in order of definition; a
/// later definition of a name wins.
pub open spec fn variables(pf: PromptFile) -> Seq<(Seq<char>, Seq<char>)> {
    defs_from(pf.text_boxes@, pf.variants@)
}

/// The placeholder `{{k}}`.
pub open spec fn placeholder(k: Seq<char>) -> Seq<char> {
    seq!['{', '{'] + k + seq!['}', '}']
}

/// The last of the first `n` variables whose placeholder starts `c`.
pub open spec fn match_at(c: Seq<char>, defs: Seq<(Seq<char>, Seq<char>)>, n: int) -> Option<int>
    decreases n,
{
    if n <= 0 {
        None
    } else if occurs_at(c, 0, placeholder(defs[n - 1].0)) {
        Some(n - 1)
    } else {
        match_at(c, defs, n - 1)
    }
}

/// `c` with each placeholder of a variable replaced by its value, left to
/// right; a value put in is not scanned again.
pub open spec fn substitute(c: Seq<char>, defs: Seq<(Seq<char>, Seq<char>)>) -> Seq<char>
    decreases c.len(),
{
    if c.len() == 0 {
        seq![]
    } else {
        match match_at(c, defs, defs.len() as int) {
            Some(j) => if occurs_at(c, 0, placeholder(defs[j].0)) {
                defs[j].1 + substitute(c.skip(placeholder(defs[j].0).len() as int), defs)
            } else {
                seq![c[0]] + substitute(c.skip(1), defs)
            },
            None => seq![c[0]] + substitute(c.skip(1), defs),
        }
    }
}

/// The views of a list of (name, value) pairs.
pub open spec fn pairs_view(v: Seq<(Vec<char>, Vec<char>)>) -> Seq<(Seq<char>, Seq<char>)> {
    v.map_values(|p: (Vec<char>, Vec<char>)| (p.0@, p.1@))
}

/// A match names a variable whose placeholder starts the text.
pub proof fn lemma_match_at_found(c: Seq<char>, defs: Seq<(Seq<char>, Seq<char>)>, n: int)
    requires
        n <= defs.len(),
    ensures
        match_at(c, defs, n) matches Some(j) ==> 0 <= j < n && occurs_at(c, 0, placeholder(defs[j].0)),
    decreases n,
{
    if n > 0 && !occurs_at(c, 0, placeholder(defs[n - 1].0)) {
        lemma_match_at_found(c, defs, n - 1);
    }
}

/// Whether the placeholder of `k` stands in `c` at position `i`.
fn placeholder_at(c: &Vec<char>, i: usize, k: &Vec<char>) -> (r: bool)
    ensures
        r == occurs_at(c@, i as int, placeholder(k@)),
{
    let ghost p = placeholder(k@);
    if i > c.len() || c.len() - i < 4 || k.len() > c.len() - i - 4 {
        return false;
    }
    if c[i] != '{' || c[i + 1] != '{' || c[i + 2 + k.len()] != '}' || c[i + 3 + k.len()] != '}' {
        assert(c@.subrange(i as int, i + p.len())[0] == c@[i as int]);
        assert(c@.subrange(i as int, i + p.len())[1] == c@[i + 1]);
        assert(c@.subrange(i as int, i + p.len())[2 + k.len()] == c@[i + 2 + k.len()]);
        assert(c@.subrange(i as int, i + p.len())[3 + k.len()] == c@[i + 3 + k.len()]);
        return false;
    }
    let mut j: usize = 0;
    while j < k.len()
        invariant
            i + 4 + k.len() <= c.len(),
            p == placeholder(k@),
            j <= k.len(),
            forall|m: int| 0 <= m < j ==> c@[i + 2 + m] == k@[m],
        decreases k.len() - j,
    {
        if c[i + 2 + j] != k[j] {
            assert(c@.subrange(i as int, i + p.len())[2 + j as int] == c@[i + 2 + j]);
            return false;
        }
        j = j + 1;
    }
    assert(c@.subrange(i as int, i + p.len()) =~= p);
    true
}

/// `content` with each placeholder `{{name}}` of a variable replaced by its
/// value, scanning left to right; where several variables match at one place,
/// the one defined last wins. Values put in are not scanned again, and a
/// placeholder of no variable stays as it is.
pub fn substitute_vars(content: &Vec<char>, vars: &Vec<(Vec<char>, Vec<char>)>) -> (r: Vec<char>)
    ensures
        r@ == substitute(content@, pairs_view(vars@)),
{
    let ghost defs = pairs_view(vars@);
    let mut out: Vec<char> = Vec::new();
    let mut i: usize = 0;
    let n = content.len();
    assert(content@.skip(0) =~= content@);
    while i < n
        invariant
            n == content@.len(),
            i <= n,
            defs == pairs_view(vars@),
            defs.len() == vars@.len(),
            out@ + substitute(content@.skip(i as int), defs) == substitute(content@, defs),
        decreases n - i,
    {
        let ghost t = content@.skip(i as int);
        let mut k: usize = vars.len();
        let mut found: Option<usize> = None;
        while k > 0 && found.is_none()
            invariant
                k <= vars@.len(),
                defs == pairs_view(vars@),
                defs.len() == vars@.len(),
                t == content@.skip(i as int),
                i < n == content@.len(),
                match found {
                    Some(j) => j < vars@.len() && match_at(t, defs, defs.len() as int) == Some(j as int),
                    None => match_at(t, defs, defs.len() as int) == match_at(t, defs, k as int),
                },
            decreases k,
        {
            assert(occurs_at(content@, i as int, placeholder(defs[k - 1].0)) == occurs_at(
                t,
                0,
                placeholder(defs[k - 1].0),
            )) by {
                let p = placeholder(defs[k - 1].0);
                if i + p.len() <= n {
                    assert(t.subrange(0, p.len() as int) =~= content@.subrange(i as int, i + p.len()));
                }
            }
            if placeholder_at(content, i, &vars[k - 1].0) {
                found = Some(k - 1);
            }
            k = k - 1;
        }
        proof {
            lemma_match_at_found(t, defs, defs.len() as int);
        }
        match found {
            Some(j) => {
                assert(defs[j as int] == (vars@[j as int].0@, vars@[j as int].1@));
                let plen = vars[j].0.len() + 4;
                let ghost old_out = out@;
                append_vec(&mut out, &vars[j].1);
                assert(t.skip(placeholder(defs[j as int].0).len() as int) =~= content@.skip(i + plen));
                assert(t.len() > 0);
                assert(substitute(t, defs) == defs[j as int].1 + substitute(t.skip(placeholder(defs[j as int].0).len() as int), defs));
                assert(out@ + substitute(content@.skip(i + plen), defs) =~= old_out + (defs[j as int].1 + substitute(content@.skip(i + plen), defs)));
                i = i + plen;
            },
            None => {
                let ghost old_out = out@;
                out.push(content[i]);
                assert(t.skip(1) =~= content@.skip(i + 1));
                assert(t[0] == content@[i as int]);
                assert(t.len() > 0);
                assert(substitute(t, defs) == seq![t[0]] + substitute(t.skip(1), defs));
                assert(out@ + substitute(content@.skip(i + 1), defs) =~= old_out + (seq![t[0]] + substitute(t.skip(1), defs)));
                i = i + 1;
            },
        }
    }
    assert(content@.skip(i as int) =~= Seq::<char>::empty());
    assert(out@ + Seq::<char>::empty() =~= out@);
    out
}

/// Appends the elements of `v` to `out`.
fn append_vec(out: &mut Vec<char>, v: &Vec<char>)
    ensures
        final(out)@ == old(out)@ + v@,
{
    let mut i: usize = 0;
    while i < v.len()
        invariant
            i <= v@.len(),
            out@ == old(out)@ + v@.take(i as int),
        decreases v.len() - i,
    {
        out.push(v[i]);
        i = i + 1;
        assert(out@ =~= old(out)@ + v@.take(i as int));
    }
    assert(v@.take(i as int) =~= v@);
}

/// The text of the active variant, or empty when there is none.
pub open spec fn active_content(vd: Option<VariantData>) -> Seq<char> {
    match vd {
        Some(d) => if d.current_variant_index < d.variants@.len() {
            d.variants@[d.current_variant_index as int].content@
        } else {
            seq![]
        },
        None => seq![],
    }
}

/// What the text block keyed `id` contributes: its active variant with the
/// document's variables put in, or nothing when it is missing or hidden.
pub open spec fn text_part(pf: PromptFile, id: Seq<char>) -> Seq<char> {
    match lookup(pf.text_boxes@, id) {
        Some(tb) => if hidden(tb.mode@) {
            seq![]
        } else {
            substitute(active_content(lookup(pf.variants@, id)), variables(pf))
        },
        None => seq![],
    }
}

/// What reading a file gave: its text, or a description of the failure. A
/// path that was not read counts as a failure with an empty description.
pub open spec fn read_result(reads: Seq<(String, Result<String, String>)>, path: Seq<char>) -> Result<
    Seq<char>,
    Seq<char>,
> {
    match lookup(reads, path) {
        Some(Ok(c)) => Ok(c@),
        Some(Err(e)) => Err(e@),
        None => Err(seq![]),
    }
}

/// The section of one file: a header, then a fence with the file's text, or an
/// untagged fence with the read error.
pub open spec fn file_section(path: Seq<char>, path_segments: i32, read: Result<Seq<char>, Seq<char>>) -> Seq<char> {
    match read {
        Ok(c) => "### "@ + display_path(path, path_segments) + "\n```"@ + extension(path) + "\n"@ + c
            + "\n```"@,
        Err(e) => "### "@ + display_path(path, path_segments) + "\n```\n[Error reading file: "@ + e
            + "]\n```"@,
    }
}

/// A file entry that takes part: checked, with a non-empty path.
pub open spec fn is_selected(f: FileBoxItem) -> bool {
    f.checked && f.path@.len() > 0
}

/// The sections of the selected files, in order.
pub open spec fn sections(files: Seq<FileBoxItem>, path_segments: i32, reads: Seq<(String, Result<String, String>)>) -> Seq<Seq<char>>
    decreases files.len(),
{
    if files.len() == 0 {
        seq![]
    } else {
        sections(files.drop_last(), path_segments, reads) + (if is_selected(files.last()) {
            seq![file_section(files.last().path@, path_segments, read_result(reads, files.last().path@))]
        } else {
            seq![]
        })
    }
}

/// What a file block renders to: its sections separated by blank lines, or
/// nothing when it is hidden.
pub open spec fn file_box_text(b: FileBox, d: FileBoxData, reads: Seq<(String, Result<String, String>)>) -> Seq<char> {
    if hidden(b.mode@) {
        seq![]
    } else {
        join_with(sections(d.files@, d.path_segments, reads), "\n\n"@)
    }
}

/// What the file block keyed `id` contributes; nothing unless both its block
/// and its file list are there.
pub open spec fn file_part(pf: PromptFile, reads: Seq<(String, Result<String, String>)>, id: Seq<char>) -> Seq<char> {
    match (pf.file_boxes, pf.file_box_data) {
        (Some(fb), Some(fd)) => match (lookup(fb@, id), lookup(fd@, id)) {
            (Some(b), Some(d)) => file_box_text(b, d, reads),
            _ => seq![],
        },
        _ => seq![],
    }
}

/// What the identifier `id` of the order contributes: its text part, then its
/// file part, with a blank line between when both are non-empty.
pub open spec fn block_content(pf: PromptFile, reads: Seq<(String, Result<String, String>)>, id: Seq<char>) -> Seq<char> {
    let t = text_part(pf, id);
    let f = file_part(pf, reads, id);
    if f.len() == 0 {
        t
    } else if t.len() == 0 {
        f
    } else {
        t + "\n\n"@ + f
    }
}

/// The non-empty parts, in order, with a blank line between each two.
pub open spec fn join_nonempty(parts: Seq<Seq<char>>) -> Seq<char>
    decreases parts.len(),
{
    if parts.len() == 0 {
        seq![]
    } else {
        let prev = join_nonempty(parts.drop_last());
        let p = parts.last();
        if p.len() == 0 {
            prev
        } else if prev.len() == 0 {
            p
        } else {
            prev + "\n\n"@ + p
        }
    }
}

/// What each identifier of the order contributes, in order.
pub open spec fn block_contents(pf: PromptFile, reads: Seq<(String, Result<String, String>)>) -> Seq<Seq<char>> {
    pf.order@.map_values(|id: String| block_content(pf, reads, id@))
}

/// The context text of a document.
pub open spec fn compose(pf: PromptFile, reads: Seq<(String, Result<String, String>)>) -> Seq<char> {
    join_nonempty(block_contents(pf, reads))
}

/// The variable name that a variant title gives: trimmed, lower-cased, with
/// underscores for spaces.
pub fn variable_name(title: &str) -> (r: Vec<char>)
    ensures
        r@ == var_name(title@),
{
    let t = trim_chars(&chars_of(title));
    let s = string_of(&t);
    let l = lowercase(s.as_str());
    replace_chars(&chars_of(l.as_str()), ' ', '_')
}

/// The variables of a document: for each shadow text block in list order, and
/// each of its variants in order, the variant's name and content, where the
/// name is not empty.
pub fn collect_variables(pf: &PromptFile) -> (r: Vec<(Vec<char>, Vec<char>)>)
    ensures
        pairs_view(r@) == variables(*pf),
{
    let mut out: Vec<(Vec<char>, Vec<char>)> = Vec::new();
    let mut i: usize = 0;
    let ghost boxes = pf.text_boxes@;
    assert(pairs_view(out@) =~= defs_from(boxes.take(0), pf.variants@));
    while i < pf.text_boxes.len()
        invariant
            boxes == pf.text_boxes@,
            i <= boxes.len(),
            pairs_view(out@) == defs_from(boxes.take(i as int), pf.variants@),
        decreases boxes.len() - i,
    {
        let ghost before = pairs_view(out@);
        let entry = &pf.text_boxes[i];
        if same_text(entry.1.mode.as_str(), "shadow") {
            match find_entry(&pf.variants, entry.0.as_str()) {
                Some(vi) => {
                    let vs = &pf.variants[vi].1.variants;
                    let mut j: usize = 0;
                    assert(before + variant_defs(vs@.take(0)) =~= before);
                    while j < vs.len()
                        invariant
                            j <= vs@.len(),
                            pairs_view(out@) == before + variant_defs(vs@.take(j as int)),
                        decreases vs.len() - j,
                    {
                        let name = variable_name(vs[j].title.as_str());
                        let ghost mid = out@;
                        if name.len() > 0 {
                            let value = chars_of(vs[j].content.as_str());
                            let ghost pair = (name@, value@);
                            out.push((name, value));
                            assert(pairs_view(out@) =~= pairs_view(mid).push(pair));
                        }
                        assert(vs@.take(j + 1).drop_last() =~= vs@.take(j as int));
                        assert(vs@.take(j + 1).last() == vs@[j as int]);
                        j = j + 1;
                        assert(pairs_view(out@) =~= before + variant_defs(vs@.take(j as int)));
                    }
                    assert(vs@.take(j as int) =~= vs@);
                },
                None => {},
            }
        }
        assert(boxes.take(i + 1).drop_last() =~= boxes.take(i as int));
        assert(boxes.take(i + 1).last() == boxes[i as int]);
        i = i + 1;
        assert(pairs_view(out@) =~= defs_from(boxes.take(i as int), pf.variants@));
    }
    assert(boxes.take(i as int) =~= boxes);
    out
}

/// What the text block keyed `id` contributes.
fn text_content(pf: &PromptFile, id: &str, vars: &Vec<(Vec<char>, Vec<char>)>) -> (r: Vec<char>)
    requires
        pairs_view(vars@) == variables(*pf),
    ensures
        r@ == text_part(*pf, id@),
{
    match find_entry(&pf.text_boxes, id) {
        Some(ti) => {
            let mode = pf.text_boxes[ti].1.mode.as_str();
            if same_text(mode, "disabled") || same_text(mode, "shadow") {
                Vec::new()
            } else {
                let content = match find_entry(&pf.variants, id) {
                    Some(vi) => {
                        let vd = &pf.variants[vi].1;
                        if vd.current_variant_index < vd.variants.len() {
                            chars_of(vd.variants[vd.current_variant_index].content.as_str())
                        } else {
                            Vec::new()
                        }
                    },
                    None => Vec::new(),
                };
                substitute_vars(&content, vars)
            }
        },
        None => Vec::new(),
    }
}

/// The section of one file of a file block.
fn file_section_text(path: &str, path_segments: i32, reads: &Vec<(String, Result<String, String>)>) -> (r: String)
    ensures
        r@ == file_section(path@, path_segments, read_result(reads@, path@)),
{
    let mut out = String::new();
    append_str(&mut out, "### ");
    let shown = get_display_path(path, path_segments);
    append_str(&mut out, shown.as_str());
    match find_entry(reads, path) {
        Some(ri) => match &reads[ri].1 {
            Ok(c) => {
                append_str(&mut out, "\n```");
                let ext = get_file_extension(path);
                append_str(&mut out, ext.as_str());
                append_str(&mut out, "\n");
                append_str(&mut out, c.as_str());
                append_str(&mut out, "\n```");
            },
            Err(e) => {
                append_str(&mut out, "\n```\n[Error reading file: ");
                append_str(&mut out, e.as_str());
                append_str(&mut out, "]\n```");
            },
        },
        None => {
            append_str(&mut out, "\n```\n[Error reading file: ");
            let ghost before = out@;
            append_str(&mut out, "]\n```");
            assert(before + Seq::<char>::empty() =~= before);
        },
    }
    out
}

/// The text of a file block: for each checked file with a non-empty path, in
/// order, a header `### <shown path>` and a fence tagged with the file's
/// extension around its text (or an untagged fence around the read error),
/// with blank lines between files; empty when the block is disabled or shadow.
/// `reads` holds what reading each path gave.
pub fn generate_file_box_content(
    file_box: &FileBox,
    file_box_data: &FileBoxData,
    reads: &Vec<(String, Result<String, String>)>,
) -> (r: String)
    ensures
        r@ == file_box_text(*file_box, *file_box_data, reads@),
{
    let mode = file_box.mode.as_str();
    if same_text(mode, "disabled") || same_text(mode, "shadow") {
        return String::new();
    }
    let ghost files = file_box_data.files@;
    let ps = file_box_data.path_segments;
    let mut out = String::new();
    let mut first = true;
    let mut i: usize = 0;
    while i < file_box_data.files.len()
        invariant
            files == file_box_data.files@,
            ps == file_box_data.path_segments,
            i <= files.len(),
            first == (sections(files.take(i as int), ps, reads@).len() == 0),
            out@ == join_with(sections(files.take(i as int), ps, reads@), "\n\n"@),
        decreases files.len() - i,
    {
        let f = &file_box_data.files[i];
        let ghost prev = sections(files.take(i as int), ps, reads@);
        assert(files.take(i + 1).drop_last() =~= files.take(i as int));
        assert(files.take(i + 1).last() == files[i as int]);
        if f.checked && !f.path.as_str().is_empty() {
            let section = file_section_text(f.path.as_str(), ps, reads);
            let ghost now = prev.push(section@);
            assert(sections(files.take(i + 1), ps, reads@) =~= now);
            assert(now.drop_last() =~= prev);
            if !first {
                append_str(&mut out, "\n\n");
            }
            append_str(&mut out, section.as_str());
            first = false;
        } else {
            assert(sections(files.take(i + 1), ps, reads@) =~= prev);
        }
        i = i + 1;
    }
    assert(files.take(i as int) =~= files);
    out
}

/// The paths of the selected files of a list, in order.
pub open spec fn selected_paths(files: Seq<FileBoxItem>) -> Seq<Seq<char>>
    decreases files.len(),
{
    if files.len() == 0 {
        seq![]
    } else {
        selected_paths(files.drop_last()) + (if is_selected(files.last()) {
            seq![files.last().path@]
        } else {
            seq![]
        })
    }
}

/// The paths of the files of a file block that its text shows: those checked
/// and non-empty, in order.
pub fn files_to_read(file_box_data: &FileBoxData) -> (r: Vec<String>)
    ensures
        r@.map_values(|s: String| s@) == selected_paths(file_box_data.files@),
{
    let ghost files = file_box_data.files@;
    let mut out: Vec<String> = Vec::new();
    let mut i: usize = 0;
    while i < file_box_data.files.len()
        invariant
            files == file_box_data.files@,
            i <= files.len(),
            out@.map_values(|s: String| s@) == selected_paths(files.take(i as int)),
        decreases files.len() - i,
    {
        let f = &file_box_data.files[i];
        assert(files.take(i + 1).drop_last() =~= files.take(i as int));
        assert(files.take(i + 1).last() == files[i as int]);
        let ghost before = out@;
        if f.checked && !f.path.as_str().is_empty() {
            out.push(f.path.clone());
            assert(out@.map_values(|s: String| s@) =~= before.map_values(|s: String| s@).push(f.path@));
        }
        i = i + 1;
        assert(out@.map_values(|s: String| s@) =~= selected_paths(files.take(i as int)));
    }
    assert(files.take(i as int) =~= files);
    out
}

/// What the file block keyed `id` contributes.
fn file_content(pf: &PromptFile, reads: &Vec<(String, Result<String, String>)>, id: &str) -> (r: String)
    ensures
        r@ == file_part(*pf, reads@, id@),
{
    match (&pf.file_boxes, &pf.file_box_data) {
        (Some(fb), Some(fd)) => match (find_entry(fb, id), find_entry(fd, id)) {
            (Some(a), Some(b)) => generate_file_box_content(&fb[a].1, &fd[b].1, reads),
            _ => String::new(),
        },
        _ => String::new(),
    }
}

/// The context text of a document: for each identifier of the order, its text
/// block's active variant with the variables of the shadow blocks put in, and
/// its file block's sections; identifiers that contribute nothing are skipped,
/// and a blank line stands between each two that contribute (separator
/// records are not consulted). `reads` holds what reading each file path gave.
pub fn generate_context(prompt_file: &PromptFile, reads: &Vec<(String, Result<String, String>)>) -> (r: String)
    ensures
        r@ == compose(*prompt_file, reads@),
{
    let vars = collect_variables(prompt_file);
    let ghost parts = block_contents(*prompt_file, reads@);
    let mut result = String::new();
    let mut i: usize = 0;
    while i < prompt_file.order.len()
        invariant
            parts == block_contents(*prompt_file, reads@),
            parts.len() == prompt_file.order@.len(),
            pairs_view(vars@) == variables(*prompt_file),
            i <= parts.len(),
            result@ == join_nonempty(parts.take(i as int)),
        decreases parts.len() - i,
    {
        let id = prompt_file.order[i].as_str();
        let t = text_content(prompt_file, id, &vars);
        let f = file_content(prompt_file, reads, id);
        let mut content = string_of(&t);
        if !f.as_str().is_empty() {
            if !content.as_str().is_empty() {
                append_str(&mut content, "\n\n");
            }
            append_str(&mut content, f.as_str());
        }
        assert(content@ == parts[i as int]);
        assert(parts.take(i + 1).drop_last() =~= parts.take(i as int));
        assert(parts.take(i + 1).last() == parts[i as int]);
        if !content.as_str().is_empty() {
            if !result.as_str().is_empty() {
                append_str(&mut result, "\n\n");
            }
            append_str(&mut result, content.as_str());
        }
        i = i + 1;
    }
    assert(parts.take(i as int) =~= parts);
    result
}

} // verus!
