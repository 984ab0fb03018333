//! The document: its blocks, their variants, file lists and separators.
use vstd::prelude::*;
use crate::text::same_text;

verus! {

/// A text block; `mode` is "normal", "disabled" or "shadow".
#[derive(Clone, Debug)]
pub struct TextBox {
    pub id: String,
    pub mode: String,
    pub box_type: Option<String>,
}

/// A block that shows the content of a list of files.
#[derive(Clone, Debug)]
pub struct FileBox {
    pub id: String,
    pub mode: String,
    pub box_type: String,
}

/// One file of a file block.
#[derive(Clone, Debug)]
pub struct FileBoxItem {
    pub id: String,
    pub path: String,
    pub checked: bool,
}

/// The files of a file block, and how many path segments their headers show.
#[derive(Clone, Debug)]
pub struct FileBoxData {
    pub height: u32,
    pub path_segments: i32,
    pub files: Vec<FileBoxItem>,
}

/// One alternative content of a text block.
#[derive(Clone, Debug)]
pub struct Variant {
    pub content: String,
    pub title: String,
}

/// The alternatives of a text block and the one that is active.
#[derive(Clone, Debug)]
pub struct VariantData {
    pub height: u32,
    pub current_variant_index: usize,
    pub variants: Vec<Variant>,
}

/// Text kept for the gap after the block at a position of the order. The
/// document keeps these records; composition does not consult them.
#[derive(Clone, Debug)]
pub struct Separator {
    pub id: String,
    pub content: String,
}

/// A document. Each keyed list pairs a block identifier with a value; the
/// first entry of a key is the one that counts.
#[derive(Clone, Debug)]
pub struct PromptFile {
    pub order: Vec<String>,
    pub text_boxes: Vec<(String, TextBox)>,
    pub file_boxes: Option<Vec<(String, FileBox)>>,
    pub file_box_data: Option<Vec<(String, FileBoxData)>>,
    pub variants: Vec<(String, VariantData)>,
    pub separators: Vec<Separator>,
}

/// An entry of a workspace directory.
#[derive(Clone, Debug)]
pub struct WorkspaceItem {
    pub name: String,
    pub path: String,
    pub is_file: bool,
}

/// The value of the first entry keyed `k`.
pub open spec fn lookup<T>(entries: Seq<(String, T)>, k: Seq<char>) -> Option<T>
    decreases entries.len(),
{
    if entries.len() == 0 {
        None
    } else if entries[0].0@ == k {
        Some(entries[0].1)
    } else {
        lookup(entries.drop_first(), k)
    }
}

/// The keys of a keyed list are distinct.
pub open spec fn keys_unique<T>(entries: Seq<(String, T)>) -> bool {
    forall|i: int, j: int|
        0 <= i < j < entries.len() ==> #[trigger] entries[i].0@ != #[trigger] entries[j].0@
}

impl PromptFile {
    /// Each keyed list of the document has distinct keys.
    pub open spec fn wf(&self) -> bool {
        &&& keys_unique(self.text_boxes@)
        &&& keys_unique(self.variants@)
        &&& (self.file_boxes matches Some(f) ==> keys_unique(f@))
        &&& (self.file_box_data matches Some(d) ==> keys_unique(d@))
    }

    /// A document with no blocks.
    pub fn empty() -> (r: PromptFile)
        ensures
            r.wf(),
            r.order@.len() == 0,
            r.text_boxes@.len() == 0,
            r.file_boxes matches Some(f) && f@.len() == 0,
            r.file_box_data matches Some(d) && d@.len() == 0,
            r.variants@.len() == 0,
            r.separators@.len() == 0,
    {
        PromptFile {
            order: Vec::new(),
            text_boxes: Vec::new(),
            file_boxes: Some(Vec::new()),
            file_box_data: Some(Vec::new()),
            variants: Vec::new(),
            separators: Vec::new(),
        }
    }
}

/// The index of the first entry keyed `k`.
pub fn find_entry<T>(entries: &Vec<(String, T)>, k: &str) -> (r: Option<usize>)
    ensures
        match r {
            Some(i) => i < entries@.len() && lookup(entries@, k@) == Some(entries@[i as int].1),
            None => lookup(entries@, k@) is None,
        },
{
    let mut i: usize = 0;
    assert(entries@.skip(0) =~= entries@);
    while i < entries.len()
        invariant
            i <= entries@.len(),
            lookup(entries@, k@) == lookup(entries@.skip(i as int), k@),
        decreases entries.len() - i,
    {
        assert(entries@.skip(i as int)[0] == entries@[i as int]);
        if same_text(entries[i].0.as_str(), k) {
            return Some(i);
        }
        assert(entries@.skip(i as int).drop_first() =~= entries@.skip(i + 1));
        i = i + 1;
    }
    None
}

} // verus!
