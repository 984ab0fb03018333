use prompt_compose::compose::{
    collect_variables, files_to_read, generate_context, generate_file_box_content,
    substitute_vars, variable_name,
};
use prompt_compose::model::{
    FileBox, FileBoxData, FileBoxItem, PromptFile, TextBox, Variant, VariantData,
};
use prompt_compose::text::chars_of;

fn text_box(id: &str, mode: &str) -> (String, TextBox) {
    (
        id.to_string(),
        TextBox { id: id.to_string(), mode: mode.to_string(), box_type: None },
    )
}

fn variants(id: &str, index: usize, items: &[(&str, &str)]) -> (String, VariantData) {
    (
        id.to_string(),
        VariantData {
            height: 100,
            current_variant_index: index,
            variants: items
                .iter()
                .map(|(title, content)| Variant {
                    title: title.to_string(),
                    content: content.to_string(),
                })
                .collect(),
        },
    )
}

fn document(order: &[&str]) -> PromptFile {
    let mut pf = PromptFile::empty();
    pf.order = order.iter().map(|s| s.to_string()).collect();
    pf
}

fn file_item(path: &str, checked: bool) -> FileBoxItem {
    FileBoxItem { id: path.to_string(), path: path.to_string(), checked }
}

fn no_reads() -> Vec<(String, Result<String, String>)> {
    Vec::new()
}

#[test]
fn shadow_variable_fills_placeholder() {
    let mut pf = document(&["t1"]);
    pf.text_boxes = vec![text_box("t1", "normal"), text_box("t2", "shadow")];
    pf.variants = vec![
        variants("t1", 0, &[("", "Hello {{name}}")]),
        variants("t2", 0, &[("Name", "World")]),
    ];
    assert_eq!(generate_context(&pf, &no_reads()), "Hello World");
}

#[test]
fn two_blocks_join_with_blank_line() {
    let mut pf = document(&["a", "b"]);
    pf.text_boxes = vec![text_box("a", "normal"), text_box("b", "normal")];
    pf.variants = vec![variants("a", 0, &[("", "Foo")]), variants("b", 0, &[("", "Bar")])];
    assert_eq!(generate_context(&pf, &no_reads()), "Foo\n\nBar");
}

#[test]
fn every_occurrence_is_replaced() {
    let mut pf = document(&["a", "b"]);
    pf.text_boxes = vec![
        text_box("a", "normal"),
        text_box("b", "normal"),
        text_box("v", "shadow"),
    ];
    pf.variants = vec![
        variants("a", 0, &[("", "{{my_var}}-{{my_var}}{{my_var}}")]),
        variants("b", 0, &[("", "end {{my_var}}")]),
        variants("v", 0, &[("My Var", "X")]),
    ];
    assert_eq!(generate_context(&pf, &no_reads()), "X-XX\n\nend X");
}

#[test]
fn unknown_placeholder_stays() {
    let mut pf = document(&["a"]);
    pf.text_boxes = vec![text_box("a", "normal"), text_box("v", "shadow")];
    pf.variants = vec![
        variants("a", 0, &[("", "{{undefined_name}} and {{known}}")]),
        variants("v", 0, &[("known", "K")]),
    ];
    assert_eq!(generate_context(&pf, &no_reads()), "{{undefined_name}} and K");
}

#[test]
fn substituted_values_are_not_scanned_again() {
    let mut pf = document(&["a"]);
    pf.text_boxes = vec![text_box("a", "normal"), text_box("v", "shadow")];
    pf.variants = vec![
        variants("a", 0, &[("", "{{first}}")]),
        variants("v", 0, &[("first", "{{second}}"), ("second", "no")]),
    ];
    assert_eq!(generate_context(&pf, &no_reads()), "{{second}}");
}

#[test]
fn all_variants_of_shadow_block_define_variables() {
    let mut pf = document(&["a"]);
    pf.text_boxes = vec![text_box("a", "normal"), text_box("v", "shadow")];
    pf.variants = vec![
        variants("a", 0, &[("", "{{one}} {{two}} {{three}}")]),
        variants("v", 1, &[("  One ", "1"), ("Two", "2"), ("   ", "blank"), ("three", "3")]),
    ];
    assert_eq!(generate_context(&pf, &no_reads()), "1 2 3");
}

#[test]
fn later_definition_wins() {
    let mut pf = document(&["a"]);
    pf.text_boxes = vec![text_box("a", "normal"), text_box("v", "shadow")];
    pf.variants = vec![
        variants("a", 0, &[("", "{{x}}")]),
        variants("v", 0, &[("x", "old"), ("X", "new")]),
    ];
    assert_eq!(generate_context(&pf, &no_reads()), "new");
}

#[test]
fn disabled_and_shadow_blocks_are_left_out() {
    let mut pf = document(&["a", "d", "s", "b"]);
    pf.text_boxes = vec![
        text_box("a", "normal"),
        text_box("d", "disabled"),
        text_box("s", "shadow"),
        text_box("b", "normal"),
    ];
    pf.variants = vec![
        variants("a", 0, &[("", "A")]),
        variants("d", 0, &[("", "DISABLED")]),
        variants("s", 0, &[("", "SHADOW")]),
        variants("b", 0, &[("", "B")]),
    ];
    assert_eq!(generate_context(&pf, &no_reads()), "A\n\nB");
}

#[test]
fn nothing_eligible_gives_empty_text() {
    let mut pf = document(&["d", "s", "missing"]);
    pf.text_boxes = vec![text_box("d", "disabled"), text_box("s", "shadow")];
    pf.variants = vec![variants("d", 0, &[("", "D")]), variants("s", 0, &[("x", "S")])];
    assert_eq!(generate_context(&pf, &no_reads()), "");
}

#[test]
fn out_of_range_variant_index_gives_nothing() {
    let mut pf = document(&["a", "b", "c"]);
    pf.text_boxes = vec![text_box("a", "normal"), text_box("b", "normal"), text_box("c", "normal")];
    pf.variants = vec![variants("a", 0, &[("", "A")]), variants("b", 3, &[("", "B")])];
    assert_eq!(generate_context(&pf, &no_reads()), "A");
}

#[test]
fn composing_twice_gives_same_text() {
    let mut pf = document(&["a", "b"]);
    pf.text_boxes = vec![text_box("a", "normal"), text_box("v", "shadow")];
    pf.variants = vec![variants("a", 0, &[("", "{{v}}!")]), variants("v", 0, &[("v", "hi")])];
    let first = generate_context(&pf, &no_reads());
    let second = generate_context(&pf, &no_reads());
    assert_eq!(first, second);
    assert_eq!(first, "hi!");
}

#[test]
fn variable_names_are_normalized() {
    assert_eq!(variable_name("  My Big Var "), chars_of("my_big_var"));
    assert_eq!(variable_name("   "), Vec::<char>::new());
}

#[test]
fn collected_variables_follow_block_order() {
    let mut pf = document(&[]);
    pf.text_boxes = vec![text_box("v", "shadow"), text_box("n", "normal")];
    pf.variants = vec![
        variants("v", 0, &[("A b", "1"), ("", "skipped")]),
        variants("n", 0, &[("Not", "used")]),
    ];
    let vars = collect_variables(&pf);
    assert_eq!(vars, vec![(chars_of("a_b"), chars_of("1"))]);
}

#[test]
fn substitution_of_adjacent_placeholders() {
    let vars = vec![(chars_of("a"), chars_of("1")), (chars_of("b"), chars_of("2"))];
    assert_eq!(substitute_vars(&chars_of("{{{a}}}{{b}}{{c}}"), &vars), chars_of("{1}2{{c}}"));
}

fn file_block(mode: &str, path_segments: i32, files: Vec<FileBoxItem>) -> (FileBox, FileBoxData) {
    (
        FileBox { id: "f".to_string(), mode: mode.to_string(), box_type: "file".to_string() },
        FileBoxData { height: 200, path_segments, files },
    )
}

#[test]
fn file_block_renders_selected_files() {
    let (b, d) = file_block(
        "normal",
        2,
        vec![
            file_item("/src/app/main.RS", true),
            file_item("/src/skip.txt", false),
            file_item("", true),
            file_item("/x/y/Makefile", true),
        ],
    );
    let reads = vec![
        ("/src/app/main.RS".to_string(), Ok("fn main() {}".to_string())),
        ("/x/y/Makefile".to_string(), Err("permission denied".to_string())),
    ];
    assert_eq!(
        generate_file_box_content(&b, &d, &reads),
        "### app/main.RS\n```rs\nfn main() {}\n```\n\n### y/Makefile\n```\n[Error reading file: permission denied]\n```"
    );
}

#[test]
fn unchecked_files_never_appear() {
    let (b, d) = file_block(
        "normal",
        0,
        vec![file_item("keep.md", true), file_item("hidden.md", false)],
    );
    let reads = vec![
        ("keep.md".to_string(), Ok("K".to_string())),
        ("hidden.md".to_string(), Ok("SECRET".to_string())),
    ];
    let out = generate_file_box_content(&b, &d, &reads);
    assert_eq!(out, "### keep.md\n```md\nK\n```");
    assert!(!out.contains("hidden"));
    assert_eq!(files_to_read(&d), vec!["keep.md".to_string()]);
}

#[test]
fn hidden_file_block_is_empty() {
    for mode in ["disabled", "shadow"] {
        let (b, d) = file_block(mode, 0, vec![file_item("a.rs", true)]);
        let reads = vec![("a.rs".to_string(), Ok("A".to_string()))];
        assert_eq!(generate_file_box_content(&b, &d, &reads), "");
    }
}

#[test]
fn file_block_with_no_selection_is_empty() {
    let (b, d) = file_block("normal", 0, vec![file_item("a.rs", false), file_item("", true)]);
    assert_eq!(generate_file_box_content(&b, &d, &no_reads()), "");
}

#[test]
fn text_and_file_of_one_block_join() {
    let mut pf = document(&["a", "f"]);
    pf.text_boxes = vec![text_box("a", "normal")];
    pf.variants = vec![variants("a", 0, &[("", "Intro")])];
    let (b, d) = file_block("normal", 1, vec![file_item("dir/n.txt", true)]);
    pf.file_boxes = Some(vec![("a".to_string(), b.clone()), ("f".to_string(), b)]);
    pf.file_box_data = Some(vec![("a".to_string(), d.clone()), ("f".to_string(), d)]);
    let reads = vec![("dir/n.txt".to_string(), Ok("N".to_string()))];
    assert_eq!(
        generate_context(&pf, &reads),
        "Intro\n\n### n.txt\n```txt\nN\n```\n\n### n.txt\n```txt\nN\n```"
    );
}

#[test]
fn file_block_without_data_contributes_nothing() {
    let mut pf = document(&["f"]);
    let (b, _) = file_block("normal", 0, vec![]);
    pf.file_boxes = Some(vec![("f".to_string(), b)]);
    pf.file_box_data = None;
    assert_eq!(generate_context(&pf, &no_reads()), "");
}
