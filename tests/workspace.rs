use prompt_compose::model::WorkspaceItem;
use prompt_compose::workspace::{prompt_file_name_of, select_workspace_items, text_ends_with};

fn item(name: &str, is_file: bool) -> WorkspaceItem {
    WorkspaceItem { name: name.to_string(), path: format!("/w/{}", name), is_file }
}

#[test]
fn prompt_suffix_added_once() {
    assert_eq!(prompt_file_name_of("notes"), "notes.prompt");
    assert_eq!(prompt_file_name_of("notes.prompt"), "notes.prompt");
    assert_eq!(prompt_file_name_of("prompt"), "prompt.prompt");
    assert_eq!(prompt_file_name_of(""), ".prompt");
}

#[test]
fn suffix_test() {
    assert!(text_ends_with("a.prompt", ".prompt"));
    assert!(!text_ends_with("a.prompts", ".prompt"));
    assert!(text_ends_with("x", ""));
}

#[test]
fn listing_keeps_directories_and_prompt_files_in_order() {
    let items = vec![
        item("zeta.prompt", true),
        item("readme.md", true),
        item("beta", false),
        item("alpha.prompt", true),
        item("Alpha", false),
        item("data.prompt", false),
    ];
    let names: Vec<String> = select_workspace_items(items).into_iter().map(|i| i.name).collect();
    assert_eq!(names, vec!["Alpha", "beta", "data.prompt", "alpha.prompt", "zeta.prompt"]);
}

#[test]
fn listing_of_nothing_is_empty() {
    assert!(select_workspace_items(Vec::new()).is_empty());
}
