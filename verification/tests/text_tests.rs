use noteorg::text::{
    child_path, contains_char, contains_text, copy_path, decimal, join, repeat, text_eq,
};
use noteorg::snapshot::FsNode;
use noteorg::traversal::{parse_categories_tree_from_path, CategoryTree};

fn segs(parts: &[&str]) -> Vec<String> {
    parts.iter().map(|p| p.to_string()).collect()
}

#[test]
fn join_puts_the_separator_between_neighbours() {
    assert_eq!(join(&segs(&[]), ", "), "");
    assert_eq!(join(&segs(&["a"]), ", "), "a");
    assert_eq!(join(&segs(&["a", "b", "c"]), ", "), "a, b, c");
    assert_eq!(join(&segs(&["", ""]), "-"), "-");
    assert_eq!(join(&segs(&["a", "b"]), ""), "ab");
}

#[test]
fn text_equality_is_by_characters() {
    assert!(text_eq("", ""));
    assert!(text_eq("añb", "añb"));
    assert!(!text_eq("a", "b"));
    assert!(!text_eq("ab", "abc"));
    assert!(!text_eq("Notes", "notes"));
}

#[test]
fn containment_of_characters_and_texts() {
    assert!(contains_char("a.b", '.'));
    assert!(!contains_char("ab", '.'));
    assert!(!contains_char("", '.'));
    assert!(contains_text("x.md", ".md"));
    assert!(contains_text("x.mdy", ".md"));
    assert!(contains_text(".md", ".md"));
    assert!(contains_text("abc", ""));
    assert!(contains_text("", ""));
    assert!(!contains_text("md", ".md"));
    assert!(!contains_text("x.m.d", ".md"));
    assert!(contains_text("ééé.md", ".md"));
}

#[test]
fn decimal_writes_numbers() {
    assert_eq!(decimal(0), "0");
    assert_eq!(decimal(7), "7");
    assert_eq!(decimal(10), "10");
    assert_eq!(decimal(12345), "12345");
    assert_eq!(decimal(usize::MAX), usize::MAX.to_string());
}

#[test]
fn repeat_writes_a_unit_many_times() {
    assert_eq!(repeat("ab", 0), "");
    assert_eq!(repeat("ab", 3), "ababab");
    assert_eq!(repeat("─", 2), "──");
}

#[test]
fn paths_are_copied_and_extended() {
    let p = segs(&["a", "b"]);
    assert_eq!(copy_path(&p), p);
    assert_eq!(child_path(&p, &"c".to_string()), segs(&["a", "b", "c"]));
    assert_eq!(child_path(&segs(&[]), &"c".to_string()), segs(&["c"]));
}

#[test]
fn try_from_builds_the_same_tree() {
    let tree = FsNode::Dir {
        name: "r".to_string(),
        entries: vec![FsNode::Dir { name: "A".to_string(), entries: vec![] }],
    };
    assert_eq!(
        CategoryTree::try_from(&tree),
        parse_categories_tree_from_path(&tree)
    );
}
