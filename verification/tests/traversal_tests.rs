use noteorg::snapshot::{FileData, FileStat, FsNode, IoFailure, Timestamp};
use noteorg::traversal::{get_files, parse_categories_tree_from_path, CategoryTree, PathOutsideTree};

fn segs(parts: &[&str]) -> Vec<String> {
    parts.iter().map(|p| p.to_string()).collect()
}

fn file(name: &str) -> FsNode {
    FsNode::File {
        name: name.to_string(),
        data: FileData {
            stat: Ok(FileStat {
                modified: Ok(Timestamp { seconds: 1_700_000_000, nanos: 0 }),
                created: Ok(Timestamp { seconds: 1_600_000_000, nanos: 0 }),
            }),
            content: Ok(String::new()),
            front_matter: None,
        },
    }
}

fn dir(name: &str, entries: Vec<FsNode>) -> FsNode {
    FsNode::Dir { name: name.to_string(), entries }
}

fn denied(name: &str) -> FsNode {
    FsNode::DeniedDir { name: name.to_string(), failure: IoFailure::PermissionDenied }
}

fn other(name: &str) -> FsNode {
    FsNode::Other { name: name.to_string(), failure: IoFailure::NotADirectory }
}

fn tree(name: &str, children: Vec<CategoryTree>) -> CategoryTree {
    CategoryTree { name: name.to_string(), children }
}

fn fixture() -> FsNode {
    dir(
        "notes",
        vec![
            file("readme.md"),
            dir("A", vec![file("a.md"), dir("B", vec![file("note.md"), file("img.png")])]),
            dir("C", vec![]),
            file("tasks.txt"),
        ],
    )
}

fn count_nodes(t: &CategoryTree) -> usize {
    1 + t.children.iter().map(count_nodes).sum::<usize>()
}

#[test]
fn get_files_lists_exactly_the_regular_files() {
    let found = get_files(&segs(&["notes"]), &fixture()).unwrap();
    assert_eq!(
        found,
        vec![
            segs(&["notes", "readme.md"]),
            segs(&["notes", "A", "a.md"]),
            segs(&["notes", "A", "B", "note.md"]),
            segs(&["notes", "A", "B", "img.png"]),
            segs(&["notes", "tasks.txt"]),
        ]
    );
}

#[test]
fn get_files_on_a_file_gives_that_file() {
    let found = get_files(&segs(&["notes", "readme.md"]), &file("readme.md")).unwrap();
    assert_eq!(found, vec![segs(&["notes", "readme.md"])]);
}

#[test]
fn get_files_on_an_empty_directory_is_empty() {
    let found = get_files(&segs(&["notes"]), &dir("notes", vec![])).unwrap();
    assert!(found.is_empty());
}

#[test]
fn get_files_skips_what_cannot_be_listed() {
    let root = dir(
        "notes",
        vec![denied("secret"), file("a.md"), other("socket"), dir("B", vec![file("b.md")])],
    );
    let found = get_files(&segs(&["notes"]), &root).unwrap();
    assert_eq!(found, vec![segs(&["notes", "a.md"]), segs(&["notes", "B", "b.md"])]);
}

#[test]
fn get_files_fails_when_the_root_cannot_be_listed() {
    assert_eq!(get_files(&segs(&["notes"]), &denied("notes")), Err(IoFailure::PermissionDenied));
    let missing = FsNode::Other { name: "notes".to_string(), failure: IoFailure::NotFound };
    assert_eq!(get_files(&segs(&["notes"]), &missing), Err(IoFailure::NotFound));
}

#[test]
fn category_tree_mirrors_the_directories() {
    let built = parse_categories_tree_from_path(&fixture()).unwrap();
    assert_eq!(
        built,
        tree("notes", vec![tree("A", vec![tree("B", vec![])]), tree("C", vec![])])
    );
    assert_eq!(count_nodes(&built), 4);
    let names: Vec<&str> = built.children.iter().map(|c| c.name.as_str()).collect();
    assert_eq!(names, vec!["A", "C"]);
}

#[test]
fn category_tree_ignores_files_and_other_entries() {
    let root = dir("notes", vec![file("a.md"), other("socket")]);
    assert_eq!(parse_categories_tree_from_path(&root), Ok(tree("notes", vec![])));
}

#[test]
fn category_tree_fails_on_any_unreadable_directory() {
    let root = dir("notes", vec![dir("A", vec![dir("B", vec![denied("deep")])]), dir("C", vec![])]);
    assert_eq!(parse_categories_tree_from_path(&root), Err(IoFailure::PermissionDenied));
    assert!(get_files(&segs(&["notes"]), &root).is_ok());
}

#[test]
fn category_tree_reports_the_first_failure() {
    let root = dir(
        "notes",
        vec![
            FsNode::DeniedDir { name: "x".to_string(), failure: IoFailure::Other },
            FsNode::DeniedDir { name: "y".to_string(), failure: IoFailure::PermissionDenied },
        ],
    );
    assert_eq!(parse_categories_tree_from_path(&root), Err(IoFailure::Other));
}

#[test]
fn category_tree_needs_a_directory_as_root() {
    assert_eq!(parse_categories_tree_from_path(&file("a.md")), Err(IoFailure::NotADirectory));
    assert_eq!(parse_categories_tree_from_path(&denied("notes")), Err(IoFailure::PermissionDenied));
}

#[test]
fn get_categories_follows_the_segments_after_the_root() {
    let t = tree("notes", vec![tree("A", vec![tree("B", vec![])]), tree("C", vec![])]);
    assert_eq!(
        t.get_categories(&segs(&["home", "me", "notes", "A", "B"]), false),
        Ok(segs(&["A", "B"]))
    );
    assert_eq!(
        t.get_categories(&segs(&["home", "me", "notes", "A", "B", "note.md"]), true),
        Ok(segs(&["A", "B"]))
    );
    assert_eq!(t.get_categories(&segs(&["notes"]), false), Ok(segs(&[])));
    assert_eq!(t.get_categories(&segs(&["notes", "C"]), false), Ok(segs(&["C"])));
}

#[test]
fn get_categories_fails_outside_the_tree() {
    let t = tree("notes", vec![tree("A", vec![tree("B", vec![])])]);
    assert_eq!(t.get_categories(&segs(&["notes", "B"]), false), Err(PathOutsideTree));
    assert_eq!(t.get_categories(&segs(&["notes", "A", "x"]), false), Err(PathOutsideTree));
    assert_eq!(t.get_categories(&segs(&["notes", "A", "note.md"]), false), Err(PathOutsideTree));
}

#[test]
fn get_categories_fails_without_the_root_name() {
    let t = tree("root", vec![tree("A", vec![])]);
    assert_eq!(t.get_categories(&segs(&["other", "A"]), false), Err(PathOutsideTree));
    assert_eq!(t.get_categories(&segs(&["A"]), false), Err(PathOutsideTree));
    assert_eq!(t.get_categories(&segs(&[]), false), Err(PathOutsideTree));
    assert_eq!(t.get_categories(&segs(&[]), true), Err(PathOutsideTree));
    assert_eq!(t.get_categories(&segs(&["x", "root"]), true), Err(PathOutsideTree));
    assert_eq!(t.get_categories(&segs(&["x", "root"]), false), Ok(segs(&[])));
    assert_eq!(t.get_categories(&segs(&["root", "root"]), true), Ok(segs(&[])));
}

#[test]
fn get_categories_takes_the_first_child_of_a_name() {
    let t = tree("r", vec![tree("A", vec![]), tree("A", vec![tree("B", vec![])])]);
    assert_eq!(t.get_categories(&segs(&["r", "A", "B"]), false), Err(PathOutsideTree));
}

#[test]
fn display_draws_the_tree() {
    let t = tree(
        "notes",
        vec![tree("A", vec![tree("B", vec![]), tree("D", vec![tree("E", vec![])])]), tree("C", vec![])],
    );
    assert_eq!(
        t.display(),
        vec![
            "notes/".to_string(),
            "├── A".to_string(),
            "│   ├── B".to_string(),
            "│   └── D".to_string(),
            "│       └── E".to_string(),
            "└── C".to_string(),
        ]
    );
}

#[test]
fn display_of_a_single_node() {
    assert_eq!(tree("notes", vec![]).display(), vec!["notes/".to_string()]);
}

#[test]
fn display_has_one_line_per_node() {
    let t = parse_categories_tree_from_path(&fixture()).unwrap();
    assert_eq!(t.display().len(), count_nodes(&t));
}

#[test]
fn get_files_lists_no_file_twice() {
    let found = get_files(&segs(&["notes"]), &fixture()).unwrap();
    for (i, a) in found.iter().enumerate() {
        for b in found.iter().skip(i + 1) {
            assert_ne!(a, b);
        }
    }
    assert_eq!(found.len(), 5);
}

#[test]
fn get_categories_agrees_with_any_chain_of_children() {
    let t = parse_categories_tree_from_path(&fixture()).unwrap();
    assert_eq!(t.get_categories(&segs(&["notes", "A", "B"]), false), Ok(segs(&["A", "B"])));
    assert_eq!(t.get_categories(&segs(&["notes", "C", "B"]), false), Err(PathOutsideTree));
    assert_eq!(t.get_categories(&segs(&["notes", "A", "B", "note.md"]), true), Ok(segs(&["A", "B"])));
}
