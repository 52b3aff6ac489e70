use noteorg::note::{read_note, NoteFrontMatter, TimeZone};
use noteorg::search::{
    has_markdown_extension, is_markdown, search_candidates, search_files, searchable_text,
    Candidate, SearchError,
};
use noteorg::snapshot::{FileData, FileStat, FsNode, IoFailure, Timestamp};

fn segs(parts: &[&str]) -> Vec<String> {
    parts.iter().map(|p| p.to_string()).collect()
}

fn file(name: &str, content: &str, front_matter: Option<NoteFrontMatter>) -> FsNode {
    FsNode::File {
        name: name.to_string(),
        data: FileData {
            stat: Ok(FileStat {
                modified: Ok(Timestamp { seconds: 1_700_000_000, nanos: 0 }),
                created: Ok(Timestamp { seconds: 1_600_000_000, nanos: 0 }),
            }),
            content: Ok(content.to_string()),
            front_matter,
        },
    }
}

fn unreadable(name: &str) -> FsNode {
    FsNode::File {
        name: name.to_string(),
        data: FileData {
            stat: Ok(FileStat {
                modified: Ok(Timestamp { seconds: 0, nanos: 0 }),
                created: Ok(Timestamp { seconds: 0, nanos: 0 }),
            }),
            content: Err(IoFailure::PermissionDenied),
            front_matter: None,
        },
    }
}

fn dir(name: &str, entries: Vec<FsNode>) -> FsNode {
    FsNode::Dir { name: name.to_string(), entries }
}

fn corpus() -> FsNode {
    dir(
        "notes",
        vec![
            file("alpha.md", "the quick brown fox", None),
            dir(
                "work",
                vec![
                    file(
                        "plan.md",
                        "---\ntitle: Roadmap\ntags: [urgent, q3]\n---\nship it",
                        Some(NoteFrontMatter {
                            title: Some("Roadmap".to_string()),
                            tags: Some(segs(&["urgent", "q3"])),
                            date: None,
                        }),
                    ),
                    file("notes.txt", "ship it too", None),
                    unreadable("locked.md"),
                ],
            ),
            FsNode::DeniedDir { name: "private".to_string(), failure: IoFailure::PermissionDenied },
            file("zeta.MD", "quick", None),
        ],
    )
}

#[test]
fn markdown_is_told_by_the_exact_extension() {
    assert!(has_markdown_extension("a.md"));
    assert!(has_markdown_extension("notes.v2.md"));
    assert!(has_markdown_extension("..md"));
    assert!(!has_markdown_extension(".md"));
    assert!(!has_markdown_extension("md"));
    assert!(!has_markdown_extension("a.MD"));
    assert!(!has_markdown_extension("a.md.bak"));
    assert!(!has_markdown_extension("a.mdx"));
    assert!(!has_markdown_extension("amd"));
    assert!(!has_markdown_extension(""));
    assert!(is_markdown(&segs(&["x.md", "a.md"])));
    assert!(!is_markdown(&segs(&["x.md", "a.txt"])));
    assert!(!is_markdown(&segs(&[])));
}

#[test]
fn searchable_text_joins_the_fields_in_order() {
    let node = file(
        "plan.md",
        "body text",
        Some(NoteFrontMatter {
            title: Some("Roadmap".to_string()),
            tags: Some(segs(&["urgent", "q3"])),
            date: None,
        }),
    );
    let note = read_note(
        &segs(&["notes", "work", "deep", "plan.md"]),
        &segs(&["notes"]),
        &TimeZone { offset_seconds: 0 },
        &node,
    )
    .unwrap();
    assert_eq!(searchable_text(&note), "plan.md Roadmap urgent q3 work deep body text");
}

#[test]
fn searchable_text_of_a_bare_note_keeps_the_spaces() {
    let note = read_note(
        &segs(&["notes", "a.md"]),
        &segs(&["notes"]),
        &TimeZone { offset_seconds: 0 },
        &file("a.md", "x", None),
    )
    .unwrap();
    assert_eq!(searchable_text(&note), "a.md a.md   x");
}

#[test]
fn candidates_are_the_readable_markdown_notes() {
    let found = search_candidates(&segs(&["notes"]), &corpus()).unwrap();
    assert_eq!(
        found,
        vec![
            Candidate {
                path: segs(&["notes", "alpha.md"]),
                text: "alpha.md alpha.md   the quick brown fox".to_string(),
            },
            Candidate {
                path: segs(&["notes", "work", "plan.md"]),
                text: "plan.md Roadmap urgent q3 work ---\ntitle: Roadmap\ntags: [urgent, q3]\n---\nship it"
                    .to_string(),
            },
        ]
    );
}

#[test]
fn search_finds_a_match_in_the_content_alone() {
    assert_eq!(
        search_files("brown", &segs(&["notes"]), &corpus()),
        Ok(vec![segs(&["notes", "alpha.md"])])
    );
}

#[test]
fn search_finds_matches_in_title_tags_category_and_name() {
    let base = segs(&["notes"]);
    assert_eq!(search_files("Roadmap", &base, &corpus()), Ok(vec![segs(&["notes", "work", "plan.md"])]));
    assert_eq!(search_files("urgent q3", &base, &corpus()), Ok(vec![segs(&["notes", "work", "plan.md"])]));
    assert_eq!(search_files(" work ", &base, &corpus()), Ok(vec![segs(&["notes", "work", "plan.md"])]));
    assert_eq!(search_files("^alpha", &base, &corpus()), Ok(vec![segs(&["notes", "alpha.md"])]));
}

#[test]
fn search_returns_matches_in_listing_order() {
    assert_eq!(
        search_files(r"\.md", &segs(&["notes"]), &corpus()),
        Ok(vec![segs(&["notes", "alpha.md"]), segs(&["notes", "work", "plan.md"])])
    );
}

#[test]
fn search_is_case_sensitive_and_unanchored() {
    let base = segs(&["notes"]);
    assert_eq!(search_files("QUICK", &base, &corpus()), Ok(vec![]));
    assert_eq!(search_files("ick br", &base, &corpus()), Ok(vec![segs(&["notes", "alpha.md"])]));
}

#[test]
fn search_without_a_match_is_empty_not_an_error() {
    assert_eq!(search_files("no such words", &segs(&["notes"]), &corpus()), Ok(vec![]));
}

#[test]
fn search_skips_other_extensions_and_unreadable_notes() {
    let base = segs(&["notes"]);
    assert_eq!(search_files("ship it too", &base, &corpus()), Ok(vec![]));
    assert_eq!(search_files("locked", &base, &corpus()), Ok(vec![]));
    assert_eq!(search_files("zeta", &base, &corpus()), Ok(vec![]));
}

fn refusal(pattern: &str) -> SearchError {
    SearchError::InvalidPattern(regex::Regex::new(pattern).unwrap_err().to_string())
}

#[test]
fn search_with_an_invalid_pattern_fails() {
    assert_eq!(search_files("foo(bar", &segs(&["notes"]), &corpus()), Err(refusal("foo(bar")));
    assert_eq!(search_files("[", &segs(&["notes"]), &corpus()), Err(refusal("[")));
}

#[test]
fn an_invalid_pattern_is_explained() {
    match search_files("foo(bar", &segs(&["notes"]), &corpus()) {
        Err(SearchError::InvalidPattern(why)) => {
            assert!(why.contains("unclosed group"));
            assert_ne!(why, "foo(bar");
        }
        other => panic!("{:?}", other),
    }
}

#[test]
fn search_checks_the_pattern_before_the_root() {
    let root = FsNode::DeniedDir { name: "notes".to_string(), failure: IoFailure::PermissionDenied };
    assert_eq!(search_files("(", &segs(&["notes"]), &root), Err(refusal("(")));
    assert_eq!(
        search_files("a", &segs(&["notes"]), &root),
        Err(SearchError::Traversal(IoFailure::PermissionDenied))
    );
    assert_eq!(search_candidates(&segs(&["notes"]), &root), Err(IoFailure::PermissionDenied));
}

#[test]
fn search_on_a_single_file() {
    let node = file("a.md", "needle", None);
    assert_eq!(
        search_files("needle", &segs(&["notes", "a.md"]), &node),
        Ok(vec![segs(&["notes", "a.md"])])
    );
}

#[test]
fn search_rejects_a_pattern_that_grows_too_large() {
    assert_eq!(
        search_files(r"\w{1000}", &segs(&["notes"]), &corpus()),
        Err(refusal(r"\w{1000}"))
    );
    assert_eq!(search_files("", &segs(&["notes"]), &corpus()).map(|found| found.len()), Ok(2));
}
