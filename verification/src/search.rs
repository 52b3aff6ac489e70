//! Searching the notes below a root for a pattern.

use crate::note::{note_of, read_note, Note, NoteView, TimeZone};
use crate::pattern::{
    compile, explain, is_match, pattern_compiles, pattern_matches, refusal_of, regex_matches,
};
use crate::snapshot::{FsNode, IoFailure};
use crate::text::{child_path, copy_path, join, join_spec, occurs_at, occurs_in, texts};
use crate::traversal::{files_in, files_under, lemma_contains_add, paths, root_failure};
use vstd::prelude::*;

verus! {

/// Why a search gave no result list.
#[derive(Clone, Debug, PartialEq, Eq)]
pub enum SearchError {
    /// The pattern is not a valid expression; the text says why.
    InvalidPattern(String),
    /// The root could not be listed.
    Traversal(IoFailure),
}

/// The mathematical content of a `SearchError`.
pub enum SearchFailure {
    InvalidPattern(Seq<char>),
    Traversal(IoFailure),
}

impl View for SearchError {
    type V = SearchFailure;

    open spec fn view(&self) -> SearchFailure {
        match *self {
            SearchError::InvalidPattern(why) => SearchFailure::InvalidPattern(why@),
            SearchError::Traversal(failure) => SearchFailure::Traversal(failure),
        }
    }
}

/// A note that a search looks at: where it is, and the text it is judged by.
#[derive(Clone, Debug, PartialEq, Eq)]
pub struct Candidate {
    pub path: Vec<String>,
    pub text: String,
}

/// The mathematical content of a `Candidate`.
pub struct CandidateView {
    pub path: Seq<Seq<char>>,
    pub text: Seq<char>,
}

impl View for Candidate {
    type V = CandidateView;

    open spec fn view(&self) -> CandidateView {
        CandidateView { path: texts(self.path@), text: self.text@ }
    }
}

/// The mathematical content of a list of candidates.
pub open spec fn candidates(v: Seq<Candidate>) -> Seq<CandidateView> {
    v.map_values(|c: Candidate| c@)
}

/// The time zone notes are read in when they are searched.
pub open spec fn utc() -> TimeZone {
    TimeZone { offset_seconds: 0 }
}

/// Whether a file name has the extension `md`: it ends in `.md` and has
/// something before that.
pub open spec fn is_markdown_name(name: Seq<char>) -> bool {
    name.len() >= 4 && name.skip(name.len() - 3) == seq!['.', 'm', 'd']
}

/// Whether the final segment of `path` has the extension `md`.
pub open spec fn is_markdown_path(path: Seq<Seq<char>>) -> bool {
    path.len() > 0 && is_markdown_name(path.last())
}

/// The text a note is searched in: file name, title, tags, category and
/// content, in this order, with single spaces between them and between the
/// tags and the categories.
pub open spec fn searchable_text_of(note: NoteView) -> Seq<char> {
    note.metadata.filename + " "@ + note.metadata.title + " "@ + join_spec(
        note.metadata.tags,
        " "@,
    ) + " "@ + join_spec(note.metadata.category, " "@) + " "@ + note.content
}

/// The candidate that the entry `node` at `at` gives, if it is a markdown
/// note that can be read.
pub open spec fn candidate_at(root: Seq<Seq<char>>, at: Seq<Seq<char>>, node: FsNode) -> Option<
    CandidateView,
> {
    if is_markdown_path(at) {
        match note_of(at, root, utc(), node) {
            Ok(note) => Some(CandidateView { path: at, text: searchable_text_of(note) }),
            Err(_) => None,
        }
    } else {
        None
    }
}

/// The candidates at or below `node`, which has the path `at`, in listing
/// order.
pub open spec fn candidates_under(root: Seq<Seq<char>>, at: Seq<Seq<char>>, node: FsNode) -> Seq<
    CandidateView,
>
    decreases node,
{
    match node {
        FsNode::File { .. } => match candidate_at(root, at, node) {
            Some(c) => seq![c],
            None => Seq::empty(),
        },
        FsNode::Dir { entries, .. } => candidates_in(root, at, entries@),
        _ => Seq::empty(),
    }
}

/// The candidates at or below the given entries of the directory `dir`.
pub open spec fn candidates_in(root: Seq<Seq<char>>, dir: Seq<Seq<char>>, entries: Seq<FsNode>) -> Seq<
    CandidateView,
>
    decreases entries,
{
    if entries.len() == 0 {
        Seq::empty()
    } else {
        candidates_in(root, dir, entries.drop_last()) + candidates_under(
            root,
            dir.push(entries.last().name_text()),
            entries.last(),
        )
    }
}

/// The paths of the candidates whose text `pattern` matches, in order.
pub open spec fn matching_paths(pattern: Seq<char>, found: Seq<CandidateView>) -> Seq<
    Seq<Seq<char>>,
> {
    found.filter(|c: CandidateView| pattern_matches(pattern, c.text)).map_values(
        |c: CandidateView| c.path,
    )
}

/// Whether the file name `name` has the extension `md`, compared exactly
/// and with case.
pub fn has_markdown_extension(name: &str) -> (res: bool)
    ensures
        res == is_markdown_name(name@),
{
    let n = name.unicode_len();
    if n < 4 {
        return false;
    }
    let res = name.get_char(n - 3) == '.' && name.get_char(n - 2) == 'm' && name.get_char(n - 1)
        == 'd';
    proof {
        let end = name@.skip(n - 3);
        assert(end.len() == 3);
        assert(end[0] == name@[n - 3] && end[1] == name@[n - 2] && end[2] == name@[n - 1]);
        if res {
            assert(end =~= seq!['.', 'm', 'd']);
        }
    }
    res
}

/// Whether `path` names a markdown file by its extension.
pub fn is_markdown(path: &Vec<String>) -> (res: bool)
    ensures
        res == is_markdown_path(texts(path@)),
{
    if path.len() == 0 {
        return false;
    }
    has_markdown_extension(path[path.len() - 1].as_str())
}

/// Builds the text a note is searched in.
pub fn searchable_text(note: &Note) -> (res: String)
    ensures
        res@ == searchable_text_of(note@),
{
    let mut out = note.metadata.filename.clone();
    out.append(" ");
    out.append(note.metadata.title.as_str());
    out.append(" ");
    let tags = join(&note.metadata.tags, " ");
    out.append(tags.as_str());
    out.append(" ");
    let category = join(&note.metadata.category, " ");
    out.append(category.as_str());
    out.append(" ");
    out.append(note.content.as_str());
    out
}

#[verifier::loop_isolation(false)]
fn collect_candidates(
    root: &Vec<String>,
    path: &Vec<String>,
    node: &FsNode,
    out: &mut Vec<Candidate>,
)
    ensures
        candidates(final(out)@) == candidates(old(out)@) + candidates_under(
            texts(root@),
            texts(path@),
            *node,
        ),
    decreases *node,
{
    match node {
        FsNode::File { .. } => {
            if is_markdown(path) {
                let zone = TimeZone { offset_seconds: 0 };
                match read_note(path, root, &zone, node) {
                    Ok(note) => {
                        let text = searchable_text(&note);
                        out.push(Candidate { path: copy_path(path), text });
                    },
                    Err(_) => {},
                }
            }
            proof {
                assert(candidates(out@) =~= candidates(old(out)@) + candidates_under(
                    texts(root@),
                    texts(path@),
                    *node,
                ));
            }
        },
        FsNode::Dir { entries, .. } => {
            let mut i: usize = 0;
            proof {
                assert(candidates(out@) =~= candidates(old(out)@) + candidates_in(
                    texts(root@),
                    texts(path@),
                    entries@.take(0),
                ));
            }
            while i < entries.len()
                invariant
                    i <= entries.len(),
                    candidates(out@) == candidates(old(out)@) + candidates_in(
                        texts(root@),
                        texts(path@),
                        entries@.take(i as int),
                    ),
                decreases entries.len() - i,
            {
                let below = child_path(path, entries[i].name());
                collect_candidates(root, &below, &entries[i], out);
                proof {
                    let upto = entries@.take(i + 1);
                    assert(upto.drop_last() =~= entries@.take(i as int));
                    assert(upto.last() == entries@[i as int]);
                    assert(candidates(out@) =~= candidates(old(out)@) + candidates_in(
                        texts(root@),
                        texts(path@),
                        upto,
                    ));
                }
                i += 1;
            }
            proof {
                assert(entries@.take(entries.len() as int) =~= entries@);
            }
        },
        _ => {
            proof {
                assert(candidates(out@) =~= candidates(old(out)@) + candidates_under(
                    texts(root@),
                    texts(path@),
                    *node,
                ));
            }
        },
    }
}

/// Gathers what a search below `base_path` looks at: every file of the
/// snapshot `tree` that has the extension `md` and can be read as a note,
/// with its searchable text, in listing order. Files that cannot be read
/// are left out. Fails only where the root itself cannot be listed.
pub fn search_candidates(base_path: &Vec<String>, tree: &FsNode) -> (res: Result<
    Vec<Candidate>,
    IoFailure,
>)
    ensures
        match res {
            Ok(found) => root_failure(*tree) is None && candidates(found@) == candidates_under(
                texts(base_path@),
                texts(base_path@),
                *tree,
            ),
            Err(e) => root_failure(*tree) == Some(e),
        },
{
    match tree {
        FsNode::DeniedDir { failure, .. } => Err(*failure),
        FsNode::Other { failure, .. } => Err(*failure),
        _ => {
            let mut out: Vec<Candidate> = Vec::new();
            collect_candidates(base_path, base_path, tree, &mut out);
            proof {
                assert(candidates(out@) =~= candidates_under(
                    texts(base_path@),
                    texts(base_path@),
                    *tree,
                ));
            }
            Ok(out)
        },
    }
}

/// What a search for `pattern` returns on the snapshot `tree` of
/// `base_path`.
pub open spec fn search_result(pattern: Seq<char>, base_path: Seq<Seq<char>>, tree: FsNode) -> Result<
    Seq<Seq<Seq<char>>>,
    SearchFailure,
> {
    match refusal_of(pattern) {
        Some(why) => Err(SearchFailure::InvalidPattern(why)),
        None => match root_failure(tree) {
            Some(f) => Err(SearchFailure::Traversal(f)),
            None => Ok(matching_paths(pattern, candidates_under(base_path, base_path, tree))),
        },
    }
}

/// The outcome of a search, as mathematical content.
pub open spec fn search_outcome(res: Result<Vec<Vec<String>>, SearchError>) -> Result<
    Seq<Seq<Seq<char>>>,
    SearchFailure,
> {
    match res {
        Ok(found) => Ok(paths(found@)),
        Err(e) => Err(e@),
    }
}

/// Searches the notes below `base_path` for `search_value`. An invalid
/// pattern fails the search before anything is looked at, with the
/// explanation of what is wrong with it. Otherwise the
/// result holds, in listing order, the path of every markdown note whose
/// searchable text the pattern matches somewhere.
pub fn search_files(search_value: &str, base_path: &Vec<String>, tree: &FsNode) -> (res: Result<
    Vec<Vec<String>>,
    SearchError,
>)
    ensures
        search_outcome(res) == search_result(search_value@, texts(base_path@), *tree),
{
    let re = match compile(search_value) {
        Ok(re) => re,
        Err(error) => {
            return Err(SearchError::InvalidPattern(explain(&error)));
        },
    };
    let found = match search_candidates(base_path, tree) {
        Ok(found) => found,
        Err(f) => {
            return Err(SearchError::Traversal(f));
        },
    };
    let ghost keep = |c: CandidateView| pattern_matches(search_value@, c.text);
    let ghost path_of = |c: CandidateView| c.path;
    let mut matching_files: Vec<Vec<String>> = Vec::new();
    let mut i: usize = 0;
    proof {
        reveal(Seq::filter);
        assert(candidates(found@).take(0) =~= Seq::<CandidateView>::empty());
        assert(paths(matching_files@) =~= candidates(found@).take(0).filter(keep).map_values(
            path_of,
        ));
    }
    while i < found.len()
        invariant
            i <= found.len(),
            forall|text: Seq<char>| #[trigger]
                regex_matches(re, text) == pattern_matches(search_value@, text),
            keep == |c: CandidateView| pattern_matches(search_value@, c.text),
            path_of == |c: CandidateView| c.path,
            paths(matching_files@) == candidates(found@).take(i as int).filter(keep).map_values(
                path_of,
            ),
        decreases found.len() - i,
    {
        let ghost upto = candidates(found@).take(i + 1);
        proof {
            reveal(Seq::filter);
            assert(upto.drop_last() =~= candidates(found@).take(i as int));
            assert(upto.last() == found@[i as int]@);
        }
        if is_match(&re, found[i].text.as_str()) {
            let hit = copy_path(&found[i].path);
            let ghost before = matching_files@;
            matching_files.push(hit);
            proof {
                let kept = upto.drop_last().filter(keep);
                assert(upto.filter(keep) == kept.push(upto.last()));
                assert(paths(before.push(hit)) =~= paths(before).push(texts(hit@)));
                assert(kept.push(upto.last()).map_values(path_of) =~= kept.map_values(
                    path_of,
                ).push(upto.last().path));
            }
        }
        i += 1;
    }
    proof {
        assert(candidates(found@).take(found.len() as int) =~= candidates(found@));
    }
    Ok(matching_files)
}

/// Every field of a note stands in its searchable text: the file name at
/// the start, the content at the end, and title, tags and category between
/// them.
pub proof fn lemma_searchable_text_holds_every_field(note: NoteView)
    ensures
        occurs_in(note.metadata.filename, searchable_text_of(note)),
        occurs_in(note.metadata.title, searchable_text_of(note)),
        occurs_in(join_spec(note.metadata.tags, " "@), searchable_text_of(note)),
        occurs_in(join_spec(note.metadata.category, " "@), searchable_text_of(note)),
        occurs_in(note.content, searchable_text_of(note)),
{
    let space = " "@;
    let name = note.metadata.filename;
    let title = note.metadata.title;
    let tags = join_spec(note.metadata.tags, space);
    let category = join_spec(note.metadata.category, space);
    let text = searchable_text_of(note);
    let at_title: int = (name.len() + space.len()) as int;
    let at_tags: int = at_title + title.len() + space.len();
    let at_category: int = at_tags + tags.len() + space.len();
    let at_content: int = at_category + category.len() + space.len();
    assert(text.subrange(0, name.len() as int) =~= name);
    assert(occurs_at(name, text, 0));
    assert(text.subrange(at_title, at_title + title.len()) =~= title);
    assert(occurs_at(title, text, at_title));
    assert(text.subrange(at_tags, at_tags + tags.len()) =~= tags);
    assert(occurs_at(tags, text, at_tags));
    assert(text.subrange(at_category, at_category + category.len()) =~= category);
    assert(occurs_at(category, text, at_category));
    assert(text.subrange(at_content, at_content + note.content.len()) =~= note.content);
    assert(occurs_at(note.content, text, at_content));
}

/// What a search looks at are listed files with the extension `md`: each
/// candidate's path is one of the files below the root, and its final
/// segment ends in `.md`.
pub proof fn lemma_candidates_are_markdown_files(
    root: Seq<Seq<char>>,
    at: Seq<Seq<char>>,
    node: FsNode,
    c: CandidateView,
)
    requires
        candidates_under(root, at, node).contains(c),
    ensures
        is_markdown_path(c.path),
        files_under(at, node).contains(c.path),
    decreases node, 1nat,
{
    match node {
        FsNode::File { .. } => {
            assert(candidates_under(root, at, node)[0] == c);
            assert(files_under(at, node)[0] == at);
        },
        FsNode::Dir { entries, .. } => {
            lemma_candidates_in(root, at, entries@, c);
        },
        _ => {},
    }
}

proof fn lemma_candidates_in(
    root: Seq<Seq<char>>,
    dir: Seq<Seq<char>>,
    entries: Seq<FsNode>,
    c: CandidateView,
)
    requires
        candidates_in(root, dir, entries).contains(c),
    ensures
        is_markdown_path(c.path),
        files_in(dir, entries).contains(c.path),
    decreases entries, 0nat,
{
    if entries.len() > 0 {
        let front = entries.drop_last();
        let last = entries.last();
        let below = dir.push(last.name_text());
        lemma_contains_add(candidates_in(root, dir, front), candidates_under(root, below, last), c);
        lemma_contains_add(files_in(dir, front), files_under(below, last), c.path);
        if candidates_in(root, dir, front).contains(c) {
            lemma_candidates_in(root, dir, front, c);
        } else {
            lemma_candidates_are_markdown_files(root, below, last, c);
        }
    }
}

/// A note whose searchable text the pattern matches is among the results,
/// whichever of its fields the match lies in.
pub proof fn lemma_matching_note_is_found(pattern: Seq<char>, found: Seq<CandidateView>, i: int)
    requires
        0 <= i < found.len(),
        pattern_matches(pattern, found[i].text),
    ensures
        matching_paths(pattern, found).contains(found[i].path),
{
    let keep = |c: CandidateView| pattern_matches(pattern, c.text);
    found.lemma_filter_contains(keep, i);
    let kept = found.filter(keep);
    let k = choose|k: int| 0 <= k < kept.len() && kept[k] == found[i];
    assert(matching_paths(pattern, found)[k] == found[i].path);
}

/// Every result is the path of a note whose searchable text the pattern
/// matches.
pub proof fn lemma_found_path_matches(
    pattern: Seq<char>,
    found: Seq<CandidateView>,
    path: Seq<Seq<char>>,
)
    requires
        matching_paths(pattern, found).contains(path),
    ensures
        exists|i: int|
            0 <= i < found.len() && (#[trigger] found[i]).path == path && pattern_matches(
                pattern,
                found[i].text,
            ),
{
    let keep = |c: CandidateView| pattern_matches(pattern, c.text);
    let kept = found.filter(keep);
    let k = choose|k: int|
        0 <= k < matching_paths(pattern, found).len() && matching_paths(pattern, found)[k] == path;
    found.lemma_filter_pred(keep, k);
    assert(kept.contains(kept[k]));
    found.lemma_filter_contains_rev(keep, kept[k]);
    let i = choose|i: int| 0 <= i < found.len() && found[i] == kept[k];
    assert(found[i].path == path && pattern_matches(pattern, found[i].text));
}

/// A valid pattern that matches no note gives an empty result, not a
/// failure.
pub proof fn lemma_no_match_is_empty(pattern: Seq<char>, base_path: Seq<Seq<char>>, tree: FsNode)
    requires
        pattern_compiles(pattern),
        root_failure(tree) is None,
        forall|i: int|
            0 <= i < candidates_under(base_path, base_path, tree).len() ==> !pattern_matches(
                pattern,
                (#[trigger] candidates_under(base_path, base_path, tree)[i]).text,
            ),
    ensures
        search_result(pattern, base_path, tree) == Ok::<Seq<Seq<Seq<char>>>, SearchFailure>(
            Seq::empty(),
        ),
{
    let found = candidates_under(base_path, base_path, tree);
    let hits = matching_paths(pattern, found);
    if hits.len() > 0 {
        assert(hits.contains(hits[0]));
        lemma_found_path_matches(pattern, found, hits[0]);
    }
    assert(hits =~= Seq::empty());
}

/// An invalid pattern fails the search, whatever the notes are.
pub proof fn lemma_invalid_pattern_fails(pattern: Seq<char>, base_path: Seq<Seq<char>>, tree: FsNode)
    requires
        !pattern_compiles(pattern),
    ensures
        search_result(pattern, base_path, tree) == Err::<Seq<Seq<Seq<char>>>, SearchFailure>(
            SearchFailure::InvalidPattern(refusal_of(pattern)->Some_0),
        ),
{
}

} // verus!
