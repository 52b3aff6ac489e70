//! The commands of the program, as far as they decide or compute anything.

use crate::calendar::{utc_date, utc_date_text};
use crate::note::{note_of, read_note, Note, NoteError, NoteView, TimeZone, ZonedTime};
use crate::search::{
    search_files, search_outcome, search_result, utc, SearchError, SearchFailure,
};
use crate::snapshot::FsNode;
use crate::text::{
    child_path, contains_text, join, join_spec, lemma_texts_push, occurs_in, text_eq, texts,
};
use crate::traversal::{paths, root_failure};
use vstd::prelude::*;

verus! {

/// The shells that completion scripts can be written for.
#[derive(Clone, Copy, Debug, PartialEq, Eq, Structural)]
pub enum Shell {
    Bash,
    Zsh,
    Fish,
    PowerShell,
    Elvish,
}

/// The commands of the program.
#[derive(Clone, Debug, PartialEq, Eq)]
pub enum Commands {
    /// List all notes with their title, tags, category and date.
    List { path: Option<String> },
    /// Edit the notes that match a pattern.
    Edit { search_value: Option<String> },
    /// Search all notes interactively.
    Search,
    /// Show statistics about the notes.
    Statistics,
    /// Write a completion script for a shell.
    Completions { shell: Shell },
}

/// The arguments of the program: the command to run.
#[derive(Clone, Debug, PartialEq, Eq)]
pub struct Args {
    pub cmd: Commands,
}

/// Why a listing could not be made.
#[derive(Clone, Copy, Debug, PartialEq, Eq, Structural)]
pub enum ListError {
    /// A file that was to be listed could not be read as a note.
    Note(NoteError),
    /// A note's date of modification lies outside the calendar.
    DateOutOfRange,
}

/// Why there is nothing to edit.
#[derive(Clone, Debug, PartialEq, Eq)]
pub enum EditError {
    /// No pattern was given.
    NoPattern,
    /// The search failed.
    Search(SearchError),
    /// No note matches the pattern.
    NotFound,
}

/// The mathematical content of an `EditError`.
pub enum EditFailure {
    NoPattern,
    Search(SearchFailure),
    NotFound,
}

impl View for EditError {
    type V = EditFailure;

    open spec fn view(&self) -> EditFailure {
        match *self {
            EditError::NoPattern => EditFailure::NoPattern,
            EditError::Search(e) => EditFailure::Search(e@),
            EditError::NotFound => EditFailure::NotFound,
        }
    }
}

/// Whether some segment of `path` holds `.md`: the test by which files are
/// taken into a listing. It is a test on text, not on the extension.
pub open spec fn mentions_markdown(path: Seq<Seq<char>>) -> bool {
    exists|i: int| 0 <= i < path.len() && occurs_in(seq!['.', 'm', 'd'], #[trigger] path[i])
}

/// The category as a listing shows it: the segments other than `Notes`
/// with slashes between them, or `root` where none is left.
pub open spec fn shown_category(category: Seq<Seq<char>>) -> Seq<char> {
    let parts = category.filter(|segment: Seq<char>| segment != "Notes"@);
    if parts.len() == 0 {
        "root"@
    } else {
        join_spec(parts, "/"@)
    }
}

/// The tags as a listing shows them: each behind a `#`, with spaces between
/// them.
pub open spec fn shown_tags(tags: Seq<Seq<char>>) -> Seq<char> {
    if tags.len() == 0 {
        Seq::empty()
    } else {
        "#"@ + join_spec(tags, " #"@)
    }
}

/// The line of a listing for `note`, whose date of modification is written
/// as `date`: category in brackets, title, tags if there are any, and the
/// date in parentheses.
pub open spec fn entry_text(note: NoteView, date: Seq<char>) -> Seq<char> {
    let tags = shown_tags(note.metadata.tags);
    if tags.len() == 0 {
        "["@ + shown_category(note.metadata.category) + "] "@ + note.metadata.title + " ("@ + date
            + ")"@
    } else {
        "["@ + shown_category(note.metadata.category) + "] "@ + note.metadata.title + " "@ + tags
            + " ("@ + date + ")"@
    }
}

/// The calendar date of `time` in its own zone, written out.
pub open spec fn date_of(time: ZonedTime) -> Option<Seq<char>> {
    let local = time.instant.seconds + time.zone.offset_seconds;
    if i64::MIN <= local <= i64::MAX {
        utc_date_text(local as i64)
    } else {
        None
    }
}

/// What a listing holds for the entry `node` at `at`: a line if it is a
/// file that is taken in, nothing if it is not, or the reason why the line
/// cannot be made.
pub open spec fn entry_at(root: Seq<Seq<char>>, at: Seq<Seq<char>>, node: FsNode) -> Result<
    Seq<Seq<char>>,
    ListError,
> {
    if mentions_markdown(at) {
        match note_of(at, root, utc(), node) {
            Err(e) => Err(ListError::Note(e)),
            Ok(note) => match date_of(note.metadata.date_last_modified) {
                None => Err(ListError::DateOutOfRange),
                Some(date) => Ok(seq![entry_text(note, date)]),
            },
        }
    } else {
        Ok(Seq::empty())
    }
}

/// The lines of a listing for everything at or below `node`, or the first
/// reason why one of them cannot be made.
pub open spec fn entries_under(root: Seq<Seq<char>>, at: Seq<Seq<char>>, node: FsNode) -> Result<
    Seq<Seq<char>>,
    ListError,
>
    decreases node,
{
    match node {
        FsNode::File { .. } => entry_at(root, at, node),
        FsNode::Dir { entries, .. } => entries_in(root, at, entries@),
        _ => Ok(Seq::empty()),
    }
}

/// The lines of a listing for the given entries of the directory `dir`.
pub open spec fn entries_in(root: Seq<Seq<char>>, dir: Seq<Seq<char>>, entries: Seq<FsNode>) -> Result<
    Seq<Seq<char>>,
    ListError,
>
    decreases entries,
{
    if entries.len() == 0 {
        Ok(Seq::empty())
    } else {
        match entries_in(root, dir, entries.drop_last()) {
            Err(e) => Err(e),
            Ok(front) => match entries_under(
                root,
                dir.push(entries.last().name_text()),
                entries.last(),
            ) {
                Err(e) => Err(e),
                Ok(more) => Ok(front + more),
            },
        }
    }
}

/// Whether some segment of `path` holds `.md`.
pub fn mentions_md(path: &Vec<String>) -> (res: bool)
    ensures
        res == mentions_markdown(texts(path@)),
{
    proof {
        reveal_strlit(".md");
        assert(".md"@ =~= seq!['.', 'm', 'd']);
    }
    let mut i: usize = 0;
    while i < path.len()
        invariant
            i <= path.len(),
            ".md"@ == seq!['.', 'm', 'd'],
            forall|k: int| 0 <= k < i ==> !occurs_in(seq!['.', 'm', 'd'], #[trigger] texts(path@)[k]),
        decreases path.len() - i,
    {
        if contains_text(path[i].as_str(), ".md") {
            proof {
                assert(occurs_in(seq!['.', 'm', 'd'], texts(path@)[i as int]));
            }
            return true;
        }
        i += 1;
    }
    false
}

/// Writes the category as a listing shows it.
pub fn format_category(category: &Vec<String>) -> (res: String)
    ensures
        res@ == shown_category(texts(category@)),
{
    let mut parts: Vec<String> = Vec::new();
    let ghost keep = |segment: Seq<char>| segment != "Notes"@;
    let mut i: usize = 0;
    proof {
        reveal(Seq::filter);
        assert(texts(category@).take(0) =~= Seq::<Seq<char>>::empty());
        assert(texts(parts@) =~= texts(category@).take(0).filter(keep));
    }
    while i < category.len()
        invariant
            i <= category.len(),
            keep == |segment: Seq<char>| segment != "Notes"@,
            texts(parts@) == texts(category@).take(i as int).filter(keep),
        decreases category.len() - i,
    {
        let ghost upto = texts(category@).take(i + 1);
        proof {
            reveal(Seq::filter);
            assert(upto.drop_last() =~= texts(category@).take(i as int));
            assert(upto.last() == category@[i as int]@);
        }
        if !text_eq(category[i].as_str(), "Notes") {
            let part = category[i].clone();
            proof {
                lemma_texts_push(parts@, part);
            }
            parts.push(part);
        }
        i += 1;
    }
    proof {
        assert(texts(category@).take(category.len() as int) =~= texts(category@));
    }
    if parts.len() == 0 {
        "root".to_owned()
    } else {
        join(&parts, "/")
    }
}

/// Writes the tags as a listing shows them.
pub fn format_tags(tags: &Vec<String>) -> (res: String)
    ensures
        res@ == shown_tags(texts(tags@)),
{
    if tags.len() == 0 {
        String::new()
    } else {
        let mut out = "#".to_owned();
        out.append(join(tags, " #").as_str());
        out
    }
}

/// Writes the line of a listing for `note`, with `date` as its date of
/// modification.
pub fn format_entry(note: &Note, date: &str) -> (res: String)
    ensures
        res@ == entry_text(note@, date@),
{
    let category = format_category(&note.metadata.category);
    let tags = format_tags(&note.metadata.tags);
    let mut out = "[".to_owned();
    out.append(category.as_str());
    out.append("] ");
    out.append(note.metadata.title.as_str());
    if !tags.as_str().is_empty() {
        out.append(" ");
        out.append(tags.as_str());
    }
    out.append(" (");
    out.append(date);
    out.append(")");
    out
}

/// Writes the calendar date of `time` in its own zone, if it has one.
pub fn format_date(time: &ZonedTime) -> (res: Option<String>)
    ensures
        crate::calendar::text_option(res) == date_of(*time),
{
    let offset: i64 = time.zone.offset_seconds as i64;
    match time.instant.seconds.checked_add(offset) {
        Some(local) => utc_date(local),
        None => None,
    }
}

proof fn lemma_entries_failure_persists(
    root: Seq<Seq<char>>,
    dir: Seq<Seq<char>>,
    entries: Seq<FsNode>,
    k: int,
)
    requires
        0 <= k <= entries.len(),
        entries_in(root, dir, entries.take(k)) is Err,
    ensures
        entries_in(root, dir, entries) == entries_in(root, dir, entries.take(k)),
    decreases entries.len() - k,
{
    if k < entries.len() {
        let next = entries.take(k + 1);
        assert(next.drop_last() =~= entries.take(k));
        lemma_entries_failure_persists(root, dir, entries, k + 1);
    } else {
        assert(entries.take(k) =~= entries);
    }
}

#[verifier::loop_isolation(false)]
fn collect_entries(
    root: &Vec<String>,
    path: &Vec<String>,
    node: &FsNode,
    out: &mut Vec<String>,
) -> (res: Result<(), ListError>)
    ensures
        match res {
            Ok(_) => entries_under(texts(root@), texts(path@), *node) is Ok && texts(final(out)@)
                == texts(old(out)@) + entries_under(texts(root@), texts(path@), *node)->Ok_0,
            Err(e) => entries_under(texts(root@), texts(path@), *node) == Err::<
                Seq<Seq<char>>,
                ListError,
            >(e),
        },
    decreases *node,
{
    match node {
        FsNode::File { .. } => {
            if mentions_md(path) {
                let zone = TimeZone { offset_seconds: 0 };
                let note = match read_note(path, root, &zone, node) {
                    Ok(note) => note,
                    Err(e) => {
                        return Err(ListError::Note(e));
                    },
                };
                let date = match format_date(&note.metadata.date_last_modified) {
                    Some(date) => date,
                    None => {
                        return Err(ListError::DateOutOfRange);
                    },
                };
                let line = format_entry(&note, date.as_str());
                proof {
                    lemma_texts_push(out@, line);
                    assert(texts(out@).push(line@) =~= texts(out@) + seq![line@]);
                }
                out.push(line);
            } else {
                proof {
                    assert(texts(out@) =~= texts(out@) + Seq::<Seq<char>>::empty());
                }
            }
            Ok(())
        },
        FsNode::Dir { entries, .. } => {
            let mut i: usize = 0;
            proof {
                assert(texts(out@) =~= texts(old(out)@) + Seq::<Seq<char>>::empty());
            }
            while i < entries.len()
                invariant
                    i <= entries.len(),
                    entries_in(texts(root@), texts(path@), entries@.take(i as int)) is Ok,
                    texts(out@) == texts(old(out)@) + entries_in(
                        texts(root@),
                        texts(path@),
                        entries@.take(i as int),
                    )->Ok_0,
                decreases entries.len() - i,
            {
                let below = child_path(path, entries[i].name());
                let ghost upto = entries@.take(i + 1);
                proof {
                    assert(upto.drop_last() =~= entries@.take(i as int));
                    assert(upto.last() == entries@[i as int]);
                }
                match collect_entries(root, &below, &entries[i], out) {
                    Ok(_) => {
                        proof {
                            assert(texts(out@) =~= texts(old(out)@) + entries_in(
                                texts(root@),
                                texts(path@),
                                upto,
                            )->Ok_0);
                        }
                    },
                    Err(e) => {
                        proof {
                            lemma_entries_failure_persists(
                                texts(root@),
                                texts(path@),
                                entries@,
                                i + 1,
                            );
                        }
                        return Err(e);
                    },
                }
                i += 1;
            }
            proof {
                assert(entries@.take(entries.len() as int) =~= entries@);
            }
            Ok(())
        },
        _ => {
            proof {
                assert(texts(out@) =~= texts(out@) + Seq::<Seq<char>>::empty());
            }
            Ok(())
        },
    }
}

/// What a listing of the snapshot `tree` of `base_path` holds. Categories
/// are taken relative to `base_path`.
pub open spec fn listing_of(base_path: Seq<Seq<char>>, tree: FsNode) -> Result<
    Seq<Seq<char>>,
    ListError,
> {
    if root_failure(tree) is Some {
        Ok(Seq::empty())
    } else {
        entries_under(base_path, base_path, tree)
    }
}

/// The outcome of a listing, as mathematical content.
pub open spec fn listing_outcome(res: Result<Vec<String>, ListError>) -> Result<
    Seq<Seq<char>>,
    ListError,
> {
    match res {
        Ok(found) => Ok(texts(found@)),
        Err(e) => Err(e),
    }
}

/// Lists the notes below `base_path`, one line each, in listing order. A
/// file is taken in when its path holds `.md`; it is read as a note with
/// its category relative to `base_path`, in UTC. A root that cannot be
/// listed gives an empty listing. The first file that cannot be read, or
/// whose date cannot be written, fails the listing.
pub fn list_files(base_path: &Vec<String>, tree: &FsNode) -> (res: Result<Vec<String>, ListError>)
    ensures
        listing_outcome(res) == listing_of(texts(base_path@), *tree),
{
    let mut out: Vec<String> = Vec::new();
    proof {
        assert(texts(out@) =~= Seq::<Seq<char>>::empty());
    }
    match tree {
        FsNode::DeniedDir { .. } => Ok(out),
        FsNode::Other { .. } => Ok(out),
        _ => {
            match collect_entries(base_path, base_path, tree, &mut out) {
                Ok(_) => {
                    proof {
                        assert(texts(out@) =~= entries_under(
                            texts(base_path@),
                            texts(base_path@),
                            *tree,
                        )->Ok_0);
                    }
                    Ok(out)
                },
                Err(e) => Err(e),
            }
        },
    }
}

/// What choosing the notes to edit ends in, for the pattern `pattern`.
pub open spec fn edit_result(pattern: Seq<char>, base_path: Seq<Seq<char>>, tree: FsNode) -> Result<
    Seq<Seq<Seq<char>>>,
    EditFailure,
> {
    match search_result(pattern, base_path, tree) {
        Err(e) => Err(EditFailure::Search(e)),
        Ok(found) => if found.len() == 0 {
            Err(EditFailure::NotFound)
        } else {
            Ok(found)
        },
    }
}

/// The outcome of choosing the notes to edit, as mathematical content.
pub open spec fn edit_outcome(res: Result<Vec<Vec<String>>, EditError>) -> Result<
    Seq<Seq<Seq<char>>>,
    EditFailure,
> {
    match res {
        Ok(found) => Ok(paths(found@)),
        Err(e) => Err(e@),
    }
}

/// Turns the outcome of a search into the list of notes to edit: a failed
/// search has nothing to edit, and neither has a search without matches.
pub fn choose_files(outcome: Result<Vec<Vec<String>>, SearchError>) -> (res: Result<
    Vec<Vec<String>>,
    EditError,
>)
    ensures
        edit_outcome(res) == match search_outcome(outcome) {
            Err(e) => Err(EditFailure::Search(e)),
            Ok(found) => if found.len() == 0 {
                Err(EditFailure::NotFound)
            } else {
                Ok(found)
            },
        },
{
    match outcome {
        Err(e) => Err(EditError::Search(e)),
        Ok(matched_files) => {
            if matched_files.is_empty() {
                Err(EditError::NotFound)
            } else {
                Ok(matched_files)
            }
        },
    }
}

/// Chooses the notes below `base_path` that match `search_value`, for the
/// editor to open. Fails where the search fails and where nothing matches.
pub fn edit_file_internal(search_value: &str, base_path: &Vec<String>, tree: &FsNode) -> (res:
    Result<Vec<Vec<String>>, EditError>)
    ensures
        edit_outcome(res) == edit_result(search_value@, texts(base_path@), *tree),
{
    choose_files(search_files(search_value, base_path, tree))
}

/// Chooses the notes to edit for the pattern given on the command line.
/// Without a pattern there is nothing to search for.
pub fn edit_file(search_value: Option<String>, base_path: &Vec<String>, tree: &FsNode) -> (res:
    Result<Vec<Vec<String>>, EditError>)
    ensures
        edit_outcome(res) == match search_value {
            Some(value) => edit_result(value@, texts(base_path@), *tree),
            None => Err(EditFailure::NoPattern),
        },
{
    match search_value {
        Some(value) => edit_file_internal(value.as_str(), base_path, tree),
        None => Err(EditError::NoPattern),
    }
}

} // verus!
