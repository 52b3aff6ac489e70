//! Notes: a markdown file together with what is known about it.

use crate::snapshot::{FileData, FsNode, IoFailure, Timestamp};
use crate::text::{contains_char, copy_path, lemma_texts_push, texts};
use vstd::prelude::*;

verus! {

/// The fields a note may declare in the preamble at its start.
#[derive(Clone, Debug, PartialEq, Eq)]
pub struct NoteFrontMatter {
    pub title: Option<String>,
    pub tags: Option<Vec<String>>,
    pub date: Option<String>,
}

/// A time zone with a fixed distance from UTC, in seconds east of it.
#[derive(Clone, Copy, Debug, PartialEq, Eq, Structural)]
pub struct TimeZone {
    pub offset_seconds: i32,
}

/// An instant as seen in a time zone.
#[derive(Clone, Copy, Debug, PartialEq, Eq, Structural)]
pub struct ZonedTime {
    pub instant: Timestamp,
    pub zone: TimeZone,
}

/// What is known about a note apart from its text.
#[derive(Clone, Debug, PartialEq, Eq)]
pub struct NoteMetadata {
    pub filename: String,
    pub title: String,
    pub tags: Vec<String>,
    pub category: Vec<String>,
    pub date_created: ZonedTime,
    pub date_last_modified: ZonedTime,
}

/// A note: its metadata, its full text and where it was found.
#[derive(Clone, Debug, PartialEq, Eq)]
pub struct Note {
    pub metadata: NoteMetadata,
    pub content: String,
    pub path: Vec<String>,
}

/// Why a note could not be read.
#[derive(Clone, Copy, Debug, PartialEq, Eq, Structural)]
pub enum NoteError {
    /// The path does not name a regular file.
    NotAFile,
    /// The file system refused to give the timestamps or the content.
    Io(IoFailure),
}

/// The mathematical content of a `NoteMetadata`.
pub struct MetadataView {
    pub filename: Seq<char>,
    pub title: Seq<char>,
    pub tags: Seq<Seq<char>>,
    pub category: Seq<Seq<char>>,
    pub date_created: ZonedTime,
    pub date_last_modified: ZonedTime,
}

/// The mathematical content of a `Note`.
pub struct NoteView {
    pub metadata: MetadataView,
    pub content: Seq<char>,
    pub path: Seq<Seq<char>>,
}

impl View for NoteMetadata {
    type V = MetadataView;

    open spec fn view(&self) -> MetadataView {
        MetadataView {
            filename: self.filename@,
            title: self.title@,
            tags: texts(self.tags@),
            category: texts(self.category@),
            date_created: self.date_created,
            date_last_modified: self.date_last_modified,
        }
    }
}

impl View for Note {
    type V = NoteView;

    open spec fn view(&self) -> NoteView {
        NoteView { metadata: self.metadata@, content: self.content@, path: texts(self.path@) }
    }
}

/// The final segment of a path, which names the file.
pub open spec fn file_name_of(path: Seq<Seq<char>>) -> Seq<char> {
    if path.len() == 0 {
        "Empty"@
    } else {
        path.last()
    }
}

/// The segments of `path` that follow the first `root_len` ones.
pub open spec fn below_root(path: Seq<Seq<char>>, root_len: nat) -> Seq<Seq<char>> {
    if root_len >= path.len() {
        Seq::empty()
    } else {
        path.skip(root_len as int)
    }
}

/// The category of a note at `path` under `root`: the segments after the
/// root's, without those that contain a dot. The file's own name goes with
/// them when it has an extension.
pub open spec fn category_of(path: Seq<Seq<char>>, root: Seq<Seq<char>>) -> Seq<Seq<char>> {
    below_root(path, root.len()).filter(|segment: Seq<char>| !segment.contains('.'))
}

/// The modification and creation times of a file, or the first failure met
/// when asking for the metadata, the modification time and the creation
/// time, in this order.
pub open spec fn times_of(data: FileData) -> Result<(Timestamp, Timestamp), IoFailure> {
    match data.stat {
        Err(f) => Err(f),
        Ok(stat) => match stat.modified {
            Err(f) => Err(f),
            Ok(modified) => match stat.created {
                Err(f) => Err(f),
                Ok(created) => Ok((modified, created)),
            },
        },
    }
}

/// The metadata derived for the entry `node` found at `path`, or why there
/// is none.
pub open spec fn metadata_of(
    path: Seq<Seq<char>>,
    root: Seq<Seq<char>>,
    tz: TimeZone,
    node: FsNode,
) -> Result<MetadataView, NoteError> {
    match node {
        FsNode::File { data, .. } => match times_of(data) {
            Err(f) => Err(NoteError::Io(f)),
            Ok((modified, created)) => Ok(
                MetadataView {
                    filename: file_name_of(path),
                    title: file_name_of(path),
                    tags: Seq::empty(),
                    category: category_of(path, root),
                    date_created: ZonedTime { instant: created, zone: tz },
                    date_last_modified: ZonedTime { instant: modified, zone: tz },
                },
            ),
        },
        _ => Err(NoteError::NotAFile),
    }
}

/// The tags a preamble gives: its list, or none where it has no list.
pub open spec fn front_tags(front: NoteFrontMatter) -> Seq<Seq<char>> {
    match front.tags {
        Some(tags) => texts(tags@),
        None => Seq::empty(),
    }
}

/// The title a preamble gives: its title, or the empty one where it has none.
pub open spec fn front_title(front: NoteFrontMatter) -> Seq<char> {
    match front.title {
        Some(title) => title@,
        None => Seq::empty(),
    }
}

/// The note read from the entry `node` found at `path`, or why there is none.
/// A preamble replaces the derived title and tags together, also by empty
/// values; its date is not used.
pub open spec fn note_of(
    path: Seq<Seq<char>>,
    root: Seq<Seq<char>>,
    tz: TimeZone,
    node: FsNode,
) -> Result<NoteView, NoteError> {
    match metadata_of(path, root, tz, node) {
        Err(e) => Err(e),
        Ok(derived) => match node->File_data.content {
            Err(f) => Err(NoteError::Io(f)),
            Ok(content) => Ok(
                NoteView {
                    metadata: match node->File_data.front_matter {
                        Some(front) => MetadataView {
                            title: front_title(front),
                            tags: front_tags(front),
                            ..derived
                        },
                        None => derived,
                    },
                    content: content@,
                    path,
                },
            ),
        },
    }
}

/// The outcome of reading metadata, as mathematical content.
pub open spec fn metadata_outcome(res: Result<NoteMetadata, NoteError>) -> Result<
    MetadataView,
    NoteError,
> {
    match res {
        Ok(m) => Ok(m@),
        Err(e) => Err(e),
    }
}

/// The outcome of reading a note, as mathematical content.
pub open spec fn note_outcome(res: Result<Note, NoteError>) -> Result<NoteView, NoteError> {
    match res {
        Ok(n) => Ok(n@),
        Err(e) => Err(e),
    }
}

/// The category of `path` under `root_path`.
pub fn derive_category(path: &Vec<String>, root_path: &Vec<String>) -> (res: Vec<String>)
    ensures
        texts(res@) == category_of(texts(path@), texts(root_path@)),
{
    let mut out: Vec<String> = Vec::new();
    let start = root_path.len();
    let ghost keep = |segment: Seq<char>| !segment.contains('.');
    let ghost below = below_root(texts(path@), texts(root_path@).len());
    if start >= path.len() {
        proof {
            reveal(Seq::filter);
            assert(texts(out@) =~= below.filter(keep));
        }
        return out;
    }
    let mut i: usize = start;
    proof {
        reveal(Seq::filter);
        assert(below.take(0) =~= Seq::<Seq<char>>::empty());
        assert(texts(out@) =~= below.take(0).filter(keep));
    }
    while i < path.len()
        invariant
            start <= i <= path.len(),
            start < path.len(),
            start == root_path.len(),
            below == texts(path@).skip(start as int),
            keep == |segment: Seq<char>| !segment.contains('.'),
            texts(out@) == below.take(i - start).filter(keep),
        decreases path.len() - i,
    {
        let ghost upto = below.take(i + 1 - start);
        proof {
            reveal(Seq::filter);
            assert(upto.drop_last() =~= below.take(i - start));
            assert(upto.last() == path@[i as int]@);
        }
        if !contains_char(path[i].as_str(), '.') {
            let segment = path[i].clone();
            proof {
                lemma_texts_push(out@, segment);
            }
            out.push(segment);
        }
        i += 1;
    }
    proof {
        assert(below.take(path.len() - start) =~= below);
    }
    out
}

/// Derives the metadata of the note at `path` from `node`, the snapshot of
/// what `path` names. Title and file name are the path's final segment; the
/// category is made of the segments between `root_path` and the file; both
/// timestamps are placed in `tz`. Fails with `NotAFile` unless `node` is a
/// regular file, and with the file system's failure where a timestamp
/// cannot be had.
pub fn read_note_metadata(
    path: &Vec<String>,
    root_path: &Vec<String>,
    tz: &TimeZone,
    node: &FsNode,
) -> (res: Result<NoteMetadata, NoteError>)
    ensures
        metadata_outcome(res) == metadata_of(texts(path@), texts(root_path@), *tz, *node),
{
    match node {
        FsNode::File { data, .. } => {
            let stat = match &data.stat {
                Ok(stat) => stat,
                Err(f) => {
                    return Err(NoteError::Io(*f));
                },
            };
            let modified = match &stat.modified {
                Ok(t) => *t,
                Err(f) => {
                    return Err(NoteError::Io(*f));
                },
            };
            let created = match &stat.created {
                Ok(t) => *t,
                Err(f) => {
                    return Err(NoteError::Io(*f));
                },
            };
            let title: String = if path.len() == 0 {
                "Empty".to_owned()
            } else {
                path[path.len() - 1].clone()
            };
            let filename = title.clone();
            let tags: Vec<String> = Vec::new();
            let category = derive_category(path, root_path);
            proof {
                assert(texts(tags@) =~= Seq::<Seq<char>>::empty());
                assert(texts(path@).len() > 0 ==> texts(path@).last() == path@.last()@);
            }
            Ok(
                NoteMetadata {
                    filename,
                    title,
                    tags,
                    category,
                    date_created: ZonedTime { instant: created, zone: *tz },
                    date_last_modified: ZonedTime { instant: modified, zone: *tz },
                },
            )
        },
        _ => Err(NoteError::NotAFile),
    }
}

/// Reads the note at `path` from `node`, the snapshot of what `path` names:
/// the derived metadata, then the full text, preamble included. Where the
/// file carries a preamble, its title and tags replace the derived ones,
/// each by the empty value where the preamble leaves it out.
pub fn read_note(path: &Vec<String>, root_path: &Vec<String>, tz: &TimeZone, node: &FsNode) -> (res:
    Result<Note, NoteError>)
    ensures
        note_outcome(res) == note_of(texts(path@), texts(root_path@), *tz, *node),
{
    let mut metadata = match read_note_metadata(path, root_path, tz, node) {
        Ok(m) => m,
        Err(e) => {
            return Err(e);
        },
    };
    match node {
        FsNode::File { data, .. } => {
            let content = match &data.content {
                Ok(text) => text.clone(),
                Err(f) => {
                    return Err(NoteError::Io(*f));
                },
            };
            match &data.front_matter {
                Some(front) => {
                    metadata.tags = match &front.tags {
                        Some(tags) => copy_path(tags),
                        None => Vec::new(),
                    };
                    metadata.title = match &front.title {
                        Some(title) => title.clone(),
                        None => String::new(),
                    };
                    proof {
                        assert(metadata@.tags =~= front_tags(*front));
                        assert(metadata@.title =~= front_title(*front));
                    }
                },
                None => {},
            }
            Ok(Note { metadata, content, path: copy_path(path) })
        },
        _ => Err(NoteError::NotAFile),
    }
}

/// A category is taken from the path and from nowhere else: each of its
/// segments stands in the path behind the root's segments and holds no dot.
pub proof fn lemma_category_comes_from_the_path(
    path: Seq<Seq<char>>,
    root: Seq<Seq<char>>,
    i: int,
)
    requires
        0 <= i < category_of(path, root).len(),
    ensures
        !category_of(path, root)[i].contains('.'),
        below_root(path, root.len()).contains(category_of(path, root)[i]),
        root.len() < path.len(),
        exists|k: int| root.len() <= k < path.len() && path[k] == category_of(path, root)[i],
{
    let keep = |segment: Seq<char>| !segment.contains('.');
    let below = below_root(path, root.len());
    let segment = category_of(path, root)[i];
    below.lemma_filter_pred(keep, i);
    assert(below.filter(keep).contains(segment));
    below.lemma_filter_contains_rev(keep, segment);
    let j = choose|j: int| 0 <= j < below.len() && below[j] == segment;
    assert(path[root.len() + j] == segment);
}

/// Reading is a function of what is read: two readings of the same entry
/// at the same path, under the same root and time zone, agree in every
/// field, and fail alike where they fail.
pub proof fn lemma_reading_is_repeatable(
    first: Result<Note, NoteError>,
    second: Result<Note, NoteError>,
    path: Seq<Seq<char>>,
    root: Seq<Seq<char>>,
    tz: TimeZone,
    node: FsNode,
)
    requires
        note_outcome(first) == note_of(path, root, tz, node),
        note_outcome(second) == note_of(path, root, tz, node),
    ensures
        note_outcome(first) == note_outcome(second),
        first is Ok ==> second is Ok && first->Ok_0@ == second->Ok_0@,
{
}

} // verus!
