//! Walking a directory snapshot: the files below a root, and the tree of its
//! directories.

use crate::snapshot::{distinct_names, FsNode, IoFailure};
use crate::text::{
    child_path, copy_path, lemma_texts_push, repeat, repeat_spec, text_eq, texts,
};
use vstd::prelude::*;

verus! {

/// The character form of a list of paths.
pub open spec fn paths(v: Seq<Vec<String>>) -> Seq<Seq<Seq<char>>> {
    v.map_values(|p: Vec<String>| texts(p@))
}

/// The paths of all regular files at or below `node`, where `node` itself
/// has the path `at`. Unreadable directories contribute nothing.
pub open spec fn files_under(at: Seq<Seq<char>>, node: FsNode) -> Seq<Seq<Seq<char>>>
    decreases node,
{
    match node {
        FsNode::File { .. } => seq![at],
        FsNode::Dir { entries, .. } => files_in(at, entries@),
        _ => Seq::empty(),
    }
}

/// The files at or below the given entries of the directory with path `dir`,
/// entry by entry.
pub open spec fn files_in(dir: Seq<Seq<char>>, entries: Seq<FsNode>) -> Seq<Seq<Seq<char>>>
    decreases entries,
{
    if entries.len() == 0 {
        Seq::empty()
    } else {
        files_in(dir, entries.drop_last()) + files_under(
            dir.push(entries.last().name_text()),
            entries.last(),
        )
    }
}

/// Why listing the root fails, if it does.
pub open spec fn root_failure(node: FsNode) -> Option<IoFailure> {
    match node {
        FsNode::DeniedDir { failure, .. } => Some(failure),
        FsNode::Other { failure, .. } => Some(failure),
        _ => None,
    }
}

#[verifier::loop_isolation(false)]
fn collect_files(path: &Vec<String>, node: &FsNode, out: &mut Vec<Vec<String>>)
    ensures
        paths(final(out)@) == paths(old(out)@) + files_under(texts(path@), *node),
    decreases *node,
{
    match node {
        FsNode::File { .. } => {
            out.push(copy_path(path));
            proof {
                assert(paths(out@) =~= paths(old(out)@) + seq![texts(path@)]);
            }
        },
        FsNode::Dir { entries, .. } => {
            let mut i: usize = 0;
            proof {
                assert(paths(out@) =~= paths(old(out)@) + files_in(
                    texts(path@),
                    entries@.take(0),
                ));
            }
            while i < entries.len()
                invariant
                    i <= entries.len(),
                    paths(out@) == paths(old(out)@) + files_in(
                        texts(path@),
                        entries@.take(i as int),
                    ),
                decreases entries.len() - i,
            {
                let below = child_path(path, entries[i].name());
                collect_files(&below, &entries[i], out);
                proof {
                    let upto = entries@.take(i + 1);
                    assert(upto.drop_last() =~= entries@.take(i as int));
                    assert(upto.last() == entries@[i as int]);
                    assert(paths(out@) =~= paths(old(out)@) + files_in(texts(path@), upto));
                }
                i += 1;
            }
            proof {
                assert(entries@.take(entries.len() as int) =~= entries@);
            }
        },
        _ => {
            proof {
                assert(paths(out@) =~= paths(old(out)@) + files_under(texts(path@), *node));
            }
        },
    }
}

/// Lists every regular file at or below `tree`, the snapshot of what `path`
/// names. A file as root yields just `path`. A directory that cannot be
/// listed contributes nothing, unless it is the root: then the listing fails
/// with the root's failure.
pub fn get_files(path: &Vec<String>, tree: &FsNode) -> (res: Result<Vec<Vec<String>>, IoFailure>)
    ensures
        match res {
            Ok(files) => root_failure(*tree) is None && paths(files@) == files_under(
                texts(path@),
                *tree,
            ),
            Err(e) => root_failure(*tree) == Some(e),
        },
{
    match tree {
        FsNode::DeniedDir { failure, .. } => Err(*failure),
        FsNode::Other { failure, .. } => Err(*failure),
        _ => {
            let mut out: Vec<Vec<String>> = Vec::new();
            collect_files(path, tree, &mut out);
            proof {
                assert(paths(out@) =~= files_under(texts(path@), *tree));
            }
            Ok(out)
        },
    }
}


/// The shape of a category tree: the directory names, without the machine
/// representation.
pub struct CategoryShape {
    pub name: Seq<char>,
    pub children: Seq<CategoryShape>,
}

/// One node per directory, rooted at the search root. A snapshot: it is
/// built once and never updated.
#[derive(Debug, PartialEq, Eq)]
pub struct CategoryTree {
    pub name: String,
    pub children: Vec<CategoryTree>,
}

/// The path handed to a category tree does not lead through it.
#[derive(Clone, Copy, Debug, PartialEq, Eq, Structural)]
pub struct PathOutsideTree;

impl View for CategoryTree {
    type V = CategoryShape;

    open spec fn view(&self) -> CategoryShape
        decreases self,
    {
        CategoryShape { name: self.name@, children: shapes(self.children@) }
    }
}

/// The shapes of a list of trees, in order.
pub open spec fn shapes(trees: Seq<CategoryTree>) -> Seq<CategoryShape>
    decreases trees,
{
    if trees.len() == 0 {
        Seq::empty()
    } else {
        shapes(trees.drop_last()).push(trees.last()@)
    }
}

/// `shapes` keeps length and order.
pub proof fn lemma_shapes(trees: Seq<CategoryTree>)
    ensures
        shapes(trees).len() == trees.len(),
        forall|i: int| 0 <= i < trees.len() ==> #[trigger] shapes(trees)[i] == trees[i]@,
    decreases trees.len(),
{
    if trees.len() > 0 {
        let front = trees.drop_last();
        lemma_shapes(front);
        assert(shapes(trees) == shapes(front).push(trees.last()@));
        assert forall|i: int| 0 <= i < trees.len() implies #[trigger] shapes(trees)[i]
            == trees[i]@ by {
            if i < front.len() {
                assert(shapes(front)[i] == front[i]@);
            }
        }
    }
}

/// The category tree that mirrors the directories of `node`: one node per
/// directory, children in listing order, files left out.
pub open spec fn category_shape(node: FsNode) -> CategoryShape
    decreases node,
{
    CategoryShape {
        name: node.name_text(),
        children: match node {
            FsNode::Dir { entries, .. } => subdir_shapes(entries@),
            _ => Seq::empty(),
        },
    }
}

/// The category trees of the directories among `entries`, in order.
pub open spec fn subdir_shapes(entries: Seq<FsNode>) -> Seq<CategoryShape>
    decreases entries,
{
    if entries.len() == 0 {
        Seq::empty()
    } else if entries.last().is_directory() {
        subdir_shapes(entries.drop_last()).push(category_shape(entries.last()))
    } else {
        subdir_shapes(entries.drop_last())
    }
}

/// The first failure met when every directory at or below `node` is listed
/// in order, or `None` when all of them can be listed.
pub open spec fn build_failure(node: FsNode) -> Option<IoFailure>
    decreases node,
{
    match node {
        FsNode::File { .. } => Some(IoFailure::NotADirectory),
        FsNode::Dir { entries, .. } => failure_in(entries@),
        FsNode::DeniedDir { failure, .. } => Some(failure),
        FsNode::Other { failure, .. } => Some(failure),
    }
}

/// The first failure met among the directories in `entries`.
pub open spec fn failure_in(entries: Seq<FsNode>) -> Option<IoFailure>
    decreases entries,
{
    if entries.len() == 0 {
        None
    } else {
        match failure_in(entries.drop_last()) {
            Some(f) => Some(f),
            None => if entries.last().is_directory() {
                build_failure(entries.last())
            } else {
                None
            },
        }
    }
}

proof fn lemma_failure_persists(entries: Seq<FsNode>, k: int)
    requires
        0 <= k <= entries.len(),
        failure_in(entries.take(k)) is Some,
    ensures
        failure_in(entries) == failure_in(entries.take(k)),
    decreases entries.len() - k,
{
    if k < entries.len() {
        let next = entries.take(k + 1);
        assert(next.drop_last() =~= entries.take(k));
        lemma_failure_persists(entries, k + 1);
    } else {
        assert(entries.take(k) =~= entries);
    }
}

/// Builds the category tree of the snapshot `tree`: one node per directory,
/// named as the directory is, files ignored. The tree is complete or not
/// built at all: the first directory that cannot be listed fails the build
/// with its failure, and so does a root that is not a directory.
#[verifier::loop_isolation(false)]
pub fn parse_categories_tree_from_path(tree: &FsNode) -> (res: Result<CategoryTree, IoFailure>)
    ensures
        match res {
            Ok(t) => build_failure(*tree) is None && t@ == category_shape(*tree),
            Err(e) => build_failure(*tree) == Some(e),
        },
    decreases *tree,
{
    match tree {
        FsNode::File { .. } => Err(IoFailure::NotADirectory),
        FsNode::DeniedDir { failure, .. } => Err(*failure),
        FsNode::Other { failure, .. } => Err(*failure),
        FsNode::Dir { name, entries } => {
            let mut children: Vec<CategoryTree> = Vec::new();
            let mut i: usize = 0;
            while i < entries.len()
                invariant
                    i <= entries.len(),
                    failure_in(entries@.take(i as int)) is None,
                    shapes(children@) == subdir_shapes(entries@.take(i as int)),
                decreases entries.len() - i,
            {
                let ghost upto = entries@.take(i + 1);
                proof {
                    assert(upto.drop_last() =~= entries@.take(i as int));
                    assert(upto.last() == entries@[i as int]);
                }
                if entries[i].is_dir() {
                    match parse_categories_tree_from_path(&entries[i]) {
                        Ok(child) => {
                            proof {
                                assert(children@.push(child).drop_last() =~= children@);
                            }
                            children.push(child);
                        },
                        Err(e) => {
                            proof {
                                lemma_failure_persists(entries@, i + 1);
                            }
                            return Err(e);
                        },
                    }
                }
                i += 1;
            }
            proof {
                assert(entries@.take(entries.len() as int) =~= entries@);
            }
            Ok(CategoryTree { name: name.clone(), children })
        },
    }
}

impl CategoryShape {
    /// Whether `segments` can be followed from this node downwards, each
    /// segment naming a child of the node reached so far. Where several
    /// children carry the name, the first one is followed.
    pub open spec fn has_path(self, segments: Seq<Seq<char>>) -> bool
        decreases segments.len(),
    {
        segments.len() == 0 || exists|i: int|
            0 <= i < self.children.len() && self.first_named(segments[0], i)
                && self.children[i].has_path(segments.drop_first())
    }

    /// Whether child `i` is the first child called `name`.
    pub open spec fn first_named(self, name: Seq<char>, i: int) -> bool {
        &&& 0 <= i < self.children.len()
        &&& self.children[i].name == name
        &&& forall|j: int| 0 <= j < i ==> self.children[j].name != name
    }

    /// The number of nodes in the tree.
    pub open spec fn node_count(self) -> nat
        decreases self,
    {
        1 + Self::forest_count(self.children)
    }

    /// The number of nodes in a list of trees.
    pub open spec fn forest_count(trees: Seq<CategoryShape>) -> nat
        decreases trees,
    {
        if trees.len() == 0 {
            0
        } else {
            Self::forest_count(trees.drop_last()) + trees.last().node_count()
        }
    }
}

/// The path without its last segment.
pub open spec fn parent_of(segments: Seq<Seq<char>>) -> Seq<Seq<char>> {
    if segments.len() == 0 {
        segments
    } else {
        segments.drop_last()
    }
}

/// What follows the first segment equal to `root`; nothing if there is none.
pub open spec fn after_root(root: Seq<char>, segments: Seq<Seq<char>>) -> Seq<Seq<char>>
    decreases segments.len(),
{
    if segments.len() == 0 {
        segments
    } else if segments[0] == root {
        segments.drop_first()
    } else {
        after_root(root, segments.drop_first())
    }
}

impl CategoryTree {
    /// Builds the category tree of a snapshot; see
    /// `parse_categories_tree_from_path`.
    pub fn try_from(tree: &FsNode) -> (res: Result<CategoryTree, IoFailure>)
        ensures
            match res {
                Ok(t) => build_failure(*tree) is None && t@ == category_shape(*tree),
                Err(e) => build_failure(*tree) == Some(e),
            },
    {
        parse_categories_tree_from_path(tree)
    }

    /// The categories of `path`: the segments that follow the tree's root
    /// name, each of which must name a child of the node before it. For the
    /// path of a file (`is_file`), the file's own name is left out first.
    /// Fails exactly when the path does not belong to the tree: when none
    /// of its segments is the root's name, or when the segments behind that
    /// name leave the tree.
    #[verifier::loop_isolation(false)]
    pub fn get_categories(&self, path: &Vec<String>, is_file: bool) -> (res: Result<
        Vec<String>,
        PathOutsideTree,
    >)
        ensures
            ({
                let dir = if is_file {
                    parent_of(texts(path@))
                } else {
                    texts(path@)
                };
                let walked = after_root(self.name@, dir);
                match res {
                    Ok(categories) => dir.contains(self.name@) && self@.has_path(walked) && texts(
                        categories@,
                    ) == walked,
                    Err(_) => !dir.contains(self.name@) || !self@.has_path(walked),
                }
            }),
    {
        let end: usize = if is_file && path.len() > 0 {
            path.len() - 1
        } else {
            path.len()
        };
        let ghost dir = if is_file {
            parent_of(texts(path@))
        } else {
            texts(path@)
        };
        proof {
            assert(dir =~= texts(path@).take(end as int));
        }
        // Skip up to and including the root's own name.
        let mut start: usize = 0;
        let mut found = false;
        proof {
            assert(dir.skip(0) =~= dir);
        }
        while start < end && !found
            invariant
                start <= end <= path.len(),
                dir == texts(path@).take(end as int),
                after_root(self.name@, dir) == if found {
                    dir.skip(start as int)
                } else {
                    after_root(self.name@, dir.skip(start as int))
                },
                found ==> start > 0 && dir[start - 1] == self.name@,
                !found ==> forall|j: int| 0 <= j < start ==> dir[j] != self.name@,
            decreases end - start + if found { 0int } else { 1int },
        {
            proof {
                assert(dir.skip(start as int).drop_first() =~= dir.skip(start + 1));
                assert(dir.skip(start as int)[0] == path@[start as int]@);
                assert(dir[start as int] == path@[start as int]@);
            }
            if text_eq(path[start].as_str(), self.name.as_str()) {
                found = true;
            }
            start += 1;
        }
        if !found {
            return Err(PathOutsideTree);
        }
        let ghost walked = after_root(self.name@, dir);
        proof {
            assert(walked =~= dir.skip(start as int));
        }
        let mut result: Vec<String> = Vec::new();
        let mut current: &CategoryTree = self;
        let mut k: usize = start;
        proof {
            assert(walked.skip(0) =~= walked);
            assert(walked.take(0) =~= texts(result@));
        }
        while k < end
            invariant
                start <= k <= end <= path.len(),
                dir == texts(path@).take(end as int),
                walked == dir.skip(start as int),
                texts(result@) == walked.take(k - start),
                self@.has_path(walked) == current@.has_path(walked.skip(k - start)),
            decreases end - k,
        {
            let ghost rest = walked.skip(k - start);
            let ghost shape = current@;
            proof {
                lemma_shapes(current.children@);
                assert(rest.len() > 0);
                assert(rest[0] == path@[k as int]@);
            }
            let mut idx: usize = 0;
            let mut hit = false;
            while idx < current.children.len() && !hit
                invariant
                    idx <= current.children.len(),
                    shape == current@,
                    shape.children.len() == current.children.len(),
                    forall|j: int|
                        0 <= j < current.children.len() ==> #[trigger] shape.children[j]
                            == current.children[j]@,
                    k < end <= path.len(),
                    rest.len() > 0,
                    rest[0] == path@[k as int]@,
                    !hit ==> forall|j: int| 0 <= j < idx ==> shape.children[j].name != rest[0],
                    hit ==> idx > 0 && shape.first_named(rest[0], idx - 1),
                decreases current.children.len() - idx + if hit { 0int } else { 1int },
            {
                if text_eq(path[k].as_str(), current.children[idx].name.as_str()) {
                    hit = true;
                }
                idx += 1;
            }
            if !hit {
                proof {
                    assert(!shape.has_path(rest));
                }
                return Err(PathOutsideTree);
            }
            let child: &CategoryTree = &current.children[idx - 1];
            proof {
                let w = (idx - 1) as int;
                assert(shape.first_named(rest[0], w));
                assert(shape.children[w] == child@);
                assert(rest.drop_first() =~= walked.skip(k + 1 - start));
                // The first child called `rest[0]` is the only one that counts.
                assert(shape.has_path(rest) == child@.has_path(rest.drop_first())) by {
                    if shape.has_path(rest) {
                        let i = choose|i: int|
                            0 <= i < shape.children.len() && shape.first_named(rest[0], i)
                                && shape.children[i].has_path(rest.drop_first());
                        assert(i == w);
                    }
                }
                lemma_texts_push(result@, path@[k as int]);
                assert(walked.take(k + 1 - start) =~= walked.take(k - start).push(
                    path@[k as int]@,
                ));
            }
            result.push(path[k].clone());
            current = child;
            k += 1;
        }
        proof {
            assert(walked.take(end - start) =~= walked);
            assert(walked.skip(end - start) =~= Seq::<Seq<char>>::empty());
        }
        Ok(result)
    }
}


/// The line that shows one node of a drawn tree.
pub open spec fn node_line(name: Seq<char>, prefix: Seq<char>, is_last: bool, is_root: bool) -> Seq<
    char,
> {
    if is_root {
        name + "/"@
    } else if is_last {
        prefix + "└── "@ + name
    } else {
        prefix + "├── "@ + name
    }
}

/// What stands before the lines of a node's children.
pub open spec fn child_prefix(prefix: Seq<char>, is_last: bool, is_root: bool) -> Seq<char> {
    if is_root {
        prefix
    } else if is_last {
        prefix + "    "@
    } else {
        prefix + "│   "@
    }
}

impl CategoryShape {
    /// The tree drawn line by line: the node first, then each child's
    /// subtree, indented and joined by connectors.
    pub open spec fn lines(self, prefix: Seq<char>, is_last: bool, is_root: bool) -> Seq<Seq<char>>
        decreases self, 0nat,
    {
        seq![node_line(self.name, prefix, is_last, is_root)] + Self::lines_of(
            self.children,
            child_prefix(prefix, is_last, is_root),
            self.children.len(),
        )
    }

    /// The drawn subtrees of the first `upto` of `children`.
    pub open spec fn lines_of(children: Seq<CategoryShape>, prefix: Seq<char>, upto: nat) -> Seq<
        Seq<char>,
    >
        decreases children, upto,
    {
        if upto == 0 || upto > children.len() {
            Seq::empty()
        } else {
            Self::lines_of(children, prefix, (upto - 1) as nat) + children[upto - 1].lines(
                prefix,
                upto == children.len(),
                false,
            )
        }
    }
}

impl CategoryTree {
    /// Draws the tree, one line per directory: the root as `name/`, every
    /// other node behind the connectors that lead to it.
    pub fn display(&self) -> (res: Vec<String>)
        ensures
            texts(res@) == self@.lines(Seq::empty(), true, true),
    {
        let mut out: Vec<String> = Vec::new();
        proof {
            reveal_strlit("");
            assert(""@ =~= Seq::<char>::empty());
        }
        self.display_helper("", true, true, &mut out);
        proof {
            assert(texts(out@) =~= self@.lines(Seq::empty(), true, true));
        }
        out
    }

    #[verifier::loop_isolation(false)]
    fn display_helper(&self, prefix: &str, is_last: bool, is_root: bool, out: &mut Vec<String>)
        ensures
            texts(final(out)@) == texts(old(out)@) + self@.lines(prefix@, is_last, is_root),
        decreases self,
    {
        let mut line: String;
        let mut new_prefix: String = prefix.to_owned();
        if is_root {
            line = self.name.clone();
            line.append("/");
        } else {
            line = prefix.to_owned();
            if is_last {
                line.append("└── ");
                new_prefix.append("    ");
            } else {
                line.append("├── ");
                new_prefix.append("│   ");
            }
            line.append(self.name.as_str());
        }
        proof {
            lemma_texts_push(out@, line);
            lemma_shapes(self.children@);
        }
        out.push(line);
        let ghost shape = self@;
        let ghost below = child_prefix(prefix@, is_last, is_root);
        let child_count = self.children.len();
        let mut i: usize = 0;
        proof {
            assert(texts(out@) =~= texts(old(out)@) + seq![
                node_line(shape.name, prefix@, is_last, is_root),
            ] + CategoryShape::lines_of(shape.children, below, 0));
        }
        while i < child_count
            invariant
                i <= child_count,
                texts(out@) == texts(old(out)@) + seq![
                    node_line(shape.name, prefix@, is_last, is_root),
                ] + CategoryShape::lines_of(shape.children, below, i as nat),
            decreases child_count - i,
        {
            let is_last_child = i == child_count - 1;
            self.children[i].display_helper(new_prefix.as_str(), is_last_child, false, out);
            proof {
                assert(shape.children[i as int] == self.children@[i as int]@);
                assert(texts(out@) =~= texts(old(out)@) + seq![
                    node_line(shape.name, prefix@, is_last, is_root),
                ] + CategoryShape::lines_of(shape.children, below, (i + 1) as nat));
            }
            i += 1;
        }
        proof {
            assert(texts(out@) =~= texts(old(out)@) + shape.lines(prefix@, is_last, is_root));
        }
    }
}

/// Whether the segments `rel` lead from `node` down to a regular file:
/// each segment names an entry of the directory reached so far, and the
/// last entry reached is a file.
pub open spec fn file_at(node: FsNode, rel: Seq<Seq<char>>) -> bool
    decreases rel.len(),
{
    if rel.len() == 0 {
        node is File
    } else {
        node matches FsNode::Dir { entries, .. } && exists|i: int|
            0 <= i < entries.len() && entry_leads(#[trigger] entries[i], rel)
    }
}

/// Whether `entry` is named by the first of `rel` and the rest of `rel`
/// leads from it to a regular file.
pub open spec fn entry_leads(entry: FsNode, rel: Seq<Seq<char>>) -> bool
    decreases rel.len(), 0nat,
    when rel.len() > 0
{
    entry.name_text() == rel[0] && file_at(entry, rel.drop_first())
}

/// Whether `path` begins with the segments of `at`.
pub open spec fn starts_with(path: Seq<Seq<char>>, at: Seq<Seq<char>>) -> bool {
    at.len() <= path.len() && path.take(at.len() as int) == at
}

/// A value is in two lists put together exactly when it is in one of them.
pub proof fn lemma_contains_add<A>(a: Seq<A>, b: Seq<A>, x: A)
    ensures
        (a + b).contains(x) <==> a.contains(x) || b.contains(x),
{
    if a.contains(x) {
        let i = choose|i: int| 0 <= i < a.len() && a[i] == x;
        assert((a + b)[i] == x);
    }
    if b.contains(x) {
        let i = choose|i: int| 0 <= i < b.len() && b[i] == x;
        assert((a + b)[a.len() + i] == x);
    }
    if (a + b).contains(x) {
        let i = choose|i: int| 0 <= i < (a + b).len() && (a + b)[i] == x;
        if i < a.len() {
            assert(a[i] == x);
        } else {
            assert(b[i - a.len()] == x);
        }
    }
}

/// The listing holds exactly the regular files below the root: a path is
/// listed if and only if it begins with the root's path and its remaining
/// segments lead through readable directories to a regular file.
pub proof fn lemma_listed_files_are_the_files(at: Seq<Seq<char>>, node: FsNode, path: Seq<Seq<char>>)
    ensures
        files_under(at, node).contains(path) <==> starts_with(path, at) && file_at(
            node,
            path.skip(at.len() as int),
        ),
    decreases node, 1nat,
{
    match node {
        FsNode::File { .. } => {
            assert(files_under(at, node)[0] == at);
            if starts_with(path, at) && file_at(node, path.skip(at.len() as int)) {
                assert(path.skip(at.len() as int).len() == 0);
                assert(path =~= at);
            }
            if path == at {
                assert(path.take(at.len() as int) =~= at);
            }
        },
        FsNode::Dir { entries, .. } => {
            lemma_listed_in(at, entries@, path);
            let rel = path.skip(at.len() as int);
            if files_in(at, entries@).contains(path) {
                let i = choose|i: int| 0 <= i < entries@.len() && listed_below(at, entries@[i], path);
                let below = at.push(entries@[i].name_text());
                assert(path.take(at.len() as int) =~= below.take(at.len() as int));
                assert(below.take(at.len() as int) =~= at);
                assert(rel[0] == path.take(below.len() as int)[at.len() as int]);
                assert(rel.drop_first() =~= path.skip(below.len() as int));
                assert(entry_leads(entries@[i], rel));
            }
            if starts_with(path, at) && file_at(node, rel) {
                let i = choose|i: int| 0 <= i < entries@.len() && entry_leads(#[trigger] entries@[i], rel);
                let below = at.push(entries@[i].name_text());
                assert(rel.drop_first() =~= path.skip(below.len() as int));
                assert(path.take(below.len() as int) =~= below) by {
                    assert(path.take(at.len() as int) == at);
                    assert forall|k: int| 0 <= k < below.len() implies path.take(
                        below.len() as int,
                    )[k] == below[k] by {
                        if k < at.len() {
                            assert(path.take(at.len() as int)[k] == at[k]);
                        } else {
                            assert(rel[0] == path[at.len() as int]);
                        }
                    }
                }
                assert(listed_below(at, entries@[i], path));
            }
        },
        _ => {},
    }
}

/// Whether `path` is a regular file at or below `entry`, an entry of the
/// directory `dir`.
pub open spec fn listed_below(dir: Seq<Seq<char>>, entry: FsNode, path: Seq<Seq<char>>) -> bool {
    starts_with(path, dir.push(entry.name_text())) && file_at(entry, path.skip(dir.len() as int + 1))
}

proof fn lemma_listed_in(dir: Seq<Seq<char>>, entries: Seq<FsNode>, path: Seq<Seq<char>>)
    ensures
        files_in(dir, entries).contains(path) <==> exists|i: int|
            0 <= i < entries.len() && listed_below(dir, #[trigger] entries[i], path),
    decreases entries, 0nat,
{
    if entries.len() > 0 {
        let front = entries.drop_last();
        let last = entries.last();
        lemma_listed_in(dir, front, path);
        lemma_listed_files_are_the_files(dir.push(last.name_text()), last, path);
        lemma_contains_add(
            files_in(dir, front),
            files_under(dir.push(last.name_text()), last),
            path,
        );
        if files_in(dir, entries).contains(path) {
            if files_in(dir, front).contains(path) {
                let i = choose|i: int| 0 <= i < front.len() && listed_below(dir, #[trigger] front[i], path);
                assert(listed_below(dir, entries[i], path));
            } else {
                assert(listed_below(dir, entries[entries.len() - 1], path));
            }
        }
        if exists|i: int| 0 <= i < entries.len() && listed_below(dir, #[trigger] entries[i], path) {
            let i = choose|i: int| 0 <= i < entries.len() && listed_below(dir, #[trigger] entries[i], path);
            if i < front.len() {
                assert(listed_below(dir, front[i], path));
            }
        }
    }
}

/// No file is listed twice, on any snapshot a file system can give.
/// Together with `lemma_listed_files_are_the_files`: the listing, taken as a
/// set, is the set of regular files below the root, and it has as many
/// entries as there are such files.
pub proof fn lemma_no_file_listed_twice(at: Seq<Seq<char>>, node: FsNode)
    requires
        node.well_formed(),
    ensures
        files_under(at, node).no_duplicates(),
    decreases node, 1nat,
{
    match node {
        FsNode::Dir { entries, .. } => {
            lemma_no_file_listed_twice_in(at, entries@);
        },
        _ => {},
    }
}

proof fn lemma_no_file_listed_twice_in(dir: Seq<Seq<char>>, entries: Seq<FsNode>)
    requires
        distinct_names(entries),
        forall|i: int| 0 <= i < entries.len() ==> (#[trigger] entries[i]).well_formed(),
    ensures
        files_in(dir, entries).no_duplicates(),
    decreases entries, 0nat,
{
    if entries.len() > 0 {
        let front = entries.drop_last();
        let last = entries.last();
        let below = dir.push(last.name_text());
        let a = files_in(dir, front);
        let b = files_under(below, last);
        assert(distinct_names(front)) by {
            assert forall|i: int, j: int| 0 <= i < j < front.len() implies (#[trigger] front[i]).name_text()
                != (#[trigger] front[j]).name_text() by {
                assert(front[i] == entries[i] && front[j] == entries[j]);
            }
        }
        assert forall|i: int| 0 <= i < front.len() implies (#[trigger] front[i]).well_formed() by {
            assert(front[i] == entries[i]);
        }
        lemma_no_file_listed_twice_in(dir, front);
        lemma_no_file_listed_twice(below, last);
        assert forall|i: int, j: int| 0 <= i < a.len() && 0 <= j < b.len() implies a[i] != b[j] by {
            if a[i] == b[j] {
                let p = a[i];
                assert(a.contains(p));
                assert(b.contains(p));
                lemma_listed_in(dir, front, p);
                lemma_listed_files_are_the_files(below, last, p);
                let k = choose|k: int| 0 <= k < front.len() && listed_below(dir, #[trigger] front[k], p);
                let other = dir.push(front[k].name_text());
                assert(p.take(other.len() as int)[dir.len() as int] == other[dir.len() as int]);
                assert(p.take(below.len() as int)[dir.len() as int] == below[dir.len() as int]);
                assert(front[k] == entries[k]);
                assert(entries[k].name_text() != entries[entries.len() - 1].name_text());
            }
        }
        assert forall|i: int, j: int|
            0 <= i < (a + b).len() && 0 <= j < (a + b).len() && i != j implies (a + b)[i] != (a
            + b)[j] by {
            if i < a.len() && j < a.len() {
                assert(a[i] != a[j]);
            } else if i >= a.len() && j >= a.len() {
                assert(b[i - a.len()] != b[j - a.len()]);
            } else if i < a.len() {
                assert(a[i] != b[j - a.len()]);
            } else {
                assert(a[j] != b[i - a.len()]);
            }
        }
    }
}

/// The listing as a set: exactly the paths that begin with the root's path
/// and lead on to a regular file, each of them once.
pub proof fn lemma_listing_is_the_set_of_files(at: Seq<Seq<char>>, node: FsNode)
    requires
        node.well_formed(),
    ensures
        files_under(at, node).to_set() == Set::new(
            |path: Seq<Seq<char>>| starts_with(path, at) && file_at(node, path.skip(at.len() as int)),
        ),
        files_under(at, node).no_duplicates(),
{
    lemma_no_file_listed_twice(at, node);
    let listed = files_under(at, node).to_set();
    let files = Set::new(
        |path: Seq<Seq<char>>| starts_with(path, at) && file_at(node, path.skip(at.len() as int)),
    );
    assert forall|path: Seq<Seq<char>>| listed.contains(path) == files.contains(path) by {
        lemma_listed_files_are_the_files(at, node, path);
    }
    assert(listed =~= files);
}

impl CategoryShape {
    /// Whether no two children of one node carry the same name, anywhere in
    /// the tree.
    pub open spec fn distinct_children(self) -> bool
        decreases self,
    {
        &&& forall|i: int, j: int|
            0 <= i < j < self.children.len() ==> (#[trigger] self.children[i]).name != (
            #[trigger] self.children[j]).name
        &&& forall|i: int|
            0 <= i < self.children.len() ==> (#[trigger] self.children[i]).distinct_children()
    }

    /// Whether some chain of children, one below the other, carries the
    /// names `segments` in order.
    pub open spec fn has_chain(self, segments: Seq<Seq<char>>) -> bool
        decreases segments.len(),
    {
        segments.len() == 0 || exists|i: int|
            0 <= i < self.children.len() && (#[trigger] self.children[i]).name == segments[0]
                && self.children[i].has_chain(segments.drop_first())
    }
}

/// Where siblings have different names, as directories do, a path can be
/// followed through the tree exactly when a chain of children carries its
/// names.
pub proof fn lemma_path_is_any_chain(tree: CategoryShape, segments: Seq<Seq<char>>)
    requires
        tree.distinct_children(),
    ensures
        tree.has_path(segments) == tree.has_chain(segments),
    decreases segments.len(),
{
    if segments.len() > 0 {
        let rest = segments.drop_first();
        if tree.has_path(segments) {
            let i = choose|i: int|
                0 <= i < tree.children.len() && tree.first_named(segments[0], i)
                    && tree.children[i].has_path(rest);
            lemma_path_is_any_chain(tree.children[i], rest);
            assert(tree.children[i].name == segments[0] && tree.children[i].has_chain(rest));
        }
        if tree.has_chain(segments) {
            let i = choose|i: int|
                0 <= i < tree.children.len() && (#[trigger] tree.children[i]).name == segments[0]
                    && tree.children[i].has_chain(rest);
            lemma_path_is_any_chain(tree.children[i], rest);
            assert(tree.first_named(segments[0], i)) by {
                assert forall|j: int| 0 <= j < i implies tree.children[j].name != segments[0] by {
                    assert(tree.children[j].name != tree.children[i].name);
                }
            }
        }
    }
}

/// The category tree of a snapshot that a file system can give has no two
/// siblings of one name.
pub proof fn lemma_tree_of_snapshot_has_distinct_children(node: FsNode)
    requires
        node.well_formed(),
    ensures
        category_shape(node).distinct_children(),
    decreases node, 1nat,
{
    match node {
        FsNode::Dir { entries, .. } => {
            lemma_subdirs_have_distinct_children(entries@);
            let tree = category_shape(node);
            assert(tree.children == subdir_shapes(entries@));
            assert forall|i: int, j: int| 0 <= i < j < tree.children.len() implies (
            #[trigger] tree.children[i]).name != (#[trigger] tree.children[j]).name by {
                assert(subdir_shapes(entries@)[i].name != subdir_shapes(entries@)[j].name);
            }
            assert forall|i: int| 0 <= i < tree.children.len() implies (
            #[trigger] tree.children[i]).distinct_children() by {
                assert(subdir_shapes(entries@)[i].distinct_children());
            }
        },
        _ => {
            assert(category_shape(node).children.len() == 0);
        },
    }
}

proof fn lemma_subdirs_have_distinct_children(entries: Seq<FsNode>)
    requires
        distinct_names(entries),
        forall|i: int| 0 <= i < entries.len() ==> (#[trigger] entries[i]).well_formed(),
    ensures
        forall|k: int|
            0 <= k < subdir_shapes(entries).len() ==> (#[trigger] subdir_shapes(
                entries,
            )[k]).distinct_children(),
        forall|k: int|
            0 <= k < subdir_shapes(entries).len() ==> exists|i: int|
                0 <= i < entries.len() && (#[trigger] entries[i]).name_text() == (
                #[trigger] subdir_shapes(entries)[k]).name,
        forall|k: int, l: int|
            0 <= k < l < subdir_shapes(entries).len() ==> (#[trigger] subdir_shapes(
                entries,
            )[k]).name != (#[trigger] subdir_shapes(entries)[l]).name,
    decreases entries, 0nat,
{
    if entries.len() > 0 {
        let front = entries.drop_last();
        let last = entries.last();
        let before = subdir_shapes(front);
        let all = subdir_shapes(entries);
        assert(distinct_names(front)) by {
            assert forall|i: int, j: int| 0 <= i < j < front.len() implies (#[trigger] front[i]).name_text()
                != (#[trigger] front[j]).name_text() by {
                assert(front[i] == entries[i] && front[j] == entries[j]);
            }
        }
        assert forall|i: int| 0 <= i < front.len() implies (#[trigger] front[i]).well_formed() by {
            assert(front[i] == entries[i]);
        }
        lemma_subdirs_have_distinct_children(front);
        if last.is_directory() {
            assert(all == before.push(category_shape(last)));
            lemma_tree_of_snapshot_has_distinct_children(last);
        } else {
            assert(all == before);
        }
        assert forall|k: int| 0 <= k < all.len() implies exists|i: int|
            0 <= i < entries.len() && (#[trigger] entries[i]).name_text() == (#[trigger] all[k]).name by {
            if k < before.len() {
                let i = choose|i: int|
                    0 <= i < front.len() && (#[trigger] front[i]).name_text() == before[k].name;
                assert(entries[i] == front[i]);
            } else {
                assert(entries[entries.len() - 1].name_text() == all[k].name);
            }
        }
        assert forall|k: int, l: int| 0 <= k < l < all.len() implies (#[trigger] all[k]).name != (
        #[trigger] all[l]).name by {
            if l < before.len() {
                assert(before[k].name != before[l].name);
            } else {
                let i = choose|i: int|
                    0 <= i < front.len() && (#[trigger] front[i]).name_text() == before[k].name;
                assert(entries[i] == front[i]);
                assert(entries[i].name_text() != entries[entries.len() - 1].name_text());
            }
        }
        assert forall|k: int| 0 <= k < all.len() implies (#[trigger] all[k]).distinct_children() by {
            if k < before.len() {
                assert(before[k].distinct_children());
            }
        }
    }
}

/// The number of directories at or below `node`, unreadable ones included.
pub open spec fn dir_count(node: FsNode) -> nat
    decreases node,
{
    match node {
        FsNode::Dir { entries, .. } => 1 + dirs_in(entries@),
        FsNode::DeniedDir { .. } => 1,
        _ => 0,
    }
}

/// The number of directories at or below the given entries.
pub open spec fn dirs_in(entries: Seq<FsNode>) -> nat
    decreases entries,
{
    if entries.len() == 0 {
        0
    } else {
        dirs_in(entries.drop_last()) + dir_count(entries.last())
    }
}

/// The category tree of a directory has one node for each directory at or
/// below it, the root included.
pub proof fn lemma_one_node_per_directory(node: FsNode)
    requires
        node.is_directory(),
    ensures
        category_shape(node).node_count() == dir_count(node),
    decreases node, 1nat,
{
    match node {
        FsNode::Dir { entries, .. } => {
            lemma_nodes_of_subdirs(entries@);
        },
        _ => {},
    }
}

proof fn lemma_nodes_of_subdirs(entries: Seq<FsNode>)
    ensures
        CategoryShape::forest_count(subdir_shapes(entries)) == dirs_in(entries),
    decreases entries, 0nat,
{
    if entries.len() > 0 {
        lemma_nodes_of_subdirs(entries.drop_last());
        let front = subdir_shapes(entries.drop_last());
        if entries.last().is_directory() {
            lemma_one_node_per_directory(entries.last());
            assert(subdir_shapes(entries) == front.push(category_shape(entries.last())));
            assert(front.push(category_shape(entries.last())).drop_last() =~= front);
        } else {
            assert(subdir_shapes(entries) == front);
            assert(dir_count(entries.last()) == 0);
        }
    }
}

/// The children of a directory's node are its immediate subdirectories: the
/// same names, in the same order, and nothing else.
pub proof fn lemma_children_are_the_subdirectories(entries: Seq<FsNode>)
    ensures
        subdir_shapes(entries).map_values(|c: CategoryShape| c.name) == entries.filter(
            |e: FsNode| e.is_directory(),
        ).map_values(|e: FsNode| e.name_text()),
    decreases entries.len(),
{
    reveal(Seq::filter);
    let keep = |e: FsNode| e.is_directory();
    let name_of = |e: FsNode| e.name_text();
    let shape_name = |c: CategoryShape| c.name;
    if entries.len() > 0 {
        let front = entries.drop_last();
        lemma_children_are_the_subdirectories(front);
        if entries.last().is_directory() {
            assert(subdir_shapes(entries) == subdir_shapes(front).push(
                category_shape(entries.last()),
            ));
            assert(subdir_shapes(entries).map_values(shape_name) =~= subdir_shapes(
                front,
            ).map_values(shape_name).push(entries.last().name_text()));
            assert(entries.filter(keep).map_values(name_of) =~= front.filter(keep).map_values(
                name_of,
            ).push(entries.last().name_text()));
        } else {
            assert(subdir_shapes(entries) == subdir_shapes(front));
        }
    } else {
        assert(subdir_shapes(entries).map_values(shape_name) =~= entries.filter(keep).map_values(
            name_of,
        ));
    }
}

/// A drawn tree has one line for each of its nodes.
pub proof fn lemma_one_line_per_node(tree: CategoryShape, prefix: Seq<char>, is_last: bool, is_root: bool)
    ensures
        tree.lines(prefix, is_last, is_root).len() == tree.node_count(),
    decreases tree, 1nat,
{
    lemma_lines_of_children(
        tree.children,
        child_prefix(prefix, is_last, is_root),
        tree.children.len(),
    );
    assert(tree.children.take(tree.children.len() as int) =~= tree.children);
}

proof fn lemma_lines_of_children(children: Seq<CategoryShape>, prefix: Seq<char>, upto: nat)
    requires
        upto <= children.len(),
    ensures
        CategoryShape::lines_of(children, prefix, upto).len() == CategoryShape::forest_count(
            children.take(upto as int),
        ),
    decreases children, 0nat, upto,
{
    if upto > 0 {
        lemma_lines_of_children(children, prefix, (upto - 1) as nat);
        lemma_one_line_per_node(children[upto - 1], prefix, upto == children.len(), false);
        assert(children.take(upto as int).drop_last() =~= children.take(upto - 1));
    }
}

/// The contents of a directory written out, as far as they could be read.
#[derive(Debug, PartialEq, Eq)]
pub struct DirListing {
    /// One line per entry that was reached, each indented by its depth.
    pub lines: Vec<String>,
    /// The failure that stopped the listing, if one did.
    pub failure: Option<IoFailure>,
}

/// The failure that stops writing out the contents of `node`: that of the
/// first directory, in listing order, that cannot be listed.
pub open spec fn contents_failure(node: FsNode) -> Option<IoFailure>
    decreases node,
{
    match node {
        FsNode::Dir { entries, .. } => contents_failure_in(entries@),
        FsNode::DeniedDir { failure, .. } => Some(failure),
        _ => None,
    }
}

/// The failure that stops writing out the given entries.
pub open spec fn contents_failure_in(entries: Seq<FsNode>) -> Option<IoFailure>
    decreases entries,
{
    if entries.len() == 0 {
        None
    } else {
        match contents_failure_in(entries.drop_last()) {
            Some(f) => Some(f),
            None => contents_failure(entries.last()),
        }
    }
}

/// The lines written for `node` at depth `level`: a directory with a folder
/// mark, followed by its entries one level deeper; anything else with a
/// page mark. Writing stops behind the first directory that cannot be
/// listed.
pub open spec fn contents_lines(node: FsNode, level: nat) -> Seq<Seq<char>>
    decreases node,
{
    match node {
        FsNode::Dir { name, entries } => seq![repeat_spec("  "@, level) + "📁 "@ + name@]
            + contents_lines_in(entries@, level + 1),
        FsNode::DeniedDir { name, .. } => seq![repeat_spec("  "@, level) + "📁 "@ + name@],
        FsNode::File { name, .. } => seq![repeat_spec("  "@, level) + "📄 "@ + name@],
        FsNode::Other { name, .. } => seq![repeat_spec("  "@, level) + "📄 "@ + name@],
    }
}

/// The lines written for the given entries at depth `level`.
pub open spec fn contents_lines_in(entries: Seq<FsNode>, level: nat) -> Seq<Seq<char>>
    decreases entries,
{
    if entries.len() == 0 {
        Seq::empty()
    } else if contents_failure_in(entries.drop_last()) is Some {
        contents_lines_in(entries.drop_last(), level)
    } else {
        contents_lines_in(entries.drop_last(), level) + contents_lines(entries.last(), level)
    }
}

proof fn lemma_contents_stop(entries: Seq<FsNode>, level: nat, k: int)
    requires
        0 <= k <= entries.len(),
        contents_failure_in(entries.take(k)) is Some,
    ensures
        contents_failure_in(entries) == contents_failure_in(entries.take(k)),
        contents_lines_in(entries, level) == contents_lines_in(entries.take(k), level),
    decreases entries.len() - k,
{
    if k < entries.len() {
        let next = entries.take(k + 1);
        assert(next.drop_last() =~= entries.take(k));
        lemma_contents_stop(entries, level, k + 1);
    } else {
        assert(entries.take(k) =~= entries);
    }
}

#[verifier::loop_isolation(false)]
fn show_contents(node: &FsNode, indent: &str, Ghost(level): Ghost<nat>, out: &mut Vec<String>) -> (res:
    Option<IoFailure>)
    requires
        indent@ == repeat_spec("  "@, level),
    ensures
        res == contents_failure(*node),
        texts(final(out)@) == texts(old(out)@) + contents_lines(*node, level),
    decreases *node,
{
    let mut line = indent.to_owned();
    match node {
        FsNode::Dir { name, entries } => {
            line.append("📁 ");
            line.append(name.as_str());
            proof {
                lemma_texts_push(out@, line);
            }
            out.push(line);
            let mut deeper = indent.to_owned();
            deeper.append("  ");
            let ghost head = seq![repeat_spec("  "@, level) + "📁 "@ + name@];
            let mut i: usize = 0;
            proof {
                assert(texts(out@) =~= texts(old(out)@) + head + contents_lines_in(
                    entries@.take(0),
                    level + 1,
                ));
            }
            while i < entries.len()
                invariant
                    i <= entries.len(),
                    deeper@ == repeat_spec("  "@, level + 1),
                    contents_failure_in(entries@.take(i as int)) is None,
                    texts(out@) == texts(old(out)@) + head + contents_lines_in(
                        entries@.take(i as int),
                        level + 1,
                    ),
                decreases entries.len() - i,
            {
                let ghost upto = entries@.take(i + 1);
                proof {
                    assert(upto.drop_last() =~= entries@.take(i as int));
                    assert(upto.last() == entries@[i as int]);
                }
                let stopped = show_contents(&entries[i], deeper.as_str(), Ghost(level + 1), out);
                proof {
                    assert(texts(out@) =~= texts(old(out)@) + head + contents_lines_in(
                        upto,
                        level + 1,
                    ));
                }
                match stopped {
                    Some(f) => {
                        proof {
                            lemma_contents_stop(entries@, level + 1, i + 1);
                        }
                        return Some(f);
                    },
                    None => {},
                }
                i += 1;
            }
            proof {
                assert(entries@.take(entries.len() as int) =~= entries@);
            }
            None
        },
        FsNode::DeniedDir { name, failure } => {
            line.append("📁 ");
            line.append(name.as_str());
            proof {
                lemma_texts_push(out@, line);
                assert(texts(out@).push(line@) =~= texts(out@) + contents_lines(*node, level));
            }
            out.push(line);
            Some(*failure)
        },
        FsNode::File { name, .. } => {
            line.append("📄 ");
            line.append(name.as_str());
            proof {
                lemma_texts_push(out@, line);
                assert(texts(out@).push(line@) =~= texts(out@) + contents_lines(*node, level));
            }
            out.push(line);
            None
        },
        FsNode::Other { name, .. } => {
            line.append("📄 ");
            line.append(name.as_str());
            proof {
                lemma_texts_push(out@, line);
                assert(texts(out@).push(line@) =~= texts(out@) + contents_lines(*node, level));
            }
            out.push(line);
            None
        },
    }
}

/// The depth a listing starts at.
pub open spec fn start_level(recursion_level: Option<usize>) -> nat {
    match recursion_level {
        Some(level) => level as nat,
        None => 0,
    }
}

/// Writes out the contents of the snapshot `tree`, entry by entry and
/// indented by depth, starting at depth `recursion_level` or at the margin.
/// The first directory that cannot be listed ends the listing, after its
/// own line, with its failure.
pub fn show_dir_contents(tree: &FsNode, recursion_level: Option<usize>) -> (res: DirListing)
    ensures
        texts(res.lines@) == contents_lines(*tree, start_level(recursion_level)),
        res.failure == contents_failure(*tree),
{
    let level: usize = match recursion_level {
        Some(level) => level,
        None => 0,
    };
    let indent = repeat("  ", level);
    let mut lines: Vec<String> = Vec::new();
    let failure = show_contents(tree, indent.as_str(), Ghost(level as nat), &mut lines);
    proof {
        assert(texts(lines@) =~= contents_lines(*tree, level as nat));
    }
    DirListing { lines, failure }
}

} // verus!
