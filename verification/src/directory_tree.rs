//! The data directory as the server sees it.
//!
//! The caller reads the directories of the disk into `Entry` values: a file
//! with its name, or a directory with its name and what it holds. A
//! `DirectoryTree` walks these depth first and keeps the listing that the
//! walk gives: one node for each directory and each regular file below the
//! root, in the order of the walk, each with its path from the root as a
//! sequence of names. The caller carries out on disk what is decided here;
//! the tree keeps the listing in step.
//!
//! The tree serves a store in which a file name is used once: `create_file`
//! refuses a name that any file below the root already has.

use crate::text::{bytes_eq, copy_bytes, copy_names, views};
use vstd::prelude::*;

verus! {

/// A path from the root: the names of the directories on the way, then the
/// name of the entry itself.
pub type Path = Seq<Seq<u8>>;

/// One line of a listing.
#[derive(Clone, Debug)]
struct Node {
    path: Vec<Vec<u8>>,
    is_dir: bool,
}

/// One line of a listing: a path, and whether a directory or a regular file
/// stands there.
pub struct NodeView {
    pub path: Path,
    pub is_dir: bool,
}

impl View for Node {
    type V = NodeView;

    closed spec fn view(&self) -> NodeView {
        NodeView { path: views(self.path@), is_dir: self.is_dir }
    }
}

/// What stands in a directory, as the caller found it on disk.
#[derive(Debug)]
pub enum Entry {
    /// A regular file.
    File { name: Vec<u8> },
    /// A directory and what stands in it, in the order in which it was read.
    Dir { name: Vec<u8>, children: Vec<Entry> },
}

/// The listing of one entry found in the directory at `prefix`: the entry
/// itself, and behind a directory all that stands below it.
pub open spec fn walk_of_entry(entry: Entry, prefix: Path) -> Seq<NodeView>
    decreases entry,
{
    match entry {
        Entry::File { name } => seq![NodeView { path: prefix.push(name@), is_dir: false }],
        Entry::Dir { name, children } => seq![
            NodeView { path: prefix.push(name@), is_dir: true },
        ] + walk_of(children@, prefix.push(name@), children@.len() as int),
    }
}

/// The listing of the first `upto` entries of the directory at `prefix`,
/// depth first: each entry is followed by all that stands below it, before
/// the next entry of the same directory.
pub open spec fn walk_of(entries: Seq<Entry>, prefix: Path, upto: int) -> Seq<NodeView>
    decreases entries, upto,
{
    if upto <= 0 || upto > entries.len() {
        Seq::empty()
    } else {
        walk_of(entries, prefix, upto - 1) + walk_of_entry(entries[upto - 1], prefix)
    }
}

/// The listing of a directory that holds `entries`.
pub open spec fn listing_of_entries(entries: Seq<Entry>) -> Seq<NodeView> {
    walk_of(entries, Seq::empty(), entries.len() as int)
}

/// Why an operation on the tree was refused.
#[derive(Clone, Copy, Debug, PartialEq, Eq, Structural)]
pub enum TreeError {
    /// Nothing stands at the path, or no file has the name.
    NotFound,
    /// The name or the path is taken.
    AlreadyExists,
    /// A file stands where a directory is needed.
    NotADirectory,
    /// A directory stands where the file would go.
    IsADirectory,
}

/// What a list of nodes stands for.
spec fn node_views(nodes: Seq<Node>) -> Seq<NodeView> {
    nodes.map_values(|n: Node| n@)
}

/// What a list of paths stands for.
pub open spec fn path_views(paths: Seq<Vec<Vec<u8>>>) -> Seq<Path> {
    paths.map_values(|p: Vec<Vec<u8>>| views(p@))
}

/// The paths of the regular files of a listing, in its order.
pub open spec fn files_of(nodes: Seq<NodeView>) -> Seq<Path>
    decreases nodes.len(),
{
    if nodes.len() == 0 {
        Seq::empty()
    } else if nodes.last().is_dir {
        files_of(nodes.drop_last())
    } else {
        files_of(nodes.drop_last()).push(nodes.last().path)
    }
}

/// Whether the last name of `path` is `name`.
pub open spec fn is_named(path: Path, name: Seq<u8>) -> bool {
    path.len() > 0 && path.last() == name
}

/// Whether `path` lies below the directory `owner` of the root.
pub open spec fn is_below(path: Path, owner: Seq<u8>) -> bool {
    path.len() > 1 && path[0] == owner
}

/// Those of `files` that lie below the directory `owner` of the root.
pub open spec fn owned_by(files: Seq<Path>, owner: Seq<u8>) -> Seq<Path>
    decreases files.len(),
{
    if files.len() == 0 {
        Seq::empty()
    } else if is_below(files.last(), owner) {
        owned_by(files.drop_last(), owner).push(files.last())
    } else {
        owned_by(files.drop_last(), owner)
    }
}

/// Whether a node of this kind stands at `path`. The root itself is a
/// directory at the empty path.
pub open spec fn has_node(nodes: Seq<NodeView>, path: Path, is_dir: bool) -> bool {
    (path.len() == 0 && is_dir) || exists|i: int|
        0 <= i < nodes.len() && (#[trigger] nodes[i]).path == path && nodes[i].is_dir == is_dir
}

/// Whether anything stands at `path`.
pub open spec fn has_entry(nodes: Seq<NodeView>, path: Path) -> bool {
    has_node(nodes, path, true) || has_node(nodes, path, false)
}

/// Whether `files` holds a path whose last name is `name`.
pub open spec fn has_name(files: Seq<Path>, name: Seq<u8>) -> bool {
    exists|k: int| 0 <= k < files.len() && is_named(#[trigger] files[k], name)
}

/// Whether `k` is the first place of `files` whose last name is `name`.
pub open spec fn is_first_named(files: Seq<Path>, name: Seq<u8>, k: int) -> bool {
    &&& 0 <= k < files.len()
    &&& is_named(files[k], name)
    &&& forall|j: int| 0 <= j < k ==> !is_named(#[trigger] files[j], name)
}

/// Whether exactly one path of `files` has the last name `name`.
pub open spec fn has_name_once(files: Seq<Path>, name: Seq<u8>) -> bool {
    exists|k: int|
        0 <= k < files.len() && is_named(#[trigger] files[k], name) && forall|j: int|
            0 <= j < files.len() && j != k ==> !is_named(#[trigger] files[j], name)
}

/// Whether no two paths of `files` end in the same name.
pub open spec fn names_unique(files: Seq<Path>) -> bool {
    forall|i: int, j: int|
        0 <= i < j < files.len() ==> !is_named(#[trigger] files[i], (#[trigger] files[j]).last())
}

/// The directories on the way to `path` that a listing lacks: for each
/// length from 1 to `upto`, the start of `path` of that length, where no
/// directory stands there; shortest first.
pub open spec fn missing_dirs(nodes: Seq<NodeView>, path: Path, upto: int) -> Seq<NodeView>
    decreases upto,
{
    if upto <= 0 || upto > path.len() {
        Seq::empty()
    } else if has_node(nodes, path.take(upto), true) {
        missing_dirs(nodes, path, upto - 1)
    } else {
        missing_dirs(nodes, path, upto - 1).push(NodeView { path: path.take(upto), is_dir: true })
    }
}

/// Whether a file stands, and no directory, at the start of `path` that has
/// `len` names.
pub open spec fn is_blocked_at(nodes: Seq<NodeView>, path: Path, len: int) -> bool {
    has_node(nodes, path.take(len), false) && !has_node(nodes, path.take(len), true)
}

/// Whether a file stands, and no directory, at a start of `path` of at most
/// `upto` names.
pub open spec fn is_blocked(nodes: Seq<NodeView>, path: Path, upto: int) -> bool {
    exists|j: int| 0 < j <= upto && j <= path.len() && #[trigger] is_blocked_at(nodes, path, j)
}

/// How `create_dir` ends on a listing.
pub open spec fn create_dir_outcome(nodes: Seq<NodeView>, dir: Path) -> Result<(), TreeError> {
    if has_entry(nodes, dir) {
        Err(TreeError::AlreadyExists)
    } else if has_node(nodes, dir.drop_last(), true) {
        Ok(())
    } else if has_node(nodes, dir.drop_last(), false) {
        Err(TreeError::NotADirectory)
    } else {
        Err(TreeError::NotFound)
    }
}

/// How `create_dir_all` ends on a listing.
pub open spec fn create_dir_all_outcome(nodes: Seq<NodeView>, dir: Path) -> Result<
    (),
    TreeError,
> {
    if is_blocked(nodes, dir, dir.len() - 1) {
        Err(TreeError::NotADirectory)
    } else if is_blocked(nodes, dir, dir.len() as int) {
        Err(TreeError::AlreadyExists)
    } else {
        Ok(())
    }
}

/// How `create_file` ends on a listing.
pub open spec fn create_file_outcome(nodes: Seq<NodeView>, dir: Path, name: Seq<u8>) -> Result<
    (),
    TreeError,
> {
    if has_name(files_of(nodes), name) {
        Err(TreeError::AlreadyExists)
    } else if is_blocked(nodes, dir, dir.len() as int) {
        Err(TreeError::NotADirectory)
    } else if has_node(nodes, dir.push(name), true) {
        Err(TreeError::IsADirectory)
    } else {
        Ok(())
    }
}

proof fn lemma_files_push(nodes: Seq<NodeView>, node: NodeView)
    ensures
        files_of(nodes.push(node)) == if node.is_dir {
            files_of(nodes)
        } else {
            files_of(nodes).push(node.path)
        },
{
    assert(nodes.push(node).drop_last() =~= nodes);
}

/// A directory more leaves the files as they are.
pub proof fn lemma_files_push_dir(nodes: Seq<NodeView>, path: Path)
    ensures
        files_of(nodes.push(NodeView { path, is_dir: true })) == files_of(nodes),
{
    lemma_files_push(nodes, NodeView { path, is_dir: true });
}

proof fn lemma_files_concat(a: Seq<NodeView>, b: Seq<NodeView>)
    ensures
        files_of(a + b) == files_of(a) + files_of(b),
    decreases b.len(),
{
    if b.len() == 0 {
        assert(a + b =~= a);
        assert(files_of(a) + files_of(b) =~= files_of(a));
    } else {
        lemma_files_concat(a, b.drop_last());
        assert((a + b).drop_last() =~= a + b.drop_last());
        assert((a + b).last() == b.last());
        if !b.last().is_dir {
            assert(files_of(a + b) =~= files_of(a) + files_of(b));
        }
    }
}

proof fn lemma_dirs_hold_no_files(nodes: Seq<NodeView>)
    requires
        forall|i: int| 0 <= i < nodes.len() ==> (#[trigger] nodes[i]).is_dir,
    ensures
        files_of(nodes) == Seq::<Path>::empty(),
    decreases nodes.len(),
{
    if nodes.len() > 0 {
        lemma_dirs_hold_no_files(nodes.drop_last());
    }
}

proof fn lemma_missing_are_dirs(nodes: Seq<NodeView>, path: Path, upto: int)
    ensures
        forall|i: int|
            0 <= i < missing_dirs(nodes, path, upto).len() ==> (#[trigger] missing_dirs(
                nodes,
                path,
                upto,
            )[i]).is_dir,
    decreases upto,
{
    if 0 < upto <= path.len() {
        lemma_missing_are_dirs(nodes, path, upto - 1);
        let before = missing_dirs(nodes, path, upto - 1);
        assert forall|i: int| 0 <= i < missing_dirs(nodes, path, upto).len() implies (
        #[trigger] missing_dirs(nodes, path, upto)[i]).is_dir by {
            if i < before.len() {
                assert(before[i].is_dir);
            }
        }
    }
}

/// Every file of a listing is the path of one of its nodes that is no
/// directory, and every such node is among the files.
pub proof fn lemma_files_are_file_nodes(nodes: Seq<NodeView>)
    ensures
        forall|k: int|
            0 <= k < files_of(nodes).len() ==> has_node(nodes, #[trigger] files_of(nodes)[k], false),
        forall|i: int|
            0 <= i < nodes.len() && !(#[trigger] nodes[i]).is_dir ==> files_of(nodes).contains(
                nodes[i].path,
            ),
    decreases nodes.len(),
{
    if nodes.len() > 0 {
        let front = nodes.drop_last();
        lemma_files_are_file_nodes(front);
        assert forall|k: int| 0 <= k < files_of(nodes).len() implies has_node(
            nodes,
            #[trigger] files_of(nodes)[k],
            false,
        ) by {
            if k < files_of(front).len() {
                let p = files_of(front)[k];
                assert(has_node(front, p, false));
                let i = choose|i: int|
                    0 <= i < front.len() && (#[trigger] front[i]).path == p && !front[i].is_dir;
                assert(nodes[i] == front[i]);
            } else {
                assert(nodes[nodes.len() - 1].path == files_of(nodes)[k]);
            }
        }
        assert forall|i: int| 0 <= i < nodes.len() && !(#[trigger] nodes[i]).is_dir implies files_of(
            nodes,
        ).contains(nodes[i].path) by {
            if i < front.len() {
                assert(front[i] == nodes[i]);
                let k = choose|k: int|
                    0 <= k < files_of(front).len() && files_of(front)[k] == front[i].path;
                assert(files_of(nodes)[k] == nodes[i].path);
            } else {
                assert(files_of(nodes)[files_of(nodes).len() - 1] == nodes[i].path);
            }
        }
    }
}

proof fn lemma_views_push(nodes: Seq<Node>, node: Node)
    ensures
        node_views(nodes.push(node)) == node_views(nodes).push(node@),
{
    assert(node_views(nodes.push(node)) =~= node_views(nodes).push(node@));
}

proof fn lemma_views_remove(nodes: Seq<Node>, i: int)
    requires
        0 <= i < nodes.len(),
    ensures
        node_views(nodes.remove(i)) == node_views(nodes).remove(i),
{
    assert(node_views(nodes.remove(i)) =~= node_views(nodes).remove(i));
}

/// The files of a listing cut at `i`: those before, the node at `i` where it
/// is a file, and those after.
proof fn lemma_files_split(nodes: Seq<NodeView>, i: int)
    requires
        0 <= i < nodes.len(),
    ensures
        files_of(nodes) == files_of(nodes.take(i + 1)) + files_of(nodes.skip(i + 1)),
        files_of(nodes.take(i + 1)) == if nodes[i].is_dir {
            files_of(nodes.take(i))
        } else {
            files_of(nodes.take(i)).push(nodes[i].path)
        },
        files_of(nodes.remove(i)) == files_of(nodes.take(i)) + files_of(nodes.skip(i + 1)),
{
    assert(nodes =~= nodes.take(i + 1) + nodes.skip(i + 1));
    lemma_files_concat(nodes.take(i + 1), nodes.skip(i + 1));
    assert(nodes.take(i + 1) =~= nodes.take(i).push(nodes[i]));
    lemma_files_push(nodes.take(i), nodes[i]);
    assert(nodes.remove(i) =~= nodes.take(i) + nodes.skip(i + 1));
    lemma_files_concat(nodes.take(i), nodes.skip(i + 1));
}

/// A name that no file has is had once after a file of that name is added,
/// and names that were used once each are still used once each.
pub proof fn lemma_new_name_is_unique(files: Seq<Path>, path: Path, name: Seq<u8>)
    requires
        !has_name(files, name),
        is_named(path, name),
    ensures
        has_name_once(files.push(path), name),
        names_unique(files) ==> names_unique(files.push(path)),
{
    let after = files.push(path);
    let k = files.len() as int;
    assert(is_named(after[k], name));
    assert forall|j: int| 0 <= j < after.len() && j != k implies !is_named(
        #[trigger] after[j],
        name,
    ) by {
        assert(after[j] == files[j]);
    }
    if names_unique(files) {
        assert forall|i: int, j: int| 0 <= i < j < after.len() implies !is_named(
            #[trigger] after[i],
            (#[trigger] after[j]).last(),
        ) by {
            assert(after[i] == files[i]);
            if j < k {
                assert(after[j] == files[j]);
            }
        }
    }
}

/// Names that are used once each stay so when a file is taken out.
pub proof fn lemma_removal_keeps_names_unique(files: Seq<Path>, k: int)
    requires
        names_unique(files),
        0 <= k < files.len(),
    ensures
        names_unique(files.remove(k)),
{
    let after = files.remove(k);
    assert forall|i: int, j: int| 0 <= i < j < after.len() implies !is_named(
        #[trigger] after[i],
        (#[trigger] after[j]).last(),
    ) by {
        let from_i = if i < k {
            i
        } else {
            i + 1
        };
        let from_j = if j < k {
            j
        } else {
            j + 1
        };
        assert(after[i] == files[from_i]);
        assert(after[j] == files[from_j]);
    }
}

/// Where no two files share a name, a name is gone after the file of that
/// name is taken out.
pub proof fn lemma_removed_name_is_gone(files: Seq<Path>, name: Seq<u8>, k: int)
    requires
        names_unique(files),
        0 <= k < files.len(),
        is_named(files[k], name),
    ensures
        !has_name(files.remove(k), name),
{
    let after = files.remove(k);
    assert forall|j: int| 0 <= j < after.len() implies !is_named(#[trigger] after[j], name) by {
        if j < k {
            assert(after[j] == files[j]);
            assert(!is_named(files[j], files[k].last()));
        } else {
            assert(after[j] == files[j + 1]);
            assert(!is_named(files[k], files[j + 1].last()));
        }
    }
}

/// A listing of a root directory, kept in step with what is done to it.
#[derive(Clone, Debug)]
pub struct DirectoryTree {
    root_dir: Vec<u8>,
    nodes: Vec<Node>,
}

impl View for DirectoryTree {
    type V = Seq<NodeView>;

    closed spec fn view(&self) -> Seq<NodeView> {
        node_views(self.nodes@)
    }
}

/// Whether the path of `node` is the start of `path` that has `len` names.
fn path_is(node: &Node, path: &[Vec<u8>], len: usize) -> (same: bool)
    requires
        len <= path@.len(),
    ensures
        same == (node@.path == views(path@).take(len as int)),
{
    if node.path.len() != len {
        assert(node@.path.len() != views(path@).take(len as int).len());
        return false;
    }
    let mut k: usize = 0;
    while k < len
        invariant
            k <= len <= path@.len(),
            node.path@.len() == len,
            forall|m: int| 0 <= m < k ==> node.path@[m]@ == path@[m]@,
        decreases len - k,
    {
        if !bytes_eq(node.path[k].as_slice(), path[k].as_slice()) {
            assert(node@.path[k as int] != views(path@).take(len as int)[k as int]);
            return false;
        }
        k += 1;
    }
    assert(node@.path =~= views(path@).take(len as int));
    true
}

/// The path of the entry named `name` in the directory at `prefix`.
fn path_below(prefix: &Vec<Vec<u8>>, name: &Vec<u8>) -> (path: Vec<Vec<u8>>)
    ensures
        views(path@) == views(prefix@).push(name@),
{
    let mut path = copy_names(prefix.as_slice(), prefix.len());
    let ghost way = path@;
    let last = copy_bytes(name.as_slice());
    path.push(last);
    assert(views(path@) =~= views(way).push(last@));
    path
}

/// Walks `entries`, found in the directory at `prefix`, depth first and puts
/// their listing behind `nodes`.
fn walk(entries: &Vec<Entry>, prefix: &Vec<Vec<u8>>, nodes: &mut Vec<Node>)
    ensures
        node_views(final(nodes)@) == node_views(old(nodes)@) + walk_of(
            entries@,
            views(prefix@),
            entries@.len() as int,
        ),
    decreases entries,
{
    let ghost start = node_views(nodes@);
    let ghost way = views(prefix@);
    let mut i: usize = 0;
    assert(start + walk_of(entries@, way, 0) =~= start);
    while i < entries.len()
        invariant
            i <= entries@.len(),
            way == views(prefix@),
            node_views(nodes@) == start + walk_of(entries@, way, i as int),
        decreases entries@.len() - i,
    {
        let ghost before = node_views(nodes@);
        match &entries[i] {
            Entry::File { name } => {
                let node = Node { path: path_below(prefix, name), is_dir: false };
                proof {
                    lemma_views_push(nodes@, node);
                }
                nodes.push(node);
                assert(node_views(nodes@) =~= before + walk_of_entry(entries@[i as int], way));
            },
            Entry::Dir { name, children } => {
                let path = path_below(prefix, name);
                let node = Node { path: copy_names(path.as_slice(), path.len()), is_dir: true };
                proof {
                    lemma_views_push(nodes@, node);
                }
                nodes.push(node);
                walk(children, &path, nodes);
                assert(node_views(nodes@) =~= before + walk_of_entry(entries@[i as int], way));
            },
        }
        assert(start + walk_of(entries@, way, i + 1) =~= before + walk_of_entry(
            entries@[i as int],
            way,
        ));
        i += 1;
    }
}

/// The listing of a directory that holds `entries`.
fn list_entries(entries: &Vec<Entry>) -> (nodes: Vec<Node>)
    ensures
        node_views(nodes@) == listing_of_entries(entries@),
{
    let mut nodes: Vec<Node> = Vec::new();
    let prefix: Vec<Vec<u8>> = Vec::new();
    assert(views(prefix@) =~= Seq::<Seq<u8>>::empty());
    assert(node_views(nodes@) =~= Seq::<NodeView>::empty());
    walk(entries, &prefix, &mut nodes);
    assert(Seq::<NodeView>::empty() + listing_of_entries(entries@) =~= listing_of_entries(
        entries@,
    ));
    nodes
}

impl DirectoryTree {
    /// The path of the root, as the caller names it.
    pub closed spec fn root(&self) -> Seq<u8> {
        self.root_dir@
    }

    /// The paths of the regular files below the root, in the order of the
    /// walk.
    pub open spec fn files(&self) -> Seq<Path> {
        files_of(self@)
    }

    /// The tree of a root that the caller makes where it is missing.
    /// `found` is what the root holds, or `None` where the root was not
    /// there and is empty now. The tree lists it depth first.
    pub fn new(root_dir: Vec<u8>, found: Option<Vec<Entry>>) -> (tree: Self)
        ensures
            tree.root() == root_dir@,
            tree@ == match found {
                Some(entries) => listing_of_entries(entries@),
                None => Seq::<NodeView>::empty(),
            },
    {
        match found {
            Some(entries) => DirectoryTree { root_dir, nodes: list_entries(&entries) },
            None => {
                let tree = DirectoryTree { root_dir, nodes: Vec::new() };
                assert(tree@ =~= Seq::<NodeView>::empty());
                tree
            },
        }
    }

    /// The tree of a root that is there already. `found` is what the root
    /// holds, or `None` where the root does not exist. The tree lists it
    /// depth first.
    pub fn new_from_existing(root_dir: Vec<u8>, found: Option<Vec<Entry>>) -> (result: Result<
        Self,
        TreeError,
    >)
        ensures
            found is None ==> result == Err::<Self, TreeError>(TreeError::NotFound),
            found is Some ==> result is Ok && result->Ok_0.root() == root_dir@ && result->Ok_0@
                == listing_of_entries(found->Some_0@),
    {
        match found {
            None => Err(TreeError::NotFound),
            Some(entries) => Ok(DirectoryTree { root_dir, nodes: list_entries(&entries) }),
        }
    }

    /// The path of the root.
    pub fn root_dir(&self) -> (root: &Vec<u8>)
        ensures
            root@ == self.root(),
    {
        &self.root_dir
    }

    /// Whether a node of this kind stands at the start of `path` that has
    /// `len` names.
    fn holds(&self, path: &[Vec<u8>], len: usize, is_dir: bool) -> (found: bool)
        requires
            len <= path@.len(),
        ensures
            found == has_node(self@, views(path@).take(len as int), is_dir),
    {
        if len == 0 && is_dir {
            return true;
        }
        let ghost wanted = views(path@).take(len as int);
        let mut i: usize = 0;
        while i < self.nodes.len()
            invariant
                i <= self.nodes@.len(),
                len <= path@.len(),
                wanted == views(path@).take(len as int),
                forall|k: int|
                    0 <= k < i ==> !((#[trigger] self@[k]).path == wanted && self@[k].is_dir
                        == is_dir),
            decreases self.nodes@.len() - i,
        {
            if self.nodes[i].is_dir == is_dir && path_is(&self.nodes[i], path, len) {
                assert(self@[i as int] == self.nodes@[i as int]@);
                return true;
            }
            assert(self@[i as int] == self.nodes@[i as int]@);
            i += 1;
        }
        false
    }

    /// Whether anything stands at `dir`, taken from the root.
    pub fn exists_dir(&self, dir: &[Vec<u8>]) -> (found: bool)
        ensures
            found == has_entry(self@, views(dir@)),
    {
        assert(views(dir@).take(dir@.len() as int) =~= views(dir@));
        self.holds(dir, dir.len(), true) || self.holds(dir, dir.len(), false)
    }

    /// Puts a directory at the end of the listing.
    fn push_dir(&mut self, path: &[Vec<u8>], len: usize)
        requires
            len <= path@.len(),
        ensures
            final(self).root() == old(self).root(),
            final(self)@ == old(self)@.push(
                NodeView { path: views(path@).take(len as int), is_dir: true },
            ),
    {
        let node = Node { path: copy_names(path, len), is_dir: true };
        proof {
            lemma_views_push(self.nodes@, node);
        }
        self.nodes.push(node);
    }

    /// Makes one directory. The directory above it has to be there, and
    /// nothing may stand at `dir` yet.
    pub fn create_dir(&mut self, dir: &[Vec<u8>]) -> (result: Result<(), TreeError>)
        ensures
            final(self).root() == old(self).root(),
            result == create_dir_outcome(old(self)@, views(dir@)),
            result is Err ==> final(self)@ == old(self)@,
            result is Ok ==> final(self)@ == old(self)@.push(
                NodeView { path: views(dir@), is_dir: true },
            ),
            final(self).files() == old(self).files(),
    {
        proof {
            lemma_files_push_dir(self@, views(dir@));
        }
        let len = dir.len();
        assert(views(dir@).take(len as int) =~= views(dir@));
        if self.holds(dir, len, true) || self.holds(dir, len, false) {
            return Err(TreeError::AlreadyExists);
        }
        if !self.holds(dir, len - 1, true) {
            if self.holds(dir, len - 1, false) {
                return Err(TreeError::NotADirectory);
            }
            return Err(TreeError::NotFound);
        }
        self.push_dir(dir, len);
        Ok(())
    }

    /// Looks at every directory on the way to `dir`: whether it is there,
    /// or a file stands in its place.
    fn check_way(&self, dir: &[Vec<u8>]) -> (result: Result<Vec<bool>, TreeError>)
        ensures
            result is Err ==> result->Err_0 == create_dir_all_outcome(self@, views(dir@))->Err_0,
            result is Err <==> create_dir_all_outcome(self@, views(dir@)) is Err,
            result is Ok ==> result->Ok_0@.len() == dir@.len() && forall|m: int|
                0 <= m < dir@.len() ==> result->Ok_0@[m] == has_node(
                    self@,
                    #[trigger] views(dir@).take(m + 1),
                    true,
                ),
    {
        let len = dir.len();
        let ghost path = views(dir@);
        let mut present: Vec<bool> = Vec::new();
        let mut j: usize = 0;
        while j < len
            invariant
                j <= len == dir@.len(),
                path == views(dir@),
                present@.len() == j,
                !is_blocked(self@, path, j as int),
                forall|m: int|
                    0 <= m < j ==> present@[m] == has_node(self@, #[trigger] path.take(m + 1), true),
            decreases len - j,
        {
            let is_there = self.holds(dir, j + 1, true);
            if !is_there && self.holds(dir, j + 1, false) {
                assert(is_blocked_at(self@, path, j + 1));
                if j + 1 < len {
                    assert(is_blocked(self@, path, len - 1));
                    return Err(TreeError::NotADirectory);
                }
                return Err(TreeError::AlreadyExists);
            }
            present.push(is_there);
            assert forall|m: int| 0 < m <= j + 1 implies !#[trigger] is_blocked_at(
                self@,
                path,
                m,
            ) by {
                if m <= j {
                    assert(!is_blocked(self@, path, j as int));
                }
            }
            j += 1;
        }
        Ok(present)
    }

    /// Adds the directories on the way to `dir` that `present` marks as
    /// missing.
    fn fill_way(&mut self, dir: &[Vec<u8>], present: &Vec<bool>)
        requires
            present@.len() == dir@.len(),
            forall|m: int|
                0 <= m < dir@.len() ==> present@[m] == has_node(
                    old(self)@,
                    #[trigger] views(dir@).take(m + 1),
                    true,
                ),
        ensures
            final(self).root() == old(self).root(),
            final(self)@ == old(self)@ + missing_dirs(
                old(self)@,
                views(dir@),
                dir@.len() as int,
            ),
            final(self).files() == old(self).files(),
    {
        let len = dir.len();
        let ghost path = views(dir@);
        let mut k: usize = 0;
        assert(self@ + missing_dirs(old(self)@, path, 0) =~= self@);
        while k < len
            invariant
                k <= len == dir@.len(),
                path == views(dir@),
                present@.len() == len,
                self.root() == old(self).root(),
                forall|m: int|
                    0 <= m < len ==> present@[m] == has_node(
                        old(self)@,
                        #[trigger] path.take(m + 1),
                        true,
                    ),
                self@ == old(self)@ + missing_dirs(old(self)@, path, k as int),
            decreases len - k,
        {
            if !present[k] {
                self.push_dir(dir, k + 1);
                assert(self@ =~= old(self)@ + missing_dirs(old(self)@, path, k + 1));
            }
            k += 1;
        }
        proof {
            lemma_missing_are_dirs(old(self)@, path, len as int);
            lemma_dirs_hold_no_files(missing_dirs(old(self)@, path, len as int));
            lemma_files_concat(old(self)@, missing_dirs(old(self)@, path, len as int));
            assert(old(self).files() + Seq::<Path>::empty() =~= old(self).files());
        }
    }

    /// Makes a directory and every directory on the way to it that is not
    /// there yet.
    pub fn create_dir_all(&mut self, dir: &[Vec<u8>]) -> (result: Result<(), TreeError>)
        ensures
            final(self).root() == old(self).root(),
            result == create_dir_all_outcome(old(self)@, views(dir@)),
            result is Err ==> final(self)@ == old(self)@,
            result is Ok ==> final(self)@ == old(self)@ + missing_dirs(
                old(self)@,
                views(dir@),
                dir@.len() as int,
            ),
            final(self).files() == old(self).files(),
    {
        match self.check_way(dir) {
            Err(e) => Err(e),
            Ok(present) => {
                self.fill_way(dir, &present);
                Ok(())
            },
        }
    }

    /// Makes an empty file named `file_name` in the directory `file_dir`,
    /// and that directory where it is missing, unless a file of that name
    /// stands anywhere below the root.
    pub fn create_file(&mut self, file_dir: &[Vec<u8>], file_name: &[u8]) -> (result: Result<
        (),
        TreeError,
    >)
        ensures
            final(self).root() == old(self).root(),
            result == create_file_outcome(old(self)@, views(file_dir@), file_name@),
            result is Err ==> final(self)@ == old(self)@,
            result is Ok ==> final(self)@ == (old(self)@ + missing_dirs(
                old(self)@,
                views(file_dir@),
                file_dir@.len() as int,
            )).push(NodeView { path: views(file_dir@).push(file_name@), is_dir: false }),
            result is Ok ==> final(self).files() == old(self).files().push(
                views(file_dir@).push(file_name@),
            ),
            result is Ok ==> has_name_once(final(self).files(), file_name@),
            result is Ok && names_unique(old(self).files()) ==> names_unique(final(self).files()),
    {
        if self.first_named(file_name).is_some() {
            return Err(TreeError::AlreadyExists);
        }
        let present = match self.check_way(file_dir) {
            Err(_) => {
                return Err(TreeError::NotADirectory);
            },
            Ok(present) => present,
        };
        let mut target = copy_names(file_dir, file_dir.len());
        let ghost dir = views(file_dir@);
        let ghost path = dir.push(file_name@);
        assert(dir.take(file_dir@.len() as int) =~= dir);
        let ghost way = target@;
        let name = copy_bytes(file_name);
        target.push(name);
        assert(views(target@) =~= views(way).push(name@));
        assert(views(target@).take(target@.len() as int) =~= path);
        if self.holds(target.as_slice(), target.len(), true) {
            return Err(TreeError::IsADirectory);
        }
        self.fill_way(file_dir, &present);
        let node = Node { path: target, is_dir: false };
        proof {
            lemma_views_push(self.nodes@, node);
            lemma_files_push(self@, node@);
            lemma_new_name_is_unique(old(self).files(), path, file_name@);
        }
        self.nodes.push(node);
        Ok(())
    }

    /// The place of the first file whose name is `file_name`.
    fn first_named(&self, file_name: &[u8]) -> (found: Option<usize>)
        ensures
            found is None <==> !has_name(self.files(), file_name@),
            found is Some ==> ({
                let i = found->Some_0 as int;
                let k = files_of(self@.take(i)).len() as int;
                &&& 0 <= i < self@.len()
                &&& !self@[i].is_dir
                &&& self@[i] == self.nodes@[i]@
                &&& i < self.nodes@.len()
                &&& is_first_named(self.files(), file_name@, k)
                &&& self.files()[k] == self@[i].path
                &&& self.files().remove(k) == files_of(self@.remove(i))
            }),
    {
        let mut i: usize = 0;
        assert(self@.take(0) =~= Seq::<NodeView>::empty());
        while i < self.nodes.len()
            invariant
                i <= self.nodes@.len(),
                !has_name(files_of(self@.take(i as int)), file_name@),
            decreases self.nodes@.len() - i,
        {
            let node = &self.nodes[i];
            let len = node.path.len();
            proof {
                assert(self@[i as int] == self.nodes@[i as int]@);
                lemma_files_split(self@, i as int);
            }
            let ghost before = files_of(self@.take(i as int));
            if !node.is_dir && len > 0 && bytes_eq(node.path[len - 1].as_slice(), file_name) {
                proof {
                    let k = before.len() as int;
                    let all = self.files();
                    assert(all[k] == self@[i as int].path);
                    assert(is_named(all[k], file_name@));
                    assert forall|j: int| 0 <= j < k implies !is_named(
                        #[trigger] all[j],
                        file_name@,
                    ) by {
                        assert(all[j] == before[j]);
                    }
                    assert(all.remove(k) =~= before + files_of(self@.skip(i + 1)));
                }
                return Some(i);
            }
            proof {
                let next = files_of(self@.take(i + 1));
                assert forall|k: int| 0 <= k < next.len() implies !is_named(
                    #[trigger] next[k],
                    file_name@,
                ) by {
                    if k < before.len() {
                        assert(next[k] == before[k]);
                    }
                }
            }
            i += 1;
        }
        assert(self@.take(self.nodes@.len() as int) =~= self@);
        None
    }

    /// Looks for a file by its name. Where several files have the name,
    /// the first of the walk is given.
    pub fn find_file(&self, file_name: &[u8]) -> (found: Option<Vec<Vec<u8>>>)
        ensures
            found is None <==> !has_name(self.files(), file_name@),
            found is Some ==> exists|k: int|
                is_first_named(self.files(), file_name@, k) && views(found->Some_0@)
                    == #[trigger] self.files()[k],
            found is Some ==> has_node(self@, views(found->Some_0@), false) && is_named(
                views(found->Some_0@),
                file_name@,
            ),
    {
        match self.first_named(file_name) {
            None => None,
            Some(i) => {
                let node = &self.nodes[i];
                let path = copy_names(node.path.as_slice(), node.path.len());
                assert(views(node.path@).take(node.path@.len() as int) =~= views(node.path@));
                Some(path)
            },
        }
    }

    /// Takes the first file named `file_name` out of the listing and gives
    /// its path, for the caller to unlink.
    pub fn remove_file(&mut self, file_name: &[u8]) -> (result: Result<Vec<Vec<u8>>, TreeError>)
        ensures
            final(self).root() == old(self).root(),
            has_name(old(self).files(), file_name@) <==> result is Ok,
            result is Err ==> result == Err::<Vec<Vec<u8>>, TreeError>(TreeError::NotFound),
            result is Err ==> final(self)@ == old(self)@,
            result is Ok ==> exists|k: int|
                is_first_named(old(self).files(), file_name@, k) && views(result->Ok_0@)
                    == #[trigger] old(self).files()[k] && final(self).files() == old(
                    self,
                ).files().remove(k),
            result is Ok ==> exists|i: int|
                0 <= i < old(self)@.len() && !(#[trigger] old(self)@[i]).is_dir && old(
                    self,
                )@[i].path == views(result->Ok_0@) && final(self)@ == old(self)@.remove(i),
            names_unique(old(self).files()) ==> names_unique(final(self).files()),
            result is Ok && names_unique(old(self).files()) ==> !has_name(
                final(self).files(),
                file_name@,
            ),
    {
        match self.first_named(file_name) {
            None => Err(TreeError::NotFound),
            Some(i) => {
                proof {
                    lemma_views_remove(self.nodes@, i as int);
                    if names_unique(self.files()) {
                        let k = files_of(self@.take(i as int)).len() as int;
                        lemma_removal_keeps_names_unique(self.files(), k);
                        lemma_removed_name_is_gone(self.files(), file_name@, k);
                    }
                }
                let node = self.nodes.remove(i);
                Ok(node.path)
            },
        }
    }

    /// The files that lie below the directory `owner` of the root.
    pub fn list_files_below(&self, owner: &[u8]) -> (files: Vec<Vec<Vec<u8>>>)
        ensures
            path_views(files@) == owned_by(self.files(), owner@),
    {
        let mut files: Vec<Vec<Vec<u8>>> = Vec::new();
        let mut i: usize = 0;
        assert(self@.take(0) =~= Seq::<NodeView>::empty());
        assert(path_views(files@) =~= Seq::<Path>::empty());
        while i < self.nodes.len()
            invariant
                i <= self.nodes@.len(),
                path_views(files@) == owned_by(files_of(self@.take(i as int)), owner@),
            decreases self.nodes@.len() - i,
        {
            let node = &self.nodes[i];
            proof {
                assert(self@[i as int] == self.nodes@[i as int]@);
                lemma_files_split(self@, i as int);
                if !node.is_dir {
                    assert(files_of(self@.take(i + 1)).drop_last() =~= files_of(
                        self@.take(i as int),
                    ));
                }
            }
            if !node.is_dir && node.path.len() > 1 && bytes_eq(node.path[0].as_slice(), owner) {
                let ghost before = path_views(files@);
                let path = copy_names(node.path.as_slice(), node.path.len());
                assert(views(node.path@).take(node.path@.len() as int) =~= views(node.path@));
                files.push(path);
                assert(path_views(files@) =~= before.push(views(path@)));
            }
            i += 1;
        }
        assert(self@.take(self.nodes@.len() as int) =~= self@);
        files
    }

    /// The paths of all regular files below the root, in the order of the
    /// walk.
    pub fn list_files_in_tree(&self) -> (files: Vec<Vec<Vec<u8>>>)
        ensures
            path_views(files@) == self.files(),
    {
        let mut files: Vec<Vec<Vec<u8>>> = Vec::new();
        let mut i: usize = 0;
        assert(self@.take(0) =~= Seq::<NodeView>::empty());
        assert(path_views(files@) =~= Seq::<Path>::empty());
        while i < self.nodes.len()
            invariant
                i <= self.nodes@.len(),
                path_views(files@) == files_of(self@.take(i as int)),
            decreases self.nodes@.len() - i,
        {
            proof {
                assert(self@.take(i + 1) =~= self@.take(i as int).push(self@[i as int]));
                lemma_files_push(self@.take(i as int), self@[i as int]);
                assert(self@[i as int] == self.nodes@[i as int]@);
            }
            if !self.nodes[i].is_dir {
                let ghost before = path_views(files@);
                let path = copy_names(self.nodes[i].path.as_slice(), self.nodes[i].path.len());
                assert(views(self.nodes@[i as int].path@).take(
                    self.nodes@[i as int].path@.len() as int,
                ) =~= views(self.nodes@[i as int].path@));
                files.push(path);
                assert(path_views(files@) =~= before.push(views(path@)));
            }
            i += 1;
        }
        assert(self@.take(self.nodes@.len() as int) =~= self@);
        files
    }
}

} // verus!
