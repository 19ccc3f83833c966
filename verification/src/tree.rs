//! The directory tree that a transcript describes.
//!
//! The tree is an arena: every node lives in one vector and names its
//! parent by position. A node is never removed, and a child always stands
//! after its parent. Each directory carries the total size of the files
//! below it, kept up to date as files are added.

use vstd::prelude::*;
use crate::text::str_eq;
use crate::transcript::{parent_token, parse_line, parse_line_spec, Event, EventView, ParseError};
use crate::tree_proofs::{
    lemma_add_file_wf, lemma_depth_bound, lemma_dir_child_from, lemma_enter_wf,
    lemma_files_below_bound, lemma_on_path_before, lemma_path_chain, lemma_path_step_up,
    lemma_replay_lines_fails_on, lemma_root_total_is_listed_total, listed_total,
};

verus! {

/// Whether a node is a directory or a file, and the size of a file.
#[derive(Clone, Copy, Debug, PartialEq, Eq, Structural)]
pub enum NodeKind {
    Directory,
    File(u64),
}

/// One node of the tree.
#[derive(Debug)]
pub struct ElfFile {
    /// The node's position in the arena.
    pub id: usize,
    /// The node's name, unique among the directories of one parent.
    pub name: String,
    pub kind: NodeKind,
    /// The position of the parent directory; the root has none.
    pub parent: Option<usize>,
    /// For a directory, the total size of all files below it.
    pub total_size: u128,
    /// The number of directories between the node and the root.
    pub depth: usize,
}

/// An `ElfFile` as a mathematical value.
pub struct NodeView {
    pub id: int,
    pub name: Seq<char>,
    pub kind: NodeKind,
    pub parent: Option<int>,
    pub total_size: nat,
    pub depth: nat,
}

impl View for ElfFile {
    type V = NodeView;

    open spec fn view(&self) -> NodeView {
        NodeView {
            id: self.id as int,
            name: self.name@,
            kind: self.kind,
            parent: match self.parent {
                Some(p) => Some(p as int),
                None => None,
            },
            total_size: self.total_size as nat,
            depth: self.depth as nat,
        }
    }
}

/// A tree under construction as a mathematical value: the nodes in the
/// order of their creation, and the position of the current directory.
pub struct TreeView {
    pub nodes: Seq<NodeView>,
    pub cursor: int,
}

/// Why a transcript cannot be replayed.
#[derive(Clone, Copy, Debug, PartialEq, Eq, Structural)]
pub enum ReplayError {
    /// A line of the transcript could not be read.
    Parse(ParseError),
    /// The transcript asks for the parent of the root.
    NavigateAboveRoot,
}

/// The name of the root directory, `/`.
pub open spec fn root_name() -> Seq<char> {
    seq!['/']
}

/// The size that a node adds to the directories above it.
pub open spec fn file_size(n: NodeView) -> nat {
    match n.kind {
        NodeKind::File(size) => size as nat,
        NodeKind::Directory => 0,
    }
}

/// The shape of a tree: node 0 is the root, a directory named `/` without
/// parent; every other node names a directory before it as its parent and
/// lies one level deeper.
pub open spec fn well_linked(nodes: Seq<NodeView>) -> bool {
    &&& nodes.len() > 0
    &&& nodes[0].parent is None
    &&& nodes[0].kind is Directory
    &&& nodes[0].name == root_name()
    &&& nodes[0].depth == 0
    &&& forall|i: int| 0 <= i < nodes.len() ==> (#[trigger] nodes[i]).id == i
    &&& forall|i: int|
        0 < i < nodes.len() ==> {
            &&& (#[trigger] nodes[i]).parent matches Some(p)
            &&& 0 <= p < i
            &&& nodes[p].kind is Directory
            &&& nodes[i].depth == nodes[p].depth + 1
        }
}

/// Whether node `a` lies on the way from node `j` up to the root, `j`
/// itself included.
pub open spec fn on_path(nodes: Seq<NodeView>, a: int, j: int) -> bool
    decreases j,
{
    a == j || (0 < j < nodes.len() && match nodes[j].parent {
        Some(p) => 0 <= p < j && on_path(nodes, a, p),
        None => false,
    })
}

/// Whether node `j` lies below node `d`, at any depth.
pub open spec fn is_below(nodes: Seq<NodeView>, d: int, j: int) -> bool {
    j != d && on_path(nodes, d, j)
}

/// The total size of the files among the first `n` nodes that lie below
/// node `d`.
pub open spec fn files_below(nodes: Seq<NodeView>, d: int, n: int) -> nat
    decreases n,
{
    if n <= 0 {
        0
    } else {
        files_below(nodes, d, n - 1) + if is_below(nodes, d, n - 1) {
            file_size(nodes[n - 1])
        } else {
            0
        }
    }
}

/// The size of node `d` as a fresh walk over the whole tree finds it: the
/// total size of all files below `d`.
pub open spec fn rewalk_size(nodes: Seq<NodeView>, d: int) -> nat {
    files_below(nodes, d, nodes.len() as int)
}

/// Every node carries the size that a fresh walk finds for it.
pub open spec fn memo_matches(nodes: Seq<NodeView>) -> bool {
    forall|d: int| 0 <= d < nodes.len() ==> (#[trigger] nodes[d]).total_size == rewalk_size(nodes, d)
}

/// Whether `n` is a directory named `name` directly under `parent`.
pub open spec fn is_dir_child(n: NodeView, parent: int, name: Seq<char>) -> bool {
    n.kind is Directory && n.parent == Some(parent) && n.name == name
}

/// No two directories under one parent share a name, and no directory but
/// the root is named `/`.
pub open spec fn unique_dirs(nodes: Seq<NodeView>) -> bool {
    &&& forall|i: int, j: int|
        0 <= i < j < nodes.len() && (#[trigger] nodes[i]).kind is Directory && (#[trigger] nodes[j]).kind is Directory
            && nodes[i].parent == nodes[j].parent ==> nodes[i].name != nodes[j].name
    &&& forall|i: int|
        0 < i < nodes.len() && (#[trigger] nodes[i]).kind is Directory ==> nodes[i].name != root_name()
}

/// What holds of every tree that this module builds.
pub open spec fn tree_wf(t: TreeView) -> bool {
    &&& well_linked(t.nodes)
    &&& memo_matches(t.nodes)
    &&& unique_dirs(t.nodes)
    &&& 0 <= t.cursor < t.nodes.len()
    &&& t.nodes[t.cursor].kind is Directory
}

/// The root of a new tree.
pub open spec fn root_node() -> NodeView {
    NodeView {
        id: 0,
        name: root_name(),
        kind: NodeKind::Directory,
        parent: None,
        total_size: 0,
        depth: 0,
    }
}

/// The tree before any line is replayed: the root alone, which is also the
/// current directory.
pub open spec fn initial_tree() -> TreeView {
    TreeView { nodes: seq![root_node()], cursor: 0 }
}

/// The first directory at or after position `from` that is named `name`
/// and lies directly under `parent`.
pub open spec fn dir_child_from(nodes: Seq<NodeView>, parent: int, name: Seq<char>, from: int) -> Option<int>
    decreases nodes.len() - from,
{
    if from < 0 || from >= nodes.len() {
        None
    } else if is_dir_child(nodes[from], parent, name) {
        Some(from)
    } else {
        dir_child_from(nodes, parent, name, from + 1)
    }
}

/// The directory named `name` directly under `parent`, if there is one.
pub open spec fn find_dir_child(nodes: Seq<NodeView>, parent: int, name: Seq<char>) -> Option<int> {
    dir_child_from(nodes, parent, name, 0)
}

/// A new, empty directory `name` under the current directory of `t`.
pub open spec fn new_dir(t: TreeView, name: Seq<char>) -> NodeView {
    NodeView {
        id: t.nodes.len() as int,
        name,
        kind: NodeKind::Directory,
        parent: Some(t.cursor),
        total_size: 0,
        depth: t.nodes[t.cursor].depth + 1nat,
    }
}

/// A new file `name` of `size` bytes under the current directory of `t`.
pub open spec fn new_file(t: TreeView, name: Seq<char>, size: u64) -> NodeView {
    NodeView {
        id: t.nodes.len() as int,
        name,
        kind: NodeKind::File(size),
        parent: Some(t.cursor),
        total_size: 0,
        depth: t.nodes[t.cursor].depth + 1nat,
    }
}

/// The tree after entering `name`: `/` is the root; any other name is the
/// directory of that name under the current one, which is created when it
/// is not there yet. Files do not count: a file and a directory of one
/// parent may share a name.
pub open spec fn enter(t: TreeView, name: Seq<char>) -> TreeView {
    if name == root_name() {
        TreeView { nodes: t.nodes, cursor: 0 }
    } else {
        match find_dir_child(t.nodes, t.cursor, name) {
            Some(j) => TreeView { nodes: t.nodes, cursor: j },
            None => TreeView { nodes: t.nodes.push(new_dir(t, name)), cursor: t.nodes.len() as int },
        }
    }
}

/// The tree after moving to the parent of the current directory, which
/// the root does not have.
pub open spec fn leave(t: TreeView) -> Result<TreeView, ReplayError> {
    match t.nodes[t.cursor].parent {
        Some(p) => Ok(TreeView { nodes: t.nodes, cursor: p }),
        None => Err(ReplayError::NavigateAboveRoot),
    }
}

/// The tree after a directory change to `target`.
pub open spec fn change_directory(t: TreeView, target: Seq<char>) -> Result<TreeView, ReplayError> {
    if target == parent_token() {
        leave(t)
    } else {
        Ok(enter(t, target))
    }
}

/// The tree after a file `name` of `size` bytes is added to the current
/// directory: the file is the last node, and `size` is added to the
/// current directory and to every directory above it.
pub open spec fn add_file(t: TreeView, name: Seq<char>, size: u64) -> TreeView {
    TreeView {
        nodes: Seq::new(
            t.nodes.len() + 1,
            |i: int|
                if i == t.nodes.len() {
                    new_file(t, name, size)
                } else if on_path(t.nodes, i, t.cursor) {
                    NodeView { total_size: t.nodes[i].total_size + size as nat, ..t.nodes[i] }
                } else {
                    t.nodes[i]
                },
        ),
        cursor: t.cursor,
    }
}

/// The tree after one event. A listing request and a subdirectory entry
/// change nothing: a directory comes into being when it is entered.
pub open spec fn apply(t: TreeView, event: EventView) -> Result<TreeView, ReplayError> {
    match event {
        EventView::Enter(name) => change_directory(t, name),
        EventView::Leave => leave(t),
        EventView::List => Ok(t),
        EventView::DirEntry(_) => Ok(t),
        EventView::FileEntry(name, size) => Ok(add_file(t, name, size)),
    }
}

/// The tree that the transcript `lines` describes; the first line that
/// cannot be read or replayed ends the replay with its error.
pub open spec fn replay_lines(lines: Seq<Seq<char>>) -> Result<TreeView, ReplayError>
    decreases lines.len(),
{
    if lines.len() == 0 {
        Ok(initial_tree())
    } else {
        match replay_lines(lines.drop_last()) {
            Ok(before) => match parse_line_spec(lines.last()) {
                Ok(event) => apply(before, event),
                Err(e) => Err(ReplayError::Parse(e)),
            },
            Err(e) => Err(e),
        }
    }
}

/// The transcript lines as mathematical values.
pub open spec fn lines_view(history: Seq<String>) -> Seq<Seq<char>> {
    Seq::new(history.len(), |i: int| history[i]@)
}

/// The positions, in rising order, of those among the first `n` nodes
/// that lie directly under node `d`.
pub open spec fn children_among(nodes: Seq<NodeView>, d: int, n: int) -> Seq<int>
    decreases n,
{
    if n <= 0 {
        Seq::empty()
    } else if nodes[n - 1].parent == Some(d) {
        children_among(nodes, d, n - 1).push(n - 1)
    } else {
        children_among(nodes, d, n - 1)
    }
}

/// The positions of the nodes directly under node `d`, in the order of
/// their creation.
pub open spec fn children(nodes: Seq<NodeView>, d: int) -> Seq<int> {
    children_among(nodes, d, nodes.len() as int)
}

/// Positions in the arena as mathematical values.
pub open spec fn positions(found: Seq<usize>) -> Seq<int> {
    found.map_values(|j: usize| j as int)
}

/// The nodes of a tree as mathematical values.
pub open spec fn nodes_view(nodes: Seq<ElfFile>) -> Seq<NodeView> {
    Seq::new(nodes.len(), |i: int| nodes[i]@)
}

/// A directory tree under construction: the arena of its nodes and the
/// current directory of the session that is being replayed.
#[derive(Debug)]
pub struct FileTree {
    nodes: Vec<ElfFile>,
    cursor: usize,
}

impl View for FileTree {
    type V = TreeView;

    closed spec fn view(&self) -> TreeView {
        TreeView { nodes: nodes_view(self.nodes@), cursor: self.cursor as int }
    }
}

impl ElfFile {
    /// Whether the node is a directory.
    pub fn is_dir(&self) -> (r: bool)
        ensures
            r == (self@.kind is Directory),
    {
        match self.kind {
            NodeKind::Directory => true,
            NodeKind::File(_) => false,
        }
    }

    /// Whether the node is the root of its tree: the one node without a
    /// parent.
    pub fn is_root(&self) -> (r: bool)
        ensures
            r == (self@.parent is None),
    {
        self.parent.is_none()
    }

    /// The positions of the nodes directly under this directory, in the
    /// order of their creation; nothing for a file and for a directory
    /// without content.
    pub fn get_content(&self, tree: &FileTree) -> (content: Option<Vec<usize>>)
        ensures
            match content {
                Some(found) => {
                    &&& self@.kind is Directory
                    &&& found@.len() > 0
                    &&& positions(found@) == children(tree@.nodes, self@.id)
                },
                None => !(self@.kind is Directory) || children(tree@.nodes, self@.id).len() == 0,
            },
    {
        if !self.is_dir() {
            return None;
        }
        let n: usize = tree.nodes.len();
        let mut found: Vec<usize> = Vec::new();
        let mut j: usize = 0;
        while j < n
            invariant
                n == tree.nodes@.len(),
                0 <= j <= n,
                positions(found@) == children_among(tree@.nodes, self@.id, j as int),
            decreases n - j,
        {
            let under = match tree.nodes[j].parent {
                Some(p) => p == self.id,
                None => false,
            };
            if under {
                assert(positions(found@.push(j)) =~= positions(found@).push(j as int));
                found.push(j);
            }
            j += 1;
        }
        if found.len() > 0 {
            Some(found)
        } else {
            None
        }
    }
}

impl FileTree {
    /// Whether the tree is well formed. Every tree that this module hands
    /// out is.
    pub open spec fn wf(&self) -> bool {
        tree_wf(self@)
    }

    /// The nodes of a tree are no more than a machine can count.
    pub proof fn lemma_len_fits(&self)
        ensures
            self@.nodes.len() <= usize::MAX,
    {
        assert(self.nodes.len() == self.nodes@.len());
    }

    /// A tree that holds the root alone.
    pub fn new() -> (tree: FileTree)
        ensures
            tree@ == initial_tree(),
            tree.wf(),
    {
        proof {
            reveal_strlit("/");
            assert("/"@ =~= root_name());
        }
        let root = ElfFile {
            id: 0,
            name: "/".to_owned(),
            kind: NodeKind::Directory,
            parent: None,
            total_size: 0,
            depth: 0,
        };
        let mut nodes: Vec<ElfFile> = Vec::new();
        nodes.push(root);
        let tree = FileTree { nodes, cursor: 0 };
        proof {
            assert(tree@.nodes =~= initial_tree().nodes);
            crate::tree_proofs::lemma_initial_wf();
        }
        tree
    }

    /// The nodes in the order of their creation; the root comes first.
    pub fn nodes(&self) -> (nodes: &Vec<ElfFile>)
        ensures
            nodes_view(nodes@) == self@.nodes,
    {
        &self.nodes
    }

    /// The number of nodes.
    pub fn len(&self) -> (n: usize)
        ensures
            n == self@.nodes.len(),
    {
        self.nodes.len()
    }

    /// The position of the current directory.
    pub fn cursor(&self) -> (c: usize)
        ensures
            c == self@.cursor,
    {
        self.cursor
    }

    /// The node at position `i`.
    pub fn get(&self, i: usize) -> (node: &ElfFile)
        requires
            i < self@.nodes.len(),
        ensures
            node@ == self@.nodes[i as int],
    {
        &self.nodes[i]
    }

    /// The root directory.
    pub fn root(&self) -> (node: &ElfFile)
        requires
            self.wf(),
        ensures
            node@ == self@.nodes[0],
    {
        &self.nodes[0]
    }

    /// Looks for the directory named `name` directly under the directory
    /// at position `parent`.
    pub fn find_dir(&self, parent: usize, name: &String) -> (found: Option<usize>)
        ensures
            match found {
                Some(j) => find_dir_child(self@.nodes, parent as int, name@) == Some(j as int),
                None => find_dir_child(self@.nodes, parent as int, name@) is None,
            },
    {
        let n: usize = self.nodes.len();
        let mut j: usize = 0;
        while j < n
            invariant
                n == self.nodes@.len(),
                0 <= j <= n,
                find_dir_child(self@.nodes, parent as int, name@) == dir_child_from(
                    self@.nodes,
                    parent as int,
                    name@,
                    j as int,
                ),
            decreases n - j,
        {
            let node = &self.nodes[j];
            let under = match node.parent {
                Some(p) => p == parent,
                None => false,
            };
            if under && node.is_dir() && node.name == *name {
                return Some(j);
            }
            j += 1;
        }
        None
    }

    /// Whether the node at position `j` lies below the node at position
    /// `d`, found by walking up from `j`.
    pub fn lies_below(&self, d: usize, j: usize) -> (r: bool)
        requires
            self.wf(),
            j < self@.nodes.len(),
        ensures
            r == is_below(self@.nodes, d as int, j as int),
    {
        if j == d {
            return false;
        }
        let mut at: usize = j;
        while at > d
            invariant
                self.wf(),
                0 <= at <= j < self.nodes@.len(),
                on_path(self@.nodes, d as int, j as int) == on_path(self@.nodes, d as int, at as int),
            decreases at,
        {
            match self.nodes[at].parent {
                Some(p) => {
                    at = p;
                },
                None => {
                    return false;
                },
            }
        }
        proof {
            if at < d && on_path(self@.nodes, d as int, at as int) {
                lemma_on_path_before(self@.nodes, d as int, at as int);
            }
        }
        at == d
    }

    /// The size of the node at position `d`, found afresh by a walk over
    /// all nodes that leaves the stored totals aside. It is the total
    /// that the node carries.
    pub fn rewalk(&self, d: usize) -> (total: u128)
        requires
            self.wf(),
        ensures
            total == rewalk_size(self@.nodes, d as int),
            d < self@.nodes.len() ==> total == self@.nodes[d as int].total_size,
    {
        let n: usize = self.nodes.len();
        let mut total: u128 = 0;
        let mut j: usize = 0;
        while j < n
            invariant
                self.wf(),
                n == self.nodes@.len(),
                0 <= j <= n,
                total == files_below(self@.nodes, d as int, j as int),
            decreases n - j,
        {
            proof {
                lemma_files_below_bound(self@.nodes, d as int, j as int);
            }
            if self.lies_below(d, j) {
                match self.nodes[j].kind {
                    NodeKind::File(size) => {
                        total = total + size as u128;
                    },
                    NodeKind::Directory => {},
                }
            }
            j += 1;
        }
        total
    }

    /// Moves the current directory to `target`: to the parent for `..`, to
    /// the root for `/`, and else to the directory of that name under the
    /// current one, which is created when it is not there yet. Only `..`
    /// at the root fails, and then the tree is left as it was.
    pub fn change_directory(&mut self, target: &str) -> (r: Result<(), ReplayError>)
        requires
            old(self).wf(),
        ensures
            final(self).wf(),
            match change_directory(old(self)@, target@) {
                Ok(after) => r is Ok && final(self)@ == after,
                Err(e) => r == Err::<(), ReplayError>(e) && final(self)@ == old(self)@,
            },
            r is Err <==> target@ == parent_token() && old(self)@.cursor == 0,
    {
        let ghost before = self@;
        proof {
            reveal_strlit("..");
            reveal_strlit("/");
            assert(".."@ =~= parent_token());
            assert("/"@ =~= root_name());
            lemma_depth_bound(before.nodes, before.cursor);
        }
        if str_eq(target, "..") {
            match self.nodes[self.cursor].parent {
                Some(p) => {
                    self.cursor = p;
                    Ok(())
                },
                None => Err(ReplayError::NavigateAboveRoot),
            }
        } else if str_eq(target, "/") {
            self.cursor = 0;
            Ok(())
        } else {
            proof {
                lemma_dir_child_from(before.nodes, before.cursor, target@, 0);
                lemma_enter_wf(before, target@);
            }
            let name: String = target.to_owned();
            match self.find_dir(self.cursor, &name) {
                Some(j) => {
                    self.cursor = j;
                },
                None => {
                    let n: usize = self.nodes.len();
                    let dir = ElfFile {
                        id: n,
                        name,
                        kind: NodeKind::Directory,
                        parent: Some(self.cursor),
                        total_size: 0,
                        depth: self.nodes[self.cursor].depth + 1,
                    };
                    self.nodes.push(dir);
                    self.cursor = n;
                    proof {
                        assert(self@.nodes =~= enter(before, target@).nodes);
                    }
                },
            }
            Ok(())
        }
    }

    /// Replays one event: a directory change moves the current directory,
    /// a file entry adds a file, and a listing request or a subdirectory
    /// entry changes nothing. When the event fails the tree is left as it
    /// was.
    pub fn apply(&mut self, event: Event) -> (r: Result<(), ReplayError>)
        requires
            old(self).wf(),
        ensures
            final(self).wf(),
            match apply(old(self)@, event@) {
                Ok(after) => r is Ok && final(self)@ == after,
                Err(e) => r == Err::<(), ReplayError>(e) && final(self)@ == old(self)@,
            },
    {
        match event {
            Event::Enter(name) => self.change_directory(name.as_str()),
            Event::Leave => {
                proof {
                    reveal_strlit("..");
                    assert(".."@ =~= parent_token());
                }
                self.change_directory("..")
            },
            Event::List => Ok(()),
            Event::DirEntry(_) => Ok(()),
            Event::FileEntry(name, size) => {
                self.add_file(name, size);
                Ok(())
            },
        }
    }

    /// Adds the file `name` of `size` bytes to the current directory, and
    /// `size` to the total of the current directory and of every directory
    /// above it.
    pub fn add_file(&mut self, name: String, size: u64)
        requires
            old(self).wf(),
        ensures
            final(self).wf(),
            final(self)@ == add_file(old(self)@, name@, size),
    {
        let ghost before = self@;
        let n: usize = self.nodes.len();
        proof {
            lemma_depth_bound(before.nodes, before.cursor);
        }
        let file = ElfFile {
            id: n,
            name,
            kind: NodeKind::File(size),
            parent: Some(self.cursor),
            total_size: 0,
            depth: self.nodes[self.cursor].depth + 1,
        };
        let mut at: usize = self.cursor;
        proof {
            assert forall|k: int| on_path(before.nodes, k, before.cursor) implies k <= at by {
                lemma_on_path_before(before.nodes, k, before.cursor);
            }
        }
        loop
            invariant_except_break
                0 <= at < n,
                on_path(before.nodes, at as int, before.cursor),
                forall|k: int|
                    0 <= k < n ==> (#[trigger] self.nodes@[k])@ == if on_path(before.nodes, k, before.cursor)
                        && k > at {
                        NodeView {
                            total_size: before.nodes[k].total_size + size as nat,
                            ..before.nodes[k]
                        }
                    } else {
                        before.nodes[k]
                    },
            invariant
                tree_wf(before),
                n == before.nodes.len(),
                n == self.nodes@.len(),
                self.cursor == before.cursor,
            ensures
                forall|k: int|
                    0 <= k < n ==> (#[trigger] self.nodes@[k])@ == if on_path(before.nodes, k, before.cursor) {
                        NodeView {
                            total_size: before.nodes[k].total_size + size as nat,
                            ..before.nodes[k]
                        }
                    } else {
                        before.nodes[k]
                    },
            decreases at,
        {
            proof {
                lemma_files_below_bound(before.nodes, at as int, n as int);
                assert(before.nodes[at as int].total_size == rewalk_size(before.nodes, at as int));
                assert(self.nodes@[at as int]@ == before.nodes[at as int]);
            }
            let total: u128 = self.nodes[at].total_size + size as u128;
            self.nodes[at].total_size = total;
            let up = self.nodes[at].parent;
            proof {
                assert forall|k: int| 0 <= k < n && on_path(before.nodes, k, before.cursor) && k < at implies {
                    match before.nodes[at as int].parent {
                        Some(p) => k <= p,
                        None => false,
                    }
                } by {
                    lemma_path_chain(before.nodes, k, at as int, before.cursor);
                    lemma_on_path_before(before.nodes, k, before.nodes[at as int].parent->0);
                }
            }
            match up {
                Some(p) => {
                    proof {
                        lemma_path_step_up(before.nodes, at as int, before.cursor);
                    }
                    at = p;
                },
                None => {
                    break ;
                },
            }
        }
        self.nodes.push(file);
        proof {
            assert(self@.nodes =~= add_file(before, name@, size).nodes);
            lemma_add_file_wf(before, name@, size);
        }
    }
}

/// Carries out the directory change that a `$ cd` line asks for: see
/// `FileTree::change_directory`.
pub fn execute_cd(tree: &mut FileTree, target: &str) -> (r: Result<(), ReplayError>)
    requires
        old(tree).wf(),
    ensures
        final(tree).wf(),
        match change_directory(old(tree)@, target@) {
            Ok(after) => r is Ok && final(tree)@ == after,
            Err(e) => r == Err::<(), ReplayError>(e) && final(tree)@ == old(tree)@,
        },
        r is Err <==> target@ == parent_token() && old(tree)@.cursor == 0,
{
    tree.change_directory(target)
}

/// Builds the tree that a transcript describes, by replaying its lines in
/// order from a tree that holds the root alone. The first line that cannot
/// be read or replayed ends the replay with its error, and no tree is
/// returned. The root of the tree carries the total size of all files
/// that the transcript lists.
pub fn build_file_tree(history: &Vec<String>) -> (r: Result<FileTree, ReplayError>)
    ensures
        match replay_lines(lines_view(history@)) {
            Ok(built) => r matches Ok(tree) && tree@ == built && tree.wf(),
            Err(e) => r matches Err(found) && found == e,
        },
        r matches Ok(tree) ==> tree@.nodes[0].total_size == listed_total(lines_view(history@)),
{
    let mut tree = FileTree::new();
    let ghost lines = lines_view(history@);
    let mut i: usize = 0;
    assert(lines.take(0) =~= Seq::<Seq<char>>::empty());
    while i < history.len()
        invariant
            lines == lines_view(history@),
            0 <= i <= history@.len(),
            tree.wf(),
            replay_lines(lines.take(i as int)) == Ok::<TreeView, ReplayError>(tree@),
        decreases history@.len() - i,
    {
        proof {
            assert(lines.take(i + 1).drop_last() =~= lines.take(i as int));
            assert(lines.take(i + 1).last() == history@[i as int]@);
            lemma_replay_lines_fails_on(lines, i + 1);
        }
        match parse_line(history[i].as_str()) {
            Ok(event) => {
                match tree.apply(event) {
                    Ok(()) => {},
                    Err(e) => {
                        return Err(e);
                    },
                }
            },
            Err(e) => {
                return Err(ReplayError::Parse(e));
            },
        }
        i += 1;
    }
    proof {
        assert(lines.take(i as int) =~= lines);
        lemma_root_total_is_listed_total(lines);
    }
    Ok(tree)
}

} // verus!
