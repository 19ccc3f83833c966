//! Facts about the tree model: what the parent links imply, and that every
//! step of a replay keeps a tree well formed.

use vstd::prelude::*;
use crate::transcript::{parse_line_spec, EventView};
use crate::tree::{
    add_file, apply, children_among, dir_child_from, enter, file_size, files_below,
    find_dir_child, is_below, is_dir_child, leave, new_dir, new_file, on_path, rewalk_size,
    root_name, initial_tree, replay_lines, tree_wf, well_linked, NodeView, ReplayError, TreeView,
};

verus! {

/// A node lies on the way up from `j` only if it stands at or before `j`.
pub proof fn lemma_on_path_before(nodes: Seq<NodeView>, a: int, j: int)
    requires
        on_path(nodes, a, j),
    ensures
        a <= j,
    decreases j,
{
    if a != j {
        lemma_on_path_before(nodes, a, nodes[j].parent->0);
    }
}

/// The way up from `j` depends only on the parent links at and before `j`.
pub proof fn lemma_on_path_agrees(n1: Seq<NodeView>, n2: Seq<NodeView>, a: int, j: int)
    requires
        j < n1.len(),
        j < n2.len(),
        forall|k: int| 0 <= k <= j ==> (#[trigger] n1[k]).parent == (#[trigger] n2[k]).parent,
    ensures
        on_path(n1, a, j) == on_path(n2, a, j),
    decreases j,
{
    if a != j && 0 < j {
        match n1[j].parent {
            Some(p) => {
                if 0 <= p < j {
                    lemma_on_path_agrees(n1, n2, a, p);
                }
            },
            None => {},
        }
    }
}

/// The files below `d` among the first `n` nodes depend only on the
/// parent links and kinds of those nodes.
pub proof fn lemma_files_below_agrees(n1: Seq<NodeView>, n2: Seq<NodeView>, d: int, n: int)
    requires
        n <= n1.len(),
        n <= n2.len(),
        forall|k: int|
            0 <= k < n ==> (#[trigger] n1[k]).parent == (#[trigger] n2[k]).parent && n1[k].kind
                == n2[k].kind,
    ensures
        files_below(n1, d, n) == files_below(n2, d, n),
    decreases n,
{
    if n > 0 {
        lemma_files_below_agrees(n1, n2, d, n - 1);
        lemma_on_path_agrees(n1, n2, d, n - 1);
    }
}

/// Nothing lies below a node among the nodes that stand at or before it.
pub proof fn lemma_files_below_none(nodes: Seq<NodeView>, d: int, n: int)
    requires
        n <= d + 1,
    ensures
        files_below(nodes, d, n) == 0,
    decreases n,
{
    if n > 0 {
        lemma_files_below_none(nodes, d, n - 1);
        if is_below(nodes, d, n - 1) {
            lemma_on_path_before(nodes, d, n - 1);
        }
    }
}

/// The files below a node among the first `n` nodes weigh at most `n`
/// times the largest file size.
pub proof fn lemma_files_below_bound(nodes: Seq<NodeView>, d: int, n: int)
    requires
        0 <= n <= nodes.len(),
    ensures
        files_below(nodes, d, n) <= n * u64::MAX,
    decreases n,
{
    if n > 0 {
        lemma_files_below_bound(nodes, d, n - 1);
    }
}

/// The root lies on the way up from every node.
pub proof fn lemma_root_above_all(nodes: Seq<NodeView>, j: int)
    requires
        well_linked(nodes),
        0 <= j < nodes.len(),
    ensures
        on_path(nodes, 0, j),
    decreases j,
{
    if j > 0 {
        lemma_root_above_all(nodes, nodes[j].parent->0);
    }
}

/// A node is no deeper than its position.
pub proof fn lemma_depth_bound(nodes: Seq<NodeView>, i: int)
    requires
        well_linked(nodes),
        0 <= i < nodes.len(),
    ensures
        nodes[i].depth <= i,
    decreases i,
{
    if i > 0 {
        lemma_depth_bound(nodes, nodes[i].parent->0);
    }
}

/// Of two nodes on the way up from `c`, the earlier lies on the way up
/// from the later.
pub proof fn lemma_path_chain(nodes: Seq<NodeView>, k: int, at: int, c: int)
    requires
        on_path(nodes, k, c),
        on_path(nodes, at, c),
        k <= at,
    ensures
        on_path(nodes, k, at),
    decreases c,
{
    if at != c {
        let p = nodes[c].parent->0;
        lemma_on_path_before(nodes, at, p);
        lemma_path_chain(nodes, k, at, p);
    }
}

/// The parent of a node on the way up from `c` lies on that way too.
pub proof fn lemma_path_step_up(nodes: Seq<NodeView>, at: int, c: int)
    requires
        well_linked(nodes),
        0 < at,
        c < nodes.len(),
        on_path(nodes, at, c),
    ensures
        on_path(nodes, nodes[at].parent->0, c),
    decreases c,
{
    let p = nodes[at].parent->0;
    if at != c {
        lemma_path_step_up(nodes, at, nodes[c].parent->0);
    } else {
        assert(on_path(nodes, p, p));
    }
}

/// The tree that holds the root alone is well formed.
pub proof fn lemma_initial_wf()
    ensures
        tree_wf(initial_tree()),
{
    let nodes = initial_tree().nodes;
    assert(files_below(nodes, 0, 1) == 0) by {
        lemma_files_below_none(nodes, 0, 1);
    }
}

/// The children found among the first `n` nodes stand among them.
pub proof fn lemma_children_in_range(nodes: Seq<NodeView>, d: int, n: int)
    ensures
        forall|k: int|
            0 <= k < children_among(nodes, d, n).len() ==> 0 <= (#[trigger] children_among(nodes, d, n)[k]) < n,
    decreases n,
{
    if n > 0 {
        lemma_children_in_range(nodes, d, n - 1);
        let before = children_among(nodes, d, n - 1);
        assert forall|k: int| 0 <= k < children_among(nodes, d, n).len() implies 0 <= (
        #[trigger] children_among(nodes, d, n)[k]) < n by {
            if k < before.len() {
                assert(children_among(nodes, d, n)[k] == before[k]);
            }
        }
    }
}

/// What `dir_child_from` finds: the first match at or after `from`, or
/// nothing when there is no match.
pub proof fn lemma_dir_child_from(nodes: Seq<NodeView>, parent: int, name: Seq<char>, from: int)
    requires
        0 <= from,
    ensures
        match dir_child_from(nodes, parent, name, from) {
            Some(j) => {
                &&& from <= j < nodes.len()
                &&& is_dir_child(nodes[j], parent, name)
                &&& forall|k: int| from <= k < j ==> !is_dir_child(#[trigger] nodes[k], parent, name)
            },
            None => forall|k: int|
                from <= k < nodes.len() ==> !is_dir_child(#[trigger] nodes[k], parent, name),
        },
    decreases nodes.len() - from,
{
    if from < nodes.len() && !is_dir_child(nodes[from], parent, name) {
        lemma_dir_child_from(nodes, parent, name, from + 1);
    }
}

/// Entering a directory keeps the tree well formed.
pub proof fn lemma_enter_wf(t: TreeView, name: Seq<char>)
    requires
        tree_wf(t),
    ensures
        tree_wf(enter(t, name)),
{
    let after = enter(t, name);
    if name != root_name() {
        lemma_dir_child_from(t.nodes, t.cursor, name, 0);
        if find_dir_child(t.nodes, t.cursor, name) is None {
            let n = t.nodes.len() as int;
            assert(after.nodes == t.nodes.push(new_dir(t, name)));
            assert forall|d: int| 0 <= d < after.nodes.len() implies (#[trigger] after.nodes[d]).total_size
                == rewalk_size(after.nodes, d) by {
                if d < n {
                    lemma_files_below_agrees(t.nodes, after.nodes, d, n);
                } else {
                    lemma_files_below_none(after.nodes, d, n + 1);
                }
            }
        }
    }
}

/// Adding a file keeps the tree well formed.
pub proof fn lemma_add_file_wf(t: TreeView, name: Seq<char>, size: u64)
    requires
        tree_wf(t),
    ensures
        tree_wf(add_file(t, name, size)),
{
    let after = add_file(t, name, size);
    let n = t.nodes.len() as int;
    assert(after.nodes[n] == new_file(t, name, size));
    assert forall|d: int| 0 <= d < after.nodes.len() implies (#[trigger] after.nodes[d]).total_size
        == rewalk_size(after.nodes, d) by {
        if d < n {
            lemma_files_below_agrees(t.nodes, after.nodes, d, n);
            lemma_on_path_agrees(t.nodes, after.nodes, d, t.cursor);
            assert(on_path(after.nodes, d, n) == on_path(after.nodes, d, t.cursor));
        } else {
            lemma_files_below_none(after.nodes, d, n + 1);
        }
    }
}

/// A replay that has failed on the first `k` lines fails with the same
/// error on the whole transcript.
pub proof fn lemma_replay_lines_fails_on(lines: Seq<Seq<char>>, k: int)
    requires
        0 <= k <= lines.len(),
    ensures
        replay_lines(lines.take(k)) matches Err(e) ==> replay_lines(lines) == Err::<TreeView, ReplayError>(e),
    decreases lines.len(),
{
    if k < lines.len() {
        assert(lines.drop_last().take(k) =~= lines.take(k));
        lemma_replay_lines_fails_on(lines.drop_last(), k);
    } else {
        assert(lines.take(k) =~= lines);
    }
}

/// Every step of a replay keeps the tree well formed.
pub proof fn lemma_apply_wf(t: TreeView, event: EventView)
    requires
        tree_wf(t),
    ensures
        apply(t, event) matches Ok(after) ==> tree_wf(after),
{
    match event {
        EventView::Enter(name) => {
            lemma_enter_wf(t, name);
        },
        EventView::FileEntry(name, size) => {
            lemma_add_file_wf(t, name, size);
        },
        _ => {},
    }
}

/// The tree that a transcript describes is well formed.
pub proof fn lemma_replay_lines_wf(lines: Seq<Seq<char>>)
    ensures
        replay_lines(lines) matches Ok(built) ==> tree_wf(built),
    decreases lines.len(),
{
    if lines.len() == 0 {
        lemma_initial_wf();
    } else {
        lemma_replay_lines_wf(lines.drop_last());
        match replay_lines(lines.drop_last()) {
            Ok(before) => match parse_line_spec(lines.last()) {
                Ok(event) => {
                    lemma_apply_wf(before, event);
                },
                Err(_) => {},
            },
            Err(_) => {},
        }
    }
}

/// The total size of the files among the first `n` nodes.
pub open spec fn all_files_among(nodes: Seq<NodeView>, n: int) -> nat
    decreases n,
{
    if n <= 0 {
        0
    } else {
        all_files_among(nodes, n - 1) + file_size(nodes[n - 1])
    }
}

/// The total size of all files of a tree.
pub open spec fn all_files(nodes: Seq<NodeView>) -> nat {
    all_files_among(nodes, nodes.len() as int)
}

/// The size that a line adds to a tree: the size of the file that it
/// lists, and nothing for any other line.
pub open spec fn listed_size(line: Seq<char>) -> nat {
    match parse_line_spec(line) {
        Ok(EventView::FileEntry(_, size)) => size as nat,
        _ => 0,
    }
}

/// The total size of the files that a transcript lists.
pub open spec fn listed_total(lines: Seq<Seq<char>>) -> nat
    decreases lines.len(),
{
    if lines.len() == 0 {
        0
    } else {
        listed_total(lines.drop_last()) + listed_size(lines.last())
    }
}

/// The total size of the files among the first `n` nodes depends only on
/// the kinds of those nodes.
pub proof fn lemma_all_files_agrees(n1: Seq<NodeView>, n2: Seq<NodeView>, n: int)
    requires
        n <= n1.len(),
        n <= n2.len(),
        forall|k: int| 0 <= k < n ==> (#[trigger] n1[k]).kind == (#[trigger] n2[k]).kind,
    ensures
        all_files_among(n1, n) == all_files_among(n2, n),
    decreases n,
{
    if n > 0 {
        lemma_all_files_agrees(n1, n2, n - 1);
    }
}

/// All files of a well-linked tree lie below its root.
pub proof fn lemma_files_below_root(nodes: Seq<NodeView>, n: int)
    requires
        well_linked(nodes),
        0 <= n <= nodes.len(),
    ensures
        files_below(nodes, 0, n) == all_files_among(nodes, n),
    decreases n,
{
    if n > 0 {
        lemma_files_below_root(nodes, n - 1);
        lemma_root_above_all(nodes, n - 1);
    }
}

/// The root's total is the total size of all files of the tree.
pub proof fn lemma_root_holds_all_files(t: TreeView)
    requires
        tree_wf(t),
    ensures
        t.nodes[0].total_size == all_files(t.nodes),
{
    lemma_files_below_root(t.nodes, t.nodes.len() as int);
}

/// What one step of a replay adds to the files of the tree.
pub proof fn lemma_apply_all_files(t: TreeView, event: EventView)
    requires
        tree_wf(t),
    ensures
        apply(t, event) matches Ok(after) ==> all_files(after.nodes) == all_files(t.nodes) + (match event {
            EventView::FileEntry(_, size) => size as nat,
            _ => 0,
        }),
{
    let n = t.nodes.len() as int;
    match apply(t, event) {
        Ok(after) => {
            if after.nodes.len() > n {
                lemma_all_files_agrees(t.nodes, after.nodes, n);
            } else {
                assert(after.nodes == t.nodes);
            }
        },
        Err(_) => {},
    }
}

/// After the replay of a whole transcript, the root's total is the sum of
/// the sizes of all files that the transcript lists.
pub proof fn lemma_root_total_is_listed_total(lines: Seq<Seq<char>>)
    ensures
        replay_lines(lines) matches Ok(built) ==> built.nodes[0].total_size == listed_total(lines)
            && all_files(built.nodes) == listed_total(lines),
    decreases lines.len(),
{
    lemma_replay_lines_wf(lines);
    if lines.len() == 0 {
        assert(all_files_among(initial_tree().nodes, 0) == 0);
    } else {
        lemma_root_total_is_listed_total(lines.drop_last());
        lemma_replay_lines_wf(lines.drop_last());
        match replay_lines(lines.drop_last()) {
            Ok(before) => match parse_line_spec(lines.last()) {
                Ok(event) => {
                    lemma_apply_all_files(before, event);
                },
                Err(_) => {},
            },
            Err(_) => {},
        }
    }
    match replay_lines(lines) {
        Ok(built) => {
            lemma_root_holds_all_files(built);
        },
        Err(_) => {},
    }
}

/// Entering a directory a second time from the same parent finds the
/// directory of the first time and creates nothing: the tree is the one
/// that the first entering left. Among the directories under that parent
/// exactly one has the name.
pub proof fn lemma_revisit_creates_nothing(t: TreeView, name: Seq<char>)
    requires
        tree_wf(t),
    ensures
        enter(TreeView { nodes: enter(t, name).nodes, cursor: t.cursor }, name) == enter(t, name),
        name != root_name() ==> leave(enter(t, name)) == Ok::<TreeView, ReplayError>(
            TreeView { nodes: enter(t, name).nodes, cursor: t.cursor },
        ),
        name != root_name() ==> forall|i: int|
            0 <= i < enter(t, name).nodes.len() ==> (is_dir_child(
                #[trigger] enter(t, name).nodes[i],
                t.cursor,
                name,
            ) <==> i == enter(t, name).cursor),
{
    let once = enter(t, name);
    let back = TreeView { nodes: once.nodes, cursor: t.cursor };
    lemma_enter_wf(t, name);
    if name != root_name() {
        lemma_dir_child_from(t.nodes, t.cursor, name, 0);
        lemma_dir_child_from(once.nodes, t.cursor, name, 0);
        assert(is_dir_child(once.nodes[once.cursor], t.cursor, name));
        assert forall|i: int| 0 <= i < once.nodes.len() && is_dir_child(
            #[trigger] once.nodes[i],
            t.cursor,
            name,
        ) implies i == once.cursor by {
            if i < once.cursor {
                assert(once.nodes[i].name != once.nodes[once.cursor].name);
            } else if i > once.cursor {
                assert(once.nodes[once.cursor].name != once.nodes[i].name);
            }
        }
    }
}

/// Moving to the parent fails at the root and nowhere else; where it
/// succeeds it changes no node and ends exactly one level up.
pub proof fn lemma_leave_fails_only_at_root(t: TreeView)
    requires
        tree_wf(t),
    ensures
        leave(t) is Err <==> t.cursor == 0,
        leave(t) matches Ok(up) ==> {
            &&& up.nodes == t.nodes
            &&& Some(up.cursor) == t.nodes[t.cursor].parent
            &&& up.nodes[up.cursor].depth + 1 == t.nodes[t.cursor].depth
        },
{
}

/// In the tree that a transcript describes, every node carries the size
/// that a fresh walk over the tree finds for it.
pub proof fn lemma_totals_match_rewalk(lines: Seq<Seq<char>>, d: int)
    requires
        replay_lines(lines) is Ok,
        0 <= d < replay_lines(lines)->Ok_0.nodes.len(),
    ensures
        replay_lines(lines)->Ok_0.nodes[d].total_size == rewalk_size(
            replay_lines(lines)->Ok_0.nodes,
            d,
        ),
{
    lemma_replay_lines_wf(lines);
}

} // verus!
