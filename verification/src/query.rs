//! Questions about a finished tree: how much the small directories hold
//! together, and which directory to delete to make room.

use vstd::prelude::*;
use crate::tree::{nodes_view, positions, rewalk_size, FileTree, NodeKind, NodeView};
use crate::tree_proofs::lemma_files_below_bound;

verus! {

/// Whether directories that hold nothing count as small.
#[derive(Clone, Copy, Debug, PartialEq, Eq, Structural)]
pub enum EmptyDirs {
    /// A directory counts only if its total size is above zero.
    Skip,
    /// A directory of total size zero counts too.
    Count,
}

/// Why a question has no answer.
#[derive(Clone, Copy, Debug, PartialEq, Eq, Structural)]
pub enum QueryError {
    /// No directory is large enough.
    NoMatch,
}

/// Whether `n` is a directory whose total size is at most `threshold`,
/// and above zero where `rule` asks for that.
pub open spec fn is_small_dir(n: NodeView, threshold: u64, rule: EmptyDirs) -> bool {
    &&& n.kind is Directory
    &&& n.total_size <= threshold
    &&& rule is Count || n.total_size > 0
}

/// The positions, in rising order, of the small directories among the
/// first `n` nodes.
pub open spec fn small_dirs_among(nodes: Seq<NodeView>, threshold: u64, rule: EmptyDirs, n: int) -> Seq<int>
    decreases n,
{
    if n <= 0 {
        Seq::empty()
    } else if is_small_dir(nodes[n - 1], threshold, rule) {
        small_dirs_among(nodes, threshold, rule, n - 1).push(n - 1)
    } else {
        small_dirs_among(nodes, threshold, rule, n - 1)
    }
}

/// The positions of all small directories, in the order of their creation.
pub open spec fn small_dirs(nodes: Seq<NodeView>, threshold: u64, rule: EmptyDirs) -> Seq<int> {
    small_dirs_among(nodes, threshold, rule, nodes.len() as int)
}

/// The sum of the total sizes of the small directories among the first
/// `n` nodes.
pub open spec fn small_sum_among(nodes: Seq<NodeView>, threshold: u64, rule: EmptyDirs, n: int) -> nat
    decreases n,
{
    if n <= 0 {
        0
    } else if is_small_dir(nodes[n - 1], threshold, rule) {
        small_sum_among(nodes, threshold, rule, n - 1) + nodes[n - 1].total_size
    } else {
        small_sum_among(nodes, threshold, rule, n - 1)
    }
}

/// The sum of the total sizes of all small directories.
pub open spec fn small_sum(nodes: Seq<NodeView>, threshold: u64, rule: EmptyDirs) -> nat {
    small_sum_among(nodes, threshold, rule, nodes.len() as int)
}

/// The space that is missing: what must be free, less what is free on a
/// disk of `capacity` of which `used` is taken. Zero or less when enough
/// is free already.
pub open spec fn deficit(capacity: int, required_free: int, used: int) -> int {
    required_free - (capacity - used)
}

/// Whether `n` is a directory whose total size is at least `least`.
pub open spec fn is_large_dir(n: NodeView, least: int) -> bool {
    n.kind is Directory && n.total_size >= least
}

/// Directories that hold nothing add nothing: the sum is the same under
/// both rules.
pub proof fn lemma_small_sum_ignores_rule(nodes: Seq<NodeView>, threshold: u64, n: int)
    ensures
        small_sum_among(nodes, threshold, EmptyDirs::Skip, n) == small_sum_among(
            nodes,
            threshold,
            EmptyDirs::Count,
            n,
        ),
    decreases n,
{
    if n > 0 {
        lemma_small_sum_ignores_rule(nodes, threshold, n - 1);
    }
}

/// The small directories together hold at most `threshold` each.
pub proof fn lemma_small_sum_bound(nodes: Seq<NodeView>, threshold: u64, rule: EmptyDirs, n: int)
    requires
        0 <= n,
    ensures
        small_sum_among(nodes, threshold, rule, n) <= n * threshold,
    decreases n,
{
    if n > 0 {
        lemma_small_sum_bound(nodes, threshold, rule, n - 1);
        assert((n - 1) * threshold + threshold == n * threshold) by (nonlinear_arith);
    }
}

/// Decides `is_small_dir` for a node.
fn small_dir(total_size: u128, kind: NodeKind, threshold: u64, rule: EmptyDirs) -> (r: bool)
    ensures
        r == (kind is Directory && total_size <= threshold && (rule is Count || total_size > 0)),
{
    let is_dir = match kind {
        NodeKind::Directory => true,
        NodeKind::File(_) => false,
    };
    let counts = match rule {
        EmptyDirs::Count => true,
        EmptyDirs::Skip => total_size > 0,
    };
    is_dir && total_size <= threshold as u128 && counts
}

/// The positions of the directories whose total size is at most
/// `threshold`, in the order of their creation. `rule` says whether a
/// directory of total size zero is one of them.
pub fn dirs_under_threshold(tree: &FileTree, threshold: u64, rule: EmptyDirs) -> (found: Vec<usize>)
    ensures
        positions(found@) == small_dirs(tree@.nodes, threshold, rule),
{
    let nodes = tree.nodes();
    let n: usize = nodes.len();
    let mut found: Vec<usize> = Vec::new();
    let mut j: usize = 0;
    while j < n
        invariant
            nodes_view(nodes@) == tree@.nodes,
            n == nodes@.len(),
            0 <= j <= n,
            positions(found@) == small_dirs_among(tree@.nodes, threshold, rule, j as int),
        decreases n - j,
    {
        assert(tree@.nodes[j as int] == nodes@[j as int]@);
        if small_dir(nodes[j].total_size, nodes[j].kind, threshold, rule) {
            assert(positions(found@.push(j)) =~= positions(found@).push(j as int));
            found.push(j);
        }
        j += 1;
    }
    found
}

/// The sum of the total sizes of the directories whose total size is at
/// most `threshold`. `rule` says whether a directory of total size zero
/// is one of them, which does not change the sum.
pub fn sum_under_threshold(tree: &FileTree, threshold: u64, rule: EmptyDirs) -> (sum: u128)
    ensures
        sum == small_sum(tree@.nodes, threshold, rule),
{
    let nodes = tree.nodes();
    let n: usize = nodes.len();
    let mut sum: u128 = 0;
    let mut j: usize = 0;
    while j < n
        invariant
            nodes_view(nodes@) == tree@.nodes,
            n == nodes@.len(),
            0 <= j <= n,
            sum == small_sum_among(tree@.nodes, threshold, rule, j as int),
        decreases n - j,
    {
        proof {
            assert(tree@.nodes[j as int] == nodes@[j as int]@);
            lemma_small_sum_bound(tree@.nodes, threshold, rule, j as int);
            assert(j * threshold <= 0xffff_ffff_ffff_ffff * 0xffff_ffff_ffff_ffff) by (nonlinear_arith)
                requires
                    0 <= j <= 0xffff_ffff_ffff_ffff,
                    0 <= threshold <= 0xffff_ffff_ffff_ffff,
            ;
        }
        if small_dir(nodes[j].total_size, nodes[j].kind, threshold, rule) {
            sum = sum + nodes[j].total_size;
        }
        j += 1;
    }
    sum
}

/// The space that must be freed so that `required_free` is free on a disk
/// of `capacity` that holds this tree; zero when enough is free already.
pub fn space_to_free(tree: &FileTree, capacity: u64, required_free: u64) -> (missing: u128)
    requires
        tree.wf(),
    ensures
        missing == if deficit(capacity as int, required_free as int, tree@.nodes[0].total_size as int) > 0 {
            deficit(capacity as int, required_free as int, tree@.nodes[0].total_size as int)
        } else {
            0
        },
{
    let used: u128 = tree.root().total_size;
    proof {
        tree.lemma_len_fits();
        lemma_files_below_bound(tree@.nodes, 0, tree@.nodes.len() as int);
        assert(tree@.nodes[0].total_size == rewalk_size(tree@.nodes, 0));
    }
    let needed: u128 = used + required_free as u128;
    if needed > capacity as u128 {
        needed - capacity as u128
    } else {
        0
    }
}

/// The total size of the smallest directory whose removal frees enough:
/// the least total size, among the directories, that is at least the
/// missing space. Fails when no directory is that large.
pub fn smallest_dir_to_free(tree: &FileTree, capacity: u64, required_free: u64) -> (r: Result<u128, QueryError>)
    requires
        tree.wf(),
    ensures
        match r {
            Ok(size) => {
                &&& exists|d: int|
                    0 <= d < tree@.nodes.len() && is_large_dir(
                        #[trigger] tree@.nodes[d],
                        deficit(capacity as int, required_free as int, tree@.nodes[0].total_size as int),
                    ) && tree@.nodes[d].total_size == size
                &&& forall|d: int|
                    0 <= d < tree@.nodes.len() && is_large_dir(
                        #[trigger] tree@.nodes[d],
                        deficit(capacity as int, required_free as int, tree@.nodes[0].total_size as int),
                    ) ==> size <= tree@.nodes[d].total_size
            },
            Err(QueryError::NoMatch) => forall|d: int|
                0 <= d < tree@.nodes.len() ==> !is_large_dir(
                    #[trigger] tree@.nodes[d],
                    deficit(capacity as int, required_free as int, tree@.nodes[0].total_size as int),
                ),
        },
{
    let missing = space_to_free(tree, capacity, required_free);
    let ghost least = deficit(capacity as int, required_free as int, tree@.nodes[0].total_size as int);
    let nodes = tree.nodes();
    let n: usize = nodes.len();
    let mut best: Option<u128> = None;
    let mut j: usize = 0;
    while j < n
        invariant
            nodes_view(nodes@) == tree@.nodes,
            n == nodes@.len(),
            0 <= j <= n,
            missing == if least > 0 {
                least
            } else {
                0
            },
            match best {
                Some(size) => {
                    &&& exists|d: int|
                        0 <= d < j && is_large_dir(#[trigger] tree@.nodes[d], least)
                            && tree@.nodes[d].total_size == size
                    &&& forall|d: int|
                        0 <= d < j && is_large_dir(#[trigger] tree@.nodes[d], least) ==> size
                            <= tree@.nodes[d].total_size
                },
                None => forall|d: int| 0 <= d < j ==> !is_large_dir(#[trigger] tree@.nodes[d], least),
            },
        decreases n - j,
    {
        assert(tree@.nodes[j as int] == nodes@[j as int]@);
        let is_dir = match nodes[j].kind {
            NodeKind::Directory => true,
            NodeKind::File(_) => false,
        };
        let total: u128 = nodes[j].total_size;
        if is_dir && total >= missing {
            let better = match best {
                Some(size) => total < size,
                None => true,
            };
            if better {
                best = Some(total);
            }
        }
        j += 1;
    }
    match best {
        Some(size) => Ok(size),
        None => Err(QueryError::NoMatch),
    }
}

} // verus!
