//! The tree as lines of text.
//!
//! Every directory that holds anything gets a header line with its name
//! and total size, followed by one line for each file directly under it.
//! Directories come in the order of their creation, and so do the files
//! of one directory.

use vstd::prelude::*;
use vstd::string::StringExecFns;
use crate::text::{blanks, decimal_digits, decimal_string, spaces};
use crate::tree::{
    children, file_size, nodes_view, positions, ElfFile, FileTree, NodeKind, NodeView,
};
use crate::tree_proofs::lemma_children_in_range;

verus! {

/// The header line of the directory `dir`: its depth in blanks, the mark
/// ` ┍`, its name, and its total size in brackets.
pub open spec fn header_line(dir: NodeView) -> Seq<char> {
    blanks(dir.depth) + seq![' ', '┍'] + dir.name + seq![' ', '('] + decimal_digits(dir.total_size)
        + seq![')']
}

/// The line of the file `file` under the directory `dir`: the depth of
/// `dir` in blanks, the mark ` ├┄┄`, or ` └┄┄` for the last file of the
/// directory, the file's name, and its size in brackets.
pub open spec fn file_line(dir: NodeView, file: NodeView, last: bool) -> Seq<char> {
    blanks(dir.depth) + (if last {
        seq![' ', '└']
    } else {
        seq![' ', '├']
    }) + seq!['┄', '┄'] + file.name + seq![' ', '('] + decimal_digits(file_size(file)) + seq![')']
}

/// The files among the first `n` positions of `content`.
pub open spec fn files_among(nodes: Seq<NodeView>, content: Seq<int>, n: int) -> Seq<int>
    decreases n,
{
    if n <= 0 {
        Seq::empty()
    } else if nodes[content[n - 1]].kind is File {
        files_among(nodes, content, n - 1).push(content[n - 1])
    } else {
        files_among(nodes, content, n - 1)
    }
}

/// The files of `content`, in order.
pub open spec fn files_of(nodes: Seq<NodeView>, content: Seq<int>) -> Seq<int> {
    files_among(nodes, content, content.len() as int)
}

/// The lines of one directory: its header, then its files.
pub open spec fn content_lines(nodes: Seq<NodeView>, dir: NodeView, content: Seq<int>) -> Seq<Seq<char>> {
    let files = files_of(nodes, content);
    seq![header_line(dir)] + Seq::new(
        files.len(),
        |k: int| file_line(dir, nodes[files[k]], k == files.len() - 1),
    )
}

/// The lines of the directories among the first `n` nodes.
pub open spec fn tree_lines_among(nodes: Seq<NodeView>, n: int) -> Seq<Seq<char>>
    decreases n,
{
    if n <= 0 {
        Seq::empty()
    } else if nodes[n - 1].kind is Directory && children(nodes, n - 1).len() > 0 {
        tree_lines_among(nodes, n - 1) + content_lines(nodes, nodes[n - 1], children(nodes, n - 1))
    } else {
        tree_lines_among(nodes, n - 1)
    }
}

/// The lines of the whole tree.
pub open spec fn tree_lines(nodes: Seq<NodeView>) -> Seq<Seq<char>> {
    tree_lines_among(nodes, nodes.len() as int)
}

/// Lines of text as mathematical values.
pub open spec fn text_view(lines: Seq<String>) -> Seq<Seq<char>> {
    Seq::new(lines.len(), |i: int| lines[i]@)
}

/// Writes the header line of a directory.
fn header(dir: &ElfFile) -> (line: String)
    ensures
        line@ == header_line(dir@),
{
    proof {
        reveal_strlit(" ┍");
        reveal_strlit(" (");
        reveal_strlit(")");
        assert(" ┍"@ =~= seq![' ', '┍']);
        assert(" ("@ =~= seq![' ', '(']);
        assert(")"@ =~= seq![')']);
    }
    let mut line = spaces(dir.depth);
    line.append(" ┍");
    line.append(dir.name.as_str());
    line.append(" (");
    line.append(decimal_string(dir.total_size).as_str());
    line.append(")");
    line
}

/// Writes the line of a file under a directory.
fn entry(dir: &ElfFile, file: &ElfFile, last: bool) -> (line: String)
    ensures
        line@ == file_line(dir@, file@, last),
{
    proof {
        reveal_strlit(" └");
        reveal_strlit(" ├");
        reveal_strlit("┄┄");
        reveal_strlit(" (");
        reveal_strlit(")");
        assert(" └"@ =~= seq![' ', '└']);
        assert(" ├"@ =~= seq![' ', '├']);
        assert("┄┄"@ =~= seq!['┄', '┄']);
        assert(" ("@ =~= seq![' ', '(']);
        assert(")"@ =~= seq![')']);
    }
    let size: u64 = match file.kind {
        NodeKind::File(size) => size,
        NodeKind::Directory => 0,
    };
    let mut line = spaces(dir.depth);
    if last {
        line.append(" └");
    } else {
        line.append(" ├");
    }
    line.append("┄┄");
    line.append(file.name.as_str());
    line.append(" (");
    line.append(decimal_string(size as u128).as_str());
    line.append(")");
    line
}

/// Writes the lines of one directory: the header of `file`, then a line
/// for each file among the nodes at the positions `content`.
pub fn print_content(tree: &FileTree, file: &ElfFile, content: &Vec<usize>) -> (lines: Vec<String>)
    requires
        forall|k: int| 0 <= k < content@.len() ==> (#[trigger] content@[k]) < tree@.nodes.len(),
    ensures
        text_view(lines@) == content_lines(tree@.nodes, file@, positions(content@)),
{
    let nodes = tree.nodes();
    let mut files: Vec<usize> = Vec::new();
    let mut k: usize = 0;
    while k < content.len()
        invariant
            nodes_view(nodes@) == tree@.nodes,
            0 <= k <= content@.len(),
            forall|k: int| 0 <= k < content@.len() ==> (#[trigger] content@[k]) < tree@.nodes.len(),
            forall|i: int| 0 <= i < files@.len() ==> (#[trigger] files@[i]) < tree@.nodes.len(),
            positions(files@) == files_among(tree@.nodes, positions(content@), k as int),
        decreases content@.len() - k,
    {
        let j: usize = content[k];
        assert(tree@.nodes[j as int] == nodes@[j as int]@);
        if !nodes[j].is_dir() {
            assert(positions(files@.push(j)) =~= positions(files@).push(j as int));
            files.push(j);
        }
        k += 1;
    }
    let mut lines: Vec<String> = Vec::new();
    lines.push(header(file));
    let ghost all = positions(files@);
    let mut i: usize = 0;
    while i < files.len()
        invariant
            nodes_view(nodes@) == tree@.nodes,
            0 <= i <= files@.len(),
            all == positions(files@),
            forall|i: int| 0 <= i < files@.len() ==> (#[trigger] files@[i]) < tree@.nodes.len(),
            text_view(lines@) == seq![header_line(file@)] + Seq::new(
                i as nat,
                |k: int| file_line(file@, tree@.nodes[all[k]], k == all.len() - 1),
            ),
        decreases files@.len() - i,
    {
        let j: usize = files[i];
        assert(tree@.nodes[j as int] == nodes@[j as int]@);
        let line = entry(file, &nodes[j], i + 1 == files.len());
        assert(text_view(lines@.push(line)) =~= text_view(lines@).push(line@));
        lines.push(line);
        i += 1;
    }
    lines
}

/// Writes the tree as lines of text: for each directory that holds
/// anything, in the order of creation, its header and its files.
pub fn print_tree(file_tree: &FileTree) -> (lines: Vec<String>)
    requires
        file_tree.wf(),
    ensures
        text_view(lines@) == tree_lines(file_tree@.nodes),
{
    let nodes = file_tree.nodes();
    let n: usize = nodes.len();
    let mut lines: Vec<String> = Vec::new();
    let mut d: usize = 0;
    while d < n
        invariant
            nodes_view(nodes@) == file_tree@.nodes,
            file_tree.wf(),
            n == nodes@.len(),
            0 <= d <= n,
            text_view(lines@) == tree_lines_among(file_tree@.nodes, d as int),
        decreases n - d,
    {
        assert(file_tree@.nodes[d as int] == nodes@[d as int]@);
        if nodes[d].is_dir() {
            match nodes[d].get_content(file_tree) {
                Some(content) => {
                    proof {
                        lemma_children_in_range(file_tree@.nodes, d as int, n as int);
                        assert forall|k: int| 0 <= k < content@.len() implies (#[trigger] content@[k])
                            < n by {
                            assert(positions(content@)[k] == content@[k]);
                        }
                    }
                    let mut part = print_content(file_tree, &nodes[d], &content);
                    assert(text_view(lines@ + part@) =~= text_view(lines@) + text_view(part@));
                    lines.append(&mut part);
                },
                None => {},
            }
        }
        d += 1;
    }
    lines
}

} // verus!
