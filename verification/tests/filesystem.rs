use elf_puzzles::listing::print_tree;
use elf_puzzles::query::{
    dirs_under_threshold, smallest_dir_to_free, space_to_free, sum_under_threshold, EmptyDirs,
    QueryError,
};
use elf_puzzles::transcript::{Event, ParseError};
use elf_puzzles::tree::{build_file_tree, execute_cd, FileTree, NodeKind, ReplayError};

fn lines(text: &[&str]) -> Vec<String> {
    text.iter().map(|l| l.to_string()).collect()
}

fn sample() -> Vec<String> {
    lines(&[
        "$ cd /",
        "$ ls",
        "dir a",
        "14848514 b.txt",
        "8504156 c.dat",
        "dir d",
        "$ cd a",
        "$ ls",
        "dir e",
        "29116 f",
        "2557 g",
        "62596 h.lst",
        "$ cd e",
        "$ ls",
        "584 i",
        "$ cd ..",
        "$ cd ..",
        "$ cd d",
        "$ ls",
        "4060174 j",
        "8033020 d.log",
        "5626152 d.ext",
        "7214296 k",
    ])
}

#[test]
fn root_holds_the_sum_of_two_files() {
    let tree = build_file_tree(&lines(&["$ cd /", "$ ls", "10 a.txt", "20 b.txt"])).unwrap();
    assert_eq!(tree.root().total_size, 30);
    assert_eq!(tree.len(), 3);
}

#[test]
fn revisited_directory_is_not_duplicated() {
    let tree =
        build_file_tree(&lines(&["$ cd /", "$ cd x", "5 f", "$ cd ..", "$ cd x", "7 g"])).unwrap();
    let named_x: Vec<_> = tree
        .nodes()
        .iter()
        .filter(|n| n.kind == NodeKind::Directory && n.name == "x")
        .collect();
    assert_eq!(named_x.len(), 1);
    assert_eq!(named_x[0].total_size, 12);
    assert_eq!(tree.root().total_size, 12);
}

#[test]
fn sample_directory_sizes() {
    let tree = build_file_tree(&sample()).unwrap();
    let sizes: Vec<u128> = tree
        .nodes()
        .iter()
        .filter(|n| n.is_dir())
        .map(|n| n.total_size)
        .collect();
    assert_eq!(sizes, vec![48381165, 94853, 584, 24933642]);
}

#[test]
fn sum_of_directories_under_threshold() {
    let tree = build_file_tree(&sample()).unwrap();
    assert_eq!(sum_under_threshold(&tree, 100000, EmptyDirs::Skip), 95437);
    assert_eq!(sum_under_threshold(&tree, 100000, EmptyDirs::Count), 95437);
}

#[test]
fn smallest_directory_that_frees_enough() {
    let tree = build_file_tree(&sample()).unwrap();
    assert_eq!(space_to_free(&tree, 70000000, 30000000), 8381165);
    assert_eq!(smallest_dir_to_free(&tree, 70000000, 30000000), Ok(24933642));
}

#[test]
fn a_directory_of_exactly_the_missing_size_is_enough() {
    let tree = build_file_tree(&lines(&["$ cd a", "60 f", "$ cd /", "40 g"])).unwrap();
    assert_eq!(space_to_free(&tree, 100, 60), 60);
    assert_eq!(smallest_dir_to_free(&tree, 100, 60), Ok(60));
}

#[test]
fn nothing_is_missing_on_a_large_disk() {
    let tree = build_file_tree(&sample()).unwrap();
    assert_eq!(space_to_free(&tree, 70000000, 10), 0);
    assert_eq!(smallest_dir_to_free(&tree, 70000000, 10), Ok(584));
}

#[test]
fn no_directory_frees_enough() {
    let tree = build_file_tree(&sample()).unwrap();
    assert_eq!(smallest_dir_to_free(&tree, 10, 48381166), Err(QueryError::NoMatch));
}

#[test]
fn parent_of_root_fails() {
    let mut tree = FileTree::new();
    assert_eq!(execute_cd(&mut tree, ".."), Err(ReplayError::NavigateAboveRoot));
    assert_eq!(tree.cursor(), 0);
    assert_eq!(tree.len(), 1);
    assert_eq!(
        build_file_tree(&lines(&["$ cd /", "$ cd .."])).err(),
        Some(ReplayError::NavigateAboveRoot)
    );
}

#[test]
fn parent_of_any_other_directory_is_one_level_up() {
    let mut tree = FileTree::new();
    assert_eq!(execute_cd(&mut tree, "a"), Ok(()));
    assert_eq!(execute_cd(&mut tree, "b"), Ok(()));
    let deep = tree.cursor();
    assert_eq!(tree.get(deep).depth, 2);
    assert_eq!(execute_cd(&mut tree, ".."), Ok(()));
    assert_eq!(Some(tree.cursor()), tree.get(deep).parent);
    assert_eq!(tree.get(tree.cursor()).depth, 1);
    assert_eq!(execute_cd(&mut tree, ".."), Ok(()));
    assert_eq!(tree.cursor(), 0);
    assert_eq!(tree.len(), 3);
}

#[test]
fn root_can_be_entered_from_anywhere() {
    let mut tree = FileTree::new();
    assert_eq!(execute_cd(&mut tree, "a"), Ok(()));
    assert_eq!(execute_cd(&mut tree, "/"), Ok(()));
    assert_eq!(tree.cursor(), 0);
    assert_eq!(tree.len(), 2);
    assert!(tree.root().is_root());
    assert!(!tree.get(1).is_root());
}

#[test]
fn unparseable_size_fails() {
    assert_eq!(
        build_file_tree(&lines(&["$ cd /", "12x4 a.txt"])).err(),
        Some(ReplayError::Parse(ParseError::SizeUnparseable))
    );
}

#[test]
fn unrecognized_line_fails() {
    assert_eq!(
        build_file_tree(&lines(&["$ cd /", "$ pwd"])).err(),
        Some(ReplayError::Parse(ParseError::UnrecognizedLine))
    );
}

#[test]
fn the_first_failing_line_decides() {
    assert_eq!(
        build_file_tree(&lines(&["$ cd ..", "x y"])).err(),
        Some(ReplayError::NavigateAboveRoot)
    );
    assert_eq!(
        build_file_tree(&lines(&["x y", "$ cd .."])).err(),
        Some(ReplayError::Parse(ParseError::SizeUnparseable))
    );
}

#[test]
fn empty_transcript_gives_the_root_alone() {
    let tree = build_file_tree(&Vec::new()).unwrap();
    assert_eq!(tree.len(), 1);
    assert_eq!(tree.root().name, "/");
    assert_eq!(tree.root().total_size, 0);
    assert_eq!(tree.cursor(), 0);
}

#[test]
fn listed_directories_are_not_created() {
    let tree = build_file_tree(&lines(&["$ ls", "dir a", "dir b"])).unwrap();
    assert_eq!(tree.len(), 1);
}

#[test]
fn a_file_and_a_directory_may_share_a_name() {
    let tree = build_file_tree(&lines(&["5 x", "$ cd x", "7 y"])).unwrap();
    assert_eq!(tree.len(), 4);
    assert_eq!(tree.get(1).kind, NodeKind::File(5));
    assert_eq!(tree.get(2).kind, NodeKind::Directory);
    assert_eq!(tree.get(2).total_size, 7);
    assert_eq!(tree.get(1).total_size, 0);
    assert_eq!(tree.root().total_size, 12);
}

#[test]
fn empty_directories_count_only_when_asked() {
    let tree = build_file_tree(&lines(&["$ cd /", "$ cd empty", "$ cd ..", "$ cd full", "3 f"]))
        .unwrap();
    assert_eq!(dirs_under_threshold(&tree, 10, EmptyDirs::Skip), vec![0, 2]);
    assert_eq!(dirs_under_threshold(&tree, 10, EmptyDirs::Count), vec![0, 1, 2]);
    assert_eq!(sum_under_threshold(&tree, 10, EmptyDirs::Skip), 6);
    assert_eq!(sum_under_threshold(&tree, 10, EmptyDirs::Count), 6);
}

#[test]
fn stored_totals_match_a_fresh_walk() {
    let tree = build_file_tree(&sample()).unwrap();
    for d in 0..tree.len() {
        assert_eq!(tree.get(d).total_size, tree.rewalk(d));
    }
    assert_eq!(tree.rewalk(3), 94853);
}

#[test]
fn root_total_is_the_sum_of_all_files() {
    let tree = build_file_tree(&sample()).unwrap();
    let mut sum: u128 = 0;
    for node in tree.nodes() {
        if let NodeKind::File(size) = node.kind {
            sum += size as u128;
        }
    }
    assert_eq!(tree.root().total_size, sum);
}

#[test]
fn totals_grow_beyond_sixty_four_bits() {
    let tree = build_file_tree(&lines(&[
        "18446744073709551615 a",
        "18446744073709551615 b",
    ]))
    .unwrap();
    assert_eq!(tree.root().total_size, 36893488147419103230);
}

#[test]
fn nodes_know_their_place() {
    let tree = build_file_tree(&sample()).unwrap();
    for (i, node) in tree.nodes().iter().enumerate() {
        assert_eq!(node.id, i);
        match node.parent {
            Some(p) => {
                assert!(p < i);
                assert!(tree.get(p).is_dir());
                assert_eq!(node.depth, tree.get(p).depth + 1);
            }
            None => assert_eq!(i, 0),
        }
    }
}

#[test]
fn content_of_a_directory() {
    let tree = build_file_tree(&sample()).unwrap();
    assert_eq!(tree.root().get_content(&tree), Some(vec![1, 2, 3, 9]));
    assert_eq!(tree.get(7).get_content(&tree), Some(vec![8]));
    assert_eq!(tree.get(1).get_content(&tree), None);
    let bare = build_file_tree(&lines(&["$ cd a"])).unwrap();
    assert_eq!(bare.get(1).get_content(&bare), None);
}

#[test]
fn lies_below_follows_the_parents() {
    let tree = build_file_tree(&sample()).unwrap();
    assert!(tree.lies_below(0, 8));
    assert!(tree.lies_below(3, 8));
    assert!(tree.lies_below(7, 8));
    assert!(!tree.lies_below(9, 8));
    assert!(!tree.lies_below(8, 8));
    assert!(!tree.lies_below(8, 3));
}

#[test]
fn find_dir_sees_directories_only() {
    let tree = build_file_tree(&lines(&["5 x", "$ cd y", "$ cd /"])).unwrap();
    assert_eq!(tree.find_dir(0, &"x".to_string()), None);
    assert_eq!(tree.find_dir(0, &"y".to_string()), Some(2));
    assert_eq!(tree.find_dir(2, &"y".to_string()), None);
}

#[test]
fn events_are_applied_one_by_one() {
    let mut tree = FileTree::new();
    assert_eq!(tree.apply(Event::List), Ok(()));
    assert_eq!(tree.apply(Event::DirEntry("a".to_string())), Ok(()));
    assert_eq!(tree.len(), 1);
    assert_eq!(tree.apply(Event::Enter("a".to_string())), Ok(()));
    assert_eq!(tree.apply(Event::FileEntry("f".to_string(), 9)), Ok(()));
    assert_eq!(tree.apply(Event::Leave), Ok(()));
    assert_eq!(tree.apply(Event::Leave), Err(ReplayError::NavigateAboveRoot));
    assert_eq!(tree.len(), 3);
    assert_eq!(tree.get(1).total_size, 9);
    assert_eq!(tree.root().total_size, 9);
    assert_eq!(tree.get(2).parent, Some(1));
}

#[test]
fn listing_of_the_sample() {
    let tree = build_file_tree(&sample()).unwrap();
    assert_eq!(
        print_tree(&tree),
        vec![
            " ┍/ (48381165)",
            " ├┄┄b.txt (14848514)",
            " └┄┄c.dat (8504156)",
            "  ┍a (94853)",
            "  ├┄┄f (29116)",
            "  ├┄┄g (2557)",
            "  └┄┄h.lst (62596)",
            "   ┍e (584)",
            "   └┄┄i (584)",
            "  ┍d (24933642)",
            "  ├┄┄j (4060174)",
            "  ├┄┄d.log (8033020)",
            "  ├┄┄d.ext (5626152)",
            "  └┄┄k (7214296)",
        ]
    );
}

#[test]
fn listing_leaves_out_directories_without_content() {
    let tree = build_file_tree(&lines(&["$ cd a", "$ cd b"])).unwrap();
    assert_eq!(print_tree(&tree), vec![" ┍/ (0)", "  ┍a (0)"]);
}
