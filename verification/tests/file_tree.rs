use ramag_tools::file_tree::{build_tree, count_files, file_tree_rows, flatten, FileNode, Row};

fn s(v: &[&str]) -> Vec<String> {
    v.iter().map(|x| x.to_string()).collect()
}

fn show(rows: &[Row]) -> Vec<String> {
    rows.iter()
        .map(|r| match r {
            Row::Dir { display_name, dir_path, depth, is_collapsed, file_count } => {
                format!("D{depth} {display_name} [{dir_path}] {is_collapsed} {file_count}")
            }
            Row::File { idx, depth } => format!("F{depth} #{idx}"),
        })
        .collect()
}

#[test]
fn directories_first_and_single_chains_merged() {
    let files = s(&["src/views/a.rs", "src/views/b.rs", "README.md", "src/lib.rs", "docs/x/y/z.md"]);
    let rows = file_tree_rows(&files, &Vec::new());
    assert_eq!(
        show(&rows),
        vec![
            "D0 docs/x/y [docs/x/y] false 1",
            "F1 #4",
            "D0 src [src] false 3",
            "D1 views [src/views] false 2",
            "F2 #0",
            "F2 #1",
            "F1 #3",
            "F0 #2",
        ]
    );
}

#[test]
fn collapsed_directories_hide_their_entries() {
    let files = s(&["src/views/a.rs", "src/lib.rs"]);
    let rows = file_tree_rows(&files, &s(&["src"]));
    assert_eq!(show(&rows), vec!["D0 src [src] true 2"]);
}

#[test]
fn later_file_replaces_and_file_blocks_directory() {
    let files = s(&["a", "a/b", "c/d", "c/d"]);
    let tree = build_tree(&files);
    assert_eq!(count_files(&tree), 2);
    let rows = flatten(&tree, &Vec::new());
    assert_eq!(show(&rows), vec!["D0 c [c] false 1", "F1 #3", "F0 #0"]);
    match &tree[0].1 {
        FileNode::File(i) => assert_eq!(*i, 0),
        FileNode::Dir(_) => panic!("a stays a file"),
    }
}

#[test]
fn names_sort_by_code_point() {
    let files = s(&["b", "B", "a", "ä"]);
    let tree = build_tree(&files);
    let names: Vec<&str> = tree.iter().map(|e| e.0.as_str()).collect();
    assert_eq!(names, vec!["B", "a", "b", "ä"]);
}
