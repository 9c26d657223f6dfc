use folder_sync::copy::{copy_files, Action, SyncError};
use folder_sync::prune::remove_extra_files;
use folder_sync::tree::{get_node_info, Entry, Node};

fn file(name: &str, path: &str, mtime: u64) -> Node {
    Node::File { name: name.to_string(), path: path.to_string(), mtime }
}

fn dir(name: &str, path: &str, mtime: u64, children: Vec<Node>) -> Node {
    Node::Directory { name: name.to_string(), path: path.to_string(), mtime, children }
}

fn dfile(name: &str, mtime: u64, readonly: bool) -> Entry {
    Entry::File { name: name.to_string(), mtime, readonly }
}

fn ddir(name: &str, mtime: u64, entries: Vec<Entry>) -> Entry {
    Entry::Dir { name: name.to_string(), mtime, entries }
}

#[test]
fn copy_into_empty_mirrors_source() {
    let src = vec![
        file("a.txt", "/s/a.txt", 5),
        dir("sub", "/s/sub", 3, vec![file("b.txt", "/s/sub/b.txt", 7)]),
    ];
    let dest: Vec<Entry> = Vec::new();
    let root = "/d".to_string();
    let (new_dest, acts) = copy_files(&src, &dest, &root).unwrap();

    assert_eq!(new_dest.len(), 2);
    assert!(matches!(&new_dest[0],
        Entry::File { name, mtime, readonly } if name == "a.txt" && *mtime == 5 && !readonly));
    match &new_dest[1] {
        Entry::Dir { name, entries, .. } => {
            assert_eq!(name, "sub");
            assert_eq!(entries.len(), 1);
            assert!(matches!(&entries[0],
                Entry::File { name, mtime, readonly } if name == "b.txt" && *mtime == 7 && !readonly));
        }
        _ => panic!("expected a directory"),
    }
    assert_eq!(acts.len(), 3);
    assert!(matches!(&acts[0],
        Action::CopyFile { src, dest } if src == "/s/a.txt" && dest == "/d/a.txt"));
    assert!(matches!(&acts[1], Action::CreateDir { dest } if dest == "/d/sub"));
    assert!(matches!(&acts[2],
        Action::CopyFile { src, dest } if src == "/s/sub/b.txt" && dest == "/d/sub/b.txt"));

    // Pruning the fresh mirror removes nothing.
    let (pruned, prune_acts) = remove_extra_files(&src, &new_dest, &root);
    assert_eq!(prune_acts.len(), 0);
    assert_eq!(pruned, new_dest);
}

#[test]
fn second_run_copies_nothing() {
    let src = vec![
        file("a.txt", "/s/a.txt", 5),
        dir("sub", "/s/sub", 3, vec![file("b.txt", "/s/sub/b.txt", 7)]),
    ];
    let dest: Vec<Entry> = Vec::new();
    let root = "/d".to_string();
    let (after_first, _) = copy_files(&src, &dest, &root).unwrap();
    let (after_second, acts) = copy_files(&src, &after_first, &root).unwrap();
    assert_eq!(after_second, after_first);
    for a in &acts {
        assert!(matches!(a, Action::SkipUpToDate { .. }));
    }
}

#[test]
fn stale_destination_file_is_overwritten() {
    let src = vec![file("a.txt", "/s/a.txt", 9)];
    let dest = vec![dfile("a.txt", 4, false)];
    let root = "/d".to_string();
    let (new_dest, acts) = copy_files(&src, &dest, &root).unwrap();
    assert_eq!(acts.len(), 1);
    assert!(matches!(&acts[0],
        Action::CopyFile { src, dest } if src == "/s/a.txt" && dest == "/d/a.txt"));
    assert!(matches!(&new_dest[0],
        Entry::File { name, mtime, readonly } if name == "a.txt" && *mtime == 9 && !readonly));
}

#[test]
fn equal_or_newer_destination_file_is_untouched() {
    let src = vec![file("a.txt", "/s/a.txt", 9)];
    let root = "/d".to_string();

    let equal = vec![dfile("a.txt", 9, false)];
    let (new_dest, acts) = copy_files(&src, &equal, &root).unwrap();
    assert_eq!(new_dest, equal);
    assert_eq!(acts.len(), 1);
    assert!(matches!(&acts[0], Action::SkipUpToDate { dest } if dest == "/d/a.txt"));

    let newer = vec![dfile("a.txt", 12, false)];
    let (new_dest, acts) = copy_files(&src, &newer, &root).unwrap();
    assert_eq!(new_dest, newer);
    assert_eq!(acts.len(), 1);
    assert!(matches!(&acts[0], Action::SkipUpToDate { dest } if dest == "/d/a.txt"));
}

#[test]
fn stale_readonly_file_is_removed_then_replaced() {
    let src = vec![file("a.txt", "/s/a.txt", 9)];
    let dest = vec![dfile("a.txt", 4, true)];
    let root = "/d".to_string();
    let (new_dest, acts) = copy_files(&src, &dest, &root).unwrap();
    assert_eq!(acts.len(), 2);
    assert!(matches!(&acts[0], Action::RemoveReadonly { dest } if dest == "/d/a.txt"));
    assert!(matches!(&acts[1],
        Action::CopyFile { src, dest } if src == "/s/a.txt" && dest == "/d/a.txt"));
    assert!(matches!(&new_dest[0],
        Entry::File { name, mtime, readonly } if name == "a.txt" && *mtime == 9 && !readonly));
}

#[test]
fn prune_removes_only_unmatched_entries() {
    let src = vec![
        file("a.txt", "/s/a.txt", 5),
        dir("sub", "/s/sub", 3, vec![]),
    ];
    let dest = vec![
        dfile("a.txt", 5, false),
        ddir("sub", 3, vec![]),
        dfile("extra.txt", 2, false),
        ddir("old_dir", 1, vec![dfile("inner.txt", 1, false)]),
    ];
    let root = "/d".to_string();
    let (kept, acts) = remove_extra_files(&src, &dest, &root);
    assert_eq!(kept.len(), 2);
    assert!(matches!(&kept[0], Entry::File { name, .. } if name == "a.txt"));
    assert!(matches!(&kept[1], Entry::Dir { name, .. } if name == "sub"));
    assert_eq!(acts.len(), 2);
    assert!(matches!(&acts[0], Action::RemoveFile { dest } if dest == "/d/extra.txt"));
    assert!(matches!(&acts[1], Action::RemoveDir { dest } if dest == "/d/old_dir"));
}

#[test]
fn prune_recurses_into_matched_directories() {
    let src = vec![dir("sub", "/s/sub", 3, vec![file("keep.txt", "/s/sub/keep.txt", 1)])];
    let dest = vec![ddir("sub", 3, vec![dfile("keep.txt", 1, false), dfile("drop.txt", 1, false)])];
    let root = "/d".to_string();
    let (kept, acts) = remove_extra_files(&src, &dest, &root);
    assert_eq!(acts.len(), 1);
    assert!(matches!(&acts[0], Action::RemoveFile { dest } if dest == "/d/sub/drop.txt"));
    match &kept[0] {
        Entry::Dir { entries, .. } => {
            assert_eq!(entries.len(), 1);
            assert!(matches!(&entries[0], Entry::File { name, .. } if name == "keep.txt"));
        }
        _ => panic!("expected a directory"),
    }
}

#[test]
fn prune_leaves_name_type_mismatch_alone() {
    // The name "sub" matches only a source file, and the destination holds a
    // directory: nothing is recursed into and nothing is removed.
    let src = vec![file("sub", "/s/sub", 5)];
    let dest = vec![ddir("sub", 3, vec![dfile("anything.txt", 1, false)])];
    let root = "/d".to_string();
    let (kept, acts) = remove_extra_files(&src, &dest, &root);
    assert_eq!(acts.len(), 0);
    assert_eq!(kept, dest);
}

#[test]
fn newer_source_overwrites_and_flag_prunes_stale_file() {
    // Source holds docs/readme.txt, newer than its destination counterpart;
    // the destination also holds docs/old.txt, absent from the source.
    let src = vec![dir(
        "docs",
        "/s/docs",
        3,
        vec![file("readme.txt", "/s/docs/readme.txt", 10)],
    )];
    let dest = vec![ddir(
        "docs",
        3,
        vec![dfile("readme.txt", 5, false), dfile("old.txt", 5, false)],
    )];
    let root = "/d".to_string();

    let (after_copy, copy_acts) = copy_files(&src, &dest, &root).unwrap();
    assert_eq!(copy_acts.len(), 1);
    assert!(matches!(&copy_acts[0],
        Action::CopyFile { src, dest } if src == "/s/docs/readme.txt" && dest == "/d/docs/readme.txt"));

    let (after_prune, prune_acts) = remove_extra_files(&src, &after_copy, &root);
    assert_eq!(prune_acts.len(), 1);
    assert!(matches!(&prune_acts[0], Action::RemoveFile { dest } if dest == "/d/docs/old.txt"));
    match &after_prune[0] {
        Entry::Dir { entries, .. } => {
            assert_eq!(entries.len(), 1);
            assert!(matches!(&entries[0],
                Entry::File { name, mtime, .. } if name == "readme.txt" && *mtime == 10));
        }
        _ => panic!("expected a directory"),
    }
}

#[test]
fn copying_file_over_stale_directory_is_a_conflict() {
    let src = vec![file("x", "/s/x", 9)];
    let dest = vec![ddir("x", 4, vec![])];
    let root = "/d".to_string();
    let r = copy_files(&src, &dest, &root);
    assert!(matches!(r, Err(SyncError::NotAFile { path }) if path == "/d/x"));
}

#[test]
fn file_over_newer_directory_counts_as_up_to_date() {
    let src = vec![file("x", "/s/x", 3)];
    let dest = vec![ddir("x", 4, vec![])];
    let root = "/d".to_string();
    let (new_dest, acts) = copy_files(&src, &dest, &root).unwrap();
    assert_eq!(new_dest, dest);
    assert_eq!(acts.len(), 1);
    assert!(matches!(&acts[0], Action::SkipUpToDate { dest } if dest == "/d/x"));
}

#[test]
fn nonempty_directory_over_file_is_a_conflict() {
    let src = vec![dir("sub", "/s/sub", 3, vec![file("a", "/s/sub/a", 1)])];
    let dest = vec![dfile("sub", 8, false)];
    let root = "/d".to_string();
    let r = copy_files(&src, &dest, &root);
    assert!(matches!(r, Err(SyncError::NotADirectory { path }) if path == "/d/sub"));
}

#[test]
fn empty_directory_over_file_is_left_alone() {
    let src = vec![dir("sub", "/s/sub", 3, vec![])];
    let dest = vec![dfile("sub", 8, false)];
    let root = "/d".to_string();
    let (new_dest, acts) = copy_files(&src, &dest, &root).unwrap();
    assert_eq!(new_dest, dest);
    assert_eq!(acts.len(), 0);
}

#[test]
fn empty_source_copies_nothing_and_prunes_everything() {
    let src: Vec<Node> = Vec::new();
    let root = "/d".to_string();

    let empty_dest: Vec<Entry> = Vec::new();
    let (new_dest, acts) = copy_files(&src, &empty_dest, &root).unwrap();
    assert_eq!(new_dest.len(), 0);
    assert_eq!(acts.len(), 0);

    let dest = vec![dfile("a.txt", 1, false), ddir("sub", 1, vec![])];
    let (new_dest, acts) = copy_files(&src, &dest, &root).unwrap();
    assert_eq!(new_dest, dest);
    assert_eq!(acts.len(), 0);

    let (kept, acts) = remove_extra_files(&src, &dest, &root);
    assert_eq!(kept.len(), 0);
    assert_eq!(acts.len(), 2);
    assert!(matches!(&acts[0], Action::RemoveFile { dest } if dest == "/d/a.txt"));
    assert!(matches!(&acts[1], Action::RemoveDir { dest } if dest == "/d/sub"));
}

#[test]
fn node_info_reports_both_variants() {
    let f = file("a.txt", "/s/a.txt", 5);
    let (kind, name, path, mtime, children) = get_node_info(&f);
    assert_eq!(kind, "File");
    assert_eq!(name, "a.txt");
    assert_eq!(path, "/s/a.txt");
    assert_eq!(mtime, 5);
    assert!(children.is_none());

    let d = dir("sub", "/s/sub", 3, vec![file("b.txt", "/s/sub/b.txt", 7)]);
    let (kind, name, path, mtime, children) = get_node_info(&d);
    assert_eq!(kind, "Directory");
    assert_eq!(name, "sub");
    assert_eq!(path, "/s/sub");
    assert_eq!(mtime, 3);
    assert_eq!(children.unwrap().len(), 1);
}
