use treeclean::cleaner::{clean_tree, CleanError};
use treeclean::tree::{FsEntry, FsNode, FsTree};

fn file(name: &str) -> FsEntry {
    FsEntry { name: name.to_string(), locked: false, node: FsNode::File(String::new()) }
}

fn locked_file(name: &str) -> FsEntry {
    FsEntry { name: name.to_string(), locked: true, node: FsNode::File(String::new()) }
}

fn config(text: &str) -> FsEntry {
    FsEntry { name: "cleanme".to_string(), locked: false, node: FsNode::File(text.to_string()) }
}

fn dir(name: &str, entries: Vec<FsEntry>) -> FsEntry {
    FsEntry {
        name: name.to_string(),
        locked: false,
        node: FsNode::Dir(FsTree { readable: true, entries }),
    }
}

fn root(entries: Vec<FsEntry>) -> FsTree {
    FsTree { readable: true, entries }
}

fn names(t: &FsTree) -> Vec<String> {
    t.entries.iter().map(|e| e.name.clone()).collect()
}

fn subtree<'a>(t: &'a FsTree, name: &str) -> &'a FsTree {
    for e in &t.entries {
        if e.name == name {
            match &e.node {
                FsNode::Dir(d) => return d,
                FsNode::File(_) => panic!("entry is a file"),
            }
        }
    }
    panic!("no such entry");
}

#[test]
fn cleans_file() {
    let t = root(vec![config("testfile"), file("testfile")]);
    let (out, fault) = clean_tree(t, &None);
    assert!(fault.is_none());
    assert_eq!(names(&out), vec!["cleanme".to_string()]);
}

#[test]
fn does_not_clean_file() {
    let t = root(vec![config(""), file("testfile")]);
    let (out, fault) = clean_tree(t, &None);
    assert!(fault.is_none());
    assert_eq!(names(&out), vec!["cleanme".to_string(), "testfile".to_string()]);
}

#[test]
fn cleans_glob() {
    let t = root(vec![config("testfile*"), file("testfile_1"), file("testfile_2")]);
    let (out, fault) = clean_tree(t, &None);
    assert!(fault.is_none());
    assert_eq!(names(&out), vec!["cleanme".to_string()]);
}

#[test]
fn cleans_dir() {
    // A trailing separator asks for a directory, which disappears together
    // with everything inside it.
    let t = root(vec![config("testdir/"), dir("testdir", vec![file("inside")])]);
    let (out, fault) = clean_tree(t, &None);
    assert!(fault.is_none());
    assert_eq!(names(&out), vec!["cleanme".to_string()]);
}

#[test]
fn dir_only_pattern_spares_a_file_of_that_name() {
    let t = root(vec![config("target/"), file("target")]);
    let (out, fault) = clean_tree(t, &None);
    assert!(fault.is_none());
    assert_eq!(names(&out), vec!["cleanme".to_string(), "target".to_string()]);
}

#[test]
fn nested_pattern_reaches_into_a_subdirectory() {
    // "sub/junk*" deletes inside `sub` without deleting `sub` itself.
    let t = root(vec![
        config("sub/junk*"),
        dir("sub", vec![file("junk_1"), file("keep")]),
    ]);
    let (out, fault) = clean_tree(t, &None);
    assert!(fault.is_none());
    assert_eq!(names(&out), vec!["cleanme".to_string(), "sub".to_string()]);
    assert_eq!(names(subtree(&out, "sub")), vec!["keep".to_string()]);
}

#[test]
fn pattern_can_delete_a_configuration_file() {
    // The scope is resolved before deletion, so the list still applies once.
    let t = root(vec![config("clean*"), file("cleanup_log")]);
    let (out, fault) = clean_tree(t, &None);
    assert!(fault.is_none());
    assert!(names(&out).is_empty());
}

#[test]
fn traverses() {
    let t = root(vec![dir("testdir", vec![config("testfile"), file("testfile")])]);
    let (out, fault) = clean_tree(t, &None);
    assert!(fault.is_none());
    assert_eq!(names(&out), vec!["testdir".to_string()]);
    assert_eq!(names(subtree(&out, "testdir")), vec!["cleanme".to_string()]);
}

#[test]
fn sibling_files_survive() {
    let t = root(vec![config("target"), file("keep_me"), file("target"), file("also_kept")]);
    let (out, fault) = clean_tree(t, &None);
    assert!(fault.is_none());
    assert_eq!(
        names(&out),
        vec!["cleanme".to_string(), "keep_me".to_string(), "also_kept".to_string()]
    );
}

#[test]
fn empty_local_config_suppresses_inherited_scope() {
    let t = root(vec![
        config("junk*"),
        file("junk_1"),
        dir("child", vec![config(""), file("junk_2")]),
    ]);
    let (out, fault) = clean_tree(t, &None);
    assert!(fault.is_none());
    assert_eq!(names(&out), vec!["cleanme".to_string(), "child".to_string()]);
    assert_eq!(
        names(subtree(&out, "child")),
        vec!["cleanme".to_string(), "junk_2".to_string()]
    );
}

#[test]
fn nested_config_overrides_not_merges() {
    let t = root(vec![
        config("old*"),
        dir("with_own", vec![config("new*"), file("old_style"), file("new_style")]),
        dir("plain", vec![file("old_style"), file("new_style")]),
    ]);
    let (out, fault) = clean_tree(t, &None);
    assert!(fault.is_none());
    assert_eq!(
        names(subtree(&out, "with_own")),
        vec!["cleanme".to_string(), "old_style".to_string()]
    );
    assert_eq!(names(subtree(&out, "plain")), vec!["new_style".to_string()]);
}

#[test]
fn unreadable_child_does_not_stop_siblings() {
    let bad = FsEntry {
        name: "bad".to_string(),
        locked: false,
        node: FsNode::Dir(FsTree { readable: false, entries: vec![file("junk_in_bad")] }),
    };
    let t = root(vec![config("junk*"), bad, dir("good", vec![file("junk_in_good")])]);
    let (out, fault) = clean_tree(t, &None);
    assert!(fault.is_none());
    assert_eq!(
        names(&out),
        vec!["cleanme".to_string(), "bad".to_string(), "good".to_string()]
    );
    assert_eq!(names(subtree(&out, "bad")), vec!["junk_in_bad".to_string()]);
    assert!(subtree(&out, "good").entries.is_empty());
}

#[test]
fn unreadable_root_reports_fault() {
    let t = FsTree { readable: false, entries: vec![file("anything")] };
    let (out, fault) = clean_tree(t, &Some(vec!["anything".to_string()]));
    assert!(matches!(fault, Some(CleanError::Unreadable)));
    assert_eq!(names(&out), vec!["anything".to_string()]);
}

#[test]
fn unreadable_subdirectory_on_a_pattern_path_reports_fault() {
    // Expanding "shut/junk" needs to enter `shut`, which cannot be read.
    let shut = FsEntry {
        name: "shut".to_string(),
        locked: false,
        node: FsNode::Dir(FsTree { readable: false, entries: vec![file("junk")] }),
    };
    let t = root(vec![config("shut/junk"), shut]);
    let (out, fault) = clean_tree(t, &None);
    assert!(matches!(fault, Some(CleanError::ExpandFailed(ref n)) if n == "shut"));
    assert_eq!(names(&out), vec!["cleanme".to_string(), "shut".to_string()]);
    assert_eq!(names(subtree(&out, "shut")), vec!["junk".to_string()]);
}

#[test]
fn write_protected_entry_reports_fault_and_stops_directory() {
    let t = root(vec![config("junk*"), file("junk_1"), locked_file("junk_2"), file("junk_3")]);
    let (out, fault) = clean_tree(t, &None);
    assert!(matches!(fault, Some(CleanError::RemoveFailed(ref n)) if n == "junk_2"));
    assert_eq!(
        names(&out),
        vec!["cleanme".to_string(), "junk_2".to_string(), "junk_3".to_string()]
    );
}

#[test]
fn faulting_child_does_not_stop_siblings() {
    let t = root(vec![
        config("junk*"),
        dir("first", vec![locked_file("junk_a"), file("junk_b")]),
        dir("second", vec![file("junk_c")]),
    ]);
    let (out, fault) = clean_tree(t, &None);
    assert!(fault.is_none());
    assert_eq!(
        names(subtree(&out, "first")),
        vec!["junk_a".to_string(), "junk_b".to_string()]
    );
    assert!(subtree(&out, "second").entries.is_empty());
}

#[test]
fn second_run_changes_nothing() {
    let t = root(vec![
        config("junk*"),
        file("junk_1"),
        file("keep"),
        dir("sub", vec![file("junk_2")]),
    ]);
    let (once, fault1) = clean_tree(t, &None);
    assert!(fault1.is_none());
    let first_names = names(&once);
    let sub_names = names(subtree(&once, "sub"));
    let (twice, fault2) = clean_tree(once, &None);
    assert!(fault2.is_none());
    assert_eq!(names(&twice), first_names);
    assert_eq!(names(subtree(&twice, "sub")), sub_names);
}

#[test]
fn invalid_pattern_is_skipped_silently() {
    let t = root(vec![config("[\njunk"), file("junk"), file("[")]);
    let (out, fault) = clean_tree(t, &None);
    assert!(fault.is_none());
    assert_eq!(names(&out), vec!["cleanme".to_string(), "[".to_string()]);
}

#[test]
fn inherited_scope_applies_without_local_config() {
    let t = root(vec![file("stale_cache")]);
    let (out, fault) = clean_tree(t, &Some(vec!["stale_*".to_string()]));
    assert!(fault.is_none());
    assert!(names(&out).is_empty());
}

#[test]
fn no_scope_anywhere_deletes_nothing() {
    let t = root(vec![file("a"), dir("b", vec![file("c")])]);
    let (out, fault) = clean_tree(t, &None);
    assert!(fault.is_none());
    assert_eq!(names(&out), vec!["a".to_string(), "b".to_string()]);
    assert_eq!(names(subtree(&out, "b")), vec!["c".to_string()]);
}
