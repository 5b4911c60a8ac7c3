use legion_prof_viewer::source::{
    confine_resolved, execute_list_files, list_files_target, path_starts_with, read_code_failure,
    read_code_target, recursive_file_tree, FsEntry,
};

fn file(name: &str, size: &str) -> FsEntry {
    FsEntry { name: name.to_string(), is_dir: false, size_label: size.to_string(), children: vec![] }
}

fn dir(name: &str, children: Vec<FsEntry>) -> FsEntry {
    FsEntry { name: name.to_string(), is_dir: true, size_label: String::new(), children }
}

const NOT_CONFIGURED: &str =
    "Code path not configured. Connect a code repo via the + menu, or launch with --code <dir>.";
const INVALID: &str = "Invalid path: must be relative with no '..' or absolute prefix.";

#[test]
fn tree_lists_directories_first_then_files_by_name() {
    let tree = vec![
        file("zeta.rs", "12B"),
        file("README", "1.0KB"),
        dir("src", vec![file("main.rs", "300B"), file("lib.cc", "2.0KB"), file("notes.bin", "5B")]),
        file("alpha.py", "7B"),
        dir("target", vec![file("out.rs", "1B")]),
        dir(".git", vec![file("config.toml", "1B")]),
        dir("docs", vec![]),
        file(".hidden", "1B"),
    ];
    let r = recursive_file_tree("/repo", &Some(tree)).unwrap();
    assert_eq!(
        r,
        "Files in `/repo`:\n\
         docs/\n\
         src/\n\
         \x20\x20lib.cc (2.0KB)\n\
         \x20\x20main.rs (300B)\n\
         alpha.py (7B)\n\
         zeta.rs (12B)\n"
    );
}

#[test]
fn tree_without_source_files_says_so() {
    let tree = vec![file("a.bin", "1B"), dir("build", vec![file("x.rs", "1B")])];
    let r = recursive_file_tree("/repo", &Some(tree)).unwrap();
    assert_eq!(r, "Files in `/repo`:\n  (no source files found)\n");
}

#[test]
fn tree_errors() {
    assert_eq!(recursive_file_tree("", &Some(vec![])), Err(NOT_CONFIGURED.to_string()));
    assert_eq!(recursive_file_tree("/nope", &None), Err("'/nope' is not a directory.".to_string()));
}

#[test]
fn tree_stops_below_six_levels() {
    let mut node = dir("d7", vec![file("deep.rs", "1B")]);
    for level in (1..7).rev() {
        node = dir(&format!("d{level}"), vec![node]);
    }
    let r = recursive_file_tree("r", &Some(vec![node])).unwrap();
    let expected = "Files in `r`:\n\
                    d1/\n\
                    \x20\x20d2/\n\
                    \x20\x20\x20\x20d3/\n\
                    \x20\x20\x20\x20\x20\x20d4/\n\
                    \x20\x20\x20\x20\x20\x20\x20\x20d5/\n\
                    \x20\x20\x20\x20\x20\x20\x20\x20\x20\x20d6/\n\
                    \x20\x20\x20\x20\x20\x20\x20\x20\x20\x20\x20\x20d7/\n\
                    \x20\x20(no source files found)\n";
    assert_eq!(r, expected);
}

#[test]
fn tree_truncates_at_five_hundred_files() {
    let files: Vec<FsEntry> = (0..505).map(|i| file(&format!("f{i:03}.rs"), "1B")).collect();
    let r = recursive_file_tree("r", &Some(files)).unwrap();
    let lines: Vec<&str> = r.lines().collect();
    assert_eq!(lines.len(), 1 + 500 + 1);
    assert_eq!(lines[1], "f000.rs (1B)");
    assert_eq!(lines[500], "f499.rs (1B)");
    assert_eq!(lines[501], "  ... (truncated at 500 entries)");
}

#[test]
fn list_files_targets() {
    assert_eq!(list_files_target("/repo", ""), Ok("/repo".to_string()));
    assert_eq!(list_files_target("/repo", "."), Ok("/repo".to_string()));
    assert_eq!(list_files_target("/repo", "src/ai"), Ok("/repo/src/ai".to_string()));
    assert_eq!(list_files_target("/repo/", "src"), Ok("/repo/src".to_string()));
    assert_eq!(list_files_target("/repo", "../etc"), Err(INVALID.to_string()));
    assert_eq!(list_files_target("/repo", "a/..b"), Err(INVALID.to_string()));
    assert_eq!(list_files_target("/repo", "/etc"), Err(INVALID.to_string()));
    assert_eq!(list_files_target("/repo", "\\etc"), Err(INVALID.to_string()));
    assert_eq!(list_files_target("", "src"), Err(NOT_CONFIGURED.to_string()));
}

#[test]
fn list_files_end_to_end() {
    let tree = vec![file("a.rs", "3B")];
    assert_eq!(
        execute_list_files("/repo", "src", &Some(tree)),
        Ok("Files in `/repo/src`:\na.rs (3B)\n".to_string())
    );
    assert_eq!(
        execute_list_files("/repo", "src", &None),
        Err("'/repo/src' is not a directory.".to_string())
    );
    assert_eq!(execute_list_files("/repo", "../x", &None), Err(INVALID.to_string()));
}

#[test]
fn read_code_targets() {
    assert_eq!(read_code_target("/repo", "src/main.rs"), Ok("/repo/src/main.rs".to_string()));
    assert_eq!(read_code_target("/repo", ""), Ok("/repo/".to_string()));
    assert_eq!(read_code_target("/repo", "../secret"), Err(INVALID.to_string()));
    assert_eq!(read_code_target("", "x"), Err(NOT_CONFIGURED.to_string()));
}

#[test]
fn path_prefix_is_by_whole_components() {
    assert!(path_starts_with("/a/b/c", "/a/b"));
    assert!(path_starts_with("/a/b", "/a/b"));
    assert!(path_starts_with("/a//b/./c", "/a/b/"));
    assert!(!path_starts_with("/a/bc", "/a/b"));
    assert!(!path_starts_with("/a", "/a/b"));
    assert!(!path_starts_with("a/b", "/a"));
    assert!(path_starts_with("./x/y", "."));
    assert!(path_starts_with("/anything", "/"));
}

#[test]
fn resolved_paths_must_stay_inside() {
    assert_eq!(confine_resolved("x.rs", &None), Ok(()));
    assert_eq!(
        confine_resolved("x.rs", &Some(("/repo/x.rs".to_string(), "/repo".to_string()))),
        Ok(())
    );
    assert_eq!(
        confine_resolved("link", &Some(("/home/u/.ssh/id".to_string(), "/repo".to_string()))),
        Err("Invalid path: 'link' resolves outside the configured code root.".to_string())
    );
    assert_eq!(
        confine_resolved("l", &Some(("/repository/a".to_string(), "/repo".to_string()))),
        Err("Invalid path: 'l' resolves outside the configured code root.".to_string())
    );
}

#[test]
fn read_failure_messages() {
    let tree = Ok("Files in `/r`:\na.rs (1B)\n".to_string());
    assert_eq!(
        read_code_failure("/r/b.rs", "No such file or directory (os error 2)", true, &tree),
        "Cannot read '/r/b.rs': No such file or directory (os error 2)\n\nAvailable files:\nFiles in `/r`:\na.rs (1B)\n"
    );
    assert_eq!(
        read_code_failure("/r/b.rs", "Permission denied (os error 13)", false, &tree),
        "Cannot read '/r/b.rs': Permission denied (os error 13)"
    );
    assert_eq!(
        read_code_failure("/r/b.rs", "gone", true, &Err("x".to_string())),
        "Cannot read '/r/b.rs': gone"
    );
}
