use lingest::collect::{dry_run_records, record_of_read, select_files};
use lingest::filter::{matches_any, should_ignore, should_include};
use lingest::snapshot::{join_rel, lex_le_strs, FsEntry, FsEntryKind};
use lingest::tree::generate_tree;
use lingest::{assemble_result, process_snapshot, FileContent, LingestOptions};

fn file(name: &str) -> FsEntry {
    FsEntry { name: name.to_string(), kind: FsEntryKind::File }
}

fn dir(name: &str, children: Vec<FsEntry>) -> FsEntry {
    FsEntry { name: name.to_string(), kind: FsEntryKind::Dir(children) }
}

fn other(name: &str) -> FsEntry {
    FsEntry { name: name.to_string(), kind: FsEntryKind::Other }
}

fn strings(items: &[&str]) -> Vec<String> {
    items.iter().map(|s| s.to_string()).collect()
}

fn options(ignore: &[&str], includes: &[&str], no_tree: bool, dry_run: bool) -> LingestOptions {
    LingestOptions {
        cwd: ".".to_string(),
        output_path: "out.txt".to_string(),
        ignore_globs: strings(ignore),
        include_globs: strings(includes),
        no_tree,
        dry_run,
    }
}

#[test]
fn ignore_matches_one_pattern() {
    assert!(should_ignore(&"a.txt".to_string(), &strings(&["*.log", "*.txt"])));
    assert!(!should_ignore(&"a.md".to_string(), &strings(&["*.log", "*.txt"])));
    assert!(!should_ignore(&"a.md".to_string(), &strings(&[])));
}

#[test]
fn malformed_pattern_matches_nothing() {
    assert!(!matches_any(&"a".to_string(), &strings(&["["])));
    assert!(!matches_any(&"[".to_string(), &strings(&["["])));
    assert!(matches_any(&"[".to_string(), &strings(&["[", "*"])));
}

#[test]
fn empty_include_admits_everything() {
    assert!(should_include(&"whatever/deep/path.bin".to_string(), &strings(&[])));
    assert!(should_include(&"".to_string(), &strings(&[])));
    assert!(!should_include(&"a.txt".to_string(), &strings(&["*.md"])));
    assert!(should_include(&"a.md".to_string(), &strings(&["*.md"])));
}

#[test]
fn join_builds_relative_paths() {
    assert_eq!(join_rel(&"".to_string(), &"a".to_string()), "a");
    assert_eq!(join_rel(&"a/b".to_string(), &"c.txt".to_string()), "a/b/c.txt");
}

#[test]
fn lexicographic_name_order() {
    assert!(lex_le_strs(&"alpha".to_string(), &"beta".to_string()));
    assert!(!lex_le_strs(&"beta".to_string(), &"alpha".to_string()));
    assert!(lex_le_strs(&"a".to_string(), &"ab".to_string()));
    assert!(lex_le_strs(&"same".to_string(), &"same".to_string()));
}

#[test]
fn tree_and_selection_basic() {
    let root = vec![dir("a", vec![file("x.txt")]), file("b.txt")];
    let tree = generate_tree(&root, &strings(&["b.txt"]), &strings(&[]), &None);
    assert_eq!(tree, "├── a/\n│   └── x.txt\n");
    let files = select_files(&root, &strings(&["b.txt"]), &strings(&[]), &None);
    assert_eq!(files, vec!["a/x.txt".to_string()]);
}

#[test]
fn read_outcomes_become_records() {
    let ok1 = record_of_read("readme.md".to_string(), Some("# Title\n".to_string()));
    let ok2 = record_of_read("notes.md".to_string(), Some("notes".to_string()));
    let bad = record_of_read("img.bin".to_string(), None);
    assert_eq!(ok1.path, "readme.md");
    assert_eq!(ok1.content, "# Title\n");
    assert!(ok1.error.is_none());
    assert_eq!(ok2.content, "notes");
    assert_eq!(bad.path, "img.bin");
    assert_eq!(bad.content, "");
    assert_eq!(
        bad.error,
        Some("Could not be read as UTF-8 text. Might be binary or encoding issue.".to_string())
    );
    let result = assemble_result(None, vec![ok1, ok2, bad]);
    assert_eq!(result.processed_count, 3);
}

#[test]
fn deep_log_files_filtered_everywhere() {
    let root = vec![
        dir("a", vec![dir("b", vec![file("debug.log"), file("kept.txt")])]),
    ];
    let ignore = strings(&["**/*.log"]);
    let tree = generate_tree(&root, &ignore, &strings(&[]), &None);
    assert!(!tree.contains("debug.log"));
    assert!(tree.contains("kept.txt"));
    let files = select_files(&root, &ignore, &strings(&[]), &None);
    assert_eq!(files, vec!["a/b/kept.txt".to_string()]);
}

#[test]
fn output_artifact_never_appears() {
    let root = vec![file("data.txt"), file("out.txt")];
    let out = Some("out.txt".to_string());
    let tree = generate_tree(&root, &strings(&[]), &strings(&[]), &out);
    assert_eq!(tree, "└── data.txt\n");
    let files = select_files(&root, &strings(&[]), &strings(&[]), &out);
    assert_eq!(files, vec!["data.txt".to_string()]);
}

#[test]
fn dry_run_placeholder_is_exact() {
    let records = dry_run_records(&strings(&["a/x.txt", "b.md"]));
    assert_eq!(records.len(), 2);
    assert_eq!(records[0].path, "a/x.txt");
    assert_eq!(records[0].content, "[Dry Run] Content of a/x.txt would be here.");
    assert!(records[0].error.is_none());
    assert_eq!(records[1].content, "[Dry Run] Content of b.md would be here.");
}

#[test]
fn repeated_runs_are_identical() {
    let root = vec![
        dir("src", vec![file("lib.rs"), file("main.rs")]),
        file("README.md"),
        file("Cargo.toml"),
    ];
    let ignore = strings(&["*.toml"]);
    let inc = strings(&[]);
    let t1 = generate_tree(&root, &ignore, &inc, &None);
    let t2 = generate_tree(&root, &ignore, &inc, &None);
    assert_eq!(t1, t2);
    let f1 = select_files(&root, &ignore, &inc, &None);
    let f2 = select_files(&root, &ignore, &inc, &None);
    assert_eq!(f1, f2);
}

#[test]
fn directories_sort_before_files_and_names_ascend() {
    let root = vec![file("b.txt"), dir("z", vec![]), file("a.txt"), dir("y", vec![])];
    let tree = generate_tree(&root, &strings(&[]), &strings(&[]), &None);
    assert_eq!(tree, "├── y/\n├── z/\n├── a.txt\n└── b.txt\n");
}

#[test]
fn last_connector_follows_pre_filter_listing() {
    let root = vec![file("a.txt"), file("b.txt")];
    let tree = generate_tree(&root, &strings(&["b.txt"]), &strings(&[]), &None);
    assert_eq!(tree, "├── a.txt\n");
}

#[test]
fn ignored_directory_pruned_from_tree_only() {
    let root = vec![dir("logs", vec![file("x.txt")]), file("keep.md")];
    let ignore = strings(&["logs"]);
    let tree = generate_tree(&root, &ignore, &strings(&[]), &None);
    assert_eq!(tree, "└── keep.md\n");
    let files = select_files(&root, &ignore, &strings(&[]), &None);
    assert_eq!(files, vec!["logs/x.txt".to_string(), "keep.md".to_string()]);
}

#[test]
fn includes_gate_files_not_directories() {
    let root = vec![dir("a", vec![file("r.md")]), file("b.md"), file("c.txt")];
    let inc = strings(&["*.md"]);
    let tree = generate_tree(&root, &strings(&[]), &inc, &None);
    assert_eq!(tree, "├── a/\n│   └── r.md\n├── b.md\n");
    let files = select_files(&root, &strings(&[]), &inc, &None);
    assert_eq!(files, vec!["a/r.md".to_string(), "b.md".to_string()]);
}

#[test]
fn other_entries_count_for_connectors_only() {
    let root = vec![file("a.txt"), other("link")];
    let tree = generate_tree(&root, &strings(&[]), &strings(&[]), &None);
    assert_eq!(tree, "├── a.txt\n");
    let files = select_files(&root, &strings(&[]), &strings(&[]), &None);
    assert_eq!(files, vec!["a.txt".to_string()]);
}

#[test]
fn empty_snapshot_renders_nothing() {
    let root: Vec<FsEntry> = vec![];
    assert_eq!(generate_tree(&root, &strings(&[]), &strings(&[]), &None), "");
    assert!(select_files(&root, &strings(&[]), &strings(&[]), &None).is_empty());
}

#[test]
fn plan_obeys_tree_suppression() {
    let root = vec![file("a.txt")];
    let with_tree = process_snapshot(&root, &options(&[], &[], false, false), &None);
    assert_eq!(with_tree.tree, Some("└── a.txt\n".to_string()));
    assert_eq!(with_tree.files, vec!["a.txt".to_string()]);
    let without = process_snapshot(&root, &options(&[], &[], true, false), &None);
    assert!(without.tree.is_none());
    assert_eq!(without.files, vec!["a.txt".to_string()]);
}

#[test]
fn glob_grammar_forms() {
    assert!(matches_any(&"cat".to_string(), &strings(&["c?t"])));
    assert!(!matches_any(&"cart".to_string(), &strings(&["c?t"])));
    assert!(matches_any(&"a.txt".to_string(), &strings(&["[ab].txt"])));
    assert!(matches_any(&"b.txt".to_string(), &strings(&["[ab].txt"])));
    assert!(!matches_any(&"c.txt".to_string(), &strings(&["[ab].txt"])));
}

#[test]
fn dry_run_flow_reads_no_content() {
    let root = vec![dir("a", vec![file("x.txt")]), file("b.md")];
    let plan = process_snapshot(&root, &options(&[], &[], false, true), &None);
    let records = dry_run_records(&plan.files);
    let result = assemble_result(plan.tree, records);
    assert_eq!(result.processed_count, 2);
    assert_eq!(result.file_contents[0].path, "a/x.txt");
    assert_eq!(
        result.file_contents[0].content,
        "[Dry Run] Content of a/x.txt would be here."
    );
    assert_eq!(
        result.file_contents[1].content,
        "[Dry Run] Content of b.md would be here."
    );
    assert!(result.file_contents.iter().all(|r| r.error.is_none()));
}

#[test]
fn assembled_result_counts_all_records() {
    let records = vec![
        FileContent { path: "a".to_string(), content: "x".to_string(), error: None },
        FileContent {
            path: "b".to_string(),
            content: "".to_string(),
            error: Some("Could not be read as UTF-8 text. Might be binary or encoding issue.".to_string()),
        },
    ];
    let result = assemble_result(Some("tree".to_string()), records);
    assert_eq!(result.tree, Some("tree".to_string()));
    assert_eq!(result.processed_count, 2);
    assert_eq!(result.file_contents.len(), 2);
}
