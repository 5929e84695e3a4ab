use pcopy::cli::Cli;
use pcopy::plan::{
    check_overwrites, get_total_size, plan_copy, CopyError, EntryKind, SourceStat, TreeEntry,
};

fn cli() -> Cli {
    Cli {
        source: "src".to_string(),
        destination: "dst".to_string(),
        recursive: true,
        preserve: false,
        force: false,
        exclude: None,
        test_mode: None,
    }
}

fn cli_excluding(patterns: &[&str]) -> Cli {
    let mut c = cli();
    c.exclude = Some(patterns.iter().map(|s| s.to_string()).collect());
    c
}

fn entry(rel: &str, kind: EntryKind, size: u64) -> TreeEntry {
    TreeEntry { rel_path: rel.to_string(), kind, size }
}

#[test]
fn single_file_into_directory_gets_source_name() {
    let plan = plan_copy("work/a.txt", "dstdir", SourceStat::File(5), true, false, &vec![], &cli())
        .unwrap();
    assert_eq!(plan.len(), 1);
    assert_eq!(plan[0].source_path, "work/a.txt");
    assert_eq!(plan[0].destination_path, "dstdir/a.txt");
    assert_eq!(plan[0].kind, EntryKind::File);
}

#[test]
fn single_file_onto_file_path_uses_it_exactly() {
    let plan = plan_copy("a.txt", "out.bin", SourceStat::File(5), false, false, &vec![], &cli())
        .unwrap();
    assert_eq!(plan.len(), 1);
    assert_eq!(plan[0].destination_path, "out.bin");
}

#[test]
fn recursive_copy_preserves_relative_structure() {
    let entries = vec![
        entry("a", EntryKind::Directory, 0),
        entry("a/b", EntryKind::Directory, 0),
        entry("a/b/c.txt", EntryKind::File, 3),
        entry("top.txt", EntryKind::File, 7),
    ];
    let plan =
        plan_copy("tree", "dstdir", SourceStat::Directory, true, true, &entries, &cli()).unwrap();
    assert_eq!(plan.len(), 5);
    assert_eq!(plan[0].destination_path, "dstdir/tree");
    assert_eq!(plan[0].kind, EntryKind::Directory);
    assert_eq!(plan[1].source_path, "tree/a");
    assert_eq!(plan[1].destination_path, "dstdir/tree/a");
    assert_eq!(plan[2].destination_path, "dstdir/tree/a/b");
    assert_eq!(plan[3].source_path, "tree/a/b/c.txt");
    assert_eq!(plan[3].destination_path, "dstdir/tree/a/b/c.txt");
    assert_eq!(plan[3].kind, EntryKind::File);
    assert_eq!(plan[4].destination_path, "dstdir/tree/top.txt");
}

#[test]
fn recursive_copy_onto_fresh_destination_uses_it_as_root() {
    let entries = vec![entry("f.txt", EntryKind::File, 1)];
    let plan =
        plan_copy("tree", "newdir", SourceStat::Directory, false, true, &entries, &cli()).unwrap();
    assert_eq!(plan[0].destination_path, "newdir");
    assert_eq!(plan[1].destination_path, "newdir/f.txt");
}

#[test]
fn directory_without_recursive_flag_fails() {
    let r = plan_copy("tree", "dstdir", SourceStat::Directory, true, false, &vec![], &cli());
    assert_eq!(r.unwrap_err(), CopyError::NotRecursive);
}

#[test]
fn missing_source_fails() {
    let r = plan_copy("ghost", "dstdir", SourceStat::Missing, false, false, &vec![], &cli());
    assert_eq!(r.unwrap_err(), CopyError::SourceNotFound);
}

#[test]
fn root_path_has_no_extractable_name() {
    let r = plan_copy("/", "dstdir", SourceStat::Directory, true, true, &vec![], &cli());
    assert_eq!(r.unwrap_err(), CopyError::InvalidName);
}

#[test]
fn excluded_source_plans_nothing() {
    let c = cli_excluding(&["work"]);
    let plan =
        plan_copy("work/a.txt", "dstdir", SourceStat::File(5), true, false, &vec![], &c).unwrap();
    assert!(plan.is_empty());
}

#[test]
fn excluded_entries_are_pruned_with_descendants() {
    let c = cli_excluding(&["skipme"]);
    let entries = vec![
        entry("keep.txt", EntryKind::File, 1),
        entry("skipme", EntryKind::Directory, 0),
        entry("skipme/inner.txt", EntryKind::File, 9),
    ];
    let plan = plan_copy("tree", "dstdir", SourceStat::Directory, true, true, &entries, &c)
        .unwrap();
    assert_eq!(plan.len(), 2);
    assert_eq!(plan[1].destination_path, "dstdir/tree/keep.txt");
}

#[test]
fn estimate_sums_exactly_the_planned_files() {
    let c = cli_excluding(&["skipme"]);
    let entries = vec![
        entry("a", EntryKind::Directory, 0),
        entry("a/x.bin", EntryKind::File, 100),
        entry("skipme.bin", EntryKind::File, 999),
        entry("a/y.bin", EntryKind::File, 23),
    ];
    let total = get_total_size("tree", SourceStat::Directory, true, &entries, &c);
    assert_eq!(total, 123);

    let plan = plan_copy("tree", "dstdir", SourceStat::Directory, true, true, &entries, &c)
        .unwrap();
    let mut planned: u64 = 0;
    for item in plan.iter().filter(|i| i.kind == EntryKind::File) {
        let e = entries
            .iter()
            .find(|e| format!("tree/{}", e.rel_path) == item.source_path)
            .unwrap();
        planned += e.size;
    }
    assert_eq!(total, planned);
}

#[test]
fn estimate_of_single_file_and_of_missing_source() {
    assert_eq!(get_total_size("a.txt", SourceStat::File(42), false, &vec![], &cli()), 42);
    let c = cli_excluding(&["a.txt"]);
    assert_eq!(get_total_size("a.txt", SourceStat::File(42), false, &vec![], &c), 0);
    assert_eq!(get_total_size("ghost", SourceStat::Missing, true, &vec![], &cli()), 0);
}

#[test]
fn estimate_of_directory_without_recursive_is_zero() {
    let entries = vec![entry("f", EntryKind::File, 10)];
    assert_eq!(get_total_size("tree", SourceStat::Directory, false, &entries, &cli()), 0);
}

#[test]
fn overwrite_detector_reports_existing_destinations() {
    let entries = vec![
        entry("a", EntryKind::Directory, 0),
        entry("a/x.bin", EntryKind::File, 1),
        entry("b.txt", EntryKind::File, 1),
    ];
    let plan =
        plan_copy("tree", "dstdir", SourceStat::Directory, true, true, &entries, &cli()).unwrap();
    let exists = vec![true, false, true, false];
    let over = check_overwrites(&plan, &exists);
    assert_eq!(over.len(), 2);
    assert_eq!(over[0].path, "dstdir/tree");
    assert!(over[0].is_dir);
    assert_eq!(over[1].path, "dstdir/tree/a/x.bin");
    assert!(!over[1].is_dir);
}

#[test]
fn estimate_saturates_instead_of_overflowing() {
    let entries = vec![
        entry("a.bin", EntryKind::File, u64::MAX),
        entry("b.bin", EntryKind::File, 7),
    ];
    let total = get_total_size("tree", SourceStat::Directory, true, &entries, &cli());
    assert_eq!(total, u64::MAX);
}
