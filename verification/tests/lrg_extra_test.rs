use std::path::Path;

use lrg::{classify, Entry, EntryKind, ErrorCause, Lrg, LrgOptions, Severity, SortBy};

// The tree every test builds, sizes in bytes:
//
// testdir/
// ├── subdir/
// │   ├── subsubdir/
// │   │   ├── subsubsomefile   204800
// │   ├── link_somefile        -> ../somefile (11 bytes as a link)
// │   ├── subsmallerfile       20480
// │   ├── subsomefile          102400
// ├── evensmallerfile          10240
// ├── smallerfile              51200
// └── somefile                 1024000
fn build_testdir(root: &str) {
    let _ = fs_err::remove_dir_all(root);
    fs_err::create_dir_all(format!("{}/subdir/subsubdir", root)).expect("create dirs");
    fs_err::write(format!("{}/somefile", root), vec![0u8; 1024000]).expect("write");
    fs_err::write(format!("{}/smallerfile", root), vec![0u8; 51200]).expect("write");
    fs_err::write(format!("{}/evensmallerfile", root), vec![0u8; 10240]).expect("write");
    fs_err::write(format!("{}/subdir/subsomefile", root), vec![0u8; 102400]).expect("write");
    fs_err::write(format!("{}/subdir/subsmallerfile", root), vec![0u8; 20480]).expect("write");
    fs_err::write(format!("{}/subdir/subsubdir/subsubsomefile", root), vec![0u8; 204800])
        .expect("write");
    symlink::symlink_file("../somefile", format!("{}/subdir/link_somefile", root))
        .expect("link");
}

fn remove_testdir(root: &str) {
    let _ = fs_err::remove_dir_all(root);
}

fn names(entries: &[Entry]) -> Vec<String> {
    entries
        .iter()
        .map(|e| {
            Path::new(&e.path)
                .file_name()
                .expect("Cannot get filename")
                .to_str()
                .expect("filename is not unicode")
                .to_string()
        })
        .collect()
}

#[test]
fn test_default_options() {
    let opts = LrgOptions::default();
    assert_eq!(opts.min_depth, 0);
    assert_eq!(opts.max_depth, usize::MAX);
    assert!(!opts.follow_links);
    assert!(!opts.include_dirs);
}

#[test]
fn test_classifier_labels() {
    assert_eq!(classify(ErrorCause::NotFound), "Entity not found");
    assert_eq!(classify(ErrorCause::PermissionDenied), "Permission denied");
    assert_eq!(classify(ErrorCause::ConnectionRefused), "Connection refused");
    assert_eq!(classify(ErrorCause::ConnectionReset), "Connection reset");
    assert_eq!(classify(ErrorCause::ConnectionAborted), "Connection aborted");
    assert_eq!(classify(ErrorCause::NotConnected), "Not connected");
    assert_eq!(classify(ErrorCause::AddrInUse), "Address in use");
    assert_eq!(classify(ErrorCause::AddrNotAvailable), "Address not available");
    assert_eq!(classify(ErrorCause::BrokenPipe), "Broken pipe");
    assert_eq!(classify(ErrorCause::AlreadyExists), "Entity already exists");
    assert_eq!(classify(ErrorCause::WouldBlock), "Operation would block");
    assert_eq!(classify(ErrorCause::InvalidInput), "Invalid input parameter");
    assert_eq!(classify(ErrorCause::InvalidData), "Invalid data");
    assert_eq!(classify(ErrorCause::TimedOut), "Timed out");
    assert_eq!(classify(ErrorCause::WriteZero), "Write zero");
    assert_eq!(classify(ErrorCause::Interrupted), "Operation interrupted");
    assert_eq!(classify(ErrorCause::Other), "Other os error");
    assert_eq!(classify(ErrorCause::UnexpectedEof), "Unexpected end of file");
    assert_eq!(classify(ErrorCause::Unknown), "Unknown error");
}

#[test]
fn test_walkdir_error_str() {
    // The label for a real traversal error is the classifier's, not the
    // platform's rendering.
    let err = walkdir::WalkDir::new("/tmp/lrg-extra-errstr/testdir")
        .into_iter()
        .next()
        .expect("root is always reported")
        .expect_err("the root does not exist");
    assert_eq!(lrg::get_walkdir_error_str(&err), "Entity not found");
}

#[test]
fn test_missing_root_is_a_diagnostic() {
    // A root that does not exist is a per-node error, not a panic: the
    // collection is empty and one classified traversal diagnostic remains.
    let root = "/tmp/lrg-extra-missing/testdir";
    let lrg = Lrg::new(root, &LrgOptions::default());
    assert_eq!(lrg.get_entries().len(), 0);
    let diags = lrg.get_diagnostics();
    assert_eq!(diags.len(), 1);
    assert_eq!(diags[0].cause, ErrorCause::NotFound);
    assert_eq!(diags[0].severity, Severity::Traversal);
    assert_eq!(diags[0].label(), "Entity not found");
    assert_eq!(diags[0].path, root);
}

#[test]
fn test_get_size_degrades_to_zero() {
    // Size resolution never fails: a vanished node resolves to 0 and one
    // metadata diagnostic is recorded per failed query.
    let root = "/tmp/lrg-extra-vanish/testdir";
    build_testdir(root);
    let mut lrg = Lrg::new(root, &LrgOptions::default());
    let entries = lrg.get_entries();
    remove_testdir(root);
    assert_eq!(entries.len(), 7);
    for entry in &entries {
        assert_eq!(lrg.get_size(entry), 0);
    }
    let diags = lrg.get_diagnostics();
    assert_eq!(diags.len(), 7);
    for diag in &diags {
        assert_eq!(diag.severity, Severity::Metadata);
        assert_eq!(diag.cause, ErrorCause::NotFound);
    }
}

#[test]
fn test_get_size_exact() {
    let root = "/tmp/lrg-extra-exact/testdir";
    build_testdir(root);
    let mut lrg = Lrg::new(&format!("{}/somefile", root), &LrgOptions::default());
    let entries = lrg.get_entries();
    assert_eq!(entries.len(), 1);
    let size = lrg.get_size(&entries[0]);
    remove_testdir(root);
    assert_eq!(size, 1024000);
    assert_eq!(lrg.get_diagnostics().len(), 0);
}

#[test]
fn test_entry_kinds() {
    let root = "/tmp/lrg-extra-kinds/testdir";
    build_testdir(root);
    let opts = LrgOptions { include_dirs: true, ..LrgOptions::default() };
    let lrg = Lrg::new(root, &opts);
    let entries = lrg.get_entries();
    remove_testdir(root);
    let mut files = 0;
    let mut dirs = 0;
    let mut links = 0;
    for e in &entries {
        match e.kind {
            EntryKind::File => files += 1,
            EntryKind::Directory => dirs += 1,
            EntryKind::Symlink => links += 1,
        }
    }
    assert_eq!(files, 6);
    assert_eq!(dirs, 3);
    assert_eq!(links, 1);
}

#[test]
fn test_no_directories_without_include_dirs() {
    let root = "/tmp/lrg-extra-nodirs/testdir";
    build_testdir(root);
    let lrg = Lrg::new(root, &LrgOptions::default());
    let entries = lrg.get_entries();
    remove_testdir(root);
    assert_eq!(entries.len(), 7);
    for e in &entries {
        assert!(e.kind != EntryKind::Directory);
    }
}

#[test]
fn test_depths_within_window() {
    let root = "/tmp/lrg-extra-window/testdir";
    build_testdir(root);
    let opts = LrgOptions { min_depth: 1, max_depth: 2, include_dirs: true, follow_links: false };
    let lrg = Lrg::new(root, &opts);
    let entries = lrg.get_entries();
    remove_testdir(root);
    assert_eq!(entries.len(), 8);
    for e in &entries {
        assert!(1 <= e.depth && e.depth <= 2);
    }
}

#[test]
fn test_min_depth_excludes_parents_despite_include_dirs() {
    // Nodes above the minimum depth stay out even when directories are asked
    // for: only subsubdir and the four deeper-than-top-level nodes remain.
    let root = "/tmp/lrg-extra-parents/testdir";
    build_testdir(root);
    let opts = LrgOptions { min_depth: 2, include_dirs: true, ..LrgOptions::default() };
    let lrg = Lrg::new(root, &opts);
    let entries = lrg.get_entries();
    remove_testdir(root);
    assert_eq!(entries.len(), 5);
    for e in &entries {
        assert!(e.depth >= 2);
        let name = Path::new(&e.path).file_name().unwrap().to_str().unwrap().to_string();
        assert!(name != "testdir" && name != "subdir" && name != "somefile");
    }
}

#[test]
fn test_empty_depth_window() {
    // A maximum below the minimum admits nothing at all.
    let root = "/tmp/lrg-extra-emptywin/testdir";
    build_testdir(root);
    let opts = LrgOptions { min_depth: 3, max_depth: 1, include_dirs: true, follow_links: false };
    let lrg = Lrg::new(root, &opts);
    let entries = lrg.get_entries();
    remove_testdir(root);
    assert_eq!(entries.len(), 0);
    assert_eq!(lrg.get_diagnostics().len(), 0);
}

#[test]
fn test_dangling_link_size() {
    // Unfollowed, a dangling link is an entry and resolves to its own
    // length; followed, the missing target is a traversal error instead.
    let root = "/tmp/lrg-extra-dangling/testdir";
    let _ = fs_err::remove_dir_all(root);
    fs_err::create_dir_all(root).expect("create dir");
    symlink::symlink_file("missing-target", format!("{}/dangle", root)).expect("link");

    let mut plain = Lrg::new(root, &LrgOptions::default());
    let entries = plain.get_entries();
    assert_eq!(entries.len(), 1);
    assert_eq!(entries[0].kind, EntryKind::Symlink);
    assert_eq!(plain.get_size(&entries[0]), "missing-target".len() as u64);
    assert_eq!(plain.get_diagnostics().len(), 0);

    let opts = LrgOptions { follow_links: true, ..LrgOptions::default() };
    let followed = Lrg::new(root, &opts);
    let diags = followed.get_diagnostics();
    let _ = fs_err::remove_dir_all(root);
    assert_eq!(followed.get_entries().len(), 0);
    assert_eq!(diags.len(), 1);
    assert_eq!(diags[0].cause, ErrorCause::NotFound);
    assert_eq!(diags[0].severity, Severity::Traversal);
}

#[test]
fn test_sort_ascending_order() {
    let root = "/tmp/lrg-extra-ascending/testdir";
    build_testdir(root);
    let mut lrg = Lrg::new(root, &LrgOptions::default());
    let entries = lrg.sort_ascending().get_entries();
    remove_testdir(root);
    assert_eq!(
        names(&entries),
        vec![
            "link_somefile",
            "evensmallerfile",
            "subsmallerfile",
            "smallerfile",
            "subsomefile",
            "subsubsomefile",
            "somefile",
        ]
    );
}

#[test]
fn test_ascending_then_descending_reverses() {
    // With no ties among the sizes, ranking ascending and then descending
    // gives exactly reversed orders.
    let root = "/tmp/lrg-extra-reverse/testdir";
    build_testdir(root);
    let mut lrg = Lrg::new(root, &LrgOptions::default());
    let ascending = lrg.sort_ascending().get_entries();
    let descending = lrg.sort_descending().get_entries();
    remove_testdir(root);
    let mut reversed = ascending.clone();
    reversed.reverse();
    assert_eq!(names(&reversed), names(&descending));
}

#[test]
fn test_sort_ascending_is_idempotent() {
    let root = "/tmp/lrg-extra-idem/testdir";
    build_testdir(root);
    let mut lrg = Lrg::new(root, &LrgOptions::default());
    let first = lrg.sort_ascending().get_entries();
    let second = lrg.sort_ascending().get_entries();
    remove_testdir(root);
    assert_eq!(names(&first), names(&second));
}

#[test]
fn test_sort_by_dispatches() {
    let root = "/tmp/lrg-extra-dispatch/testdir";
    build_testdir(root);
    let mut by_mode = Lrg::new(root, &LrgOptions::default());
    let mut direct = Lrg::new(root, &LrgOptions::default());
    let asc_by_mode = by_mode.sort_by(&SortBy::Ascending).get_entries();
    let asc_direct = direct.sort_ascending().get_entries();
    let desc_by_mode = by_mode.sort_by(&SortBy::Descending).get_entries();
    let desc_direct = direct.sort_descending().get_entries();
    remove_testdir(root);
    assert_eq!(names(&asc_by_mode), names(&asc_direct));
    assert_eq!(names(&desc_by_mode), names(&desc_direct));
}

#[test]
fn test_sorting_keeps_entries() {
    // Sorting reorders, never adds or removes.
    let root = "/tmp/lrg-extra-keeps/testdir";
    build_testdir(root);
    let mut lrg = Lrg::new(root, &LrgOptions::default());
    let before = lrg.get_entries();
    let after = lrg.sort_descending().get_entries();
    remove_testdir(root);
    let mut before_names = names(&before);
    let mut after_names = names(&after);
    before_names.sort();
    after_names.sort();
    assert_eq!(before_names, after_names);
}

#[test]
fn test_repeated_get_entries_sees_same_order() {
    // The sorts mutate the collection in place, so a later read without a
    // new sort sees the same order.
    let root = "/tmp/lrg-extra-repeat/testdir";
    build_testdir(root);
    let mut lrg = Lrg::new(root, &LrgOptions::default());
    let sorted = lrg.sort_descending().get_entries();
    let again = lrg.get_entries();
    remove_testdir(root);
    assert_eq!(names(&sorted), names(&again));
}

#[test]
fn test_custom_comparator_size_descending_agrees() {
    // A custom comparator defined as size-descending agrees exactly with the
    // built-in descending sort: the sizes here have no ties.
    let size_of = |e: &Entry| fs_err::symlink_metadata(&e.path).map(|m| m.len()).unwrap_or(0);
    let root = "/tmp/lrg-extra-custom/testdir";
    build_testdir(root);
    let mut custom = Lrg::new(root, &LrgOptions::default());
    let mut builtin = Lrg::new(root, &LrgOptions::default());
    custom.sort_by_custom(|a: &Entry, b: &Entry| size_of(b).cmp(&size_of(a)));
    let custom_entries = custom.get_entries();
    let builtin_entries = builtin.sort_descending().get_entries();
    remove_testdir(root);
    assert_eq!(names(&custom_entries), names(&builtin_entries));
}

#[test]
fn test_custom_comparator_by_name() {
    let root = "/tmp/lrg-extra-byname/testdir";
    build_testdir(root);
    let mut lrg = Lrg::new(root, &LrgOptions::default());
    lrg.sort_by_custom(|a: &Entry, b: &Entry| a.path.cmp(&b.path));
    let entries = lrg.get_entries();
    remove_testdir(root);
    let got: Vec<String> = entries.iter().map(|e| e.path.clone()).collect();
    let mut expected = got.clone();
    expected.sort();
    assert_eq!(got, expected);
}

#[test]
fn test_empty_directory() {
    let root = "/tmp/lrg-extra-empty/testdir";
    let _ = fs_err::remove_dir_all(root);
    fs_err::create_dir_all(root).expect("create dir");
    let lrg = Lrg::new(root, &LrgOptions::default());
    let entries = lrg.get_entries();
    let _ = fs_err::remove_dir_all(root);
    assert_eq!(entries.len(), 0);
}
