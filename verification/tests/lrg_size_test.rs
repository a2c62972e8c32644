use lrg::{Entry, Lrg, LrgOptions};

// The tree every test builds, sizes in bytes:
//
// testdir/
// ├── subdir/
// │   ├── subsubdir/
// │   │   ├── subsubsomefile   204800
// │   ├── link_somefile        -> ../somefile (11 bytes as a link)
// │   ├── subsmallerfile       20480
// │   ├── subsomefile          102400
// ├── evensmallerfile          10240
// ├── smallerfile              51200
// └── somefile                 1024000
fn build_testdir(root: &str) {
    let _ = fs_err::remove_dir_all(root);
    fs_err::create_dir_all(format!("{}/subdir/subsubdir", root)).expect("create dirs");
    fs_err::write(format!("{}/somefile", root), vec![0u8; 1024000]).expect("write");
    fs_err::write(format!("{}/smallerfile", root), vec![0u8; 51200]).expect("write");
    fs_err::write(format!("{}/evensmallerfile", root), vec![0u8; 10240]).expect("write");
    fs_err::write(format!("{}/subdir/subsomefile", root), vec![0u8; 102400]).expect("write");
    fs_err::write(format!("{}/subdir/subsmallerfile", root), vec![0u8; 20480]).expect("write");
    fs_err::write(format!("{}/subdir/subsubdir/subsubsomefile", root), vec![0u8; 204800])
        .expect("write");
    symlink::symlink_file("../somefile", format!("{}/subdir/link_somefile", root))
        .expect("link");
}

fn remove_testdir(root: &str) {
    let _ = fs_err::remove_dir_all(root);
}

fn test_entries_against_sizes(lrg: &mut Lrg, entries: &Vec<Entry>, sizes: &[u64]) {
    assert_eq!(entries.len(), sizes.len());
    for (i, entry) in entries.iter().enumerate() {
        assert_eq!(lrg.get_size(entry), sizes[i]);
    }
}

#[test]
fn test_basic_dir_file_sizes() {
    let root = "/tmp/lrg-size-basic/testdir";
    build_testdir(root);
    let mut lrg = Lrg::new(root, &LrgOptions::default());
    let entries = lrg.sort_descending().get_entries();
    test_entries_against_sizes(
        &mut lrg,
        &entries,
        &[1024000, 204800, 102400, 51200, 20480, 10240, 11],
    );
    remove_testdir(root);
}

#[test]
fn test_basic_file_file_size() {
    let root = "/tmp/lrg-size-file/testdir";
    build_testdir(root);
    let mut lrg = Lrg::new(&format!("{}/somefile", root), &LrgOptions::default());
    let entries = lrg.sort_descending().get_entries();
    test_entries_against_sizes(&mut lrg, &entries, &[1024000]);
    remove_testdir(root);
}

#[test]
fn test_basic_max_depth_file_size() {
    let root = "/tmp/lrg-size-maxdepth/testdir";
    build_testdir(root);
    let opts = LrgOptions { max_depth: 1, ..LrgOptions::default() };
    let mut lrg = Lrg::new(root, &opts);
    let entries = lrg.sort_descending().get_entries();
    test_entries_against_sizes(&mut lrg, &entries, &[1024000, 51200, 10240]);
    remove_testdir(root);
}

#[test]
fn test_basic_file_and_dir_size() {
    // The three directories each take one 4096-byte block.
    let root = "/tmp/lrg-size-dirs/testdir";
    build_testdir(root);
    let opts = LrgOptions { include_dirs: true, ..LrgOptions::default() };
    let mut lrg = Lrg::new(root, &opts);
    let entries = lrg.sort_descending().get_entries();
    test_entries_against_sizes(
        &mut lrg,
        &entries,
        &[1024000, 204800, 102400, 51200, 20480, 10240, 4096, 4096, 4096, 11],
    );
    remove_testdir(root);
}

#[test]
fn test_basic_link_size() {
    // Followed, the link resolves to its target's size.
    let root = "/tmp/lrg-size-links/testdir";
    build_testdir(root);
    let opts = LrgOptions { follow_links: true, ..LrgOptions::default() };
    let mut lrg = Lrg::new(root, &opts);
    let entries = lrg.sort_descending().get_entries();
    test_entries_against_sizes(
        &mut lrg,
        &entries,
        &[1024000, 1024000, 204800, 102400, 51200, 20480, 10240],
    );
    remove_testdir(root);
}

#[test]
fn test_min_depth_size() {
    let root = "/tmp/lrg-size-mindepth/testdir";
    build_testdir(root);
    let opts = LrgOptions { min_depth: 2, ..LrgOptions::default() };
    let mut lrg = Lrg::new(root, &opts);
    let entries = lrg.sort_descending().get_entries();
    test_entries_against_sizes(&mut lrg, &entries, &[204800, 102400, 20480, 11]);
    remove_testdir(root);
}
