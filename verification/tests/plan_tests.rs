use copyd::plan::{find_link_target, DirectoryHandler, FsNode, SourceSpec};
use copyd::sparse::{SparseFileHandler, SparseRegion};

fn file(name: &str, size: u64) -> FsNode {
    FsNode::File {
        name: name.to_string(),
        size,
        nlink: 1,
        dev: 1,
        ino: 100,
        allocated: size,
    }
}

fn linked_file(name: &str, size: u64, ino: u64) -> FsNode {
    FsNode::File {
        name: name.to_string(),
        size,
        nlink: 2,
        dev: 1,
        ino,
        allocated: size,
    }
}

/// A recursive source with a subdirectory: two files and two directories
/// are planned, totals included.
#[test]
fn test_directory_traversal() {
    let tree = FsNode::Dir {
        name: "source".to_string(),
        children: vec![
            file("file1.txt", 13),
            FsNode::Dir {
                name: "subdir".to_string(),
                children: vec![file("file2.txt", 13)],
            },
        ],
    };
    let sources = vec![SourceSpec { path: "/t/source".to_string(), node: tree }];
    let plan = DirectoryHandler::analyze_sources(&sources, "/t/dest", true, false, true);

    assert_eq!(plan.total_files, 2);
    assert_eq!(plan.total_size, 26);
    assert_eq!(plan.directories.len(), 2);
    assert_eq!(plan.directories[0], "/t/dest/source");
    assert_eq!(plan.directories[1], "/t/dest/source/subdir");
    assert_eq!(plan.files.len(), 2);
    assert_eq!(plan.files[0].dest_path, "/t/dest/source/file1.txt");
    assert_eq!(plan.files[1].dest_path, "/t/dest/source/subdir/file2.txt");
}

/// A non-recursive run skips directory sources entirely.
#[test]
fn test_non_recursive_skips_directories() {
    let tree = FsNode::Dir { name: "d".to_string(), children: vec![file("f", 5)] };
    let sources = vec![SourceSpec { path: "/t/d".to_string(), node: tree }];
    let plan = DirectoryHandler::analyze_sources(&sources, "/t/dest", false, false, true);
    assert_eq!(plan.total_files, 0);
    assert_eq!(plan.directories.len(), 0);
}

/// Hard-link preservation: two entries sharing an inode share one class,
/// and the class table records the first-seen source once.
#[test]
fn test_recursive_directory_with_hard_link() {
    let tree = FsNode::Dir {
        name: "src".to_string(),
        children: vec![linked_file("f1", 3, 42), linked_file("f2", 3, 42)],
    };
    let sources = vec![SourceSpec { path: "/t/src".to_string(), node: tree }];
    let plan = DirectoryHandler::analyze_sources(&sources, "/t/dest", true, true, true);

    assert_eq!(plan.files.len(), 2);
    let k1 = plan.files[0].hard_links.unwrap();
    let k2 = plan.files[1].hard_links.unwrap();
    assert_eq!(k1, k2);
    assert_eq!(k1, (1, 42));
    assert_eq!(plan.hard_link_map.len(), 1);
    assert_eq!(plan.hard_link_map[0].0, (1, 42));
    assert_eq!(plan.hard_link_map[0].1, "/t/src/f1");
}

/// Without link preservation no file carries a hard-link class.
#[test]
fn test_links_ignored_when_not_preserved() {
    let tree = FsNode::Dir {
        name: "src".to_string(),
        children: vec![linked_file("f1", 3, 42), linked_file("f2", 3, 42)],
    };
    let sources = vec![SourceSpec { path: "/t/src".to_string(), node: tree }];
    let plan = DirectoryHandler::analyze_sources(&sources, "/t/dest", true, false, true);
    assert!(plan.files[0].hard_links.is_none());
    assert!(plan.files[1].hard_links.is_none());
    assert_eq!(plan.hard_link_map.len(), 0);
}

/// Idempotent planning: the planner is pure, so running it twice over the
/// same recorded tree yields the same plan, and re-creating a directory
/// that already exists is no error.
#[test]
fn test_idempotent_directory_creation() {
    let build = || {
        let tree = FsNode::Dir {
            name: "source".to_string(),
            children: vec![
                file("a", 1),
                FsNode::Dir { name: "inner".to_string(), children: vec![file("b", 2)] },
            ],
        };
        let sources = vec![SourceSpec { path: "/t/source".to_string(), node: tree }];
        DirectoryHandler::analyze_sources(&sources, "/t/dest", true, false, true)
    };
    let first = build();
    let second = build();
    assert_eq!(first.directories, second.directories);
    assert_eq!(first.total_files, second.total_files);
    assert_eq!(first.total_size, second.total_size);
    // the second round only sees already-existing directories: not an error
    for _ in &second.directories {
        assert!(DirectoryHandler::classify_mkdir(true, false));
    }
}

#[test]
fn test_symlinks_collected_separately() {
    let tree = FsNode::Dir {
        name: "src".to_string(),
        children: vec![file("f", 1), FsNode::Symlink { name: "l".to_string() }],
    };
    let sources = vec![SourceSpec { path: "/t/src".to_string(), node: tree }];
    let plan = DirectoryHandler::analyze_sources(&sources, "/t/dest", true, false, true);
    assert_eq!(plan.files.len(), 1);
    assert_eq!(plan.symlinks.len(), 1);
    assert!(plan.symlinks[0].is_symlink);
    assert_eq!(plan.symlinks[0].dest_path, "/t/dest/src/l");
}

#[test]
fn test_estimate_completion_time() {
    // half of 100 MiB done in 5 seconds: 5 more seconds to go
    let eta = DirectoryHandler::estimate_completion_time(
        50 * 1024 * 1024,
        100 * 1024 * 1024,
        5000,
    );
    assert_eq!(eta, Some(5000));
    assert_eq!(DirectoryHandler::estimate_completion_time(0, 100, 5000), None);
    assert_eq!(DirectoryHandler::estimate_completion_time(100, 100, 5000), None);
}

/// Sparse detection: under 95% allocation counts as sparse.
#[test]
fn test_sparse_file_detection() {
    assert!(SparseFileHandler::is_sparse_file(512, 1024 * 1024));
    assert!(!SparseFileHandler::is_sparse_file(1024 * 1024, 1024 * 1024));
    assert!(!SparseFileHandler::is_sparse_file(0, 0));
    // exactly 95% allocated is not sparse; just below is
    assert!(!SparseFileHandler::is_sparse_file(95, 100));
    assert!(SparseFileHandler::is_sparse_file(94, 100));
}

/// Hole preservation at the plan level: data regions are exactly the
/// source's data runs, holes fill the gaps, and only data is written.
#[test]
fn test_sparse_regions_plan() {
    let runs = vec![(0u64, 5u64), (1024, 1030)];
    let regions = SparseFileHandler::detect_sparse_regions(&runs, 2048);
    assert_eq!(
        regions,
        vec![
            SparseRegion { offset: 0, length: 5, is_hole: false },
            SparseRegion { offset: 5, length: 1019, is_hole: true },
            SparseRegion { offset: 1024, length: 6, is_hole: false },
            SparseRegion { offset: 1030, length: 1018, is_hole: true },
        ]
    );
    // bytes written by a sparse copy: only the data runs
    assert_eq!(SparseFileHandler::data_bytes(&regions), 11);

    // a leading hole appears when the first run starts past zero
    let shifted = vec![(100u64, 200u64)];
    let regions2 = SparseFileHandler::detect_sparse_regions(&shifted, 200);
    assert_eq!(
        regions2,
        vec![
            SparseRegion { offset: 0, length: 100, is_hole: true },
            SparseRegion { offset: 100, length: 100, is_hole: false },
        ]
    );
}

/// A later member of a hard-link class finds its canonical copy's
/// destination; an unseen class finds none.
#[test]
fn test_find_link_target() {
    let copied = vec![((1u64, 42u64), "/t/dest/f1".to_string())];
    assert_eq!(find_link_target(&copied, (1, 42)), Some(&"/t/dest/f1".to_string()));
    assert_eq!(find_link_target(&copied, (1, 43)), None);
}
