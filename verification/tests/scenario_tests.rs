use ninecopy::copy_model::copy_model;
use ninecopy::errors::CopyError;
use ninecopy::fs_model::{FsModel, FsNode};
use ninecopy::scan::WorkItem;
use ninecopy::scan_model::{scan_model, TreeEntry, TreeModel};
use ninecopy::stats::Accumulator;

/// The tree `/src/a.txt` (10 bytes), `/src/sub/b.txt` (20 bytes).
fn sample_tree() -> TreeModel {
    TreeModel {
        listings: vec![
            vec![
                TreeEntry::File { name: "a.txt".to_string(), size: 10 },
                TreeEntry::Dir { name: "sub".to_string(), id: 1 },
            ],
            vec![TreeEntry::File { name: "b.txt".to_string(), size: 20 }],
        ],
    }
}

/// A filesystem holding the sample tree's sources.
fn sample_sources() -> FsModel {
    let mut fs = FsModel::new();
    fs.ensure_dir("/src".to_string());
    fs.write_file("/src/a.txt".to_string(), vec![1u8; 10]);
    fs.ensure_dir("/src/sub".to_string());
    fs.write_file("/src/sub/b.txt".to_string(), vec![2u8; 20]);
    fs
}

fn file_bytes(fs: &FsModel, path: &str) -> Vec<u8> {
    fs.read_file(path).expect("expected a file at the path").clone()
}

#[test]
fn scan_finds_every_file_and_directory() {
    let tree = sample_tree();
    for threads in 1..=4usize {
        let (queue, acc) = scan_model(&tree, "/src", threads);
        assert_eq!(queue.len(), 3);
        assert_eq!(acc.file_count_found, 2);
        assert_eq!(acc.byte_count_found, 30);
        assert_eq!(acc.file_count_copied, 0);
        assert_eq!(acc.file_count_skipped, 0);
        let files = queue.iter().filter(|i| matches!(i, WorkItem::File(_))).count();
        let dirs = queue.iter().filter(|i| matches!(i, WorkItem::Directory(_))).count();
        assert_eq!(files, 2);
        assert_eq!(dirs, 1);
    }
}

#[test]
fn scan_terminates_on_empty_and_deep_trees() {
    // the degenerate tree: an empty root
    let empty = TreeModel { listings: vec![vec![]] };
    let (queue, acc) = scan_model(&empty, "/src", 3);
    assert_eq!(queue.len(), 0);
    assert_eq!(acc.file_count_found, 0);

    // a chain of nested directories, deeper than the worker pool
    let deep = TreeModel {
        listings: vec![
            vec![TreeEntry::Dir { name: "d1".to_string(), id: 1 }],
            vec![TreeEntry::Dir { name: "d2".to_string(), id: 2 }],
            vec![TreeEntry::Dir { name: "d3".to_string(), id: 3 }],
            vec![TreeEntry::File { name: "leaf.txt".to_string(), size: 5 }],
        ],
    };
    let (queue, acc) = scan_model(&deep, "/src", 2);
    assert_eq!(queue.len(), 4);
    assert_eq!(acc.file_count_found, 1);
    assert_eq!(acc.byte_count_found, 5);
    match &queue[3] {
        WorkItem::File(e) => assert_eq!(e.path, "/src/d1/d2/d3/leaf.txt"),
        _ => panic!("expected the deep file last"),
    }
}

#[test]
fn fresh_destination_copies_everything() {
    // source tree, empty /dst, no flags, two threads
    let tree = sample_tree();
    let (queue, found) = scan_model(&tree, "/src", 2);
    let mut fs = sample_sources();
    let total = copy_model(queue, "/src", "/dst", false, false, &mut fs, 2, found)
        .expect("the run must complete");
    assert_eq!(file_bytes(&fs, "/dst/a.txt"), vec![1u8; 10]);
    assert_eq!(file_bytes(&fs, "/dst/sub/b.txt"), vec![2u8; 20]);
    assert!(matches!(fs.lookup("/dst/sub"), Some(FsNode::Dir)));
    assert_eq!(total.file_count_copied, 2);
    assert_eq!(total.byte_count_copied, 30);
    assert_eq!(total.file_count_skipped, 0);
    assert_eq!(total.file_count_found, 2);
    assert_eq!(total.byte_count_found, 30);
}

#[test]
fn skip_leaves_existing_file_and_copies_the_rest() {
    // /dst/a.txt pre-exists with different content, skip set
    let tree = sample_tree();
    let (queue, found) = scan_model(&tree, "/src", 2);
    let mut fs = sample_sources();
    fs.write_file("/dst/a.txt".to_string(), vec![9u8; 4]);
    let total = copy_model(queue, "/src", "/dst", true, false, &mut fs, 2, found)
        .expect("the run must complete");
    assert_eq!(file_bytes(&fs, "/dst/a.txt"), vec![9u8; 4]);
    assert_eq!(file_bytes(&fs, "/dst/sub/b.txt"), vec![2u8; 20]);
    assert_eq!(total.file_count_copied, 1);
    assert_eq!(total.byte_count_copied, 20);
    assert_eq!(total.file_count_skipped, 1);
    assert_eq!(total.byte_count_skipped, 10);
}

#[test]
fn conflict_without_flags_aborts_with_cannot_overwrite() {
    // /dst/a.txt pre-exists, no flags
    let tree = sample_tree();
    let (queue, found) = scan_model(&tree, "/src", 2);
    let mut fs = sample_sources();
    fs.write_file("/dst/a.txt".to_string(), vec![9u8; 4]);
    let err = copy_model(queue, "/src", "/dst", false, false, &mut fs, 2, found).unwrap_err();
    assert_eq!(err, CopyError::CannotOverwrite("/dst/a.txt".to_string()));
    assert_eq!(err.message(), "Destination file already exists: /dst/a.txt");
    // the conflicting file keeps its old content
    assert_eq!(file_bytes(&fs, "/dst/a.txt"), vec![9u8; 4]);
}

#[test]
fn overwrite_replaces_existing_content() {
    let tree = sample_tree();
    let (queue, found) = scan_model(&tree, "/src", 2);
    let mut fs = sample_sources();
    fs.write_file("/dst/a.txt".to_string(), vec![9u8; 4]);
    let total = copy_model(queue, "/src", "/dst", false, true, &mut fs, 2, found)
        .expect("the run must complete");
    assert_eq!(file_bytes(&fs, "/dst/a.txt"), vec![1u8; 10]);
    assert_eq!(total.file_count_copied, 2);
    assert_eq!(total.file_count_skipped, 0);
}

#[test]
fn vanished_source_is_skipped_not_fatal() {
    // scanned but deleted before the copy phase: only a.txt remains
    let tree = sample_tree();
    let (queue, found) = scan_model(&tree, "/src", 2);
    let mut fs = FsModel::new();
    fs.write_file("/src/a.txt".to_string(), vec![1u8; 10]);
    let total = copy_model(queue, "/src", "/dst", false, false, &mut fs, 2, found)
        .expect("the run must complete");
    assert_eq!(total.file_count_copied, 1);
    assert_eq!(total.byte_count_copied, 10);
    assert_eq!(total.file_count_skipped, 1);
    assert_eq!(total.byte_count_skipped, 20);
    assert!(fs.read_file("/dst/sub/b.txt").is_none());
}

#[test]
fn fs_model_write_read_and_tolerant_mkdir() {
    let mut fs = FsModel::new();
    assert!(fs.lookup("/a").is_none());
    fs.write_file("/a".to_string(), vec![1, 2, 3]);
    assert_eq!(fs.read_file("/a").unwrap(), &vec![1, 2, 3]);
    // a second write replaces the content, as a real copy overwrites
    fs.write_file("/a".to_string(), vec![4]);
    assert_eq!(fs.read_file("/a").unwrap(), &vec![4]);
    // creating an existing directory is tolerated and changes nothing
    fs.ensure_dir("/d".to_string());
    fs.ensure_dir("/d".to_string());
    assert!(matches!(fs.lookup("/d"), Some(FsNode::Dir)));
    // ensure_dir never clobbers an existing file
    fs.ensure_dir("/a".to_string());
    assert_eq!(fs.read_file("/a").unwrap(), &vec![4]);
}

#[test]
fn empty_queue_copy_phase_terminates() {
    let mut fs = FsModel::new();
    for threads in 1..=4usize {
        let total = copy_model(
            Vec::new(),
            "/src",
            "/dst",
            false,
            false,
            &mut fs,
            threads,
            Accumulator::default(),
        )
        .expect("the empty run must complete");
        assert_eq!(total.file_count_copied, 0);
        assert_eq!(total.file_count_skipped, 0);
    }
}
