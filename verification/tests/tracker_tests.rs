use ragcore::track::{update_index, Index};

#[test]
fn brand_new_source_is_submitted() {
    let idx = Index::new();
    assert!(idx.needs_reindex("/data/a.txt", 0));
    assert!(idx.needs_reindex("/data/a.txt", 1234));
}

#[test]
fn marked_source_is_not_resubmitted() {
    let mut idx = Index::new();
    update_index(&mut idx, "/data/a.txt", 1000);
    assert!(!idx.needs_reindex("/data/a.txt", 1000));
    assert!(!idx.needs_reindex("/data/a.txt", 999));
    assert!(idx.needs_reindex("/data/a.txt", 1001));
}

#[test]
fn updating_one_source_leaves_others_alone() {
    let mut idx = Index::new();
    update_index(&mut idx, "/data/a.txt", 100);
    update_index(&mut idx, "/data/b.txt", 200);
    update_index(&mut idx, "/data/a.txt", 300);
    assert_eq!(idx.len(), 2);
    assert!(!idx.needs_reindex("/data/a.txt", 300));
    assert!(idx.needs_reindex("/data/a.txt", 301));
    assert!(!idx.needs_reindex("/data/b.txt", 200));
}

#[test]
fn second_run_without_changes_processes_nothing() {
    // One ingestion run over two sources, then a second run with the
    // same modification times: the second run submits zero sources.
    let sources = vec![("/d/a.txt", 50u64), ("/d/b.md", 60u64)];
    let mut idx = Index::new();
    let mut first_run_processed = 0;
    for (path, mtime) in &sources {
        if idx.needs_reindex(path, *mtime) {
            first_run_processed += 1;
            update_index(&mut idx, path, *mtime);
        }
    }
    assert_eq!(first_run_processed, 2);
    let mut second_run_processed = 0;
    for (path, mtime) in &sources {
        if idx.needs_reindex(path, *mtime) {
            second_run_processed += 1;
            update_index(&mut idx, path, *mtime);
        }
    }
    assert_eq!(second_run_processed, 0);
}
