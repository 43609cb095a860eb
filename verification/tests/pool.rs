use vault_ingest::pool::{Processor, Task, WorkerStep};

fn asset_task(path: &str) -> Task {
    Task::Asset { path: path.to_string(), content: None }
}

fn document_task(path: &str) -> Task {
    Task::Document { path: path.to_string(), content: None }
}

/// Drains the pool with `workers` round-robin consumers; tasks whose index
/// is odd are reported as failures.
fn drain(pool: &mut Processor, workers: usize) -> usize {
    let mut exited = 0;
    let mut processed = 0usize;
    let mut active = vec![true; workers];
    while exited < workers {
        for w in 0..workers {
            if !active[w] {
                continue;
            }
            match pool.take_task() {
                WorkerStep::Run(_task) => {
                    pool.finish_task(processed % 2 == 0);
                    processed += 1;
                }
                WorkerStep::Exit => {
                    active[w] = false;
                    exited += 1;
                }
                WorkerStep::Wait => {}
            }
        }
    }
    processed
}

#[test]
fn pool_accounts_for_every_task_with_one_worker() {
    let mut pool = Processor::new();
    for i in 0..5 {
        pool.submit_task(asset_task(&format!("assets/{}.png", i)));
    }
    pool.mark_scan_complete();
    let processed = drain(&mut pool, 1);
    assert_eq!(processed, 5);
    assert_eq!(pool.total_submitted(), 5);
    assert_eq!(pool.total_completed() + pool.total_failed(), 5);
    assert_eq!(pool.queue_len(), 0);
}

#[test]
fn pool_accounts_for_every_task_with_many_workers() {
    let mut pool = Processor::new();
    for i in 0..13 {
        pool.submit_task(document_task(&format!("posts/{}.md", i)));
    }
    pool.mark_scan_complete();
    let processed = drain(&mut pool, 4);
    assert_eq!(processed, 13);
    assert_eq!(pool.total_completed(), 7);
    assert_eq!(pool.total_failed(), 6);
    assert_eq!(pool.total_completed() + pool.total_failed(), pool.total_submitted());
}

#[test]
fn empty_queue_before_scan_completion_means_wait() {
    let mut pool = Processor::new();
    assert!(matches!(pool.take_task(), WorkerStep::Wait));
    pool.submit_task(asset_task("assets/a.png"));
    assert!(matches!(pool.take_task(), WorkerStep::Run(_)));
    pool.finish_task(true);
    assert!(matches!(pool.take_task(), WorkerStep::Wait));
    pool.mark_scan_complete();
    assert!(matches!(pool.take_task(), WorkerStep::Exit));
}

#[test]
fn tasks_are_handed_out_in_submission_order_exactly_once() {
    let mut pool = Processor::new();
    pool.submit_task(asset_task("assets/first.png"));
    pool.submit_task(document_task("posts/second.md"));
    pool.mark_scan_complete();
    match pool.take_task() {
        WorkerStep::Run(Task::Asset { path, .. }) => assert_eq!(path, "assets/first.png"),
        other => panic!("expected the first task, got {:?}", other),
    }
    pool.finish_task(true);
    match pool.take_task() {
        WorkerStep::Run(Task::Document { path, .. }) => assert_eq!(path, "posts/second.md"),
        other => panic!("expected the second task, got {:?}", other),
    }
    pool.finish_task(false);
    assert!(matches!(pool.take_task(), WorkerStep::Exit));
    assert_eq!(pool.total_submitted(), 2);
    assert_eq!(pool.total_completed(), 1);
    assert_eq!(pool.total_failed(), 1);
}

#[test]
fn pool_with_no_tasks_terminates() {
    let mut pool = Processor::new();
    pool.mark_scan_complete();
    assert_eq!(drain(&mut pool, 3), 0);
    assert_eq!(pool.total_submitted(), 0);
    assert_eq!(pool.total_completed(), 0);
}
