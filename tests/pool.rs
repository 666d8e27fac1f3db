use http_server::{Next, PoolClosed, PoolState};

#[test]
fn hundred_jobs_four_workers_each_once() {
    let mut pool = PoolState::new(4);
    for expected in 0..100u64 {
        assert_eq!(pool.submit(), Ok(expected));
    }
    let mut runs = vec![0u32; 100];
    let mut slots: Vec<Option<u64>> = vec![None; 4];
    let mut order = Vec::new();
    loop {
        let mut progressed = false;
        for w in 0..4 {
            if slots[w].is_none() {
                if let Next::Run(id) = pool.next_job(w) {
                    slots[w] = Some(id);
                    runs[id as usize] += 1;
                    order.push(id);
                    progressed = true;
                }
            }
        }
        let busy = slots.iter().filter(|s| s.is_some()).count();
        assert!(busy <= 4);
        for w in 0..4 {
            if slots[w].is_some() {
                pool.finish(w);
                slots[w] = None;
                progressed = true;
            }
        }
        if !progressed {
            break;
        }
    }
    assert!(runs.iter().all(|&n| n == 1));
    assert_eq!(order, (0..100u64).collect::<Vec<_>>());
}

#[test]
fn idle_worker_waits_while_open() {
    let mut pool = PoolState::new(2);
    assert_eq!(pool.next_job(0), Next::Wait);
    assert_eq!(pool.size(), 2);
    assert!(!pool.is_closed());
}

#[test]
fn shutdown_drains_queue_then_exits() {
    let mut pool = PoolState::new(2);
    assert_eq!(pool.submit(), Ok(0));
    assert_eq!(pool.submit(), Ok(1));
    assert_eq!(pool.submit(), Ok(2));
    pool.close();
    assert!(pool.is_closed());
    assert_eq!(pool.submit(), Err(PoolClosed));
    assert_eq!(pool.next_job(0), Next::Run(0));
    assert_eq!(pool.next_job(1), Next::Run(1));
    pool.finish(0);
    assert_eq!(pool.next_job(0), Next::Run(2));
    pool.finish(1);
    assert_eq!(pool.next_job(1), Next::Exit);
    pool.finish(0);
    assert_eq!(pool.next_job(0), Next::Exit);
}
