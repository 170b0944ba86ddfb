use riemann_graphs::partition::worker_slots;

#[test]
fn slots_interleave_by_stride() {
    assert_eq!(worker_slots(0, 3, 10), vec![0, 3, 6, 9]);
    assert_eq!(worker_slots(1, 3, 10), vec![1, 4, 7]);
    assert_eq!(worker_slots(2, 3, 10), vec![2, 5, 8]);
}

#[test]
fn slots_cover_every_index_exactly_once() {
    let n = 7;
    let threads = 3;
    let mut all: Vec<usize> = Vec::new();
    for tid in 0..threads {
        all.extend(worker_slots(tid, threads, n));
    }
    all.sort();
    assert_eq!(all, (0..n).collect::<Vec<usize>>());
}

#[test]
fn coverage_holds_when_threads_divide_unevenly() {
    for n in 0..12 {
        for threads in 1..6 {
            let mut all: Vec<usize> = Vec::new();
            for tid in 0..threads {
                all.extend(worker_slots(tid, threads, n));
            }
            all.sort();
            assert_eq!(all, (0..n).collect::<Vec<usize>>());
        }
    }
}

#[test]
fn single_worker_takes_all_slots() {
    assert_eq!(worker_slots(0, 1, 5), vec![0, 1, 2, 3, 4]);
}

#[test]
fn excess_workers_get_no_slots() {
    assert_eq!(worker_slots(3, 5, 3), Vec::<usize>::new());
    assert_eq!(worker_slots(4, 5, 3), Vec::<usize>::new());
    assert_eq!(worker_slots(2, 5, 3), vec![2]);
}

#[test]
fn no_slots_when_no_rectangles() {
    assert_eq!(worker_slots(0, 2, 0), Vec::<usize>::new());
    assert_eq!(worker_slots(1, 2, 0), Vec::<usize>::new());
}
