use minmax_sim::partition::assign_counts;

#[test]
fn shares_cover_total_exactly() {
    let counts = assign_counts(100, 7);
    assert_eq!(counts.len(), 7);
    let total: u64 = counts.iter().sum();
    assert_eq!(total, 100);
    for worker in 0..6 {
        assert_eq!(counts[worker], 14);
    }
    assert_eq!(counts[6], 16);
}

#[test]
fn single_worker_takes_all() {
    assert_eq!(assign_counts(10, 1), vec![10]);
    assert_eq!(assign_counts(0, 1), vec![0]);
}

#[test]
fn zero_total_gives_empty_shares() {
    assert_eq!(assign_counts(0, 3), vec![0, 0, 0]);
}

#[test]
fn more_workers_than_samples() {
    assert_eq!(assign_counts(5, 8), vec![0, 0, 0, 0, 0, 0, 0, 5]);
}

#[test]
fn exactly_one_worker_absorbs_the_leftover() {
    let counts = assign_counts(103, 10);
    let chunk = 103 / 10;
    let leftover = 103 % 10;
    let enlarged: Vec<usize> = (0..counts.len()).filter(|&i| counts[i] != chunk).collect();
    assert_eq!(enlarged, vec![9]);
    assert_eq!(counts[9], chunk + leftover);
    let total: u64 = counts.iter().sum();
    assert_eq!(total, 103);
}

#[test]
fn even_split_leaves_no_leftover() {
    let counts = assign_counts(100, 4);
    assert_eq!(counts, vec![25, 25, 25, 25]);
}
