use shm_mpi::{
    parse_process_count, ForkSide, LaunchError, MpiInformation, SpawnState, SpawnStep, DEFAULT_N,
};

/// Runs the fork tree for `n` without forking: every process of the tree is
/// followed to its end. Returns the ranks reached, the number of forks, and
/// the depth of the deepest process.
fn run_tree(n: usize) -> (Vec<usize>, usize, usize) {
    let mut pending = vec![(SpawnState::start(n), 0usize)];
    let mut ranks = Vec::new();
    let mut forks = 0;
    let mut depth = 0;
    while let Some((state, d)) = pending.pop() {
        match state.next_step() {
            SpawnStep::Fork => {
                forks += 1;
                pending.push((state.after_fork(ForkSide::Parent), d + 1));
                pending.push((state.after_fork(ForkSide::Child), d + 1));
            }
            SpawnStep::Finish(info) => {
                assert_eq!(info.n_processes, n);
                ranks.push(info.rank);
                depth = depth.max(d);
            }
        }
    }
    ranks.sort();
    (ranks, forks, depth)
}

fn args(list: &[&str]) -> Vec<String> {
    list.iter().map(|s| s.to_string()).collect()
}

#[test]
fn test_rank_numbers() {
    let (ranks, _, _) = run_tree(8);
    assert_eq!(ranks, (0..8).collect::<Vec<_>>());
}

#[test]
fn ranks_cover_every_listed_count() {
    for n in [1usize, 2, 3, 4, 5, 8, 16, 17, 33] {
        let (ranks, forks, depth) = run_tree(n);
        assert_eq!(ranks, (0..n).collect::<Vec<_>>());
        assert_eq!(forks, n - 1);
        let mut bound = 0;
        while (1usize << bound) < n {
            bound += 1;
        }
        assert!(depth <= bound, "n = {}: depth {} > {}", n, depth, bound);
    }
}

#[test]
fn ranks_cover_small_counts_exhaustively() {
    for n in 1usize..=200 {
        let (ranks, forks, _) = run_tree(n);
        assert_eq!(ranks, (0..n).collect::<Vec<_>>());
        assert_eq!(forks, n - 1);
    }
}

#[test]
fn one_process_needs_no_fork() {
    let s = SpawnState::start(1);
    assert_eq!(s.next_step(), SpawnStep::Finish(MpiInformation::new(1, 0)));
}

#[test]
fn two_processes_fork_once() {
    let s = SpawnState::start(2);
    assert_eq!(s.next_step(), SpawnStep::Fork);
    let parent = s.after_fork(ForkSide::Parent);
    let child = s.after_fork(ForkSide::Child);
    assert_eq!(parent.next_step(), SpawnStep::Finish(MpiInformation::new(2, 0)));
    assert_eq!(child.next_step(), SpawnStep::Finish(MpiInformation::new(2, 1)));
}

#[test]
fn child_takes_upper_half() {
    let s = SpawnState::start(8);
    let parent = s.after_fork(ForkSide::Parent);
    let child = s.after_fork(ForkSide::Child);
    assert_eq!((parent.rank, parent.remaining), (0, 4));
    assert_eq!((child.rank, child.remaining), (4, 4));
    let s = SpawnState::start(5);
    let parent = s.after_fork(ForkSide::Parent);
    let child = s.after_fork(ForkSide::Child);
    assert_eq!((parent.rank, parent.remaining), (0, 3));
    assert_eq!((child.rank, child.remaining), (3, 2));
}

#[test]
fn information_holds_its_fields() {
    let info = MpiInformation::new(17, 3);
    assert_eq!(info.n_processes, 17);
    assert_eq!(info.rank, 3);
}

#[test]
fn count_defaults_without_option() {
    assert_eq!(parse_process_count(&args(&["prog"])), Ok(DEFAULT_N));
    assert_eq!(parse_process_count(&args(&[])), Ok(8));
    assert_eq!(parse_process_count(&args(&["prog", "-x", "3"])), Ok(8));
}

#[test]
fn count_follows_option() {
    assert_eq!(parse_process_count(&args(&["prog", "-n", "4"])), Ok(4));
    assert_eq!(parse_process_count(&args(&["prog", "-n", "+17"])), Ok(17));
    assert_eq!(parse_process_count(&args(&["prog", "-v", "-n", "33", "x"])), Ok(33));
    assert_eq!(parse_process_count(&args(&["prog", "-n", "2", "-n", "9"])), Ok(2));
}

#[test]
fn count_option_errors() {
    assert_eq!(parse_process_count(&args(&["prog", "-n"])), Err(LaunchError::MissingCount));
    assert_eq!(parse_process_count(&args(&["prog", "-n", "four"])), Err(LaunchError::InvalidCount));
    assert_eq!(parse_process_count(&args(&["prog", "-n", "-3"])), Err(LaunchError::InvalidCount));
    assert_eq!(parse_process_count(&args(&["prog", "-n", ""])), Err(LaunchError::InvalidCount));
    assert_eq!(
        parse_process_count(&args(&["prog", "-n", "99999999999999999999999"])),
        Err(LaunchError::InvalidCount)
    );
    assert_eq!(parse_process_count(&args(&["prog", "-n", "0"])), Err(LaunchError::NoProcesses));
}
