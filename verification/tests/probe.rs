use tftp_rs::probe::{probe_first, probe_next, probe_size, ProbeStep, SendOutcome, PROBE_COUNT};

/// Runs the probe against a kernel that answers try number `i` with
/// `outcomes[i]`; gives the block size and the sizes that were tried.
fn run(outcomes: &[SendOutcome]) -> (usize, Vec<usize>) {
    let mut tried = Vec::new();
    let mut step = probe_first();
    loop {
        match step {
            ProbeStep::Try { index, size } => {
                tried.push(size);
                step = probe_next(index, outcomes[index]);
            }
            ProbeStep::Done { blksize } => return (blksize, tried),
        }
    }
}

const REFUSED_LINUX: SendOutcome = SendOutcome::Failed { raw_os_error: 90 };
const REFUSED_MAC: SendOutcome = SendOutcome::Failed { raw_os_error: 40 };
const NO_BUFFER: SendOutcome = SendOutcome::Failed { raw_os_error: 55 };
const CONN_REFUSED: SendOutcome = SendOutcome::Failed { raw_os_error: 111 };

#[test]
fn probe_sizes_descend() {
    let sizes: Vec<usize> = (0..PROBE_COUNT).map(probe_size).collect();
    assert_eq!(sizes, vec![65468, 32768, 16384, 9216, 8192, 4096, 1024, 516]);
}

#[test]
fn probe_first_try_accepted() {
    assert_eq!(probe_first(), ProbeStep::Try { index: 0, size: 65468 });
    assert_eq!(run(&[SendOutcome::Sent; 8]), (65464, vec![65468]));
}

#[test]
fn probe_takes_first_size_not_refused() {
    let mut outcomes = [REFUSED_MAC; 8];
    outcomes[1] = NO_BUFFER;
    outcomes[2] = REFUSED_LINUX;
    outcomes[3] = SendOutcome::Sent;
    assert_eq!(run(&outcomes), (9212, vec![65468, 32768, 16384, 9216]));
}

#[test]
fn probe_other_error_counts_as_accepted() {
    assert_eq!(run(&[CONN_REFUSED; 8]), (65464, vec![65468]));
    let mut outcomes = [REFUSED_LINUX; 8];
    outcomes[4] = SendOutcome::Failed { raw_os_error: 0 };
    assert_eq!(run(&outcomes).0, 8188);
    outcomes[4] = SendOutcome::Failed { raw_os_error: -1 };
    assert_eq!(run(&outcomes).0, 8188);
}

#[test]
fn probe_falls_back_when_every_size_is_refused() {
    let (blksize, tried) = run(&[REFUSED_LINUX; 8]);
    assert_eq!(blksize, 512);
    assert_eq!(tried.len(), 8);
}

#[test]
fn probe_smallest_size_gives_512() {
    let mut outcomes = [REFUSED_LINUX; 8];
    outcomes[7] = SendOutcome::Sent;
    assert_eq!(run(&outcomes), (512, vec![65468, 32768, 16384, 9216, 8192, 4096, 1024, 516]));
}

#[test]
fn probe_step_by_step() {
    assert_eq!(probe_next(0, REFUSED_LINUX), ProbeStep::Try { index: 1, size: 32768 });
    assert_eq!(probe_next(5, NO_BUFFER), ProbeStep::Try { index: 6, size: 1024 });
    assert_eq!(probe_next(6, SendOutcome::Sent), ProbeStep::Done { blksize: 1020 });
    assert_eq!(probe_next(7, REFUSED_MAC), ProbeStep::Done { blksize: 512 });
    assert_eq!(probe_next(8, SendOutcome::Sent), ProbeStep::Done { blksize: 512 });
    assert_eq!(probe_next(usize::MAX, REFUSED_MAC), ProbeStep::Done { blksize: 512 });
}

#[test]
fn probe_result_is_always_a_legal_block_size() {
    let kinds = [SendOutcome::Sent, REFUSED_LINUX, CONN_REFUSED];
    for a in kinds {
        for b in kinds {
            for c in kinds {
                let outcomes = [a, b, c, a, b, c, a, b];
                let (blksize, _) = run(&outcomes);
                assert!((512..=65464).contains(&blksize));
            }
        }
    }
}
