use vstd::prelude::*;
use crate::tftp_protocol::{BLOCK_SIZE, MAX_BLKSIZE};

verus! {

/// How many datagram sizes the probe tries.
pub const PROBE_COUNT: usize = 8;

/// Size of the send buffer that the probing socket asks for.
pub const PROBE_SEND_BUFFER: usize = 256 * 1024;

/// What the kernel said to one `send_to` of the probe.
#[derive(Debug, Clone, Copy, PartialEq, Eq, Structural)]
pub enum SendOutcome {
    /// The datagram was accepted.
    Sent,
    /// The call failed with this OS error number, 0 where there is none.
    Failed { raw_os_error: i32 },
}

/// What the probe does next.
#[derive(Debug, Clone, Copy, PartialEq, Eq, Structural)]
pub enum ProbeStep {
    /// Send a datagram of `size` bytes; it is try number `index`.
    Try { index: usize, size: usize },
    /// The probe has ended: this is the largest block size.
    Done { blksize: usize },
}

/// The datagram sizes that are tried, largest first.
pub open spec fn probe_sizes() -> Seq<usize> {
    seq![65468, 32768, 16384, 9216, 8192, 4096, 1024, 516]
}

/// The kernel refused the datagram for its size: `EMSGSIZE` (40 or 90) or
/// `ENOBUFS` (55).
pub open spec fn too_large(outcome: SendOutcome) -> bool {
    match outcome {
        SendOutcome::Sent => false,
        SendOutcome::Failed { raw_os_error } => raw_os_error == 40 || raw_os_error == 55
            || raw_os_error == 90,
    }
}

/// What follows the outcome of try number `index`: a size that the kernel
/// did not refuse for its size gives the block size, four bytes less; after
/// a refusal the next smaller size is tried, and after the smallest the
/// probe falls back to 512.
pub open spec fn probe_after(index: usize, outcome: SendOutcome) -> ProbeStep {
    if index >= PROBE_COUNT {
        ProbeStep::Done { blksize: BLOCK_SIZE }
    } else if !too_large(outcome) {
        ProbeStep::Done { blksize: (probe_sizes()[index as int] - 4) as usize }
    } else if index + 1 < PROBE_COUNT {
        ProbeStep::Try { index: (index + 1) as usize, size: probe_sizes()[index + 1] }
    } else {
        ProbeStep::Done { blksize: BLOCK_SIZE }
    }
}

/// The block size that a probe finds whose tries end as `outcomes` say:
/// that of the first try from `index` on which was not refused for its size,
/// and 512 where there is none.
pub open spec fn probe_result(outcomes: Seq<SendOutcome>, index: int) -> nat
    decreases PROBE_COUNT - index,
{
    if index < 0 || index >= PROBE_COUNT || index >= outcomes.len() {
        BLOCK_SIZE as nat
    } else if !too_large(outcomes[index]) {
        (probe_sizes()[index] - 4) as nat
    } else {
        probe_result(outcomes, index + 1)
    }
}

/// The size of try number `index`.
pub fn probe_size(index: usize) -> (size: usize)
    requires
        index < PROBE_COUNT,
    ensures
        size == probe_sizes()[index as int],
        516 <= size <= MAX_BLKSIZE + 4,
{
    if index == 0 {
        MAX_BLKSIZE + 4
    } else if index == 1 {
        32768
    } else if index == 2 {
        16384
    } else if index == 3 {
        9216
    } else if index == 4 {
        8192
    } else if index == 5 {
        4096
    } else if index == 6 {
        1024
    } else {
        516
    }
}

/// The first step of the probe: the largest size is tried.
pub fn probe_first() -> (step: ProbeStep)
    ensures
        step == (ProbeStep::Try { index: 0, size: probe_sizes()[0] }),
{
    ProbeStep::Try { index: 0, size: probe_size(0) }
}

/// The step after try number `index` ended as `outcome` says.
pub fn probe_next(index: usize, outcome: SendOutcome) -> (step: ProbeStep)
    ensures
        step == probe_after(index, outcome),
{
    if index >= PROBE_COUNT {
        return ProbeStep::Done { blksize: BLOCK_SIZE };
    }
    let refused = match outcome {
        SendOutcome::Sent => false,
        SendOutcome::Failed { raw_os_error } => raw_os_error == 40 || raw_os_error == 55
            || raw_os_error == 90,
    };
    if !refused {
        ProbeStep::Done { blksize: probe_size(index) - 4 }
    } else if index + 1 < PROBE_COUNT {
        ProbeStep::Try { index: index + 1, size: probe_size(index + 1) }
    } else {
        ProbeStep::Done { blksize: BLOCK_SIZE }
    }
}

/// The steps of a probe from try number `index` on lead to its result: as
/// long as the tries are refused for their size the next one is asked for,
/// and the step that ends the probe gives `probe_result`.
pub proof fn lemma_probe_steps(outcomes: Seq<SendOutcome>, index: usize)
    requires
        index < PROBE_COUNT,
        outcomes.len() == PROBE_COUNT,
    ensures
        match probe_after(index, outcomes[index as int]) {
            ProbeStep::Done { blksize } => blksize == probe_result(outcomes, index as int),
            ProbeStep::Try { index: next, size } => next == index + 1 && size == probe_sizes()[next as int]
                && probe_result(outcomes, index as int) == probe_result(outcomes, next as int),
        },
{
    if too_large(outcomes[index as int]) && index + 1 >= PROBE_COUNT {
        assert(probe_result(outcomes, index + 1) == BLOCK_SIZE);
    }
}

/// Whatever the kernel says, the probe finds a block size from 512 to
/// 65464.
pub proof fn lemma_probe_result_range(outcomes: Seq<SendOutcome>, index: int)
    ensures
        BLOCK_SIZE <= probe_result(outcomes, index) <= MAX_BLKSIZE,
    decreases PROBE_COUNT - index,
{
    if !(index < 0 || index >= PROBE_COUNT || index >= outcomes.len()) {
        if too_large(outcomes[index]) {
            lemma_probe_result_range(outcomes, index + 1);
        }
    }
}

} // verus!
