use vstd::prelude::*;

use crate::error::AppError;

verus! {

/// Why a GPU run stopped.
#[derive(Clone, Copy, Debug, PartialEq, Eq, Structural)]
pub enum GpuFailure {
    /// No compatible adapter or device could be acquired.
    DeviceUnavailable,
    /// A result buffer could not be mapped for reading.
    BufferMapFailed,
}

/// Where a GPU run stands. The passes form a fixed chain: each one's inputs
/// are the previous one's outputs, and the host waits for each to finish.
#[derive(Clone, Copy, Debug, PartialEq, Eq, Structural)]
pub enum GpuStage {
    Idle,
    DeviceAcquired,
    BuffersAllocated,
    Pass1Dispatched,
    Pass1ReadBack,
    RowsScanned,
    Transposed,
    ColumnsScanned,
    TransposedBack,
    Pass3Dispatched,
    FinalReadBack,
    Done,
    Failed(GpuFailure),
}

/// What the host reports once the work of the current step has finished.
#[derive(Clone, Copy, Debug, PartialEq, Eq, Structural)]
pub enum GpuEvent {
    Completed,
    Failure(GpuFailure),
}

/// The work the host performs next.
#[derive(Clone, Copy, Debug, PartialEq, Eq, Structural)]
pub enum GpuAction {
    AcquireDevice,
    AllocateBuffers,
    DispatchPass1,
    ReadBackPass1,
    ScanRows,
    Transpose,
    ScanColumns,
    TransposeBack,
    DispatchPass3,
    ReadBackFinal,
    Finish,
    Report(GpuFailure),
}

/// The stage that follows a completed one.
pub open spec fn successor(s: GpuStage) -> GpuStage {
    match s {
        GpuStage::Idle => GpuStage::DeviceAcquired,
        GpuStage::DeviceAcquired => GpuStage::BuffersAllocated,
        GpuStage::BuffersAllocated => GpuStage::Pass1Dispatched,
        GpuStage::Pass1Dispatched => GpuStage::Pass1ReadBack,
        GpuStage::Pass1ReadBack => GpuStage::RowsScanned,
        GpuStage::RowsScanned => GpuStage::Transposed,
        GpuStage::Transposed => GpuStage::ColumnsScanned,
        GpuStage::ColumnsScanned => GpuStage::TransposedBack,
        GpuStage::TransposedBack => GpuStage::Pass3Dispatched,
        GpuStage::Pass3Dispatched => GpuStage::FinalReadBack,
        GpuStage::FinalReadBack => GpuStage::Done,
        GpuStage::Done => GpuStage::Done,
        GpuStage::Failed(f) => GpuStage::Failed(f),
    }
}

/// The work that leads out of a stage.
pub open spec fn work_after(s: GpuStage) -> GpuAction {
    match s {
        GpuStage::Idle => GpuAction::AcquireDevice,
        GpuStage::DeviceAcquired => GpuAction::AllocateBuffers,
        GpuStage::BuffersAllocated => GpuAction::DispatchPass1,
        GpuStage::Pass1Dispatched => GpuAction::ReadBackPass1,
        GpuStage::Pass1ReadBack => GpuAction::ScanRows,
        GpuStage::RowsScanned => GpuAction::Transpose,
        GpuStage::Transposed => GpuAction::ScanColumns,
        GpuStage::ColumnsScanned => GpuAction::TransposeBack,
        GpuStage::TransposedBack => GpuAction::DispatchPass3,
        GpuStage::Pass3Dispatched => GpuAction::ReadBackFinal,
        GpuStage::FinalReadBack => GpuAction::Finish,
        GpuStage::Done => GpuAction::Finish,
        GpuStage::Failed(f) => GpuAction::Report(f),
    }
}

/// A run that is over, well or not.
pub open spec fn is_terminal(s: GpuStage) -> bool {
    s is Done || s is Failed
}

/// The stage after `event`: a completed step moves one stage along the
/// chain, a failure ends the run with that failure, and a finished run stays
/// as it is.
pub open spec fn next_stage(s: GpuStage, event: GpuEvent) -> GpuStage {
    if is_terminal(s) {
        s
    } else {
        match event {
            GpuEvent::Completed => successor(s),
            GpuEvent::Failure(f) => GpuStage::Failed(f),
        }
    }
}

/// The work that starts a run.
pub fn gpu_start() -> (r: (GpuStage, GpuAction))
    ensures
        r == (GpuStage::Idle, work_after(GpuStage::Idle)),
{
    (GpuStage::Idle, GpuAction::AcquireDevice)
}

/// One decision of a GPU run: from the current stage and what the host
/// reports, the next stage and the work to do there. Failures are not retried.
pub fn gpu_step(stage: GpuStage, event: GpuEvent) -> (r: (GpuStage, GpuAction))
    ensures
        r.0 == next_stage(stage, event),
        r.1 == work_after(r.0),
{
    let next = match stage {
        GpuStage::Done => GpuStage::Done,
        GpuStage::Failed(f) => GpuStage::Failed(f),
        _ => match event {
            GpuEvent::Failure(f) => GpuStage::Failed(f),
            GpuEvent::Completed => match stage {
                GpuStage::Idle => GpuStage::DeviceAcquired,
                GpuStage::DeviceAcquired => GpuStage::BuffersAllocated,
                GpuStage::BuffersAllocated => GpuStage::Pass1Dispatched,
                GpuStage::Pass1Dispatched => GpuStage::Pass1ReadBack,
                GpuStage::Pass1ReadBack => GpuStage::RowsScanned,
                GpuStage::RowsScanned => GpuStage::Transposed,
                GpuStage::Transposed => GpuStage::ColumnsScanned,
                GpuStage::ColumnsScanned => GpuStage::TransposedBack,
                GpuStage::TransposedBack => GpuStage::Pass3Dispatched,
                GpuStage::Pass3Dispatched => GpuStage::FinalReadBack,
                _ => GpuStage::Done,
            },
        },
    };
    let action = match next {
        GpuStage::Idle => GpuAction::AcquireDevice,
        GpuStage::DeviceAcquired => GpuAction::AllocateBuffers,
        GpuStage::BuffersAllocated => GpuAction::DispatchPass1,
        GpuStage::Pass1Dispatched => GpuAction::ReadBackPass1,
        GpuStage::Pass1ReadBack => GpuAction::ScanRows,
        GpuStage::RowsScanned => GpuAction::Transpose,
        GpuStage::Transposed => GpuAction::ScanColumns,
        GpuStage::ColumnsScanned => GpuAction::TransposeBack,
        GpuStage::TransposedBack => GpuAction::DispatchPass3,
        GpuStage::Pass3Dispatched => GpuAction::ReadBackFinal,
        GpuStage::FinalReadBack => GpuAction::Finish,
        GpuStage::Done => GpuAction::Finish,
        GpuStage::Failed(f) => GpuAction::Report(f),
    };
    (next, action)
}

/// The error a failed run reports.
pub fn failure_error(f: GpuFailure) -> (e: AppError)
    ensures
        f is DeviceUnavailable ==> e is DeviceUnavailable,
        f is BufferMapFailed ==> e is BufferMapFailed,
{
    match f {
        GpuFailure::DeviceUnavailable => AppError::DeviceUnavailable,
        GpuFailure::BufferMapFailed => AppError::BufferMapFailed,
    }
}

/// The stage reached from `s` after `n` completed steps.
pub open spec fn after_completions(s: GpuStage, n: nat) -> GpuStage
    decreases n,
{
    if n == 0 {
        s
    } else {
        after_completions(next_stage(s, GpuEvent::Completed), (n - 1) as nat)
    }
}

/// A run whose every step completes is done after exactly eleven steps,
/// having passed only through stages that are not final; a finished run,
/// well or not, never moves again.
pub proof fn lemma_gpu_run_order(s: GpuStage, e: GpuEvent)
    ensures
        after_completions(GpuStage::Idle, 11) == GpuStage::Done,
        forall|n: nat| n < 11 ==> !is_terminal(#[trigger] after_completions(GpuStage::Idle, n)),
        is_terminal(s) ==> next_stage(s, e) == s,
{
    reveal_with_fuel(after_completions, 12);
    assert forall|n: nat| n < 11 implies !is_terminal(#[trigger] after_completions(GpuStage::Idle, n)) by {
        reveal_with_fuel(after_completions, 12);
        assert(n == 0 || n == 1 || n == 2 || n == 3 || n == 4 || n == 5 || n == 6 || n == 7 || n
            == 8 || n == 9 || n == 10);
    }
}

} // verus!
