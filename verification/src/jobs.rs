//! The tasks of one transfer: the copy loops that take files from the scan,
//! and the job that watches over them and ends it.

use crate::transfers::{with_file_ended, with_file_started, JobState};
use vstd::prelude::*;

verus! {

/// What a copy loop does next.
#[derive(Debug, Clone, Copy, PartialEq, Eq, Structural)]
pub enum WorkerAction {
    /// Take the next file from the scan.
    Fetch,
    /// Wait while paused.
    Checkpoint,
    /// Copy the file.
    Copy,
    /// End without an error.
    Stop,
    /// End because the job is cancelled; its siblings see that themselves.
    StopCancelled,
    /// End with the error at hand, and take no more files.
    StopFailed,
}

/// What came of taking a file.
#[derive(Debug, Clone, Copy, PartialEq, Eq, Structural)]
pub enum Fetched {
    File,
    /// The scan is through, and every file is taken.
    Closed,
    /// The scan failed.
    ScanFailed,
}

/// What came of copying a file.
#[derive(Debug, Clone, Copy, PartialEq, Eq, Structural)]
pub enum CopyResult {
    Copied,
    Skipped,
    Failed,
}

/// How a round of a copy loop starts.
pub open spec fn round_of(job: JobState) -> WorkerAction {
    if job.failed {
        WorkerAction::Stop
    } else {
        WorkerAction::Fetch
    }
}

/// What a copy loop does once it took a file, and the job then.
pub open spec fn once_fetched(job: JobState, got: Fetched) -> (JobState, WorkerAction) {
    match got {
        Fetched::File => (with_file_started(job), WorkerAction::Checkpoint),
        Fetched::Closed => (job, WorkerAction::Stop),
        Fetched::ScanFailed => (JobState { failed: true, ..job }, WorkerAction::StopFailed),
    }
}

/// What a copy loop does once the checkpoint told.
pub open spec fn once_checked(passed: bool) -> WorkerAction {
    if passed {
        WorkerAction::Copy
    } else {
        WorkerAction::StopCancelled
    }
}

/// What a copy loop does once a file was dealt with, and the job then.
pub open spec fn once_copied(job: JobState, result: CopyResult) -> (JobState, WorkerAction) {
    match result {
        CopyResult::Failed => (JobState { failed: true, ..job }, WorkerAction::StopFailed),
        _ => (with_file_ended(job, result is Skipped), round_of(job)),
    }
}

/// How a copy loop runs. It takes files until there are none or something
/// failed: its own file, a sibling's, or the scan. It copies a file only behind
/// a checkpoint that let it pass. A failure is told to the siblings, which then
/// take no more files; a cancel and the end of the scan are none. A file that
/// was copied or skipped is counted, and the skipped one remembered.
pub proof fn law_copy_loop(job: JobState, got: Fetched, passed: bool, result: CopyResult)
    ensures
        round_of(job) is Fetch <==> !job.failed,
        round_of(job) is Stop <==> job.failed,
        got is File ==> once_fetched(job, got).1 is Checkpoint && once_fetched(job, got).0.started,
        got is Closed ==> once_fetched(job, got) == (job, WorkerAction::Stop),
        got is ScanFailed ==> once_fetched(job, got).1 is StopFailed && round_of(
            once_fetched(job, got).0,
        ) is Stop,
        !(got is ScanFailed) ==> once_fetched(job, got).0.failed == job.failed,
        once_checked(passed) is Copy <==> passed,
        once_checked(passed) is StopCancelled <==> !passed,
        result is Failed ==> once_copied(job, result).1 is StopFailed && round_of(
            once_copied(job, result).0,
        ) is Stop && once_copied(job, result).0.files_done == job.files_done,
        !(result is Failed) && !job.failed ==> once_copied(job, result).1 is Fetch,
        !(result is Failed) && job.failed ==> once_copied(job, result).1 is Stop,
        !(result is Failed) && job.files_done < u32::MAX ==> once_copied(job, result).0.files_done
            == job.files_done + 1,
        result is Skipped ==> once_copied(job, result).0.any_skipped,
        result is Copied ==> once_copied(job, result).0.any_skipped == job.any_skipped,
        once_copied(job, result).0.done_bytes == job.done_bytes,
{
}

/// The start of each round of a copy loop: once a sibling failed, no new file
/// is started, so that the job can end.
pub fn worker_round(job: &JobState) -> (r: WorkerAction)
    ensures
        r == round_of(*job),
{
    if job.failed {
        WorkerAction::Stop
    } else {
        WorkerAction::Fetch
    }
}

/// A file was taken, or there is none. A failure of the scan fails the job.
pub fn worker_fetched(job: &mut JobState, got: Fetched) -> (r: WorkerAction)
    ensures
        (*final(job), r) == once_fetched(*old(job), got),
{
    match got {
        Fetched::File => {
            job.file_started();
            WorkerAction::Checkpoint
        },
        Fetched::Closed => WorkerAction::Stop,
        Fetched::ScanFailed => {
            job.fail();
            WorkerAction::StopFailed
        },
    }
}

/// The checkpoint was passed, or the job was cancelled.
pub fn worker_checked(passed: bool) -> (r: WorkerAction)
    ensures
        r == once_checked(passed),
{
    if passed {
        WorkerAction::Copy
    } else {
        WorkerAction::StopCancelled
    }
}

/// A file was dealt with. Returns what comes next, and the update to send:
/// `Some(true)` for one that is to be forced out. A failure fails the job.
pub fn worker_copied(job: &mut JobState, result: CopyResult) -> (r: (WorkerAction, Option<bool>))
    ensures
        (*final(job), r.0) == once_copied(*old(job), result),
        r.1 == if result is Failed {
            None
        } else {
            Some(final(job).files_done == 1)
        },
{
    match result {
        CopyResult::Failed => {
            job.fail();
            (WorkerAction::StopFailed, None)
        },
        CopyResult::Copied => {
            let force = job.file_ended(false);
            (worker_round(job), Some(force))
        },
        CopyResult::Skipped => {
            let force = job.file_ended(true);
            (worker_round(job), Some(force))
        },
    }
}

/// Where a job stands.
#[derive(Debug, Clone, Copy, PartialEq, Eq, Structural)]
pub enum RunPhase {
    /// The scan and the copy loops are at work.
    Copying,
    /// They are through; the last check for pause and cancel.
    Closing,
    /// The sources of a move are deleted, this one next.
    Deleting(usize),
    Done,
    Failed,
}

/// A job under way.
#[derive(Debug, Clone, Copy, PartialEq, Eq, Structural)]
pub struct JobRun {
    pub phase: RunPhase,
    pub move_src: bool,
    /// How many items were to be transferred.
    pub items: usize,
}

/// The phase that follows when the source at `i` is next.
pub open spec fn deleting_from(i: int, items: int) -> RunPhase {
    if i < items {
        RunPhase::Deleting(i as usize)
    } else {
        RunPhase::Done
    }
}

/// The job once its copy loops ended.
pub open spec fn after_workers(run: JobRun, all_ok: bool) -> JobRun {
    JobRun {
        phase: if all_ok {
            RunPhase::Closing
        } else {
            RunPhase::Failed
        },
        ..run
    }
}

/// The job after a check: a move goes on to delete its sources, but only when
/// nothing was skipped.
pub open spec fn after_check(run: JobRun, passed: bool, any_skipped: bool) -> JobRun {
    JobRun {
        phase: if !passed {
            RunPhase::Failed
        } else if run.phase is Copying {
            RunPhase::Copying
        } else if run.move_src && !any_skipped {
            deleting_from(0, run.items as int)
        } else {
            RunPhase::Done
        },
        ..run
    }
}

/// The job after it deleted a source, or failed to.
pub open spec fn after_delete(run: JobRun, ok: bool) -> JobRun {
    JobRun {
        phase: if ok {
            deleting_from(run.phase->Deleting_0 + 1, run.items as int)
        } else {
            RunPhase::Failed
        },
        ..run
    }
}

impl JobRun {
    /// A job whose scan and copy loops start.
    pub fn new(move_src: bool, items: usize) -> (r: Self)
        ensures
            r == (JobRun { phase: RunPhase::Copying, move_src, items }),
    {
        JobRun { phase: RunPhase::Copying, move_src, items }
    }

    /// All copy loops ended, each without an error or not.
    pub fn workers_ended(&mut self, all_ok: bool)
        requires
            old(self).phase is Copying,
        ensures
            *final(self) == after_workers(*old(self), all_ok),
    {
        self.phase = if all_ok {
            RunPhase::Closing
        } else {
            RunPhase::Failed
        };
    }

    /// A check for pause and cancel, while the copy loops are at work or
    /// after them. A move goes on to delete its sources, but only when
    /// nothing was skipped.
    pub fn checked(&mut self, passed: bool, job: &JobState)
        requires
            old(self).phase is Copying || old(self).phase is Closing,
        ensures
            *final(self) == after_check(*old(self), passed, job.any_skipped),
    {
        if !passed {
            self.phase = RunPhase::Failed;
            return;
        }
        if let RunPhase::Copying = self.phase {
            return;
        }
        self.phase = if job.deletes_sources(self.move_src) && self.items > 0 {
            RunPhase::Deleting(0)
        } else {
            RunPhase::Done
        };
    }

    /// A source was deleted, or could not be.
    pub fn deleted(&mut self, ok: bool)
        requires
            old(self).phase is Deleting,
            old(self).phase->Deleting_0 < old(self).items,
        ensures
            *final(self) == after_delete(*old(self), ok),
            final(self).phase is Deleting ==> final(self).phase->Deleting_0 < final(self).items,
    {
        if !ok {
            self.phase = RunPhase::Failed;
            return;
        }
        if let RunPhase::Deleting(i) = self.phase {
            self.phase = if i + 1 < self.items {
                RunPhase::Deleting(i + 1)
            } else {
                RunPhase::Done
            };
        }
    }
}

/// A job goes on as far as it can. Copy loops that all came through lead to
/// the last check, and one that did not to failure. A check that is passed
/// leads on: while copying to more copying, and after it to deleting the
/// sources one by one where they are to go, and else to the end. Each deletion
/// leads to the next source, and the last one to the end.
pub proof fn law_run_goes_on(run: JobRun, all_ok: bool, any_skipped: bool, i: usize)
    requires
        i < run.items,
    ensures
        after_workers(run, true).phase is Closing,
        after_workers(run, false).phase is Failed,
        after_check(run, false, any_skipped).phase is Failed,
        run.phase is Copying ==> after_check(run, true, any_skipped).phase is Copying,
        run.phase is Closing && run.move_src && !any_skipped ==> after_check(
            run,
            true,
            any_skipped,
        ).phase == RunPhase::Deleting(0),
        run.phase is Closing && !(run.move_src && !any_skipped) ==> after_check(
            run,
            true,
            any_skipped,
        ).phase is Done,
        run.phase == RunPhase::Deleting(i) && i + 1 < run.items ==> after_delete(run, true).phase
            == RunPhase::Deleting((i + 1) as usize),
        run.phase == RunPhase::Deleting(i) && i + 1 == run.items ==> after_delete(run, true).phase
            is Done,
        after_delete(run, false).phase is Failed,
        after_workers(run, all_ok).move_src == run.move_src,
        after_workers(run, all_ok).items == run.items,
        after_check(run, all_ok, any_skipped).move_src == run.move_src,
        after_check(run, all_ok, any_skipped).items == run.items,
        after_delete(run, all_ok).move_src == run.move_src,
        after_delete(run, all_ok).items == run.items,
{
}

/// What a job has done, as its steps tell.
pub struct RunHistory {
    /// Every copy loop ended without an error.
    pub all_copied: bool,
    /// The last check was passed.
    pub passed: bool,
    /// Nothing was skipped.
    pub none_skipped: bool,
    /// How many sources were deleted.
    pub deleted: int,
}

/// A job that has done nothing yet.
pub open spec fn no_history() -> RunHistory {
    RunHistory { all_copied: false, passed: false, none_skipped: false, deleted: 0 }
}

/// Whether a job's phase is borne out by what it has done.
pub open spec fn run_inv(run: JobRun, h: RunHistory) -> bool {
    &&& run.phase is Copying || run.phase is Closing ==> h.deleted == 0
    &&& run.phase is Closing ==> h.all_copied
    &&& run.phase is Deleting ==> {
        &&& run.move_src && h.all_copied && h.passed && h.none_skipped
        &&& h.deleted == run.phase->Deleting_0 < run.items
    }
    &&& h.deleted > 0 ==> run.move_src && h.all_copied && h.passed && h.none_skipped
    &&& run.phase is Done ==> h.all_copied && h.passed && (h.deleted == run.items || !(run.move_src
        && h.none_skipped))
}

/// What a job has done bears out its phase: at its start, when its copy loops
/// end, after each check and after each deletion.
pub proof fn law_run_borne_out(
    run: JobRun,
    h: RunHistory,
    all_ok: bool,
    passed: bool,
    any_skipped: bool,
    ok: bool,
)
    requires
        run_inv(run, h),
    ensures
        run_inv((JobRun { phase: RunPhase::Copying, ..run }), no_history()),
        run.phase is Copying ==> run_inv(
            after_workers(run, all_ok),
            (RunHistory { all_copied: all_ok, ..h }),
        ),
        run.phase is Copying || run.phase is Closing ==> run_inv(
            after_check(run, passed, any_skipped),
            (RunHistory { passed, none_skipped: !any_skipped, ..h }),
        ),
        run.phase is Deleting ==> run_inv(
            after_delete(run, ok),
            (RunHistory {
                deleted: h.deleted + if ok {
                    1int
                } else {
                    0
                },
                ..h
            }),
        ),
{
}

/// No source is deleted unless this is a move, every file was copied, and
/// nothing was skipped; and a move that is done has deleted every source,
/// unless something was skipped.
pub proof fn law_move_deletes_copied_only(run: JobRun, h: RunHistory)
    requires
        run_inv(run, h),
    ensures
        h.deleted > 0 ==> run.move_src && h.all_copied && h.none_skipped,
        run.phase is Done && run.move_src && h.none_skipped ==> h.deleted == run.items,
{
}

} // verus!
