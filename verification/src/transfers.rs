//! The transfer queue: how jobs are controlled, what their snapshots show,
//! how conflicts are settled, and how they end.

use crate::text::{decimal, has_prefix, has_suffix, to_decimal};
use crate::types::{
    Backend, ConflictDecision, FsEntry, Rate, TransferAction, TransferDirection, TransferId,
    TransferKind, TransferRequest, TransferSnapshot, TransferState,
};
use crate::walks::OpProgress;
use std::collections::HashMap;
use vstd::prelude::*;
use vstd::string::*;

pub use crate::copying::{PART_SUFFIX, RESUME_THRESHOLD};

verus! {

/// Files copied concurrently. Requests multiplex over the one SFTP channel,
/// so this hides per-file latency without opening extra connections.
pub const PARALLEL_FILES: usize = 4;

/// How much of a file is read at a time.
pub const CHUNK: usize = 262144;

/// Unforced updates of a job come at least this many milliseconds apart.
pub const EMIT_INTERVAL_MS: u64 = 120;

/// How often closing a remote file is tried: one attempt for each write that
/// may have failed in flight, and the one that closes.
pub const CLOSE_ATTEMPTS: u32 = 10;

/// What the user asked of a job while it runs.
#[derive(Debug, Clone, Copy, PartialEq, Eq, Structural)]
pub struct Ctrl {
    pub paused: bool,
    pub cancelled: bool,
}

/// The controls after an action.
pub open spec fn controlled(c: Ctrl, action: TransferAction) -> Ctrl {
    match action {
        TransferAction::Pause => Ctrl { paused: true, ..c },
        TransferAction::Resume => Ctrl { paused: false, ..c },
        TransferAction::Cancel => Ctrl { cancelled: true, ..c },
        TransferAction::Dismiss => c,
    }
}

impl Ctrl {
    /// The controls after an action.
    pub fn after(self, action: TransferAction) -> (r: Ctrl)
        ensures
            r == controlled(self, action),
    {
        let mut c = self;
        match action {
            TransferAction::Pause => c.paused = true,
            TransferAction::Resume => c.paused = false,
            TransferAction::Cancel => c.cancelled = true,
            TransferAction::Dismiss => {},
        }
        c
    }
}

/// The controls of the jobs under way, and the id that the next one gets.
pub struct Controls {
    pub jobs: HashMap<TransferId, Ctrl>,
    pub next: TransferId,
}

impl Controls {
    /// No job yet; ids start at one.
    pub fn new() -> (r: Self)
        ensures
            r.jobs@ == Map::<TransferId, Ctrl>::empty(),
            r.next == 1,
    {
        Controls { jobs: HashMap::new(), next: 1 }
    }
}

/// A new id, one above the last; past the largest they start over at zero.
pub fn next_id(controls: &mut Controls) -> (r: TransferId)
    ensures
        r == old(controls).next,
        final(controls).next == crate::sessions::id_after(r),
        final(controls).jobs == old(controls).jobs,
{
    let id = controls.next;
    controls.next = id.wrapping_add(1);
    id
}

/// The controls of a job of which nothing was asked yet.
pub open spec fn fresh() -> Ctrl {
    Ctrl { paused: false, cancelled: false }
}

/// The controls with those of a new job.
pub open spec fn with_job(jobs: Map<TransferId, Ctrl>, id: TransferId) -> Map<TransferId, Ctrl> {
    jobs.insert(id, fresh())
}

/// The controls without those of a job that ended.
pub open spec fn without_job(jobs: Map<TransferId, Ctrl>, id: TransferId) -> Map<TransferId, Ctrl> {
    jobs.remove(id)
}

/// A job that starts passes its checkpoints until something is asked of it, and
/// one that ended can be asked nothing. Neither touches another job.
pub proof fn law_jobs_come_and_go(
    jobs: Map<TransferId, Ctrl>,
    id: TransferId,
    other: TransferId,
    action: TransferAction,
)
    requires
        id != other,
    ensures
        with_job(jobs, id).contains_key(id),
        checkpoint_of(with_job(jobs, id)[id]) is Pass,
        with_job(jobs, id).contains_key(other) == jobs.contains_key(other),
        jobs.contains_key(other) ==> with_job(jobs, id)[other] == jobs[other],
        !without_job(jobs, id).contains_key(id),
        jobs_controlled(without_job(jobs, id), id, action) == without_job(jobs, id),
        without_job(jobs, id).contains_key(other) == jobs.contains_key(other),
        jobs.contains_key(other) ==> without_job(jobs, id)[other] == jobs[other],
{
}

/// Puts a job under control: neither paused nor cancelled.
pub fn register(controls: &mut Controls, id: TransferId) -> (r: Ctrl)
    ensures
        r == fresh(),
        final(controls).jobs@ == with_job(old(controls).jobs@, id),
        final(controls).next == old(controls).next,
{
    let c = Ctrl { paused: false, cancelled: false };
    let _ = controls.jobs.insert(id, c);
    c
}

/// Takes a job that ended out of control.
pub fn unregister(controls: &mut Controls, id: TransferId)
    ensures
        final(controls).jobs@ == without_job(old(controls).jobs@, id),
        final(controls).next == old(controls).next,
{
    let _ = controls.jobs.remove(&id);
}

/// The controls of all jobs after an action on one of them.
pub open spec fn jobs_controlled(
    jobs: Map<TransferId, Ctrl>,
    id: TransferId,
    action: TransferAction,
) -> Map<TransferId, Ctrl> {
    if jobs.contains_key(id) {
        jobs.insert(id, controlled(jobs[id], action))
    } else {
        jobs
    }
}

/// An action reaches the job it is meant for and no other; one on a job that
/// is not under way reaches none, and starts none.
pub proof fn law_control_one_job(
    jobs: Map<TransferId, Ctrl>,
    id: TransferId,
    other: TransferId,
    action: TransferAction,
)
    ensures
        ({
            let after = jobs_controlled(jobs, id, action);
            &&& jobs.contains_key(id) ==> after[id] == controlled(jobs[id], action)
            &&& after.contains_key(other) == jobs.contains_key(other)
            &&& other != id && jobs.contains_key(other) ==> after[other] == jobs[other]
            &&& !jobs.contains_key(id) ==> after == jobs
        }),
{
}

/// Pausing and resuming turn the pause on and off, cancelling cancels, and
/// none of them touches what another one asked for.
pub proof fn law_actions(c: Ctrl)
    ensures
        controlled(c, TransferAction::Pause) == (Ctrl { paused: true, cancelled: c.cancelled }),
        controlled(c, TransferAction::Resume) == (Ctrl { paused: false, cancelled: c.cancelled }),
        controlled(c, TransferAction::Cancel) == (Ctrl { paused: c.paused, cancelled: true }),
        controlled(c, TransferAction::Dismiss) == c,
{
}

/// Applies an action to a job; returns its new controls, for the job to be
/// told. An unknown job is left alone.
pub fn control(controls: &mut Controls, id: TransferId, action: TransferAction) -> (r: Option<Ctrl>)
    ensures
        final(controls).next == old(controls).next,
        final(controls).jobs@ == jobs_controlled(old(controls).jobs@, id, action),
        r == if old(controls).jobs@.contains_key(id) {
            Some(final(controls).jobs@[id])
        } else {
            None
        },
{
    let c = match controls.jobs.get(&id) {
        Some(c) => c.after(action),
        None => return None,
    };
    let _ = controls.jobs.insert(id, c);
    Some(c)
}

/// A cancelled job stays cancelled, whatever is asked of it afterwards.
pub proof fn law_cancel_stays(c: Ctrl, action: TransferAction)
    requires
        c.cancelled,
    ensures
        controlled(c, action).cancelled,
{
}

/// Resuming undoes a pause, and dismissing changes nothing.
pub proof fn law_resume_undoes_pause(c: Ctrl)
    ensures
        !controlled(controlled(c, TransferAction::Pause), TransferAction::Resume).paused,
        controlled(c, TransferAction::Dismiss) == c,
{
}

/// What a task does at a checkpoint.
#[derive(Debug, Clone, Copy, PartialEq, Eq, Structural)]
pub enum Checkpoint {
    /// The job is cancelled.
    Cancelled,
    Pass,
    /// The job is paused: look again when its controls change.
    Wait,
}

/// What a task does at a checkpoint.
pub open spec fn checkpoint_of(c: Ctrl) -> Checkpoint {
    if c.cancelled {
        Checkpoint::Cancelled
    } else if c.paused {
        Checkpoint::Wait
    } else {
        Checkpoint::Pass
    }
}

/// A cancelled job goes no further, also one that is paused: cancelling it
/// lets it end without being resumed first. A paused job waits until it is
/// resumed, and any other passes.
pub proof fn law_checkpoint(c: Ctrl)
    ensures
        checkpoint_of(controlled(c, TransferAction::Cancel)) is Cancelled,
        checkpoint_of(c) is Cancelled <==> c.cancelled,
        checkpoint_of(c) is Pass <==> !c.paused && !c.cancelled,
        checkpoint_of(c) is Wait <==> c.paused && !c.cancelled,
        !c.cancelled ==> checkpoint_of(controlled(c, TransferAction::Pause)) is Wait,
        !c.cancelled ==> checkpoint_of(controlled(c, TransferAction::Resume)) is Pass,
{
}

/// Block while paused; error out when cancelled.
pub fn checkpoint(c: Ctrl) -> (r: Checkpoint)
    ensures
        r == checkpoint_of(c),
{
    if c.cancelled {
        Checkpoint::Cancelled
    } else if c.paused {
        Checkpoint::Wait
    } else {
        Checkpoint::Pass
    }
}

/// Attribute changes requested from the Properties dialog, with owner and
/// group still as names (resolved on the job so the dialog never blocks).
#[derive(Debug, Clone)]
pub struct AttrRequest {
    pub owner: Option<String>,
    pub group: Option<String>,
    pub mode: Option<u32>,
    pub add_x_dirs: bool,
    pub recursive: bool,
}

/// What a job on `items` is called: by the name of the only one, or by their
/// number.
pub open spec fn job_title(verb: Seq<char>, items: Seq<FsEntry>) -> Seq<char> {
    if items.len() == 1 {
        verb + " "@ + items[0].name@
    } else {
        verb + " "@ + decimal(items.len()) + " items"@
    }
}

/// A job on one item is called by that item's name, and any other by the
/// number of items, each behind the verb.
pub proof fn law_job_title(verb: Seq<char>, items: Seq<FsEntry>)
    ensures
        has_prefix(job_title(verb, items), verb),
        items.len() == 1 ==> has_suffix(job_title(verb, items), items[0].name@),
        items.len() != 1 ==> has_suffix(job_title(verb, items), decimal(items.len()) + " items"@),
{
    let title = job_title(verb, items);
    assert(title.subrange(0, verb.len() as int) =~= verb);
    let end = if items.len() == 1 {
        items[0].name@
    } else {
        decimal(items.len()) + " items"@
    };
    assert(title.subrange(title.len() - end.len(), title.len() as int) =~= end);
}

/// The title of a job.
pub fn title_of(verb: &str, items: &Vec<FsEntry>) -> (r: String)
    ensures
        r@ == job_title(verb@, items@),
{
    let mut s = verb.to_owned();
    s.append(" ");
    if items.len() == 1 {
        s.append(items[0].name.as_str());
    } else {
        s.append(to_decimal(items.len() as u64).as_str());
        s.append(" items");
    }
    s
}

/// The title of a delete.
pub fn delete_title(items: &Vec<FsEntry>) -> (r: String)
    ensures
        r@ == job_title("Delete"@, items@),
{
    title_of("Delete", items)
}

/// The title of an attribute change.
pub fn attrs_title(items: &Vec<FsEntry>) -> (r: String)
    ensures
        r@ == job_title("Change"@, items@),
{
    title_of("Change", items)
}

/// Which way a transfer goes; copies that stay on one side go neither.
pub open spec fn direction_of(src: Backend, dst: Backend) -> Option<TransferDirection> {
    if !(src is Remote) && dst is Remote {
        Some(TransferDirection::Upload)
    } else if src is Remote && !(dst is Remote) {
        Some(TransferDirection::Download)
    } else {
        None
    }
}

/// From here to a server is an upload, from a server to here a download, and
/// the way back is the other one. Between two places on one side there is no
/// direction, whichever sessions they belong to.
pub proof fn law_direction(src: Backend, dst: Backend)
    ensures
        direction_of(src, dst) == Some(TransferDirection::Upload) <==> src is Local && dst is Remote,
        direction_of(src, dst) == Some(TransferDirection::Download) <==> src is Remote
            && dst is Local,
        direction_of(src, dst) == Some(TransferDirection::Upload) <==> direction_of(dst, src)
            == Some(TransferDirection::Download),
        direction_of(src, dst) is None <==> (src is Remote) == (dst is Remote),
{
}

fn direction(src: Backend, dst: Backend) -> (r: Option<TransferDirection>)
    ensures
        r == direction_of(src, dst),
{
    match (src.is_remote(), dst.is_remote()) {
        (false, true) => Some(TransferDirection::Upload),
        (true, false) => Some(TransferDirection::Download),
        _ => None,
    }
}

/// Whether `r` is what a delete or an attribute change shows.
pub open spec fn shows_op(
    r: TransferSnapshot,
    id: TransferId,
    title: Seq<char>,
    kind: TransferKind,
    state: TransferState,
    progress: OpProgress,
    error: Option<String>,
) -> bool {
    &&& r.id == id
    &&& r.title@ == title
    &&& r.kind == kind
    &&& r.direction is None
    &&& r.state == state
    &&& r.current_file@.len() == 0
    &&& r.done_bytes == 0
    &&& r.total_bytes == 0
    &&& r.files_done == (#[verifier::truncate] (progress.done as u32))
    &&& r.files_total == (#[verifier::truncate] (progress.total as u32))
    &&& r.rate is None
    &&& r.scanning == (progress.total == 0)
    &&& r.error == error
}

/// A delete or an attribute change shows the items done and the items there
/// are, as they stand, and counts for as long as none was told of. It shows
/// its state and its error as they are.
pub proof fn law_op_shown(
    r: TransferSnapshot,
    id: TransferId,
    title: Seq<char>,
    kind: TransferKind,
    state: TransferState,
    progress: OpProgress,
    error: Option<String>,
)
    requires
        shows_op(r, id, title, kind, state, progress, error),
        progress.done <= u32::MAX,
        progress.total <= u32::MAX,
    ensures
        r.id == id && r.title@ == title && r.kind == kind,
        r.state == state && r.error == error,
        r.files_done == progress.done,
        r.files_total == progress.total,
        r.scanning <==> progress.total == 0,
        r.direction is None && r.rate is None && r.total_bytes == 0 && r.done_bytes == 0,
{
}

/// What a delete or an attribute change shows: counts only, and totals that
/// are unknown until they are published.
pub fn op_snapshot(
    id: TransferId,
    title: &str,
    kind: TransferKind,
    state: TransferState,
    progress: &OpProgress,
    error: Option<String>,
) -> (r: TransferSnapshot)
    ensures
        shows_op(r, id, title@, kind, state, *progress, error),
{
    TransferSnapshot {
        id,
        title: title.to_owned(),
        kind,
        direction: None,
        state,
        current_file: String::new(),
        done_bytes: 0,
        total_bytes: 0,
        files_done: #[verifier::truncate] (progress.done as u32),
        files_total: #[verifier::truncate] (progress.total as u32),
        rate: None,
        scanning: progress.total == 0,
        error,
    }
}

/// How the work of a job came out.
#[derive(Debug)]
pub enum JobOutcome {
    Completed,
    /// It returned an error.
    Failed(String),
    /// Its task broke down.
    Crashed(String),
}

/// The state and error that a delete or an attribute change ends with.
pub open spec fn op_ended(outcome: JobOutcome, cancelled: bool) -> (TransferState, Option<String>) {
    match outcome {
        JobOutcome::Completed => (TransferState::Done, None),
        JobOutcome::Crashed(e) => (TransferState::Failed, Some(e)),
        JobOutcome::Failed(e) => if cancelled {
            (TransferState::Cancelled, None)
        } else {
            (TransferState::Failed, Some(e))
        },
    }
}

/// The state and error that a transfer which failed ends with.
pub open spec fn transfer_ended(error: String, cancelled: bool) -> (TransferState, Option<String>) {
    if cancelled {
        (TransferState::Cancelled, None)
    } else {
        (TransferState::Failed, Some(error))
    }
}

/// How jobs end. One that came through is done, also when it was cancelled too
/// late. One that did not is cancelled if that was asked for, and failed if
/// not. One whose task broke down has failed in any case. A failure keeps its
/// error, and nothing else has one.
pub proof fn law_job_ends(outcome: JobOutcome, cancelled: bool, error: String)
    ensures
        ({
            let (state, told) = op_ended(outcome, cancelled);
            &&& outcome is Completed <==> state == TransferState::Done
            &&& state == TransferState::Cancelled <==> outcome is Failed && cancelled
            &&& state == TransferState::Failed <==> outcome is Crashed || (outcome is Failed
                && !cancelled)
            &&& told is Some <==> state == TransferState::Failed
            &&& outcome matches JobOutcome::Crashed(e) ==> told == Some(e)
            &&& outcome matches JobOutcome::Failed(e) ==> (!cancelled ==> told == Some(e))
            &&& transfer_ended(error, cancelled) == op_ended(JobOutcome::Failed(error), cancelled)
        }),
{
}

/// The state and error that a delete or an attribute change ends with: an
/// error after a cancel is no failure, a broken task always is.
pub fn op_end(outcome: JobOutcome, cancelled: bool) -> (r: (TransferState, Option<String>))
    ensures
        r == op_ended(outcome, cancelled),
{
    match outcome {
        JobOutcome::Completed => (TransferState::Done, None),
        JobOutcome::Crashed(e) => (TransferState::Failed, Some(e)),
        JobOutcome::Failed(e) => if cancelled {
            (TransferState::Cancelled, None)
        } else {
            (TransferState::Failed, Some(e))
        },
    }
}

/// The state and error that a transfer which failed ends with.
pub fn transfer_end(error: String, cancelled: bool) -> (r: (TransferState, Option<String>))
    ensures
        r == transfer_ended(error, cancelled),
{
    if cancelled {
        (TransferState::Cancelled, None)
    } else {
        (TransferState::Failed, Some(error))
    }
}

/// How to go on after the `tries`-th attempt to close a remote file.
#[derive(Debug, Clone, Copy, PartialEq, Eq, Structural)]
pub enum CloseNext {
    /// Closed, or gone with its session.
    Settled,
    Retry,
    /// The handle is leaked.
    GiveUp,
}

/// How closing came out once.
#[derive(Debug, Clone, Copy, PartialEq, Eq, Structural)]
pub enum CloseAttempt {
    Closed,
    /// The session is torn down: the handle died with it.
    SessionGone,
    Error,
}

/// What follows an attempt to close.
pub open spec fn close_next(tries: u32, attempt: CloseAttempt) -> CloseNext {
    if !(attempt is Error) {
        CloseNext::Settled
    } else if tries < CLOSE_ATTEMPTS {
        CloseNext::Retry
    } else {
        CloseNext::GiveUp
    }
}

/// A file that was closed, or whose session is gone, is not closed again. An
/// error is tried again until it came ten times, and not after that.
pub proof fn law_closing(tries: u32, attempt: CloseAttempt)
    ensures
        attempt is Closed || attempt is SessionGone ==> close_next(tries, attempt) is Settled,
        attempt is Error && tries < 10 ==> close_next(tries, attempt) is Retry,
        attempt is Error && tries >= 10 ==> close_next(tries, attempt) is GiveUp,
{
}

/// What follows an attempt to close.
pub fn after_close(tries: u32, attempt: CloseAttempt) -> (r: CloseNext)
    ensures
        r == close_next(tries, attempt),
{
    match attempt {
        CloseAttempt::Closed | CloseAttempt::SessionGone => CloseNext::Settled,
        CloseAttempt::Error => if tries < CLOSE_ATTEMPTS {
            CloseNext::Retry
        } else {
            CloseNext::GiveUp
        },
    }
}

/// Everything that the tasks of one transfer share.
pub struct JobState {
    /// Title, kind, state, current file and error; the counters are below.
    pub shown: TransferSnapshot,
    /// Files and bytes that the scan found so far, and whether it is through.
    pub files_found: u32,
    pub bytes_found: u64,
    pub scan_done: bool,
    pub done_bytes: u64,
    pub files_done: u32,
    /// A worker picked up the first file.
    pub started: bool,
    pub any_skipped: bool,
    /// A worker failed; its siblings start no new files.
    pub failed: bool,
    pub overwrite_all: bool,
    pub skip_all: bool,
    /// Workers that wait for a conflict to be settled.
    pub waiting_conflicts: u32,
    /// The last snapshot was sent; nothing follows it.
    pub finished: bool,
}

/// What to do about a conflict once it is this worker's turn to ask.
#[derive(Debug, Clone, Copy, PartialEq, Eq, Structural)]
pub enum ConflictTurn {
    /// It is settled already.
    Settled(ConflictDecision),
    /// The job ends: do not ask.
    Cancelled,
    Ask,
}

/// Whether `r` is a transfer that was just queued.
pub open spec fn is_queued(r: JobState, id: TransferId, request: TransferRequest) -> bool {
    &&& r.shown.id == id
    &&& r.shown.title@ == job_title(
        if request.move_src {
            "Move"@
        } else {
            "Copy"@
        },
        request.items@,
    )
    &&& r.shown.kind == if request.move_src {
        TransferKind::Move
    } else {
        TransferKind::Copy
    }
    &&& r.shown.direction == direction_of(request.src_backend, request.dst_backend)
    &&& r.shown.state == TransferState::Queued
    &&& r.shown.current_file@.len() == 0
    &&& r.shown.done_bytes == 0
    &&& r.shown.total_bytes == 0
    &&& r.shown.files_done == 0
    &&& r.shown.files_total == 0
    &&& r.shown.rate is None
    &&& r.shown.scanning
    &&& r.shown.error is None
    &&& r.files_found == 0
    &&& r.bytes_found == 0
    &&& !r.scan_done
    &&& r.done_bytes == 0
    &&& r.files_done == 0
    &&& !r.started
    &&& !r.any_skipped
    &&& !r.failed
    &&& r.overwrite_all == request.overwrite
    &&& !r.skip_all
    &&& r.waiting_conflicts == 0
    &&& !r.finished
}

/// What a snapshot shows: the live counters in place of those it had.
pub open spec fn snapshot_of(job: JobState, rate: Option<Rate>) -> TransferSnapshot {
    TransferSnapshot {
        files_total: job.files_found,
        total_bytes: job.bytes_found,
        scanning: !job.scan_done,
        done_bytes: job.done_bytes,
        files_done: job.files_done,
        rate: rate,
        ..job.shown
    }
}

/// Whether a snapshot is to be sent now.
pub open spec fn may_send(finished: bool, force: bool, since_last_ms: u64) -> bool {
    !finished && (force || since_last_ms >= EMIT_INTERVAL_MS)
}

/// The job with another state shown.
pub open spec fn with_state(job: JobState, state: TransferState) -> JobState {
    JobState { shown: TransferSnapshot { state: state, ..job.shown }, ..job }
}

/// The job once a file was picked up.
pub open spec fn with_file_started(job: JobState) -> JobState {
    if job.started {
        job
    } else {
        JobState { started: true, ..with_state(job, TransferState::Running) }
    }
}

/// The job with the totals that the scan found.
pub open spec fn with_totals(job: JobState, files: u32, bytes: u64, through: bool) -> JobState {
    JobState { files_found: files, bytes_found: bytes, scan_done: through, ..job }
}

/// The job with more bytes done.
pub open spec fn with_bytes(job: JobState, n: u64) -> JobState {
    JobState { done_bytes: ((job.done_bytes + n) % 0x1_0000_0000_0000_0000) as u64, ..job }
}

/// Progress shows as it is made: the bytes that are done add up, and the totals
/// are those that the scan found, still to grow until it is through. Neither
/// changes anything else that is shown.
pub proof fn law_progress(job: JobState, n: u64, m: u64, files: u32, bytes: u64, through: bool)
    ensures
        job.done_bytes + n <= u64::MAX ==> snapshot_of(with_bytes(job, n), None).done_bytes
            == job.done_bytes + n,
        job.done_bytes + n + m <= u64::MAX ==> with_bytes(with_bytes(job, n), m) == with_bytes(
            job,
            (n + m) as u64,
        ),
        snapshot_of(with_bytes(job, n), None).total_bytes == snapshot_of(job, None).total_bytes,
        snapshot_of(with_bytes(job, n), None).state == snapshot_of(job, None).state,
        snapshot_of(with_totals(job, files, bytes, through), None).files_total == files,
        snapshot_of(with_totals(job, files, bytes, through), None).total_bytes == bytes,
        snapshot_of(with_totals(job, files, bytes, through), None).scanning <==> !through,
        snapshot_of(with_totals(job, files, bytes, through), None).done_bytes == job.done_bytes,
        snapshot_of(with_totals(job, files, bytes, through), None).files_done == job.files_done,
{
}

/// The job once a worker is through with a file.
pub open spec fn with_file_ended(job: JobState, skipped: bool) -> JobState {
    JobState {
        any_skipped: job.any_skipped || skipped,
        files_done: ((job.files_done + 1) % 0x1_0000_0000) as u32,
        ..job
    }
}

/// The job once its controls changed while it was paused.
pub open spec fn with_resumed(job: JobState, c: Ctrl) -> JobState {
    if !c.paused && !c.cancelled {
        with_state(
            job,
            if job.started {
                TransferState::Running
            } else {
                TransferState::Scanning
            },
        )
    } else {
        job
    }
}

/// What a worker does once it is its turn to ask.
pub open spec fn turn_of(job: JobState, cancelled: bool) -> ConflictTurn {
    match job.standing_answer() {
        Some(d) => ConflictTurn::Settled(d),
        None => if job.failed || cancelled {
            ConflictTurn::Cancelled
        } else {
            ConflictTurn::Ask
        },
    }
}

/// The job once a worker took its turn.
pub open spec fn with_turn(job: JobState, cancelled: bool) -> JobState {
    if turn_of(job, cancelled) is Ask {
        JobState {
            waiting_conflicts: ((job.waiting_conflicts + 1) % 0x1_0000_0000) as u32,
            ..with_state(job, TransferState::WaitingConflict)
        }
    } else {
        job
    }
}

/// The decision that a reply stands for, and whether nobody waits any more.
pub open spec fn answer_of(job: JobState, reply: Option<ConflictDecision>) -> (
    ConflictDecision,
    bool,
) {
    (reply.unwrap_or(ConflictDecision::CancelJob), job.waiting_conflicts == 1)
}

/// The job once a conflict was answered.
pub open spec fn with_answer(job: JobState, reply: Option<ConflictDecision>) -> JobState {
    let (decision, last) = answer_of(job, reply);
    JobState {
        waiting_conflicts: ((job.waiting_conflicts - 1) % 0x1_0000_0000) as u32,
        overwrite_all: job.overwrite_all || decision is OverwriteAll,
        skip_all: job.skip_all || decision is SkipAll,
        ..(if last {
            with_state(job, TransferState::Running)
        } else {
            job
        })
    }
}

/// Whether the sources of a transfer that is through are to be deleted.
pub open spec fn sources_go(move_src: bool, any_skipped: bool) -> bool {
    move_src && !any_skipped
}

/// The job once it ended.
pub open spec fn with_end(job: JobState, state: TransferState, error: Option<String>) -> JobState {
    JobState {
        finished: true,
        shown: TransferSnapshot { state: state, error: error, ..job.shown },
        ..job
    }
}

/// A transfer that was just queued moves or copies as asked, goes the way its
/// ends say, and has done nothing. Conflicts are settled ahead by overwriting
/// exactly when that was asked for. Updates of it can be sent.
pub proof fn law_queued(job: JobState, id: TransferId, request: TransferRequest, rate: Option<Rate>)
    requires
        is_queued(job, id, request),
    ensures
        job.shown.kind == TransferKind::Move <==> request.move_src,
        job.shown.kind == TransferKind::Copy <==> !request.move_src,
        request.move_src ==> job.shown.title@ == job_title("Move"@, request.items@),
        !request.move_src ==> job.shown.title@ == job_title("Copy"@, request.items@),
        job.standing_answer() == (if request.overwrite {
            Some(ConflictDecision::Overwrite)
        } else {
            None
        }),
        may_send(job.finished, true, 0),
        snapshot_of(job, rate).id == id,
        snapshot_of(job, rate).scanning,
        snapshot_of(job, rate).files_done == 0,
        snapshot_of(job, rate).done_bytes == 0,
        snapshot_of(job, rate).error is None,
        !sources_go(false, job.any_skipped),
{
}

/// A snapshot shows the job it is of, its state and error as they are, and the
/// counters as they stand at that moment, whatever was shown before.
pub proof fn law_snapshot(job: JobState, rate: Option<Rate>)
    ensures
        ({
            let t = snapshot_of(job, rate);
            &&& t.id == job.shown.id && t.title == job.shown.title && t.kind == job.shown.kind
            &&& t.direction == job.shown.direction && t.state == job.shown.state
            &&& t.current_file == job.shown.current_file && t.error == job.shown.error
            &&& t.files_total == job.files_found && t.files_done == job.files_done
            &&& t.total_bytes == job.bytes_found && t.done_bytes == job.done_bytes
            &&& t.scanning <==> !job.scan_done
            &&& t.rate == rate
        }),
{
}

/// Updates that are not forced come at least 120 milliseconds apart; forced
/// ones always go out. Nothing goes out once the job ended, not even forced.
pub proof fn law_updates(job: JobState, force: bool, since: u64, state: TransferState, error: Option<
    String,
>)
    ensures
        !may_send(with_end(job, state, error).finished, force, since),
        may_send(false, true, since),
        may_send(false, false, since) <==> since >= 120,
        with_end(job, state, error).shown.state == state,
        with_end(job, state, error).shown.error == error,
        with_end(job, state, error).files_done == job.files_done,
        with_end(job, state, error).done_bytes == job.done_bytes,
        with_end(job, state, error).shown.title == job.shown.title,
{
}

/// The first file that is picked up sets the job running; later ones change
/// nothing, so that a job that shows as paused or waiting goes on showing it.
pub proof fn law_file_started(job: JobState)
    ensures
        with_file_started(job).started,
        !job.started ==> with_file_started(job).shown.state == TransferState::Running,
        with_file_started(with_file_started(job)) == with_file_started(job),
        job.started ==> with_file_started(job) == job,
        with_file_started(job).files_done == job.files_done,
        with_file_started(job).any_skipped == job.any_skipped,
        with_file_started(job).failed == job.failed,
{
}

/// Every file that is through counts, copied or skipped. One that was skipped
/// is remembered from then on, and then no source is deleted, whatever is
/// copied after it.
pub proof fn law_file_ended(job: JobState, skipped: bool, later: bool)
    ensures
        job.files_done < u32::MAX ==> with_file_ended(job, skipped).files_done == job.files_done + 1,
        with_file_ended(job, true).any_skipped,
        with_file_ended(job, false).any_skipped == job.any_skipped,
        !sources_go(true, with_file_ended(with_file_ended(job, true), later).any_skipped),
        sources_go(true, job.any_skipped) <==> !job.any_skipped,
        !sources_go(false, job.any_skipped),
        with_file_ended(job, skipped).failed == job.failed,
        with_file_ended(job, skipped).shown == job.shown,
        with_file_ended(job, skipped).done_bytes == job.done_bytes,
{
}

/// Resuming a job that showed as paused makes it show what it did: running
/// once a file was picked up, scanning before that. While it is still paused,
/// or was cancelled, nothing changes. Nothing else of the job ever does.
pub proof fn law_pause_shown(job: JobState, c: Ctrl)
    ensures
        ({
            let paused = with_state(job, TransferState::Paused);
            let on = with_resumed(paused, c);
            &&& paused.shown.state == TransferState::Paused
            &&& c.paused || c.cancelled ==> on == paused
            &&& !c.paused && !c.cancelled && job.started ==> on.shown.state == TransferState::Running
            &&& !c.paused && !c.cancelled && !job.started ==> on.shown.state
                == TransferState::Scanning
            &&& on.same_counts(job) && paused.same_counts(job)
            &&& on.shown.title == job.shown.title && on.shown.id == job.shown.id
        }),
{
}

/// A conflict is asked about only when no answer stands for all and the job
/// neither failed nor was cancelled. A standing answer settles it in any case.
/// Only asking changes the job: one more worker waits, and the job shows it.
pub proof fn law_conflict_turn(job: JobState, cancelled: bool)
    ensures
        turn_of(job, cancelled) is Ask <==> job.standing_answer() is None && !job.failed
            && !cancelled,
        turn_of(job, cancelled) is Cancelled <==> job.standing_answer() is None && (job.failed
            || cancelled),
        job.standing_answer() is Some ==> turn_of(job, cancelled) == ConflictTurn::Settled(
            job.standing_answer()->0,
        ),
        job.overwrite_all ==> turn_of(job, cancelled) == ConflictTurn::Settled(
            ConflictDecision::Overwrite,
        ),
        job.skip_all && !job.overwrite_all ==> turn_of(job, cancelled) == ConflictTurn::Settled(
            ConflictDecision::Skip,
        ),
        !(turn_of(job, cancelled) is Ask) ==> with_turn(job, cancelled) == job,
        turn_of(job, cancelled) is Ask ==> {
            &&& with_turn(job, cancelled).shown.state == TransferState::WaitingConflict
            &&& job.waiting_conflicts < u32::MAX ==> with_turn(job, cancelled).waiting_conflicts
                == job.waiting_conflicts + 1
            &&& with_turn(job, cancelled).standing_answer() is None
        },
{
}

/// An answer ends the wait of the one worker that asked. The job runs again
/// once nobody waits, and shows that it waits until then. The decision is the
/// user's, and a question that gets no answer cancels the job.
pub proof fn law_conflict_answered(job: JobState, reply: Option<ConflictDecision>, cancelled: bool)
    requires
        turn_of(job, cancelled) is Ask,
        job.waiting_conflicts < u32::MAX,
    ensures
        ({
            let asked = with_turn(job, cancelled);
            let done = with_answer(asked, reply);
            &&& done.waiting_conflicts == job.waiting_conflicts
            &&& job.waiting_conflicts == 0 <==> answer_of(asked, reply).1
            &&& job.waiting_conflicts == 0 ==> done.shown.state == TransferState::Running
            &&& job.waiting_conflicts > 0 ==> done.shown.state == TransferState::WaitingConflict
            &&& reply is Some ==> answer_of(asked, reply).0 == reply->0
            &&& reply is None ==> answer_of(asked, reply).0 is CancelJob
            &&& done.failed == job.failed && done.any_skipped == job.any_skipped
            &&& done.files_done == job.files_done && done.finished == job.finished
        }),
{
}

impl JobState {
    /// Whether the two agree in all but what a snapshot shows.
    pub open spec fn same_counts(self, other: JobState) -> bool {
        &&& self.files_found == other.files_found
        &&& self.bytes_found == other.bytes_found
        &&& self.scan_done == other.scan_done
        &&& self.done_bytes == other.done_bytes
        &&& self.files_done == other.files_done
        &&& self.started == other.started
        &&& self.any_skipped == other.any_skipped
        &&& self.failed == other.failed
        &&& self.overwrite_all == other.overwrite_all
        &&& self.skip_all == other.skip_all
        &&& self.waiting_conflicts == other.waiting_conflicts
        &&& self.finished == other.finished
    }

    /// A queued transfer. `overwrite` answers every conflict ahead.
    pub fn new(id: TransferId, request: &TransferRequest) -> (r: Self)
        ensures
            is_queued(r, id, *request),
    {
        let verb = if request.move_src {
            "Move"
        } else {
            "Copy"
        };
        let shown = TransferSnapshot {
            id,
            title: title_of(verb, &request.items),
            kind: if request.move_src {
                TransferKind::Move
            } else {
                TransferKind::Copy
            },
            direction: direction(request.src_backend, request.dst_backend),
            state: TransferState::Queued,
            current_file: String::new(),
            done_bytes: 0,
            total_bytes: 0,
            files_done: 0,
            files_total: 0,
            rate: None,
            scanning: true,
            error: None,
        };
        JobState {
            shown,
            files_found: 0,
            bytes_found: 0,
            scan_done: false,
            done_bytes: 0,
            files_done: 0,
            started: false,
            any_skipped: false,
            failed: false,
            overwrite_all: request.overwrite,
            skip_all: false,
            waiting_conflicts: 0,
            finished: false,
        }
    }

    /// Snapshot of the live counters.
    pub fn snapshot(&self, rate: Option<Rate>) -> (r: TransferSnapshot)
        ensures
            r == snapshot_of(*self, rate),
    {
        let mut t = self.shown.clone();
        t.files_total = self.files_found;
        t.total_bytes = self.bytes_found;
        t.scanning = !self.scan_done;
        t.done_bytes = self.done_bytes;
        t.files_done = self.files_done;
        t.rate = rate;
        t
    }

    /// Whether a snapshot is to be sent now: unforced ones are limited to one
    /// per interval across all workers; none is sent after the last.
    pub fn may_emit(&self, force: bool, since_last_ms: u64) -> (r: bool)
        ensures
            r == may_send(self.finished, force, since_last_ms),
    {
        !self.finished && (force || since_last_ms >= EMIT_INTERVAL_MS)
    }

    /// The state that snapshots show.
    pub fn set_state(&mut self, state: TransferState)
        ensures
            *final(self) == with_state(*old(self), state),
    {
        self.shown.state = state;
    }

    /// The file that snapshots show.
    pub fn set_current(&mut self, name: &str)
        ensures
            final(self).shown == (TransferSnapshot {
                current_file: final(self).shown.current_file,
                ..old(self).shown
            }),
            final(self).shown.current_file@ == name@,
            final(self).same_counts(*old(self)),
    {
        self.shown.current_file = name.to_owned();
    }

    /// Takes over the totals that the scan found.
    pub fn scanned(&mut self, files: u32, bytes: u64, through: bool)
        ensures
            *final(self) == with_totals(*old(self), files, bytes, through),
    {
        self.files_found = files;
        self.bytes_found = bytes;
        self.scan_done = through;
    }

    /// Counts bytes as done.
    pub fn add_bytes(&mut self, n: u64)
        ensures
            *final(self) == with_bytes(*old(self), n),
    {
        self.done_bytes = self.done_bytes.wrapping_add(n);
    }

    /// A worker picked up a file: the first one sets the job running.
    pub fn file_started(&mut self)
        ensures
            *final(self) == with_file_started(*old(self)),
    {
        if !self.started {
            self.started = true;
            self.shown.state = TransferState::Running;
        }
    }

    /// A worker is through with a file. Returns whether the update is to be
    /// forced out: the first is, so short transfers show life at once.
    pub fn file_ended(&mut self, skipped: bool) -> (r: bool)
        ensures
            *final(self) == with_file_ended(*old(self), skipped),
            r == (final(self).files_done == 1),
    {
        if skipped {
            self.any_skipped = true;
        }
        self.files_done = self.files_done.wrapping_add(1);
        self.files_done == 1
    }

    /// A worker failed.
    pub fn fail(&mut self)
        ensures
            *final(self) == (JobState { failed: true, ..*old(self) }),
    {
        self.failed = true;
    }

    /// The job shows as paused. Returns whether that is news.
    pub fn show_paused(&mut self) -> (r: bool)
        ensures
            r == (old(self).shown.state != TransferState::Paused),
            *final(self) == with_state(*old(self), TransferState::Paused),
    {
        let news = self.shown.state != TransferState::Paused;
        self.shown.state = TransferState::Paused;
        news
    }

    /// The job's controls changed while it was paused: once it goes on, it
    /// shows what it did before. Returns whether that is news.
    pub fn show_resumed(&mut self, c: Ctrl) -> (r: bool)
        ensures
            r == (!c.paused && !c.cancelled),
            *final(self) == with_resumed(*old(self), c),
    {
        if !c.paused && !c.cancelled {
            self.shown.state = if self.started {
                TransferState::Running
            } else {
                TransferState::Scanning
            };
            true
        } else {
            false
        }
    }

    /// The answer that holds for all conflicts, if one was given.
    pub open spec fn standing_answer(self) -> Option<ConflictDecision> {
        if self.overwrite_all {
            Some(ConflictDecision::Overwrite)
        } else if self.skip_all {
            Some(ConflictDecision::Skip)
        } else {
            None
        }
    }

    /// Settles a conflict without asking, where an answer holds for all.
    pub fn conflict_policy(&self) -> (r: Option<ConflictDecision>)
        ensures
            r == self.standing_answer(),
    {
        if self.overwrite_all {
            Some(ConflictDecision::Overwrite)
        } else if self.skip_all {
            Some(ConflictDecision::Skip)
        } else {
            None
        }
    }

    /// It is this worker's turn to ask. A sibling may have answered for all,
    /// or the job may have ended, in the meantime; else the job shows that it
    /// waits.
    pub fn conflict_turn(&mut self, cancelled: bool) -> (r: ConflictTurn)
        ensures
            r == turn_of(*old(self), cancelled),
            *final(self) == with_turn(*old(self), cancelled),
    {
        if let Some(d) = self.conflict_policy() {
            return ConflictTurn::Settled(d);
        }
        if self.failed || cancelled {
            return ConflictTurn::Cancelled;
        }
        self.waiting_conflicts = self.waiting_conflicts.wrapping_add(1);
        self.shown.state = TransferState::WaitingConflict;
        ConflictTurn::Ask
    }

    /// The user's answer; `None` when there will be none, which cancels the
    /// job. An answer for all is remembered. Returns the decision, and
    /// whether the job runs again now that nobody waits.
    pub fn conflict_answered(&mut self, reply: Option<ConflictDecision>) -> (r: (
        ConflictDecision,
        bool,
    ))
        ensures
            r == answer_of(*old(self), reply),
            *final(self) == with_answer(*old(self), reply),
    {
        let decision = match reply {
            Some(d) => d,
            None => ConflictDecision::CancelJob,
        };
        let last = self.waiting_conflicts == 1;
        self.waiting_conflicts = self.waiting_conflicts.wrapping_sub(1);
        if last {
            self.shown.state = TransferState::Running;
        }
        match decision {
            ConflictDecision::OverwriteAll => self.overwrite_all = true,
            ConflictDecision::SkipAll => self.skip_all = true,
            _ => {},
        }
        (decision, last)
    }

    /// Whether the sources of a transfer that is through are to be deleted:
    /// for a move, and only when nothing was skipped, so that nothing is
    /// removed that was not copied.
    pub fn deletes_sources(&self, move_src: bool) -> (r: bool)
        ensures
            r == sources_go(move_src, self.any_skipped),
    {
        move_src && !self.any_skipped
    }

    /// The job ends. Flagged first, so that a worker still winding down
    /// cannot send a stale snapshot after the last one.
    pub fn finish(&mut self, state: TransferState, error: Option<String>)
        ensures
            *final(self) == with_end(*old(self), state, error),
    {
        self.finished = true;
        self.shown.state = state;
        self.shown.error = error;
    }
}

/// An answer for all is remembered, and from then on stands for every
/// conflict: later answers never take it back, and only an answer to overwrite
/// all takes the place of one to skip all. An answer for one conflict stands
/// for no other.
pub proof fn law_answer_for_all(before: JobState, reply: Option<ConflictDecision>)
    ensures
        ({
            let after = with_answer(before, reply);
            &&& reply == Some(ConflictDecision::OverwriteAll) ==> after.standing_answer() == Some(
                ConflictDecision::Overwrite,
            )
            &&& reply == Some(ConflictDecision::SkipAll) && !before.overwrite_all
                ==> after.standing_answer() == Some(ConflictDecision::Skip)
            &&& before.standing_answer() is Some && reply != Some(ConflictDecision::OverwriteAll)
                ==> after.standing_answer() == before.standing_answer()
            &&& before.standing_answer() is None && reply != Some(ConflictDecision::OverwriteAll)
                && reply != Some(ConflictDecision::SkipAll) ==> after.standing_answer() is None
        }),
{
}

} // verus!
