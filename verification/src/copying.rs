//! Copying one file: which step follows which outcome, from the probe for a
//! leftover partial file to the rename into place.

use crate::types::ConflictDecision;
use vstd::prelude::*;
use vstd::string::*;

verus! {

/// What is appended to a file's name while it is incomplete.
pub const PART_SUFFIX: &'static str = ".filepart";

/// Below this size a file is written straight to its final name: the
/// stage-and-rename through a partial file costs more round trips than
/// re-sending the whole file after an interruption.
pub const RESUME_THRESHOLD: u64 = 524288;

/// One file to copy, produced by the scanner. `mode` rides along from the
/// directory listing so the source need not be asked again.
#[derive(Debug)]
pub struct WorkItem {
    pub src_path: String,
    pub dst_final: String,
    pub size: u64,
    pub mode: Option<u32>,
}

/// The name that a file has while it is incomplete.
pub open spec fn part_name(dst_final: Seq<char>) -> Seq<char> {
    dst_final + PART_SUFFIX@
}

/// The name that a file has while it is incomplete.
pub fn part_path(dst_final: &str) -> (r: String)
    ensures
        r@ == part_name(dst_final@),
{
    let mut s = dst_final.to_owned();
    s.append(PART_SUFFIX);
    s
}

/// Why a copy failed.
#[derive(Debug, Clone, Copy, PartialEq, Eq, Structural)]
pub enum CopyFailure {
    Cancelled,
    /// Taking the existing file back as a partial one.
    Resume,
    OpenRead,
    OpenWrite,
    Read,
    Write,
    Finalize,
    /// Renaming the completed file into place.
    Place,
}

/// Where a copy stands: what it waits for, or how it ended.
#[derive(Debug, Clone, Copy, PartialEq, Eq, Structural)]
pub enum CopyPhase {
    ProbePart,
    ProbeDest,
    Deciding,
    Resuming,
    OpeningRead,
    OpeningWrite,
    /// The check for pause and cancel before each chunk.
    Checkpoint,
    Reading,
    Writing,
    Finalizing,
    /// Settling the reader after a complete copy.
    ClosingReader,
    /// Settling the reader after a failure to open the writer.
    AbandoningReader,
    /// Settling both after a failed copy, the reader first.
    AbortingReader,
    AbortingWriter,
    DeletingOld,
    Placing,
    SettingMode,
    Copied,
    Skipped,
    Failed,
}

/// The state of one copy.
#[derive(Debug, Clone, Copy, PartialEq, Eq, Structural)]
pub struct CopyState {
    pub size: u64,
    pub mode: Option<u32>,
    /// Whether the file is staged under its partial name.
    pub use_part: bool,
    /// How much of the destination is there already.
    pub offset: u64,
    /// Whether the destination exists and is to be replaced.
    pub dst_exists: bool,
    /// The size of the existing destination.
    pub dst_size: u64,
    /// Whether the existing destination was taken back as a partial file.
    pub resumed: bool,
    /// The length of the chunk that was read and is to be written.
    pub chunk: u64,
    pub failure: Option<CopyFailure>,
    pub phase: CopyPhase,
}

/// What to do next.
#[derive(Debug, Clone, Copy, PartialEq, Eq, Structural)]
pub enum CopyAction {
    /// Look for the partial file; answered by [`CopyEvent::Size`].
    StatPart,
    /// Look for the destination; answered by [`CopyEvent::Size`].
    StatDest,
    /// Ask what to do with it; answered by [`CopyEvent::Decision`].
    Decide { dst_size: u64 },
    /// Rename the destination to the partial name.
    RenameToPart,
    OpenRead { offset: u64 },
    /// Open the partial file or the final one, truncated when `offset` is 0.
    OpenWrite { part: bool, offset: u64 },
    /// Wait while paused; answered by whether the job goes on.
    Checkpoint,
    /// Read a chunk; answered by [`CopyEvent::Bytes`].
    Read,
    /// Write the chunk that was read.
    Write,
    /// Flush and close the writer.
    Shutdown,
    CloseReader,
    CloseWriter,
    /// Remove the destination out of the way; its outcome does not matter.
    DeleteDest,
    /// Rename the partial file to the final name.
    Place,
    /// Set the mode on the destination; its outcome does not matter.
    SetMode { mode: u32 },
    /// The copy ended.
    Finish,
}

/// How what was to be done came out.
#[derive(Debug, Clone, Copy, PartialEq, Eq, Structural)]
pub enum CopyEvent {
    /// The size of a file that was looked for, if it was found.
    Size(Option<u64>),
    /// The decision on a conflict; `None` when the job was cancelled instead.
    Decision(Option<ConflictDecision>),
    /// How many bytes were read; `None` when reading failed.
    Bytes(Option<u64>),
    /// Whether anything else succeeded.
    Done(bool),
}

/// What each phase waits for.
pub open spec fn action_of(s: CopyState) -> CopyAction {
    match s.phase {
        CopyPhase::ProbePart => CopyAction::StatPart,
        CopyPhase::ProbeDest => CopyAction::StatDest,
        CopyPhase::Deciding => CopyAction::Decide { dst_size: s.dst_size },
        CopyPhase::Resuming => CopyAction::RenameToPart,
        CopyPhase::OpeningRead => CopyAction::OpenRead { offset: s.offset },
        CopyPhase::OpeningWrite => CopyAction::OpenWrite { part: s.use_part, offset: s.offset },
        CopyPhase::Checkpoint => CopyAction::Checkpoint,
        CopyPhase::Reading => CopyAction::Read,
        CopyPhase::Writing => CopyAction::Write,
        CopyPhase::Finalizing => CopyAction::Shutdown,
        CopyPhase::ClosingReader => CopyAction::CloseReader,
        CopyPhase::AbandoningReader => CopyAction::CloseReader,
        CopyPhase::AbortingReader => CopyAction::CloseReader,
        CopyPhase::AbortingWriter => CopyAction::CloseWriter,
        CopyPhase::DeletingOld => CopyAction::DeleteDest,
        CopyPhase::Placing => CopyAction::Place,
        CopyPhase::SettingMode => CopyAction::SetMode { mode: s.mode.unwrap_or(0) },
        CopyPhase::Copied | CopyPhase::Skipped | CopyPhase::Failed => CopyAction::Finish,
    }
}

/// Whether an event answers what the state waits for.
pub open spec fn answers(s: CopyState, e: CopyEvent) -> bool {
    match s.phase {
        CopyPhase::ProbePart | CopyPhase::ProbeDest => e is Size,
        CopyPhase::Deciding => e is Decision,
        CopyPhase::Reading => e is Bytes,
        CopyPhase::Copied | CopyPhase::Skipped | CopyPhase::Failed => false,
        _ => e is Done,
    }
}

/// The state moved on to a phase.
pub open spec fn at(s: CopyState, phase: CopyPhase) -> CopyState {
    CopyState { phase, ..s }
}

/// The state moved on to a phase on the way to its failure.
pub open spec fn failing(s: CopyState, failure: CopyFailure, phase: CopyPhase) -> CopyState {
    CopyState { failure: Some(failure), phase, ..s }
}

/// The phase that comes once the data stands under its final name.
pub open spec fn after_placing(s: CopyState) -> CopyState {
    if s.mode is Some {
        at(s, CopyPhase::SettingMode)
    } else {
        at(s, CopyPhase::Copied)
    }
}

/// The start of a copy: a large file is staged, and a leftover of an earlier
/// run is looked for.
pub open spec fn copy_start(size: u64, mode: Option<u32>) -> CopyState {
    CopyState {
        size,
        mode,
        use_part: size >= RESUME_THRESHOLD,
        offset: 0,
        dst_exists: false,
        dst_size: 0,
        resumed: false,
        chunk: 0,
        failure: None,
        phase: if size >= RESUME_THRESHOLD {
            CopyPhase::ProbePart
        } else {
            CopyPhase::ProbeDest
        },
    }
}

/// The decision on an existing destination.
pub open spec fn decided(s: CopyState, d: ConflictDecision) -> (CopyState, u64) {
    match d {
        ConflictDecision::Overwrite | ConflictDecision::OverwriteAll => (
            at(s, CopyPhase::OpeningRead),
            s.offset,
        ),
        ConflictDecision::Resume => if s.dst_size >= s.size {
            (at(s, CopyPhase::Skipped), s.size)
        } else if s.use_part {
            (at(s, CopyPhase::Resuming), 0)
        } else {
            (at(s, CopyPhase::OpeningRead), s.offset)
        },
        ConflictDecision::Skip | ConflictDecision::SkipAll => (at(s, CopyPhase::Skipped), s.size),
        ConflictDecision::CancelJob => (
            failing(s, CopyFailure::Cancelled, CopyPhase::Failed),
            0,
        ),
    }
}

/// The state after an event, and how many bytes it adds to those done.
pub open spec fn copy_next(s: CopyState, e: CopyEvent) -> (CopyState, u64) {
    match (s.phase, e) {
        (CopyPhase::ProbePart, CopyEvent::Size(Some(n))) => if n < s.size && n > 0 {
            (CopyState { offset: n, phase: CopyPhase::OpeningRead, ..s }, n)
        } else {
            (at(s, CopyPhase::ProbeDest), 0)
        },
        (CopyPhase::ProbePart, _) => (at(s, CopyPhase::ProbeDest), 0),
        (CopyPhase::ProbeDest, CopyEvent::Size(Some(n))) => (
            CopyState { dst_exists: true, dst_size: n, phase: CopyPhase::Deciding, ..s },
            0,
        ),
        (CopyPhase::ProbeDest, _) => (at(s, CopyPhase::OpeningRead), s.offset),
        (CopyPhase::Deciding, CopyEvent::Decision(Some(d))) => decided(s, d),
        (CopyPhase::Deciding, _) => (failing(s, CopyFailure::Cancelled, CopyPhase::Failed), 0),
        (CopyPhase::Resuming, CopyEvent::Done(true)) => (
            CopyState {
                offset: s.dst_size,
                dst_exists: false,
                resumed: true,
                phase: CopyPhase::OpeningRead,
                ..s
            },
            s.dst_size,
        ),
        (CopyPhase::Resuming, _) => (failing(s, CopyFailure::Resume, CopyPhase::Failed), 0),
        (CopyPhase::OpeningRead, CopyEvent::Done(true)) => (at(s, CopyPhase::OpeningWrite), 0),
        (CopyPhase::OpeningRead, _) => (failing(s, CopyFailure::OpenRead, CopyPhase::Failed), 0),
        (CopyPhase::OpeningWrite, CopyEvent::Done(true)) => (at(s, CopyPhase::Checkpoint), 0),
        (CopyPhase::OpeningWrite, _) => (
            failing(s, CopyFailure::OpenWrite, CopyPhase::AbandoningReader),
            0,
        ),
        (CopyPhase::Checkpoint, CopyEvent::Done(true)) => (at(s, CopyPhase::Reading), 0),
        (CopyPhase::Checkpoint, _) => (
            failing(s, CopyFailure::Cancelled, CopyPhase::AbortingReader),
            0,
        ),
        (CopyPhase::Reading, CopyEvent::Bytes(Some(n))) => if n == 0 {
            (at(s, CopyPhase::Finalizing), 0)
        } else {
            (CopyState { chunk: n, phase: CopyPhase::Writing, ..s }, 0)
        },
        (CopyPhase::Reading, _) => (failing(s, CopyFailure::Read, CopyPhase::AbortingReader), 0),
        (CopyPhase::Writing, CopyEvent::Done(true)) => (at(s, CopyPhase::Checkpoint), s.chunk),
        (CopyPhase::Writing, _) => (failing(s, CopyFailure::Write, CopyPhase::AbortingReader), 0),
        (CopyPhase::Finalizing, CopyEvent::Done(true)) => (at(s, CopyPhase::ClosingReader), 0),
        (CopyPhase::Finalizing, _) => (
            failing(s, CopyFailure::Finalize, CopyPhase::AbortingReader),
            0,
        ),
        (CopyPhase::ClosingReader, _) => if !s.use_part {
            (after_placing(s), 0)
        } else if s.dst_exists {
            (at(s, CopyPhase::DeletingOld), 0)
        } else {
            (at(s, CopyPhase::Placing), 0)
        },
        (CopyPhase::AbandoningReader, _) => (at(s, CopyPhase::Failed), 0),
        (CopyPhase::AbortingReader, _) => (at(s, CopyPhase::AbortingWriter), 0),
        (CopyPhase::AbortingWriter, _) => (at(s, CopyPhase::Failed), 0),
        (CopyPhase::DeletingOld, _) => (at(s, CopyPhase::Placing), 0),
        (CopyPhase::Placing, CopyEvent::Done(true)) => (after_placing(s), 0),
        (CopyPhase::Placing, _) => (failing(s, CopyFailure::Place, CopyPhase::Failed), 0),
        (CopyPhase::SettingMode, _) => (at(s, CopyPhase::Copied), 0),
        _ => (s, 0),
    }
}

impl CopyState {
    /// The start of a copy.
    pub fn new(size: u64, mode: Option<u32>) -> (r: Self)
        ensures
            r == copy_start(size, mode),
    {
        let use_part = size >= RESUME_THRESHOLD;
        CopyState {
            size,
            mode,
            use_part,
            offset: 0,
            dst_exists: false,
            dst_size: 0,
            resumed: false,
            chunk: 0,
            failure: None,
            phase: if use_part {
                CopyPhase::ProbePart
            } else {
                CopyPhase::ProbeDest
            },
        }
    }

    /// What to do next.
    pub fn action(&self) -> (r: CopyAction)
        ensures
            r == action_of(*self),
    {
        match self.phase {
            CopyPhase::ProbePart => CopyAction::StatPart,
            CopyPhase::ProbeDest => CopyAction::StatDest,
            CopyPhase::Deciding => CopyAction::Decide { dst_size: self.dst_size },
            CopyPhase::Resuming => CopyAction::RenameToPart,
            CopyPhase::OpeningRead => CopyAction::OpenRead { offset: self.offset },
            CopyPhase::OpeningWrite => CopyAction::OpenWrite {
                part: self.use_part,
                offset: self.offset,
            },
            CopyPhase::Checkpoint => CopyAction::Checkpoint,
            CopyPhase::Reading => CopyAction::Read,
            CopyPhase::Writing => CopyAction::Write,
            CopyPhase::Finalizing => CopyAction::Shutdown,
            CopyPhase::ClosingReader => CopyAction::CloseReader,
            CopyPhase::AbandoningReader => CopyAction::CloseReader,
            CopyPhase::AbortingReader => CopyAction::CloseReader,
            CopyPhase::AbortingWriter => CopyAction::CloseWriter,
            CopyPhase::DeletingOld => CopyAction::DeleteDest,
            CopyPhase::Placing => CopyAction::Place,
            CopyPhase::SettingMode => CopyAction::SetMode { mode: self.mode.unwrap_or(0) },
            CopyPhase::Copied | CopyPhase::Skipped | CopyPhase::Failed => CopyAction::Finish,
        }
    }

    fn fail(&mut self, failure: CopyFailure, phase: CopyPhase)
        ensures
            *final(self) == failing(*old(self), failure, phase),
    {
        self.failure = Some(failure);
        self.phase = phase;
    }

    fn placed(&mut self)
        ensures
            *final(self) == after_placing(*old(self)),
    {
        self.phase = if self.mode.is_some() {
            CopyPhase::SettingMode
        } else {
            CopyPhase::Copied
        };
    }

    fn decide(&mut self, d: ConflictDecision) -> (r: u64)
        ensures
            (*final(self), r) == decided(*old(self), d),
    {
        match d {
            ConflictDecision::Overwrite | ConflictDecision::OverwriteAll => {
                self.phase = CopyPhase::OpeningRead;
                self.offset
            },
            ConflictDecision::Resume => {
                if self.dst_size >= self.size {
                    self.phase = CopyPhase::Skipped;
                    self.size
                } else if self.use_part {
                    self.phase = CopyPhase::Resuming;
                    0
                } else {
                    self.phase = CopyPhase::OpeningRead;
                    self.offset
                }
            },
            ConflictDecision::Skip | ConflictDecision::SkipAll => {
                self.phase = CopyPhase::Skipped;
                self.size
            },
            ConflictDecision::CancelJob => {
                self.fail(CopyFailure::Cancelled, CopyPhase::Failed);
                0
            },
        }
    }

    /// Takes the outcome of the pending action; returns how many bytes it
    /// adds to those done.
    pub fn step(&mut self, e: CopyEvent) -> (r: u64)
        requires
            answers(*old(self), e),
        ensures
            (*final(self), r) == copy_next(*old(self), e),
    {
        match (self.phase, e) {
            (CopyPhase::ProbePart, CopyEvent::Size(Some(n))) => {
                if n < self.size && n > 0 {
                    self.offset = n;
                    self.phase = CopyPhase::OpeningRead;
                    return n;
                }
                self.phase = CopyPhase::ProbeDest;
                0
            },
            (CopyPhase::ProbePart, _) => {
                self.phase = CopyPhase::ProbeDest;
                0
            },
            (CopyPhase::ProbeDest, CopyEvent::Size(Some(n))) => {
                self.dst_exists = true;
                self.dst_size = n;
                self.phase = CopyPhase::Deciding;
                0
            },
            (CopyPhase::ProbeDest, _) => {
                self.phase = CopyPhase::OpeningRead;
                self.offset
            },
            (CopyPhase::Deciding, CopyEvent::Decision(Some(d))) => self.decide(d),
            (CopyPhase::Deciding, _) => {
                self.fail(CopyFailure::Cancelled, CopyPhase::Failed);
                0
            },
            (CopyPhase::Resuming, CopyEvent::Done(true)) => {
                self.offset = self.dst_size;
                self.dst_exists = false;
                self.resumed = true;
                self.phase = CopyPhase::OpeningRead;
                self.offset
            },
            (CopyPhase::Resuming, _) => {
                self.fail(CopyFailure::Resume, CopyPhase::Failed);
                0
            },
            (CopyPhase::OpeningRead, CopyEvent::Done(true)) => {
                self.phase = CopyPhase::OpeningWrite;
                0
            },
            (CopyPhase::OpeningRead, _) => {
                self.fail(CopyFailure::OpenRead, CopyPhase::Failed);
                0
            },
            (CopyPhase::OpeningWrite, CopyEvent::Done(true)) => {
                self.phase = CopyPhase::Checkpoint;
                0
            },
            (CopyPhase::OpeningWrite, _) => {
                self.fail(CopyFailure::OpenWrite, CopyPhase::AbandoningReader);
                0
            },
            (CopyPhase::Checkpoint, CopyEvent::Done(true)) => {
                self.phase = CopyPhase::Reading;
                0
            },
            (CopyPhase::Checkpoint, _) => {
                self.fail(CopyFailure::Cancelled, CopyPhase::AbortingReader);
                0
            },
            (CopyPhase::Reading, CopyEvent::Bytes(Some(n))) => {
                if n == 0 {
                    self.phase = CopyPhase::Finalizing;
                } else {
                    self.chunk = n;
                    self.phase = CopyPhase::Writing;
                }
                0
            },
            (CopyPhase::Reading, _) => {
                self.fail(CopyFailure::Read, CopyPhase::AbortingReader);
                0
            },
            (CopyPhase::Writing, CopyEvent::Done(true)) => {
                self.phase = CopyPhase::Checkpoint;
                self.chunk
            },
            (CopyPhase::Writing, _) => {
                self.fail(CopyFailure::Write, CopyPhase::AbortingReader);
                0
            },
            (CopyPhase::Finalizing, CopyEvent::Done(true)) => {
                self.phase = CopyPhase::ClosingReader;
                0
            },
            (CopyPhase::Finalizing, _) => {
                self.fail(CopyFailure::Finalize, CopyPhase::AbortingReader);
                0
            },
            (CopyPhase::ClosingReader, _) => {
                if !self.use_part {
                    self.placed();
                } else if self.dst_exists {
                    self.phase = CopyPhase::DeletingOld;
                } else {
                    self.phase = CopyPhase::Placing;
                }
                0
            },
            (CopyPhase::AbandoningReader, _) => {
                self.phase = CopyPhase::Failed;
                0
            },
            (CopyPhase::AbortingReader, _) => {
                self.phase = CopyPhase::AbortingWriter;
                0
            },
            (CopyPhase::AbortingWriter, _) => {
                self.phase = CopyPhase::Failed;
                0
            },
            (CopyPhase::DeletingOld, _) => {
                self.phase = CopyPhase::Placing;
                0
            },
            (CopyPhase::Placing, CopyEvent::Done(true)) => {
                self.placed();
                0
            },
            (CopyPhase::Placing, _) => {
                self.fail(CopyFailure::Place, CopyPhase::Failed);
                0
            },
            (CopyPhase::SettingMode, _) => {
                self.phase = CopyPhase::Copied;
                0
            },
            _ => 0,
        }
    }
}

/// The destination side and the open streams, as a copy sees them.
#[verifier::ext_equal]
pub struct CopyWorld {
    /// What stands under the partial name.
    pub part: Option<Seq<u8>>,
    /// What stands under the final name.
    pub dest: Option<Seq<u8>>,
    pub read_pos: nat,
    pub write_pos: nat,
    /// The chunk read last.
    pub chunk: Seq<u8>,
    /// Bytes added to those done.
    pub counted: nat,
}

/// What the copy writes to.
pub open spec fn target(w: CopyWorld, part: bool) -> Option<Seq<u8>> {
    if part {
        w.part
    } else {
        w.dest
    }
}

/// The world with `content` in what the copy writes to.
pub open spec fn with_target(w: CopyWorld, part: bool, content: Seq<u8>) -> CopyWorld {
    if part {
        CopyWorld { part: Some(content), ..w }
    } else {
        CopyWorld { dest: Some(content), ..w }
    }
}

/// `content` with `chunk` written over it at `pos`, which is no further than
/// its end.
pub open spec fn written(content: Seq<u8>, pos: nat, chunk: Seq<u8>) -> Seq<u8> {
    let end = (pos + chunk.len()) as int;
    content.take(pos as int) + chunk + if end < content.len() {
        content.skip(end)
    } else {
        seq![]
    }
}

/// Whether doing what `s` waits for can come out as `e` and take `w` to `w2`,
/// when the source holds `src`. What a failed write or flush leaves is left
/// open.
pub open spec fn outcome(
    s: CopyState,
    w: CopyWorld,
    src: Seq<u8>,
    e: CopyEvent,
    w2: CopyWorld,
) -> bool {
    match (action_of(s), e) {
        (CopyAction::StatPart, CopyEvent::Size(Some(n))) => w.part is Some && w.part->0.len() == n
            && w2 == w,
        (CopyAction::StatPart, CopyEvent::Size(None)) => w2 == w,
        (CopyAction::StatDest, CopyEvent::Size(Some(n))) => w.dest is Some && w.dest->0.len() == n
            && w2 == w,
        (CopyAction::StatDest, CopyEvent::Size(None)) => w2 == w,
        (CopyAction::Decide { .. }, CopyEvent::Decision(_)) => w2 == w,
        (CopyAction::RenameToPart, CopyEvent::Done(true)) => w.dest is Some && w2 == (CopyWorld {
            part: w.dest,
            dest: None,
            ..w
        }),
        (CopyAction::OpenRead { offset }, CopyEvent::Done(true)) => w2 == (CopyWorld {
            read_pos: offset as nat,
            ..w
        }),
        (CopyAction::OpenWrite { part, offset }, CopyEvent::Done(true)) => w2 == (CopyWorld {
            write_pos: offset as nat,
            ..with_target(
                w,
                part,
                if offset == 0 || target(w, part) is None {
                    seq![]
                } else {
                    target(w, part)->0
                },
            )
        }),
        (CopyAction::Read, CopyEvent::Bytes(Some(n))) => if w.read_pos >= src.len() {
            n == 0 && w2 == w
        } else {
            0 < n <= src.len() - w.read_pos && w2 == (CopyWorld {
                read_pos: w.read_pos + n as nat,
                chunk: src.subrange(w.read_pos as int, w.read_pos + n),
                ..w
            })
        },
        (CopyAction::Write, CopyEvent::Done(true)) => target(w, s.use_part) is Some && w2 == (
        CopyWorld {
            write_pos: w.write_pos + w.chunk.len(),
            ..with_target(
                w,
                s.use_part,
                written(target(w, s.use_part)->0, w.write_pos, w.chunk),
            )
        }),
        (CopyAction::Write, CopyEvent::Done(false)) | (
            CopyAction::Shutdown,
            CopyEvent::Done(false),
        ) => exists|c: Seq<u8>| w2 == #[trigger] with_target(w, s.use_part, c),
        (CopyAction::DeleteDest, CopyEvent::Done(_)) => w2 == w || w2 == (CopyWorld {
            dest: None,
            ..w
        }),
        (CopyAction::Place, CopyEvent::Done(true)) => w.part is Some && w2 == (CopyWorld {
            dest: w.part,
            part: None,
            ..w
        }),
        (CopyAction::Finish, _) => false,
        _ => answers(s, e) && w2 == w,
    }
}

/// The world after an event, with the bytes that it counts.
pub open spec fn counted(w: CopyWorld, n: u64) -> CopyWorld {
    CopyWorld { counted: w.counted + n as nat, ..w }
}

/// Whether `head` is the beginning of `whole`, and not all of it.
pub open spec fn is_beginning(head: Seq<u8>, whole: Seq<u8>) -> bool {
    head.len() < whole.len() && head == whole.take(head.len() as int)
}

/// Whether a copy can build on what stands under the partial name: where the
/// source is large and that is shorter, it is the source's beginning.
pub open spec fn sound_part(w: CopyWorld, src: Seq<u8>, size: u64) -> bool {
    size >= RESUME_THRESHOLD && w.part is Some && w.part->0.len() < size ==> is_beginning(
        w.part->0,
        src,
    )
}

/// What a copy relies on at its start: the source is as long as it was
/// listed, and a leftover partial file is sound.
pub open spec fn resumable(start: CopyWorld, src: Seq<u8>, size: u64) -> bool {
    &&& src.len() == size
    &&& start.counted == 0
    &&& sound_part(start, src, size)
}

/// Whether a copy failed in writing, so that what it wrote cannot be told.
pub open spec fn spoiled(failure: Option<CopyFailure>) -> bool {
    failure == Some(CopyFailure::Write) || failure == Some(CopyFailure::Finalize)
}

/// What choosing to resume relies on: the destination that was taken back is
/// the beginning of the source.
pub open spec fn resumed_rightly(s: CopyState, start: CopyWorld, src: Seq<u8>) -> bool {
    s.resumed ==> start.dest is Some && is_beginning(start.dest->0, src)
}

/// Where the phases stand in the order of a copy.
pub open spec fn untouched(p: CopyPhase) -> bool {
    p is ProbePart || p is ProbeDest || p is Deciding || p is Resuming || p is Skipped
}

/// The streams are being opened.
pub open spec fn opening(p: CopyPhase) -> bool {
    p is OpeningRead || p is OpeningWrite
}

/// A chunk is about to be read.
pub open spec fn streaming(p: CopyPhase) -> bool {
    p is Checkpoint || p is Reading
}

/// All data is written.
pub open spec fn complete(p: CopyPhase) -> bool {
    p is Finalizing || p is ClosingReader
}

/// The copy failed, or is about to.
pub open spec fn stuck(p: CopyPhase) -> bool {
    p is AbandoningReader || p is AbortingReader || p is AbortingWriter || p is Failed
}

/// What holds all through a copy that began at `start`.
pub open spec fn copy_inv(s: CopyState, w: CopyWorld, start: CopyWorld, src: Seq<u8>) -> bool {
    let right = resumed_rightly(s, start, src);
    &&& resumable(start, src, s.size)
    &&& s.use_part == (s.size >= RESUME_THRESHOLD)
    // Until something is opened or renamed, nothing has changed.
    &&& untouched(s.phase) ==> {
        &&& w.part == start.part
        &&& w.dest == start.dest
        &&& s.offset == 0
        &&& !s.resumed
        &&& w.counted == if s.phase is Skipped {
            s.size as nat
        } else {
            0
        }
    }
    &&& s.phase is Deciding || s.phase is Resuming ==> s.dst_exists && start.dest is Some
        && start.dest->0.len() == s.dst_size
    &&& s.phase is ProbePart ==> s.use_part
    &&& s.phase is Resuming ==> s.use_part && s.dst_size < s.size
    // What is built upon is the beginning of the source.
    &&& opening(s.phase) ==> {
        &&& w.counted == s.offset
        &&& s.offset < src.len() || s.offset == 0
        &&& s.offset > 0 ==> s.use_part && w.part is Some
        &&& s.offset > 0 && right ==> w.part == Some(src.take(s.offset as int))
        &&& s.phase is OpeningWrite ==> w.read_pos == s.offset
    }
    // What was written is the beginning of the source.
    &&& streaming(s.phase) ==> {
        &&& w.counted == w.write_pos == w.read_pos <= src.len()
        &&& right ==> target(w, s.use_part) == Some(src.take(w.write_pos as int))
    }
    &&& s.phase is Writing ==> {
        &&& w.counted == w.write_pos
        &&& w.write_pos + w.chunk.len() == w.read_pos <= src.len()
        &&& w.chunk == src.subrange(w.write_pos as int, w.read_pos as int)
        &&& s.chunk == w.chunk.len()
        &&& right ==> target(w, s.use_part) == Some(src.take(w.write_pos as int))
    }
    &&& complete(s.phase) || s.phase is DeletingOld || s.phase is Placing ==> {
        &&& w.counted == s.size
        &&& right ==> target(w, s.use_part) == Some(src)
    }
    &&& s.phase is DeletingOld || s.phase is Placing ==> s.use_part
    &&& s.phase is SettingMode || s.phase is Copied ==> {
        &&& w.counted == s.size
        &&& right ==> w.dest == Some(src)
        &&& s.use_part ==> w.part is None
    }
    // Only a file that is there already is skipped.
    &&& s.phase is Skipped ==> start.dest is Some
    // A staged file leaves the destination alone until it is complete.
    &&& s.use_part && !(s.phase is Placing || s.phase is SettingMode || s.phase is Copied || s.phase
        is Failed) ==> w.dest == if s.resumed {
        None
    } else {
        start.dest
    }
    &&& s.use_part && s.phase is Failed && s.failure != Some(CopyFailure::Place) ==> w.dest
        == if s.resumed {
        None
    } else {
        start.dest
    }
    // What is left of the partial file can be built upon by another run.
    &&& right && !spoiled(s.failure) ==> sound_part(w, src, s.size)
    &&& right && s.phase is Failed && s.failure == Some(CopyFailure::Place) ==> w.part == Some(src)
    &&& !stuck(s.phase) ==> s.failure is None
    &&& s.phase is Failed ==> s.failure is Some
    &&& stuck(s.phase) && !(s.phase is Failed) ==> s.failure is Some && s.failure != Some(
        CopyFailure::Place,
    )
}

/// A copy starts in good order.
pub proof fn law_copy_starts(size: u64, mode: Option<u32>, start: CopyWorld, src: Seq<u8>)
    requires
        resumable(start, src, size),
    ensures
        copy_inv(copy_start(size, mode), start, start, src),
{
}

/// Whatever comes of a step, the copy stays in good order.
pub proof fn law_copy_step(
    s: CopyState,
    w: CopyWorld,
    start: CopyWorld,
    src: Seq<u8>,
    e: CopyEvent,
    w2: CopyWorld,
)
    requires
        copy_inv(s, w, start, src),
        outcome(s, w, src, e, w2),
    ensures
        copy_inv(copy_next(s, e).0, counted(w2, copy_next(s, e).1), start, src),
{
    let s2 = copy_next(s, e).0;
    if s.phase is Writing && e == CopyEvent::Done(true) && resumed_rightly(s, start, src) {
        let content = target(w, s.use_part)->0;
        assert(written(content, w.write_pos, w.chunk) =~= src.take(w.read_pos as int));
    }
    if s.phase is Reading {
        if w.read_pos >= src.len() {
            assert(src.take(w.write_pos as int) =~= src);
        }
    }
    if s.phase is OpeningWrite {
        assert(src.take(0) =~= seq![]);
    }
}

/// A copy that ends well leaves the source's bytes at the destination and has
/// counted each of them once, where what it resumed was their beginning; one
/// that was staged leaves nothing under the partial name. A copy that skips
/// the file, which is there already, leaves everything as it was and counts it
/// as done.
pub proof fn law_copy_ends(s: CopyState, w: CopyWorld, start: CopyWorld, src: Seq<u8>)
    requires
        copy_inv(s, w, start, src),
    ensures
        s.phase is Copied ==> w.counted == src.len(),
        s.phase is Copied && resumed_rightly(s, start, src) ==> w.dest == Some(src),
        s.phase is Copied && s.size >= RESUME_THRESHOLD ==> w.part is None,
        s.phase is Skipped ==> start.dest is Some && w.part == start.part && w.dest == start.dest
            && w.counted == s.size,
{
}

/// A large file's destination is left as it was by a copy that fails before
/// its data is complete, unless it was taken back as the partial file.
pub proof fn law_copy_failed_keeps_dest(
    s: CopyState,
    w: CopyWorld,
    start: CopyWorld,
    src: Seq<u8>,
)
    requires
        copy_inv(s, w, start, src),
        s.phase is Failed,
        s.size >= RESUME_THRESHOLD,
        s.failure != Some(CopyFailure::Place),
        !s.resumed,
    ensures
        w.dest == start.dest,
{
}

/// A copy that is cancelled or fails, other than in writing, can be taken up
/// by another run: what it leaves under the partial name is sound, and so that
/// run starts in good order.
pub proof fn law_copy_taken_up(s: CopyState, w: CopyWorld, start: CopyWorld, src: Seq<u8>)
    requires
        copy_inv(s, w, start, src),
        s.phase is Failed,
        resumed_rightly(s, start, src),
        !spoiled(s.failure),
    ensures
        ({
            let again = CopyWorld { counted: 0, ..w };
            copy_inv(copy_start(s.size, s.mode), again, again, src)
        }),
        s.failure == Some(CopyFailure::Place) ==> w.part == Some(src),
{
}

/// What holds of the state of every copy, whatever its outcomes were: what
/// [`law_copy_state`] keeps.
pub open spec fn in_order(s: CopyState) -> bool {
    &&& s.use_part == (s.size >= RESUME_THRESHOLD)
    &&& s.phase is ProbePart ==> s.use_part
    &&& s.phase is ProbePart || s.phase is ProbeDest ==> !s.dst_exists
    &&& untouched(s.phase) ==> s.offset == 0 && !s.resumed
    &&& s.phase is Deciding || s.phase is Resuming ==> s.dst_exists
    &&& s.phase is Resuming ==> s.use_part && s.dst_size < s.size
    &&& s.offset > 0 ==> s.use_part && s.offset < s.size && !s.dst_exists
    &&& s.phase is DeletingOld ==> s.use_part && s.dst_exists
    &&& s.phase is Placing ==> s.use_part
    &&& s.phase is SettingMode ==> s.mode is Some
    &&& s.failure is Some <==> stuck(s.phase)
}

/// A copy starts in order, each outcome leaves it so, and none changes what is
/// copied: its size, its mode and where it is staged.
pub proof fn law_copy_state(size: u64, mode: Option<u32>, s: CopyState, e: CopyEvent)
    requires
        in_order(s),
        answers(s, e),
    ensures
        in_order(copy_start(size, mode)),
        copy_start(size, mode).size == size && copy_start(size, mode).mode == mode,
        in_order(copy_next(s, e).0),
        copy_next(s, e).0.size == s.size,
        copy_next(s, e).0.mode == s.mode,
        copy_next(s, e).0.use_part == s.use_part,
{
}

/// What an answer to a conflict leads to. The file is skipped only when that
/// was asked for, or when it is to be resumed and has nothing missing; it is
/// taken back as a partial file only when it is to be resumed, is shorter and
/// large; the copy is given up only when the job is; and else the source is
/// copied from its beginning. A skipped file counts as done.
pub proof fn law_conflict_settled(s: CopyState, answer: ConflictDecision)
    requires
        in_order(s),
        s.phase is Deciding,
    ensures
        ({
            let (next, counted) = copy_next(s, CopyEvent::Decision(Some(answer)));
            let skips = answer is Skip || answer is SkipAll || (answer is Resume && s.dst_size
                >= s.size);
            let takes_back = answer is Resume && s.dst_size < s.size && s.size
                >= RESUME_THRESHOLD;
            &&& next.phase is Skipped <==> skips
            &&& next.phase is Failed <==> answer is CancelJob
            &&& action_of(next) == CopyAction::RenameToPart <==> takes_back
            &&& action_of(next) == (CopyAction::OpenRead { offset: 0 }) <==> !skips && !takes_back
                && !(answer is CancelJob)
            &&& counted == if skips {
                s.size
            } else {
                0
            }
            &&& next.dst_exists
        }),
        copy_next(s, CopyEvent::Decision(None)).0.phase is Failed,
        copy_next(s, CopyEvent::Decision(None)).0.failure == Some(CopyFailure::Cancelled),
        copy_next(s, CopyEvent::Decision(Some(ConflictDecision::CancelJob))).0.failure == Some(
            CopyFailure::Cancelled,
        ),
{
}

/// Answers for all do to this file what the same answers for one do. To
/// overwrite is never to skip: the source is opened where the copy stands, and
/// every skip was asked for or leaves nothing missing.
pub proof fn law_answer_for_all_or_one(s: CopyState, answer: ConflictDecision)
    requires
        s.phase is Deciding,
    ensures
        answer is Overwrite || answer is OverwriteAll ==> action_of(
            copy_next(s, CopyEvent::Decision(Some(answer))).0,
        ) == (CopyAction::OpenRead { offset: s.offset }),
        copy_next(s, CopyEvent::Decision(Some(answer))).0.phase is Skipped ==> answer is Skip
            || answer is SkipAll || (answer is Resume && s.dst_size >= s.size),
        copy_next(s, CopyEvent::Decision(Some(ConflictDecision::OverwriteAll))) == copy_next(
            s,
            CopyEvent::Decision(Some(ConflictDecision::Overwrite)),
        ),
        copy_next(s, CopyEvent::Decision(Some(ConflictDecision::SkipAll))) == copy_next(
            s,
            CopyEvent::Decision(Some(ConflictDecision::Skip)),
        ),
{
}

/// What a copy looks for first: a large file's leftover of an earlier run, and
/// else the destination. A leftover that is shorter than the source and not
/// empty is continued without a question, and counted; a destination that is
/// there is asked about, with its size; and where neither is there, the source
/// is copied from its beginning.
pub proof fn law_copy_probes(size: u64, mode: Option<u32>, n: u64, s: CopyState)
    requires
        in_order(s),
        s.phase is ProbePart || s.phase is ProbeDest,
    ensures
        action_of(copy_start(size, mode)) == if size >= 524288 {
            CopyAction::StatPart
        } else {
            CopyAction::StatDest
        },
        ({
            let (found, counted) = copy_next(s, CopyEvent::Size(Some(n)));
            let (missing, none) = copy_next(s, CopyEvent::Size(None));
            &&& none == 0
            &&& if s.phase is ProbePart {
                &&& action_of(missing) == CopyAction::StatDest
                &&& if 0 < n < s.size {
                    action_of(found) == (CopyAction::OpenRead { offset: n }) && counted == n
                } else {
                    action_of(found) == CopyAction::StatDest && counted == 0
                }
            } else {
                &&& action_of(missing) == (CopyAction::OpenRead { offset: 0 })
                &&& !missing.dst_exists
                &&& action_of(found) == (CopyAction::Decide { dst_size: n })
                &&& counted == 0
            }
        }),
{
}

/// What follows what, where all goes well: the source is opened, then the
/// partial file of a large source or the destination of a small one, at the
/// same place; chunks are read and written, each after a check, until there is
/// none; then the writer is closed and the reader; a staged file takes the
/// place of a destination that was to be replaced, once that is out of the
/// way; and the mode is set last, where there is one. A chunk counts once it
/// is written.
pub proof fn law_copy_goes_on(s: CopyState, n: u64)
    requires
        in_order(s),
    ensures
        ({
            let (next, counted) = copy_next(
                s,
                if s.phase is Reading {
                    CopyEvent::Bytes(Some(n))
                } else {
                    CopyEvent::Done(true)
                },
            );
            let then = action_of(next);
            let placed = if s.mode is Some {
                CopyAction::SetMode { mode: s.mode->0 }
            } else {
                CopyAction::Finish
            };
            &&& s.phase is Resuming ==> then == (CopyAction::OpenRead { offset: s.dst_size })
                && counted == s.dst_size && !next.dst_exists && next.resumed
            &&& s.phase is OpeningRead ==> then == (CopyAction::OpenWrite {
                part: s.size >= RESUME_THRESHOLD,
                offset: s.offset,
            })
            &&& s.phase is OpeningWrite ==> then == CopyAction::Checkpoint
            &&& s.phase is Checkpoint ==> then == CopyAction::Read
            &&& s.phase is Reading ==> then == if n == 0 {
                CopyAction::Shutdown
            } else {
                CopyAction::Write
            }
            &&& s.phase is Reading && n > 0 ==> next.chunk == n
            &&& s.phase is Writing ==> then == CopyAction::Checkpoint && counted == s.chunk
            &&& s.phase is Finalizing ==> then == CopyAction::CloseReader
            &&& s.phase is ClosingReader ==> then == if s.size < RESUME_THRESHOLD {
                placed
            } else if s.dst_exists {
                CopyAction::DeleteDest
            } else {
                CopyAction::Place
            }
            &&& s.phase is DeletingOld ==> then == CopyAction::Place
            &&& s.phase is Placing ==> then == placed
            &&& s.phase is SettingMode ==> then == CopyAction::Finish
            &&& s.phase is SettingMode || (then == CopyAction::Finish && (s.phase is Placing
                || s.phase is ClosingReader)) ==> next.phase is Copied
            &&& counted > 0 ==> s.phase is Resuming || s.phase is Writing
        }),
{
}

/// What follows a failure: the reader is closed where it is open, then the
/// writer where it is, and the copy fails with what failed first. Only a file
/// in the way that cannot be removed, a stream that does not close, and a mode
/// that cannot be set fail nothing. A failure counts no bytes.
pub proof fn law_copy_fails(s: CopyState)
    requires
        in_order(s),
        !(s.phase is Copied || s.phase is Skipped || s.phase is Failed),
        !(s.phase is ProbePart || s.phase is ProbeDest || s.phase is Deciding),
    ensures
        ({
            let (next, counted) = copy_next(
                s,
                if s.phase is Reading {
                    CopyEvent::Bytes(None)
                } else {
                    CopyEvent::Done(false)
                },
            );
            let then = action_of(next);
            let both_open = s.phase is Checkpoint || s.phase is Reading || s.phase is Writing
                || s.phase is Finalizing;
            &&& counted == 0
            &&& both_open ==> then == CopyAction::CloseReader && next.phase is AbortingReader
            &&& s.phase is OpeningWrite ==> then == CopyAction::CloseReader && next.phase
                is AbandoningReader
            &&& s.phase is AbortingReader ==> then == CopyAction::CloseWriter
            &&& s.phase is AbandoningReader || s.phase is AbortingWriter ==> next.phase is Failed
            &&& s.phase is Resuming || s.phase is OpeningRead || s.phase is Placing ==> next.phase
                is Failed
            &&& stuck(s.phase) ==> next.failure == s.failure
            &&& s.phase is Resuming ==> next.failure == Some(CopyFailure::Resume)
            &&& s.phase is OpeningRead ==> next.failure == Some(CopyFailure::OpenRead)
            &&& s.phase is OpeningWrite ==> next.failure == Some(CopyFailure::OpenWrite)
            &&& s.phase is Checkpoint ==> next.failure == Some(CopyFailure::Cancelled)
            &&& s.phase is Reading ==> next.failure == Some(CopyFailure::Read)
            &&& s.phase is Writing ==> next.failure == Some(CopyFailure::Write)
            &&& s.phase is Finalizing ==> next.failure == Some(CopyFailure::Finalize)
            &&& s.phase is Placing ==> next.failure == Some(CopyFailure::Place)
            &&& s.phase is ClosingReader || s.phase is DeletingOld || s.phase is SettingMode
                ==> copy_next(s, CopyEvent::Done(false)) == copy_next(s, CopyEvent::Done(true))
        }),
{
}

/// The name of an incomplete file begins with the name of the file it is to
/// be, is longer, and differs where that differs.
pub proof fn law_part_names(a: Seq<char>, b: Seq<char>)
    ensures
        part_name(a).take(a.len() as int) == a,
        part_name(a).skip(a.len() as int) == ".filepart"@,
        part_name(a) == part_name(b) ==> a == b,
{
    assert(part_name(a).take(a.len() as int) =~= a);
    assert(part_name(b).take(b.len() as int) =~= b);
    assert(part_name(a).skip(a.len() as int) =~= ".filepart"@);
    if part_name(a) == part_name(b) {
        assert(part_name(a).len() == part_name(b).len());
    }
}

} // verus!
