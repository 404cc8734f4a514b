use std::collections::BTreeMap;

use linuxscp::copying::{
    part_path, CopyAction, CopyEvent, CopyFailure, CopyPhase, CopyState, WorkItem, PART_SUFFIX,
    RESUME_THRESHOLD,
};
use linuxscp::fsops::{join, AttrChanges};
use linuxscp::jobs::{
    worker_checked, worker_copied, worker_fetched, worker_round, CopyResult, Fetched, JobRun,
    RunPhase, WorkerAction,
};
use linuxscp::scanning::{ScanAction, ScanFailure, ScanPhase, Scanner};
use linuxscp::transfers::{
    after_close, attrs_title, checkpoint, control, delete_title, next_id, op_end, op_snapshot,
    register, title_of, transfer_end, unregister, Checkpoint, CloseAttempt, CloseNext,
    ConflictTurn, Controls, Ctrl, JobOutcome, JobState, CLOSE_ATTEMPTS,
};
use linuxscp::types::{
    Backend, ConflictDecision, FsEntry, Rate, TransferAction, TransferDirection, TransferKind,
    TransferRequest, TransferSnapshot, TransferState,
};
use linuxscp::walks::{
    AttrsWalk, ChildEntry, DeleteStep, DeleteWalk, DiskUsage, OpProgress, UsageWalk,
};

/// A file tree in memory: directories hold nothing, files hold bytes.
#[derive(Default)]
struct Disk {
    dirs: Vec<String>,
    files: BTreeMap<String, Vec<u8>>,
}

impl Disk {
    fn mkdir(&mut self, path: &str) {
        if !self.is_dir(path) {
            self.dirs.push(path.to_string());
        }
    }

    fn is_dir(&self, path: &str) -> bool {
        self.dirs.iter().any(|d| d == path)
    }

    fn holds(&self, path: &str) -> bool {
        self.is_dir(path) || self.files.contains_key(path)
    }

    fn stat(&self, path: &str) -> FsEntry {
        FsEntry {
            name: path.rsplit('/').next().unwrap().to_string(),
            path: path.to_string(),
            is_dir: self.is_dir(path),
            is_symlink: false,
            size: self.files.get(path).map_or(0, |f| f.len() as u64),
            mtime: None,
            mode: Some(0o644),
            owner: None,
            group: None,
            link_target: None,
        }
    }

    fn list(&self, dir: &str) -> Vec<FsEntry> {
        let prefix = format!("{dir}/");
        let mut names: Vec<String> = self
            .dirs
            .iter()
            .chain(self.files.keys())
            .filter_map(|p| p.strip_prefix(&prefix))
            .filter(|rest| !rest.contains('/'))
            .map(String::from)
            .collect();
        names.sort();
        names.iter().map(|n| self.stat(&join(dir, n))).collect()
    }

    fn rename(&mut self, from: &str, to: &str) -> bool {
        match self.files.remove(from) {
            Some(bytes) => {
                self.files.insert(to.to_string(), bytes);
                true
            }
            None => false,
        }
    }

    fn delete(&mut self, root: &FsEntry) {
        let mut walk = DeleteWalk::new(&root.path, root.is_dir);
        while let Some(step) = walk.next() {
            match step {
                DeleteStep::RemoveFile(path) => {
                    self.files.remove(&path).expect("a file that is there");
                }
                DeleteStep::ListDir(dir) => {
                    let children: Vec<ChildEntry> = self
                        .list(&dir)
                        .into_iter()
                        .map(|e| ChildEntry { name: e.name, is_dir: e.is_dir })
                        .collect();
                    walk.listed(&children);
                }
                DeleteStep::RemoveDir(dir) => {
                    assert!(self.list(&dir).is_empty(), "children go first");
                    assert!(self.is_dir(&dir), "no directory goes twice");
                    self.dirs.retain(|d| d != &dir);
                }
            }
        }
    }
}

/// Copies one file the way the machine says; `answer` settles a conflict.
fn copy_file(
    disk: &mut Disk,
    item: &WorkItem,
    answer: Option<ConflictDecision>,
    counted: &mut u64,
) -> CopyState {
    copy_chunks(disk, item, answer, counted, usize::MAX)
}

/// Copies one file, and is cancelled when it comes to one chunk more.
fn copy_chunks(
    disk: &mut Disk,
    item: &WorkItem,
    answer: Option<ConflictDecision>,
    counted: &mut u64,
    chunks: usize,
) -> CopyState {
    let mut checks: usize = 0;
    let mut copy = CopyState::new(item.size, item.mode);
    let part = part_path(&item.dst_final);
    let mut from: usize = 0;
    let mut chunk: Vec<u8> = Vec::new();
    let mut target = String::new();
    loop {
        let event = match copy.action() {
            CopyAction::StatPart => CopyEvent::Size(disk.files.get(&part).map(|f| f.len() as u64)),
            CopyAction::StatDest => {
                CopyEvent::Size(disk.files.get(&item.dst_final).map(|f| f.len() as u64))
            }
            CopyAction::Decide { .. } => match answer {
                Some(decision) => CopyEvent::Decision(Some(decision)),
                None => panic!("a conflict came up"),
            },
            CopyAction::RenameToPart => CopyEvent::Done(disk.rename(&item.dst_final, &part)),
            CopyAction::OpenRead { offset } => {
                from = offset as usize;
                CopyEvent::Done(disk.files.contains_key(&item.src_path))
            }
            CopyAction::OpenWrite { part: staged, offset } => {
                target = if staged { part.clone() } else { item.dst_final.clone() };
                let bytes = disk.files.entry(target.clone()).or_default();
                bytes.truncate(offset as usize);
                CopyEvent::Done(true)
            }
            CopyAction::Checkpoint => {
                checks += 1;
                CopyEvent::Done(checks <= chunks)
            }
            CopyAction::Read => {
                let source = &disk.files[&item.src_path];
                let end = (from + 100_000).min(source.len());
                chunk = source[from..end].to_vec();
                from = end;
                CopyEvent::Bytes(Some(chunk.len() as u64))
            }
            CopyAction::Write => {
                disk.files.get_mut(&target).unwrap().extend_from_slice(&chunk);
                CopyEvent::Done(true)
            }
            CopyAction::Shutdown | CopyAction::CloseReader | CopyAction::CloseWriter => {
                CopyEvent::Done(true)
            }
            CopyAction::DeleteDest => CopyEvent::Done(disk.files.remove(&item.dst_final).is_some()),
            CopyAction::Place => CopyEvent::Done(disk.rename(&part, &item.dst_final)),
            CopyAction::SetMode { mode } => {
                assert_eq!(Some(mode), item.mode);
                CopyEvent::Done(true)
            }
            CopyAction::Finish => return copy,
        };
        *counted += copy.step(event);
    }
}

/// Runs a transfer to its end, one file after the other.
fn run(
    disk: &mut Disk,
    request: &TransferRequest,
    answer: Option<ConflictDecision>,
) -> TransferSnapshot {
    let mut job = JobState::new(1, request);
    let mut scan = Scanner::new(&request.items, &request.dst_dir);
    let mut queue: Vec<WorkItem> = Vec::new();
    job.set_state(TransferState::Scanning);
    loop {
        match scan.action() {
            ScanAction::Checkpoint => scan.passed(true),
            ScanAction::Exists => {
                let found = disk.holds(&scan.dest_path());
                scan.probed(found);
            }
            ScanAction::MakeDir => {
                let dest = scan.dest_path();
                disk.mkdir(&dest);
                scan.made(true);
            }
            ScanAction::List => {
                let children = disk.list(&scan.source_path());
                scan.listed(Some(&children));
            }
            ScanAction::Send => {
                queue.push(scan.item());
                scan.sent(true);
            }
            ScanAction::Finish => break,
        }
        job.scanned(scan.files, scan.bytes, false);
    }
    assert_eq!(scan.phase, ScanPhase::Complete);
    job.scanned(scan.files, scan.bytes, true);

    queue.reverse();
    let mut next = worker_round(&job);
    let mut current: Option<WorkItem> = None;
    loop {
        match next {
            WorkerAction::Fetch => {
                current = queue.pop();
                let got = if current.is_some() { Fetched::File } else { Fetched::Closed };
                next = worker_fetched(&mut job, got);
            }
            WorkerAction::Checkpoint => next = worker_checked(true),
            WorkerAction::Copy => {
                let item = current.take().unwrap();
                job.set_current(&item.src_path);
                let settled = match job.conflict_policy() {
                    Some(decision) => Some(decision),
                    None => answer,
                };
                let mut counted = 0;
                let copy = copy_file(disk, &item, settled, &mut counted);
                job.add_bytes(counted);
                let result = match copy.phase {
                    CopyPhase::Copied => CopyResult::Copied,
                    CopyPhase::Skipped => CopyResult::Skipped,
                    _ => CopyResult::Failed,
                };
                next = worker_copied(&mut job, result).0;
            }
            WorkerAction::Stop | WorkerAction::StopCancelled | WorkerAction::StopFailed => break,
        }
    }

    let mut whole = JobRun::new(request.move_src, request.items.len());
    whole.workers_ended(!job.failed);
    while !matches!(whole.phase, RunPhase::Done | RunPhase::Failed) {
        match whole.phase {
            RunPhase::Deleting(i) => {
                disk.delete(&request.items[i]);
                whole.deleted(true);
            }
            _ => whole.checked(true, &job),
        }
    }
    if whole.phase == RunPhase::Done {
        job.finish(TransferState::Done, None);
    } else {
        let (state, error) = transfer_end("failed".into(), false);
        job.finish(state, error);
    }
    job.snapshot(None)
}

fn build_tree(disk: &mut Disk, root: &str) {
    for dir in ["", "/tree", "/tree/sub", "/tree/sub/deep", "/tree/empty"] {
        disk.mkdir(&format!("{root}{dir}"));
    }
    disk.files.insert(format!("{root}/tree/a.txt"), b"alpha".to_vec());
    disk.files.insert(format!("{root}/tree/sub/b.txt"), b"bravo!!".to_vec());
    disk.files.insert(format!("{root}/tree/sub/deep/c.txt"), vec![7u8; 5000]);
}

fn request(items: Vec<FsEntry>, move_src: bool, overwrite: bool) -> TransferRequest {
    TransferRequest {
        src_backend: Backend::Local,
        dst_backend: Backend::Local,
        items,
        dst_dir: "/dst".into(),
        move_src,
        overwrite,
    }
}

#[test]
fn nested_tree_copies_and_counts() {
    let mut disk = Disk::default();
    build_tree(&mut disk, "/src");
    disk.mkdir("/dst");
    let entry = disk.stat("/src/tree");
    let snap = run(&mut disk, &request(vec![entry], false, false), None);
    assert_eq!(snap.state, TransferState::Done);

    // The scanner's totals must have reached the true tree size.
    assert_eq!(snap.files_total, 3, "all files discovered");
    assert_eq!(snap.files_done, 3, "all files copied");
    assert_eq!(snap.total_bytes, 5 + 7 + 5000, "byte total counted");
    assert_eq!(snap.done_bytes, 5 + 7 + 5000);

    // Contents copied faithfully, at every depth.
    assert_eq!(disk.files["/dst/tree/a.txt"], b"alpha");
    assert_eq!(disk.files["/dst/tree/sub/b.txt"], b"bravo!!");
    assert_eq!(disk.files["/dst/tree/sub/deep/c.txt"].len(), 5000);
    // Empty directories are mirrored even though they hold no files.
    assert!(disk.is_dir("/dst/tree/empty"), "empty dir preserved");

    // Source untouched on a copy.
    assert!(disk.holds("/src/tree/a.txt"));
}

#[test]
fn move_removes_source_tree() {
    let mut disk = Disk::default();
    build_tree(&mut disk, "/src");
    disk.mkdir("/dst");
    let entry = disk.stat("/src/tree");
    let snap = run(&mut disk, &request(vec![entry], true, false), None);
    assert_eq!(snap.state, TransferState::Done);

    // Everything arrived...
    assert_eq!(disk.files["/dst/tree/a.txt"], b"alpha");
    assert_eq!(disk.files["/dst/tree/sub/deep/c.txt"].len(), 5000);
    // ...and the source tree is gone.
    assert!(!disk.holds("/src/tree"), "move removed the source");
    assert!(!disk.holds("/src/tree/sub/b.txt"));
}

#[test]
fn overwrite_replaces_without_conflict() {
    let mut disk = Disk::default();
    disk.mkdir("/src");
    disk.mkdir("/dst");
    disk.files.insert("/src/conf.txt".into(), b"new contents".to_vec());
    disk.files.insert("/dst/conf.txt".into(), b"old".to_vec());
    let entry = disk.stat("/src/conf.txt");
    let snap = run(&mut disk, &request(vec![entry], false, true), None);
    assert_eq!(snap.state, TransferState::Done);
    assert_eq!(disk.files["/dst/conf.txt"], b"new contents");
}

#[test]
fn a_skipped_file_keeps_the_sources_of_a_move() {
    let mut disk = Disk::default();
    build_tree(&mut disk, "/src");
    for dir in ["/dst", "/dst/tree"] {
        disk.mkdir(dir);
    }
    disk.files.insert("/dst/tree/a.txt".into(), b"kept".to_vec());
    let entry = disk.stat("/src/tree");
    let snap = run(&mut disk, &request(vec![entry], true, false), Some(ConflictDecision::Skip));
    assert_eq!(snap.state, TransferState::Done);
    assert_eq!(disk.files["/dst/tree/a.txt"], b"kept");
    assert_eq!(disk.files["/src/tree/a.txt"], b"alpha");
    assert_eq!(disk.files["/dst/tree/sub/b.txt"], b"bravo!!");
    assert_eq!(snap.files_done, 3);
}

fn payload() -> Vec<u8> {
    (0..4 * 1024 * 1024u32).map(|i| (i % 251) as u8).collect()
}

fn big_item(disk: &mut Disk) -> WorkItem {
    disk.files.insert("/src/big.bin".into(), payload());
    WorkItem {
        src_path: "/src/big.bin".into(),
        dst_final: "/dst/big.bin".into(),
        size: 4 * 1024 * 1024,
        mode: Some(0o600),
    }
}

#[test]
fn a_partial_file_is_continued() {
    let mut disk = Disk::default();
    let item = big_item(&mut disk);
    let part = format!("/dst/big.bin{PART_SUFFIX}");
    disk.files.insert(part.clone(), payload()[..1024 * 1024].to_vec());
    let mut counted = 0;
    let copy = copy_file(&mut disk, &item, None, &mut counted);
    assert_eq!(copy.phase, CopyPhase::Copied);
    assert_eq!(copy.offset, 1024 * 1024);
    assert_eq!(counted, 4 * 1024 * 1024);
    assert_eq!(disk.files["/dst/big.bin"], payload());
    assert!(!disk.holds(&part), "the partial name is gone");
}

#[test]
fn a_cancelled_copy_is_taken_up_by_the_next() {
    let mut disk = Disk::default();
    let item = big_item(&mut disk);
    disk.files.insert("/dst/big.bin".into(), b"old".to_vec());
    let mut counted = 0;
    let over = Some(ConflictDecision::Overwrite);
    let copy = copy_chunks(&mut disk, &item, over, &mut counted, 3);
    assert_eq!(copy.phase, CopyPhase::Failed);
    assert_eq!(copy.failure, Some(CopyFailure::Cancelled));
    assert_eq!(counted, 300_000);
    assert_eq!(disk.files["/dst/big.bin"], b"old".to_vec(), "untouched until complete");
    assert_eq!(disk.files["/dst/big.bin.filepart"], payload()[..300_000].to_vec());

    // The leftover is continued without a question.
    counted = 0;
    disk.files.remove("/dst/big.bin");
    let copy = copy_file(&mut disk, &item, None, &mut counted);
    assert_eq!(copy.phase, CopyPhase::Copied);
    assert_eq!(copy.offset, 300_000);
    assert_eq!(counted, 4 * 1024 * 1024);
    assert_eq!(disk.files["/dst/big.bin"], payload());
}

#[test]
fn an_interrupted_destination_is_taken_back() {
    let mut disk = Disk::default();
    let item = big_item(&mut disk);
    disk.files.insert("/dst/big.bin".into(), payload()[..100].to_vec());
    let mut counted = 0;
    let copy = copy_file(&mut disk, &item, Some(ConflictDecision::Resume), &mut counted);
    assert_eq!(copy.phase, CopyPhase::Copied);
    assert!(copy.resumed);
    assert_eq!(disk.files["/dst/big.bin"], payload());

    disk.files.insert("/dst/big.bin".into(), b"old".to_vec());
    let copy = copy_file(&mut disk, &item, Some(ConflictDecision::Overwrite), &mut counted);
    assert_eq!(copy.phase, CopyPhase::Copied);
    assert_eq!(disk.files["/dst/big.bin"], payload());
}

#[test]
fn small_files_are_written_in_place() {
    assert_eq!(RESUME_THRESHOLD, 512 * 1024);
    let below = CopyState::new(RESUME_THRESHOLD - 1, None);
    assert_eq!(below.action(), CopyAction::StatDest);
    let at = CopyState::new(RESUME_THRESHOLD, None);
    assert_eq!(at.action(), CopyAction::StatPart);
    assert_eq!(part_path("/d/f"), "/d/f.filepart");
}

/// Answers yes to everything but the action that fails.
fn copy_failing_at(size: u64, fails: CopyAction, decision: ConflictDecision) -> CopyState {
    let mut copy = CopyState::new(size, Some(0o644));
    let mut reads = 0;
    for _ in 0..100 {
        let action = copy.action();
        let ok = action != fails;
        let event = match action {
            CopyAction::StatPart => CopyEvent::Size(None),
            CopyAction::StatDest => CopyEvent::Size(Some(10)),
            CopyAction::Decide { .. } => CopyEvent::Decision(if ok { Some(decision) } else { None }),
            CopyAction::Read => {
                reads += 1;
                CopyEvent::Bytes(if !ok { None } else if reads == 1 { Some(size) } else { Some(0) })
            }
            CopyAction::Finish => return copy,
            _ => CopyEvent::Done(ok),
        };
        copy.step(event);
    }
    panic!("the copy never came to an end")
}

#[test]
fn every_failure_of_a_copy_is_told() {
    let over = ConflictDecision::Overwrite;
    let big = RESUME_THRESHOLD;
    let cases = [
        (5, CopyAction::Decide { dst_size: 10 }, over, CopyFailure::Cancelled),
        (big, CopyAction::RenameToPart, ConflictDecision::Resume, CopyFailure::Resume),
        (5, CopyAction::OpenRead { offset: 0 }, over, CopyFailure::OpenRead),
        (5, CopyAction::OpenWrite { part: false, offset: 0 }, over, CopyFailure::OpenWrite),
        (5, CopyAction::Checkpoint, over, CopyFailure::Cancelled),
        (5, CopyAction::Read, over, CopyFailure::Read),
        (5, CopyAction::Write, over, CopyFailure::Write),
        (5, CopyAction::Shutdown, over, CopyFailure::Finalize),
        (big, CopyAction::Place, over, CopyFailure::Place),
    ];
    for (size, fails, decision, failure) in cases {
        let copy = copy_failing_at(size, fails, decision);
        assert_eq!(copy.phase, CopyPhase::Failed, "{fails:?}");
        assert_eq!(copy.failure, Some(failure));
    }
    // A mode that cannot be set, or an old file that cannot go, fails nothing.
    let copy = copy_failing_at(big, CopyAction::DeleteDest, over);
    assert_eq!(copy.phase, CopyPhase::Copied);
    let copy = copy_failing_at(5, CopyAction::SetMode { mode: 0o644 }, over);
    assert_eq!(copy.phase, CopyPhase::Copied);
    let copy = copy_failing_at(5, CopyAction::Finish, ConflictDecision::Skip);
    assert_eq!(copy.phase, CopyPhase::Skipped);
}

#[test]
fn every_failure_of_a_scan_is_told() {
    let mut disk = Disk::default();
    build_tree(&mut disk, "/src");
    let items = vec![disk.stat("/src/tree"), disk.stat("/src/tree/a.txt")];

    let mut scan = Scanner::new(&items, "/dst");
    scan.passed(false);
    assert_eq!(scan.phase, ScanPhase::Failed(ScanFailure::Cancelled));
    assert_eq!(scan.action(), ScanAction::Finish);

    let mut scan = Scanner::new(&items, "/dst");
    scan.passed(true);
    assert_eq!(scan.source_path(), "/src/tree");
    assert_eq!(scan.dest_path(), "/dst/tree");
    scan.probed(false);
    scan.made(false);
    assert_eq!(scan.phase, ScanPhase::Failed(ScanFailure::MakeDir));

    let mut scan = Scanner::new(&items, "/dst");
    scan.passed(true);
    scan.probed(true);
    scan.listed(None);
    assert_eq!(scan.phase, ScanPhase::Failed(ScanFailure::List));

    let mut scan = Scanner::new(&items[1..].to_vec(), "/dst");
    scan.passed(true);
    assert_eq!((scan.files, scan.bytes), (1, 5));
    scan.sent(false);
    assert_eq!(scan.phase, ScanPhase::Failed(ScanFailure::Stopped));
    assert_eq!(Scanner::new(&Vec::new(), "/dst").action(), ScanAction::Finish);
}

#[test]
fn controls_pause_resume_and_cancel() {
    let mut controls = Controls::new();
    let id = next_id(&mut controls);
    assert_eq!((id, next_id(&mut controls)), (1, 2));
    let c = register(&mut controls, id);
    assert_eq!(checkpoint(c), Checkpoint::Pass);
    let c = control(&mut controls, id, TransferAction::Pause).unwrap();
    assert_eq!(checkpoint(c), Checkpoint::Wait);
    let c = control(&mut controls, id, TransferAction::Resume).unwrap();
    assert_eq!(checkpoint(c), Checkpoint::Pass);
    let c = control(&mut controls, id, TransferAction::Cancel).unwrap();
    assert_eq!(checkpoint(c), Checkpoint::Cancelled);
    for action in [TransferAction::Resume, TransferAction::Pause, TransferAction::Dismiss] {
        let c = control(&mut controls, id, action).unwrap();
        assert_eq!(checkpoint(c), Checkpoint::Cancelled);
    }
    assert_eq!(control(&mut controls, 99, TransferAction::Pause), None);
    unregister(&mut controls, id);
    assert_eq!(control(&mut controls, id, TransferAction::Pause), None);
    let fresh = Ctrl { paused: false, cancelled: false };
    assert_eq!(fresh.after(TransferAction::Dismiss), fresh);
}

#[test]
fn jobs_describe_themselves() {
    let disk = Disk::default();
    let one = vec![disk.stat("/a")];
    let two = vec![disk.stat("/a"), disk.stat("/b")];
    assert_eq!(title_of("Copy", &one), "Copy a");
    assert_eq!(delete_title(&two), "Delete 2 items");
    assert_eq!(attrs_title(&one), "Change a");

    let progress = OpProgress { total: 0, done: 3, cancelled: false };
    let snap = op_snapshot(
        7,
        "Delete a",
        TransferKind::Delete,
        TransferState::Running,
        &progress,
        None,
    );
    assert!(snap.scanning);
    assert_eq!((snap.id, snap.files_done, snap.files_total), (7, 3, 0));

    assert_eq!(op_end(JobOutcome::Completed, true), (TransferState::Done, None));
    assert_eq!(op_end(JobOutcome::Failed("e".into()), true), (TransferState::Cancelled, None));
    let failed = (TransferState::Failed, Some("e".to_string()));
    assert_eq!(op_end(JobOutcome::Failed("e".into()), false), failed);
    assert_eq!(op_end(JobOutcome::Crashed("e".into()), true), failed);
    assert_eq!(transfer_end("e".into(), true), (TransferState::Cancelled, None));
    assert_eq!(transfer_end("e".into(), false), failed);

    let mut up = request(one, true, false);
    up.dst_backend = Backend::Remote(1);
    let job = JobState::new(3, &up);
    let rate = Some(Rate { bytes_per_sec: 10, eta_secs: 2 });
    let snap = job.snapshot(rate);
    assert_eq!(snap.direction, Some(TransferDirection::Upload));
    assert_eq!(snap.kind, TransferKind::Move);
    assert_eq!(snap.state, TransferState::Queued);
    assert_eq!(snap.rate, rate);
    assert_eq!(snap.clone().title, "Move a");
    assert!(job.may_emit(true, 0));
    assert!(!job.may_emit(false, 119));
    assert!(job.may_emit(false, 120));
}

#[test]
fn closing_a_remote_file_is_retried_for_a_while() {
    assert_eq!(after_close(1, CloseAttempt::Closed), CloseNext::Settled);
    assert_eq!(after_close(1, CloseAttempt::SessionGone), CloseNext::Settled);
    assert_eq!(after_close(1, CloseAttempt::Error), CloseNext::Retry);
    assert_eq!(after_close(CLOSE_ATTEMPTS, CloseAttempt::Error), CloseNext::GiveUp);
}

#[test]
fn an_answer_for_all_settles_later_conflicts() {
    let disk = Disk::default();
    let mut job = JobState::new(1, &request(vec![disk.stat("/a")], false, false));
    job.file_started();
    assert_eq!(job.conflict_turn(false), ConflictTurn::Ask);
    assert_eq!(job.snapshot(None).state, TransferState::WaitingConflict);
    let (decision, runs) = job.conflict_answered(Some(ConflictDecision::SkipAll));
    assert_eq!((decision, runs), (ConflictDecision::SkipAll, true));
    assert_eq!(job.snapshot(None).state, TransferState::Running);
    assert_eq!(job.conflict_turn(false), ConflictTurn::Settled(ConflictDecision::Skip));
    assert_eq!(job.conflict_policy(), Some(ConflictDecision::Skip));

    let mut job = JobState::new(1, &request(vec![disk.stat("/a")], false, false));
    assert_eq!(job.conflict_turn(true), ConflictTurn::Cancelled);
    assert_eq!(job.conflict_turn(false), ConflictTurn::Ask);
    let (decision, _) = job.conflict_answered(None);
    assert_eq!(decision, ConflictDecision::CancelJob);
    job.fail();
    assert_eq!(job.conflict_turn(false), ConflictTurn::Cancelled);
    assert_eq!(worker_round(&job), WorkerAction::Stop);
    assert_eq!(worker_fetched(&mut job, Fetched::ScanFailed), WorkerAction::StopFailed);
    assert_eq!(worker_checked(false), WorkerAction::StopCancelled);
    assert_eq!(worker_copied(&mut job, CopyResult::Failed), (WorkerAction::StopFailed, None));
}

#[test]
fn a_paused_job_shows_what_it_did_before() {
    let disk = Disk::default();
    let mut job = JobState::new(1, &request(vec![disk.stat("/a")], false, false));
    assert!(job.show_paused());
    assert!(!job.show_paused());
    assert!(!job.show_resumed(Ctrl { paused: true, cancelled: false }));
    assert!(job.show_resumed(Ctrl { paused: false, cancelled: false }));
    assert_eq!(job.snapshot(None).state, TransferState::Scanning);
    job.file_started();
    assert!(job.show_paused());
    assert!(job.show_resumed(Ctrl { paused: false, cancelled: false }));
    assert_eq!(job.snapshot(None).state, TransferState::Running);
    assert!(job.file_ended(false));
    assert!(!job.file_ended(true));
    assert!(!job.deletes_sources(true));
}

#[test]
fn attribute_changes_reach_the_whole_tree_but_no_links() {
    let mut disk = Disk::default();
    for dir in ["/attrs", "/attrs/inner"] {
        disk.mkdir(dir);
    }
    disk.files.insert("/attrs/inner/leaf.txt".into(), b"x".to_vec());
    let mut link = disk.stat("/attrs/link");
    link.is_symlink = true;
    let changes = AttrChanges { mode: Some(0o640), uid: Some(1), gid: None, add_x_dirs: true };
    let roots = vec![disk.stat("/attrs"), link];
    let mut walk = AttrsWalk::new(&roots, &changes, true);
    while let Some(dir) = walk.next_dir() {
        let children = disk.list(&dir);
        walk.listed(&children);
    }
    assert_eq!(walk.work.len(), 3, "attrs + inner + leaf.txt");
    let mut paths: Vec<&str> = walk.work.iter().map(|w| w.path.as_str()).collect();
    paths.sort();
    assert_eq!(paths, vec!["/attrs", "/attrs/inner", "/attrs/inner/leaf.txt"]);
    for i in 0..3 {
        let change = walk.change(i, &changes);
        assert!(change.chown);
        let expected = if disk.is_dir(&change.path) { 0o750 } else { 0o640 };
        assert_eq!(change.mode, Some(expected), "{}", change.path);
    }
    let flat = AttrsWalk::new(&roots, &changes, false);
    assert_eq!(flat.work.len(), 1);
    assert!(AttrsWalk::new(&roots, &AttrChanges::default(), true).work.is_empty());
}

#[test]
fn disk_usage_counts_files_directories_and_bytes() {
    let mut disk = Disk::default();
    build_tree(&mut disk, "/src");
    let mut walk = UsageWalk::new();
    let roots = vec![disk.stat("/src/tree")];
    assert!(walk.fits(&roots));
    walk.listed(&roots);
    while let Some(dir) = walk.next_dir() {
        let children = disk.list(&dir);
        assert!(walk.fits(&children));
        walk.listed(&children);
    }
    assert_eq!(walk.usage, DiskUsage { files: 3, dirs: 4, bytes: 5 + 7 + 5000 });
    let mut huge = disk.stat("/x");
    huge.size = u64::MAX;
    assert!(!walk.fits(&vec![huge]));
    assert_eq!(DiskUsage::default().bytes, 0);
}

#[test]
fn a_directory_is_asked_for_until_its_listing_is_taken() {
    let mut walk = DeleteWalk::new("/d", true);
    for _ in 0..2 {
        assert!(matches!(walk.next(), Some(DeleteStep::ListDir(d)) if d == "/d"));
    }
    walk.listed(&vec![
        ChildEntry { name: "sub".into(), is_dir: true },
        ChildEntry { name: "f".into(), is_dir: false },
    ]);
    assert!(matches!(walk.next(), Some(DeleteStep::RemoveFile(f)) if f == "/d/f"));
    assert!(matches!(walk.next(), Some(DeleteStep::ListDir(d)) if d == "/d/sub"));
    walk.listed(&Vec::new());
    assert!(matches!(walk.next(), Some(DeleteStep::RemoveDir(d)) if d == "/d/sub"));
    assert!(matches!(walk.next(), Some(DeleteStep::RemoveDir(d)) if d == "/d"));
    assert!(walk.next().is_none());

    // A change waits for every listing.
    let mut dir = Disk::default().stat("/d");
    dir.is_dir = true;
    let changes = AttrChanges { mode: Some(0o640), uid: None, gid: None, add_x_dirs: false };
    let mut walk = AttrsWalk::new(&vec![dir], &changes, true);
    for _ in 0..2 {
        assert_eq!(walk.next_dir(), Some("/d".to_string()));
    }
    walk.listed(&Vec::new());
    assert_eq!(walk.next_dir(), None);
    assert_eq!(walk.change(0, &changes).mode, Some(0o640));
}

#[test]
fn deletes_go_from_the_leaves_up() {
    let mut disk = Disk::default();
    build_tree(&mut disk, "/src");
    let root = disk.stat("/src/tree");
    disk.delete(&root);
    assert_eq!(disk.dirs, vec!["/src"]);
    assert!(disk.files.is_empty());
    disk.files.insert("/src/f".into(), Vec::new());
    let file = disk.stat("/src/f");
    disk.delete(&file);
    assert!(disk.files.is_empty());
}
