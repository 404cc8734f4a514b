//! Editing files in the system's text editor. Local files open in place;
//! remote files are downloaded to a private temp copy that is watched, and
//! every save is uploaded straight back to the server.

use crate::paths::joined;
use crate::sizes::{format_size, size_text};
use crate::ssh::config::{path_join, path_joined};
use crate::text::{
    decimal, digits, digits_value, law_padded_read_back, lemma_digits_back, number_in, pad_zeros,
    same, to_decimal, to_digits, zero_padded,
};
use crate::types::{SessionId, TransferId, TransferState};
use std::collections::hash_map::DefaultHasher;
use std::collections::HashMap;
use std::hash::Hasher;
use vstd::prelude::*;
use vstd::std_specs::hash::*;
use vstd::string::*;

verus! {

broadcast use {
    vstd::std_specs::hash::group_hash_axioms,
    vstd::std_specs::hash::axiom_spec_hash_map_iter,
};

/// Files bigger than this prompt before opening: the whole file has to come
/// down (and go back up on every save), and text editors get slow with huge
/// buffers.
pub const WARN_SIZE: u64 = 10485760;

/// Whether a file is so large that opening it is to be confirmed.
pub open spec fn is_large(size: nat) -> bool {
    size > WARN_SIZE
}

/// Files up to ten mebibytes open at once, and larger ones only when that is
/// confirmed.
pub proof fn law_is_large(size: nat)
    ensures
        is_large(size) <==> size > 10 * 1024 * 1024,
{
}

/// Whether opening a file of this size is to be confirmed.
pub fn needs_confirmation(size: u64) -> (r: bool)
    ensures
        r == is_large(size as nat),
{
    size > WARN_SIZE
}

/// What the confirmation says.
pub fn large_file_body(name: &str, size: u64) -> (r: String)
    ensures
        r@ == "\u{201c}"@ + name@ + "\u{201d} is "@ + size_text(size as nat)
            + ". Large files can be slow to open and edit."@,
{
    let mut s = "\u{201c}".to_owned();
    s.append(name);
    s.append("\u{201d} is ");
    s.append(format_size(size).as_str());
    s.append(". Large files can be slow to open and edit.");
    s
}

/// A remote file being edited, told by its session and its path.
pub struct EditSession {
    pub session: SessionId,
    pub path: String,
    /// Remote directory the file lives in (upload destination).
    pub remote_dir: String,
    /// The temp copy handed to the editor.
    pub local_path: String,
    /// An upload is currently in flight.
    pub uploading: bool,
    /// Saved again while uploading; uploaded again when that one ends.
    pub dirty: bool,
}

/// A download on its way to the editor.
#[derive(Debug)]
pub struct Download {
    pub session: SessionId,
    pub path: String,
    pub remote_dir: String,
    pub local_path: String,
}

/// A queue job started on behalf of the editor.
pub enum Pending {
    /// Once it is here, it is watched and opened.
    Download(Download),
    /// Once it is there, the file can be uploaded again.
    Upload { session: SessionId, path: String },
}

/// The files being edited, none of them twice ([`edited_once`]), and the jobs
/// on their behalf.
pub struct EditManager {
    pub sessions: Vec<EditSession>,
    pub pending: HashMap<TransferId, Pending>,
}

/// What opening a remote file does.
#[derive(Debug)]
pub enum OpenStep {
    /// It is being edited: open the existing copy again, so that unsaved
    /// changes in the editor are not overwritten by a fresh download.
    Reopen(String),
    /// Its download is on its way; the editor opens when it lands.
    Wait,
    Download,
}

/// What the end of a job leads to.
#[derive(Debug)]
pub enum EndStep {
    Nothing,
    /// The temp copy is on disk: watch it for saves and open it.
    Watch(Download),
    /// A save landed in the meantime: upload the newest contents.
    Upload { session: SessionId, path: String },
}

/// Whether a file being edited is this one.
pub open spec fn is_file(s: EditSession, session: SessionId, path: Seq<char>) -> bool {
    s.session == session && s.path@ == path
}

/// The position of a file among those being edited, or their number.
pub open spec fn edit_pos(
    sessions: Seq<EditSession>,
    session: SessionId,
    path: Seq<char>,
    from: int,
) -> int
    decreases sessions.len() - from,
{
    if from >= sessions.len() {
        sessions.len() as int
    } else if is_file(sessions[from], session, path) {
        from
    } else {
        edit_pos(sessions, session, path, from + 1)
    }
}

/// Whether no file is being edited twice.
pub open spec fn edited_once(sessions: Seq<EditSession>) -> bool {
    forall|i: int, j: int|
        #![trigger sessions[i], sessions[j]]
        0 <= i < j < sessions.len() ==> !is_file(
            sessions[i],
            sessions[j].session,
            sessions[j].path@,
        )
}

proof fn lemma_edit_pos(
    sessions: Seq<EditSession>,
    session: SessionId,
    path: Seq<char>,
    from: int,
)
    requires
        0 <= from <= sessions.len(),
    ensures
        from <= edit_pos(sessions, session, path, from) <= sessions.len(),
        edit_pos(sessions, session, path, from) < sessions.len() ==> is_file(
            sessions[edit_pos(sessions, session, path, from)],
            session,
            path,
        ),
        forall|k: int|
            from <= k < edit_pos(sessions, session, path, from) ==> !is_file(
                #[trigger] sessions[k],
                session,
                path,
            ),
    decreases sessions.len() - from,
{
    if from < sessions.len() && !is_file(sessions[from], session, path) {
        lemma_edit_pos(sessions, session, path, from + 1);
    }
}

/// A file after it was saved: it is being uploaded, and marked if it was
/// already.
pub open spec fn after_save(s: EditSession) -> EditSession {
    EditSession { uploading: true, dirty: s.dirty || s.uploading, ..s }
}

/// A file after its upload ended: where it is marked, it is uploaded again.
pub open spec fn after_upload(s: EditSession) -> EditSession {
    EditSession { uploading: s.dirty, dirty: false, ..s }
}

/// Whether a download of the file is on its way.
pub open spec fn is_downloading(
    pending: Map<TransferId, Pending>,
    session: SessionId,
    path: Seq<char>,
) -> bool {
    exists|id: TransferId|
        #[trigger] pending.contains_key(id) && (pending[id] matches Pending::Download(d) && d.session
            == session && d.path@ == path)
}

/// The jobs under way with another one.
pub open spec fn with_pending(
    pending: Map<TransferId, Pending>,
    job: TransferId,
    work: Pending,
) -> Map<TransferId, Pending> {
    pending.insert(job, work)
}

/// A download that was queued is waited for until it ends, and opened once it
/// is done. One that failed leaves nothing to wait for where no other job
/// downloads the file.
pub proof fn law_download_awaited(
    pending: Map<TransferId, Pending>,
    sessions: Seq<EditSession>,
    job: TransferId,
    download: Download,
)
    requires
        !pending.contains_key(job),
    ensures
        ({
            let now = with_pending(pending, job, Pending::Download(download));
            &&& is_downloading(now, download.session, download.path@)
            &&& with_job_ended(now, sessions, job, TransferState::Done).2 == EndStep::Watch(
                download,
            )
            &&& with_job_ended(now, sessions, job, TransferState::Failed).2 is Nothing
            &&& with_job_ended(now, sessions, job, TransferState::Failed).0 == pending
            &&& with_job_ended(now, sessions, job, TransferState::Running).0 == now
        }),
{
    let now = with_pending(pending, job, Pending::Download(download));
    assert(now.contains_key(job) && now[job] == Pending::Download(download));
    assert(now.remove(job) =~= pending);
}

/// Whether `r` is what opening a remote file does.
pub open spec fn opens(
    r: OpenStep,
    sessions: Seq<EditSession>,
    pending: Map<TransferId, Pending>,
    session: SessionId,
    path: Seq<char>,
) -> bool {
    let p = edit_pos(sessions, session, path, 0);
    if p < sessions.len() {
        r matches OpenStep::Reopen(l) && l@ == sessions[p].local_path@
    } else if is_downloading(pending, session, path) {
        r is Wait
    } else {
        r is Download
    }
}

/// What an upload of the file sends, and where to.
pub open spec fn upload_of(
    sessions: Seq<EditSession>,
    session: SessionId,
    path: Seq<char>,
) -> Option<(Seq<char>, Seq<char>)> {
    let p = edit_pos(sessions, session, path, 0);
    if p < sessions.len() {
        Some((sessions[p].local_path@, sessions[p].remote_dir@))
    } else {
        None
    }
}

/// The files being edited once a temp copy is watched.
pub open spec fn with_watched(sessions: Seq<EditSession>, download: Download) -> Seq<EditSession> {
    let p = edit_pos(sessions, download.session, download.path@, 0);
    let s = EditSession {
        session: download.session,
        path: download.path,
        remote_dir: download.remote_dir,
        local_path: download.local_path,
        uploading: false,
        dirty: false,
    };
    if p < sessions.len() {
        sessions.update(p, s)
    } else {
        sessions.push(s)
    }
}

/// The files being edited once one was saved, and whether it is uploaded now.
pub open spec fn with_saved(
    sessions: Seq<EditSession>,
    session: SessionId,
    path: Seq<char>,
) -> (Seq<EditSession>, bool) {
    let p = edit_pos(sessions, session, path, 0);
    if p >= sessions.len() {
        (sessions, false)
    } else {
        (sessions.update(p, after_save(sessions[p])), !sessions[p].uploading)
    }
}

/// The files being edited once an upload could not be queued.
pub open spec fn with_upload_failed(
    sessions: Seq<EditSession>,
    session: SessionId,
    path: Seq<char>,
) -> Seq<EditSession> {
    let p = edit_pos(sessions, session, path, 0);
    if p < sessions.len() {
        sessions.update(p, EditSession { uploading: false, ..sessions[p] })
    } else {
        sessions
    }
}

/// The jobs under way and the files being edited once a job reached a state,
/// and what that leads to.
pub open spec fn with_job_ended(
    pending: Map<TransferId, Pending>,
    sessions: Seq<EditSession>,
    job: TransferId,
    state: TransferState,
) -> (Map<TransferId, Pending>, Seq<EditSession>, EndStep) {
    if !state.terminal() || !pending.contains_key(job) {
        (pending, sessions, EndStep::Nothing)
    } else {
        match pending[job] {
            Pending::Download(d) => (
                pending.remove(job),
                sessions,
                if state is Done {
                    EndStep::Watch(d)
                } else {
                    EndStep::Nothing
                },
            ),
            Pending::Upload { session, path } => {
                let p = edit_pos(sessions, session, path@, 0);
                if p >= sessions.len() {
                    (pending.remove(job), sessions, EndStep::Nothing)
                } else {
                    (
                        pending.remove(job),
                        sessions.update(p, after_upload(sessions[p])),
                        if sessions[p].dirty {
                            EndStep::Upload { session, path }
                        } else {
                            EndStep::Nothing
                        },
                    )
                }
            },
        }
    }
}

/// A file that is being edited is opened again from its own copy, and never
/// downloaded over it. One whose download is on its way is waited for. Any
/// other is downloaded.
pub proof fn law_opening(
    r: OpenStep,
    sessions: Seq<EditSession>,
    pending: Map<TransferId, Pending>,
    session: SessionId,
    path: Seq<char>,
    i: int,
)
    requires
        edited_once(sessions),
        opens(r, sessions, pending, session, path),
    ensures
        0 <= i < sessions.len() && is_file(sessions[i], session, path) ==> (r
            matches OpenStep::Reopen(l) && l@ == sessions[i].local_path@) && upload_of(
            sessions,
            session,
            path,
        ) == Some((sessions[i].local_path@, sessions[i].remote_dir@)),
        (forall|k: int| 0 <= k < sessions.len() ==> !is_file(#[trigger] sessions[k], session, path))
            ==> {
            &&& r is Wait <==> is_downloading(pending, session, path)
            &&& r is Download <==> !is_downloading(pending, session, path)
            &&& upload_of(sessions, session, path) is None
        },
{
    lemma_edit_pos(sessions, session, path, 0);
    let p = edit_pos(sessions, session, path, 0);
    if 0 <= i < sessions.len() && is_file(sessions[i], session, path) {
        if p < i {
            assert(is_file(sessions[p], sessions[i].session, sessions[i].path@));
        }
    }
}

/// A copy that is watched is one that can be edited: it is found from then on,
/// from its own path and to its own directory, with nothing to upload yet. No
/// other file is touched.
pub proof fn law_watching(sessions: Seq<EditSession>, download: Download, i: int)
    ensures
        ({
            let after = with_watched(sessions, download);
            let p = edit_pos(after, download.session, download.path@, 0);
            &&& p < after.len()
            &&& after[p].local_path == download.local_path
            &&& after[p].remote_dir == download.remote_dir
            &&& !after[p].uploading && !after[p].dirty
            &&& 0 <= i < sessions.len() && !is_file(
                sessions[i],
                download.session,
                download.path@,
            ) ==> after[i] == sessions[i]
        }),
{
    let after = with_watched(sessions, download);
    lemma_edit_pos(sessions, download.session, download.path@, 0);
    lemma_edit_pos(after, download.session, download.path@, 0);
    let p = edit_pos(sessions, download.session, download.path@, 0);
    let q = edit_pos(after, download.session, download.path@, 0);
    assert(is_file(after[p], download.session, download.path@));
    if q < p {
        assert(after[q] == sessions[q]);
    }
}

/// A save is uploaded at once where no upload is in flight, and put off where
/// one is; it is remembered either way. Where an upload could not even be
/// queued, the next save is uploaded at once. Saves of other files, and of
/// files that are not being edited, change nothing.
pub proof fn law_saving(sessions: Seq<EditSession>, session: SessionId, path: Seq<char>, i: int)
    requires
        edited_once(sessions),
        0 <= i < sessions.len(),
    ensures
        ({
            let (after, now) = with_saved(sessions, session, path);
            let failed = with_upload_failed(sessions, session, path);
            &&& after.len() == sessions.len() && failed.len() == sessions.len()
            &&& is_file(sessions[i], session, path) ==> {
                &&& now <==> !sessions[i].uploading
                &&& after[i].uploading
                &&& sessions[i].uploading ==> after[i].dirty
                &&& after[i].local_path == sessions[i].local_path
                &&& after[i].remote_dir == sessions[i].remote_dir
                &&& !failed[i].uploading && failed[i].dirty == sessions[i].dirty
                &&& with_saved(failed, session, path).1
            }
            &&& !is_file(sessions[i], session, path) ==> after[i] == sessions[i] && failed[i]
                == sessions[i]
            &&& (forall|k: int|
                0 <= k < sessions.len() ==> !is_file(#[trigger] sessions[k], session, path))
                ==> after == sessions && !now && failed == sessions
        }),
{
    lemma_edit_pos(sessions, session, path, 0);
    let p = edit_pos(sessions, session, path, 0);
    let failed = with_upload_failed(sessions, session, path);
    lemma_edit_pos(failed, session, path, 0);
    let q = edit_pos(failed, session, path, 0);
    if is_file(sessions[i], session, path) {
        if p < i {
            assert(is_file(sessions[p], sessions[i].session, sessions[i].path@));
        }
        assert(p == i);
        assert(is_file(failed[i], session, path));
        if q < i {
            assert(failed[q] == sessions[q]);
        }
        assert(q == i);
    }
}

/// What the end of a job leads to. One that has not ended leads to nothing, and
/// neither does one that is not the editor's. A download that is done is opened,
/// and one that failed is not. An upload that ended, however it did, is followed
/// by another exactly when the file was saved in the meantime. A job counts
/// once: it is forgotten when it ends.
pub proof fn law_job_end(
    pending: Map<TransferId, Pending>,
    sessions: Seq<EditSession>,
    job: TransferId,
    state: TransferState,
    other: TransferId,
)
    ensures
        ({
            let (jobs, after, step) = with_job_ended(pending, sessions, job, state);
            &&& !state.terminal() ==> jobs == pending && after == sessions && step is Nothing
            &&& !pending.contains_key(job) ==> jobs == pending && after == sessions && step
                is Nothing
            &&& state.terminal() ==> !jobs.contains_key(job)
            &&& other != job ==> jobs.contains_key(other) == pending.contains_key(other)
            &&& state.terminal() && pending.contains_key(job) ==> {
                &&& pending[job] matches Pending::Download(d) ==> after == sessions && (state is Done
                    ==> step == EndStep::Watch(d)) && (!(state is Done) ==> step is Nothing)
                &&& pending[job] matches Pending::Upload { session, path } ==> {
                    let p = edit_pos(sessions, session, path@, 0);
                    &&& p >= sessions.len() ==> step is Nothing && after == sessions
                    &&& p < sessions.len() && sessions[p].dirty ==> step == (EndStep::Upload {
                        session,
                        path,
                    })
                    &&& p < sessions.len() && !sessions[p].dirty ==> step is Nothing
                    &&& 0 <= p < sessions.len() ==> !after[p].dirty && (after[p].uploading
                        <==> sessions[p].dirty)
                }
            }
        }),
{
    if state.terminal() && !pending.contains_key(job) {
        assert(!pending.contains_key(job));
    }
    if let Pending::Upload { session, path } = pending[job] {
        lemma_edit_pos(sessions, session, path@, 0);
    }
}

/// A file that nobody saves comes to rest: its upload ends, and no other
/// follows.
pub proof fn law_upload_rests(s: EditSession)
    ensures
        !s.dirty ==> !after_upload(s).uploading && !after_upload(s).dirty,
        !s.uploading && !s.dirty ==> after_upload(after_save(s)) == s,
        after_save(s).path == s.path && after_save(s).session == s.session,
        after_upload(s).path == s.path && after_upload(s).session == s.session,
        after_upload(s).local_path == s.local_path && after_upload(s).remote_dir == s.remote_dir,
{
}

impl EditManager {
    /// Nothing is being edited.
    pub fn new() -> (r: Self)
        ensures
            r.sessions@.len() == 0,
            r.pending@ == Map::<TransferId, Pending>::empty(),
            edited_once(r.sessions@),
    {
        EditManager { sessions: Vec::new(), pending: HashMap::new() }
    }

    fn position(&self, session: SessionId, path: &str) -> (r: usize)
        ensures
            r == edit_pos(self.sessions@, session, path@, 0),
            r <= self.sessions@.len(),
            r < self.sessions@.len() ==> is_file(self.sessions@[r as int], session, path@),
    {
        let mut i: usize = 0;
        while i < self.sessions.len()
            invariant
                i <= self.sessions@.len(),
                edit_pos(self.sessions@, session, path@, 0) == edit_pos(
                    self.sessions@,
                    session,
                    path@,
                    i as int,
                ),
            decreases self.sessions@.len() - i,
        {
            if self.sessions[i].session == session && same(self.sessions[i].path.as_str(), path) {
                return i;
            }
            i += 1;
        }
        i
    }

    fn downloading(&self, session: SessionId, path: &str) -> (r: bool)
        ensures
            r == is_downloading(self.pending@, session, path@),
    {
        for kv in it: self.pending.iter()
            invariant
                forall|k: int|
                    0 <= k < it.index() ==> !(self.pending@[*(#[trigger] it.seq()[k]).0]
                        matches Pending::Download(d) && d.session == session && d.path@ == path@),
        {
            assert(self.pending@[*kv.0] == *kv.1 && self.pending@.contains_key(*kv.0));
            if let Pending::Download(d) = kv.1 {
                if d.session == session && same(d.path.as_str(), path) {
                    return true;
                }
            }
        }
        false
    }

    /// What opening a remote file does.
    pub fn open_remote(&self, session: SessionId, path: &str) -> (r: OpenStep)
        ensures
            opens(r, self.sessions@, self.pending@, session, path@),
    {
        let p = self.position(session, path);
        if p < self.sessions.len() {
            return OpenStep::Reopen(self.sessions[p].local_path.clone());
        }
        if self.downloading(session, path) {
            OpenStep::Wait
        } else {
            OpenStep::Download
        }
    }

    /// What an upload of the file sends, and where to: the temp copy and the
    /// remote directory; `None` when the file is not being edited.
    pub fn upload_target(&self, session: SessionId, path: &str) -> (r: Option<(String, String)>)
        ensures
            match r {
                Some((local, remote_dir)) => upload_of(self.sessions@, session, path@) == Some(
                    (local@, remote_dir@),
                ),
                None => upload_of(self.sessions@, session, path@) is None,
            },
    {
        let p = self.position(session, path);
        if p < self.sessions.len() {
            let s = &self.sessions[p];
            Some((s.local_path.clone(), s.remote_dir.clone()))
        } else {
            None
        }
    }

    /// A download was queued.
    pub fn download_started(&mut self, job: TransferId, download: Download)
        ensures
            final(self).pending@ == with_pending(
                old(self).pending@,
                job,
                Pending::Download(download),
            ),
            final(self).sessions@ == old(self).sessions@,
    {
        let _ = self.pending.insert(job, Pending::Download(download));
    }

    /// An upload was queued.
    pub fn upload_started(&mut self, job: TransferId, session: SessionId, path: String)
        ensures
            final(self).pending@ == with_pending(
                old(self).pending@,
                job,
                (Pending::Upload { session, path }),
            ),
            final(self).sessions@ == old(self).sessions@,
    {
        let _ = self.pending.insert(job, Pending::Upload { session, path });
    }

    /// A temp copy is watched: the file counts as being edited.
    pub fn watched(&mut self, download: Download)
        ensures
            final(self).pending@ == old(self).pending@,
            edited_once(old(self).sessions@) ==> edited_once(final(self).sessions@),
            final(self).sessions@ == with_watched(old(self).sessions@, download),
    {
        let p = self.position(download.session, download.path.as_str());
        proof {
            lemma_edit_pos(self.sessions@, download.session, download.path@, 0);
        }
        let s = EditSession {
            session: download.session,
            path: download.path,
            remote_dir: download.remote_dir,
            local_path: download.local_path,
            uploading: false,
            dirty: false,
        };
        if p < self.sessions.len() {
            self.sessions[p] = s;
        } else {
            self.sessions.push(s);
        }
    }

    /// The file was saved, and no further change came for a while. Returns
    /// whether it is to be uploaded now; while an upload is in flight, that
    /// is put off until it ends.
    pub fn saved(&mut self, session: SessionId, path: &str) -> (r: bool)
        ensures
            final(self).pending@ == old(self).pending@,
            edited_once(old(self).sessions@) ==> edited_once(final(self).sessions@),
            (final(self).sessions@, r) == with_saved(old(self).sessions@, session, path@),
    {
        let p = self.position(session, path);
        if p >= self.sessions.len() {
            return false;
        }
        if self.sessions[p].uploading {
            self.sessions[p].dirty = true;
            assert(self.sessions@ =~= old(self).sessions@.update(
                p as int,
                EditSession { uploading: true, dirty: true, ..old(self).sessions@[p as int] },
            ));
            return false;
        }
        self.sessions[p].uploading = true;
        assert(self.sessions@ =~= old(self).sessions@.update(
            p as int,
            EditSession {
                uploading: true,
                dirty: old(self).sessions@[p as int].dirty,
                ..old(self).sessions@[p as int]
            },
        ));
        true
    }

    /// The saved file could not be read, so that no upload was queued.
    pub fn upload_failed(&mut self, session: SessionId, path: &str)
        ensures
            final(self).pending@ == old(self).pending@,
            edited_once(old(self).sessions@) ==> edited_once(final(self).sessions@),
            final(self).sessions@ == with_upload_failed(old(self).sessions@, session, path@),
    {
        let p = self.position(session, path);
        if p < self.sessions.len() {
            self.sessions[p].uploading = false;
            assert(self.sessions@ =~= old(self).sessions@.update(
                p as int,
                EditSession { uploading: false, ..old(self).sessions@[p as int] },
            ));
        }
    }

    /// A job reached a state. Reacts once, when it is a terminal one: a
    /// download that is done is opened, and a save that landed during an
    /// upload is uploaded in turn.
    pub fn job_ended(&mut self, job: TransferId, state: TransferState) -> (r: EndStep)
        ensures
            edited_once(old(self).sessions@) ==> edited_once(final(self).sessions@),
            (final(self).pending@, final(self).sessions@, r) == with_job_ended(
                old(self).pending@,
                old(self).sessions@,
                job,
                state,
            ),
    {
        if !state.is_terminal() {
            return EndStep::Nothing;
        }
        match self.pending.remove(&job) {
            None => {
                assert(self.pending@ =~= old(self).pending@);
                EndStep::Nothing
            },
            Some(Pending::Download(d)) => if state == TransferState::Done {
                EndStep::Watch(d)
            } else {
                EndStep::Nothing
            },
            Some(Pending::Upload { session, path }) => {
                let p = self.position(session, path.as_str());
                if p >= self.sessions.len() {
                    return EndStep::Nothing;
                }
                let dirty = self.sessions[p].dirty;
                self.sessions[p].uploading = dirty;
                self.sessions[p].dirty = false;
                assert(self.sessions@ =~= old(self).sessions@.update(
                    p as int,
                    EditSession {
                        uploading: dirty,
                        dirty: false,
                        ..old(self).sessions@[p as int]
                    },
                ));
                if dirty {
                    EndStep::Upload { session, path }
                } else {
                    EndStep::Nothing
                }
            },
        }
    }
}

/// A save during an upload is not lost: the end of that upload, however it
/// ended, starts another one, which also covers any further save until then.
pub proof fn law_save_is_uploaded(s: EditSession)
    requires
        s.uploading,
    ensures
        after_save(s).dirty,
        after_upload(after_save(s)).uploading,
        after_upload(after_save(after_save(s))) == after_upload(after_save(s)),
        !after_upload(after_upload(after_save(s))).uploading,
{
}

/// What `Hash::hash` of a `str` writes to a hasher.
pub uninterp spec fn hash_writes(text: Seq<char>) -> Seq<Seq<u8>>;

/// `Hash::hash` of a `str`: feeds the text into the hasher, after all that
/// was fed before. What is written is a function of the text alone; which
/// bytes it is, is left open.
#[verifier::external_body]
fn hash_text(text: &str, hasher: &mut DefaultHasher)
    ensures
        final(hasher)@ == old(hasher)@ + hash_writes(text@),
{
    std::hash::Hash::hash(text, hasher);
}

/// The number that stands for a text: what a fresh hasher makes of it.
pub open spec fn text_number(text: Seq<char>) -> u64 {
    DefaultHasher::spec_finish(hash_writes(text))
}

/// The directory below `cache_root` for a session and a number that stands
/// for a remote directory.
pub open spec fn edit_dir(cache_root: Seq<char>, session: SessionId, hash: u64) -> Seq<char> {
    path_joined(
        path_joined(cache_root, decimal(session as nat)),
        zero_padded(digits(hash as nat, 16), 16),
    )
}

spec fn sixteen_to(k: nat) -> nat
    decreases k,
{
    if k == 0 {
        1
    } else {
        16 * sixteen_to((k - 1) as nat)
    }
}

proof fn lemma_digits_len(n: nat, k: nat)
    requires
        n < sixteen_to(k),
        k > 0,
    ensures
        digits(n, 16).len() <= k,
    decreases k,
{
    if n >= 16 {
        assert(n / 16 < sixteen_to((k - 1) as nat));
        if k > 1 {
            lemma_digits_len(n / 16, (k - 1) as nat);
        }
    }
}

proof fn lemma_padded(s: Seq<char>, width: nat)
    requires
        0 < s.len() <= width,
    ensures
        zero_padded(s, width).len() == width,
        zero_padded(s, width)[0] == '0' || zero_padded(s, width)[0] == s[0],
        digits_value(zero_padded(s, width), 16, width as int) == digits_value(
            s,
            16,
            s.len() as int,
        ),
    decreases width - s.len(),
{
    if s.len() < width {
        let t = seq!['0'] + s;
        lemma_padded(t, width);
        lemma_leading_zero(s, s.len() as int);
    }
}

proof fn lemma_leading_zero(s: Seq<char>, end: int)
    requires
        0 <= end <= s.len(),
    ensures
        digits_value(seq!['0'] + s, 16, end + 1) == digits_value(s, 16, end),
    decreases end,
{
    let t = seq!['0'] + s;
    if end == 0 {
        reveal_with_fuel(digits_value, 2);
        assert(t[0] == '0');
    } else {
        lemma_leading_zero(s, end - 1);
        assert(t[end] == s[end - 1]);
    }
}

/// Temp copies of different sessions, or of remote directories that different
/// numbers stand for, are kept in different directories.
pub proof fn law_edit_dirs_differ(
    cache_root: Seq<char>,
    session: SessionId,
    hash: u64,
    other_session: SessionId,
    other_hash: u64,
)
    requires
        session != other_session || hash != other_hash,
    ensures
        edit_dir(cache_root, session, hash) != edit_dir(cache_root, other_session, other_hash),
{
    let (a, b) = (decimal(session as nat), decimal(other_session as nat));
    let (x, y) = (
        zero_padded(digits(hash as nat, 16), 16),
        zero_padded(digits(other_hash as nat, 16), 16),
    );
    lemma_digits_back(session as nat, 10);
    lemma_digits_back(other_session as nat, 10);
    lemma_digits_back(hash as nat, 16);
    lemma_digits_back(other_hash as nat, 16);
    reveal_with_fuel(sixteen_to, 17);
    lemma_digits_len(hash as nat, 16);
    lemma_digits_len(other_hash as nat, 16);
    lemma_padded(digits(hash as nat, 16), 16);
    lemma_padded(digits(other_hash as nat, 16), 16);
    let whole = edit_dir(cache_root, session, hash);
    let other = edit_dir(cache_root, other_session, other_hash);
    if whole == other {
        let (p, q) = (path_joined(cache_root, a), path_joined(cache_root, b));
        assert(p.last() == a.last() && q.last() == b.last());
        assert(whole.take(p.len() as int) =~= p && other.take(q.len() as int) =~= q);
        assert(whole.skip(p.len() + 1int) =~= x && other.skip(q.len() + 1int) =~= y);
        let n = p.len() - a.len();
        assert(p.skip(n) =~= a && q.skip(n) =~= b);
    }
}

/// Temp copies lie below the cache: in the directory of their session, and in
/// it in that of their number, written with sixteen digits.
pub proof fn law_edit_dir_place(cache_root: Seq<char>, session: SessionId, hash: u64)
    requires
        cache_root.len() > 0,
    ensures
        edit_dir(cache_root, session, hash) == joined(
            joined(cache_root, decimal(session as nat)),
            zero_padded(digits(hash as nat, 16), 16),
        ),
        zero_padded(digits(hash as nat, 16), 16).len() == 16,
        number_in(zero_padded(digits(hash as nat, 16), 16), 16, u64::MAX as nat) == Some(
            hash as nat,
        ),
{
    let a = decimal(session as nat);
    let b = zero_padded(digits(hash as nat, 16), 16);
    lemma_digits_back(session as nat, 10);
    lemma_digits_back(hash as nat, 16);
    reveal_with_fuel(sixteen_to, 17);
    lemma_digits_len(hash as nat, 16);
    lemma_padded(digits(hash as nat, 16), 16);
    law_padded_read_back(hash as nat, 16, 16, u64::MAX as nat);
    assert(a[0] != '/' && b[0] != '/');
}

/// The directory for a session and a number.
pub fn session_dir_for(cache_root: &str, session: SessionId, hash: u64) -> (r: String)
    ensures
        r@ == edit_dir(cache_root@, session, hash),
{
    let base = path_join(cache_root, to_decimal(session).as_str());
    path_join(base.as_str(), pad_zeros(to_digits(hash, 16).as_str(), 16).as_str())
}

/// Directory for one remote directory's temp copies. The real file name is
/// kept (editors show it and pick syntax highlighting from it); the remote
/// directory is hashed so same-named files from different folders coexist.
pub fn session_dir(cache_root: &str, session: SessionId, remote_dir: &str) -> (r: String)
    ensures
        r@ == edit_dir(cache_root@, session, text_number(remote_dir@)),
{
    let mut hasher = DefaultHasher::new();
    hash_text(remote_dir, &mut hasher);
    assert(hasher@ =~= hash_writes(remote_dir@));
    session_dir_for(cache_root, session, hasher.finish())
}

} // verus!
