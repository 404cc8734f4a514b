//! The rows of the transfer queue: what each shows for a snapshot.

use crate::sizes::{eta_text, format_eta, format_size, size_text};
use crate::text::{decimal, has_prefix, has_suffix, to_decimal};
use crate::types::{TransferAction, TransferKind, TransferSnapshot, TransferState};
use vstd::prelude::*;
use vstd::string::*;

verus! {

/// What the progress bar shows.
#[derive(Debug, Clone, Copy, PartialEq, Eq, Structural)]
pub enum Bar {
    /// The totals are still being counted.
    Pulse,
    /// `done` of `total`, which is not zero.
    Fraction { done: u64, total: u64 },
    Empty,
    Full,
}

/// What a row shows.
#[derive(Debug)]
pub struct RowView {
    pub bar: Bar,
    pub detail: String,
    /// Whether the pause button resumes.
    pub resumes: bool,
    pub pause_visible: bool,
    /// Whether the cancel button dismisses the row.
    pub dismisses: bool,
    pub is_error: bool,
    /// Whether the row goes away by itself after a moment.
    pub clears_itself: bool,
    /// Whether the job ended, and the panes are to catch up.
    pub finished: bool,
}

/// Deletes and attribute changes move no bytes: they count items.
pub open spec fn is_mutation(kind: TransferKind) -> bool {
    kind is Delete || kind is Attributes
}

/// The bar for a snapshot: bytes for copies, item counts for mutations, and
/// no fraction while the totals are only lower bounds. A fraction above one
/// counts as one.
pub open spec fn bar_of(s: TransferSnapshot) -> Bar {
    if s.state is Done {
        Bar::Full
    } else if s.scanning && !s.state.terminal() {
        Bar::Pulse
    } else if s.total_bytes > 0 {
        if s.done_bytes >= s.total_bytes {
            Bar::Full
        } else {
            Bar::Fraction { done: s.done_bytes, total: s.total_bytes }
        }
    } else if s.files_total > 0 {
        if s.files_done >= s.files_total {
            Bar::Full
        } else {
            Bar::Fraction { done: s.files_done as u64, total: s.files_total as u64 }
        }
    } else {
        Bar::Empty
    }
}

/// The part of a running transfer's detail that tells its progress.
pub open spec fn progress_text(s: TransferSnapshot) -> Seq<char> {
    if s.scanning {
        size_text(s.done_bytes as nat) + " \u{2022} "@ + decimal(s.files_done as nat) + "/"@
            + decimal(s.files_total as nat) + "+ files \u{2022} counting\u{2026}"@
    } else {
        size_text(s.done_bytes as nat) + " / "@ + size_text(s.total_bytes as nat)
            + " \u{2022} "@ + decimal(s.files_done as nat) + "/"@ + decimal(s.files_total as nat)
            + " files"@
    }
}

/// The part that tells the speed, and the time left once the total is known.
pub open spec fn rate_text(s: TransferSnapshot) -> Seq<char> {
    match s.rate {
        Some(rate) => "  \u{2022}  "@ + size_text(rate.bytes_per_sec as nat) + "/s"@ + if s.scanning {
            seq![]
        } else {
            "  \u{2022}  "@ + eta_text(rate.eta_secs as nat) + " left"@
        },
        None => seq![],
    }
}

/// Detail line for a running job.
pub open spec fn running_text(s: TransferSnapshot) -> Seq<char> {
    match s.kind {
        TransferKind::Delete => decimal(s.files_done as nat) + " removed\u{2026}"@,
        TransferKind::Attributes => if s.scanning {
            "Collecting items\u{2026} "@ + decimal(s.files_done as nat) + " changed"@
        } else {
            decimal(s.files_done as nat) + " / "@ + decimal(s.files_total as nat) + " changed"@
        },
        _ => progress_text(s) + rate_text(s) + if s.current_file@.len() > 0 {
            "  \u{2022}  "@ + s.current_file@
        } else {
            seq![]
        },
    }
}

/// Detail line for a finished job.
pub open spec fn done_text(s: TransferSnapshot) -> Seq<char> {
    let items = if s.files_done == 1 {
        " item"@
    } else {
        " items"@
    };
    match s.kind {
        TransferKind::Delete => "Removed "@ + decimal(s.files_done as nat) + items,
        TransferKind::Attributes => "Changed "@ + decimal(s.files_done as nat) + items,
        _ => "Done \u{2014} "@ + size_text(s.total_bytes as nat) + " in "@ + decimal(
            s.files_total as nat,
        ) + " files"@,
    }
}

/// Detail line for a job in any state.
pub open spec fn detail_text(s: TransferSnapshot) -> Seq<char> {
    match s.state {
        TransferState::Queued => "Queued"@,
        TransferState::Scanning => "Scanning\u{2026} "@ + decimal(s.files_total as nat)
            + " files found"@,
        TransferState::Running => running_text(s),
        TransferState::Paused => "Paused"@,
        TransferState::WaitingConflict => "Waiting for answer\u{2026}"@,
        TransferState::Done => done_text(s),
        TransferState::Failed => match s.error {
            Some(e) => e@,
            None => "Failed"@,
        },
        TransferState::Cancelled => "Cancelled"@,
    }
}

/// Detail line for a running transfer. While the scan is still in progress
/// the total is partial, so what's been done is shown plus a "still counting"
/// hint, and the ETA is withheld (which would be meaningless). Once the total
/// is known, an exact "done / total", speed and time remaining are shown.
/// Mutations (delete / attribute changes) report item counts instead.
pub fn running_detail(snap: &TransferSnapshot) -> (r: String)
    ensures
        r@ == running_text(*snap),
{
    let done = to_decimal(snap.files_done as u64);
    match snap.kind {
        TransferKind::Delete => {
            let mut s = done;
            s.append(" removed\u{2026}");
            return s;
        },
        TransferKind::Attributes => {
            if snap.scanning {
                let mut s = "Collecting items\u{2026} ".to_owned();
                s.append(done.as_str());
                s.append(" changed");
                return s;
            }
            let mut s = done;
            s.append(" / ");
            s.append(to_decimal(snap.files_total as u64).as_str());
            s.append(" changed");
            return s;
        },
        TransferKind::Copy | TransferKind::Move => {},
    }
    let mut s = format_size(snap.done_bytes);
    if snap.scanning {
        s.append(" \u{2022} ");
        s.append(done.as_str());
        s.append("/");
        s.append(to_decimal(snap.files_total as u64).as_str());
        s.append("+ files \u{2022} counting\u{2026}");
    } else {
        s.append(" / ");
        s.append(format_size(snap.total_bytes).as_str());
        s.append(" \u{2022} ");
        s.append(done.as_str());
        s.append("/");
        s.append(to_decimal(snap.files_total as u64).as_str());
        s.append(" files");
    }
    assert(s@ =~= progress_text(*snap));
    if let Some(rate) = snap.rate {
        s.append("  \u{2022}  ");
        s.append(format_size(rate.bytes_per_sec).as_str());
        s.append("/s");
        if !snap.scanning {
            s.append("  \u{2022}  ");
            s.append(format_eta(rate.eta_secs).as_str());
            s.append(" left");
        }
    }
    assert(s@ =~= progress_text(*snap) + rate_text(*snap));
    if snap.current_file.as_str().unicode_len() > 0 {
        s.append("  \u{2022}  ");
        s.append(snap.current_file.as_str());
    }
    assert(s@ =~= running_text(*snap));
    s
}

/// Detail line for a finished job, per kind.
pub fn done_detail(snap: &TransferSnapshot) -> (r: String)
    ensures
        r@ == done_text(*snap),
{
    let items = if snap.files_done == 1 {
        " item"
    } else {
        " items"
    };
    match snap.kind {
        TransferKind::Delete => {
            let mut s = "Removed ".to_owned();
            s.append(to_decimal(snap.files_done as u64).as_str());
            s.append(items);
            s
        },
        TransferKind::Attributes => {
            let mut s = "Changed ".to_owned();
            s.append(to_decimal(snap.files_done as u64).as_str());
            s.append(items);
            s
        },
        TransferKind::Copy | TransferKind::Move => {
            let mut s = "Done \u{2014} ".to_owned();
            s.append(format_size(snap.total_bytes).as_str());
            s.append(" in ");
            s.append(to_decimal(snap.files_total as u64).as_str());
            s.append(" files");
            s
        },
    }
}

fn detail(snap: &TransferSnapshot) -> (r: String)
    ensures
        r@ == detail_text(*snap),
{
    match snap.state {
        TransferState::Queued => "Queued".to_owned(),
        TransferState::Scanning => {
            let mut s = "Scanning\u{2026} ".to_owned();
            s.append(to_decimal(snap.files_total as u64).as_str());
            s.append(" files found");
            s
        },
        TransferState::Running => running_detail(snap),
        TransferState::Paused => "Paused".to_owned(),
        TransferState::WaitingConflict => "Waiting for answer\u{2026}".to_owned(),
        TransferState::Done => done_detail(snap),
        TransferState::Failed => match &snap.error {
            Some(e) => e.clone(),
            None => "Failed".to_owned(),
        },
        TransferState::Cancelled => "Cancelled".to_owned(),
    }
}

fn bar(snap: &TransferSnapshot) -> (r: Bar)
    ensures
        r == bar_of(*snap),
{
    if snap.state == TransferState::Done {
        Bar::Full
    } else if snap.scanning && !snap.state.is_terminal() {
        Bar::Pulse
    } else if snap.total_bytes > 0 {
        if snap.done_bytes >= snap.total_bytes {
            Bar::Full
        } else {
            Bar::Fraction { done: snap.done_bytes, total: snap.total_bytes }
        }
    } else if snap.files_total > 0 {
        if snap.files_done >= snap.files_total {
            Bar::Full
        } else {
            Bar::Fraction { done: snap.files_done as u64, total: snap.files_total as u64 }
        }
    } else {
        Bar::Empty
    }
}

/// Whether `r` is what a row shows for a snapshot.
pub open spec fn shows_row(r: RowView, snap: TransferSnapshot) -> bool {
    &&& r.bar == bar_of(snap)
    &&& r.detail@ == detail_text(snap)
    &&& r.resumes == (snap.state is Paused)
    &&& r.pause_visible == (!is_mutation(snap.kind) && !snap.state.terminal())
    &&& r.dismisses == snap.state.terminal()
    &&& r.is_error == (snap.state is Failed)
    &&& r.clears_itself == (snap.state is Done && is_mutation(snap.kind))
    &&& r.finished == snap.state.terminal()
}

/// What a row offers. A copy or a move can be paused and resumed until it
/// ends, and a delete or an attribute change cannot. Any job can be cancelled
/// until it ends, and its row dismissed after that. A row goes by itself only
/// when it is of a delete or an attribute change that is done: a failure always
/// stays, and is shown as one.
pub proof fn law_row(r: RowView, snap: TransferSnapshot)
    requires
        shows_row(r, snap),
    ensures
        r.pause_visible <==> (snap.kind is Copy || snap.kind is Move) && !(snap.state is Done
            || snap.state is Failed || snap.state is Cancelled),
        r.resumes <==> snap.state is Paused,
        r.dismisses <==> snap.state is Done || snap.state is Failed || snap.state is Cancelled,
        r.finished <==> r.dismisses,
        r.is_error <==> snap.state is Failed,
        r.clears_itself <==> snap.state is Done && (snap.kind is Delete || snap.kind is Attributes),
        snap.state is Failed ==> !r.clears_itself,
        pause_does(r.resumes) is Resume <==> snap.state is Paused,
        pause_does(r.resumes) is Pause <==> !(snap.state is Paused),
{
}

/// What the bar shows. A job that is done fills it. One that is under way while
/// the totals are still counted shows no part of them. Else the bar shows the
/// bytes that are through, or the items where there are no bytes, and is full
/// only once all are.
pub proof fn law_bar(s: TransferSnapshot)
    ensures
        s.state is Done ==> bar_of(s) is Full,
        bar_of(s) is Pulse <==> s.scanning && !s.state.terminal(),
        !s.scanning && !(s.state is Done) && s.total_bytes > 0 ==> {
            &&& bar_of(s) is Full <==> s.done_bytes >= s.total_bytes
            &&& s.done_bytes < s.total_bytes ==> bar_of(s) == (Bar::Fraction {
                done: s.done_bytes,
                total: s.total_bytes,
            })
        },
        !s.scanning && !(s.state is Done) && s.total_bytes == 0 && s.files_total > 0 ==> {
            &&& bar_of(s) is Full <==> s.files_done >= s.files_total
            &&& s.files_done < s.files_total ==> bar_of(s) == (Bar::Fraction {
                done: s.files_done as u64,
                total: s.files_total as u64,
            })
        },
        !s.scanning && !(s.state is Done) && s.total_bytes == 0 && s.files_total == 0 ==> bar_of(s)
            is Empty,
        bar_of(s) matches Bar::Fraction { done, total } ==> done < total,
{
}

/// What the line of a running copy or move tells: the bytes and the files that
/// are through, of how many once that is known, and that they are still being
/// counted until then. Then the speed, where there is one, with the time left
/// once the total is known, and then the file at hand, where there is one. Each
/// part stands or is left out whatever the others do.
pub proof fn law_running_line(s: TransferSnapshot)
    requires
        s.kind is Copy || s.kind is Move,
    ensures
        ({
            let bare = TransferSnapshot { rate: None, ..s };
            &&& has_prefix(running_text(s), progress_text(s))
            &&& has_prefix(progress_text(s), size_text(s.done_bytes as nat))
            &&& s.scanning ==> has_suffix(
                progress_text(s),
                decimal(s.files_done as nat) + "/"@ + decimal(s.files_total as nat)
                    + "+ files \u{2022} counting\u{2026}"@,
            )
            &&& !s.scanning ==> progress_text(s) == size_text(s.done_bytes as nat) + " / "@
                + size_text(s.total_bytes as nat) + (" \u{2022} "@ + decimal(s.files_done as nat)
                + "/"@ + decimal(s.files_total as nat) + " files"@)
            &&& s.rate is None ==> rate_text(s).len() == 0
            &&& s.rate is Some && !s.scanning ==> has_suffix(
                rate_text(s),
                eta_text(s.rate->0.eta_secs as nat) + " left"@,
            ) && has_prefix(
                rate_text(s),
                "  \u{2022}  "@ + size_text(s.rate->0.bytes_per_sec as nat) + "/s"@,
            )
            &&& s.current_file@.len() > 0 ==> has_suffix(running_text(s), s.current_file@)
            &&& s.current_file@.len() == 0 ==> running_text(s) == progress_text(s) + rate_text(s)
            &&& progress_text(bare) == progress_text(s)
        }),
{
    let text = running_text(s);
    let head = progress_text(s);
    assert(text.subrange(0, head.len() as int) =~= head);
    let done = size_text(s.done_bytes as nat);
    assert(head.subrange(0, done.len() as int) =~= done);
    if s.scanning {
        let end = decimal(s.files_done as nat) + "/"@ + decimal(s.files_total as nat)
            + "+ files \u{2022} counting\u{2026}"@;
        assert(head.subrange(head.len() - end.len(), head.len() as int) =~= end);
    } else {
        assert(head =~= done + " / "@ + size_text(s.total_bytes as nat) + (" \u{2022} "@ + decimal(
            s.files_done as nat,
        ) + "/"@ + decimal(s.files_total as nat) + " files"@));
        if s.rate is Some {
            let rate = rate_text(s);
            let left = eta_text(s.rate->0.eta_secs as nat) + " left"@;
            let speed = "  \u{2022}  "@ + size_text(s.rate->0.bytes_per_sec as nat) + "/s"@;
            assert(rate.subrange(rate.len() - left.len(), rate.len() as int) =~= left);
            assert(rate.subrange(0, speed.len() as int) =~= speed);
        }
    }
    let file = s.current_file@;
    if file.len() > 0 {
        assert(text.subrange(text.len() - file.len(), text.len() as int) =~= file);
    } else {
        assert(text =~= progress_text(s) + rate_text(s));
    }
}

/// What the line of a job tells in each state: a failure its error, a job that
/// is done what it came to, with the items it removed or changed or the bytes
/// and files it transferred, and one item told of as one.
pub proof fn law_detail(s: TransferSnapshot)
    ensures
        s.state is Failed && s.error is Some ==> detail_text(s) == s.error->0@,
        s.state is Failed && s.error is None ==> detail_text(s) == "Failed"@,
        s.state is Running ==> detail_text(s) == running_text(s),
        s.state is Done && s.kind is Delete && s.files_done == 1 ==> detail_text(s) == "Removed "@
            + decimal(1) + " item"@,
        s.state is Done && s.kind is Delete && s.files_done != 1 ==> detail_text(s) == "Removed "@
            + decimal(s.files_done as nat) + " items"@,
        s.state is Done && s.kind is Attributes && s.files_done == 1 ==> detail_text(s)
            == "Changed "@ + decimal(1) + " item"@,
        s.state is Done && s.kind is Attributes && s.files_done != 1 ==> detail_text(s)
            == "Changed "@ + decimal(s.files_done as nat) + " items"@,
        s.state is Done && (s.kind is Copy || s.kind is Move) ==> has_prefix(
            detail_text(s),
            "Done \u{2014} "@ + size_text(s.total_bytes as nat) + " in "@ + decimal(
                s.files_total as nat,
            ),
        ),
        s.state is Scanning ==> has_prefix(
            detail_text(s),
            "Scanning\u{2026} "@ + decimal(s.files_total as nat),
        ),
        s.state is Running && s.kind is Delete ==> has_prefix(
            detail_text(s),
            decimal(s.files_done as nat),
        ),
        s.state is Running && s.kind is Attributes && !s.scanning ==> has_prefix(
            detail_text(s),
            decimal(s.files_done as nat) + " / "@ + decimal(s.files_total as nat),
        ),
{
    let text = detail_text(s);
    if s.state is Done && (s.kind is Copy || s.kind is Move) {
        let head = "Done \u{2014} "@ + size_text(s.total_bytes as nat) + " in "@ + decimal(
            s.files_total as nat,
        );
        assert(text.subrange(0, head.len() as int) =~= head);
    }
    if s.state is Scanning {
        let head = "Scanning\u{2026} "@ + decimal(s.files_total as nat);
        assert(text.subrange(0, head.len() as int) =~= head);
    }
    if s.state is Running && s.kind is Delete {
        let head = decimal(s.files_done as nat);
        assert(text.subrange(0, head.len() as int) =~= head);
    }
    if s.state is Running && s.kind is Attributes && !s.scanning {
        let head = decimal(s.files_done as nat) + " / "@ + decimal(s.files_total as nat);
        assert(text.subrange(0, head.len() as int) =~= head);
    }
}

/// What a row shows for a snapshot. Mutations support cancel but not pause;
/// completed ones clear themselves after a moment (the pane refresh is the
/// real receipt), copies stay until they are dismissed, and failures always
/// stick around.
pub fn row_view(snap: &TransferSnapshot) -> (r: RowView)
    ensures
        shows_row(r, *snap),
{
    let is_op = matches!(snap.kind, TransferKind::Delete | TransferKind::Attributes);
    let terminal = snap.state.is_terminal();
    RowView {
        bar: bar(snap),
        detail: detail(snap),
        resumes: snap.state == TransferState::Paused,
        pause_visible: !is_op && !terminal,
        dismisses: terminal,
        is_error: snap.state == TransferState::Failed,
        clears_itself: snap.state == TransferState::Done && is_op,
        finished: terminal,
    }
}

/// What the pause button does.
pub open spec fn pause_does(resumes: bool) -> TransferAction {
    if resumes {
        TransferAction::Resume
    } else {
        TransferAction::Pause
    }
}

/// What the pause button does.
pub fn pause_action(resumes: bool) -> (r: TransferAction)
    ensures
        r == pause_does(resumes),
{
    if resumes {
        TransferAction::Resume
    } else {
        TransferAction::Pause
    }
}

/// No row promises a time before the total is known: while the scan runs,
/// nothing follows the speed but the current file.
pub proof fn law_no_eta_while_counting(s: TransferSnapshot)
    requires
        s.scanning,
        s.rate is Some,
    ensures
        rate_text(s) == "  \u{2022}  "@ + size_text(s.rate->0.bytes_per_sec as nat) + "/s"@,
{
    assert(rate_text(s) =~= "  \u{2022}  "@ + size_text(s.rate->0.bytes_per_sec as nat) + "/s"@);
}

} // verus!
