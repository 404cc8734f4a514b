//! The scan that feeds a transfer: it walks the source tree, sees to it that
//! the destination directories exist, and hands out the files to copy.

use crate::copying::WorkItem;
use crate::paths::{
    base_name, is_component, join, joined, law_join_file_name, law_join_parent, parent_path,
};
use crate::types::FsEntry;
use vstd::prelude::*;

verus! {

/// Why a scan stopped early.
#[derive(Debug, Clone, Copy, PartialEq, Eq, Structural)]
pub enum ScanFailure {
    Cancelled,
    /// Creating a destination directory.
    MakeDir,
    /// Listing a source directory.
    List,
    /// The copiers stopped taking files.
    Stopped,
}

/// Where a scan stands with the entry on top of its stack.
#[derive(Debug, Clone, Copy, PartialEq, Eq, Structural)]
pub enum ScanPhase {
    /// The check for pause and cancel before each entry.
    Checkpoint,
    /// Does the destination directory exist?
    Probing,
    MakingDir,
    Listing,
    Sending,
    Complete,
    Failed(ScanFailure),
}

/// What to do next. Paths are those of [`Scanner::source_path`] and
/// [`Scanner::dest_path`].
#[derive(Debug, Clone, Copy, PartialEq, Eq, Structural)]
pub enum ScanAction {
    Checkpoint,
    Exists,
    MakeDir,
    List,
    Send,
    Finish,
}

/// An entry still to be walked, and the directory it is to land in.
pub struct ScanEntry {
    pub entry: FsEntry,
    pub dst_dir: String,
}

/// A scan: the entries still to be walked, the next one last, and the totals
/// of the files found so far.
pub struct Scanner {
    pub stack: Vec<ScanEntry>,
    pub phase: ScanPhase,
    pub files: u32,
    pub bytes: u64,
}

/// The entries still to be walked, as plain values.
pub open spec fn scan_stack(stack: Seq<ScanEntry>) -> Seq<(FsEntry, Seq<char>)> {
    Seq::new(stack.len(), |i: int| (stack[i].entry, stack[i].dst_dir@))
}

/// `entries` to land in `dir`, the first of them last.
pub open spec fn stacked(entries: Seq<FsEntry>, dir: Seq<char>) -> Seq<(FsEntry, Seq<char>)> {
    Seq::new(entries.len(), |i: int| (entries[entries.len() - 1 - i], dir))
}

/// Where the entry on top lands.
pub open spec fn top_dest(stack: Seq<(FsEntry, Seq<char>)>) -> Seq<char> {
    joined(stack.last().1, stack.last().0.name@)
}

/// The stack with the children of the directory on top in its place.
pub open spec fn with_children(
    stack: Seq<(FsEntry, Seq<char>)>,
    children: Seq<FsEntry>,
) -> Seq<(FsEntry, Seq<char>)> {
    stack.drop_last() + stacked(children, top_dest(stack))
}

/// The phase that comes when the entry on top is dealt with.
pub open spec fn next_phase(left: nat) -> ScanPhase {
    if left == 0 {
        ScanPhase::Complete
    } else {
        ScanPhase::Checkpoint
    }
}

/// What a phase asks for.
pub open spec fn action_of(phase: ScanPhase) -> ScanAction {
    match phase {
        ScanPhase::Checkpoint => ScanAction::Checkpoint,
        ScanPhase::Probing => ScanAction::Exists,
        ScanPhase::MakingDir => ScanAction::MakeDir,
        ScanPhase::Listing => ScanAction::List,
        ScanPhase::Sending => ScanAction::Send,
        ScanPhase::Complete | ScanPhase::Failed(_) => ScanAction::Finish,
    }
}

/// The phase and the totals after the check before an entry.
pub open spec fn scan_passed(e: FsEntry, goes_on: bool, files: u32, bytes: u64) -> (
    ScanPhase,
    u32,
    u64,
) {
    if !goes_on {
        (ScanPhase::Failed(ScanFailure::Cancelled), files, bytes)
    } else if e.is_dir {
        (ScanPhase::Probing, files, bytes)
    } else {
        (
            ScanPhase::Sending,
            ((files + 1) % 0x1_0000_0000) as u32,
            ((bytes + e.size) % 0x1_0000_0000_0000_0000) as u64,
        )
    }
}

/// The phase once it is known whether the destination directory exists.
pub open spec fn scan_probed(found: bool) -> ScanPhase {
    if found {
        ScanPhase::Listing
    } else {
        ScanPhase::MakingDir
    }
}

/// The phase once it is known whether the directory could be created.
pub open spec fn scan_made(created: bool) -> ScanPhase {
    if created {
        ScanPhase::Listing
    } else {
        ScanPhase::Failed(ScanFailure::MakeDir)
    }
}

/// The phase once the directory was listed, or could not be, with `left`
/// entries to walk.
pub open spec fn scan_listed(listing: Option<()>, left: nat) -> ScanPhase {
    if listing is Some {
        next_phase(left)
    } else {
        ScanPhase::Failed(ScanFailure::List)
    }
}

/// The phase once the file was taken, or not, with `left` entries to walk.
pub open spec fn scan_sent(taken: bool, left: nat) -> ScanPhase {
    if taken {
        next_phase(left)
    } else {
        ScanPhase::Failed(ScanFailure::Stopped)
    }
}

/// A file to copy as plain values: source, destination, size, mode.
pub type Item = (Seq<char>, Seq<char>, u64, Option<u32>);

/// The file to copy for an entry that is no directory.
pub open spec fn item_of(e: FsEntry, dir: Seq<char>) -> Item {
    (e.path@, joined(dir, e.name@), e.size, e.mode)
}

/// A file to copy as plain values.
pub open spec fn item_values(i: WorkItem) -> Item {
    (i.src_path@, i.dst_final@, i.size, i.mode)
}

fn push_stacked(stack: &mut Vec<ScanEntry>, entries: &Vec<FsEntry>, dir: &str)
    ensures
        scan_stack(final(stack)@) == scan_stack(old(stack)@) + stacked(entries@, dir@),
{
    let n = entries.len();
    let mut i: usize = n;
    assert(scan_stack(stack@) + stacked(entries@, dir@).take(0) =~= scan_stack(stack@));
    while i > 0
        invariant
            i <= n == entries@.len(),
            scan_stack(stack@) == scan_stack(old(stack)@) + stacked(entries@, dir@).take(n - i),
        decreases i,
    {
        i -= 1;
        let ghost before = stack@;
        stack.push(ScanEntry { entry: entries[i].clone(), dst_dir: dir.to_owned() });
        assert(scan_stack(stack@) =~= scan_stack(before).push((entries@[i as int], dir@)));
        assert(stacked(entries@, dir@).take(n - i) =~= stacked(entries@, dir@).take(
            n - i - 1,
        ).push((entries@[i as int], dir@)));
    }
    assert(stacked(entries@, dir@).take(n as int) =~= stacked(entries@, dir@));
}

impl Scanner {
    /// Whether the scan waits for something about the entry on top.
    pub open spec fn walking(self) -> bool {
        !(self.phase is Complete) && !(self.phase is Failed) ==> self.stack@.len() > 0
    }

    /// A scan of `items`, to land in `dst_dir`.
    pub fn new(items: &Vec<FsEntry>, dst_dir: &str) -> (r: Self)
        ensures
            scan_stack(r.stack@) == stacked(items@, dst_dir@),
            r.phase == next_phase(items@.len()),
            r.files == 0,
            r.bytes == 0,
            r.walking(),
    {
        let mut stack: Vec<ScanEntry> = Vec::new();
        push_stacked(&mut stack, items, dst_dir);
        assert(scan_stack(stack@) =~= stacked(items@, dst_dir@));
        assert(stack@.len() == scan_stack(stack@).len());
        let phase = if items.len() == 0 {
            ScanPhase::Complete
        } else {
            ScanPhase::Checkpoint
        };
        Scanner { stack, phase, files: 0, bytes: 0 }
    }

    /// What to do next.
    pub fn action(&self) -> (r: ScanAction)
        ensures
            r == action_of(self.phase),
    {
        match self.phase {
            ScanPhase::Checkpoint => ScanAction::Checkpoint,
            ScanPhase::Probing => ScanAction::Exists,
            ScanPhase::MakingDir => ScanAction::MakeDir,
            ScanPhase::Listing => ScanAction::List,
            ScanPhase::Sending => ScanAction::Send,
            ScanPhase::Complete | ScanPhase::Failed(_) => ScanAction::Finish,
        }
    }

    /// The path of the entry on top, at the source.
    pub fn source_path(&self) -> (r: String)
        requires
            self.stack@.len() > 0,
        ensures
            r@ == scan_stack(self.stack@).last().0.path@,
    {
        self.stack[self.stack.len() - 1].entry.path.clone()
    }

    /// The path of the entry on top, at the destination.
    pub fn dest_path(&self) -> (r: String)
        requires
            self.stack@.len() > 0,
        ensures
            r@ == top_dest(scan_stack(self.stack@)),
    {
        let top = &self.stack[self.stack.len() - 1];
        join(top.dst_dir.as_str(), top.entry.name.as_str())
    }

    /// The file to send for the entry on top.
    pub fn item(&self) -> (r: WorkItem)
        requires
            self.stack@.len() > 0,
        ensures
            item_values(r) == item_of(
                scan_stack(self.stack@).last().0,
                scan_stack(self.stack@).last().1,
            ),
    {
        let dst_final = self.dest_path();
        let e = &self.stack[self.stack.len() - 1].entry;
        WorkItem { src_path: e.path.clone(), dst_final, size: e.size, mode: e.mode }
    }

    /// Whether the job goes on. A directory is looked for at the destination;
    /// anything else is counted and sent.
    pub fn passed(&mut self, goes_on: bool)
        requires
            old(self).phase is Checkpoint,
            old(self).walking(),
        ensures
            final(self).walking(),
            final(self).stack@ == old(self).stack@,
            (final(self).phase, final(self).files, final(self).bytes) == scan_passed(
                scan_stack(old(self).stack@).last().0,
                goes_on,
                old(self).files,
                old(self).bytes,
            ),
    {
        if !goes_on {
            self.phase = ScanPhase::Failed(ScanFailure::Cancelled);
            return;
        }
        let e = &self.stack[self.stack.len() - 1].entry;
        if e.is_dir {
            self.phase = ScanPhase::Probing;
        } else {
            self.files = self.files.wrapping_add(1);
            self.bytes = self.bytes.wrapping_add(e.size);
            self.phase = ScanPhase::Sending;
        }
    }

    /// Whether the destination directory exists; if not, it is created.
    pub fn probed(&mut self, found: bool)
        requires
            old(self).phase is Probing,
            old(self).walking(),
        ensures
            final(self).walking(),
            final(self).stack@ == old(self).stack@,
            final(self).files == old(self).files,
            final(self).bytes == old(self).bytes,
            final(self).phase == scan_probed(found),
    {
        self.phase = if found {
            ScanPhase::Listing
        } else {
            ScanPhase::MakingDir
        };
    }

    /// Whether the destination directory could be created.
    pub fn made(&mut self, created: bool)
        requires
            old(self).phase is MakingDir,
            old(self).walking(),
        ensures
            final(self).walking(),
            final(self).stack@ == old(self).stack@,
            final(self).files == old(self).files,
            final(self).bytes == old(self).bytes,
            final(self).phase == scan_made(created),
    {
        self.phase = if created {
            ScanPhase::Listing
        } else {
            ScanPhase::Failed(ScanFailure::MakeDir)
        };
    }

    /// The children of the source directory, which are walked next, in order;
    /// `None` when it could not be listed.
    pub fn listed(&mut self, children: Option<&Vec<FsEntry>>)
        requires
            old(self).phase is Listing,
            old(self).walking(),
        ensures
            final(self).walking(),
            final(self).files == old(self).files,
            final(self).bytes == old(self).bytes,
            match children {
                Some(children) => {
                    &&& scan_stack(final(self).stack@) == with_children(
                        scan_stack(old(self).stack@),
                        children@,
                    )
                    &&& final(self).phase == scan_listed(Some(()), final(self).stack@.len())
                },
                None => {
                    &&& final(self).phase == scan_listed(None, final(self).stack@.len())
                    &&& final(self).stack@ == old(self).stack@
                },
            },
    {
        match children {
            Some(children) => {
                let dir = self.dest_path();
                let ghost before = scan_stack(self.stack@);
                let _ = self.stack.pop();
                assert(scan_stack(self.stack@) =~= before.drop_last());
                push_stacked(&mut self.stack, children, dir.as_str());
                self.go_on();
            },
            None => {
                self.phase = ScanPhase::Failed(ScanFailure::List);
            },
        }
    }

    /// Whether the file was taken; if not, the copiers stopped.
    pub fn sent(&mut self, taken: bool)
        requires
            old(self).phase is Sending,
            old(self).walking(),
        ensures
            final(self).walking(),
            final(self).files == old(self).files,
            final(self).bytes == old(self).bytes,
            final(self).phase == scan_sent(taken, final(self).stack@.len()),
            if taken {
                scan_stack(final(self).stack@) == scan_stack(old(self).stack@).drop_last()
            } else {
                final(self).stack@ == old(self).stack@
            },
    {
        if !taken {
            self.phase = ScanPhase::Failed(ScanFailure::Stopped);
            return;
        }
        let ghost before = scan_stack(self.stack@);
        let _ = self.stack.pop();
        assert(scan_stack(self.stack@) =~= before.drop_last());
        self.go_on();
    }

    fn go_on(&mut self)
        ensures
            final(self).stack@ == old(self).stack@,
            final(self).files == old(self).files,
            final(self).bytes == old(self).bytes,
            final(self).phase == next_phase(final(self).stack@.len()),
            final(self).walking(),
    {
        self.phase = if self.stack.len() == 0 {
            ScanPhase::Complete
        } else {
            ScanPhase::Checkpoint
        };
    }
}

/// The files that walking an entry hands out, depth first, where no path from
/// it is longer than `depth`. `ls` is what listings give.
pub open spec fn files_of(
    e: FsEntry,
    dir: Seq<char>,
    ls: spec_fn(Seq<char>) -> Seq<FsEntry>,
    depth: nat,
) -> Seq<Item>
    decreases depth, 0nat,
{
    if !e.is_dir {
        seq![item_of(e, dir)]
    } else if depth == 0 {
        seq![]
    } else {
        files_of_all(ls(e.path@), joined(dir, e.name@), ls, (depth - 1) as nat)
    }
}

/// The files that walking entries in order hands out.
pub open spec fn files_of_all(
    es: Seq<FsEntry>,
    dir: Seq<char>,
    ls: spec_fn(Seq<char>) -> Seq<FsEntry>,
    depth: nat,
) -> Seq<Item>
    decreases depth, es.len(),
{
    if es.len() == 0 {
        seq![]
    } else {
        files_of(es[0], dir, ls, depth) + files_of_all(es.skip(1), dir, ls, depth)
    }
}

/// Whether no path from the entry is longer than `depth` directories.
pub open spec fn no_deeper(
    e: FsEntry,
    ls: spec_fn(Seq<char>) -> Seq<FsEntry>,
    depth: nat,
) -> bool
    decreases depth,
{
    e.is_dir ==> depth > 0 && forall|i: int|
        0 <= i < ls(e.path@).len() ==> no_deeper(#[trigger] ls(e.path@)[i], ls, (depth - 1) as nat)
}

proof fn lemma_no_deeper_more(e: FsEntry, ls: spec_fn(Seq<char>) -> Seq<FsEntry>, depth: nat)
    requires
        no_deeper(e, ls, depth),
    ensures
        no_deeper(e, ls, depth + 1),
    decreases depth,
{
    if e.is_dir {
        assert forall|i: int| 0 <= i < ls(e.path@).len() implies no_deeper(
            #[trigger] ls(e.path@)[i],
            ls,
            depth,
        ) by {
            lemma_no_deeper_more(ls(e.path@)[i], ls, (depth - 1) as nat);
        }
    }
}

proof fn lemma_files_of_more(
    e: FsEntry,
    dir: Seq<char>,
    ls: spec_fn(Seq<char>) -> Seq<FsEntry>,
    depth: nat,
)
    requires
        no_deeper(e, ls, depth),
    ensures
        files_of(e, dir, ls, depth) == files_of(e, dir, ls, depth + 1),
    decreases depth, 0nat,
{
    if e.is_dir {
        lemma_files_of_all_more(ls(e.path@), joined(dir, e.name@), ls, (depth - 1) as nat);
    }
}

proof fn lemma_files_of_all_more(
    es: Seq<FsEntry>,
    dir: Seq<char>,
    ls: spec_fn(Seq<char>) -> Seq<FsEntry>,
    depth: nat,
)
    requires
        forall|i: int| 0 <= i < es.len() ==> no_deeper(#[trigger] es[i], ls, depth),
    ensures
        files_of_all(es, dir, ls, depth) == files_of_all(es, dir, ls, depth + 1),
    decreases depth, es.len(),
{
    if es.len() > 0 {
        assert(no_deeper(es[0], ls, depth));
        lemma_files_of_more(es[0], dir, ls, depth);
        assert forall|i: int| 0 <= i < es.skip(1).len() implies no_deeper(
            #[trigger] es.skip(1)[i],
            ls,
            depth,
        ) by {
            assert(es.skip(1)[i] == es[i + 1]);
            assert(no_deeper(es[i + 1], ls, depth));
        }
        lemma_files_of_all_more(es.skip(1), dir, ls, depth);
    }
}

/// The files that the scan is still to hand out, the entry on top first.
pub open spec fn files_left(
    stack: Seq<(FsEntry, Seq<char>)>,
    ls: spec_fn(Seq<char>) -> Seq<FsEntry>,
    depth: nat,
) -> Seq<Item>
    decreases stack.len(),
{
    if stack.len() == 0 {
        seq![]
    } else {
        files_of(stack.last().0, stack.last().1, ls, depth) + files_left(
            stack.drop_last(),
            ls,
            depth,
        )
    }
}

/// Whether no entry of the stack leads deeper than `depth`.
pub open spec fn stack_no_deeper(
    stack: Seq<(FsEntry, Seq<char>)>,
    ls: spec_fn(Seq<char>) -> Seq<FsEntry>,
    depth: nat,
) -> bool {
    forall|i: int| 0 <= i < stack.len() ==> no_deeper((#[trigger] stack[i]).0, ls, depth)
}

proof fn lemma_files_left_stacked(
    stack: Seq<(FsEntry, Seq<char>)>,
    es: Seq<FsEntry>,
    dir: Seq<char>,
    ls: spec_fn(Seq<char>) -> Seq<FsEntry>,
    depth: nat,
)
    ensures
        files_left(stack + stacked(es, dir), ls, depth) == files_of_all(es, dir, ls, depth)
            + files_left(stack, ls, depth),
    decreases es.len(),
{
    let whole = stack + stacked(es, dir);
    if es.len() == 0 {
        assert(whole =~= stack);
        assert(files_of_all(es, dir, ls, depth) + files_left(stack, ls, depth) =~= files_left(
            stack,
            ls,
            depth,
        ));
    } else {
        lemma_files_left_stacked(stack, es.skip(1), dir, ls, depth);
        assert(whole.drop_last() =~= stack + stacked(es.skip(1), dir));
        assert(whole.last() == (es[0], dir));
        assert(files_left(whole, ls, depth) =~= files_of_all(es, dir, ls, depth) + files_left(
            stack,
            ls,
            depth,
        ));
    }
}

/// At its start a scan is to hand out the files of all its items, in order.
pub proof fn law_scan_start(
    items: Seq<FsEntry>,
    dir: Seq<char>,
    ls: spec_fn(Seq<char>) -> Seq<FsEntry>,
    depth: nat,
)
    ensures
        files_left(stacked(items, dir), ls, depth) == files_of_all(items, dir, ls, depth),
{
    lemma_files_left_stacked(seq![], items, dir, ls, depth);
    assert(Seq::<(FsEntry, Seq<char>)>::empty() + stacked(items, dir) =~= stacked(items, dir));
    assert(files_of_all(items, dir, ls, depth) + files_left(seq![], ls, depth) =~= files_of_all(
        items,
        dir,
        ls,
        depth,
    ));
}

/// Putting a directory's children in its place changes nothing of what is to
/// be handed out.
pub proof fn law_scan_list(
    stack: Seq<(FsEntry, Seq<char>)>,
    ls: spec_fn(Seq<char>) -> Seq<FsEntry>,
    depth: nat,
)
    requires
        stack.len() > 0,
        stack.last().0.is_dir,
        stack_no_deeper(stack, ls, depth),
    ensures
        ({
            let next = with_children(stack, ls(stack.last().0.path@));
            &&& files_left(next, ls, depth) == files_left(stack, ls, depth)
            &&& stack_no_deeper(next, ls, depth)
        }),
{
    let e = stack.last().0;
    let children = ls(e.path@);
    let dir = top_dest(stack);
    let less = (depth - 1) as nat;
    let next = stack.drop_last() + stacked(children, dir);
    assert(no_deeper(stack[stack.len() - 1].0, ls, depth));
    assert forall|i: int| 0 <= i < children.len() implies no_deeper(
        #[trigger] children[i],
        ls,
        depth,
    ) by {
        assert(no_deeper(children[i], ls, less));
        lemma_no_deeper_more(children[i], ls, less);
    }
    lemma_files_of_all_more(children, dir, ls, less);
    lemma_files_left_stacked(stack.drop_last(), children, dir, ls, depth);
    assert forall|i: int| 0 <= i < next.len() implies no_deeper(
        (#[trigger] next[i]).0,
        ls,
        depth,
    ) by {
        if i < stack.len() - 1 {
            assert(next[i] == stack[i]);
        } else {
            let k = children.len() - 1 - (i - (stack.len() - 1));
            assert(next[i].0 == children[k]);
        }
    }
}

/// A file that is sent is the next to be handed out, and the rest stays to
/// come.
pub proof fn law_scan_send(
    stack: Seq<(FsEntry, Seq<char>)>,
    ls: spec_fn(Seq<char>) -> Seq<FsEntry>,
    depth: nat,
)
    requires
        stack.len() > 0,
        !stack.last().0.is_dir,
        stack_no_deeper(stack, ls, depth),
    ensures
        files_left(stack, ls, depth) == seq![item_of(stack.last().0, stack.last().1)] + files_left(
            stack.drop_last(),
            ls,
            depth,
        ),
        stack_no_deeper(stack.drop_last(), ls, depth),
{
    assert forall|i: int| 0 <= i < stack.drop_last().len() implies no_deeper(
        (#[trigger] stack.drop_last()[i]).0,
        ls,
        depth,
    ) by {
        assert(stack.drop_last()[i] == stack[i]);
    }
}

/// A scan that is through has nothing left to hand out.
pub proof fn law_scan_end(ls: spec_fn(Seq<char>) -> Seq<FsEntry>, depth: nat)
    ensures
        files_left(seq![], ls, depth) == Seq::<Item>::empty(),
{
}

/// Whether every entry on the stack lands in a directory that exists.
pub open spec fn lands(stack: Seq<(FsEntry, Seq<char>)>, existing: Set<Seq<char>>) -> bool {
    forall|i: int| 0 <= i < stack.len() ==> existing.contains((#[trigger] stack[i]).1)
}

/// A directory exists before any of its children is walked: where everything
/// on the stack lands in an existing directory, it still does once a
/// directory that was found or made is replaced by its children.
pub proof fn law_scan_parents_first(
    stack: Seq<(FsEntry, Seq<char>)>,
    children: Seq<FsEntry>,
    existing: Set<Seq<char>>,
)
    requires
        stack.len() > 0,
        lands(stack, existing),
    ensures
        lands(with_children(stack, children), existing.insert(top_dest(stack))),
        lands(stack.drop_last(), existing),
{
    let next = stack.drop_last() + stacked(children, top_dest(stack));
    assert forall|i: int| 0 <= i < next.len() implies existing.insert(top_dest(stack)).contains(
        (#[trigger] next[i]).1,
    ) by {
        if i < stack.len() - 1 {
            assert(next[i] == stack[i]);
        }
    }
    assert forall|i: int| 0 <= i < stack.drop_last().len() implies existing.contains(
        (#[trigger] stack.drop_last()[i]).1,
    ) by {
        assert(stack.drop_last()[i] == stack[i]);
    }
}

/// How a scan deals with an entry. A scan that was cancelled takes it no
/// further. A file is counted, with its size, and sent. A directory is not
/// counted; it is created at the destination unless it is there, and listed in
/// either case, so that none of its files is left out. What cannot be created,
/// listed or sent ends the scan, each for its own reason.
pub proof fn law_scan_entry(e: FsEntry, files: u32, bytes: u64, found: bool)
    ensures
        scan_passed(e, false, files, bytes) == (
            ScanPhase::Failed(ScanFailure::Cancelled),
            files,
            bytes,
        ),
        e.is_dir ==> scan_passed(e, true, files, bytes) == (ScanPhase::Probing, files, bytes),
        !e.is_dir ==> scan_passed(e, true, files, bytes).0 is Sending,
        !e.is_dir && files < u32::MAX ==> scan_passed(e, true, files, bytes).1 == files + 1,
        !e.is_dir && bytes + e.size <= u64::MAX ==> scan_passed(e, true, files, bytes).2 == bytes
            + e.size,
        scan_probed(true) is Listing,
        scan_probed(false) is MakingDir,
        scan_made(true) is Listing,
        scan_made(false) == ScanPhase::Failed(ScanFailure::MakeDir),
        scan_probed(found) is Listing || scan_made(true) is Listing,
        scan_listed(None, 0) == ScanPhase::Failed(ScanFailure::List),
        scan_sent(false, 0) == ScanPhase::Failed(ScanFailure::Stopped),
{
}

/// A scan is complete once nothing is left to walk, and not before: while
/// something is, it goes on with a check.
pub proof fn law_scan_goes_on(left: nat)
    ensures
        next_phase(left) is Complete <==> left == 0,
        left > 0 ==> next_phase(left) is Checkpoint,
        scan_sent(true, left) == next_phase(left),
        scan_listed(Some(()), left) == next_phase(left),
{
}

/// Each phase asks for its own action, and a scan finishes only when it is
/// complete or failed.
pub proof fn law_scan_action(phase: ScanPhase)
    ensures
        action_of(phase) is Finish <==> phase is Complete || phase is Failed,
        action_of(phase) is Checkpoint <==> phase is Checkpoint,
        action_of(phase) is Exists <==> phase is Probing,
        action_of(phase) is MakeDir <==> phase is MakingDir,
        action_of(phase) is List <==> phase is Listing,
        action_of(phase) is Send <==> phase is Sending,
{
}

/// A file is copied from where it is to its own name in the directory it lands
/// in, with the size and the mode it has.
pub proof fn law_scan_item(e: FsEntry, dir: Seq<char>)
    requires
        is_component(e.name@),
        dir.len() > 0,
        dir.last() != '/' || dir == seq!['/'],
    ensures
        item_of(e, dir).0 == e.path@,
        base_name(item_of(e, dir).1) == e.name@,
        parent_path(item_of(e, dir).1) == dir,
        item_of(e, dir).2 == e.size,
        item_of(e, dir).3 == e.mode,
        top_dest(seq![(e, dir)]) == item_of(e, dir).1,
{
    law_join_file_name(dir, e.name@);
    law_join_parent(dir, e.name@);
}

/// What walking hands out: a file itself, and of a directory what is below it,
/// in the directory of its name. Walking some entries and then others hands out
/// the files of both, in that order; nothing is handed out of no entries.
pub proof fn law_scan_hands_out(
    a: Seq<FsEntry>,
    b: Seq<FsEntry>,
    e: FsEntry,
    dir: Seq<char>,
    ls: spec_fn(Seq<char>) -> Seq<FsEntry>,
    depth: nat,
)
    ensures
        files_of_all(a + b, dir, ls, depth) == files_of_all(a, dir, ls, depth) + files_of_all(
            b,
            dir,
            ls,
            depth,
        ),
        files_of_all(seq![], dir, ls, depth).len() == 0,
        !e.is_dir ==> files_of_all(seq![e], dir, ls, depth) == seq![item_of(e, dir)],
        e.is_dir ==> files_of_all(seq![e], dir, ls, depth + 1) == files_of_all(
            ls(e.path@),
            joined(dir, e.name@),
            ls,
            depth,
        ),
    decreases a.len(),
{
    let none = Seq::<FsEntry>::empty();
    assert(seq![e].skip(1) =~= none);
    assert(files_of_all(none, dir, ls, depth) =~= Seq::<Item>::empty());
    assert(files_of_all(none, dir, ls, depth + 1) =~= Seq::<Item>::empty());
    assert(files_of_all(seq![e], dir, ls, depth) =~= files_of(e, dir, ls, depth));
    assert(files_of_all(seq![e], dir, ls, depth + 1) =~= files_of(e, dir, ls, depth + 1));
    if a.len() == 0 {
        assert(a + b =~= b);
        assert(files_of_all(a, dir, ls, depth) + files_of_all(b, dir, ls, depth) =~= files_of_all(
            b,
            dir,
            ls,
            depth,
        ));
    } else {
        law_scan_hands_out(a.skip(1), b, e, dir, ls, depth);
        assert((a + b).skip(1) =~= a.skip(1) + b);
        assert((a + b)[0] == a[0]);
        assert(files_of_all(a + b, dir, ls, depth) =~= files_of_all(a, dir, ls, depth)
            + files_of_all(b, dir, ls, depth));
    }
}

} // verus!
