//! Walks over directory trees, one directory at a time: each hands out what
//! to do next and takes back what a listing gave.

use crate::fsops::{law_dir_mode, AttrChanges};
use crate::paths::{join, joined};
use crate::text::texts;
use crate::types::FsEntry;
use vstd::prelude::*;

verus! {

/// How far a queued delete or attribute change has come.
#[derive(Debug, Clone, Copy, PartialEq, Eq, Structural)]
pub struct OpProgress {
    /// Items to change, once they are counted; deletes never count ahead.
    pub total: u64,
    pub done: u64,
    pub cancelled: bool,
}

/// An item of a work list.
#[derive(Debug)]
pub struct WorkEntry {
    pub path: String,
    pub is_dir: bool,
}

/// The items that the attribute changes are to be applied to, and the
/// directories still to be listed for more of them. The whole list is built
/// up front: applying a restrictive mode to a directory first could make its
/// children unlistable.
pub struct AttrsWalk {
    pub work: Vec<WorkEntry>,
    pub dirs: Vec<String>,
}

/// The items that `entries` add to a work list: all but symlinks.
pub open spec fn added_work(entries: Seq<FsEntry>) -> Seq<(Seq<char>, bool)>
    decreases entries.len(),
{
    if entries.len() == 0 {
        seq![]
    } else if entries.last().is_symlink {
        added_work(entries.drop_last())
    } else {
        added_work(entries.drop_last()).push((entries.last().path@, entries.last().is_dir))
    }
}

/// The directories among `entries` that are no symlinks.
pub open spec fn added_dirs(entries: Seq<FsEntry>) -> Seq<Seq<char>>
    decreases entries.len(),
{
    if entries.len() == 0 {
        seq![]
    } else if entries.last().is_dir && !entries.last().is_symlink {
        added_dirs(entries.drop_last()).push(entries.last().path@)
    } else {
        added_dirs(entries.drop_last())
    }
}

/// A work list's items as plain values.
pub open spec fn work_of(work: Seq<WorkEntry>) -> Seq<(Seq<char>, bool)> {
    Seq::new(work.len(), |i: int| (work[i].path@, work[i].is_dir))
}

/// The work list and the directories to list, at the start.
pub open spec fn attrs_begun(roots: Seq<FsEntry>, changes: AttrChanges, recursive: bool) -> (
    Seq<(Seq<char>, bool)>,
    Seq<Seq<char>>,
) {
    (
        if changes.empty() {
            seq![]
        } else {
            added_work(roots)
        },
        if recursive && !changes.empty() {
            added_dirs(roots)
        } else {
            seq![]
        },
    )
}

/// The directory to list next.
pub open spec fn attrs_next(dirs: Seq<Seq<char>>) -> Option<Seq<char>> {
    if dirs.len() == 0 {
        None
    } else {
        Some(dirs.last())
    }
}

/// The work list and the directories to list, once the last of those was.
pub open spec fn attrs_listed(
    work: Seq<(Seq<char>, bool)>,
    dirs: Seq<Seq<char>>,
    children: Seq<FsEntry>,
) -> (Seq<(Seq<char>, bool)>, Seq<Seq<char>>) {
    (work + added_work(children), dirs.drop_last() + added_dirs(children))
}

impl AttrsWalk {
    /// Adds the entries to the work list, and their directories to those to
    /// be listed if `descend`.
    fn add(&mut self, entries: &Vec<FsEntry>, descend: bool)
        ensures
            work_of(final(self).work@) == work_of(old(self).work@) + added_work(entries@),
            texts(final(self).dirs@) == texts(old(self).dirs@) + if descend {
                added_dirs(entries@)
            } else {
                seq![]
            },
    {
        let mut i: usize = 0;
        assert(work_of(self.work@) + added_work(entries@.take(0)) =~= work_of(self.work@));
        assert(texts(self.dirs@) + Seq::<Seq<char>>::empty() =~= texts(self.dirs@));
        assert(added_dirs(entries@.take(0)) =~= seq![]);
        while i < entries.len()
            invariant
                i <= entries@.len(),
                work_of(self.work@) == work_of(old(self).work@) + added_work(
                    entries@.take(i as int),
                ),
                texts(self.dirs@) == texts(old(self).dirs@) + if descend {
                    added_dirs(entries@.take(i as int))
                } else {
                    seq![]
                },
            decreases entries@.len() - i,
        {
            assert(entries@.take(i + 1).drop_last() =~= entries@.take(i as int));
            let e = &entries[i];
            let ghost work = self.work@;
            let ghost dirs = self.dirs@;
            if !e.is_symlink {
                if e.is_dir && descend {
                    self.dirs.push(e.path.clone());
                    assert(texts(self.dirs@) =~= texts(dirs).push(e.path@));
                }
                self.work.push(WorkEntry { path: e.path.clone(), is_dir: e.is_dir });
                assert(work_of(self.work@) =~= work_of(work).push((e.path@, e.is_dir)));
            }
            i += 1;
        }
        assert(entries@.take(i as int) =~= entries@);
    }

    /// Starts with the selected entries; nothing is to be done when the
    /// changes are empty. Directories are descended into when `recursive`.
    pub fn new(roots: &Vec<FsEntry>, changes: &AttrChanges, recursive: bool) -> (r: Self)
        ensures
            (work_of(r.work@), texts(r.dirs@)) == attrs_begun(roots@, *changes, recursive),
    {
        let mut walk = AttrsWalk { work: Vec::new(), dirs: Vec::new() };
        assert(work_of(walk.work@) =~= seq![]);
        assert(texts(walk.dirs@) =~= seq![]);
        if !changes.is_empty() {
            walk.add(roots, recursive);
            assert(Seq::<(Seq<char>, bool)>::empty() + added_work(roots@) =~= added_work(roots@));
            assert(Seq::<Seq<char>>::empty() + added_dirs(roots@) =~= added_dirs(roots@));
        }
        walk
    }

    /// The directory to list next, the one found last first. It stays to be
    /// listed until its children are taken.
    pub fn next_dir(&self) -> (r: Option<String>)
        ensures
            (match r {
                Some(dir) => Some(dir@),
                None => None,
            }) == attrs_next(texts(self.dirs@)),
    {
        if self.dirs.len() == 0 {
            return None;
        }
        Some(self.dirs[self.dirs.len() - 1].clone())
    }

    /// Takes the children of the directory that was listed.
    pub fn listed(&mut self, children: &Vec<FsEntry>)
        requires
            old(self).dirs@.len() > 0,
        ensures
            (work_of(final(self).work@), texts(final(self).dirs@)) == attrs_listed(
                work_of(old(self).work@),
                texts(old(self).dirs@),
                children@,
            ),
    {
        let _ = self.dirs.pop();
        assert(texts(self.dirs@) =~= texts(old(self).dirs@).drop_last());
        self.add(children, true);
    }
}

/// What is changed of one item.
#[derive(Debug)]
pub struct ItemChange {
    pub path: String,
    /// The mode it gets, if modes change.
    pub mode: Option<u32>,
    /// Whether its owner or group changes.
    pub chown: bool,
}

/// The mode that an item of the work list is given, if any, and whether its
/// owner is changed.
pub open spec fn item_change(item: (Seq<char>, bool), changes: AttrChanges) -> (Option<u32>, bool) {
    (changes.item_mode(item.1), changes.uid is Some || changes.gid is Some)
}

/// What was asked for is done to every item. A file gets exactly the mode
/// asked for, and so does a directory unless execute is to be added to
/// directories; then it still gets every bit asked for. No item's mode changes
/// when none was asked for. The owner changes when a user or a group was asked
/// for, and only then. Neither depends on where the item lies.
pub proof fn law_item_change(item: (Seq<char>, bool), other: (Seq<char>, bool), changes: AttrChanges)
    ensures
        !item.1 || !changes.add_x_dirs ==> item_change(item, changes).0 == changes.mode,
        changes.mode is None ==> item_change(item, changes).0 is None,
        changes.mode is Some ==> item_change(item, changes).0 is Some && changes.mode->0
            & item_change(item, changes).0->0 == changes.mode->0,
        changes.uid is Some ==> item_change(item, changes).1,
        changes.gid is Some ==> item_change(item, changes).1,
        changes.uid is None && changes.gid is None ==> !item_change(item, changes).1,
        item.1 == other.1 ==> item_change(item, changes) == item_change(other, changes),
{
    if let Some(m) = changes.mode {
        assert(m & m == m) by (bit_vector);
        if changes.add_x_dirs {
            law_dir_mode(changes);
        }
    }
}

impl AttrsWalk {
    /// What is changed of the item at `i`. Nothing is changed while a
    /// directory is still to be listed, and so nothing at all when one cannot
    /// be.
    pub fn change(&self, i: usize, changes: &AttrChanges) -> (r: ItemChange)
        requires
            self.dirs@.len() == 0,
            i < self.work@.len(),
        ensures
            r.path@ == work_of(self.work@)[i as int].0,
            (r.mode, r.chown) == item_change(work_of(self.work@)[i as int], *changes),
    {
        let item = &self.work[i];
        ItemChange {
            path: item.path.clone(),
            mode: changes.mode_for(item.is_dir),
            chown: changes.uid.is_some() || changes.gid.is_some(),
        }
    }
}

/// Whether every item below a directory of the work list is on it too, or
/// still to come: the directory is pending, or all its children that are no
/// symlinks are on the list. `ls` is what listings give.
pub open spec fn covers(
    work: Seq<(Seq<char>, bool)>,
    dirs: Seq<Seq<char>>,
    ls: spec_fn(Seq<char>) -> Seq<FsEntry>,
) -> bool {
    forall|i: int|
        0 <= i < work.len() && (#[trigger] work[i]).1 ==> dirs.contains(work[i].0)
            || children_listed(work, ls(work[i].0))
}

/// Whether all of `children` that are no symlinks are on the work list.
pub open spec fn children_listed(work: Seq<(Seq<char>, bool)>, children: Seq<FsEntry>) -> bool {
    forall|c: int|
        0 <= c < children.len() && !(#[trigger] children[c]).is_symlink ==> work.contains(
            (children[c].path@, children[c].is_dir),
        )
}

proof fn lemma_added(entries: Seq<FsEntry>)
    ensures
        children_listed(added_work(entries), entries),
        forall|i: int|
            0 <= i < added_work(entries).len() && (#[trigger] added_work(entries)[i]).1
                ==> added_dirs(entries).contains(added_work(entries)[i].0),
    decreases entries.len(),
{
    if entries.len() > 0 {
        let rest = entries.drop_last();
        let last = entries.last();
        lemma_added(rest);
        let work = added_work(entries);
        let dirs = added_dirs(entries);
        assert forall|i: int| 0 <= i < work.len() && (#[trigger] work[i]).1 implies dirs.contains(
            work[i].0,
        ) by {
            if i < added_work(rest).len() {
                assert(added_work(rest)[i] == work[i]);
                let k = choose|k: int|
                    0 <= k < added_dirs(rest).len() && added_dirs(rest)[k] == work[i].0;
                assert(dirs[k] == work[i].0);
            } else {
                assert(dirs[dirs.len() - 1] == work[i].0);
            }
        }
        assert forall|c: int|
            0 <= c < entries.len() && !(#[trigger] entries[c]).is_symlink implies work.contains(
            (entries[c].path@, entries[c].is_dir),
        ) by {
            if c < rest.len() {
                assert(rest[c] == entries[c]);
                let item = (rest[c].path@, rest[c].is_dir);
                assert(added_work(rest).contains(item));
                let k = choose|k: int|
                    0 <= k < added_work(rest).len() && added_work(rest)[k] == item;
                assert(work[k] == item);
            } else {
                assert(work[work.len() - 1] == (last.path@, last.is_dir));
            }
        }
    }
}

/// A recursive change starts out covering what was selected.
pub proof fn law_attrs_start(roots: Seq<FsEntry>, ls: spec_fn(Seq<char>) -> Seq<FsEntry>)
    ensures
        covers(added_work(roots), added_dirs(roots), ls),
{
    lemma_added(roots);
}

/// Listing the next directory keeps the work list covering the tree. When no
/// directory is left to list, everything below the selected ones is on it.
pub proof fn law_attrs_step(
    work: Seq<(Seq<char>, bool)>,
    dirs: Seq<Seq<char>>,
    ls: spec_fn(Seq<char>) -> Seq<FsEntry>,
)
    requires
        covers(work, dirs, ls),
        dirs.len() > 0,
    ensures
        covers(
            work + added_work(ls(dirs.last())),
            dirs.drop_last() + added_dirs(ls(dirs.last())),
            ls,
        ),
{
    let children = ls(dirs.last());
    let work2 = work + added_work(children);
    let dirs2 = dirs.drop_last() + added_dirs(children);
    lemma_added(children);
    assert forall|w: (Seq<char>, bool)| #[trigger]
        added_work(children).contains(w) implies work2.contains(w) by {
        let k = choose|k: int| 0 <= k < added_work(children).len() && added_work(children)[k] == w;
        assert(work2[work.len() + k] == w);
    }
    assert forall|w: (Seq<char>, bool)| #[trigger] work.contains(w) implies work2.contains(w) by {
        let k = choose|k: int| 0 <= k < work.len() && work[k] == w;
        assert(work2[k] == w);
    }
    assert forall|i: int| 0 <= i < work2.len() && (#[trigger] work2[i]).1 implies dirs2.contains(
        work2[i].0,
    ) || children_listed(work2, ls(work2[i].0)) by {
        if i < work.len() {
            assert(work[i] == work2[i]);
            if dirs.contains(work[i].0) {
                let k = choose|k: int| 0 <= k < dirs.len() && dirs[k] == work[i].0;
                if k < dirs.len() - 1 {
                    assert(dirs2[k] == work[i].0);
                } else {
                    assert(children_listed(work2, children));
                }
            } else {
                assert(children_listed(work2, ls(work[i].0)));
            }
        } else {
            assert(added_work(children)[i - work.len()] == work2[i]);
            let k = choose|k: int|
                0 <= k < added_dirs(children).len() && added_dirs(children)[k] == work2[i].0;
            assert(dirs2[dirs.len() - 1 + k] == work2[i].0);
        }
    }
}

/// When no directory is left to list, every child of every directory on the
/// work list is on it, symlinks aside.
pub proof fn law_attrs_end(
    work: Seq<(Seq<char>, bool)>,
    ls: spec_fn(Seq<char>) -> Seq<FsEntry>,
    i: int,
)
    requires
        covers(work, seq![], ls),
        0 <= i < work.len(),
        work[i].1,
    ensures
        children_listed(work, ls(work[i].0)),
{
}

/// Whether every item of the work list was selected, or is a child of a
/// directory before it on the list, and every directory still to be listed is
/// on it. `ls` is what listings give.
pub open spec fn drawn_from(
    work: Seq<(Seq<char>, bool)>,
    dirs: Seq<Seq<char>>,
    roots: Seq<FsEntry>,
    ls: spec_fn(Seq<char>) -> Seq<FsEntry>,
) -> bool {
    &&& forall|i: int|
        0 <= i < work.len() ==> added_work(roots).contains(#[trigger] work[i]) || child_of_listed(
            work,
            i,
            ls,
        )
    &&& forall|k: int| 0 <= k < dirs.len() ==> work.contains((#[trigger] dirs[k], true))
}

/// Whether the item at `i` is a child of a directory before it on the list.
pub open spec fn child_of_listed(
    work: Seq<(Seq<char>, bool)>,
    i: int,
    ls: spec_fn(Seq<char>) -> Seq<FsEntry>,
) -> bool {
    exists|j: int|
        0 <= j < i && (#[trigger] work[j]).1 && added_work(ls(work[j].0)).contains(work[i])
}

proof fn lemma_added_dirs(entries: Seq<FsEntry>)
    ensures
        forall|k: int|
            0 <= k < added_dirs(entries).len() ==> added_work(entries).contains(
                (#[trigger] added_dirs(entries)[k], true),
            ),
    decreases entries.len(),
{
    if entries.len() > 0 {
        let rest = entries.drop_last();
        lemma_added_dirs(rest);
        let work = added_work(entries);
        let dirs = added_dirs(entries);
        assert forall|k: int| 0 <= k < dirs.len() implies work.contains(
            (#[trigger] dirs[k], true),
        ) by {
            if k < added_dirs(rest).len() {
                assert(added_dirs(rest)[k] == dirs[k]);
                let m = choose|m: int|
                    0 <= m < added_work(rest).len() && added_work(rest)[m] == (dirs[k], true);
                assert(work[m] == (dirs[k], true));
            } else {
                assert(work[work.len() - 1] == (dirs[k], true));
            }
        }
    }
}

/// The list starts with what was selected, symlinks aside, and nothing else.
pub proof fn law_attrs_only_start(
    roots: Seq<FsEntry>,
    recursive: bool,
    ls: spec_fn(Seq<char>) -> Seq<FsEntry>,
)
    ensures
        drawn_from(
            added_work(roots),
            if recursive {
                added_dirs(roots)
            } else {
                seq![]
            },
            roots,
            ls,
        ),
{
    lemma_added_dirs(roots);
}

/// Taking the children of the directory that was listed puts nothing on the
/// list but them. So each item of the finished list was selected or is a child
/// of a listed directory, and none of them is a symlink.
pub proof fn law_attrs_only_step(
    work: Seq<(Seq<char>, bool)>,
    dirs: Seq<Seq<char>>,
    roots: Seq<FsEntry>,
    ls: spec_fn(Seq<char>) -> Seq<FsEntry>,
)
    requires
        drawn_from(work, dirs, roots, ls),
        dirs.len() > 0,
    ensures
        drawn_from(
            work + added_work(ls(dirs.last())),
            dirs.drop_last() + added_dirs(ls(dirs.last())),
            roots,
            ls,
        ),
{
    let children = ls(dirs.last());
    let work2 = work + added_work(children);
    let dirs2 = dirs.drop_last() + added_dirs(children);
    lemma_added_dirs(children);
    assert(work.contains((dirs[dirs.len() - 1], true)));
    let at = choose|at: int| 0 <= at < work.len() && work[at] == (dirs.last(), true);
    assert forall|i: int| 0 <= i < work2.len() implies added_work(roots).contains(
        #[trigger] work2[i],
    ) || child_of_listed(work2, i, ls) by {
        if i < work.len() {
            assert(work2[i] == work[i]);
            if child_of_listed(work, i, ls) {
                let j = choose|j: int|
                    0 <= j < i && (#[trigger] work[j]).1 && added_work(ls(work[j].0)).contains(
                        work[i],
                    );
                assert(work2[j] == work[j]);
            }
        } else {
            assert(work2[at] == work[at]);
            assert(added_work(children)[i - work.len()] == work2[i]);
        }
    }
    assert forall|k: int| 0 <= k < dirs2.len() implies work2.contains(
        (#[trigger] dirs2[k], true),
    ) by {
        if k < dirs.len() - 1 {
            assert(dirs2[k] == dirs[k]);
            let m = choose|m: int| 0 <= m < work.len() && work[m] == (dirs[k], true);
            assert(work2[m] == (dirs[k], true));
        } else {
            let c = k - (dirs.len() - 1);
            assert(dirs2[k] == added_dirs(children)[c]);
            let m = choose|m: int|
                0 <= m < added_work(children).len() && added_work(children)[m] == (dirs2[k], true);
            assert(work2[work.len() + m] == (dirs2[k], true));
        }
    }
}

/// Whether no two items of a work list have the same path.
pub open spec fn paths_differ(work: Seq<(Seq<char>, bool)>) -> bool {
    forall|i: int, j: int|
        0 <= i < j < work.len() ==> (#[trigger] work[i]).0 != (#[trigger] work[j]).0
}

/// Whether no item of the one list has the path of an item of the other.
pub open spec fn apart(a: Seq<(Seq<char>, bool)>, b: Seq<(Seq<char>, bool)>) -> bool {
    forall|i: int, j: int|
        0 <= i < a.len() && 0 <= j < b.len() ==> (#[trigger] a[i]).0 != (#[trigger] b[j]).0
}

/// Whether `dir` is a directory among `roots`, or lies `n` levels below one.
pub open spec fn dir_at_level(
    dir: Seq<char>,
    roots: Seq<FsEntry>,
    ls: spec_fn(Seq<char>) -> Seq<FsEntry>,
    n: nat,
) -> bool
    decreases n,
{
    if n == 0 {
        added_dirs(roots).contains(dir)
    } else {
        exists|above: Seq<char>| #[trigger]
            added_dirs(ls(above)).contains(dir) && dir_at_level(above, roots, ls, (n - 1) as nat)
    }
}

/// Whether `dir` is a directory of the tree below `roots`.
pub open spec fn dir_in_tree(
    dir: Seq<char>,
    roots: Seq<FsEntry>,
    ls: spec_fn(Seq<char>) -> Seq<FsEntry>,
) -> bool {
    exists|n: nat| dir_at_level(dir, roots, ls, n)
}

/// Whether the tree below `roots` is one: neither they nor a listing name a
/// path twice, and what a directory holds is not selected itself, nor held by
/// another directory. Symlinks do not count.
pub open spec fn names_apart(
    roots: Seq<FsEntry>,
    ls: spec_fn(Seq<char>) -> Seq<FsEntry>,
) -> bool {
    &&& paths_differ(added_work(roots))
    &&& forall|d: Seq<char>| #[trigger]
        dir_in_tree(d, roots, ls) ==> paths_differ(added_work(ls(d))) && apart(
            added_work(roots),
            added_work(ls(d)),
        )
    &&& forall|d: Seq<char>, e: Seq<char>|
        d != e && #[trigger] dir_in_tree(d, roots, ls) && #[trigger] dir_in_tree(e, roots, ls)
            ==> apart(added_work(ls(d)), added_work(ls(e)))
}

/// Whether an item was selected, or is a child of a directory on the list that
/// was listed.
pub open spec fn listed_from(
    item: (Seq<char>, bool),
    work: Seq<(Seq<char>, bool)>,
    dirs: Seq<Seq<char>>,
    roots: Seq<FsEntry>,
    ls: spec_fn(Seq<char>) -> Seq<FsEntry>,
) -> bool {
    added_work(roots).contains(item) || exists|e: Seq<char>|
        dir_in_tree(e, roots, ls) && work.contains((e, true)) && !dirs.contains(e)
            && #[trigger] added_work(ls(e)).contains(item)
}

/// Whether no path is on the work list twice, and no directory is to be listed
/// that was listed already, or twice.
pub open spec fn attrs_once(
    work: Seq<(Seq<char>, bool)>,
    dirs: Seq<Seq<char>>,
    roots: Seq<FsEntry>,
    ls: spec_fn(Seq<char>) -> Seq<FsEntry>,
) -> bool {
    &&& paths_differ(work)
    &&& dirs.no_duplicates()
    &&& forall|k: int|
        0 <= k < dirs.len() ==> work.contains((#[trigger] dirs[k], true)) && dir_in_tree(
            dirs[k],
            roots,
            ls,
        )
    &&& forall|i: int| 0 <= i < work.len() ==> listed_from(#[trigger] work[i], work, dirs, roots, ls)
}

proof fn lemma_dirs_differ(entries: Seq<FsEntry>)
    requires
        paths_differ(added_work(entries)),
    ensures
        added_dirs(entries).no_duplicates(),
    decreases entries.len(),
{
    if entries.len() > 0 {
        let rest = entries.drop_last();
        let work = added_work(entries);
        let before = added_work(rest);
        assert forall|i: int, j: int| 0 <= i < j < before.len() implies (#[trigger] before[i]).0 != (
        #[trigger] before[j]).0 by {
            assert(work[i] == before[i] && work[j] == before[j]);
        }
        lemma_dirs_differ(rest);
        lemma_added_dirs(rest);
        let dirs = added_dirs(entries);
        let fewer = added_dirs(rest);
        assert forall|i: int, j: int|
            0 <= i < dirs.len() && 0 <= j < dirs.len() && i != j implies dirs[i] != dirs[j] by {
            if i < fewer.len() && j < fewer.len() {
                assert(fewer[i] == dirs[i] && fewer[j] == dirs[j]);
            } else {
                let k = if i < j {
                    i
                } else {
                    j
                };
                assert(before.contains((fewer[k], true)));
                let m = choose|m: int| 0 <= m < before.len() && before[m] == (fewer[k], true);
                assert(work[m] == before[m]);
                assert(work[work.len() - 1].0 == dirs[dirs.len() - 1]);
            }
        }
    }
}

/// Where the tree is one, the list starts with no path on it twice.
pub proof fn law_attrs_once_start(
    roots: Seq<FsEntry>,
    recursive: bool,
    ls: spec_fn(Seq<char>) -> Seq<FsEntry>,
)
    requires
        names_apart(roots, ls),
    ensures
        attrs_once(
            added_work(roots),
            if recursive {
                added_dirs(roots)
            } else {
                seq![]
            },
            roots,
            ls,
        ),
        added_work(roots).no_duplicates(),
{
    lemma_dirs_differ(roots);
    lemma_added_dirs(roots);
    let dirs = added_dirs(roots);
    assert forall|k: int| 0 <= k < dirs.len() implies dir_in_tree(
        #[trigger] dirs[k],
        roots,
        ls,
    ) by {
        assert(dir_at_level(dirs[k], roots, ls, 0));
    }
    assert forall|i: int| 0 <= i < added_work(roots).len() implies added_work(roots).contains(
        #[trigger] added_work(roots)[i],
    ) by {}
    lemma_no_duplicates(added_work(roots));
}

proof fn lemma_no_duplicates(work: Seq<(Seq<char>, bool)>)
    requires
        paths_differ(work),
    ensures
        work.no_duplicates(),
{
    assert forall|i: int, j: int|
        0 <= i < work.len() && 0 <= j < work.len() && i != j implies work[i] != work[j] by {
        if i < j {
            assert(work[i].0 != work[j].0);
        } else {
            assert(work[j].0 != work[i].0);
        }
    }
}

/// Where the tree is one, taking a listing puts no path on the list twice.
pub proof fn law_attrs_once_step(
    work: Seq<(Seq<char>, bool)>,
    dirs: Seq<Seq<char>>,
    roots: Seq<FsEntry>,
    ls: spec_fn(Seq<char>) -> Seq<FsEntry>,
)
    requires
        names_apart(roots, ls),
        attrs_once(work, dirs, roots, ls),
        dirs.len() > 0,
    ensures
        attrs_once(
            work + added_work(ls(dirs.last())),
            dirs.drop_last() + added_dirs(ls(dirs.last())),
            roots,
            ls,
        ),
        (work + added_work(ls(dirs.last()))).no_duplicates(),
{
    let d = dirs.last();
    let new = added_work(ls(d));
    let below = added_dirs(ls(d));
    let work2 = work + new;
    let dirs2 = dirs.drop_last() + below;
    assert(dirs[dirs.len() - 1] == d);
    assert(dir_in_tree(d, roots, ls) && work.contains((d, true)));
    lemma_dirs_differ(ls(d));
    lemma_added_dirs(ls(d));
    assert forall|i: int, j: int| 0 <= i < work.len() && 0 <= j < new.len() implies (
    #[trigger] work[i]).0 != (#[trigger] new[j]).0 by {
        assert(listed_from(work[i], work, dirs, roots, ls));
        if added_work(roots).contains(work[i]) {
            let k = choose|k: int|
                0 <= k < added_work(roots).len() && added_work(roots)[k] == work[i];
            assert(apart(added_work(roots), new));
            assert(added_work(roots)[k].0 != new[j].0);
        } else {
            let e = choose|e: Seq<char>|
                dir_in_tree(e, roots, ls) && work.contains((e, true)) && !dirs.contains(e)
                    && #[trigger] added_work(ls(e)).contains(work[i]);
            assert(e != d);
            let from = added_work(ls(e));
            assert(apart(from, new));
            let k = choose|k: int| 0 <= k < from.len() && from[k] == work[i];
            assert(from[k].0 != new[j].0);
        }
    }
    assert(apart(work, new));
    assert forall|i: int, j: int| 0 <= i < j < work2.len() implies (#[trigger] work2[i]).0 != (
    #[trigger] work2[j]).0 by {
        if j < work.len() {
            assert(work2[i] == work[i] && work2[j] == work[j]);
        } else if i < work.len() {
            assert(work2[i] == work[i] && work2[j] == new[j - work.len()]);
        } else {
            assert(work2[i] == new[i - work.len()] && work2[j] == new[j - work.len()]);
        }
    }
    lemma_no_duplicates(work2);
    // A directory that was on the list is not among those found now.
    assert forall|e: Seq<char>| #[trigger] work.contains((e, true)) implies !below.contains(e) by {
        if below.contains(e) {
            let k = choose|k: int| 0 <= k < below.len() && below[k] == e;
            assert(new.contains((below[k], true)));
            let m = choose|m: int| 0 <= m < new.len() && new[m] == (e, true);
            let i = choose|i: int| 0 <= i < work.len() && work[i] == (e, true);
            assert(work[i].0 != new[m].0);
        }
    }
    assert forall|w: (Seq<char>, bool)| #[trigger] work.contains(w) implies work2.contains(w) by {
        let k = choose|k: int| 0 <= k < work.len() && work[k] == w;
        assert(work2[k] == w);
    }
    let n = dirs.len() - 1;
    assert forall|i: int, j: int|
        0 <= i < dirs2.len() && 0 <= j < dirs2.len() && i != j implies dirs2[i] != dirs2[j] by {
        if i < n && j < n {
            assert(dirs2[i] == dirs[i] && dirs2[j] == dirs[j]);
        } else if i >= n && j >= n {
            assert(dirs2[i] == below[i - n] && dirs2[j] == below[j - n]);
        } else {
            let (a, b) = if i < n {
                (i, j)
            } else {
                (j, i)
            };
            assert(dirs2[a] == dirs[a] && dirs2[b] == below[b - n]);
            assert(work.contains((dirs[a], true)));
            assert(below.contains(below[b - n]));
        }
    }
    assert forall|k: int| 0 <= k < dirs2.len() implies work2.contains((#[trigger] dirs2[k], true))
        && dir_in_tree(dirs2[k], roots, ls) by {
        if k < n {
            assert(dirs2[k] == dirs[k]);
            assert(work.contains((dirs[k], true)));
        } else {
            assert(dirs2[k] == below[k - n]);
            assert(new.contains((below[k - n], true)));
            let m = choose|m: int| 0 <= m < new.len() && new[m] == (below[k - n], true);
            assert(work2[work.len() + m] == (dirs2[k], true));
            let level = choose|level: nat| dir_at_level(d, roots, ls, level);
            assert(added_dirs(ls(d)).contains(dirs2[k]));
            assert(dir_at_level(dirs2[k], roots, ls, level + 1));
        }
    }
    assert forall|e: Seq<char>|
        work.contains((e, true)) && !(#[trigger] dirs.contains(e)) implies !dirs2.contains(e) by {
        if dirs2.contains(e) {
            let k = choose|k: int| 0 <= k < dirs2.len() && dirs2[k] == e;
            if k < n {
                assert(dirs[k] == e);
            } else {
                assert(below[k - n] == e);
            }
        }
    }
    assert(!dirs2.contains(d)) by {
        if dirs2.contains(d) {
            let k = choose|k: int| 0 <= k < dirs2.len() && dirs2[k] == d;
            if k < n {
                assert(dirs[k] == dirs[n]);
            } else {
                assert(below[k - n] == d);
            }
        }
    }
    assert forall|i: int| 0 <= i < work2.len() implies listed_from(
        #[trigger] work2[i],
        work2,
        dirs2,
        roots,
        ls,
    ) by {
        if i < work.len() {
            assert(work2[i] == work[i]);
            if !added_work(roots).contains(work[i]) {
                let e = choose|e: Seq<char>|
                    dir_in_tree(e, roots, ls) && work.contains((e, true)) && !dirs.contains(e)
                        && #[trigger] added_work(ls(e)).contains(work[i]);
                assert(!dirs2.contains(e) && work2.contains((e, true)));
                assert(added_work(ls(e)).contains(work2[i]));
            }
        } else {
            assert(new[i - work.len()] == work2[i]);
            assert(added_work(ls(d)).contains(work2[i]));
            assert(work2.contains((d, true)));
        }
    }
}

/// Totals for a set of entries: every contained file and directory,
/// recursively, without following directory symlinks.
#[derive(Debug, Clone, Copy, PartialEq, Eq, Structural)]
pub struct DiskUsage {
    pub files: u64,
    pub dirs: u64,
    pub bytes: u64,
}

impl Default for DiskUsage {
    fn default() -> (r: Self)
        ensures
            r == (DiskUsage { files: 0, dirs: 0, bytes: 0 }),
    {
        DiskUsage { files: 0, dirs: 0, bytes: 0 }
    }
}

/// How many of the entries are no directories to descend into.
pub open spec fn file_count(entries: Seq<FsEntry>) -> nat {
    (entries.len() - added_dirs(entries).len()) as nat
}

/// The sizes of the entries that are no directories to descend into.
pub open spec fn file_bytes(entries: Seq<FsEntry>) -> nat
    decreases entries.len(),
{
    if entries.len() == 0 {
        0
    } else if entries.last().is_dir && !entries.last().is_symlink {
        file_bytes(entries.drop_last())
    } else {
        file_bytes(entries.drop_last()) + entries.last().size as nat
    }
}

/// Whether the totals with `entries` added stay within their range.
pub open spec fn usage_fits(usage: DiskUsage, entries: Seq<FsEntry>) -> bool {
    &&& usage.files + file_count(entries) <= u64::MAX
    &&& usage.dirs + added_dirs(entries).len() <= u64::MAX
    &&& usage.bytes + file_bytes(entries) <= u64::MAX
}

/// The totals with `entries` added.
pub open spec fn usage_with(usage: DiskUsage, entries: Seq<FsEntry>) -> DiskUsage {
    DiskUsage {
        files: (usage.files + file_count(entries)) as u64,
        dirs: (usage.dirs + added_dirs(entries).len()) as u64,
        bytes: (usage.bytes + file_bytes(entries)) as u64,
    }
}

proof fn lemma_counts(entries: Seq<FsEntry>, i: int)
    requires
        0 <= i <= entries.len(),
    ensures
        added_dirs(entries.take(i)).len() <= i,
        added_dirs(entries.take(i)).len() <= added_dirs(entries).len(),
        file_count(entries.take(i)) <= file_count(entries),
        file_bytes(entries.take(i)) <= file_bytes(entries),
        added_dirs(entries).len() <= entries.len(),
    decreases entries.len(),
{
    if entries.len() > 0 {
        let rest = entries.drop_last();
        if i < entries.len() {
            lemma_counts(rest, i);
            assert(rest.take(i) =~= entries.take(i));
        } else {
            lemma_counts(rest, rest.len() as int);
            assert(rest.take(rest.len() as int) =~= rest);
            assert(entries.take(i) =~= entries);
        }
    }
}

/// The totals so far, and the directories still to be listed.
pub struct UsageWalk {
    pub usage: DiskUsage,
    pub stack: Vec<String>,
}

/// The totals and the directories to list, once entries were listed.
pub open spec fn usage_listed(
    usage: DiskUsage,
    stack: Seq<Seq<char>>,
    entries: Seq<FsEntry>,
) -> (DiskUsage, Seq<Seq<char>>) {
    (usage_with(usage, entries), stack + added_dirs(entries))
}

/// The directory to list next, and those that are left then.
pub open spec fn usage_next(stack: Seq<Seq<char>>) -> (Option<Seq<char>>, Seq<Seq<char>>) {
    if stack.len() == 0 {
        (None, stack)
    } else {
        (Some(stack.last()), stack.drop_last())
    }
}

impl UsageWalk {
    /// Nothing counted yet.
    pub fn new() -> (r: Self)
        ensures
            r.usage == (DiskUsage { files: 0, dirs: 0, bytes: 0 }),
            r.stack@.len() == 0,
    {
        UsageWalk { usage: DiskUsage::default(), stack: Vec::new() }
    }

    /// Whether the entries can be added without a total leaving its range.
    pub fn fits(&self, entries: &Vec<FsEntry>) -> (r: bool)
        ensures
            r == usage_fits(self.usage, entries@),
    {
        let mut files: u128 = 0;
        let mut dirs: u128 = 0;
        let mut bytes: u128 = 0;
        let mut i: usize = 0;
        while i < entries.len()
            invariant
                i <= entries@.len(),
                files == file_count(entries@.take(i as int)),
                dirs == added_dirs(entries@.take(i as int)).len(),
                files + dirs == i,
                bytes == file_bytes(entries@.take(i as int)),
                bytes <= i * 0xffff_ffff_ffff_ffff,
            decreases entries@.len() - i,
        {
            assert(entries@.take(i + 1).drop_last() =~= entries@.take(i as int));
            let e = &entries[i];
            let n: u128 = i as u128;
            assert(n * 0xffff_ffff_ffff_ffff <= 0xffff_ffff_ffff_ffff * 0xffff_ffff_ffff_ffff)
                by (nonlinear_arith)
                requires
                    n <= 0xffff_ffff_ffff_ffff,
            ;
            if e.is_dir && !e.is_symlink {
                dirs += 1;
            } else {
                files += 1;
                bytes += e.size as u128;
            }
            i += 1;
        }
        assert(entries@.take(i as int) =~= entries@);
        let max: u128 = u64::MAX as u128;
        let n: u128 = i as u128;
        assert(n * 0xffff_ffff_ffff_ffff <= 0xffff_ffff_ffff_ffff * 0xffff_ffff_ffff_ffff)
                by (nonlinear_arith)
            requires
                n <= 0xffff_ffff_ffff_ffff,
        ;
        self.usage.files as u128 + files <= max && self.usage.dirs as u128 + dirs <= max
            && self.usage.bytes as u128 + bytes <= max
    }

    /// Counts the entries: directories are to be listed in turn, and
    /// everything else adds a file and its size. Takes the selected entries
    /// first, then the children of each directory that was listed.
    pub fn listed(&mut self, entries: &Vec<FsEntry>)
        requires
            usage_fits(old(self).usage, entries@),
        ensures
            (final(self).usage, texts(final(self).stack@)) == usage_listed(
                old(self).usage,
                texts(old(self).stack@),
                entries@,
            ),
    {
        let mut i: usize = 0;
        assert(texts(self.stack@) + added_dirs(entries@.take(0)) =~= texts(self.stack@));
        while i < entries.len()
            invariant
                i <= entries@.len(),
                usage_fits(old(self).usage, entries@),
                self.usage == usage_with(old(self).usage, entries@.take(i as int)),
                texts(self.stack@) == texts(old(self).stack@) + added_dirs(entries@.take(i as int)),
            decreases entries@.len() - i,
        {
            assert(entries@.take(i + 1).drop_last() =~= entries@.take(i as int));
            proof {
                lemma_counts(entries@, i as int);
                lemma_counts(entries@, i + 1);
            }
            let e = &entries[i];
            let ghost stack = self.stack@;
            if e.is_dir && !e.is_symlink {
                self.usage.dirs += 1;
                self.stack.push(e.path.clone());
                assert(texts(self.stack@) =~= texts(stack).push(e.path@));
            } else {
                self.usage.files += 1;
                self.usage.bytes += e.size;
            }
            i += 1;
        }
        assert(entries@.take(i as int) =~= entries@);
    }

    /// The directory to list next. One that cannot be read is passed over.
    pub fn next_dir(&mut self) -> (r: Option<String>)
        ensures
            final(self).usage == old(self).usage,
            (
                match r {
                    Some(dir) => Some(dir@),
                    None => None,
                },
                texts(final(self).stack@),
            ) == usage_next(texts(old(self).stack@)),
    {
        let r = self.stack.pop();
        assert(r is Some ==> texts(self.stack@) =~= texts(old(self).stack@).drop_last());
        r
    }
}

/// Every entry counts once, as a file or as a directory.
pub proof fn law_usage_counts_all(usage: DiskUsage, entries: Seq<FsEntry>)
    requires
        usage_fits(usage, entries),
    ensures
        usage_with(usage, entries).files + usage_with(usage, entries).dirs == usage.files
            + usage.dirs + entries.len(),
{
    lemma_counts(entries, entries.len() as int);
}

/// Totals of any size.
#[verifier::ext_equal]
pub struct Totals {
    pub files: nat,
    pub dirs: nat,
    pub bytes: nat,
}

/// Two totals added up.
pub open spec fn summed(a: Totals, b: Totals) -> Totals {
    Totals { files: a.files + b.files, dirs: a.dirs + b.dirs, bytes: a.bytes + b.bytes }
}

/// What was counted, as totals of any size.
pub open spec fn counted_so_far(u: DiskUsage) -> Totals {
    Totals { files: u.files as nat, dirs: u.dirs as nat, bytes: u.bytes as nat }
}

/// The totals of entries, without what is below them.
pub open spec fn own_totals(entries: Seq<FsEntry>) -> Totals {
    Totals {
        files: file_count(entries),
        dirs: added_dirs(entries).len(),
        bytes: file_bytes(entries),
    }
}

/// The totals of everything below a directory, where no path from it is longer
/// than `depth`. `ls` is what listings give, which is nothing for a directory
/// that cannot be read.
pub open spec fn totals_below(
    dir: Seq<char>,
    ls: spec_fn(Seq<char>) -> Seq<FsEntry>,
    depth: nat,
) -> Totals
    decreases depth, 0nat,
{
    if depth == 0 {
        Totals { files: 0, dirs: 0, bytes: 0 }
    } else {
        summed(own_totals(ls(dir)), totals_below_all(added_dirs(ls(dir)), ls, (depth - 1) as nat))
    }
}

/// The totals of everything below the directories.
pub open spec fn totals_below_all(
    dirs: Seq<Seq<char>>,
    ls: spec_fn(Seq<char>) -> Seq<FsEntry>,
    depth: nat,
) -> Totals
    decreases depth, dirs.len(),
{
    if dirs.len() == 0 {
        Totals { files: 0, dirs: 0, bytes: 0 }
    } else {
        summed(
            totals_below_all(dirs.drop_last(), ls, depth),
            totals_below(dirs.last(), ls, depth),
        )
    }
}

/// The totals of entries and everything below them.
pub open spec fn tree_totals(
    roots: Seq<FsEntry>,
    ls: spec_fn(Seq<char>) -> Seq<FsEntry>,
    depth: nat,
) -> Totals {
    summed(own_totals(roots), totals_below_all(added_dirs(roots), ls, depth))
}

/// Whether no path from the directory is longer than `depth` directories.
pub open spec fn dir_no_deeper(
    dir: Seq<char>,
    ls: spec_fn(Seq<char>) -> Seq<FsEntry>,
    depth: nat,
) -> bool
    decreases depth,
{
    depth > 0 && forall|i: int|
        0 <= i < added_dirs(ls(dir)).len() ==> dir_no_deeper(
            #[trigger] added_dirs(ls(dir))[i],
            ls,
            (depth - 1) as nat,
        )
}

/// Whether none of the directories leads deeper than `depth`.
pub open spec fn dirs_no_deeper(
    dirs: Seq<Seq<char>>,
    ls: spec_fn(Seq<char>) -> Seq<FsEntry>,
    depth: nat,
) -> bool {
    forall|i: int| 0 <= i < dirs.len() ==> dir_no_deeper(#[trigger] dirs[i], ls, depth)
}

proof fn lemma_dir_no_deeper_more(
    dir: Seq<char>,
    ls: spec_fn(Seq<char>) -> Seq<FsEntry>,
    depth: nat,
)
    requires
        dir_no_deeper(dir, ls, depth),
    ensures
        dir_no_deeper(dir, ls, depth + 1),
    decreases depth,
{
    let below = added_dirs(ls(dir));
    assert forall|i: int| 0 <= i < below.len() implies dir_no_deeper(
        #[trigger] below[i],
        ls,
        depth,
    ) by {
        lemma_dir_no_deeper_more(below[i], ls, (depth - 1) as nat);
    }
}

proof fn lemma_totals_below_more(
    dir: Seq<char>,
    ls: spec_fn(Seq<char>) -> Seq<FsEntry>,
    depth: nat,
)
    requires
        dir_no_deeper(dir, ls, depth),
    ensures
        totals_below(dir, ls, depth) == totals_below(dir, ls, depth + 1),
    decreases depth, 0nat,
{
    lemma_totals_below_all_more(added_dirs(ls(dir)), ls, (depth - 1) as nat);
}

proof fn lemma_totals_below_all_more(
    dirs: Seq<Seq<char>>,
    ls: spec_fn(Seq<char>) -> Seq<FsEntry>,
    depth: nat,
)
    requires
        dirs_no_deeper(dirs, ls, depth),
    ensures
        totals_below_all(dirs, ls, depth) == totals_below_all(dirs, ls, depth + 1),
    decreases depth, dirs.len(),
{
    if dirs.len() > 0 {
        assert(dir_no_deeper(dirs[dirs.len() - 1], ls, depth));
        lemma_totals_below_more(dirs.last(), ls, depth);
        assert forall|i: int| 0 <= i < dirs.drop_last().len() implies dir_no_deeper(
            #[trigger] dirs.drop_last()[i],
            ls,
            depth,
        ) by {
            assert(dirs.drop_last()[i] == dirs[i]);
        }
        lemma_totals_below_all_more(dirs.drop_last(), ls, depth);
    }
}

proof fn lemma_totals_below_all_joined(
    a: Seq<Seq<char>>,
    b: Seq<Seq<char>>,
    ls: spec_fn(Seq<char>) -> Seq<FsEntry>,
    depth: nat,
)
    ensures
        totals_below_all(a + b, ls, depth) == summed(
            totals_below_all(a, ls, depth),
            totals_below_all(b, ls, depth),
        ),
    decreases b.len(),
{
    if b.len() == 0 {
        assert(a + b =~= a);
    } else {
        lemma_totals_below_all_joined(a, b.drop_last(), ls, depth);
        assert((a + b).drop_last() =~= a + b.drop_last());
        assert((a + b).last() == b.last());
    }
}

/// Whether what was counted, and what is below the directories still to be
/// listed, make up the whole tree below `roots`.
pub open spec fn usage_inv(
    usage: DiskUsage,
    stack: Seq<Seq<char>>,
    roots: Seq<FsEntry>,
    ls: spec_fn(Seq<char>) -> Seq<FsEntry>,
    depth: nat,
) -> bool {
    &&& dirs_no_deeper(stack, ls, depth)
    &&& summed(counted_so_far(usage), totals_below_all(stack, ls, depth)) == tree_totals(
        roots,
        ls,
        depth,
    )
}

/// With the selected entries counted, the rest of the tree is below the
/// directories among them.
pub proof fn law_usage_start(
    roots: Seq<FsEntry>,
    ls: spec_fn(Seq<char>) -> Seq<FsEntry>,
    depth: nat,
)
    requires
        usage_fits((DiskUsage { files: 0, dirs: 0, bytes: 0 }), roots),
        dirs_no_deeper(added_dirs(roots), ls, depth),
    ensures
        usage_inv(
            usage_with((DiskUsage { files: 0, dirs: 0, bytes: 0 }), roots),
            added_dirs(roots),
            roots,
            ls,
            depth,
        ),
{
}

/// Counting the children of the next directory in its place loses nothing and
/// counts nothing twice.
pub proof fn law_usage_step(
    usage: DiskUsage,
    stack: Seq<Seq<char>>,
    roots: Seq<FsEntry>,
    ls: spec_fn(Seq<char>) -> Seq<FsEntry>,
    depth: nat,
)
    requires
        usage_inv(usage, stack, roots, ls, depth),
        stack.len() > 0,
        usage_fits(usage, ls(stack.last())),
    ensures
        usage_inv(
            usage_with(usage, ls(stack.last())),
            stack.drop_last() + added_dirs(ls(stack.last())),
            roots,
            ls,
            depth,
        ),
{
    let dir = stack.last();
    let below = added_dirs(ls(dir));
    let rest = stack.drop_last();
    let next = rest + below;
    let less = (depth - 1) as nat;
    assert(dir_no_deeper(stack[stack.len() - 1], ls, depth));
    assert(dirs_no_deeper(below, ls, less));
    lemma_totals_below_all_more(below, ls, less);
    lemma_totals_below_all_joined(rest, below, ls, depth);
    assert forall|i: int| 0 <= i < next.len() implies dir_no_deeper(
        #[trigger] next[i],
        ls,
        depth,
    ) by {
        if i < rest.len() {
            assert(next[i] == stack[i]);
        } else {
            assert(next[i] == below[i - rest.len()]);
            lemma_dir_no_deeper_more(next[i], ls, less);
        }
    }
    assert(totals_below(dir, ls, depth) == summed(
        own_totals(ls(dir)),
        totals_below_all(below, ls, less),
    ));
    assert(counted_so_far(usage_with(usage, ls(dir))) == summed(
        counted_so_far(usage),
        own_totals(ls(dir)),
    ));
}

/// When no directory is left to list, the totals are those of the whole tree.
pub proof fn law_usage_end(
    usage: DiskUsage,
    roots: Seq<FsEntry>,
    ls: spec_fn(Seq<char>) -> Seq<FsEntry>,
    depth: nat,
)
    requires
        usage_inv(usage, seq![], roots, ls, depth),
    ensures
        counted_so_far(usage) == tree_totals(roots, ls, depth),
{
}

/// What a recursive delete does next.
#[derive(Debug)]
pub enum DeleteStep {
    RemoveFile(String),
    /// Asked for until it is answered with [`DeleteWalk::listed`].
    ListDir(String),
    RemoveDir(String),
}

/// A directory of a recursive delete: `emptied` once its children are dealt
/// with by whatever stands above it on the stack.
#[derive(Debug)]
pub struct PendingDir {
    pub path: String,
    pub emptied: bool,
}

/// A recursive delete on a server: the files to remove now, and the
/// directories under way, the innermost last.
pub struct DeleteWalk {
    pub stack: Vec<PendingDir>,
    pub files: Vec<String>,
}

/// The stack as plain values.
pub open spec fn pending_of(stack: Seq<PendingDir>) -> Seq<(Seq<char>, bool)> {
    Seq::new(stack.len(), |i: int| (stack[i].path@, stack[i].emptied))
}

/// A child as a directory listing gives it: its name, and whether it is a
/// directory.
#[derive(Debug)]
pub struct ChildEntry {
    pub name: String,
    pub is_dir: bool,
}

/// The child directories of `dir`, each still to be emptied.
pub open spec fn child_dirs(dir: Seq<char>, children: Seq<ChildEntry>) -> Seq<(Seq<char>, bool)>
    decreases children.len(),
{
    if children.len() == 0 {
        seq![]
    } else if children.last().is_dir {
        child_dirs(dir, children.drop_last()).push((joined(dir, children.last().name@), false))
    } else {
        child_dirs(dir, children.drop_last())
    }
}

/// The children of `dir` that are no directories.
pub open spec fn child_files(dir: Seq<char>, children: Seq<ChildEntry>) -> Seq<Seq<char>>
    decreases children.len(),
{
    if children.len() == 0 {
        seq![]
    } else if children.last().is_dir {
        child_files(dir, children.drop_last())
    } else {
        child_files(dir, children.drop_last()).push(joined(dir, children.last().name@))
    }
}

/// The directories under way and the files to remove, at the start.
pub open spec fn delete_begun(path: Seq<char>, is_dir: bool) -> (
    Seq<(Seq<char>, bool)>,
    Seq<Seq<char>>,
) {
    if is_dir {
        (seq![(path, false)], seq![])
    } else {
        (seq![], seq![path])
    }
}

/// Whether `r` is what is done next, and the rest what is left then.
pub open spec fn is_next_step(
    r: Option<DeleteStep>,
    stack: Seq<(Seq<char>, bool)>,
    files: Seq<Seq<char>>,
    stack2: Seq<(Seq<char>, bool)>,
    files2: Seq<Seq<char>>,
) -> bool {
    match r {
        Some(DeleteStep::RemoveFile(p)) => files.len() > 0 && p@ == files[0] && files2
            == files.skip(1) && stack2 == stack,
        Some(DeleteStep::RemoveDir(d)) => files.len() == 0 && stack.len() > 0 && stack.last() == (
            d@,
            true,
        ) && stack2 == stack.drop_last() && files2 == files,
        Some(DeleteStep::ListDir(d)) => files.len() == 0 && stack.len() > 0 && stack.last() == (
            d@,
            false,
        ) && stack2 == stack && files2 == files,
        None => files.len() == 0 && stack.len() == 0 && files2 == files && stack2 == stack,
    }
}

/// The directories under way and the files to remove, once the innermost
/// directory was listed.
pub open spec fn delete_listed(
    stack: Seq<(Seq<char>, bool)>,
    files: Seq<Seq<char>>,
    children: Seq<ChildEntry>,
) -> (Seq<(Seq<char>, bool)>, Seq<Seq<char>>) {
    let dir = stack.last().0;
    (
        stack.drop_last().push((dir, true)) + child_dirs(dir, children),
        files + child_files(dir, children),
    )
}

impl DeleteWalk {
    /// Starts with one file, or with one directory and all below it.
    pub fn new(path: &str, is_dir: bool) -> (r: Self)
        ensures
            (pending_of(r.stack@), texts(r.files@)) == delete_begun(path@, is_dir),
    {
        let mut walk = DeleteWalk { stack: Vec::new(), files: Vec::new() };
        if is_dir {
            walk.stack.push(PendingDir { path: path.to_owned(), emptied: false });
        } else {
            walk.files.push(path.to_owned());
        }
        assert(pending_of(walk.stack@) =~= if is_dir {
            seq![(path@, false)]
        } else {
            seq![]
        });
        assert(texts(walk.files@) =~= if is_dir {
            seq![]
        } else {
            seq![path@]
        });
        walk
    }

    /// What to do next: the files found so far are removed first; then the
    /// innermost directory is removed if its children are gone, else listed.
    /// `None` when all is deleted.
    pub fn next(&mut self) -> (r: Option<DeleteStep>)
        ensures
            is_next_step(
                r,
                pending_of(old(self).stack@),
                texts(old(self).files@),
                pending_of(final(self).stack@),
                texts(final(self).files@),
            ),
    {
        let ghost stack = pending_of(self.stack@);
        if self.files.len() > 0 {
            let f = self.files.remove(0);
            assert(texts(self.files@) =~= texts(old(self).files@).skip(1));
            return Some(DeleteStep::RemoveFile(f));
        }
        let n = self.stack.len();
        if n == 0 {
            return None;
        }
        assert(stack.last() == (self.stack@[n - 1].path@, self.stack@[n - 1].emptied));
        if !self.stack[n - 1].emptied {
            return Some(DeleteStep::ListDir(self.stack[n - 1].path.clone()));
        }
        let top = self.stack.pop();
        assert(pending_of(self.stack@) =~= stack.drop_last());
        match top {
            Some(dir) => Some(DeleteStep::RemoveDir(dir.path)),
            None => None,
        }
    }

    /// Takes the children of the innermost directory, which was listed: from
    /// now on it is removed once they are dealt with.
    pub fn listed(&mut self, children: &Vec<ChildEntry>)
        requires
            old(self).stack@.len() > 0,
            !old(self).stack@.last().emptied,
        ensures
            (pending_of(final(self).stack@), texts(final(self).files@)) == delete_listed(
                pending_of(old(self).stack@),
                texts(old(self).files@),
                children@,
            ),
    {
        let n = self.stack.len();
        let dir = self.stack[n - 1].path.clone();
        let ghost before = pending_of(self.stack@);
        let _ = self.stack.pop();
        self.stack.push(PendingDir { path: dir.clone(), emptied: true });
        let ghost opened = before.drop_last().push((dir@, true));
        assert(pending_of(self.stack@) =~= opened);
        assert(before.last() == (dir@, false));
        let mut i: usize = 0;
        assert(opened + child_dirs(dir@, children@.take(0)) =~= opened);
        assert(texts(self.files@) + child_files(dir@, children@.take(0)) =~= texts(self.files@));
        while i < children.len()
            invariant
                i <= children@.len(),
                pending_of(self.stack@) == opened + child_dirs(dir@, children@.take(i as int)),
                texts(self.files@) == texts(old(self).files@) + child_files(
                    dir@,
                    children@.take(i as int),
                ),
            decreases children@.len() - i,
        {
            assert(children@.take(i + 1).drop_last() =~= children@.take(i as int));
            let child = join(dir.as_str(), children[i].name.as_str());
            let ghost stack = self.stack@;
            let ghost files = self.files@;
            if children[i].is_dir {
                self.stack.push(PendingDir { path: child, emptied: false });
                assert(pending_of(self.stack@) =~= pending_of(stack).push((child@, false)));
            } else {
                self.files.push(child);
                assert(texts(self.files@) =~= texts(files).push(child@));
            }
            i += 1;
        }
        assert(children@.take(i as int) =~= children@);
    }
}

/// Whether a child still stands to be dealt with before what stands at
/// position `i` of the stack.
pub open spec fn dealt_before(
    stack: Seq<(Seq<char>, bool)>,
    files: Seq<Seq<char>>,
    i: int,
    child: Seq<char>,
) -> bool {
    files.contains(child) || exists|j: int| i < j < stack.len() && (#[trigger] stack[j]).0 == child
}

/// Whether each directory that is to be removed has, above it on the stack or
/// among the files, all of its children that still exist. `ls` is what
/// listings give, `left` what still exists.
pub open spec fn delete_order(
    stack: Seq<(Seq<char>, bool)>,
    files: Seq<Seq<char>>,
    left: Set<Seq<char>>,
    ls: spec_fn(Seq<char>) -> Seq<ChildEntry>,
) -> bool {
    forall|i: int, c: int|
        #![trigger stack[i], ls(stack[i].0)[c]]
        0 <= i < stack.len() && stack[i].1 && 0 <= c < ls(stack[i].0).len() && left.contains(
            joined(stack[i].0, ls(stack[i].0)[c].name@),
        ) ==> dealt_before(stack, files, i, joined(stack[i].0, ls(stack[i].0)[c].name@))
}

/// A directory is removed only when none of its children is left.
pub proof fn law_delete_children_first(
    stack: Seq<(Seq<char>, bool)>,
    left: Set<Seq<char>>,
    ls: spec_fn(Seq<char>) -> Seq<ChildEntry>,
    c: int,
)
    requires
        delete_order(stack, seq![], left, ls),
        stack.len() > 0,
        stack.last().1,
        0 <= c < ls(stack.last().0).len(),
    ensures
        !left.contains(joined(stack.last().0, ls(stack.last().0)[c].name@)),
{
    let i = stack.len() - 1;
    let child = joined(stack[i].0, ls(stack[i].0)[c].name@);
    if left.contains(child) {
        assert(dealt_before(stack, seq![], i, child));
    }
}

/// Removing the directory on top keeps the order for those below it.
pub proof fn law_delete_order_remove_dir(
    stack: Seq<(Seq<char>, bool)>,
    left: Set<Seq<char>>,
    ls: spec_fn(Seq<char>) -> Seq<ChildEntry>,
)
    requires
        delete_order(stack, seq![], left, ls),
        stack.len() > 0,
        stack.last().1,
    ensures
        delete_order(stack.drop_last(), seq![], left.remove(stack.last().0), ls),
{
    let stack2 = stack.drop_last();
    let left2 = left.remove(stack.last().0);
    assert forall|i: int, c: int|
        #![trigger stack2[i], ls(stack2[i].0)[c]]
        0 <= i < stack2.len() && stack2[i].1 && 0 <= c < ls(stack2[i].0).len() && left2.contains(
            joined(stack2[i].0, ls(stack2[i].0)[c].name@),
        ) implies dealt_before(
        stack2,
        seq![],
        i,
        joined(stack2[i].0, ls(stack2[i].0)[c].name@),
    ) by {
        let child = joined(stack2[i].0, ls(stack2[i].0)[c].name@);
        assert(stack[i] == stack2[i]);
        assert(dealt_before(stack, seq![], i, child));
        let j = choose|j: int| i < j < stack.len() && (#[trigger] stack[j]).0 == child;
        assert(stack2[j].0 == child);
    }
}

/// Removing a file keeps the order.
pub proof fn law_delete_order_remove_file(
    stack: Seq<(Seq<char>, bool)>,
    files: Seq<Seq<char>>,
    left: Set<Seq<char>>,
    ls: spec_fn(Seq<char>) -> Seq<ChildEntry>,
)
    requires
        delete_order(stack, files, left, ls),
        files.len() > 0,
    ensures
        delete_order(stack, files.skip(1), left.remove(files[0]), ls),
{
    let files2 = files.skip(1);
    let left2 = left.remove(files[0]);
    assert forall|i: int, c: int|
        #![trigger stack[i], ls(stack[i].0)[c]]
        0 <= i < stack.len() && stack[i].1 && 0 <= c < ls(stack[i].0).len() && left2.contains(
            joined(stack[i].0, ls(stack[i].0)[c].name@),
        ) implies dealt_before(
        stack,
        files2,
        i,
        joined(stack[i].0, ls(stack[i].0)[c].name@),
    ) by {
        let child = joined(stack[i].0, ls(stack[i].0)[c].name@);
        assert(dealt_before(stack, files, i, child));
        if files.contains(child) {
            let k = choose|k: int| 0 <= k < files.len() && files[k] == child;
            assert(files2[k - 1] == child);
        }
    }
}

proof fn lemma_child_lists(dir: Seq<char>, children: Seq<ChildEntry>, c: int)
    requires
        0 <= c < children.len(),
    ensures
        children[c].is_dir ==> child_dirs(dir, children).contains(
            (joined(dir, children[c].name@), false),
        ),
        !children[c].is_dir ==> child_files(dir, children).contains(
            joined(dir, children[c].name@),
        ),
    decreases children.len(),
{
    let rest = children.drop_last();
    let dirs = child_dirs(dir, children);
    let files = child_files(dir, children);
    let path = joined(dir, children[c].name@);
    if c < rest.len() {
        lemma_child_lists(dir, rest, c);
        assert(rest[c] == children[c]);
        if children[c].is_dir {
            let k = choose|k: int|
                0 <= k < child_dirs(dir, rest).len() && child_dirs(dir, rest)[k] == (path, false);
            assert(dirs[k] == (path, false));
        } else {
            let k = choose|k: int|
                0 <= k < child_files(dir, rest).len() && child_files(dir, rest)[k] == path;
            assert(files[k] == path);
        }
    } else if children[c].is_dir {
        assert(dirs[dirs.len() - 1] == (path, false));
    } else {
        assert(files[files.len() - 1] == path);
    }
}

proof fn lemma_child_dirs_pending(dir: Seq<char>, children: Seq<ChildEntry>)
    ensures
        forall|k: int|
            0 <= k < child_dirs(dir, children).len() ==> !(#[trigger] child_dirs(
                dir,
                children,
            )[k]).1,
    decreases children.len(),
{
    if children.len() > 0 {
        let rest = child_dirs(dir, children.drop_last());
        let dirs = child_dirs(dir, children);
        lemma_child_dirs_pending(dir, children.drop_last());
        assert forall|k: int| 0 <= k < dirs.len() implies !(#[trigger] dirs[k]).1 by {
            if k < rest.len() {
                assert(!rest[k].1);
            }
        }
    }
}

/// Listing the directory on top, and taking its children, keeps the order.
pub proof fn law_delete_order_list_dir(
    stack: Seq<(Seq<char>, bool)>,
    left: Set<Seq<char>>,
    ls: spec_fn(Seq<char>) -> Seq<ChildEntry>,
)
    requires
        delete_order(stack, seq![], left, ls),
        stack.len() > 0,
        !stack.last().1,
    ensures
        ({
            let dir = stack.last().0;
            delete_order(
                stack.drop_last().push((dir, true)) + child_dirs(dir, ls(dir)),
                child_files(dir, ls(dir)),
                left,
                ls,
            )
        }),
{
    let dir = stack.last().0;
    let top = stack.len() - 1;
    let dirs = child_dirs(dir, ls(dir));
    let files2 = child_files(dir, ls(dir));
    let stack2 = stack.drop_last().push((dir, true)) + dirs;
    lemma_child_dirs_pending(dir, ls(dir));
    assert forall|i: int, c: int|
        #![trigger stack2[i], ls(stack2[i].0)[c]]
        0 <= i < stack2.len() && stack2[i].1 && 0 <= c < ls(stack2[i].0).len() && left.contains(
            joined(stack2[i].0, ls(stack2[i].0)[c].name@),
        ) implies dealt_before(
        stack2,
        files2,
        i,
        joined(stack2[i].0, ls(stack2[i].0)[c].name@),
    ) by {
        let child = joined(stack2[i].0, ls(stack2[i].0)[c].name@);
        if i < top {
            assert(stack[i] == stack2[i]);
            assert(dealt_before(stack, seq![], i, child));
            let j = choose|j: int| i < j < stack.len() && (#[trigger] stack[j]).0 == child;
            assert(stack2[j].0 == child);
        } else if i == top {
            lemma_child_lists(dir, ls(dir), c);
            if ls(dir)[c].is_dir {
                let k = choose|k: int| 0 <= k < dirs.len() && dirs[k] == (child, false);
                assert(stack2[top + 1 + k].0 == child);
            }
        } else {
            assert(stack2[i] == dirs[i - top - 1]);
        }
    }
}

/// Whether `p`, a path and whether it is a directory, is `root` or lies `n`
/// levels below it. `ls` is what listings give.
pub open spec fn lies_below(
    root: (Seq<char>, bool),
    p: (Seq<char>, bool),
    ls: spec_fn(Seq<char>) -> Seq<ChildEntry>,
    n: nat,
) -> bool
    decreases n,
{
    if n == 0 {
        p == root
    } else {
        exists|dir: Seq<char>, c: int|
            0 <= c < ls(dir).len() && p == #[trigger] child_at(dir, ls, c) && lies_below(
                root,
                (dir, true),
                ls,
                (n - 1) as nat,
            )
    }
}

/// Whether `p` is `root` or lies anywhere below it.
pub open spec fn in_tree(
    root: (Seq<char>, bool),
    p: (Seq<char>, bool),
    ls: spec_fn(Seq<char>) -> Seq<ChildEntry>,
) -> bool {
    exists|n: nat| lies_below(root, p, ls, n)
}

/// A child of a directory: its path, and whether it is a directory.
pub open spec fn child_at(
    dir: Seq<char>,
    ls: spec_fn(Seq<char>) -> Seq<ChildEntry>,
    c: int,
) -> (Seq<char>, bool) {
    (joined(dir, ls(dir)[c].name@), ls(dir)[c].is_dir)
}

/// Whether the walk is to deal with `p`: a file to remove now, or a directory
/// under way.
pub open spec fn to_deal_with(
    stack: Seq<(Seq<char>, bool)>,
    files: Seq<Seq<char>>,
    p: (Seq<char>, bool),
) -> bool {
    if p.1 {
        exists|j: int| 0 <= j < stack.len() && (#[trigger] stack[j]).0 == p.0
    } else {
        files.contains(p.0)
    }
}

/// Whether the children of `dir` were taken: it is gone, or waits for them.
pub open spec fn opened(
    stack: Seq<(Seq<char>, bool)>,
    gone: Set<(Seq<char>, bool)>,
    dir: Seq<char>,
) -> bool {
    gone.contains((dir, true)) || stack.contains((dir, true))
}

/// Whether the walk accounts for the tree below `root`, where `gone` is what
/// it has removed: the root and each child that was found is gone or to be
/// dealt with, and nothing but what lies in the tree is.
pub open spec fn delete_inv(
    stack: Seq<(Seq<char>, bool)>,
    files: Seq<Seq<char>>,
    gone: Set<(Seq<char>, bool)>,
    root: (Seq<char>, bool),
    ls: spec_fn(Seq<char>) -> Seq<ChildEntry>,
) -> bool {
    &&& gone.contains(root) || to_deal_with(stack, files, root)
    &&& forall|dir: Seq<char>, c: int|
        opened(stack, gone, dir) && 0 <= c < ls(dir).len() ==> gone.contains(
            #[trigger] child_at(dir, ls, c),
        ) || to_deal_with(stack, files, child_at(dir, ls, c))
    &&& forall|p: (Seq<char>, bool)| #[trigger] gone.contains(p) ==> in_tree(root, p, ls)
    &&& forall|j: int|
        0 <= j < stack.len() ==> in_tree(root, ((#[trigger] stack[j]).0, true), ls)
    &&& forall|k: int| 0 <= k < files.len() ==> in_tree(root, (#[trigger] files[k], false), ls)
}

/// A walk starts with its root to be dealt with.
pub proof fn law_delete_start(
    root: (Seq<char>, bool),
    ls: spec_fn(Seq<char>) -> Seq<ChildEntry>,
)
    ensures
        root.1 ==> delete_inv(seq![(root.0, false)], seq![], Set::empty(), root, ls),
        !root.1 ==> delete_inv(seq![], seq![root.0], Set::empty(), root, ls),
{
    assert(lies_below(root, root, ls, 0));
    assert(in_tree(root, root, ls));
    if root.1 {
        assert(root == (root.0, true));
        assert(seq![(root.0, false)][0].0 == root.0);
    } else {
        assert(root == (root.0, false));
        assert(seq![root.0][0] == root.0);
    }
}

/// Removing the next file keeps the account.
pub proof fn law_delete_file(
    stack: Seq<(Seq<char>, bool)>,
    files: Seq<Seq<char>>,
    gone: Set<(Seq<char>, bool)>,
    root: (Seq<char>, bool),
    ls: spec_fn(Seq<char>) -> Seq<ChildEntry>,
)
    requires
        delete_inv(stack, files, gone, root, ls),
        files.len() > 0,
    ensures
        delete_inv(stack, files.skip(1), gone.insert((files[0], false)), root, ls),
{
    let files2 = files.skip(1);
    let gone2 = gone.insert((files[0], false));
    assert forall|p: (Seq<char>, bool)| #[trigger]
        to_deal_with(stack, files, p) implies gone2.contains(p) || to_deal_with(
        stack,
        files2,
        p,
    ) by {
        if !p.1 {
            let k = choose|k: int| 0 <= k < files.len() && files[k] == p.0;
            if k > 0 {
                assert(files2[k - 1] == p.0);
            } else {
                assert(p == (files[0], false));
            }
        }
    }
    assert forall|k: int| 0 <= k < files2.len() implies in_tree(
        root,
        (#[trigger] files2[k], false),
        ls,
    ) by {
        assert(files2[k] == files[k + 1]);
    }
    assert forall|dir: Seq<char>, c: int|
        opened(stack, gone2, dir) && 0 <= c < ls(dir).len() implies gone2.contains(
        #[trigger] child_at(dir, ls, c),
    ) || to_deal_with(stack, files2, child_at(dir, ls, c)) by {
        assert(opened(stack, gone, dir));
    }
}

/// Removing the innermost directory, whose children were taken, keeps the
/// account.
pub proof fn law_delete_dir(
    stack: Seq<(Seq<char>, bool)>,
    gone: Set<(Seq<char>, bool)>,
    root: (Seq<char>, bool),
    ls: spec_fn(Seq<char>) -> Seq<ChildEntry>,
)
    requires
        delete_inv(stack, seq![], gone, root, ls),
        stack.len() > 0,
        stack.last().1,
    ensures
        delete_inv(
            stack.drop_last(),
            seq![],
            gone.insert((stack.last().0, true)),
            root,
            ls,
        ),
{
    let none = Seq::<Seq<char>>::empty();
    let dir = stack.last().0;
    let stack2 = stack.drop_last();
    let gone2 = gone.insert((dir, true));
    assert(stack[stack.len() - 1] == (dir, true));
    assert(in_tree(root, (dir, true), ls));
    assert forall|p: (Seq<char>, bool)| #[trigger]
        to_deal_with(stack, none, p) implies gone2.contains(p) || to_deal_with(
        stack2,
        none,
        p,
    ) by {
        if p.1 {
            let j = choose|j: int| 0 <= j < stack.len() && (#[trigger] stack[j]).0 == p.0;
            if j < stack2.len() {
                assert(stack2[j].0 == p.0);
            } else {
                assert(p == (dir, true));
            }
        }
    }
    assert forall|d: Seq<char>, c: int|
        opened(stack2, gone2, d) && 0 <= c < ls(d).len() implies gone2.contains(
        #[trigger] child_at(d, ls, c),
    ) || to_deal_with(stack2, none, child_at(d, ls, c)) by {
        if stack2.contains((d, true)) {
            let j = choose|j: int| 0 <= j < stack2.len() && stack2[j] == (d, true);
            assert(stack[j] == (d, true));
        }
        assert(opened(stack, gone, d));
    }
    assert forall|j: int| 0 <= j < stack2.len() implies in_tree(
        root,
        ((#[trigger] stack2[j]).0, true),
        ls,
    ) by {
        assert(stack2[j] == stack[j]);
    }
}

proof fn lemma_children_only(dir: Seq<char>, ls: spec_fn(Seq<char>) -> Seq<ChildEntry>, n: int)
    requires
        0 <= n <= ls(dir).len(),
    ensures
        forall|k: int|
            #![trigger child_dirs(dir, ls(dir).take(n))[k]]
            0 <= k < child_dirs(dir, ls(dir).take(n)).len() ==> exists|c: int|
                0 <= c < n && #[trigger] child_at(dir, ls, c) == (
                    child_dirs(dir, ls(dir).take(n))[k].0,
                    true,
                ),
        forall|k: int|
            #![trigger child_files(dir, ls(dir).take(n))[k]]
            0 <= k < child_files(dir, ls(dir).take(n)).len() ==> exists|c: int|
                0 <= c < n && #[trigger] child_at(dir, ls, c) == (
                    child_files(dir, ls(dir).take(n))[k],
                    false,
                ),
    decreases n,
{
    if n > 0 {
        lemma_children_only(dir, ls, n - 1);
        let part = ls(dir).take(n);
        let rest = ls(dir).take(n - 1);
        assert(part.drop_last() =~= rest);
        assert(part.last() == ls(dir)[n - 1]);
        let last = child_at(dir, ls, n - 1);
        assert forall|k: int|
            #![trigger child_dirs(dir, part)[k]]
            0 <= k < child_dirs(dir, part).len() implies exists|c: int|
            0 <= c < n && #[trigger] child_at(dir, ls, c) == (child_dirs(dir, part)[k].0, true) by {
            if k < child_dirs(dir, rest).len() {
                assert(child_dirs(dir, part)[k] == child_dirs(dir, rest)[k]);
                let c = choose|c: int|
                    0 <= c < n - 1 && #[trigger] child_at(dir, ls, c) == (
                        child_dirs(dir, rest)[k].0,
                        true,
                    );
                assert(child_at(dir, ls, c) == (child_dirs(dir, part)[k].0, true));
            } else {
                assert(last == (child_dirs(dir, part)[k].0, true));
            }
        }
        assert forall|k: int|
            #![trigger child_files(dir, part)[k]]
            0 <= k < child_files(dir, part).len() implies exists|c: int|
            0 <= c < n && #[trigger] child_at(dir, ls, c) == (child_files(dir, part)[k], false) by {
            if k < child_files(dir, rest).len() {
                assert(child_files(dir, part)[k] == child_files(dir, rest)[k]);
                let c = choose|c: int|
                    0 <= c < n - 1 && #[trigger] child_at(dir, ls, c) == (
                        child_files(dir, rest)[k],
                        false,
                    );
                assert(child_at(dir, ls, c) == (child_files(dir, part)[k], false));
            } else {
                assert(last == (child_files(dir, part)[k], false));
            }
        }
    }
}

proof fn lemma_child_in_tree(
    root: (Seq<char>, bool),
    dir: Seq<char>,
    ls: spec_fn(Seq<char>) -> Seq<ChildEntry>,
    c: int,
)
    requires
        in_tree(root, (dir, true), ls),
        0 <= c < ls(dir).len(),
    ensures
        in_tree(root, child_at(dir, ls, c), ls),
{
    let n = choose|n: nat| lies_below(root, (dir, true), ls, n);
    assert(lies_below(root, child_at(dir, ls, c), ls, n + 1));
}

/// Taking the children of the innermost directory keeps the account.
pub proof fn law_delete_list(
    stack: Seq<(Seq<char>, bool)>,
    gone: Set<(Seq<char>, bool)>,
    root: (Seq<char>, bool),
    ls: spec_fn(Seq<char>) -> Seq<ChildEntry>,
)
    requires
        delete_inv(stack, seq![], gone, root, ls),
        stack.len() > 0,
        !stack.last().1,
    ensures
        ({
            let dir = stack.last().0;
            delete_inv(
                stack.drop_last().push((dir, true)) + child_dirs(dir, ls(dir)),
                child_files(dir, ls(dir)),
                gone,
                root,
                ls,
            )
        }),
{
    let none = Seq::<Seq<char>>::empty();
    let dir = stack.last().0;
    let top = stack.len() - 1;
    let dirs = child_dirs(dir, ls(dir));
    let files2 = child_files(dir, ls(dir));
    let stack2 = stack.drop_last().push((dir, true)) + dirs;
    let all = ls(dir).len() as int;
    assert(ls(dir).take(all) =~= ls(dir));
    lemma_children_only(dir, ls, all);
    lemma_child_dirs_pending(dir, ls(dir));
    assert(stack[top].0 == dir);
    assert(in_tree(root, (dir, true), ls));
    assert forall|p: (Seq<char>, bool)| #[trigger]
        to_deal_with(stack, none, p) implies to_deal_with(stack2, files2, p) by {
        let j = choose|j: int| 0 <= j < stack.len() && (#[trigger] stack[j]).0 == p.0;
        assert(stack2[j].0 == p.0);
    }
    assert forall|d: Seq<char>, c: int|
        opened(stack2, gone, d) && 0 <= c < ls(d).len() implies gone.contains(
        #[trigger] child_at(d, ls, c),
    ) || to_deal_with(stack2, files2, child_at(d, ls, c)) by {
        if d == dir {
            lemma_child_lists(dir, ls(dir), c);
            let child = child_at(dir, ls, c);
            if child.1 {
                let k = choose|k: int| 0 <= k < dirs.len() && dirs[k] == (child.0, false);
                assert(stack2[top + 1 + k].0 == child.0);
            }
        } else {
            if stack2.contains((d, true)) {
                let j = choose|j: int| 0 <= j < stack2.len() && stack2[j] == (d, true);
                if j > top {
                    assert(stack2[j] == dirs[j - top - 1]);
                }
                assert(stack[j] == (d, true));
            }
            assert(opened(stack, gone, d));
        }
    }
    assert forall|j: int| 0 <= j < stack2.len() implies in_tree(
        root,
        ((#[trigger] stack2[j]).0, true),
        ls,
    ) by {
        if j < top {
            assert(stack2[j] == stack[j]);
        } else if j > top {
            let k = j - top - 1;
            assert(stack2[j] == child_dirs(dir, ls(dir).take(all))[k]);
            let c = choose|c: int|
                0 <= c < all && #[trigger] child_at(dir, ls, c) == (stack2[j].0, true);
            lemma_child_in_tree(root, dir, ls, c);
        }
    }
    assert forall|k: int| 0 <= k < files2.len() implies in_tree(
        root,
        (#[trigger] files2[k], false),
        ls,
    ) by {
        assert(files2[k] == child_files(dir, ls(dir).take(all))[k]);
        let c = choose|c: int|
            0 <= c < all && #[trigger] child_at(dir, ls, c) == (files2[k], false);
        lemma_child_in_tree(root, dir, ls, c);
    }
}

proof fn lemma_all_gone(
    gone: Set<(Seq<char>, bool)>,
    root: (Seq<char>, bool),
    ls: spec_fn(Seq<char>) -> Seq<ChildEntry>,
    p: (Seq<char>, bool),
    n: nat,
)
    requires
        delete_inv(seq![], seq![], gone, root, ls),
        lies_below(root, p, ls, n),
    ensures
        gone.contains(p),
    decreases n,
{
    let nothing = Seq::<(Seq<char>, bool)>::empty();
    let none = Seq::<Seq<char>>::empty();
    if n == 0 {
        assert(!to_deal_with(nothing, none, root));
    } else {
        let (dir, c) = choose|dir: Seq<char>, c: int|
            0 <= c < ls(dir).len() && p == #[trigger] child_at(dir, ls, c) && lies_below(
                root,
                (dir, true),
                ls,
                (n - 1) as nat,
            );
        lemma_all_gone(gone, root, ls, (dir, true), (n - 1) as nat);
        assert(opened(nothing, gone, dir));
        assert(!to_deal_with(nothing, none, child_at(dir, ls, c)));
    }
}

/// A walk that is through has removed its root and everything below it, and
/// nothing else.
pub proof fn law_delete_end(
    gone: Set<(Seq<char>, bool)>,
    root: (Seq<char>, bool),
    ls: spec_fn(Seq<char>) -> Seq<ChildEntry>,
    p: (Seq<char>, bool),
)
    requires
        delete_inv(seq![], seq![], gone, root, ls),
    ensures
        gone.contains(p) <==> in_tree(root, p, ls),
{
    if in_tree(root, p, ls) {
        let n = choose|n: nat| lies_below(root, p, ls, n);
        lemma_all_gone(gone, root, ls, p, n);
    }
}

/// Whether the tree below `root` is one: no directory of it names a path
/// twice, no two of them name the same, and none names the root.
pub open spec fn children_apart(
    root: (Seq<char>, bool),
    ls: spec_fn(Seq<char>) -> Seq<ChildEntry>,
) -> bool {
    &&& forall|d: Seq<char>, e: Seq<char>, i: int, j: int|
        #![trigger child_at(d, ls, i), child_at(e, ls, j)]
        in_tree(root, (d, true), ls) && in_tree(root, (e, true), ls) && 0 <= i < ls(d).len() && 0
            <= j < ls(e).len() && (d != e || i != j) ==> child_at(d, ls, i).0 != child_at(
            e,
            ls,
            j,
        ).0
    &&& forall|d: Seq<char>, i: int|
        in_tree(root, (d, true), ls) && 0 <= i < ls(d).len() ==> (#[trigger] child_at(
            d,
            ls,
            i,
        )).0 != root.0
}

/// Whether a path was removed, as a file or as a directory.
pub open spec fn path_gone(gone: Set<(Seq<char>, bool)>, path: Seq<char>) -> bool {
    gone.contains((path, true)) || gone.contains((path, false))
}

/// Whether a path is the root's, or that of a child that was taken.
pub open spec fn found(
    path: Seq<char>,
    stack: Seq<(Seq<char>, bool)>,
    gone: Set<(Seq<char>, bool)>,
    root: (Seq<char>, bool),
    ls: spec_fn(Seq<char>) -> Seq<ChildEntry>,
) -> bool {
    path == root.0 || exists|d: Seq<char>, c: int|
        opened(stack, gone, d) && 0 <= c < ls(d).len() && (#[trigger] child_at(d, ls, c)).0 == path
}

/// Whether nothing that is to be dealt with is so twice, or gone already, and
/// all of it was found.
pub open spec fn delete_once(
    stack: Seq<(Seq<char>, bool)>,
    files: Seq<Seq<char>>,
    gone: Set<(Seq<char>, bool)>,
    root: (Seq<char>, bool),
    ls: spec_fn(Seq<char>) -> Seq<ChildEntry>,
) -> bool {
    &&& paths_differ(stack)
    &&& files.no_duplicates()
    &&& forall|i: int, k: int|
        0 <= i < stack.len() && 0 <= k < files.len() ==> (#[trigger] stack[i]).0
            != #[trigger] files[k]
    &&& forall|i: int|
        0 <= i < stack.len() ==> !path_gone(gone, (#[trigger] stack[i]).0) && found(
            stack[i].0,
            stack,
            gone,
            root,
            ls,
        )
    &&& forall|k: int|
        0 <= k < files.len() ==> !path_gone(gone, #[trigger] files[k]) && found(
            files[k],
            stack,
            gone,
            root,
            ls,
        )
    &&& forall|p: (Seq<char>, bool)| #[trigger]
        gone.contains(p) ==> found(p.0, stack, gone, root, ls)
}

/// Nothing is removed twice: the next file and the innermost directory are not
/// gone yet.
pub proof fn law_delete_not_gone(
    stack: Seq<(Seq<char>, bool)>,
    files: Seq<Seq<char>>,
    gone: Set<(Seq<char>, bool)>,
    root: (Seq<char>, bool),
    ls: spec_fn(Seq<char>) -> Seq<ChildEntry>,
)
    requires
        delete_once(stack, files, gone, root, ls),
    ensures
        files.len() > 0 ==> !path_gone(gone, files[0]),
        stack.len() > 0 ==> !path_gone(gone, stack.last().0),
{
    if stack.len() > 0 {
        assert(!path_gone(gone, stack[stack.len() - 1].0));
    }
}

/// A walk starts with nothing to be dealt with twice.
pub proof fn law_delete_once_start(
    root: (Seq<char>, bool),
    ls: spec_fn(Seq<char>) -> Seq<ChildEntry>,
)
    ensures
        root.1 ==> delete_once(seq![(root.0, false)], seq![], Set::empty(), root, ls),
        !root.1 ==> delete_once(seq![], seq![root.0], Set::empty(), root, ls),
{
}

/// Removing the next file keeps what is to be dealt with apart.
pub proof fn law_delete_once_file(
    stack: Seq<(Seq<char>, bool)>,
    files: Seq<Seq<char>>,
    gone: Set<(Seq<char>, bool)>,
    root: (Seq<char>, bool),
    ls: spec_fn(Seq<char>) -> Seq<ChildEntry>,
)
    requires
        delete_once(stack, files, gone, root, ls),
        files.len() > 0,
    ensures
        delete_once(stack, files.skip(1), gone.insert((files[0], false)), root, ls),
{
    let files2 = files.skip(1);
    let gone2 = gone.insert((files[0], false));
    assert forall|p: Seq<char>| #[trigger] found(p, stack, gone, root, ls) implies found(
        p,
        stack,
        gone2,
        root,
        ls,
    ) by {
        if p != root.0 {
            let (d, c) = choose|d: Seq<char>, c: int|
                opened(stack, gone, d) && 0 <= c < ls(d).len() && (#[trigger] child_at(
                    d,
                    ls,
                    c,
                )).0 == p;
            assert(opened(stack, gone2, d));
            assert(child_at(d, ls, c).0 == p);
        }
    }
    assert(found(files[0], stack, gone, root, ls));
    assert forall|i: int| 0 <= i < stack.len() implies !path_gone(gone2, (#[trigger] stack[i]).0)
        && found(stack[i].0, stack, gone2, root, ls) by {
        assert(stack[i].0 != files[0]);
        assert(found(stack[i].0, stack, gone, root, ls));
    }
    assert forall|k: int| 0 <= k < files2.len() implies !path_gone(gone2, #[trigger] files2[k])
        && found(files2[k], stack, gone2, root, ls) by {
        assert(files2[k] == files[k + 1]);
        assert(files[k + 1] != files[0]);
        assert(found(files[k + 1], stack, gone, root, ls));
    }
    assert forall|p: (Seq<char>, bool)| #[trigger] gone2.contains(p) implies found(
        p.0,
        stack,
        gone2,
        root,
        ls,
    ) by {
        assert(gone.contains(p) || p == (files[0], false));
        assert(found(p.0, stack, gone, root, ls));
    }
    assert forall|i: int, k: int| 0 <= i < stack.len() && 0 <= k < files2.len() implies (
    #[trigger] stack[i]).0 != #[trigger] files2[k] by {
        assert(files2[k] == files[k + 1]);
    }
}

/// Removing the innermost directory keeps what is to be dealt with apart.
pub proof fn law_delete_once_dir(
    stack: Seq<(Seq<char>, bool)>,
    gone: Set<(Seq<char>, bool)>,
    root: (Seq<char>, bool),
    ls: spec_fn(Seq<char>) -> Seq<ChildEntry>,
)
    requires
        delete_once(stack, seq![], gone, root, ls),
        stack.len() > 0,
        stack.last().1,
    ensures
        delete_once(
            stack.drop_last(),
            seq![],
            gone.insert((stack.last().0, true)),
            root,
            ls,
        ),
{
    let dir = stack.last().0;
    let top = stack.len() - 1;
    let stack2 = stack.drop_last();
    let gone2 = gone.insert((dir, true));
    assert(stack[top].0 == dir);
    assert forall|p: Seq<char>| #[trigger] found(p, stack, gone, root, ls) implies found(
        p,
        stack2,
        gone2,
        root,
        ls,
    ) by {
        if p != root.0 {
            let (d, c) = choose|d: Seq<char>, c: int|
                opened(stack, gone, d) && 0 <= c < ls(d).len() && (#[trigger] child_at(
                    d,
                    ls,
                    c,
                )).0 == p;
            if stack.contains((d, true)) {
                let j = choose|j: int| 0 <= j < stack.len() && stack[j] == (d, true);
                if j < top {
                    assert(stack2[j] == (d, true));
                }
            }
            assert(opened(stack2, gone2, d));
            assert(child_at(d, ls, c).0 == p);
        }
    }
    assert(found(stack[top].0, stack, gone, root, ls));
    assert forall|i: int| 0 <= i < stack2.len() implies !path_gone(gone2, (#[trigger] stack2[i]).0)
        && found(stack2[i].0, stack2, gone2, root, ls) by {
        assert(stack2[i] == stack[i]);
        assert(stack[i].0 != stack[top].0);
        assert(found(stack[i].0, stack, gone, root, ls));
    }
    assert forall|p: (Seq<char>, bool)| #[trigger] gone2.contains(p) implies found(
        p.0,
        stack2,
        gone2,
        root,
        ls,
    ) by {
        assert(gone.contains(p) || p == (dir, true));
        assert(found(p.0, stack, gone, root, ls));
    }
    assert forall|i: int, j: int| 0 <= i < j < stack2.len() implies (#[trigger] stack2[i]).0 != (
    #[trigger] stack2[j]).0 by {
        assert(stack2[i] == stack[i] && stack2[j] == stack[j]);
    }
}

proof fn lemma_children_apart(
    root: (Seq<char>, bool),
    dir: Seq<char>,
    ls: spec_fn(Seq<char>) -> Seq<ChildEntry>,
    n: int,
)
    requires
        children_apart(root, ls),
        in_tree(root, (dir, true), ls),
        0 <= n <= ls(dir).len(),
    ensures
        paths_differ(child_dirs(dir, ls(dir).take(n))),
        child_files(dir, ls(dir).take(n)).no_duplicates(),
        forall|i: int, k: int|
            0 <= i < child_dirs(dir, ls(dir).take(n)).len() && 0 <= k < child_files(
                dir,
                ls(dir).take(n),
            ).len() ==> (#[trigger] child_dirs(dir, ls(dir).take(n))[i]).0
                != #[trigger] child_files(dir, ls(dir).take(n))[k],
    decreases n,
{
    if n > 0 {
        lemma_children_apart(root, dir, ls, n - 1);
        lemma_children_only(dir, ls, n - 1);
        let part = ls(dir).take(n);
        let rest = ls(dir).take(n - 1);
        assert(part.drop_last() =~= rest);
        assert(part.last() == ls(dir)[n - 1]);
        let last = child_at(dir, ls, n - 1);
        let (dirs, files) = (child_dirs(dir, rest), child_files(dir, rest));
        let (dirs2, files2) = (child_dirs(dir, part), child_files(dir, part));
        assert forall|k: int| 0 <= k < dirs.len() implies (#[trigger] dirs[k]).0 != last.0 by {
            let c = choose|c: int|
                0 <= c < n - 1 && #[trigger] child_at(dir, ls, c) == (dirs[k].0, true);
            assert(child_at(dir, ls, c).0 != child_at(dir, ls, n - 1).0);
        }
        assert forall|k: int| 0 <= k < files.len() implies #[trigger] files[k] != last.0 by {
            let c = choose|c: int|
                0 <= c < n - 1 && #[trigger] child_at(dir, ls, c) == (files[k], false);
            assert(child_at(dir, ls, c).0 != child_at(dir, ls, n - 1).0);
        }
        if ls(dir)[n - 1].is_dir {
            assert(dirs2 =~= dirs.push((last.0, false)));
            assert(files2 =~= files);
        } else {
            assert(dirs2 =~= dirs);
            assert(files2 =~= files.push(last.0));
        }
    }
}

/// Where the tree is one, taking the children of the innermost directory adds
/// nothing that is to be dealt with already, or gone.
pub proof fn law_delete_once_list(
    stack: Seq<(Seq<char>, bool)>,
    gone: Set<(Seq<char>, bool)>,
    root: (Seq<char>, bool),
    ls: spec_fn(Seq<char>) -> Seq<ChildEntry>,
)
    requires
        children_apart(root, ls),
        delete_inv(stack, seq![], gone, root, ls),
        delete_once(stack, seq![], gone, root, ls),
        stack.len() > 0,
        !stack.last().1,
    ensures
        ({
            let dir = stack.last().0;
            delete_once(
                stack.drop_last().push((dir, true)) + child_dirs(dir, ls(dir)),
                child_files(dir, ls(dir)),
                gone,
                root,
                ls,
            )
        }),
{
    let dir = stack.last().0;
    let top = stack.len() - 1;
    let dirs = child_dirs(dir, ls(dir));
    let files2 = child_files(dir, ls(dir));
    let below = stack.drop_last().push((dir, true));
    let stack2 = below + dirs;
    let all = ls(dir).len() as int;
    assert(ls(dir).take(all) =~= ls(dir));
    assert(stack[top] == (dir, false));
    assert(in_tree(root, (stack[top].0, true), ls));
    lemma_children_only(dir, ls, all);
    lemma_children_apart(root, dir, ls, all);
    assert(!opened(stack, gone, dir)) by {
        assert(!path_gone(gone, stack[top].0));
        if stack.contains((dir, true)) {
            let j = choose|j: int| 0 <= j < stack.len() && stack[j] == (dir, true);
            assert(j < top);
            assert(stack[j].0 != stack[top].0);
        }
    }
    // What was found before is no child of this directory.
    assert forall|p: Seq<char>, c: int|
        #![trigger found(p, stack, gone, root, ls), child_at(dir, ls, c)]
        found(p, stack, gone, root, ls) && 0 <= c < all implies child_at(dir, ls, c).0 != p by {
        if p != root.0 {
            let (d, i) = choose|d: Seq<char>, i: int|
                opened(stack, gone, d) && 0 <= i < ls(d).len() && (#[trigger] child_at(
                    d,
                    ls,
                    i,
                )).0 == p;
            if stack.contains((d, true)) {
                let j = choose|j: int| 0 <= j < stack.len() && stack[j] == (d, true);
                assert(in_tree(root, (stack[j].0, true), ls));
            }
            assert(in_tree(root, (d, true), ls));
            assert(child_at(d, ls, i).0 != child_at(dir, ls, c).0);
        }
    }
    assert forall|p: Seq<char>| #[trigger] found(p, stack, gone, root, ls) implies found(
        p,
        stack2,
        gone,
        root,
        ls,
    ) by {
        if p != root.0 {
            let (d, i) = choose|d: Seq<char>, i: int|
                opened(stack, gone, d) && 0 <= i < ls(d).len() && (#[trigger] child_at(
                    d,
                    ls,
                    i,
                )).0 == p;
            if stack.contains((d, true)) {
                let j = choose|j: int| 0 <= j < stack.len() && stack[j] == (d, true);
                assert(stack2[j] == (d, true));
            }
            assert(opened(stack2, gone, d));
            assert(child_at(d, ls, i).0 == p);
        }
    }
    assert(stack2[top] == (dir, true));
    assert(opened(stack2, gone, dir));
    // A child directory is a child, and none was found before.
    assert forall|k: int| 0 <= k < dirs.len() implies found(
        (#[trigger] dirs[k]).0,
        stack2,
        gone,
        root,
        ls,
    ) && !found(dirs[k].0, stack, gone, root, ls) by {
        assert(dirs[k] == child_dirs(dir, ls(dir).take(all))[k]);
        let c = choose|c: int|
            0 <= c < all && #[trigger] child_at(dir, ls, c) == (dirs[k].0, true);
        assert(child_at(dir, ls, c).0 == dirs[k].0);
    }
    assert forall|k: int| 0 <= k < files2.len() implies found(
        #[trigger] files2[k],
        stack2,
        gone,
        root,
        ls,
    ) && !found(files2[k], stack, gone, root, ls) by {
        assert(files2[k] == child_files(dir, ls(dir).take(all))[k]);
        let c = choose|c: int|
            0 <= c < all && #[trigger] child_at(dir, ls, c) == (files2[k], false);
        assert(child_at(dir, ls, c).0 == files2[k]);
    }
    assert forall|p: Seq<char>| #[trigger] path_gone(gone, p) implies found(
        p,
        stack,
        gone,
        root,
        ls,
    ) by {
        if gone.contains((p, true)) {
            assert(found((p, true).0, stack, gone, root, ls));
        } else {
            assert(found((p, false).0, stack, gone, root, ls));
        }
    }
    assert forall|i: int| 0 <= i <= top implies (#[trigger] stack2[i]).0 == stack[i].0 by {}
    assert forall|i: int| top < i < stack2.len() implies #[trigger] stack2[i] == dirs[i - top - 1] by {}
    assert forall|i: int| 0 <= i < stack2.len() implies !path_gone(gone, (#[trigger] stack2[i]).0)
        && found(stack2[i].0, stack2, gone, root, ls) by {
        if i <= top {
            assert(found(stack[i].0, stack, gone, root, ls));
        } else {
            assert(stack2[i] == dirs[i - top - 1]);
        }
    }
    assert forall|i: int, j: int| 0 <= i < j < stack2.len() implies (#[trigger] stack2[i]).0 != (
    #[trigger] stack2[j]).0 by {
        if j <= top {
            assert(stack[i].0 != stack[j].0);
        } else if i <= top {
            assert(found(stack[i].0, stack, gone, root, ls));
            assert(!found(dirs[j - top - 1].0, stack, gone, root, ls));
        } else {
            assert(dirs[i - top - 1].0 != dirs[j - top - 1].0);
        }
    }
    assert forall|i: int, k: int| 0 <= i < stack2.len() && 0 <= k < files2.len() implies (
    #[trigger] stack2[i]).0 != #[trigger] files2[k] by {
        if i <= top {
            assert(found(stack[i].0, stack, gone, root, ls));
        } else {
            assert(dirs[i - top - 1].0 != files2[k]);
        }
    }
}

/// What entries add to a work list: each one that is no symlink adds itself,
/// and symlinks add nothing, in the order of the entries.
pub proof fn law_added_work(a: Seq<FsEntry>, b: Seq<FsEntry>, e: FsEntry)
    ensures
        added_work(a + b) == added_work(a) + added_work(b),
        e.is_symlink ==> added_work(seq![e]).len() == 0,
        !e.is_symlink ==> added_work(seq![e]) == seq![(e.path@, e.is_dir)],
    decreases b.len(),
{
    let none = Seq::<FsEntry>::empty();
    assert(seq![e].drop_last() =~= none);
    assert(added_work(none) =~= Seq::<(Seq<char>, bool)>::empty());
    assert(!e.is_symlink ==> added_work(seq![e]) =~= seq![(e.path@, e.is_dir)]);
    if b.len() == 0 {
        assert(a + b =~= a);
        assert(added_work(a) + added_work(b) =~= added_work(a));
    } else {
        law_added_work(a, b.drop_last(), e);
        assert((a + b).drop_last() =~= a + b.drop_last());
        assert((a + b).last() == b.last());
        assert(added_work(a + b) =~= added_work(a) + added_work(b));
    }
}

/// The directories that are descended into: each one that is no symlink, in the
/// order of the entries, and nothing else.
pub proof fn law_added_dirs(a: Seq<FsEntry>, b: Seq<FsEntry>, e: FsEntry)
    ensures
        added_dirs(a + b) == added_dirs(a) + added_dirs(b),
        e.is_dir && !e.is_symlink ==> added_dirs(seq![e]) == seq![e.path@],
        !e.is_dir || e.is_symlink ==> added_dirs(seq![e]).len() == 0,
    decreases b.len(),
{
    let none = Seq::<FsEntry>::empty();
    assert(seq![e].drop_last() =~= none);
    assert(added_dirs(none) =~= Seq::<Seq<char>>::empty());
    assert(e.is_dir && !e.is_symlink ==> added_dirs(seq![e]) =~= seq![e.path@]);
    if b.len() == 0 {
        assert(a + b =~= a);
        assert(added_dirs(a) + added_dirs(b) =~= added_dirs(a));
    } else {
        law_added_dirs(a, b.drop_last(), e);
        assert((a + b).drop_last() =~= a + b.drop_last());
        assert((a + b).last() == b.last());
        assert(added_dirs(a + b) =~= added_dirs(a) + added_dirs(b));
    }
}

/// An attribute change starts with every selected entry that is no symlink. It
/// goes on below the selected directories when that was asked for, so that
/// everything below them is reached, and stops at the selection when it was
/// not. Nothing is touched when nothing was to be changed.
pub proof fn law_attrs_begun(
    roots: Seq<FsEntry>,
    changes: AttrChanges,
    recursive: bool,
    ls: spec_fn(Seq<char>) -> Seq<FsEntry>,
)
    ensures
        ({
            let (work, dirs) = attrs_begun(roots, changes, recursive);
            let none = changes.mode is None && changes.uid is None && changes.gid is None;
            &&& none ==> work.len() == 0 && dirs.len() == 0
            &&& !none ==> children_listed(work, roots) && work == added_work(roots)
            &&& !none && recursive ==> covers(work, dirs, ls)
            &&& !recursive ==> dirs.len() == 0
        }),
{
    lemma_added(roots);
    law_attrs_start(roots, ls);
}

/// The children of a directory that was listed join the work list behind what
/// is on it. Everything below the directories on the list still is on it or to
/// come, and the directory is not listed again.
pub proof fn law_attrs_listed(
    work: Seq<(Seq<char>, bool)>,
    dirs: Seq<Seq<char>>,
    ls: spec_fn(Seq<char>) -> Seq<FsEntry>,
)
    requires
        covers(work, dirs, ls),
        dirs.len() > 0,
    ensures
        attrs_next(dirs) is Some,
        ({
            let dir = attrs_next(dirs)->0;
            let (work2, dirs2) = attrs_listed(work, dirs, ls(dir));
            &&& covers(work2, dirs2, ls)
            &&& work2.len() >= work.len() && work2.take(work.len() as int) == work
            &&& children_listed(work2, ls(dir))
            &&& dirs2.len() == dirs.len() - 1 + added_dirs(ls(dir)).len()
            &&& dirs2.take(dirs.len() - 1) == dirs.drop_last()
        }),
{
    let children = ls(dirs.last());
    let (work2, dirs2) = attrs_listed(work, dirs, children);
    law_attrs_step(work, dirs, ls);
    lemma_added(children);
    assert(work2.take(work.len() as int) =~= work);
    assert(dirs2.take(dirs.len() - 1) =~= dirs.drop_last());
    assert forall|c: int| 0 <= c < children.len() && !(
    #[trigger] children[c]).is_symlink implies work2.contains(
        (children[c].path@, children[c].is_dir),
    ) by {
        let item = (children[c].path@, children[c].is_dir);
        assert(added_work(children).contains(item));
        let k = added_work(children).index_of(item);
        assert(work2[work.len() + k] == item);
    }
}

/// What counts as what: a directory that is no symlink as one directory, and
/// everything else as one file, with its size. Entries that come in two parts
/// count as both together.
pub proof fn law_usage_counts(a: Seq<FsEntry>, b: Seq<FsEntry>, e: FsEntry)
    ensures
        own_totals(a + b) == summed(own_totals(a), own_totals(b)),
        e.is_dir && !e.is_symlink ==> own_totals(seq![e]) == (Totals { files: 0, dirs: 1, bytes: 0 }),
        !e.is_dir || e.is_symlink ==> own_totals(seq![e]) == (Totals {
            files: 1,
            dirs: 0,
            bytes: e.size as nat,
        }),
{
    law_added_dirs(a, b, e);
    lemma_counts(a, a.len() as int);
    lemma_counts(b, b.len() as int);
    lemma_file_bytes_split(a, b);
    let none = Seq::<FsEntry>::empty();
    assert(seq![e].drop_last() =~= none);
    assert(file_bytes(none) == 0);
}

proof fn lemma_file_bytes_split(a: Seq<FsEntry>, b: Seq<FsEntry>)
    ensures
        file_bytes(a + b) == file_bytes(a) + file_bytes(b),
    decreases b.len(),
{
    if b.len() == 0 {
        assert(a + b =~= a);
    } else {
        lemma_file_bytes_split(a, b.drop_last());
        assert((a + b).drop_last() =~= a + b.drop_last());
        assert((a + b).last() == b.last());
    }
}

/// Counting adds what the entries count as to what was counted, as long as it
/// fits, and it fits exactly when no total gets too large.
pub proof fn law_usage_adds(usage: DiskUsage, entries: Seq<FsEntry>)
    ensures
        usage_fits(usage, entries) ==> counted_so_far(usage_with(usage, entries)) == summed(
            counted_so_far(usage),
            own_totals(entries),
        ),
        usage_fits(usage, entries) <==> {
            let t = summed(counted_so_far(usage), own_totals(entries));
            t.files <= u64::MAX && t.dirs <= u64::MAX && t.bytes <= u64::MAX
        },
{
}

/// The children of a directory are parted into directories and the rest: each
/// is in one of the two under its own name, in order, and none in both. None of
/// the directories counts as emptied yet.
pub proof fn law_children_parted(
    dir: Seq<char>,
    a: Seq<ChildEntry>,
    b: Seq<ChildEntry>,
    child: ChildEntry,
)
    ensures
        child_dirs(dir, a + b) == child_dirs(dir, a) + child_dirs(dir, b),
        child_files(dir, a + b) == child_files(dir, a) + child_files(dir, b),
        child.is_dir ==> child_dirs(dir, seq![child]) == seq![(joined(dir, child.name@), false)]
            && child_files(dir, seq![child]).len() == 0,
        !child.is_dir ==> child_files(dir, seq![child]) == seq![joined(dir, child.name@)]
            && child_dirs(dir, seq![child]).len() == 0,
    decreases b.len(),
{
    let none = Seq::<ChildEntry>::empty();
    assert(seq![child].drop_last() =~= none);
    assert(child_dirs(dir, none) =~= Seq::<(Seq<char>, bool)>::empty());
    assert(child_files(dir, none) =~= Seq::<Seq<char>>::empty());
    assert(child.is_dir ==> child_dirs(dir, seq![child]) =~= seq![
        (joined(dir, child.name@), false),
    ]);
    assert(!child.is_dir ==> child_files(dir, seq![child]) =~= seq![joined(dir, child.name@)]);
    if b.len() == 0 {
        assert(a + b =~= a);
        assert(child_dirs(dir, a) + child_dirs(dir, b) =~= child_dirs(dir, a));
        assert(child_files(dir, a) + child_files(dir, b) =~= child_files(dir, a));
    } else {
        law_children_parted(dir, a, b.drop_last(), child);
        assert((a + b).drop_last() =~= a + b.drop_last());
        assert((a + b).last() == b.last());
        assert(child_dirs(dir, a + b) =~= child_dirs(dir, a) + child_dirs(dir, b));
        assert(child_files(dir, a + b) =~= child_files(dir, a) + child_files(dir, b));
    }
}

/// A delete that starts has its whole tree to deal with, and nothing else.
pub proof fn law_delete_begun(
    path: Seq<char>,
    is_dir: bool,
    ls: spec_fn(Seq<char>) -> Seq<ChildEntry>,
)
    ensures
        ({
            let (stack, files) = delete_begun(path, is_dir);
            &&& delete_inv(stack, files, Set::empty(), (path, is_dir), ls)
            &&& delete_once(stack, files, Set::empty(), (path, is_dir), ls)
            &&& is_dir ==> stack.len() == 1 && !stack[0].1 && files.len() == 0
            &&& !is_dir ==> stack.len() == 0 && files == seq![path]
        }),
{
    law_delete_start((path, is_dir), ls);
    law_delete_once_start((path, is_dir), ls);
}

/// What a delete does next: it removes the files at hand, one by one, then goes
/// on with the innermost directory: lists it where it was not yet, and removes
/// it once it was and all below it is dealt with. It ends when nothing is left,
/// and not before. What is removed is what was next, and nothing else goes.
pub proof fn law_delete_next(
    r: Option<DeleteStep>,
    stack: Seq<(Seq<char>, bool)>,
    files: Seq<Seq<char>>,
    stack2: Seq<(Seq<char>, bool)>,
    files2: Seq<Seq<char>>,
)
    requires
        is_next_step(r, stack, files, stack2, files2),
    ensures
        files.len() > 0 ==> (r matches Some(DeleteStep::RemoveFile(p)) && p@ == files[0]) && files2
            == files.skip(1) && stack2 == stack,
        files.len() == 0 && stack.len() > 0 && stack.last().1 ==> (r
            matches Some(DeleteStep::RemoveDir(d)) && d@ == stack.last().0) && stack2
            == stack.drop_last() && files2 == files,
        files.len() == 0 && stack.len() > 0 && !stack.last().1 ==> (r
            matches Some(DeleteStep::ListDir(d)) && d@ == stack.last().0) && stack2 == stack && files2
            == files,
        r is None <==> files.len() == 0 && stack.len() == 0,
{
}

/// Taking up the children of a directory leaves all of them to deal with
/// before it: the invariants of the delete go on holding, and so does the rule
/// that nothing is dealt with twice.
pub proof fn law_delete_listed(
    stack: Seq<(Seq<char>, bool)>,
    gone: Set<(Seq<char>, bool)>,
    root: (Seq<char>, bool),
    ls: spec_fn(Seq<char>) -> Seq<ChildEntry>,
)
    requires
        delete_inv(stack, seq![], gone, root, ls),
        stack.len() > 0,
        !stack.last().1,
    ensures
        ({
            let (stack2, files2) = delete_listed(stack, seq![], ls(stack.last().0));
            &&& delete_inv(stack2, files2, gone, root, ls)
            &&& children_apart(root, ls) && delete_once(stack, seq![], gone, root, ls)
                ==> delete_once(stack2, files2, gone, root, ls)
        }),
{
    let dir = stack.last().0;
    law_delete_list(stack, gone, root, ls);
    let none = Seq::<Seq<char>>::empty();
    assert(none + child_files(dir, ls(dir)) =~= child_files(dir, ls(dir)));
    if children_apart(root, ls) && delete_once(stack, seq![], gone, root, ls) {
        law_delete_once_list(stack, gone, root, ls);
    }
}

/// The directory that is measured next is the one found last; it is taken off
/// those to come, and the others stay.
pub proof fn law_usage_next(stack: Seq<Seq<char>>)
    ensures
        usage_next(stack).0 is None <==> stack.len() == 0,
        stack.len() > 0 ==> usage_next(stack).0 == Some(stack.last()) && usage_next(stack).1.push(
            usage_next(stack).0->0,
        ) == stack,
        stack.len() == 0 ==> usage_next(stack).1 == stack,
{
    if stack.len() > 0 {
        assert(stack.drop_last().push(stack.last()) =~= stack);
    }
}

/// Measuring starts with the entries themselves, and each directory that is
/// listed adds what is in it: what was counted and what is below the directories
/// to come always make up the whole tree.
pub proof fn law_usage_walk(
    usage: DiskUsage,
    stack: Seq<Seq<char>>,
    roots: Seq<FsEntry>,
    ls: spec_fn(Seq<char>) -> Seq<FsEntry>,
    depth: nat,
)
    ensures
        ({
            let none = DiskUsage { files: 0, dirs: 0, bytes: 0 };
            let (first, dirs) = usage_listed(none, seq![], roots);
            usage_fits(none, roots) && dirs_no_deeper(added_dirs(roots), ls, depth) ==> usage_inv(
                first,
                dirs,
                roots,
                ls,
                depth,
            )
        }),
        usage_inv(usage, stack, roots, ls, depth) && stack.len() > 0 && usage_fits(
            usage,
            ls(stack.last()),
        ) ==> {
            let (dir, rest) = usage_next(stack);
            let (more, dirs) = usage_listed(usage, rest, ls(dir->0));
            dir is Some && usage_inv(more, dirs, roots, ls, depth)
        },
{
    let none = DiskUsage { files: 0, dirs: 0, bytes: 0 };
    assert(Seq::<Seq<char>>::empty() + added_dirs(roots) =~= added_dirs(roots));
    if usage_fits(none, roots) && dirs_no_deeper(added_dirs(roots), ls, depth) {
        law_usage_start(roots, ls, depth);
    }
    if usage_inv(usage, stack, roots, ls, depth) && stack.len() > 0 && usage_fits(
        usage,
        ls(stack.last()),
    ) {
        law_usage_step(usage, stack, roots, ls, depth);
    }
}

} // verus!
