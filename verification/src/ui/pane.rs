//! One file-browser pane: what it shows of a directory, and how it moves
//! between directories.

use crate::fsops::parent;
use crate::paths::{is_component, joined, law_join_parent, law_root_parent, parent_path};
use crate::sizes::{format_size, size_text};
use crate::ssh::config::{
    is_before, law_texts_compare, lemma_before_asym, lemma_before_trans, text_before,
};
use crate::text::{decimal, has_prefix, has_suffix, lowercase, same, to_decimal, to_lower};
use crate::types::{opt_text, Backend, FsEntry, SessionId};
use vstd::prelude::*;
use vstd::string::*;

verus! {

pub struct PaneState {
    pub backend: Backend,
    pub dir: String,
    pub show_hidden: bool,
    /// Guards against stale listings landing after a newer navigation.
    pub generation: u64,
}

/// The session of a pane, if it is remote.
pub open spec fn session_of(backend: Backend) -> Option<SessionId> {
    match backend {
        Backend::Remote(id) => Some(id),
        Backend::Local => None,
    }
}

/// Whether a listing is of another directory than the one shown.
pub open spec fn is_elsewhere(shown: Seq<char>, dir: Seq<char>) -> bool {
    shown != dir
}

/// Whether the directory shown is this one.
pub open spec fn is_shown(
    backend: Backend,
    shown: Seq<char>,
    other: Backend,
    dir: Seq<char>,
) -> bool {
    backend == other && shown == dir
}

/// A pane that shows a directory is caught up when that directory changes, and
/// not when one of the same name does in another place. A listing of it again
/// is no change of place.
pub proof fn law_shown(backend: Backend, other: Backend, shown: Seq<char>, dir: Seq<char>)
    ensures
        is_shown(backend, shown, backend, shown),
        backend != other ==> !is_shown(backend, shown, other, dir),
        shown != dir ==> !is_shown(backend, shown, other, dir),
        is_elsewhere(shown, dir) <==> !is_shown(backend, shown, backend, dir),
{
}

/// A remote pane is about its session, and a local one about none.
pub proof fn law_session_of(id: SessionId)
    ensures
        session_of(Backend::Remote(id)) == Some(id),
        session_of(Backend::Local) is None,
{
}

impl PaneState {
    /// A local pane that shows nothing yet.
    pub fn new() -> (r: Self)
        ensures
            r.backend == Backend::Local,
            r.dir@ == "/"@,
            !r.show_hidden,
            r.generation == 0,
    {
        PaneState {
            backend: Backend::Local,
            dir: "/".to_owned(),
            show_hidden: false,
            generation: 0,
        }
    }

    /// A navigation starts: its number tells whether it is still wanted when
    /// the listing lands.
    pub fn navigate(&mut self) -> (r: u64)
        ensures
            r == crate::sessions::id_after(old(self).generation),
            final(self).generation == r,
            final(self).backend == old(self).backend,
            final(self).dir == old(self).dir,
            final(self).show_hidden == old(self).show_hidden,
    {
        self.generation = self.generation.wrapping_add(1);
        self.generation
    }

    /// Whether the listing of a navigation is still wanted.
    pub fn is_current(&self, generation: u64) -> (r: bool)
        ensures
            r == wanted(self.generation, generation),
    {
        self.generation == generation
    }

    /// A listing landed. Returns whether the view jumps to the top: it does
    /// when the directory changed; refreshes keep their scroll.
    pub fn opened(&mut self, dir: String) -> (r: bool)
        ensures
            r == is_elsewhere(old(self).dir@, dir@),
            final(self).dir == dir,
            final(self).backend == old(self).backend,
            final(self).show_hidden == old(self).show_hidden,
            final(self).generation == old(self).generation,
    {
        let changed = !same(self.dir.as_str(), dir.as_str());
        self.dir = dir;
        changed
    }

    /// Session id if this pane is remote.
    pub fn session_id(&self) -> (r: Option<SessionId>)
        ensures
            r == session_of(self.backend),
    {
        match self.backend {
            Backend::Remote(id) => Some(id),
            Backend::Local => None,
        }
    }

    /// Whether the pane shows this directory.
    pub fn shows(&self, backend: Backend, dir: &str) -> (r: bool)
        ensures
            r == is_shown(self.backend, self.dir@, backend, dir@),
    {
        self.backend == backend && same(self.dir.as_str(), dir)
    }
}

/// Whether the listing of the navigation `generation` is still wanted when
/// `now` is the latest one.
pub open spec fn wanted(now: u64, generation: u64) -> bool {
    now == generation
}

/// A listing that a newer navigation has overtaken is not wanted, and the one
/// of the latest navigation is. No listing but that one is.
pub proof fn law_overtaken(generation: u64, other: u64)
    ensures
        crate::sessions::id_after(generation) != generation,
        !wanted(crate::sessions::id_after(generation), generation),
        wanted(
            crate::sessions::id_after(generation),
            crate::sessions::id_after(generation),
        ),
        wanted(generation, other) && wanted(generation, generation) ==> other == generation,
{
}

/// Whether an entry of this name is shown.
pub open spec fn visible(name: Seq<char>, show_hidden: bool) -> bool {
    show_hidden || !(name.len() > 0 && name[0] == '.')
}

/// Every entry is shown when hidden ones are. When they are not, exactly the
/// names that a dot begins are left out, and so the ones shown are among
/// those shown before.
pub proof fn law_visible(name: Seq<char>)
    ensures
        visible(name, true),
        visible(seq!['.'] + name, false) == false,
        name.len() > 0 && name[0] != '.' ==> visible(name, false),
        visible(name, false) && name.len() > 0 ==> name[0] != '.',
{
}

/// Whether an entry is shown: hidden ones only when that was asked for.
pub fn is_visible(name: &str, show_hidden: bool) -> (r: bool)
    ensures
        r == visible(name@, show_hidden),
{
    show_hidden || !(name.unicode_len() > 0 && name.get_char(0) == '.')
}

/// Where going up leads, if there is anywhere to go.
pub open spec fn above(dir: Seq<char>) -> Option<Seq<char>> {
    if parent_path(dir) == dir {
        None
    } else {
        Some(parent_path(dir))
    }
}

/// Going up undoes going down: from the directory of an entry it leads back to
/// the directory that lists the entry. From the root it leads nowhere.
pub proof fn law_up_undoes_down(dir: Seq<char>, name: Seq<char>)
    requires
        is_component(name),
        dir.len() > 0,
        dir.last() != '/' || dir == seq!['/'],
    ensures
        above(joined(dir, name)) == Some(dir),
        above(seq!['/']) is None,
{
    law_join_parent(dir, name);
    law_root_parent();
    assert(joined(dir, name).len() > dir.len());
}

/// Where going up leads, if there is anywhere to go.
pub fn up_target(dir: &str) -> (r: Option<String>)
    ensures
        opt_text(r) == above(dir@),
{
    let p = parent(dir);
    if same(p.as_str(), dir) {
        None
    } else {
        Some(p)
    }
}

/// Whether `r` is the ".." row of a directory, if it has one.
pub open spec fn is_up_row(r: Option<FsEntry>, dir: Seq<char>) -> bool {
    &&& (r is Some) == (above(dir) is Some)
    &&& r matches Some(e) ==> {
        &&& e.name@ == ".."@
        &&& e.path@ == above(dir)->0
        &&& e.is_dir
        &&& !e.is_symlink
        &&& e.size == 0
        &&& e.mtime is None
        &&& e.mode is None
        &&& e.owner is None
        &&& e.group is None
        &&& e.link_target is None
    }
}

/// Activating the ".." row goes up, and there is one wherever going up leads
/// anywhere. It shows neither size nor permissions nor owner.
pub proof fn law_up_row(r: Option<FsEntry>, dir: Seq<char>)
    requires
        is_up_row(r, dir),
    ensures
        r is Some <==> above(dir) is Some,
        r matches Some(e) ==> {
            &&& activation(e) matches Activation::Navigate(path) && Some(path@) == above(dir)
            &&& size_cell(e).len() == 0 && permissions_cell(e).len() == 0
            &&& owner_line(opt_text(e.owner), opt_text(e.group)).len() == 0
        },
{
}

/// The ".." row, pointing at the parent of the directory; none at a
/// filesystem root.
pub fn parent_row(dir: &str) -> (r: Option<FsEntry>)
    ensures
        is_up_row(r, dir@),
{
    match up_target(dir) {
        Some(path) => Some(
            FsEntry {
                name: "..".to_owned(),
                path,
                is_dir: true,
                is_symlink: false,
                size: 0,
                mtime: None,
                mode: None,
                owner: None,
                group: None,
                link_target: None,
            },
        ),
        None => None,
    }
}

/// True for the synthetic ".." row (no real file can carry that name).
pub fn is_parent_row(entry: &FsEntry) -> (r: bool)
    ensures
        r == (entry.name@ == ".."@),
{
    same(entry.name.as_str(), "..")
}

/// Where going up from a directory below the root always leads to a shorter
/// path, so that it ends.
pub proof fn law_up_is_shorter(dir: Seq<char>)
    ensures
        parent_path(dir) != dir && dir.len() > 1 ==> parent_path(dir).len() < dir.len(),
{
    let t = crate::paths::without_slashes(dir);
    crate::paths::lemma_slash_end(dir, dir.len() as int);
    crate::paths::lemma_rfind(t, '/', t.len() as int);
}

/// The sizes of the entries that are no directories, added up.
pub open spec fn file_sizes(entries: Seq<FsEntry>) -> nat
    decreases entries.len(),
{
    if entries.len() == 0 {
        0
    } else if entries.last().is_dir {
        file_sizes(entries.drop_last())
    } else {
        file_sizes(entries.drop_last()) + entries.last().size as nat
    }
}

proof fn lemma_file_sizes(entries: Seq<FsEntry>, i: int)
    requires
        0 <= i <= entries.len(),
    ensures
        file_sizes(entries.take(i)) <= file_sizes(entries),
    decreases entries.len(),
{
    if i < entries.len() {
        lemma_file_sizes(entries.drop_last(), i);
        assert(entries.drop_last().take(i) =~= entries.take(i));
    } else {
        assert(entries.take(i) =~= entries);
    }
}

/// Sizes of two selections add up, a directory adds nothing, and a file adds
/// its size.
pub proof fn law_file_sizes(a: Seq<FsEntry>, b: Seq<FsEntry>, e: FsEntry)
    ensures
        file_sizes(a + b) == file_sizes(a) + file_sizes(b),
        e.is_dir ==> file_sizes(a.push(e)) == file_sizes(a),
        !e.is_dir ==> file_sizes(a.push(e)) == file_sizes(a) + e.size,
    decreases b.len(),
{
    assert(a.push(e).drop_last() =~= a);
    if b.len() == 0 {
        assert(a + b =~= a);
    } else {
        law_file_sizes(a, b.drop_last(), e);
        assert((a + b).drop_last() =~= a + b.drop_last());
        assert((a + b).last() == b.last());
    }
}

/// The items among the rows of a view: the ".." rows are none.
pub open spec fn item_count(rows: nat, parent_rows: nat) -> nat {
    if rows < parent_rows {
        0
    } else {
        (rows - parent_rows) as nat
    }
}

/// A view with its ".." rows counts the other rows, however many those are.
pub proof fn law_item_count(items: nat, parent_rows: nat)
    ensures
        item_count(items + parent_rows, parent_rows) == items,
{
}

/// The status line tells the number of items. With a selection it begins with
/// the number selected, and ends with the size of its files together.
pub proof fn law_status_line(total: nat, selected: Seq<FsEntry>)
    ensures
        selected.len() == 0 ==> has_prefix(status_line(total, selected), decimal(total)),
        selected.len() > 0 ==> {
            &&& has_prefix(
                status_line(total, selected),
                decimal(selected.len()) + " of "@ + decimal(total),
            )
            &&& has_suffix(status_line(total, selected), size_text(file_sizes(selected)))
        },
{
    let line = status_line(total, selected);
    if selected.len() == 0 {
        assert(line.subrange(0, decimal(total).len() as int) =~= decimal(total));
    } else {
        let head = decimal(selected.len()) + " of "@ + decimal(total);
        let tail = size_text(file_sizes(selected));
        assert(line.subrange(0, head.len() as int) =~= head);
        assert(line.subrange(line.len() - tail.len(), line.len() as int) =~= tail);
    }
}

/// The status line: how many items there are, and what is selected.
pub open spec fn status_line(total: nat, selected: Seq<FsEntry>) -> Seq<char> {
    if selected.len() == 0 {
        decimal(total) + " items"@
    } else {
        decimal(selected.len()) + " of "@ + decimal(total) + " selected, "@ + size_text(
            file_sizes(selected),
        )
    }
}

/// The status line. `rows` counts the ".." row, of which there are
/// `parent_rows`; it is no item.
pub fn status_text(rows: u32, parent_rows: u32, selected: &Vec<FsEntry>) -> (r: String)
    requires
        file_sizes(selected@) <= u64::MAX,
    ensures
        r@ == status_line(item_count(rows as nat, parent_rows as nat), selected@),
{
    let total: u32 = if rows < parent_rows {
        0
    } else {
        rows - parent_rows
    };
    if selected.len() == 0 {
        let mut s = to_decimal(total as u64);
        s.append(" items");
        return s;
    }
    let mut bytes: u64 = 0;
    let mut i: usize = 0;
    while i < selected.len()
        invariant
            i <= selected@.len(),
            bytes == file_sizes(selected@.take(i as int)),
            file_sizes(selected@) <= u64::MAX,
        decreases selected@.len() - i,
    {
        assert(selected@.take(i + 1).drop_last() =~= selected@.take(i as int));
        proof {
            lemma_file_sizes(selected@, i + 1);
        }
        if !selected[i].is_dir {
            bytes += selected[i].size;
        }
        i += 1;
    }
    assert(selected@.take(i as int) =~= selected@);
    let mut s = to_decimal(selected.len() as u64);
    s.append(" of ");
    s.append(to_decimal(total as u64).as_str());
    s.append(" selected, ");
    s.append(format_size(bytes).as_str());
    s
}

/// The text of the owner column.
pub open spec fn owner_line(owner: Option<Seq<char>>, group: Option<Seq<char>>) -> Seq<char> {
    match (owner, group) {
        (Some(o), Some(g)) => o + ":"@ + g,
        (Some(o), None) => o,
        _ => seq![],
    }
}

/// The owner column shows the owner and the group with a colon between, the
/// owner alone where the group is unknown, and nothing without an owner.
pub proof fn law_owner_line(owner: Seq<char>, group: Seq<char>)
    ensures
        owner_line(Some(owner), None) == owner,
        owner_line(Some(owner), Some(group)) == owner_line(Some(owner), None) + ":"@ + group,
        owner_line(None, Some(group)).len() == 0,
        owner_line(None, None).len() == 0,
{
}

/// The text of the size column.
pub open spec fn size_cell(entry: FsEntry) -> Seq<char> {
    if entry.is_dir {
        seq![]
    } else {
        size_text(entry.size as nat)
    }
}

/// The text of the permissions column.
pub open spec fn permissions_cell(entry: FsEntry) -> Seq<char> {
    if entry.name@ == ".."@ {
        seq![]
    } else {
        entry.permissions_text()
    }
}

/// A file shows its size and a directory none; every row but ".." shows its
/// permissions, a directory's too.
pub proof fn law_cells(entry: FsEntry)
    ensures
        entry.is_dir ==> size_cell(entry).len() == 0,
        !entry.is_dir ==> size_cell(entry) == size_text(entry.size as nat),
        entry.name@ != ".."@ ==> permissions_cell(entry) == entry.permissions_text(),
        entry.name@ == ".."@ ==> permissions_cell(entry).len() == 0,
{
}

/// The owner column.
pub fn owner_text(entry: &FsEntry) -> (r: String)
    ensures
        r@ == owner_line(opt_text(entry.owner), opt_text(entry.group)),
{
    match (&entry.owner, &entry.group) {
        (Some(o), Some(g)) => {
            let mut s = o.clone();
            s.append(":");
            s.append(g.as_str());
            s
        },
        (Some(o), None) => o.clone(),
        _ => String::new(),
    }
}

/// The text of the size column; directories show none.
pub fn size_column(entry: &FsEntry) -> (r: String)
    ensures
        r@ == size_cell(*entry),
{
    if entry.is_dir {
        String::new()
    } else {
        format_size(entry.size)
    }
}

/// The text of the permissions column; the ".." row shows none.
pub fn permissions_column(entry: &FsEntry) -> (r: String)
    ensures
        r@ == permissions_cell(*entry),
{
    if is_parent_row(entry) {
        String::new()
    } else {
        entry.permissions_string()
    }
}

/// What activating a row does.
#[derive(Debug)]
pub enum Activation {
    Navigate(String),
    OpenFile(FsEntry),
}

/// What activating a row does.
pub open spec fn activation(entry: FsEntry) -> Activation {
    if entry.is_dir {
        Activation::Navigate(entry.path)
    } else {
        Activation::OpenFile(entry)
    }
}

/// Activating a directory, also one behind a symlink, opens that directory;
/// activating anything else opens that very file.
pub proof fn law_activation(entry: FsEntry)
    ensures
        entry.is_dir ==> (activation(entry) matches Activation::Navigate(path) && path@
            == entry.path@),
        !entry.is_dir ==> (activation(entry) matches Activation::OpenFile(e) && e == entry),
{
}

/// What activating a row does.
pub fn activate(entry: FsEntry) -> (r: Activation)
    ensures
        r == activation(entry),
{
    if entry.is_dir {
        Activation::Navigate(entry.path)
    } else {
        Activation::OpenFile(entry)
    }
}

/// How two entries stand to each other in a sorted listing.
#[derive(Debug, Clone, Copy, PartialEq, Eq, Structural)]
pub enum Rank {
    Before,
    Level,
    After,
}

/// The columns that a listing can be sorted by.
#[derive(Debug, Clone, Copy, PartialEq, Eq, Structural)]
pub enum Column {
    Name,
    Size,
    Modified,
    Permissions,
    Owner,
}

/// The order of whole numbers.
pub open spec fn rank_of(a: int, b: int) -> Rank {
    if a < b {
        Rank::Before
    } else if a == b {
        Rank::Level
    } else {
        Rank::After
    }
}

/// The order of optional numbers, an unknown one first.
pub open spec fn rank_of_known(a: Option<int>, b: Option<int>) -> Rank {
    match (a, b) {
        (None, None) => Rank::Level,
        (None, Some(_)) => Rank::Before,
        (Some(_), None) => Rank::After,
        (Some(x), Some(y)) => rank_of(x, y),
    }
}

/// The order of texts by their characters.
pub open spec fn rank_of_texts(a: Seq<char>, b: Seq<char>) -> Rank {
    if text_before(a, b) {
        Rank::Before
    } else if text_before(b, a) {
        Rank::After
    } else {
        Rank::Level
    }
}

/// Directories before files, then by `rest`.
pub open spec fn dirs_first(a_dir: bool, b_dir: bool, rest: Rank) -> Rank {
    if a_dir && !b_dir {
        Rank::Before
    } else if !a_dir && b_dir {
        Rank::After
    } else {
        rest
    }
}

/// An optional time as a whole number.
pub open spec fn opt_int(o: Option<i64>) -> Option<int> {
    match o {
        Some(n) => Some(n as int),
        None => None,
    }
}

/// An optional mode as a whole number.
pub open spec fn opt_mode(o: Option<u32>) -> Option<int> {
    match o {
        Some(n) => Some(n as int),
        None => None,
    }
}

/// The order of entries by a column; names go by their lower-case forms.
pub open spec fn column_rank(
    a: FsEntry,
    b: FsEntry,
    column: Column,
    a_lower: Seq<char>,
    b_lower: Seq<char>,
) -> Rank {
    match column {
        Column::Name => rank_of_texts(a_lower, b_lower),
        Column::Size => rank_of(a.size as int, b.size as int),
        Column::Modified => rank_of_known(opt_int(a.mtime), opt_int(b.mtime)),
        Column::Permissions => rank_of_known(opt_mode(a.mode), opt_mode(b.mode)),
        Column::Owner => match (opt_text(a.owner), opt_text(b.owner)) {
            (None, None) => Rank::Level,
            (None, Some(_)) => Rank::Before,
            (Some(_), None) => Rank::After,
            (Some(x), Some(y)) => rank_of_texts(x, y),
        },
    }
}

fn rank_numbers(a: i128, b: i128) -> (r: Rank)
    ensures
        r == rank_of(a as int, b as int),
{
    if a < b {
        Rank::Before
    } else if a == b {
        Rank::Level
    } else {
        Rank::After
    }
}

fn rank_known(a: Option<i128>, b: Option<i128>) -> (r: Rank)
    ensures
        r == rank_of_known(
            match a {
                Some(x) => Some(x as int),
                None => None,
            },
            match b {
                Some(x) => Some(x as int),
                None => None,
            },
        ),
{
    match (a, b) {
        (None, None) => Rank::Level,
        (None, Some(_)) => Rank::Before,
        (Some(_), None) => Rank::After,
        (Some(x), Some(y)) => rank_numbers(x, y),
    }
}

fn rank_texts(a: &str, b: &str) -> (r: Rank)
    ensures
        r == rank_of_texts(a@, b@),
{
    if is_before(a, b) {
        Rank::Before
    } else if is_before(b, a) {
        Rank::After
    } else {
        Rank::Level
    }
}

/// How two entries stand by a column, given their names in lower case:
/// directories before files, then by the column.
pub fn rank_lowered(
    a: &FsEntry,
    b: &FsEntry,
    column: Column,
    a_lower: &str,
    b_lower: &str,
) -> (r: Rank)
    ensures
        r == dirs_first(a.is_dir, b.is_dir, column_rank(*a, *b, column, a_lower@, b_lower@)),
{
    if a.is_dir && !b.is_dir {
        return Rank::Before;
    }
    if !a.is_dir && b.is_dir {
        return Rank::After;
    }
    match column {
        Column::Name => rank_texts(a_lower, b_lower),
        Column::Size => rank_numbers(a.size as i128, b.size as i128),
        Column::Modified => rank_known(
            match a.mtime {
                Some(t) => Some(t as i128),
                None => None,
            },
            match b.mtime {
                Some(t) => Some(t as i128),
                None => None,
            },
        ),
        Column::Permissions => rank_known(
            match a.mode {
                Some(m) => Some(m as i128),
                None => None,
            },
            match b.mode {
                Some(m) => Some(m as i128),
                None => None,
            },
        ),
        Column::Owner => match (&a.owner, &b.owner) {
            (None, None) => Rank::Level,
            (None, Some(_)) => Rank::Before,
            (Some(_), None) => Rank::After,
            (Some(x), Some(y)) => rank_texts(x.as_str(), y.as_str()),
        },
    }
}

/// How two entries stand by a column: directories before files, then by the
/// column, names regardless of case.
pub fn rank_entries(a: &FsEntry, b: &FsEntry, column: Column) -> (r: Rank)
    ensures
        r == dirs_first(
            a.is_dir,
            b.is_dir,
            column_rank(*a, *b, column, lowercase(a.name@), lowercase(b.name@)),
        ),
{
    let x = to_lower(a.name.as_str());
    let y = to_lower(b.name.as_str());
    rank_lowered(a, b, column, x.as_str(), y.as_str())
}

/// The other way round, two entries stand the other way round.
pub proof fn law_rank_reverses(
    a: FsEntry,
    b: FsEntry,
    column: Column,
    a_lower: Seq<char>,
    b_lower: Seq<char>,
)
    ensures
        ({
            let there = dirs_first(
                a.is_dir,
                b.is_dir,
                column_rank(a, b, column, a_lower, b_lower),
            );
            let back = dirs_first(b.is_dir, a.is_dir, column_rank(b, a, column, b_lower, a_lower));
            back == (match there {
                Rank::Before => Rank::After,
                Rank::Level => Rank::Level,
                Rank::After => Rank::Before,
            })
        }),
{
    if text_before(a_lower, b_lower) {
        lemma_before_asym(a_lower, b_lower);
    }
    if let (Some(x), Some(y)) = (opt_text(a.owner), opt_text(b.owner)) {
        if text_before(x, y) {
            lemma_before_asym(x, y);
        }
    }
}

/// Directories come before files, whatever the listing is sorted by.
pub proof fn law_dirs_come_first(
    a: FsEntry,
    b: FsEntry,
    column: Column,
    a_lower: Seq<char>,
    b_lower: Seq<char>,
)
    requires
        a.is_dir,
        !b.is_dir,
    ensures
        dirs_first(a.is_dir, b.is_dir, column_rank(a, b, column, a_lower, b_lower)) is Before,
{
}

/// Sorted by name, two directories or two files stand in the order of their
/// names in small letters, and level only where those are the same.
pub proof fn law_sorted_by_name(a: FsEntry, b: FsEntry, a_lower: Seq<char>, b_lower: Seq<char>)
    requires
        a.is_dir == b.is_dir,
    ensures
        ({
            let rank = dirs_first(
                a.is_dir,
                b.is_dir,
                column_rank(a, b, Column::Name, a_lower, b_lower),
            );
            &&& rank is Before <==> text_before(a_lower, b_lower)
            &&& rank is After <==> text_before(b_lower, a_lower)
            &&& rank is Level <==> a_lower == b_lower
        }),
{
    law_texts_compare(a_lower, b_lower);
}

/// Sorted by size, two directories or two files stand as their sizes do.
pub proof fn law_sorted_by_size(a: FsEntry, b: FsEntry, a_lower: Seq<char>, b_lower: Seq<char>)
    requires
        a.is_dir == b.is_dir,
    ensures
        ({
            let rank = dirs_first(
                a.is_dir,
                b.is_dir,
                column_rank(a, b, Column::Size, a_lower, b_lower),
            );
            &&& rank is Before <==> a.size < b.size
            &&& rank is After <==> a.size > b.size
            &&& rank is Level <==> a.size == b.size
        }),
{
}

/// Sorted by time, two directories or two files stand as their times do, the
/// older one first, and one whose time is unknown before any other. They stand
/// level only when the times are the same or both unknown.
pub proof fn law_sorted_by_time(a: FsEntry, b: FsEntry, a_lower: Seq<char>, b_lower: Seq<char>)
    requires
        a.is_dir == b.is_dir,
    ensures
        ({
            let rank = dirs_first(
                a.is_dir,
                b.is_dir,
                column_rank(a, b, Column::Modified, a_lower, b_lower),
            );
            &&& a.mtime is Some && b.mtime is Some ==> {
                &&& rank is Before <==> a.mtime->0 < b.mtime->0
                &&& rank is After <==> a.mtime->0 > b.mtime->0
            }
            &&& a.mtime is None && b.mtime is Some ==> rank is Before
            &&& a.mtime is Some && b.mtime is None ==> rank is After
            &&& rank is Level <==> a.mtime == b.mtime
        }),
{
}

/// Sorted by permissions, two directories or two files stand as their modes
/// do, and one whose mode is unknown before any other. They stand level only
/// when the modes are the same or both unknown.
pub proof fn law_sorted_by_permissions(
    a: FsEntry,
    b: FsEntry,
    a_lower: Seq<char>,
    b_lower: Seq<char>,
)
    requires
        a.is_dir == b.is_dir,
    ensures
        ({
            let rank = dirs_first(
                a.is_dir,
                b.is_dir,
                column_rank(a, b, Column::Permissions, a_lower, b_lower),
            );
            &&& a.mode is Some && b.mode is Some ==> {
                &&& rank is Before <==> a.mode->0 < b.mode->0
                &&& rank is After <==> a.mode->0 > b.mode->0
            }
            &&& a.mode is None && b.mode is Some ==> rank is Before
            &&& a.mode is Some && b.mode is None ==> rank is After
            &&& rank is Level <==> a.mode == b.mode
        }),
{
}

/// Sorted by owner, two directories or two files stand in the order of their
/// owners' names, and one without an owner before any other. They stand level
/// only when the owners are the same or both unknown.
pub proof fn law_sorted_by_owner(a: FsEntry, b: FsEntry, a_lower: Seq<char>, b_lower: Seq<char>)
    requires
        a.is_dir == b.is_dir,
    ensures
        ({
            let rank = dirs_first(
                a.is_dir,
                b.is_dir,
                column_rank(a, b, Column::Owner, a_lower, b_lower),
            );
            &&& a.owner is Some && b.owner is Some ==> {
                &&& rank is Before <==> text_before(a.owner->0@, b.owner->0@)
                &&& rank is After <==> text_before(b.owner->0@, a.owner->0@)
                &&& rank is Level <==> a.owner->0@ == b.owner->0@
            }
            &&& a.owner is None && b.owner is Some ==> rank is Before
            &&& a.owner is Some && b.owner is None ==> rank is After
            &&& a.owner is None && b.owner is None ==> rank is Level
        }),
{
    if a.owner is Some && b.owner is Some {
        law_texts_compare(a.owner->0@, b.owner->0@);
    }
}

proof fn lemma_texts_transitive(x: Seq<char>, y: Seq<char>, z: Seq<char>)
    requires
        !(rank_of_texts(x, y) is After),
        !(rank_of_texts(y, z) is After),
    ensures
        !(rank_of_texts(x, z) is After),
{
    if text_before(x, y) {
        lemma_before_asym(x, y);
    }
    if text_before(y, z) {
        lemma_before_asym(y, z);
    }
    lemma_before_trans(x, y, z);
}

/// The ranks agree with each other, so that a listing can be sorted by them:
/// what does not come after an entry, which does not come after a third, does
/// not come after the third either.
pub proof fn law_rank_transitive(
    a: FsEntry,
    b: FsEntry,
    c: FsEntry,
    column: Column,
    a_lower: Seq<char>,
    b_lower: Seq<char>,
    c_lower: Seq<char>,
)
    requires
        !(dirs_first(a.is_dir, b.is_dir, column_rank(a, b, column, a_lower, b_lower)) is After),
        !(dirs_first(b.is_dir, c.is_dir, column_rank(b, c, column, b_lower, c_lower)) is After),
    ensures
        !(dirs_first(a.is_dir, c.is_dir, column_rank(a, c, column, a_lower, c_lower)) is After),
{
    if a.is_dir == b.is_dir && b.is_dir == c.is_dir {
        match column {
            Column::Name => lemma_texts_transitive(a_lower, b_lower, c_lower),
            Column::Owner => {
                if let (Some(x), Some(y), Some(z)) = (
                    opt_text(a.owner),
                    opt_text(b.owner),
                    opt_text(c.owner),
                ) {
                    lemma_texts_transitive(x, y, z);
                }
            },
            _ => {},
        }
    }
}

} // verus!
