//! Filesystem operations: listing entries, attribute changes, and the walks
//! over directory trees that deleting, measuring and changing them take.

use crate::paths::{base_name, is_component, joined, law_join_file_name};
use crate::sessions::{id_found, names_of, IdNames};
use crate::text::{decimal, law_digits_read_back, number_in, parse_number, same, to_decimal};
use crate::types::{copy_opt, opt_text, FsEntry};
use std::collections::HashMap;
use vstd::prelude::*;
use vstd::string::*;

pub use crate::paths::{file_name, join, parent};

verus! {

/// Attribute changes applied by the Properties dialog.
#[derive(Debug, Clone, Copy)]
pub struct AttrChanges {
    /// Permission bits to set (12 bits: rwx ×3 + setuid/setgid/sticky).
    pub mode: Option<u32>,
    pub uid: Option<u32>,
    pub gid: Option<u32>,
    /// Give directories execute wherever they get read.
    pub add_x_dirs: bool,
}

impl Default for AttrChanges {
    fn default() -> (r: Self)
        ensures
            r.mode is None,
            r.uid is None,
            r.gid is None,
            !r.add_x_dirs,
    {
        AttrChanges { mode: None, uid: None, gid: None, add_x_dirs: false }
    }
}

impl AttrChanges {
    /// Whether nothing is to change.
    pub open spec fn empty(self) -> bool {
        self.mode is None && self.uid is None && self.gid is None
    }

    /// The mode that an item gets: a directory's with execute added wherever
    /// it has read, when that was asked for.
    pub open spec fn item_mode(self, is_dir: bool) -> Option<u32> {
        match self.mode {
            Some(mode) => Some(
                if is_dir && self.add_x_dirs {
                    mode | ((mode & 0o444) >> 2)
                } else {
                    mode
                },
            ),
            None => None,
        }
    }

    /// Whether nothing is to change.
    pub fn is_empty(&self) -> (r: bool)
        ensures
            r == self.empty(),
    {
        self.mode.is_none() && self.uid.is_none() && self.gid.is_none()
    }

    /// The mode that an item gets, if modes change.
    pub fn mode_for(&self, is_dir: bool) -> (r: Option<u32>)
        ensures
            r == self.item_mode(is_dir),
    {
        match self.mode {
            Some(mode) => if is_dir && self.add_x_dirs {
                Some(mode | ((mode & 0o444) >> 2))
            } else {
                Some(mode)
            },
            None => None,
        }
    }
}

/// An item gets the very mode asked for, bit for bit, unless it is a directory
/// and execute is to be added there. No mode is set where none was asked for,
/// and one is wherever one was.
pub proof fn law_item_mode(changes: AttrChanges, is_dir: bool)
    ensures
        changes.mode is Some && !(is_dir && changes.add_x_dirs) ==> changes.item_mode(is_dir)
            == changes.mode,
        (changes.item_mode(is_dir) is Some) == (changes.mode is Some),
        changes.item_mode(false) == changes.mode,
{
}

/// A set of changes is empty only when it asks for no mode, no user and no
/// group: whatever is asked for, alone or with the others, is a change.
pub proof fn law_empty_changes(changes: AttrChanges)
    ensures
        changes.mode is Some ==> !changes.empty(),
        changes.uid is Some ==> !changes.empty(),
        changes.gid is Some ==> !changes.empty(),
        !changes.empty() ==> changes.mode is Some || changes.uid is Some || changes.gid is Some,
{
}

/// A directory that gets execute added can be entered by whoever can read
/// it, and loses no bit of the mode asked for. Whoever neither reads it nor
/// was given execute gets none.
pub proof fn law_dir_mode(changes: AttrChanges)
    requires
        changes.mode is Some,
        changes.add_x_dirs,
    ensures
        ({
            let asked = changes.mode->0;
            let mode = changes.item_mode(true)->0;
            &&& asked & mode == asked
            &&& asked & 0o400 != 0 ==> mode & 0o100 != 0
            &&& asked & 0o40 != 0 ==> mode & 0o10 != 0
            &&& asked & 0o4 != 0 ==> mode & 0o1 != 0
            &&& mode & !0o111u32 == asked & !0o111u32
            &&& mode & 0o100 != 0 ==> asked & 0o500 != 0
            &&& mode & 0o10 != 0 ==> asked & 0o50 != 0
            &&& mode & 0o1 != 0 ==> asked & 0o5 != 0
        }),
{
    let m = changes.mode->0;
    assert((m | ((m & 0o444) >> 2)) & 0o100 != 0 ==> m & 0o500 != 0) by (bit_vector);
    assert((m | ((m & 0o444) >> 2)) & 0o10 != 0 ==> m & 0o50 != 0) by (bit_vector);
    assert((m | ((m & 0o444) >> 2)) & 0o1 != 0 ==> m & 0o5 != 0) by (bit_vector);
    assert(m & (m | ((m & 0o444) >> 2)) == m) by (bit_vector);
    assert(m & 0o400 != 0 ==> (m | ((m & 0o444) >> 2)) & 0o100 != 0) by (bit_vector);
    assert(m & 0o40 != 0 ==> (m | ((m & 0o444) >> 2)) & 0o10 != 0) by (bit_vector);
    assert(m & 0o4 != 0 ==> (m | ((m & 0o444) >> 2)) & 0o1 != 0) by (bit_vector);
    assert((m | ((m & 0o444) >> 2)) & !0o111u32 == m & !0o111u32) by (bit_vector);
}

/// What a server reports of a file, each part where it does.
#[derive(Debug)]
pub struct RemoteAttrs {
    pub size: Option<u64>,
    pub uid: Option<u32>,
    pub user: Option<String>,
    pub gid: Option<u32>,
    pub group: Option<String>,
    pub permissions: Option<u32>,
    pub mtime: Option<u32>,
}

/// What kind of file the type bits of a mode stand for.
#[derive(Debug, Clone, Copy, PartialEq, Eq, Structural)]
pub enum RemoteKind {
    Dir,
    File,
    Symlink,
    Other,
}

/// The kind that the type bits of the permissions say; without permissions,
/// or with any other type bits, none of the three.
pub open spec fn kind_of(permissions: Option<u32>) -> RemoteKind {
    let bits = permissions.unwrap_or(0) & 0xf000;
    if bits == 0x4000 {
        RemoteKind::Dir
    } else if bits == 0xa000 {
        RemoteKind::Symlink
    } else if bits == 0x8000 {
        RemoteKind::File
    } else {
        RemoteKind::Other
    }
}

/// `russh_sftp::protocol::FileAttributes::file_type` on attributes with these
/// permissions: the kind that their type bits stand for, as [`kind_of`] says.
#[verifier::external_body]
fn remote_kind(permissions: Option<u32>) -> (r: RemoteKind)
    ensures
        r == kind_of(permissions),
{
    let mut attrs = russh_sftp::protocol::FileAttributes::empty();
    attrs.permissions = permissions;
    match attrs.file_type() {
        russh_sftp::protocol::FileType::Dir => RemoteKind::Dir,
        russh_sftp::protocol::FileType::File => RemoteKind::File,
        russh_sftp::protocol::FileType::Symlink => RemoteKind::Symlink,
        russh_sftp::protocol::FileType::Other => RemoteKind::Other,
    }
}

/// Whether a server's attributes are those of a directory.
pub fn is_remote_dir(permissions: Option<u32>) -> (r: bool)
    ensures
        r == (kind_of(permissions) is Dir),
{
    matches!(remote_kind(permissions), RemoteKind::Dir)
}

/// The name shown for an id: the one the server sent, else the one the maps
/// have, else the number; `None` when the server sent neither name nor id.
pub open spec fn shown_name(
    sent: Option<String>,
    id: Option<u32>,
    names: Option<Map<u32, Seq<char>>>,
) -> Option<Seq<char>> {
    match (sent, id) {
        (Some(name), _) => Some(name@),
        (None, None) => None,
        (None, Some(id)) => match names {
            Some(m) => if m.contains_key(id) {
                Some(m[id])
            } else {
                Some(decimal(id as nat))
            },
            None => Some(decimal(id as nat)),
        },
    }
}

/// What a listing shows for an id: a name that the server sent is shown as it
/// came, whatever the maps hold. Without one, a name of the maps is shown, and
/// without that a number that reads back as the id. Nothing is shown only
/// where the server sent neither.
pub proof fn law_shown_name(
    sent: Option<String>,
    id: Option<u32>,
    names: Option<Map<u32, Seq<char>>>,
)
    ensures
        sent is Some ==> shown_name(sent, id, names) == Some(sent->0@),
        sent is None && id is Some && names is Some && names->0.contains_key(id->0) ==> shown_name(
            sent,
            id,
            names,
        ) == Some(names->0[id->0]),
        sent is None && id is Some && !(names is Some && names->0.contains_key(id->0)) ==> {
            &&& shown_name(sent, id, names) is Some
            &&& number_in(shown_name(sent, id, names)->0, 10, u32::MAX as nat) == Some(
                id->0 as nat,
            )
        },
        shown_name(sent, id, names) is None <==> sent is None && id is None,
{
    if id is Some {
        law_digits_read_back(id->0 as nat, 10, u32::MAX as nat);
    }
}

/// An id that the map knows is shown by its name there, and any other by a
/// number that reads back as the id. The local and the remote side show the
/// same name for the same id and map.
pub proof fn law_name_or_number(id: u32, names: Map<u32, Seq<char>>)
    ensures
        names.contains_key(id) ==> name_or_number(id, names) == names[id],
        !names.contains_key(id) ==> number_in(name_or_number(id, names), 10, u32::MAX as nat)
            == Some(id as nat),
        shown_name(None, Some(id), Some(names)) == Some(name_or_number(id, names)),
{
    law_digits_read_back(id as nat, 10, u32::MAX as nat);
}

/// The name that a map has for an id, else the number.
pub open spec fn name_or_number(id: u32, names: Map<u32, Seq<char>>) -> Seq<char> {
    if names.contains_key(id) {
        names[id]
    } else {
        decimal(id as nat)
    }
}

/// id → name via a passwd/group map; unknown ids fall back to the number.
pub fn lookup(id: u32, map: &HashMap<u32, String>) -> (r: String)
    ensures
        r@ == name_or_number(id, names_of(map@)),
{
    match map.get(&id) {
        Some(name) => name.clone(),
        None => to_decimal(id as u64),
    }
}

/// name → id via the same maps.
pub fn id_for(name: &str, map: &HashMap<u32, String>) -> (r: Option<u32>)
    ensures
        id_found(map@, name@, r),
{
    IdNames::id_by_name(map, name)
}

fn shown(sent: &Option<String>, id: Option<u32>, names: Option<&HashMap<u32, String>>) -> (r:
    Option<String>)
    ensures
        opt_text(r) == shown_name(
            *sent,
            id,
            match names {
                Some(m) => Some(names_of(m@)),
                None => None,
            },
        ),
{
    if let Some(name) = sent {
        return Some(name.clone());
    }
    match id {
        None => None,
        Some(id) => match names {
            Some(map) => Some(lookup(id, map)),
            None => Some(to_decimal(id as u64)),
        },
    }
}

/// The user names among optional maps.
pub open spec fn user_map(names: Option<&IdNames>) -> Option<Map<u32, Seq<char>>> {
    match names {
        Some(n) => Some(names_of(n.users@)),
        None => None,
    }
}

/// The group names among optional maps.
pub open spec fn group_map(names: Option<&IdNames>) -> Option<Map<u32, Seq<char>>> {
    match names {
        Some(n) => Some(names_of(n.groups@)),
        None => None,
    }
}

/// Whether `e` is the listing entry of the file at `path` with these
/// attributes.
pub open spec fn is_entry(
    e: FsEntry,
    path: Seq<char>,
    name: Seq<char>,
    attrs: RemoteAttrs,
    names: Option<&IdNames>,
) -> bool {
    &&& e.name@ == name
    &&& e.path@ == path
    &&& e.is_dir == (kind_of(attrs.permissions) is Dir)
    &&& e.is_symlink == (kind_of(attrs.permissions) is Symlink)
    &&& e.size == attrs.size.unwrap_or(0)
    &&& e.mtime == (match attrs.mtime {
        Some(t) => Some(t as i64),
        None => None,
    })
    &&& e.mode == (match attrs.permissions {
        Some(p) => Some(p & 0o7777),
        None => None,
    })
    &&& opt_text(e.owner) == shown_name(attrs.user, attrs.uid, user_map(names))
    &&& opt_text(e.group) == shown_name(attrs.group, attrs.gid, group_map(names))
    &&& e.link_target is None
}

/// A listing entry from what the server reports. Names the server sent come
/// first, then the session's /etc/passwd and /etc/group maps, then the raw
/// numeric ids.
pub fn entry_from_attrs(path: &str, name: &str, attrs: &RemoteAttrs, names: Option<&IdNames>) -> (r:
    FsEntry)
    ensures
        is_entry(r, path@, name@, *attrs, names),
{
    let kind = remote_kind(attrs.permissions);
    FsEntry {
        name: name.to_owned(),
        path: path.to_owned(),
        is_dir: matches!(kind, RemoteKind::Dir),
        is_symlink: matches!(kind, RemoteKind::Symlink),
        size: attrs.size.unwrap_or(0),
        mtime: match attrs.mtime {
            Some(t) => Some(t as i64),
            None => None,
        },
        mode: match attrs.permissions {
            Some(p) => Some(p & 0o7777),
            None => None,
        },
        owner: shown(
            &attrs.user,
            attrs.uid,
            match names {
                Some(n) => Some(&n.users),
                None => None,
            },
        ),
        group: shown(
            &attrs.group,
            attrs.gid,
            match names {
                Some(n) => Some(&n.groups),
                None => None,
            },
        ),
        link_target: None,
    }
}

/// What the local disk reports of a file.
#[derive(Debug, Clone, Copy)]
pub struct LocalMeta {
    pub is_dir: bool,
    pub is_symlink: bool,
    pub len: u64,
    pub mtime: i64,
    pub mode: u32,
    pub uid: u32,
    pub gid: u32,
}

/// Whether `e` is the listing entry of the local file at `path`.
pub open spec fn is_local_entry(
    e: FsEntry,
    path: Seq<char>,
    meta: LocalMeta,
    target: Option<LocalMeta>,
    link_target: Option<String>,
    names: IdNames,
) -> bool {
    &&& e.name@ == base_name(path)
    &&& e.path@ == path
    &&& e.is_symlink == meta.is_symlink
    &&& e.is_dir == (if meta.is_symlink && target is Some {
        target->0.is_dir
    } else {
        meta.is_dir
    })
    &&& e.size == (if meta.is_symlink && target is Some {
        target->0.len
    } else {
        meta.len
    })
    &&& e.mtime == Some(meta.mtime)
    &&& e.mode == Some(meta.mode & 0o7777)
    &&& opt_text(e.owner) == Some(name_or_number(meta.uid, names_of(names.users@)))
    &&& opt_text(e.group) == Some(name_or_number(meta.gid, names_of(names.groups@)))
    &&& e.link_target == (if meta.is_symlink {
        link_target
    } else {
        None
    })
}

/// What a local listing shows. A file that is no symlink shows its own kind
/// and size, whatever is said of a target, and names none. A symlink shows
/// those of its target, its own where the target is gone, and where it points.
/// Times, permission bits and owners are always the file's own: two listings
/// that differ only in the target show the same ones.
pub proof fn law_local_entry(
    e: FsEntry,
    path: Seq<char>,
    meta: LocalMeta,
    target: Option<LocalMeta>,
    link_target: Option<String>,
    names: IdNames,
)
    requires
        is_local_entry(e, path, meta, target, link_target, names),
    ensures
        e.path@ == path,
        e.name@ == base_name(path),
        e.is_symlink == meta.is_symlink,
        !meta.is_symlink ==> e.is_dir == meta.is_dir && e.size == meta.len && e.link_target is None,
        meta.is_symlink ==> e.link_target == link_target,
        meta.is_symlink && target is Some ==> e.is_dir == target->0.is_dir && e.size
            == target->0.len,
        meta.is_symlink && target is None ==> e.is_dir == meta.is_dir && e.size == meta.len,
        e.mtime == Some(meta.mtime),
        e.mode is Some && e.mode->0 <= 0o7777 && e.mode->0 & 0o7777 == meta.mode & 0o7777,
        names.users@.contains_key(meta.uid) ==> opt_text(e.owner) == Some(
            names.users@[meta.uid]@,
        ),
        names.groups@.contains_key(meta.gid) ==> opt_text(e.group) == Some(
            names.groups@[meta.gid]@,
        ),
        !names.users@.contains_key(meta.uid) ==> opt_text(e.owner) is Some && number_in(
            opt_text(e.owner)->0,
            10,
            u32::MAX as nat,
        ) == Some(meta.uid as nat),
        !names.groups@.contains_key(meta.gid) ==> opt_text(e.group) is Some && number_in(
            opt_text(e.group)->0,
            10,
            u32::MAX as nat,
        ) == Some(meta.gid as nat),
{
    let p = meta.mode;
    assert(p & 0o7777 <= 0o7777 && (p & 0o7777) & 0o7777 == p & 0o7777) by (bit_vector);
    law_name_or_number(meta.uid, names_of(names.users@));
    law_name_or_number(meta.gid, names_of(names.groups@));
}

/// A listing entry from what the local disk reports. A symlink shows the kind
/// and size of its target, where there is one, so double-click works; the
/// rest is its own.
pub fn entry_from_meta(
    path: &str,
    meta: &LocalMeta,
    target: &Option<LocalMeta>,
    link_target: &Option<String>,
    names: &IdNames,
) -> (r: FsEntry)
    ensures
        is_local_entry(r, path@, *meta, *target, *link_target, *names),
{
    let effective = match target {
        Some(t) if meta.is_symlink => *t,
        _ => *meta,
    };
    FsEntry {
        name: file_name(path),
        path: path.to_owned(),
        is_dir: effective.is_dir,
        is_symlink: meta.is_symlink,
        size: effective.len,
        mtime: Some(meta.mtime),
        mode: Some(meta.mode & 0o7777),
        owner: Some(lookup(meta.uid, &names.users)),
        group: Some(lookup(meta.gid, &names.groups)),
        link_target: if meta.is_symlink {
            copy_opt(link_target)
        } else {
            None
        },
    }
}

/// One row of a server's directory listing.
#[derive(Debug)]
pub struct RemoteRow {
    pub name: String,
    pub attrs: RemoteAttrs,
}

/// Whether a name is one of the two that stand for a directory and its parent.
pub open spec fn is_dot_name(name: Seq<char>) -> bool {
    name == "."@ || name == ".."@
}

/// The rows of a listing but for the dot names, in order.
pub open spec fn real_rows(rows: Seq<RemoteRow>) -> Seq<RemoteRow>
    decreases rows.len(),
{
    if rows.len() == 0 {
        seq![]
    } else if is_dot_name(rows.last().name@) {
        real_rows(rows.drop_last())
    } else {
        real_rows(rows.drop_last()).push(rows.last())
    }
}

/// Whether `e` is the listing entry of the row in the directory `dir`.
pub open spec fn is_entry_of(
    e: FsEntry,
    row: RemoteRow,
    dir: Seq<char>,
    names: Option<&IdNames>,
) -> bool {
    is_entry(e, joined(dir, row.name@), row.name@, row.attrs, names)
}

/// What stands in a listing entry: the file's own name, its path in the listed
/// directory, and what the server said of it, none of it changed. It is a
/// directory or a symlink as the type bits say, never both. Its mode is the
/// permission bits alone, all twelve of them.
pub proof fn law_entry_tells(e: FsEntry, row: RemoteRow, dir: Seq<char>, names: Option<&IdNames>)
    requires
        is_entry_of(e, row, dir, names),
    ensures
        e.name@ == row.name@,
        is_component(row.name@) ==> base_name(e.path@) == row.name@,
        e.is_dir <==> row.attrs.permissions is Some && row.attrs.permissions->0 & 0xf000 == 0x4000,
        e.is_symlink <==> row.attrs.permissions is Some && row.attrs.permissions->0 & 0xf000
            == 0xa000,
        !(e.is_dir && e.is_symlink),
        row.attrs.size is Some ==> e.size == row.attrs.size->0,
        row.attrs.size is None ==> e.size == 0,
        (e.mtime is Some) == (row.attrs.mtime is Some),
        e.mtime is Some ==> e.mtime->0 == row.attrs.mtime->0,
        (e.mode is Some) == (row.attrs.permissions is Some),
        e.mode is Some ==> {
            &&& e.mode->0 <= 0o7777
            &&& e.mode->0 & 0o7777 == row.attrs.permissions->0 & 0o7777
        },
        row.attrs.user is Some ==> opt_text(e.owner) == Some(row.attrs.user->0@),
        row.attrs.group is Some ==> opt_text(e.group) == Some(row.attrs.group->0@),
        e.owner is None <==> row.attrs.user is None && row.attrs.uid is None,
        e.group is None <==> row.attrs.group is None && row.attrs.gid is None,
        e.link_target is None,
{
    if is_component(row.name@) {
        law_join_file_name(dir, row.name@);
    }
    let none = 0u32;
    assert(none & 0xf000 == 0) by (bit_vector)
        requires
            none == 0,
    ;
    if let Some(p) = row.attrs.permissions {
        assert(p & 0o7777 <= 0o7777 && (p & 0o7777) & 0o7777 == p & 0o7777) by (bit_vector);
    }
}

/// Leaving out the dot names loses no other row and moves none: a listing that
/// comes in two parts gives the rows of the first and then those of the
/// second, a row with any other name alone gives itself, and one with a dot
/// name nothing.
pub proof fn law_real_rows(a: Seq<RemoteRow>, b: Seq<RemoteRow>, row: RemoteRow)
    ensures
        real_rows(a + b) == real_rows(a) + real_rows(b),
        is_dot_name(row.name@) ==> real_rows(seq![row]) == Seq::<RemoteRow>::empty(),
        !is_dot_name(row.name@) ==> real_rows(seq![row]) == seq![row],
        row.name@ == "."@ || row.name@ == ".."@ <==> is_dot_name(row.name@),
    decreases b.len(),
{
    assert(seq![row].drop_last() =~= Seq::<RemoteRow>::empty());
    assert(real_rows(Seq::<RemoteRow>::empty()) =~= Seq::<RemoteRow>::empty());
    assert(real_rows(seq![row].drop_last()) =~= Seq::<RemoteRow>::empty());
    if b.len() == 0 {
        assert(a + b =~= a);
        assert(real_rows(a) + real_rows(b) =~= real_rows(a));
    } else {
        law_real_rows(a, b.drop_last(), row);
        assert((a + b).drop_last() =~= a + b.drop_last());
        assert((a + b).last() == b.last());
        assert(real_rows(a + b) =~= real_rows(a) + real_rows(b));
    }
}

/// The entries of a remote directory, in the server's order, without "." and
/// "..". What symlinks point at is filled in by [`resolve_link`].
pub fn remote_entries(dir: &str, rows: &Vec<RemoteRow>, names: Option<&IdNames>) -> (r: Vec<
    FsEntry,
>)
    ensures
        r@.len() == real_rows(rows@).len(),
        forall|i: int|
            0 <= i < r@.len() ==> is_entry_of(
                #[trigger] r@[i],
                real_rows(rows@)[i],
                dir@,
                names,
            ),
{
    let mut out: Vec<FsEntry> = Vec::new();
    let mut i: usize = 0;
    while i < rows.len()
        invariant
            i <= rows@.len(),
            out@.len() == real_rows(rows@.take(i as int)).len(),
            forall|k: int|
                0 <= k < out@.len() ==> is_entry_of(
                    #[trigger] out@[k],
                    real_rows(rows@.take(i as int))[k],
                    dir@,
                    names,
                ),
        decreases rows@.len() - i,
    {
        assert(rows@.take(i + 1).drop_last() =~= rows@.take(i as int));
        let row = &rows[i];
        let name = row.name.as_str();
        if !same(name, ".") && !same(name, "..") {
            let full = join(dir, name);
            out.push(entry_from_attrs(full.as_str(), name, &row.attrs, names));
        }
        i += 1;
    }
    assert(rows@.take(i as int) =~= rows@);
    out
}

/// An entry with what is known of its target, where it is a symlink.
pub open spec fn link_resolved(
    entry: FsEntry,
    target: Option<Option<u32>>,
    link_target: Option<String>,
) -> FsEntry {
    if entry.is_symlink {
        FsEntry {
            is_dir: match target {
                Some(permissions) => kind_of(permissions) is Dir,
                None => entry.is_dir,
            },
            link_target: link_target,
            ..entry
        }
    } else {
        entry
    }
}

/// Following a link never touches an entry that is none. It changes of a
/// symlink only whether it opens as a directory, as the target's type bits
/// say, and where it points; the kind stays as it was where the server could
/// not tell.
pub proof fn law_link_resolved(
    entry: FsEntry,
    target: Option<Option<u32>>,
    link_target: Option<String>,
)
    ensures
        ({
            let r = link_resolved(entry, target, link_target);
            &&& !entry.is_symlink ==> r == entry
            &&& r.is_symlink == entry.is_symlink
            &&& r.name == entry.name && r.path == entry.path && r.size == entry.size
            &&& r.mtime == entry.mtime && r.mode == entry.mode
            &&& r.owner == entry.owner && r.group == entry.group
            &&& entry.is_symlink ==> r.link_target == link_target
            &&& entry.is_symlink && target is None ==> r.is_dir == entry.is_dir
            &&& entry.is_symlink && target is Some && target->0 is None ==> !r.is_dir
            &&& entry.is_symlink && target is Some && target->0 is Some ==> (r.is_dir
                <==> target->0->0 & 0xf000 == 0x4000)
        }),
{
    let none = 0u32;
    assert(none & 0xf000 == 0) by (bit_vector)
        requires
            none == 0,
    ;
}

/// What is known of a symlink's target: whether it is a directory, where the
/// server told, and the path it names.
pub fn resolve_link(entry: FsEntry, target: Option<Option<u32>>, link_target: Option<String>) -> (r:
    FsEntry)
    ensures
        r == link_resolved(entry, target, link_target),
{
    let mut e = entry;
    if e.is_symlink {
        if let Some(permissions) = target {
            e.is_dir = is_remote_dir(permissions);
        }
        e.link_target = link_target;
    }
    e
}

/// The permissions to send for a mode.
pub open spec fn sent_bits(current: Option<u32>, mode: u32) -> u32 {
    (current.unwrap_or(0) & !0o7777u32) | (mode & 0o7777)
}

/// The permissions to send for a mode: the file-type bits that the server
/// reported, and the permission bits asked for.
pub fn chmod_bits(current: Option<u32>, mode: u32) -> (r: u32)
    ensures
        r == sent_bits(current, mode),
{
    (current.unwrap_or(0) & !0o7777u32) | (mode & 0o7777)
}

/// A changed mode keeps the type bits and has exactly the permission bits
/// asked for. Where the server reported none, nothing else is sent.
pub proof fn law_chmod_bits(current: u32, mode: u32)
    ensures
        ({
            let sent = sent_bits(Some(current), mode);
            &&& sent & !0o7777u32 == current & !0o7777u32
            &&& sent & 0o7777 == mode & 0o7777
            &&& kind_of(Some(sent)) == kind_of(Some(current))
        }),
        sent_bits(None, mode) == mode & 0o7777,
{
    let none = 0u32;
    assert((none & !0o7777u32) | (mode & 0o7777) == mode & 0o7777) by (bit_vector)
        requires
            none == 0,
    ;
    assert(((current & !0o7777u32) | (mode & 0o7777)) & !0o7777u32 == current & !0o7777u32)
        by (bit_vector);
    assert(((current & !0o7777u32) | (mode & 0o7777)) & 0o7777 == mode & 0o7777) by (bit_vector);
    assert(((current & !0o7777u32) | (mode & 0o7777)) & 0xf000 == current & 0xf000)
        by (bit_vector);
}

/// The owner ids to send.
pub open spec fn ids_to_send(
    uid: Option<u32>,
    gid: Option<u32>,
    current_uid: Option<u32>,
    current_gid: Option<u32>,
) -> Option<(u32, u32)> {
    match (
        if uid is Some {
            uid
        } else {
            current_uid
        },
        if gid is Some {
            gid
        } else {
            current_gid
        },
    ) {
        (Some(u), Some(g)) => Some((u, g)),
        _ => None,
    }
}

/// An id asked for is the one sent, whatever the file has now. A half that was
/// not asked for stays what it is. Ids are sent unless a half was not asked
/// for and is not known.
pub proof fn law_owner_ids(
    uid: Option<u32>,
    gid: Option<u32>,
    current_uid: Option<u32>,
    current_gid: Option<u32>,
)
    ensures
        ({
            let sent = ids_to_send(uid, gid, current_uid, current_gid);
            &&& sent is None <==> (uid is None && current_uid is None) || (gid is None
                && current_gid is None)
            &&& sent matches Some((u, g)) ==> {
                &&& uid is Some ==> u == uid->0
                &&& gid is Some ==> g == gid->0
                &&& uid is None ==> Some(u) == current_uid
                &&& gid is None ==> Some(g) == current_gid
            }
        }),
{
}

/// The owner ids to send: SFTP sends uid and gid together, so the missing
/// half comes from the file's current attributes; `None` when the server did
/// not report it.
pub fn owner_ids(
    uid: Option<u32>,
    gid: Option<u32>,
    current_uid: Option<u32>,
    current_gid: Option<u32>,
) -> (r: Option<(u32, u32)>)
    ensures
        r == ids_to_send(uid, gid, current_uid, current_gid),
{
    let u = match uid {
        Some(u) => Some(u),
        None => current_uid,
    };
    let g = match gid {
        Some(g) => Some(g),
        None => current_gid,
    };
    match (u, g) {
        (Some(u), Some(g)) => Some((u, g)),
        _ => None,
    }
}

/// A user or group name that stands for no id.
#[derive(Debug)]
pub enum UnknownName {
    User(String),
    Group(String),
}

impl UnknownName {
    /// What the user is told.
    pub open spec fn text(self) -> Seq<char> {
        match self {
            UnknownName::User(name) => "unknown user \u{201c}"@ + name@ + "\u{201d}"@,
            UnknownName::Group(name) => "unknown group \u{201c}"@ + name@ + "\u{201d}"@,
        }
    }

    /// What the user is told.
    pub fn message(&self) -> (r: String)
        ensures
            r@ == self.text(),
    {
        let mut s = String::new();
        match self {
            UnknownName::User(name) => {
                s.append("unknown user \u{201c}");
                s.append(name.as_str());
            },
            UnknownName::Group(name) => {
                s.append("unknown group \u{201c}");
                s.append(name.as_str());
            },
        }
        s.append("\u{201d}");
        assert(s@ =~= self.text());
        s
    }
}

/// Whether `r` is the id behind a name: the name itself where it is a number,
/// else an id that the map gives this name; `None` where there is none.
pub open spec fn id_resolved(
    name: Seq<char>,
    map: Option<Map<u32, String>>,
    r: Option<u32>,
) -> bool {
    match number_in(name, 10, u32::MAX as nat) {
        Some(n) => r == Some(n as u32),
        None => match map {
            Some(m) => id_found(m, name, r),
            None => r is None,
        },
    }
}

/// A number stands for itself, whatever names the map has. Any other name
/// stands for an id only when the map gives that id this very name, and it
/// does so whenever the map gives it to some id.
pub proof fn law_id_resolved(
    name: Seq<char>,
    map: Option<Map<u32, String>>,
    r: Option<u32>,
    id: u32,
)
    requires
        id_resolved(name, map, r),
    ensures
        name == decimal(id as nat) ==> r == Some(id),
        number_in(name, 10, u32::MAX as nat) is None && r is Some ==> map is Some
            && map->0.contains_key(r->0) && map->0[r->0]@ == name,
        number_in(name, 10, u32::MAX as nat) is None && map is Some && map->0.contains_key(id)
            && map->0[id]@ == name ==> r is Some,
        map is None && number_in(name, 10, u32::MAX as nat) is None ==> r is None,
{
    law_digits_read_back(id as nat, 10, u32::MAX as nat);
}

fn resolve_id(name: &str, map: Option<&HashMap<u32, String>>) -> (r: Option<u32>)
    ensures
        id_resolved(
            name@,
            match map {
                Some(m) => Some(m@),
                None => None,
            },
            r,
        ),
{
    match parse_number(name, 10, u32::MAX as u64) {
        Some(n) => Some(n as u32),
        None => match map {
            Some(m) => id_for(name, m),
            None => None,
        },
    }
}

/// Whether `r` is what the names of a user and a group stand for.
pub open spec fn ids_resolved(
    r: Result<(Option<u32>, Option<u32>), UnknownName>,
    user: Option<String>,
    group: Option<String>,
    users: Option<Map<u32, String>>,
    groups: Option<Map<u32, String>>,
) -> bool {
    match r {
        Ok((uid, gid)) => {
            &&& (uid is Some) == (user is Some)
            &&& (gid is Some) == (group is Some)
            &&& user is Some ==> id_resolved(user->0@, users, uid)
            &&& group is Some ==> id_resolved(group->0@, groups, gid)
        },
        Err(UnknownName::User(name)) => {
            &&& user is Some
            &&& name@ == user->0@
            &&& id_resolved(name@, users, None)
        },
        Err(UnknownName::Group(name)) => {
            &&& group is Some
            &&& name@ == group->0@
            &&& id_resolved(name@, groups, None)
            &&& user is Some ==> exists|uid: Option<u32>|
                uid is Some && id_resolved(user->0@, users, uid)
        },
    }
}

/// Only the names that were given are resolved, each by the map of its own
/// kind. Two numbers always resolve, to themselves. A name that a map gives to
/// some id resolves to an id that has it. One that stands for no id is the
/// error, a user before a group.
pub proof fn law_ids_resolved(
    r: Result<(Option<u32>, Option<u32>), UnknownName>,
    user: Option<String>,
    group: Option<String>,
    users: Option<Map<u32, String>>,
    groups: Option<Map<u32, String>>,
    uid: u32,
    gid: u32,
)
    requires
        ids_resolved(r, user, group, users, groups),
    ensures
        user is None && group is None ==> r matches Ok((None, None)),
        user is Some && group is Some && user->0@ == decimal(uid as nat) && group->0@ == decimal(
            gid as nat,
        ) ==> r == Ok::<(Option<u32>, Option<u32>), UnknownName>((Some(uid), Some(gid))),
        user is Some && group is None && user->0@ == decimal(uid as nat) ==> r == Ok::<
            (Option<u32>, Option<u32>),
            UnknownName,
        >((Some(uid), None)),
        user is Some && number_in(user->0@, 10, u32::MAX as nat) is None && (users is None || (
        forall|id: u32| #[trigger]
            users->0.contains_key(id) ==> users->0[id]@ != user->0@)) ==> (r
            matches Err(UnknownName::User(name)) && name@ == user->0@),
        user is None && group is Some && number_in(group->0@, 10, u32::MAX as nat) is None && (groups
            is None || (forall|id: u32| #[trigger]
            groups->0.contains_key(id) ==> groups->0[id]@ != group->0@)) ==> (r
            matches Err(UnknownName::Group(name)) && name@ == group->0@),
        r matches Err(UnknownName::User(name)) ==> user is Some && name@ == user->0@,
        r matches Err(UnknownName::Group(name)) ==> group is Some && name@ == group->0@,
{
    law_digits_read_back(uid as nat, 10, u32::MAX as nat);
    law_digits_read_back(gid as nat, 10, u32::MAX as nat);
}

/// Resolve user/group names to numeric ids. Accepts plain numeric ids too.
/// `None` inputs stay `None`. `names` is `None` where the session's maps are
/// not to be had.
pub fn resolve_ids(user: &Option<String>, group: &Option<String>, names: Option<&IdNames>) -> (r:
    Result<(Option<u32>, Option<u32>), UnknownName>)
    ensures
        ids_resolved(r, *user, *group, raw_users(names), raw_groups(names)),
{
    let (users, groups) = match names {
        Some(n) => (Some(&n.users), Some(&n.groups)),
        None => (None, None),
    };
    let uid = match user {
        None => None,
        Some(name) => {
            let id = resolve_id(name.as_str(), users);
            if id.is_none() {
                return Err(UnknownName::User(name.clone()));
            }
            id
        },
    };
    let gid = match group {
        None => None,
        Some(name) => {
            let id = resolve_id(name.as_str(), groups);
            if id.is_none() {
                return Err(UnknownName::Group(name.clone()));
            }
            id
        },
    };
    Ok((uid, gid))
}

/// The user map among optional maps.
pub open spec fn raw_users(names: Option<&IdNames>) -> Option<Map<u32, String>> {
    match names {
        Some(n) => Some(n.users@),
        None => None,
    }
}

/// The group map among optional maps.
pub open spec fn raw_groups(names: Option<&IdNames>) -> Option<Map<u32, String>> {
    match names {
        Some(n) => Some(n.groups@),
        None => None,
    }
}

} // verus!
