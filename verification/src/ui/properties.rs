//! The Properties dialog: file details, and the editor for owner, group and
//! permissions.

use crate::fsops::parent;
use crate::paths::parent_path;
use crate::sizes::{exact_size, exact_size_text};
use crate::text::{
    decimal, digits, has_prefix, has_suffix, law_digits_read_back, law_padded_read_back,
    law_trimmed_again, law_zero_padded, lemma_digits_back, lemma_trim_tight, number_in, pad_zeros, parse_number, same,
    to_decimal, to_digits, trim, trimmed, zero_padded,
};
use crate::transfers::AttrRequest;
use crate::types::{opt_text, FsEntry};
use crate::walks::DiskUsage;
use vstd::prelude::*;
use vstd::string::*;

verus! {

/// The boxes of the permission editor.
#[derive(Debug, Clone, Copy, PartialEq, Eq, Structural)]
pub struct PermChecks {
    pub owner_r: bool,
    pub owner_w: bool,
    pub owner_x: bool,
    pub group_r: bool,
    pub group_w: bool,
    pub group_x: bool,
    pub other_r: bool,
    pub other_w: bool,
    pub other_x: bool,
    pub set_uid: bool,
    pub set_gid: bool,
    pub sticky: bool,
}

/// A bit, where it is on.
pub open spec fn bit_if(on: bool, bit: u32) -> u32 {
    if on {
        bit
    } else {
        0
    }
}

/// The boxes that a mode ticks.
pub open spec fn ticked(mode: u32) -> PermChecks {
    PermChecks {
        owner_r: mode & 0o400 != 0,
        owner_w: mode & 0o200 != 0,
        owner_x: mode & 0o100 != 0,
        group_r: mode & 0o40 != 0,
        group_w: mode & 0o20 != 0,
        group_x: mode & 0o10 != 0,
        other_r: mode & 0o4 != 0,
        other_w: mode & 0o2 != 0,
        other_x: mode & 0o1 != 0,
        set_uid: mode & 0o4000 != 0,
        set_gid: mode & 0o2000 != 0,
        sticky: mode & 0o1000 != 0,
    }
}

/// The mode that the boxes stand for.
pub open spec fn mode_of(c: PermChecks) -> u32 {
    bit_if(c.owner_r, 0o400) | bit_if(c.owner_w, 0o200) | bit_if(c.owner_x, 0o100) | bit_if(
        c.group_r,
        0o40,
    ) | bit_if(c.group_w, 0o20) | bit_if(c.group_x, 0o10) | bit_if(c.other_r, 0o4) | bit_if(
        c.other_w,
        0o2,
    ) | bit_if(c.other_x, 0o1) | bit_if(c.set_uid, 0o4000) | bit_if(c.set_gid, 0o2000) | bit_if(
        c.sticky,
        0o1000,
    )
}

fn bit(on: bool, value: u32) -> (r: u32)
    ensures
        r == bit_if(on, value),
{
    if on {
        value
    } else {
        0
    }
}

impl PermChecks {
    /// The boxes that a mode ticks.
    pub fn of(mode: u32) -> (r: Self)
        ensures
            r == ticked(mode),
    {
        PermChecks {
            owner_r: mode & 0o400 != 0,
            owner_w: mode & 0o200 != 0,
            owner_x: mode & 0o100 != 0,
            group_r: mode & 0o40 != 0,
            group_w: mode & 0o20 != 0,
            group_x: mode & 0o10 != 0,
            other_r: mode & 0o4 != 0,
            other_w: mode & 0o2 != 0,
            other_x: mode & 0o1 != 0,
            set_uid: mode & 0o4000 != 0,
            set_gid: mode & 0o2000 != 0,
            sticky: mode & 0o1000 != 0,
        }
    }

    /// The mode that the boxes stand for.
    pub fn collect(&self) -> (r: u32)
        ensures
            r == mode_of(*self),
    {
        bit(self.owner_r, 0o400) | bit(self.owner_w, 0o200) | bit(self.owner_x, 0o100) | bit(
            self.group_r,
            0o40,
        ) | bit(self.group_w, 0o20) | bit(self.group_x, 0o10) | bit(self.other_r, 0o4) | bit(
            self.other_w,
            0o2,
        ) | bit(self.other_x, 0o1) | bit(self.set_uid, 0o4000) | bit(self.set_gid, 0o2000) | bit(
            self.sticky,
            0o1000,
        )
    }
}

/// The boxes that a mode ticks stand for its permission bits.
pub proof fn law_mode_read_back(mode: u32)
    ensures
        mode_of(ticked(mode)) == mode & 0o7777,
{
    let c = ticked(mode);
    assert(((if mode & 0o400 != 0 { 0o400u32 } else { 0 }) | (if mode & 0o200 != 0 { 0o200u32 } else { 0 })
        | (if mode & 0o100 != 0 { 0o100u32 } else { 0 }) | (if mode & 0o40 != 0 { 0o40u32 } else { 0 })
        | (if mode & 0o20 != 0 { 0o20u32 } else { 0 }) | (if mode & 0o10 != 0 { 0o10u32 } else { 0 })
        | (if mode & 0o4 != 0 { 0o4u32 } else { 0 }) | (if mode & 0o2 != 0 { 0o2u32 } else { 0 })
        | (if mode & 0o1 != 0 { 0o1u32 } else { 0 }) | (if mode & 0o4000 != 0 { 0o4000u32 } else { 0 })
        | (if mode & 0o2000 != 0 { 0o2000u32 } else { 0 }) | (if mode & 0o1000 != 0 { 0o1000u32 } else { 0 }))
        == mode & 0o7777) by (bit_vector);
}

/// The boxes are ticked again by the mode that they stand for, which is a
/// mode of twelve bits.
pub proof fn law_checks_read_back(c: PermChecks)
    ensures
        ticked(mode_of(c)) == c,
        mode_of(c) & 0o7777 == mode_of(c),
{
    let a = c.owner_r;
    let b = c.owner_w;
    let d = c.owner_x;
    let e = c.group_r;
    let f = c.group_w;
    let g = c.group_x;
    let h = c.other_r;
    let i = c.other_w;
    let j = c.other_x;
    let k = c.set_uid;
    let l = c.set_gid;
    let m = c.sticky;
    let mode = mode_of(c);
    assert(mode == ((if a { 0o400u32 } else { 0 }) | (if b { 0o200u32 } else { 0 }) | (if d { 0o100u32 } else { 0 })
        | (if e { 0o40u32 } else { 0 }) | (if f { 0o20u32 } else { 0 }) | (if g { 0o10u32 } else { 0 })
        | (if h { 0o4u32 } else { 0 }) | (if i { 0o2u32 } else { 0 }) | (if j { 0o1u32 } else { 0 })
        | (if k { 0o4000u32 } else { 0 }) | (if l { 0o2000u32 } else { 0 }) | (if m { 0o1000u32 } else { 0 })));
    assert((mode & 0o400 != 0) == a && (mode & 0o200 != 0) == b && (mode & 0o100 != 0) == d && (mode & 0o40 != 0) == e
        && (mode & 0o20 != 0) == f && (mode & 0o10 != 0) == g && (mode & 0o4 != 0) == h && (mode & 0o2 != 0) == i
        && (mode & 0o1 != 0) == j && (mode & 0o4000 != 0) == k && (mode & 0o2000 != 0) == l && (mode & 0o1000 != 0) == m
        && mode & 0o7777 == mode) by (bit_vector)
        requires
            mode == ((if a { 0o400u32 } else { 0 }) | (if b { 0o200u32 } else { 0 }) | (if d { 0o100u32 } else { 0 })
                | (if e { 0o40u32 } else { 0 }) | (if f { 0o20u32 } else { 0 }) | (if g { 0o10u32 } else { 0 })
                | (if h { 0o4u32 } else { 0 }) | (if i { 0o2u32 } else { 0 }) | (if j { 0o1u32 } else { 0 })
                | (if k { 0o4000u32 } else { 0 }) | (if l { 0o2000u32 } else { 0 }) | (if m { 0o1000u32 } else { 0 })),
    ;
}

/// A mode as four octal digits, or more where it takes more.
pub open spec fn octal_text(mode: u32) -> Seq<char> {
    zero_padded(digits(mode as nat, 8), 4)
}

/// A mode in octal digits.
pub fn octal(mode: u32) -> (r: String)
    ensures
        r@ == octal_text(mode),
{
    pad_zeros(to_digits(mode as u64, 8).as_str(), 4)
}

/// The permission editor: R/W/X per class, the special bits, and an octal
/// entry kept in sync both ways. `dirty` flips once the user touches any of
/// it, so untouched permissions are never re-applied.
pub struct PermEditor {
    pub checks: PermChecks,
    pub octal: String,
    pub dirty: bool,
}

/// The boxes, the octal field and whether anything was touched, for a mode
/// that is shown.
pub open spec fn editor_for(mode: u32) -> (PermChecks, Seq<char>, bool) {
    (ticked(mode), octal_text(mode), false)
}

/// The boxes, the octal field and whether anything was touched, once the boxes
/// are these.
pub open spec fn after_toggling(checks: PermChecks) -> (PermChecks, Seq<char>, bool) {
    (checks, octal_text(mode_of(checks)), true)
}

/// The boxes and the octal field say the same, of the mode that is shown as of
/// any box that is toggled: the field is the octal number of the mode that the
/// boxes stand for. Showing a mode touches nothing, and toggling a box does.
pub proof fn law_editor_in_sync(mode: u32, checks: PermChecks)
    requires
        mode <= 0o7777,
    ensures
        mode_of(editor_for(mode).0) == mode,
        number_in(editor_for(mode).1, 8, u32::MAX as nat) == Some(mode as nat),
        !editor_for(mode).2,
        after_toggling(checks).0 == checks,
        number_in(after_toggling(checks).1, 8, u32::MAX as nat) == Some(mode_of(checks) as nat),
        after_toggling(checks).2,
{
    law_mode_read_back(mode);
    assert(mode <= 0o7777 ==> mode & 0o7777 == mode) by (bit_vector);
    law_padded_read_back(mode as nat, 8, 4, u32::MAX as nat);
    law_padded_read_back(mode_of(checks) as nat, 8, 4, u32::MAX as nat);
}

/// The boxes once the octal field was edited, and whether anything was
/// touched.
pub open spec fn after_typing(checks: PermChecks, dirty: bool, text: Seq<char>) -> (
    PermChecks,
    bool,
) {
    match number_in(trimmed(text), 8, u32::MAX as nat) {
        Some(n) => (ticked((n as u32) & 0o7777), true),
        None => (checks, dirty),
    }
}

/// Typing a mode in octal ticks the boxes that stand for it, with or without
/// zeros before it in the field, and white space aside. A text that is no octal
/// number changes no box and touches nothing.
pub proof fn law_typing_mode(checks: PermChecks, dirty: bool, mode: u32, text: Seq<char>)
    requires
        mode <= 0o7777,
    ensures
        mode_of(after_typing(checks, dirty, digits(mode as nat, 8)).0) == mode,
        after_typing(checks, dirty, digits(mode as nat, 8)).1,
        number_in(trimmed(text), 8, u32::MAX as nat) is None ==> after_typing(checks, dirty, text)
            == (checks, dirty),
        after_typing(checks, dirty, trimmed(text)) == after_typing(checks, dirty, text),
{
    lemma_digits_back(mode as nat, 8);
    law_digits_read_back(mode as nat, 8, u32::MAX as nat);
    lemma_trim_tight(digits(mode as nat, 8));
    law_trimmed_again(text);
    assert((mode & 0o7777) & 0o7777 == mode & 0o7777 && (mode <= 0o7777 ==> mode & 0o7777 == mode))
        by (bit_vector);
    law_mode_read_back(mode & 0o7777);
}

/// A mode is shown by its octal digits, with zeros before them up to four
/// places.
pub proof fn law_octal(mode: u32)
    ensures
        octal_text(mode).len() >= 4,
        octal_text(mode).skip(octal_text(mode).len() - digits(mode as nat, 8).len()) == digits(
            mode as nat,
            8,
        ),
        forall|i: int|
            0 <= i < octal_text(mode).len() - digits(mode as nat, 8).len() ==> octal_text(mode)[i]
                == '0',
        digits(mode as nat, 8).len() >= 4 ==> octal_text(mode) == digits(mode as nat, 8),
{
    law_zero_padded(digits(mode as nat, 8), 4);
}

impl PermEditor {
    /// An editor that shows a mode, untouched.
    pub fn new(initial: u32) -> (r: Self)
        ensures
            (r.checks, r.octal@, r.dirty) == editor_for(initial),
    {
        PermEditor { checks: PermChecks::of(initial), octal: octal(initial), dirty: false }
    }

    /// A box was toggled: the octal field is rewritten.
    pub fn toggled(&mut self, checks: PermChecks)
        ensures
            (final(self).checks, final(self).octal@, final(self).dirty) == after_toggling(checks),
    {
        self.checks = checks;
        self.octal = octal(checks.collect());
        self.dirty = true;
    }

    /// The octal field was edited: it drives the boxes once it is a number.
    pub fn typed(&mut self, text: &str)
        ensures
            final(self).octal@ == text@,
            (final(self).checks, final(self).dirty) == after_typing(
                old(self).checks,
                old(self).dirty,
                text@,
            ),
    {
        self.octal = text.to_owned();
        if let Some(n) = parse_number(trim(text).as_str(), 8, u32::MAX as u64) {
            self.dirty = true;
            self.checks = PermChecks::of((n as u32) & 0o7777);
        }
    }
}

/// The owners of entries.
pub open spec fn owners(entries: Seq<FsEntry>) -> Seq<Option<Seq<char>>> {
    Seq::new(entries.len(), |i: int| opt_text(entries[i].owner))
}

/// The groups of entries.
pub open spec fn groups(entries: Seq<FsEntry>) -> Seq<Option<Seq<char>>> {
    Seq::new(entries.len(), |i: int| opt_text(entries[i].group))
}

/// The value shared by all, or nothing when they differ or it is unknown.
pub open spec fn common(values: Seq<Option<Seq<char>>>) -> Seq<char> {
    if forall|i: int| 0 <= i < values.len() ==> #[trigger] values[i] == values[0] {
        match values[0] {
            Some(v) => v,
            None => seq![],
        }
    } else {
        seq![]
    }
}

fn same_opt(a: &Option<String>, b: &Option<String>) -> (r: bool)
    ensures
        r == (opt_text(*a) == opt_text(*b)),
{
    match (a, b) {
        (Some(x), Some(y)) => same(x.as_str(), y.as_str()),
        (None, None) => true,
        _ => false,
    }
}

/// The owner shared by every entry, or "" when they differ / are unknown.
pub fn common_owner(entries: &Vec<FsEntry>) -> (r: String)
    requires
        entries@.len() > 0,
    ensures
        r@ == common(owners(entries@)),
{
    let ghost values = owners(entries@);
    let mut i: usize = 1;
    while i < entries.len()
        invariant
            1 <= i <= entries@.len(),
            values == owners(entries@),
            forall|k: int| 0 <= k < i ==> #[trigger] values[k] == values[0],
        decreases entries@.len() - i,
    {
        assert(values[i as int] == opt_text(entries@[i as int].owner));
        if !same_opt(&entries[i].owner, &entries[0].owner) {
            assert(values[i as int] != values[0]);
            return String::new();
        }
        i += 1;
    }
    match &entries[0].owner {
        Some(v) => v.clone(),
        None => String::new(),
    }
}

/// The group shared by every entry, or "" when they differ / are unknown.
pub fn common_group(entries: &Vec<FsEntry>) -> (r: String)
    requires
        entries@.len() > 0,
    ensures
        r@ == common(groups(entries@)),
{
    let ghost values = groups(entries@);
    let mut i: usize = 1;
    while i < entries.len()
        invariant
            1 <= i <= entries@.len(),
            values == groups(entries@),
            forall|k: int| 0 <= k < i ==> #[trigger] values[k] == values[0],
        decreases entries@.len() - i,
    {
        assert(values[i as int] == opt_text(entries@[i as int].group));
        if !same_opt(&entries[i].group, &entries[0].group) {
            assert(values[i as int] != values[0]);
            return String::new();
        }
        i += 1;
    }
    match &entries[0].group {
        Some(v) => v.clone(),
        None => String::new(),
    }
}

/// The first mode that is known, or the default.
pub open spec fn first_mode(entries: Seq<FsEntry>) -> u32
    decreases entries.len(),
{
    if entries.len() == 0 {
        0o644
    } else {
        match entries[0].mode {
            Some(m) => m,
            None => first_mode(entries.skip(1)),
        }
    }
}

/// Seed for the permission boxes: the mode every entry agrees on, else the
/// first known one, else a sensible default.
pub fn initial_mode(entries: &Vec<FsEntry>) -> (r: u32)
    requires
        entries@.len() > 0,
    ensures
        r == first_mode(entries@),
{
    let mut i: usize = 0;
    assert(entries@.skip(0) =~= entries@);
    while i < entries.len()
        invariant
            i <= entries@.len(),
            first_mode(entries@) == first_mode(entries@.skip(i as int)),
        decreases entries@.len() - i,
    {
        assert(entries@.skip(i as int).skip(1) =~= entries@.skip(i + 1));
        if let Some(m) = entries[i].mode {
            return m;
        }
        i += 1;
    }
    assert(entries@.skip(i as int) =~= seq![]);
    0o644
}

/// What a field asks for: its trimmed text, where that is not empty and not
/// what it was.
pub open spec fn asked_for(typed: Seq<char>, initial: Seq<char>) -> Option<Seq<char>> {
    let t = trimmed(typed);
    if t != initial && t.len() > 0 {
        Some(t)
    } else {
        None
    }
}

fn asked(typed: &str, initial: &str) -> (r: Option<String>)
    ensures
        opt_text(r) == asked_for(typed@, initial@),
{
    let t = trim(typed);
    if !same(t.as_str(), initial) && t.as_str().unicode_len() > 0 {
        Some(t)
    } else {
        None
    }
}

/// Whether `r` is what the dialog asks for.
pub open spec fn is_request(
    r: Option<AttrRequest>,
    owner: Option<Seq<char>>,
    group: Option<Seq<char>>,
    perms: PermEditor,
    add_x_dirs: bool,
    recursive: bool,
) -> bool {
    match r {
        Some(req) => {
            &&& owner is Some || group is Some || perms.dirty
            &&& opt_text(req.owner) == owner
            &&& opt_text(req.group) == group
            &&& req.mode == if perms.dirty {
                Some(mode_of(perms.checks))
            } else {
                None
            }
            &&& req.add_x_dirs == add_x_dirs
            &&& req.recursive == recursive
        },
        None => owner is None && group is None && !perms.dirty,
    }
}

/// A field asks for something exactly when another text than it began with
/// stands in it, white space aside: then for that text. One that was emptied
/// asks for nothing.
pub proof fn law_asked_for(typed: Seq<char>, initial: Seq<char>)
    ensures
        asked_for(typed, initial) is Some <==> trimmed(typed).len() > 0 && trimmed(typed) != initial,
        asked_for(typed, initial) is Some ==> asked_for(typed, initial)->0 == trimmed(typed),
        trimmed(initial) == initial ==> asked_for(initial, initial) is None,
{
}

/// The dialog asks for what was changed and for nothing else. Permissions are
/// among it once a box or the octal field was touched, and are those of the
/// boxes; owner and group each for themselves. It asks for nothing only when
/// nothing was changed.
pub proof fn law_request(
    r: Option<AttrRequest>,
    owner: Option<Seq<char>>,
    group: Option<Seq<char>>,
    perms: PermEditor,
    add_x_dirs: bool,
    recursive: bool,
)
    requires
        is_request(r, owner, group, perms, add_x_dirs, recursive),
    ensures
        r is Some <==> owner is Some || group is Some || perms.dirty,
        r matches Some(req) ==> {
            &&& (req.mode is Some) == perms.dirty
            &&& perms.dirty ==> ticked(req.mode->0) == perms.checks && req.mode->0 <= 0o7777
            &&& opt_text(req.owner) == owner && opt_text(req.group) == group
            &&& req.add_x_dirs == add_x_dirs && req.recursive == recursive
        },
{
    law_checks_read_back(perms.checks);
    let m = mode_of(perms.checks);
    assert(m & 0o7777 <= 0o7777) by (bit_vector);
}

/// What the dialog asks for when it is confirmed; `None` when nothing was
/// changed.
pub fn attr_request(
    owner: &str,
    initial_owner: &str,
    group: &str,
    initial_group: &str,
    perms: &PermEditor,
    add_x_dirs: bool,
    recursive: bool,
) -> (r: Option<AttrRequest>)
    ensures
        is_request(
            r,
            asked_for(owner@, initial_owner@),
            asked_for(group@, initial_group@),
            *perms,
            add_x_dirs,
            recursive,
        ),
{
    let owner = asked(owner, initial_owner);
    let group = asked(group, initial_group);
    let mode = if perms.dirty {
        Some(perms.checks.collect())
    } else {
        None
    };
    if owner.is_none() && group.is_none() && mode.is_none() {
        return None;
    }
    Some(AttrRequest { owner, group, mode, add_x_dirs, recursive })
}

/// What kind of thing an entry is. `guess` is the content type told from a
/// file's name, whether that is uncertain, and its description.
pub open spec fn type_text(
    entry: FsEntry,
    content_type: Seq<char>,
    uncertain: bool,
    description: Seq<char>,
) -> Seq<char> {
    if entry.is_symlink {
        if entry.is_dir {
            "Symbolic link to folder"@
        } else {
            "Symbolic link"@
        }
    } else if entry.is_dir {
        "Folder"@
    } else if uncertain && content_type == "application/octet-stream"@ {
        "File"@
    } else {
        description
    }
}

/// What kind of thing an entry is.
pub fn type_description(
    entry: &FsEntry,
    content_type: &str,
    uncertain: bool,
    description: &str,
) -> (r: String)
    ensures
        r@ == type_text(*entry, content_type@, uncertain, description@),
{
    if entry.is_symlink {
        return if entry.is_dir {
            "Symbolic link to folder".to_owned()
        } else {
            "Symbolic link".to_owned()
        };
    }
    if entry.is_dir {
        return "Folder".to_owned();
    }
    if uncertain && same(content_type, "application/octet-stream") {
        return "File".to_owned();
    }
    description.to_owned()
}

/// Totals in words.
pub open spec fn usage_text(u: DiskUsage) -> Seq<char> {
    decimal(u.files as nat) + (if u.files == 1 {
        " file, "@
    } else {
        " files, "@
    }) + decimal(u.dirs as nat) + (if u.dirs == 1 {
        " folder"@
    } else {
        " folders"@
    })
}

/// Totals in words.
pub fn contents_text(u: &DiskUsage) -> (r: String)
    ensures
        r@ == usage_text(*u),
{
    let mut s = to_decimal(u.files);
    s.append(
        if u.files == 1 {
            " file, "
        } else {
            " files, "
        },
    );
    s.append(to_decimal(u.dirs).as_str());
    s.append(
        if u.dirs == 1 {
            " folder"
        } else {
            " folders"
        },
    );
    s
}

/// Whether there is a directory among the entries.
pub open spec fn any_dir(entries: Seq<FsEntry>) -> bool {
    exists|i: int|
        0 <= i < entries.len() && (#[trigger] entries[i]).is_dir && !entries[i].is_symlink
}

/// Whether there is a directory among the entries; only then can anything be
/// applied recursively.
pub fn has_dir(entries: &Vec<FsEntry>) -> (r: bool)
    ensures
        r == any_dir(entries@),
{
    let mut i: usize = 0;
    while i < entries.len()
        invariant
            i <= entries@.len(),
            forall|k: int|
                0 <= k < i ==> !((#[trigger] entries@[k]).is_dir && !entries@[k].is_symlink),
        decreases entries@.len() - i,
    {
        if entries[i].is_dir && !entries[i].is_symlink {
            return true;
        }
        i += 1;
    }
    false
}

/// The sizes of entries added up.
pub open spec fn total_size(entries: Seq<FsEntry>) -> nat
    decreases entries.len(),
{
    if entries.len() == 0 {
        0
    } else {
        total_size(entries.drop_last()) + entries.last().size as nat
    }
}

/// A total that a line of the details shows once it is calculated.
#[derive(Debug, Clone, Copy, PartialEq, Eq, Structural)]
pub enum OnDemand {
    Contents,
    Size,
}

/// One line of the details.
#[derive(Debug)]
pub struct InfoRow {
    pub title: &'static str,
    pub value: String,
    /// What it is to show once that is calculated, where that is still to do.
    pub awaits: Option<OnDemand>,
}

/// A line of details as plain values.
pub type InfoLine = (Seq<char>, Seq<char>, Option<OnDemand>);

/// Lines of details as plain values.
pub open spec fn rows_of(rows: Seq<InfoRow>) -> Seq<InfoLine> {
    Seq::new(rows.len(), |i: int| (rows[i].title@, rows[i].value@, rows[i].awaits))
}

/// A line whose value is known.
pub open spec fn known(title: Seq<char>, value: Seq<char>) -> InfoLine {
    (title, value, None)
}

/// The details of the entries. Directory totals are only computed on demand:
/// walking a big remote tree costs a request per directory.
pub open spec fn detail_rows(
    entries: Seq<FsEntry>,
    kind: Seq<char>,
    modified: Seq<char>,
    stored_on: Seq<char>,
) -> Seq<InfoLine> {
    let location = known("Location"@, parent_path(entries[0].path@));
    let stored = known("Stored on"@, stored_on);
    let unknown = seq![
        ("Contents"@, "Not calculated"@, Some(OnDemand::Contents)),
        ("Size"@, "Not calculated"@, Some(OnDemand::Size)),
    ];
    if entries.len() == 1 {
        let e = entries[0];
        seq![location, known("Type"@, kind)] + (if e.is_dir {
            unknown
        } else {
            seq![known("Size"@, exact_size_text(e.size as nat))]
        }) + seq![known("Modified"@, modified)] + (match e.link_target {
            Some(t) => seq![known("Link target"@, t@)],
            None => seq![],
        }) + seq![stored]
    } else {
        seq![location] + (if any_dir(entries) {
            unknown
        } else {
            seq![
                known("Contents"@, decimal(entries.len()) + " files"@),
                known("Size"@, exact_size_text(total_size(entries))),
            ]
        }) + seq![stored]
    }
}

fn push_row(rows: &mut Vec<InfoRow>, title: &'static str, value: String)
    ensures
        rows_of(final(rows)@) == rows_of(old(rows)@).push(known(title@, value@)),
{
    rows.push(InfoRow { title, value, awaits: None });
    assert(rows_of(rows@) =~= rows_of(old(rows)@).push(known(title@, value@)));
}

fn push_unknown(rows: &mut Vec<InfoRow>)
    ensures
        rows_of(final(rows)@) == rows_of(old(rows)@).push(
            ("Contents"@, "Not calculated"@, Some(OnDemand::Contents)),
        ).push(("Size"@, "Not calculated"@, Some(OnDemand::Size))),
{
    rows.push(
        InfoRow {
            title: "Contents",
            value: "Not calculated".to_owned(),
            awaits: Some(OnDemand::Contents),
        },
    );
    rows.push(
        InfoRow {
            title: "Size",
            value: "Not calculated".to_owned(),
            awaits: Some(OnDemand::Size),
        },
    );
    assert(rows_of(rows@) =~= rows_of(old(rows)@).push(
        ("Contents"@, "Not calculated"@, Some(OnDemand::Contents)),
    ).push(("Size"@, "Not calculated"@, Some(OnDemand::Size))));
}

fn size_sum(entries: &Vec<FsEntry>) -> (r: u64)
    requires
        total_size(entries@) <= u64::MAX,
    ensures
        r == total_size(entries@),
{
    let mut n: u64 = 0;
    let mut i: usize = 0;
    while i < entries.len()
        invariant
            i <= entries@.len(),
            n == total_size(entries@.take(i as int)),
            total_size(entries@) <= u64::MAX,
        decreases entries@.len() - i,
    {
        assert(entries@.take(i + 1).drop_last() =~= entries@.take(i as int));
        proof {
            lemma_total_size(entries@, i + 1);
        }
        n += entries[i].size;
        i += 1;
    }
    assert(entries@.take(i as int) =~= entries@);
    n
}

proof fn lemma_total_size(entries: Seq<FsEntry>, i: int)
    requires
        0 <= i <= entries.len(),
    ensures
        total_size(entries.take(i)) <= total_size(entries),
    decreases entries.len(),
{
    if i < entries.len() {
        lemma_total_size(entries.drop_last(), i);
        assert(entries.drop_last().take(i) =~= entries.take(i));
    } else {
        assert(entries.take(i) =~= entries);
    }
}

/// What the dialog is headed with.
pub open spec fn heading_text(entries: Seq<FsEntry>) -> Seq<char> {
    if entries.len() == 1 {
        entries[0].name@
    } else {
        decimal(entries.len()) + " Items"@
    }
}

/// What the dialog is headed with.
pub fn heading(entries: &Vec<FsEntry>) -> (r: String)
    requires
        entries@.len() > 0,
    ensures
        r@ == heading_text(entries@),
{
    if entries.len() == 1 {
        entries[0].name.clone()
    } else {
        let mut s = to_decimal(entries.len() as u64);
        s.append(" Items");
        s
    }
}

/// The details of the entries.
pub fn details(entries: &Vec<FsEntry>, kind: &str, modified: &str, stored_on: &str) -> (r: Vec<
    InfoRow,
>)
    requires
        entries@.len() > 0,
        entries@.len() > 1 && !any_dir(entries@) ==> total_size(entries@) <= u64::MAX,
    ensures
        rows_of(r@) == detail_rows(entries@, kind@, modified@, stored_on@),
{
    let mut rows: Vec<InfoRow> = Vec::new();
    push_row(&mut rows, "Location", parent(entries[0].path.as_str()));
    if entries.len() == 1 {
        let e = &entries[0];
        push_row(&mut rows, "Type", kind.to_owned());
        if e.is_dir {
            push_unknown(&mut rows);
        } else {
            push_row(&mut rows, "Size", exact_size(e.size));
        }
        push_row(&mut rows, "Modified", modified.to_owned());
        if let Some(t) = &e.link_target {
            push_row(&mut rows, "Link target", t.clone());
        }
    } else if has_dir(entries) {
        push_unknown(&mut rows);
    } else {
        let mut count = to_decimal(entries.len() as u64);
        count.append(" files");
        push_row(&mut rows, "Contents", count);
        push_row(&mut rows, "Size", exact_size(size_sum(entries)));
    }
    push_row(&mut rows, "Stored on", stored_on.to_owned());
    assert(rows_of(rows@) =~= detail_rows(entries@, kind@, modified@, stored_on@));
    rows
}

/// A value that all share is shown, and nothing where any two differ or none
/// is known.
pub proof fn law_common(values: Seq<Option<Seq<char>>>, v: Seq<char>, i: int, j: int)
    requires
        0 <= i < values.len(),
        0 <= j < values.len(),
    ensures
        (forall|k: int| 0 <= k < values.len() ==> #[trigger] values[k] == Some(v)) ==> common(values)
            == v,
        values[i] != values[j] ==> common(values).len() == 0,
        (forall|k: int| 0 <= k < values.len() ==> #[trigger] values[k] is None) ==> common(
            values,
        ).len() == 0,
        common(values).len() > 0 ==> values[i] == Some(common(values)),
{
    if forall|k: int| 0 <= k < values.len() ==> #[trigger] values[k] == Some(v) {
        assert(values[0] == Some(v));
    }
    if forall|k: int| 0 <= k < values.len() ==> #[trigger] values[k] is None {
        assert(values[0] is None);
    }
    if values[i] != values[j] {
        assert(values[i] != values[0] || values[j] != values[0]);
    }
}

/// The boxes start with the first mode that is known, and with that of an
/// ordinary file where none is.
pub proof fn law_first_mode(entries: Seq<FsEntry>, i: int)
    ensures
        0 <= i < entries.len() && entries[i].mode is Some && (forall|k: int|
            0 <= k < i ==> (#[trigger] entries[k]).mode is None) ==> first_mode(entries)
            == entries[i].mode->0,
        (forall|k: int| 0 <= k < entries.len() ==> (#[trigger] entries[k]).mode is None)
            ==> first_mode(entries) == 0o644,
    decreases entries.len(),
{
    if entries.len() > 0 {
        let rest = entries.skip(1);
        law_first_mode(rest, i - 1);
        if entries[0].mode is None {
            if i < entries.len() && (forall|k: int|
                0 <= k < i ==> (#[trigger] entries[k]).mode is None) {
                assert forall|k: int| 0 <= k < i - 1 implies (#[trigger] rest[k]).mode is None by {
                    assert(rest[k] == entries[k + 1]);
                }
            }
            assert forall|k: int| 0 <= k < rest.len() && (forall|m: int|
                0 <= m < entries.len() ==> (#[trigger] entries[m]).mode is None) implies (
            #[trigger] rest[k]).mode is None by {
                assert(rest[k] == entries[k + 1]);
            }
        }
    }
}

/// What kind of thing an entry is told to be: a symlink first of all, a folder
/// otherwise, and a file by what its name says, unless that is a mere guess at
/// nothing in particular.
pub proof fn law_type_text(
    entry: FsEntry,
    content_type: Seq<char>,
    uncertain: bool,
    description: Seq<char>,
)
    ensures
        ({
            let text = type_text(entry, content_type, uncertain, description);
            &&& entry.is_symlink && entry.is_dir ==> text == "Symbolic link to folder"@
            &&& entry.is_symlink && !entry.is_dir ==> text == "Symbolic link"@
            &&& !entry.is_symlink && entry.is_dir ==> text == "Folder"@
            &&& !entry.is_symlink && !entry.is_dir && !uncertain ==> text == description
            &&& !entry.is_symlink && !entry.is_dir && content_type != "application/octet-stream"@
                ==> text == description
            &&& !entry.is_symlink && !entry.is_dir && uncertain && content_type
                == "application/octet-stream"@ ==> text == "File"@
        }),
{
}

/// Totals tell both numbers, files before folders, and one of either as one.
pub proof fn law_usage_text(u: DiskUsage)
    ensures
        has_prefix(usage_text(u), decimal(u.files as nat)),
        u.dirs == 1 ==> has_suffix(usage_text(u), decimal(1) + " folder"@),
        u.dirs != 1 ==> has_suffix(usage_text(u), decimal(u.dirs as nat) + " folders"@),
        u.files == 1 ==> has_prefix(usage_text(u), decimal(1) + " file, "@),
        u.files != 1 ==> has_prefix(usage_text(u), decimal(u.files as nat) + " files, "@),
{
    let text = usage_text(u);
    let number = decimal(u.files as nat);
    let head = number + if u.files == 1 {
        " file, "@
    } else {
        " files, "@
    };
    let end = decimal(u.dirs as nat) + if u.dirs == 1 {
        " folder"@
    } else {
        " folders"@
    };
    assert(text.subrange(0, number.len() as int) =~= number);
    assert(text.subrange(0, head.len() as int) =~= head);
    assert(text.subrange(text.len() - end.len(), text.len() as int) =~= end);
}

/// The sizes of two groups of entries add up, and each entry counts by its own.
pub proof fn law_total_size(a: Seq<FsEntry>, b: Seq<FsEntry>, e: FsEntry)
    ensures
        total_size(a + b) == total_size(a) + total_size(b),
        total_size(seq![e]) == e.size,
        total_size(Seq::empty()) == 0,
    decreases b.len(),
{
    assert(seq![e].drop_last() =~= Seq::<FsEntry>::empty());
    assert(total_size(Seq::<FsEntry>::empty()) == 0);
    if b.len() == 0 {
        assert(a + b =~= a);
    } else {
        law_total_size(a, b.drop_last(), e);
        assert((a + b).drop_last() =~= a + b.drop_last());
        assert((a + b).last() == b.last());
    }
}

/// What the details tell. First comes where the entries are, and last where
/// they are stored. One entry tells its kind and its time, a file its size, and
/// a link where it points. Files tell their number and their size together. What
/// is in a directory is calculated only when asked for.
pub proof fn law_details(
    entries: Seq<FsEntry>,
    kind: Seq<char>,
    modified: Seq<char>,
    stored_on: Seq<char>,
)
    requires
        entries.len() > 0,
    ensures
        ({
            let rows = detail_rows(entries, kind, modified, stored_on);
            let e = entries[0];
            &&& rows[0] == known("Location"@, parent_path(e.path@))
            &&& rows.last() == known("Stored on"@, stored_on)
            &&& entries.len() == 1 ==> rows[1] == known("Type"@, kind)
            &&& entries.len() == 1 && !e.is_dir ==> rows[2] == known(
                "Size"@,
                exact_size_text(e.size as nat),
            ) && rows[3] == known("Modified"@, modified)
            &&& entries.len() == 1 && e.is_dir ==> rows[2].2 == Some(OnDemand::Contents)
                && rows[3].2 == Some(OnDemand::Size) && rows[4] == known("Modified"@, modified)
            &&& entries.len() == 1 && e.link_target is Some ==> rows[rows.len() - 2] == known(
                "Link target"@,
                e.link_target->0@,
            )
            &&& entries.len() == 1 && e.link_target is None ==> rows[rows.len() - 2] == known(
                "Modified"@,
                modified,
            )
            &&& entries.len() > 1 && !any_dir(entries) ==> rows[1] == known(
                "Contents"@,
                decimal(entries.len()) + " files"@,
            ) && rows[2] == known("Size"@, exact_size_text(total_size(entries)))
            &&& entries.len() > 1 && any_dir(entries) ==> rows[1].2 == Some(OnDemand::Contents)
                && rows[2].2 == Some(OnDemand::Size)
            &&& entries.len() == 1 ==> heading_text(entries) == e.name@
            &&& entries.len() > 1 ==> heading_text(entries) == decimal(entries.len()) + " Items"@
        }),
{
}

} // verus!
