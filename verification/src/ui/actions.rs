//! What the main window's commands do with the panes, the clipboard, the
//! saved sites and the terminal.

use crate::fsops::{join, parent};
use crate::paths::{
    base_name, is_component, joined, law_join_file_name, law_join_parent, parent_path,
};
use crate::settings::{is_random_id, is_spec_of, Folder, Site};
use crate::sizes::{format_size, size_text};
use crate::ssh::connect::shell_words_of;
use crate::text::{
    decimal, has_prefix, has_suffix, law_trimmed_again, same, texts, to_decimal, trim, trimmed,
};
use crate::tree::{
    find, first_site, folder_or_root, site_pos, site_updated, sites_of, with_folder_or_root, FolderView,
};
use crate::types::{
    copy_opt, non_empty, opt_text, Backend, ConnectSpec, Elevation, FsEntry, TransferRequest,
    TransferSnapshot,
};
use crate::ui::site_editor::SecretUpdate;
use crate::ui::site_tree::{site_by_id, site_found};
use vstd::prelude::*;
use vstd::string::*;

verus! {

/// A list of entries copied.
pub fn copy_entries(v: &Vec<FsEntry>) -> (r: Vec<FsEntry>)
    ensures
        r@ == v@,
{
    let mut out: Vec<FsEntry> = Vec::new();
    let mut i: usize = 0;
    while i < v.len()
        invariant
            i <= v@.len(),
            out@ == v@.take(i as int),
        decreases v@.len() - i,
    {
        out.push(v[i].clone());
        i += 1;
        assert(v@.take(i as int) =~= v@.take(i - 1).push(v@[i - 1]));
    }
    assert(v@.take(i as int) =~= v@);
    out
}

/// Whether a request is one to copy or move these entries there, asking
/// about conflicts.
pub open spec fn requests(
    r: TransferRequest,
    src: Backend,
    dst: Backend,
    items: Seq<FsEntry>,
    dst_dir: Seq<char>,
    move_src: bool,
) -> bool {
    &&& r.src_backend == src
    &&& r.dst_backend == dst
    &&& r.items@ == items
    &&& r.dst_dir@ == dst_dir
    &&& r.move_src == move_src
    &&& !r.overwrite
}

/// Where a pane is.
#[derive(Debug)]
pub struct Place {
    pub backend: Backend,
    pub dir: String,
}

/// What came of a command: a request for the queue, or what the user is told.
pub enum Outcome {
    Start(TransferRequest),
    Tell(&'static str),
    Nothing,
}

/// Whether `r` is what copying or moving the selection comes to.
pub open spec fn transfer_started(
    r: Outcome,
    src: Place,
    dst: Place,
    items: Seq<FsEntry>,
    move_src: bool,
) -> bool {
    if items.len() == 0 {
        r matches Outcome::Tell(m) && m@ == "Nothing selected"@
    } else if src.backend == dst.backend && src.dir@ == dst.dir@ {
        r matches Outcome::Tell(m) && m@ == "Source and destination are the same directory"@
    } else {
        r matches Outcome::Start(q) && requests(
            q,
            src.backend,
            dst.backend,
            items,
            dst.dir@,
            move_src,
        )
    }
}

/// Whether `r` is what dropping entries into a pane comes to.
pub open spec fn dropped(r: Outcome, src: Backend, items: Seq<FsEntry>, dst: Place) -> bool {
    if items.len() == 0 {
        r is Nothing
    } else if src == dst.backend {
        r matches Outcome::Tell(m) && m@ == "Source and destination are the same"@
    } else {
        r matches Outcome::Start(q) && requests(q, src, dst.backend, items, dst.dir@, false)
    }
}

/// Copies or moves the selection to the other pane.
pub fn start_transfer(src: &Place, dst: &Place, items: Vec<FsEntry>, move_src: bool) -> (r: Outcome)
    ensures
        transfer_started(r, *src, *dst, items@, move_src),
{
    if items.len() == 0 {
        return Outcome::Tell("Nothing selected");
    }
    if src.backend == dst.backend && same(src.dir.as_str(), dst.dir.as_str()) {
        return Outcome::Tell("Source and destination are the same directory");
    }
    Outcome::Start(
        TransferRequest {
            src_backend: src.backend,
            dst_backend: dst.backend,
            items,
            dst_dir: dst.dir.clone(),
            move_src,
            overwrite: false,
        },
    )
}

/// Copies dropped entries into a pane's directory.
pub fn transfer_into(src_backend: Backend, items: Vec<FsEntry>, dst: &Place) -> (r: Outcome)
    ensures
        dropped(r, src_backend, items@, *dst),
{
    if items.len() == 0 {
        return Outcome::Nothing;
    }
    if src_backend == dst.backend {
        return Outcome::Tell("Source and destination are the same");
    }
    Outcome::Start(
        TransferRequest {
            src_backend,
            dst_backend: dst.backend,
            items,
            dst_dir: dst.dir.clone(),
            move_src: false,
            overwrite: false,
        },
    )
}

/// Entries in words: the only one by its name in quotes, else their number.
pub open spec fn entries_text(items: Seq<FsEntry>) -> Seq<char> {
    if items.len() == 1 {
        "\u{201c}"@ + items[0].name@ + "\u{201d}"@
    } else {
        decimal(items.len()) + " items"@
    }
}

/// What is asked before entries are deleted.
pub open spec fn delete_question(items: Seq<FsEntry>) -> Seq<char> {
    "Permanently delete "@ + entries_text(items) + "?"@
}

/// What the user is told of entries that were marked.
pub open spec fn clip_text(items: Seq<FsEntry>, cut: bool) -> Seq<char> {
    entries_text(items) + " ready to "@ + (if cut {
        "move \u{2014} paste somewhere"@
    } else {
        "copy \u{2014} paste somewhere"@
    })
}

/// One entry is told of by its name and more by their number, before they are
/// deleted as after they were marked; what was cut is to be moved, and what was
/// copied to be copied.
pub proof fn law_entries_told(items: Seq<FsEntry>, cut: bool)
    ensures
        items.len() == 1 ==> entries_text(items) == "\u{201c}"@ + items[0].name@ + "\u{201d}"@,
        items.len() != 1 ==> entries_text(items) == decimal(items.len()) + " items"@,
        delete_question(items) == "Permanently delete "@ + entries_text(items) + "?"@,
        clip_text(items, true) == entries_text(items) + " ready to "@
            + "move \u{2014} paste somewhere"@,
        clip_text(items, false) == entries_text(items) + " ready to "@
            + "copy \u{2014} paste somewhere"@,
{
}

fn name_entries(items: &Vec<FsEntry>) -> (r: String)
    ensures
        r@ == entries_text(items@),
{
    if items.len() == 1 {
        let mut s = "\u{201c}".to_owned();
        s.append(items[0].name.as_str());
        s.append("\u{201d}");
        s
    } else {
        let mut s = to_decimal(items.len() as u64);
        s.append(" items");
        s
    }
}

/// What is asked before entries are deleted.
pub fn delete_body(items: &Vec<FsEntry>) -> (r: String)
    ensures
        r@ == delete_question(items@),
{
    let mut s = "Permanently delete ".to_owned();
    s.append(name_entries(items).as_str());
    s.append("?");
    s
}

/// Files marked by Copy/Cut, pasted into a pane later.
pub struct Clipboard {
    pub backend: Backend,
    /// Directory the items were copied from (same-dir pastes are no-ops).
    pub dir: String,
    pub items: Vec<FsEntry>,
    pub cut: bool,
}

/// What the user is told of entries that were marked.
pub fn clip_message(items: &Vec<FsEntry>, cut: bool) -> (r: String)
    ensures
        r@ == clip_text(items@, cut),
{
    let mut s = name_entries(items);
    s.append(" ready to ");
    s.append(
        if cut {
            "move \u{2014} paste somewhere"
        } else {
            "copy \u{2014} paste somewhere"
        },
    );
    s
}

/// What pasting does.
pub enum Paste {
    Tell(&'static str),
    /// Same backend: a rename is instant. Whatever cannot be renamed falls
    /// back to a move job, for conflict prompts and progress.
    Rename { backend: Backend, items: Vec<FsEntry>, dst_dir: String },
    Start(TransferRequest),
}

/// Whether `r` is what pasting comes to, and `after` the clipboard then.
pub open spec fn pasted(
    before: Option<Clipboard>,
    after: Option<Clipboard>,
    r: Paste,
    source_gone: bool,
    dst: Place,
) -> bool {
    match before {
        None => (r matches Paste::Tell(m) && m@ == "Nothing to paste"@) && after is None,
        Some(clip) => if source_gone {
            &&& r matches Paste::Tell(m)
            &&& m@ == "The connection the files were copied from is closed"@
            &&& after is None
        } else if clip.backend == dst.backend && clip.dir@ == dst.dir@ {
            &&& r matches Paste::Tell(m)
            &&& m@ == "Source and destination are the same directory"@
            &&& after == before
        } else {
            &&& (after is None) == clip.cut
            &&& !clip.cut ==> after == before
            &&& if clip.cut && clip.backend == dst.backend {
                &&& r matches Paste::Rename { backend, items, dst_dir }
                &&& backend == clip.backend
                &&& items@ == clip.items@
                &&& dst_dir@ == dst.dir@
            } else {
                &&& r matches Paste::Start(q)
                &&& requests(q, clip.backend, dst.backend, clip.items@, dst.dir@, clip.cut)
            }
        },
    }
}

/// Pastes into a pane. `source_gone` tells that the session the files were
/// copied from is closed. What was cut is pasted once.
pub fn paste_into(clipboard: &mut Option<Clipboard>, source_gone: bool, dst: &Place) -> (r: Paste)
    ensures
        pasted(*old(clipboard), *final(clipboard), r, source_gone, *dst),
{
    let step = match clipboard {
        None => return Paste::Tell("Nothing to paste"),
        Some(clip) => {
            if !source_gone && clip.backend == dst.backend && same(
                clip.dir.as_str(),
                dst.dir.as_str(),
            ) {
                return Paste::Tell("Source and destination are the same directory");
            }
            let items = copy_entries(&clip.items);
            let dst_dir = dst.dir.clone();
            if source_gone {
                None
            } else if clip.cut && clip.backend == dst.backend {
                Some((Paste::Rename { backend: clip.backend, items, dst_dir }, clip.cut))
            } else {
                Some(
                    (
                        Paste::Start(
                            TransferRequest {
                                src_backend: clip.backend,
                                dst_backend: dst.backend,
                                items,
                                dst_dir,
                                move_src: clip.cut,
                                overwrite: false,
                            },
                        ),
                        clip.cut,
                    ),
                )
            }
        },
    };
    match step {
        None => {
            *clipboard = None;
            Paste::Tell("The connection the files were copied from is closed")
        },
        Some((paste, cut)) => {
            if cut {
                *clipboard = None;
            }
            paste
        },
    }
}

/// Whether an item is left over for a move job.
pub open spec fn left_over(target_exists: bool, renamed: bool) -> bool {
    target_exists || !renamed
}

/// Whether an item is left over for a move job: its target exists, which is
/// never overwritten silently, or it could not be renamed.
pub fn is_left_over(target_exists: bool, renamed: bool) -> (r: bool)
    ensures
        r == left_over(target_exists, renamed),
{
    target_exists || !renamed
}

/// Whether `r` is the job for what could not be renamed.
pub open spec fn moves_rest(
    r: Option<TransferRequest>,
    backend: Backend,
    leftover: Seq<FsEntry>,
    dst_dir: Seq<char>,
) -> bool {
    &&& (r is None) == (leftover.len() == 0)
    &&& r matches Some(q) ==> requests(q, backend, backend, leftover, dst_dir, true)
}

/// What could not be renamed is moved within its place, all of it, with
/// existing files asked about; there is no job where nothing is left over.
pub proof fn law_moves_rest(
    r: Option<TransferRequest>,
    backend: Backend,
    leftover: Seq<FsEntry>,
    dst_dir: Seq<char>,
)
    requires
        moves_rest(r, backend, leftover, dst_dir),
    ensures
        leftover.len() > 0 ==> r is Some && r->0.items@ == leftover && r->0.move_src
            && !r->0.overwrite && r->0.dst_dir@ == dst_dir && r->0.src_backend == backend
            && r->0.dst_backend == backend,
        leftover.len() == 0 ==> r is None,
{
}

/// The job for what could not be renamed.
pub fn move_rest(backend: Backend, leftover: Vec<FsEntry>, dst_dir: &str) -> (r: Option<
    TransferRequest,
>)
    ensures
        moves_rest(r, backend, leftover@, dst_dir@),
{
    if leftover.len() == 0 {
        return None;
    }
    Some(
        TransferRequest {
            src_backend: backend,
            dst_backend: backend,
            items: leftover,
            dst_dir: dst_dir.to_owned(),
            move_src: true,
            overwrite: false,
        },
    )
}

/// Where an entry goes when it is renamed, and the directory that changes.
pub open spec fn renamed_to(path: Seq<char>, name: Seq<char>, new_name: Seq<char>) -> Option<
    (Seq<char>, Seq<char>),
> {
    if new_name == name {
        None
    } else {
        Some((parent_path(path), joined(parent_path(path), new_name)))
    }
}

/// The directory that was entered, unless it is the current one.
pub open spec fn copy_target(entered: Seq<char>, current: Seq<char>) -> Option<Seq<char>> {
    if trimmed(entered).len() == 0 || trimmed(entered) == current {
        None
    } else {
        Some(trimmed(entered))
    }
}

/// The path and the target of a new symlink to `name`.
pub open spec fn new_link(name: Seq<char>, entered: Seq<char>, dir: Seq<char>) -> Option<
    (Seq<char>, Seq<char>),
> {
    if trimmed(entered).len() == 0 || trimmed(entered) == name {
        None
    } else {
        Some((joined(dir, trimmed(entered)), name))
    }
}

/// Where an entry goes when it is renamed, and the directory that changes;
/// `None` when its name stays.
pub fn rename_target(entry: &FsEntry, new_name: &str) -> (r: Option<(String, String)>)
    ensures
        match r {
            Some((dir, to)) => renamed_to(entry.path@, entry.name@, new_name@) == Some(
                (dir@, to@),
            ),
            None => renamed_to(entry.path@, entry.name@, new_name@) is None,
        },
{
    if same(new_name, entry.name.as_str()) {
        return None;
    }
    let dir = parent(entry.path.as_str());
    let to = join(dir.as_str(), new_name);
    Some((dir, to))
}

/// The directory to copy to; `None` where that is the current one.
pub fn copy_to_dir(entered: &str, current: &str) -> (r: Option<String>)
    ensures
        opt_text(r) == copy_target(entered@, current@),
{
    let dir = trim(entered);
    if dir.as_str().unicode_len() == 0 || same(dir.as_str(), current) {
        None
    } else {
        Some(dir)
    }
}

/// A new symlink's path and target; `None` where its name is empty or that
/// of the entry. Both are in one directory, so that a relative target is the
/// most portable thing to store.
pub fn symlink_paths(entry: &FsEntry, entered: &str, dir: &str) -> (r: Option<(String, String)>)
    ensures
        match r {
            Some((link, target)) => new_link(entry.name@, entered@, dir@) == Some((link@, target@)),
            None => new_link(entry.name@, entered@, dir@) is None,
        },
{
    let name = trim(entered);
    if name.as_str().unicode_len() == 0 || same(name.as_str(), entry.name.as_str()) {
        return None;
    }
    Some((join(dir, name.as_str()), entry.name.clone()))
}

/// What the tree becomes when a site is saved: the site is updated where it
/// is, or appended to the folder `parent_id` (the root when unknown).
pub open spec fn site_saved(t: FolderView, site: Site, parent_id: Seq<char>) -> FolderView {
    if first_site(t, site.id@) is Some {
        site_updated(t, site)
    } else {
        let target = folder_or_root(t, parent_id);
        with_folder_or_root(
            t,
            parent_id,
            FolderView { sites: target.sites.push(site), ..target },
        )
    }
}

/// Create or update a site under `parent_id` (empty = root).
pub fn save_site(root: &mut Folder, site: Site, parent_id: &str)
    ensures
        final(root)@ == site_saved(old(root)@, site, parent_id@),
{
    if !root.update_site(site.clone()) {
        root.folder_or_root_mut(parent_id).sites.push(site);
    }
}

/// A saved site is found by its id, as it was saved, and the tree has one site
/// more where no site had that id before.
pub proof fn law_saved_site_found(t: FolderView, site: Site, parent_id: Seq<char>)
    ensures
        first_site(site_saved(t, site, parent_id), site.id@) == Some(site),
        sites_of(site_saved(t, site, parent_id)).len() == sites_of(t).len() + (if first_site(
            t,
            site.id@,
        ) is Some {
            0int
        } else {
            1
        }),
{
    if first_site(t, site.id@) is Some {
        crate::tree_laws::law_update_site(t, site);
    } else {
        crate::tree_laws::law_put_site(t, site, parent_id);
    }
}

/// Appends a new folder to `parent_id` (the root when unknown). Returns
/// whether it was: a blank name makes none.
pub fn add_folder(root: &mut Folder, parent_id: &str, name: &str) -> (r: bool)
    ensures
        r == (trimmed(name@).len() > 0),
        !r ==> final(root)@ == old(root)@,
        r ==> exists|id: Seq<char>|
            is_random_id(id) && final(root)@ == #[trigger] folder_added(
                old(root)@,
                parent_id@,
                id,
                trimmed(name@),
            ),
{
    let name = trim(name);
    if name.as_str().unicode_len() == 0 {
        return false;
    }
    let folder = Folder::new(name.as_str());
    let ghost id = folder@.id;
    assert(folder@.folders =~= seq![]);
    assert(folder@.sites =~= seq![]);
    assert(folder@ == (FolderView { id, name: name@, folders: seq![], sites: seq![] }));
    let target = root.folder_or_root_mut(parent_id);
    let ghost before = *target;
    target.folders.push(folder);
    assert(target@.folders =~= before@.folders.push(folder@));
    assert(target@ =~= (FolderView { folders: before@.folders.push(folder@), ..before@ }));
    proof {
        assert(root@ == folder_added(old(root)@, parent_id@, id, name@));
    }
    true
}

/// What the tree becomes when an empty folder is appended.
pub open spec fn folder_added(
    t: FolderView,
    parent_id: Seq<char>,
    id: Seq<char>,
    name: Seq<char>,
) -> FolderView {
    let target = folder_or_root(t, parent_id);
    with_folder_or_root(
        t,
        parent_id,
        FolderView {
            folders: target.folders.push(
                FolderView { id, name, folders: seq![], sites: seq![] },
            ),
            ..target
        },
    )
}

/// The ids of sites.
pub open spec fn site_ids(sites: Seq<Site>) -> Seq<Seq<char>> {
    Seq::new(sites.len(), |i: int| sites[i].id@)
}

/// The sites whose secrets go when a folder is deleted.
pub open spec fn secrets_of(root: FolderView, id: Seq<char>) -> Seq<Seq<char>> {
    match find(root, id) {
        Some(f) => site_ids(sites_of(f)),
        None => seq![],
    }
}

/// The secret of every site in a folder goes with it, also of those further
/// down, and no other. No secret goes for a folder that is not there.
pub proof fn law_secrets_of(root: FolderView, id: Seq<char>, i: int)
    ensures
        find(root, id) matches Some(f) ==> {
            &&& secrets_of(root, id).len() == sites_of(f).len()
            &&& 0 <= i < sites_of(f).len() ==> secrets_of(root, id)[i] == sites_of(f)[i].id@
        },
        find(root, id) is None ==> secrets_of(root, id).len() == 0,
{
}

/// The sites whose secrets go when a folder is deleted: all inside it.
pub fn secrets_in_folder(root: &Folder, id: &str) -> (r: Vec<String>)
    ensures
        texts(r@) == secrets_of(root@, id@),
{
    let mut out: Vec<String> = Vec::new();
    let folder = match root.find_folder(id) {
        Some(f) => f,
        None => {
            assert(texts(out@) =~= seq![]);
            return out;
        },
    };
    let sites = folder.all_sites();
    let mut i: usize = 0;
    while i < sites.len()
        invariant
            i <= sites@.len() == sites_of(folder@).len(),
            forall|k: int| 0 <= k < sites@.len() ==> *#[trigger] sites@[k] == sites_of(folder@)[k],
            texts(out@) == site_ids(sites_of(folder@)).take(i as int),
        decreases sites@.len() - i,
    {
        let ghost before = out@;
        out.push(sites[i].id.clone());
        assert(*sites@[i as int] == sites_of(folder@)[i as int]);
        assert(texts(out@) =~= texts(before).push(sites_of(folder@)[i as int].id@));
        assert(site_ids(sites_of(folder@)).take(i + 1) =~= site_ids(sites_of(folder@)).take(
            i as int,
        ).push(sites_of(folder@)[i as int].id@));
        i += 1;
    }
    assert(site_ids(sites_of(folder@)).take(i as int) =~= site_ids(sites_of(folder@)));
    out
}

/// The spec for a saved site and whether its secret is to be looked up.
pub fn spec_for_site(root: &Folder, id: &str) -> (r: Option<(ConnectSpec, bool)>)
    ensures
        match r {
            Some((spec, secret)) => exists|site: Site|
                #![trigger site_found(sites_of(root@), id@, Some(site))]
                {
                    &&& site_found(sites_of(root@), id@, Some(site))
                    &&& secret == site.has_secret
                    &&& is_spec_of(spec, site)
                },
            None => site_found(sites_of(root@), id@, None),
        },
{
    match site_by_id(root, id) {
        Some(site) => {
            let spec = site.to_spec();
            let secret = site.has_secret;
            Some((spec, secret))
        },
        None => None,
    }
}

/// What a connected pane is labelled with.
pub open spec fn label_of(spec: ConnectSpec) -> Seq<char> {
    if spec.elevation == Elevation::Plain {
        spec.host@
    } else {
        "root@"@ + spec.host@
    }
}

/// Whether `site` is what a live session is saved as, and `update` what
/// becomes of its secret.
pub open spec fn bookmarked(
    site: Site,
    update: SecretUpdate,
    spec: ConnectSpec,
    dir: Seq<char>,
) -> bool {
    &&& is_random_id(site.id@)
    &&& site.name@ == spec.host@
    &&& site.host@ == spec.host@
    &&& site.port == spec.port
    &&& site.user == spec.user
    &&& site.auth == spec.auth
    &&& site.identity_file == spec.identity_file
    &&& site.elevation == spec.elevation
    &&& opt_text(site.remote_dir) == Some(dir)
    &&& site.has_secret == (non_empty(spec.secret) is Some)
    &&& match non_empty(spec.secret) {
        Some(value) => update matches SecretUpdate::Store(s) && s@ == value,
        None => update is Clear,
    }
}

/// What a notification on a finished transfer says.
pub open spec fn completion_text(snap: TransferSnapshot, success: bool) -> Seq<char> {
    if success {
        snap.title@ + " \u{2014} "@ + size_text(snap.total_bytes as nat)
    } else {
        match snap.error {
            Some(e) => e@,
            None => snap.title@,
        }
    }
}

/// What a connected pane is labelled with.
pub fn session_label(spec: &ConnectSpec) -> (r: String)
    ensures
        r@ == label_of(*spec),
{
    if spec.elevation == Elevation::Plain {
        return spec.host.clone();
    }
    let mut s = "root@".to_owned();
    s.append(spec.host.as_str());
    s
}

/// The site for a live session and its current directory, and what becomes
/// of its secret: the one in use is stored.
pub fn bookmark_site(spec: &ConnectSpec, dir: &str) -> (r: (Site, SecretUpdate))
    ensures
        bookmarked(r.0, r.1, *spec, dir@),
{
    let mut site = Site::new(spec.host.as_str(), spec.host.as_str());
    site.port = spec.port;
    site.user = copy_opt(&spec.user);
    site.auth = spec.auth;
    site.identity_file = copy_opt(&spec.identity_file);
    site.elevation = spec.elevation;
    site.remote_dir = Some(dir.to_owned());
    let secret = match &spec.secret {
        Some(value) => if value.as_str().unicode_len() > 0 {
            SecretUpdate::Store(value.clone())
        } else {
            SecretUpdate::Clear
        },
        None => SecretUpdate::Clear,
    };
    site.has_secret = matches!(secret, SecretUpdate::Store(_));
    (site, secret)
}

/// What a notification on a finished transfer says.
pub fn completion_detail(snap: &TransferSnapshot, success: bool) -> (r: String)
    ensures
        r@ == completion_text(*snap, success),
{
    if success {
        let mut s = snap.title.clone();
        s.append(" \u{2014} ");
        s.append(format_size(snap.total_bytes).as_str());
        return s;
    }
    match &snap.error {
        Some(e) => e.clone(),
        None => snap.title.clone(),
    }
}

/// What `shell_words::quote` makes of a text.
pub uninterp spec fn shell_word_quoted(s: Seq<char>) -> Seq<char>;

/// `shell_words::quote`: the text as one word of a command line, which
/// `shell_words::split` reads back as that text alone. A function of the text
/// alone; how it is quoted is left open.
#[verifier::external_body]
fn quote_word(s: &str) -> (r: String)
    ensures
        r@ == shell_word_quoted(s@),
        shell_words_of(r@) == Some(seq![s@]),
{
    shell_words::quote(s).into_owned()
}

/// The command that a remote terminal runs, given the quoted directory.
pub open spec fn terminal_command(quoted_dir: Seq<char>) -> Seq<char> {
    "cd "@ + quoted_dir + " 2>/dev/null; exec \"$SHELL\" -l"@
}

/// The arguments of ssh for a remote terminal, given the quoted directory.
pub open spec fn terminal_arg_list(host: Seq<char>, quoted_dir: Seq<char>) -> Seq<Seq<char>> {
    seq!["-t"@, host, "--"@, terminal_command(quoted_dir)]
}

/// A remote terminal is opened on the host, with a terminal of its own, and
/// what runs there first goes to the directory and then stays in a login shell,
/// also where the directory is gone.
pub proof fn law_terminal_args(host: Seq<char>, quoted_dir: Seq<char>)
    ensures
        ({
            let args = terminal_arg_list(host, quoted_dir);
            &&& args.len() == 4
            &&& args[0] == "-t"@ && args[1] == host && args[2] == "--"@
            &&& has_prefix(args[3], "cd "@ + quoted_dir)
            &&& has_suffix(args[3], "; exec \"$SHELL\" -l"@)
        }),
{
    let command = terminal_command(quoted_dir);
    let head = "cd "@ + quoted_dir;
    assert(command.subrange(0, head.len() as int) =~= head);
    reveal_strlit(" 2>/dev/null; exec \"$SHELL\" -l");
    reveal_strlit("; exec \"$SHELL\" -l");
    let end = "; exec \"$SHELL\" -l"@;
    let whole = " 2>/dev/null; exec \"$SHELL\" -l"@;
    assert(whole.subrange(whole.len() - end.len(), whole.len() as int) =~= end);
    assert forall|i: int| 0 <= i < end.len() implies command.subrange(
        command.len() - end.len(),
        command.len() as int,
    )[i] == end[i] by {
        assert(whole.subrange(whole.len() - end.len(), whole.len() as int)[i] == end[i]);
    }
    assert(command.subrange(command.len() - end.len(), command.len() as int) =~= end);
}

/// The arguments of ssh for a remote terminal, given the quoted directory.
pub fn terminal_args_for(host: &str, quoted_dir: &str) -> (r: Vec<String>)
    ensures
        texts(r@) == terminal_arg_list(host@, quoted_dir@),
{
    let mut command = "cd ".to_owned();
    command.append(quoted_dir);
    command.append(" 2>/dev/null; exec \"$SHELL\" -l");
    let mut args: Vec<String> = Vec::new();
    args.push("-t".to_owned());
    args.push(host.to_owned());
    args.push("--".to_owned());
    args.push(command);
    assert(texts(args@) =~= seq!["-t"@, host@, "--"@, terminal_command(quoted_dir@)]);
    args
}

/// The arguments of ssh for a terminal in a remote directory, which stands in
/// the command as one word, whatever it holds.
pub fn terminal_args(host: &str, dir: &str) -> (r: Vec<String>)
    ensures
        texts(r@) == terminal_arg_list(host@, shell_word_quoted(dir@)),
        shell_words_of(shell_word_quoted(dir@)) == Some(seq![dir@]),
{
    let quoted = quote_word(dir);
    terminal_args_for(host, quoted.as_str())
}

/// A terminal emulator, and the argument that precedes a command in it.
#[derive(Debug)]
pub struct Terminal {
    pub program: String,
    pub exec_flag: &'static str,
}

/// The known terminal emulators, in order of preference.
pub open spec fn known_terminal(i: int) -> (Seq<char>, Seq<char>) {
    if i == 0 {
        ("kgx"@, "-e"@)
    } else if i == 1 {
        ("gnome-terminal"@, "--"@)
    } else if i == 2 {
        ("ptyxis"@, "--"@)
    } else if i == 3 {
        ("konsole"@, "-e"@)
    } else if i == 4 {
        ("xterm"@, "-e"@)
    } else if i == 5 {
        ("alacritty"@, "-e"@)
    } else {
        ("kitty"@, ""@)
    }
}

/// How many terminal emulators are known.
pub const TERMINALS: usize = 7;

/// One of the known terminal emulators.
pub fn candidate(i: usize) -> (r: (&'static str, &'static str))
    requires
        i < TERMINALS,
    ensures
        (r.0@, r.1@) == known_terminal(i as int),
{
    if i == 0 {
        ("kgx", "-e")
    } else if i == 1 {
        ("gnome-terminal", "--")
    } else if i == 2 {
        ("ptyxis", "--")
    } else if i == 3 {
        ("konsole", "-e")
    } else if i == 4 {
        ("xterm", "-e")
    } else if i == 5 {
        ("alacritty", "-e")
    } else {
        ("kitty", "")
    }
}

/// Whether `r` is the terminal to use.
pub open spec fn terminal_chosen(
    r: Option<Terminal>,
    configured: Option<Seq<char>>,
    configured_present: bool,
    present: Seq<bool>,
) -> bool {
    if configured is Some && configured_present {
        r matches Some(t) && t.program@ == configured->0 && t.exec_flag@ == "-e"@
    } else {
        match r {
            Some(t) => exists|i: int|
                #![trigger present[i]]
                0 <= i < TERMINALS && present[i] && (forall|k: int| 0 <= k < i ==> !present[k]) && (
                t.program@, t.exec_flag@) == known_terminal(i),
            None => forall|k: int| 0 <= k < TERMINALS ==> !present[k],
        }
    }
}

/// The arguments that make a terminal run ssh.
pub open spec fn terminal_line(exec_flag: Seq<char>, ssh_args: Seq<Seq<char>>) -> Seq<Seq<char>> {
    (if exec_flag.len() > 0 {
        seq![exec_flag]
    } else {
        seq![]
    }) + seq!["ssh"@] + ssh_args
}

/// The terminal to use: a configured one that is there, else the first known
/// one that is. `present` tells of each known one whether it is there.
pub fn choose_terminal(configured: Option<&str>, configured_present: bool, present: &Vec<bool>) -> (r:
    Option<Terminal>)
    requires
        present@.len() == TERMINALS,
    ensures
        terminal_chosen(
            r,
            match configured {
                Some(c) => Some(c@),
                None => None,
            },
            configured_present,
            present@,
        ),
{
    if configured_present {
        if let Some(c) = configured {
            return Some(Terminal { program: c.to_owned(), exec_flag: "-e" });
        }
    }
    let mut i: usize = 0;
    while i < TERMINALS
        invariant
            i <= TERMINALS == present@.len(),
            !(configured is Some && configured_present),
            forall|k: int| 0 <= k < i ==> !present@[k],
        decreases TERMINALS - i,
    {
        if present[i] {
            let (program, exec_flag) = candidate(i);
            assert(present@[i as int]);
            return Some(Terminal { program: program.to_owned(), exec_flag });
        }
        i += 1;
    }
    None
}

/// The arguments that make a terminal run ssh.
pub fn terminal_command_line(exec_flag: &str, ssh_args: &Vec<String>) -> (r: Vec<String>)
    ensures
        texts(r@) == terminal_line(exec_flag@, texts(ssh_args@)),
{
    let mut args: Vec<String> = Vec::new();
    if exec_flag.unicode_len() > 0 {
        args.push(exec_flag.to_owned());
    }
    args.push("ssh".to_owned());
    let mut rest = crate::types::copy_texts(ssh_args);
    args.append(&mut rest);
    assert(texts(args@) =~= (if exec_flag@.len() > 0 {
        seq![exec_flag@]
    } else {
        seq![]
    }) + seq!["ssh"@] + texts(ssh_args@));
    args
}

/// Which items of the context menu can be used.
#[derive(Debug, Clone, Copy, PartialEq, Eq, Structural)]
pub struct MenuState {
    /// Copy, cut, copy to, delete and properties.
    pub on_selection: bool,
    /// Rename and new symlink.
    pub on_single: bool,
    pub paste: bool,
}

/// What the context menu offers.
pub open spec fn menu_of(selected: nat, has_clipboard: bool) -> MenuState {
    MenuState { on_selection: selected > 0, on_single: selected == 1, paste: has_clipboard }
}

/// What the context menu offers.
pub fn menu_state(selected: usize, has_clipboard: bool) -> (r: MenuState)
    ensures
        r == menu_of(selected as nat, has_clipboard),
{
    MenuState { on_selection: selected > 0, on_single: selected == 1, paste: has_clipboard }
}

/// The keys that mean something to the main window.
#[derive(Debug, Clone, Copy, PartialEq, Eq, Structural)]
pub enum KeyCode {
    F2,
    F5,
    F6,
    F7,
    F8,
    F9,
    Delete,
    Tab,
    C,
    X,
    V,
    H,
    R,
    L,
    T,
    Other,
}

/// What a key does.
#[derive(Debug, Clone, Copy, PartialEq, Eq, Structural)]
pub enum Command {
    Copy,
    Move,
    NewDirectory,
    Rename,
    Delete,
    Properties,
    SwitchPane,
    ClipCopy,
    ClipCut,
    Paste,
    ToggleHidden,
    Refresh,
    EditPath,
    Terminal,
}

/// What a key does, with Ctrl or without, while a text is edited or not.
/// `plain` tells that no modifier is held. Keys that are typed into a text
/// are not taken from it.
pub open spec fn command_of(key: KeyCode, ctrl: bool, plain: bool, editing: bool) -> Option<
    Command,
> {
    match key {
        KeyCode::F5 => if editing { None } else { Some(Command::Copy) },
        KeyCode::F6 => if editing { None } else { Some(Command::Move) },
        KeyCode::F7 => if editing { None } else { Some(Command::NewDirectory) },
        KeyCode::F2 => if editing { None } else { Some(Command::Rename) },
        KeyCode::F8 | KeyCode::Delete => if editing { None } else { Some(Command::Delete) },
        KeyCode::F9 => if editing { None } else { Some(Command::Properties) },
        KeyCode::Tab => if plain && !editing { Some(Command::SwitchPane) } else { None },
        KeyCode::C => if ctrl && !editing { Some(Command::ClipCopy) } else { None },
        KeyCode::X => if ctrl && !editing { Some(Command::ClipCut) } else { None },
        KeyCode::V => if ctrl && !editing { Some(Command::Paste) } else { None },
        KeyCode::H => if ctrl { Some(Command::ToggleHidden) } else { None },
        KeyCode::R => if ctrl { Some(Command::Refresh) } else { None },
        KeyCode::L => if ctrl { Some(Command::EditPath) } else { None },
        KeyCode::T => if ctrl { Some(Command::Terminal) } else { None },
        KeyCode::Other => None,
    }
}

/// The command that a key stands for.
pub fn key_command(key: KeyCode, ctrl: bool, plain: bool, editing: bool) -> (r: Option<Command>)
    ensures
        r == command_of(key, ctrl, plain, editing),
{
    match key {
        KeyCode::F5 if !editing => Some(Command::Copy),
        KeyCode::F6 if !editing => Some(Command::Move),
        KeyCode::F7 if !editing => Some(Command::NewDirectory),
        KeyCode::F2 if !editing => Some(Command::Rename),
        KeyCode::F8 if !editing => Some(Command::Delete),
        KeyCode::Delete if !editing => Some(Command::Delete),
        KeyCode::F9 if !editing => Some(Command::Properties),
        KeyCode::Tab if !editing && plain => Some(Command::SwitchPane),
        KeyCode::C if ctrl && !editing => Some(Command::ClipCopy),
        KeyCode::X if ctrl && !editing => Some(Command::ClipCut),
        KeyCode::V if ctrl && !editing => Some(Command::Paste),
        KeyCode::H if ctrl => Some(Command::ToggleHidden),
        KeyCode::R if ctrl => Some(Command::Refresh),
        KeyCode::L if ctrl => Some(Command::EditPath),
        KeyCode::T if ctrl => Some(Command::Terminal),
        _ => None,
    }
}

/// Without Ctrl, no key is taken from a text that is edited.
pub proof fn law_typing_undisturbed(key: KeyCode, plain: bool)
    ensures
        command_of(key, false, plain, true) is None,
{
}

/// The width of the tab strip.
pub open spec fn strip_of(tabs: int) -> int {
    if tabs < 1 {
        200
    } else if tabs * 200 > 640 {
        640
    } else {
        tabs * 200
    }
}

/// The width of the tab strip: a fixed pitch per tab, up to a limit.
pub fn strip_width(tabs: i32) -> (r: i32)
    ensures
        r == strip_of(tabs as int),
{
    let n: i32 = if tabs < 1 {
        1
    } else {
        tabs
    };
    if n > 3 {
        640
    } else {
        n * 200
    }
}

/// A selection is transferred unless it is empty, or would stay where it is:
/// the same directory of the same place. The same directory of another place
/// is another one. All of the selection goes, to the other pane's directory,
/// as a move or a copy as asked, and existing files are asked about.
pub proof fn law_transfer_started(
    r: Outcome,
    src: Place,
    dst: Place,
    items: Seq<FsEntry>,
    move_src: bool,
)
    requires
        transfer_started(r, src, dst, items, move_src),
    ensures
        r is Start <==> items.len() > 0 && (src.backend != dst.backend || src.dir@ != dst.dir@),
        !(r is Nothing),
        r matches Outcome::Start(q) ==> {
            &&& q.items@ == items && q.dst_dir@ == dst.dir@
            &&& q.src_backend == src.backend && q.dst_backend == dst.backend
            &&& q.move_src == move_src && !q.overwrite
        },
{
}

/// Dropped entries are copied, never moved, and only to another place.
pub proof fn law_dropped(r: Outcome, src: Backend, items: Seq<FsEntry>, dst: Place)
    requires
        dropped(r, src, items, dst),
    ensures
        r is Start <==> items.len() > 0 && src != dst.backend,
        r is Nothing <==> items.len() == 0,
        r matches Outcome::Start(q) ==> {
            &&& q.items@ == items && q.dst_dir@ == dst.dir@
            &&& q.src_backend == src && q.dst_backend == dst.backend
            &&& !q.move_src && !q.overwrite
        },
{
}

/// What was marked can be pasted: what was cut once, after which the clipboard
/// is empty, and what was copied any number of times. Where it came from the
/// very directory it is pasted into nothing happens, and it stays marked. Where
/// its session is closed it is lost. Otherwise all of it goes: as a rename when
/// it was cut and stays in one place, and else by a transfer, which moves it
/// exactly when it was cut.
pub proof fn law_pasted(
    before: Option<Clipboard>,
    after: Option<Clipboard>,
    r: Paste,
    source_gone: bool,
    dst: Place,
)
    requires
        pasted(before, after, r, source_gone, dst),
    ensures
        before is None ==> r is Tell && after is None,
        before matches Some(clip) ==> {
            let here = clip.backend == dst.backend && clip.dir@ == dst.dir@;
            &&& r is Tell <==> source_gone || here
            &&& source_gone ==> after is None
            &&& !source_gone && (here || !clip.cut) ==> after == before
            &&& !source_gone && !here && clip.cut ==> after is None
            &&& r is Rename <==> !source_gone && !here && clip.cut && clip.backend == dst.backend
            &&& r matches Paste::Rename { backend, items, dst_dir } ==> backend == dst.backend
                && items@ == clip.items@ && dst_dir@ == dst.dir@
            &&& r matches Paste::Start(q) ==> {
                &&& q.move_src == clip.cut && !q.overwrite
                &&& q.items@ == clip.items@ && q.dst_dir@ == dst.dir@
                &&& q.src_backend == clip.backend && q.dst_backend == dst.backend
            }
        },
{
}

/// An item that was renamed is done, and every other is left to a move: one
/// whose target exists is never taken for renamed.
pub proof fn law_left_over(target_exists: bool, renamed: bool)
    ensures
        left_over(true, renamed),
        left_over(target_exists, false),
        !left_over(false, true),
{
}

/// Renaming keeps an entry in its directory under the name that was entered,
/// and is nothing to do only where that is the name it has.
pub proof fn law_renamed(dir: Seq<char>, name: Seq<char>, new_name: Seq<char>)
    requires
        is_component(name),
        is_component(new_name),
        dir.len() > 0,
        dir.last() != '/' || dir == seq!['/'],
    ensures
        name == new_name ==> renamed_to(joined(dir, name), name, new_name) is None,
        name != new_name ==> renamed_to(joined(dir, name), name, new_name) == Some(
            (dir, joined(dir, new_name)),
        ),
{
    law_join_parent(dir, name);
}

/// What is typed as a directory counts without the white space round it. The
/// current directory and nothing at all are no destination; anything else is.
pub proof fn law_copy_target(entered: Seq<char>, current: Seq<char>)
    ensures
        copy_target(entered, current) is Some <==> trimmed(entered).len() > 0 && trimmed(entered)
            != current,
        copy_target(entered, current) is Some ==> copy_target(entered, current)->0 == trimmed(
            entered,
        ),
        copy_target(trimmed(entered), current) == copy_target(entered, current),
{
    law_trimmed_again(entered);
}

/// A new symlink lies in the directory at hand under the name that was entered,
/// and points at the entry beside it by its bare name. There is none for a
/// blank name, nor in place of the entry itself.
pub proof fn law_new_link(name: Seq<char>, entered: Seq<char>, dir: Seq<char>)
    ensures
        new_link(name, entered, dir) is Some <==> trimmed(entered).len() > 0 && trimmed(entered)
            != name,
        new_link(name, entered, dir) matches Some((link, target)) ==> target == name && link
            == joined(dir, trimmed(entered)) && (is_component(trimmed(entered)) ==> base_name(link)
            == trimmed(entered)),
{
    if is_component(trimmed(entered)) {
        law_join_file_name(dir, trimmed(entered));
    }
}

/// A site that is saved anew stands last in the folder it was saved to, and no
/// other site moves; one that was there before is replaced where it stands,
/// whatever folder is named.
pub proof fn law_saved_site_place(t: FolderView, site: Site, parent_id: Seq<char>)
    ensures
        first_site(t, site.id@) is None ==> {
            let there = find(site_saved(t, site, parent_id), folder_or_root(t, parent_id).id);
            there is Some && there->0.sites == folder_or_root(t, parent_id).sites.push(site)
        },
        first_site(t, site.id@) is Some ==> sites_of(site_saved(t, site, parent_id)) == sites_of(
            t,
        ).update(site_pos(sites_of(t), site.id@, 0), site),
{
    if first_site(t, site.id@) is Some {
        crate::tree_laws::law_sites_in_place(t, site);
    } else {
        crate::tree_laws::law_put_site_last(t, site, parent_id);
    }
}

/// A new folder is empty, has the name it was given, and is found by its id
/// where no folder had that before. All sites and the other folders stay.
pub proof fn law_folder_added(
    t: FolderView,
    parent_id: Seq<char>,
    id: Seq<char>,
    name: Seq<char>,
)
    ensures
        ({
            let out = folder_added(t, parent_id, id, name);
            &&& crate::tree_laws::folder_ids(out) == crate::tree_laws::folder_ids(t).insert(id)
            &&& sites_of(out).to_multiset() == sites_of(t).to_multiset()
            &&& find(t, id) is None && folder_or_root(t, parent_id).id != id ==> find(out, id)
                is Some
            &&& ({
                let there = find(out, folder_or_root(t, parent_id).id);
                &&& there is Some
                &&& there->0.folders == folder_or_root(t, parent_id).folders.push(
                    FolderView { id, name, folders: seq![], sites: seq![] },
                )
            })
        }),
{
    let folder = FolderView { id, name, folders: seq![], sites: seq![] };
    crate::tree_laws::law_put_folder(t, folder, parent_id);
    crate::tree_laws::law_find_folder(folder_added(t, parent_id, id, name), id);
    crate::tree_laws::law_find_folder(t, id);
}

/// A session that was bookmarked connects again as it did: to the same host,
/// by the same port, as the same user and with the same key, elevated or not,
/// and opens the directory that was shown. Its secret, where it has one, is
/// stored, and the site says so exactly then.
pub proof fn law_bookmark_connects(
    site: Site,
    update: SecretUpdate,
    spec: ConnectSpec,
    dir: Seq<char>,
    again: ConnectSpec,
)
    requires
        bookmarked(site, update, spec, dir),
        is_spec_of(again, site),
    ensures
        again.host@ == spec.host@ && again.port == spec.port && again.auth == spec.auth,
        again.elevation == spec.elevation,
        opt_text(again.user) == non_empty(spec.user),
        opt_text(again.identity_file) == non_empty(spec.identity_file),
        dir.len() > 0 ==> opt_text(again.remote_dir) == Some(dir),
        site.has_secret <==> spec.secret is Some && spec.secret->0@.len() > 0,
        update matches SecretUpdate::Store(s) ==> spec.secret is Some && s@ == spec.secret->0@,
        update is Store <==> site.has_secret,
        update is Clear <==> !site.has_secret,
{
}

/// A pane is labelled by its host, and an elevated one as root's.
pub proof fn law_session_label(spec: ConnectSpec)
    ensures
        spec.elevation is Plain ==> label_of(spec) == spec.host@,
        !(spec.elevation is Plain) ==> label_of(spec) == "root@"@ + label_of(
            ConnectSpec { elevation: Elevation::Plain, ..spec },
        ),
{
}

/// A notification tells what was transferred and how much it was; one of a
/// failure tells the error, and what failed where there is none.
pub proof fn law_completion_text(snap: TransferSnapshot)
    ensures
        completion_text(snap, true) == snap.title@ + " \u{2014} "@ + size_text(
            snap.total_bytes as nat,
        ),
        snap.error is Some ==> completion_text(snap, false) == snap.error->0@,
        snap.error is None ==> completion_text(snap, false) == snap.title@,
{
}

/// A configured terminal that is there is used before any other. Else the
/// first known one that is there is, with the flag that belongs to it, and
/// there is none only when none is there.
pub proof fn law_terminal_chosen(
    r: Option<Terminal>,
    configured: Option<Seq<char>>,
    configured_present: bool,
    present: Seq<bool>,
    i: int,
)
    requires
        terminal_chosen(r, configured, configured_present, present),
        present.len() == 7,
    ensures
        configured is Some && configured_present ==> (r matches Some(t) && t.program@
            == configured->0),
        0 <= i < 7 && present[i] ==> r is Some,
        !(configured is Some && configured_present) && 0 <= i < 7 && present[i] && (forall|k: int|
            0 <= k < i ==> !#[trigger] present[k]) ==> (r matches Some(t) && (
            t.program@,
            t.exec_flag@,
        ) == known_terminal(i)),
        !(configured is Some && configured_present) && (forall|k: int|
            0 <= k < 7 ==> !#[trigger] present[k]) ==> r is None,
{
    if !(configured is Some && configured_present) && 0 <= i < 7 && present[i] {
        if r is Some {
            let t = r->0;
            let j = choose|j: int|
                #![trigger present[j]]
                0 <= j < TERMINALS && present[j] && (forall|k: int| 0 <= k < j ==> !present[k]) && (
                t.program@, t.exec_flag@) == known_terminal(j);
            assert(present[j]);
            assert((forall|k: int| 0 <= k < i ==> !#[trigger] present[k]) ==> j == i);
        }
    }
}

/// A terminal is made to run ssh with all its arguments; the flag that comes
/// before a command stands first where the terminal has one.
pub proof fn law_terminal_line(flag: Seq<char>, args: Seq<Seq<char>>)
    ensures
        flag.len() > 0 ==> terminal_line(flag, args) == seq![flag] + terminal_line(
            Seq::empty(),
            args,
        ),
        terminal_line(Seq::empty(), args) == seq!["ssh"@] + args,
{
    assert(terminal_line(Seq::empty(), args) =~= seq!["ssh"@] + args);
    if flag.len() > 0 {
        assert(terminal_line(flag, args) =~= seq![flag] + terminal_line(Seq::empty(), args));
    }
}

/// What the context menu offers: what is done to a selection when there is one,
/// what is done to one entry when exactly one is selected, and pasting when
/// something was marked, whatever is selected.
pub proof fn law_menu(selected: nat, has_clipboard: bool)
    ensures
        menu_of(selected, has_clipboard).on_selection <==> selected >= 1,
        menu_of(selected, has_clipboard).on_single <==> selected == 1,
        menu_of(selected, has_clipboard).paste <==> has_clipboard,
{
}

/// Which keys stand for which command: the function keys and Delete alone, and
/// the letters with Ctrl. While a text is edited, only those that do not edit
/// it stand for anything.
pub proof fn law_keys(key: KeyCode, ctrl: bool, plain: bool, editing: bool)
    ensures
        ({
            let c = command_of(key, ctrl, plain, editing);
            &&& c == Some(Command::Copy) <==> key is F5 && !editing
            &&& c == Some(Command::Move) <==> key is F6 && !editing
            &&& c == Some(Command::NewDirectory) <==> key is F7 && !editing
            &&& c == Some(Command::Rename) <==> key is F2 && !editing
            &&& c == Some(Command::Delete) <==> (key is F8 || key is Delete) && !editing
            &&& c == Some(Command::Properties) <==> key is F9 && !editing
            &&& c == Some(Command::SwitchPane) <==> key is Tab && plain && !editing
            &&& c == Some(Command::ClipCopy) <==> key is C && ctrl && !editing
            &&& c == Some(Command::ClipCut) <==> key is X && ctrl && !editing
            &&& c == Some(Command::Paste) <==> key is V && ctrl && !editing
            &&& c == Some(Command::ToggleHidden) <==> key is H && ctrl
            &&& c == Some(Command::Refresh) <==> key is R && ctrl
            &&& c == Some(Command::EditPath) <==> key is L && ctrl
            &&& c == Some(Command::Terminal) <==> key is T && ctrl
        }),
{
}

/// The tab strip is as wide as its tabs, 200 for each, up to 640; it never
/// shrinks when a tab is added, and has room for one even when there is none.
pub proof fn law_strip_width(tabs: int, more: int)
    requires
        tabs <= more,
    ensures
        strip_of(tabs) <= strip_of(more),
        200 <= strip_of(tabs) <= 640,
        1 <= tabs <= 3 ==> strip_of(tabs) == 200 * tabs,
        tabs > 3 ==> strip_of(tabs) == 640,
{
}

} // verus!
