//! The site manager's tree: its rows, what selecting one means, and what is
//! moved where by dragging.

use crate::settings::{is_spec_of, Folder, Site};
use crate::ssh::config::KnownHost;
use crate::text::{decimal, lowercase, parted, same, split_once, to_decimal, to_lower};
use crate::tree::{
    first_site, forest_sites, lemma_forest_sites_prefix, lemma_forest_sites_split,
    lemma_subfolder_smaller, parent_of, site_pos, sites_of, FolderView,
};
use crate::tree_laws::{folder_ids, forest_bag, own_id};
use crate::types::{copy_opt, opt_text, ConnectSpec};
use vstd::prelude::*;
use vstd::string::*;

verus! {

/// One row of the tree. The unsaved draft of a new site has no id.
#[derive(Debug)]
pub struct TreeRow {
    pub id: String,
    pub name: String,
    /// Box-drawing guide drawn before the icon (tree connector lines).
    pub prefix: String,
    pub subtitle: String,
    pub is_folder: bool,
}

/// A row as plain values.
#[verifier::ext_equal]
pub struct TreeRowView {
    pub id: Seq<char>,
    pub name: Seq<char>,
    pub prefix: Seq<char>,
    pub subtitle: Seq<char>,
    pub is_folder: bool,
}

impl TreeRow {
    pub open spec fn view(self) -> TreeRowView {
        TreeRowView {
            id: self.id@,
            name: self.name@,
            prefix: self.prefix@,
            subtitle: self.subtitle@,
            is_folder: self.is_folder,
        }
    }

    /// Whether the row is the unsaved draft of a new site.
    pub open spec fn draft(self) -> bool {
        !self.is_folder && self.id@.len() == 0
    }

    /// Whether this is the unsaved draft.
    pub fn is_draft(&self) -> (r: bool)
        ensures
            r == self.draft(),
    {
        !self.is_folder && self.id.as_str().unicode_len() == 0
    }

    /// The row of a new site that is not saved yet.
    pub fn new_draft() -> (r: Self)
        ensures
            r.draft(),
            r.name@ == "New site"@,
            r.prefix@.len() == 0,
            r.subtitle@.len() == 0,
    {
        TreeRow {
            id: String::new(),
            name: "New site".to_owned(),
            prefix: String::new(),
            subtitle: String::new(),
            is_folder: false,
        }
    }
}

/// Rows as plain values.
pub open spec fn row_views(rows: Seq<TreeRow>) -> Seq<TreeRowView> {
    Seq::new(rows.len(), |i: int| rows[i]@)
}

/// "1 site", "2 sites".
pub open spec fn count_text(n: nat) -> Seq<char> {
    if n == 1 {
        "1 site"@
    } else {
        decimal(n) + " sites"@
    }
}

fn count_label(n: usize) -> (r: String)
    ensures
        r@ == count_text(n as nat),
{
    if n == 1 {
        return "1 site".to_owned();
    }
    let mut s = to_decimal(n as u64);
    s.append(" sites");
    s
}

/// The bars of the levels above a row, each where more follows below it.
pub open spec fn bars(ancestors: Seq<bool>) -> Seq<char>
    decreases ancestors.len(),
{
    if ancestors.len() == 0 {
        seq![]
    } else {
        bars(ancestors.drop_last()) + if ancestors.last() {
            "\u{2502}\u{a0}\u{a0}"@
        } else {
            "\u{a0}\u{a0}\u{a0}"@
        }
    }
}

/// The guide of a row: the bars of the levels above, and a corner for the
/// last of its level or a tee for any other. Rows at the top have none, so
/// lines only appear where there is a visible folder to connect to.
pub open spec fn guide_text(ancestors: Seq<bool>, top: bool, is_last: bool) -> Seq<char> {
    if top {
        seq![]
    } else {
        bars(ancestors) + if is_last {
            "\u{2514}\u{2500}\u{a0}"@
        } else {
            "\u{251c}\u{2500}\u{a0}"@
        }
    }
}

fn guide(ancestors: &Vec<bool>, top: bool, is_last: bool) -> (r: String)
    ensures
        r@ == guide_text(ancestors@, top, is_last),
{
    let mut s = String::new();
    if top {
        return s;
    }
    let mut i: usize = 0;
    assert(s@ =~= bars(ancestors@.take(0)));
    while i < ancestors.len()
        invariant
            i <= ancestors@.len(),
            s@ == bars(ancestors@.take(i as int)),
        decreases ancestors@.len() - i,
    {
        assert(ancestors@.take(i + 1).drop_last() =~= ancestors@.take(i as int));
        s.append(
            if ancestors[i] {
                "\u{2502}\u{a0}\u{a0}"
            } else {
                "\u{a0}\u{a0}\u{a0}"
            },
        );
        i += 1;
    }
    assert(ancestors@.take(i as int) =~= ancestors@);
    s.append(
        if is_last {
            "\u{2514}\u{2500}\u{a0}"
        } else {
            "\u{251c}\u{2500}\u{a0}"
        },
    );
    s
}

/// The row of a folder.
pub open spec fn folder_row(f: FolderView, prefix: Seq<char>) -> TreeRowView {
    TreeRowView {
        id: f.id,
        name: f.name,
        prefix,
        subtitle: count_text(sites_of(f).len()),
        is_folder: true,
    }
}

/// The row of a site.
pub open spec fn site_row(s: Site, prefix: Seq<char>) -> TreeRowView {
    TreeRowView {
        id: s.id@,
        name: s.name@,
        prefix,
        subtitle: s.summary_text(),
        is_folder: false,
    }
}

/// The levels above the children of a folder.
pub open spec fn child_levels(ancestors: Seq<bool>, top: bool, is_last: bool) -> Seq<bool> {
    if top {
        seq![]
    } else {
        ancestors.push(!is_last)
    }
}

/// The rows of a folder's contents: each subfolder followed by its own
/// contents, then the sites.
pub open spec fn rows_of(t: FolderView, ancestors: Seq<bool>, top: bool) -> Seq<TreeRowView>
    decreases t,
{
    forest_rows(t.folders, t.sites.len() > 0, ancestors, top) + site_rows(t.sites, ancestors, top)
}

/// The rows of folders next to each other, with sites after them or not.
pub open spec fn forest_rows(
    fs: Seq<FolderView>,
    sites_follow: bool,
    ancestors: Seq<bool>,
    top: bool,
) -> Seq<TreeRowView>
    decreases fs,
{
    if fs.len() == 0 {
        seq![]
    } else {
        let is_last = fs.len() == 1 && !sites_follow;
        seq![folder_row(fs[0], guide_text(ancestors, top, is_last))] + rows_of(
            fs[0],
            child_levels(ancestors, top, is_last),
            false,
        ) + forest_rows(fs.skip(1), sites_follow, ancestors, top)
    }
}

/// The rows of sites next to each other.
pub open spec fn site_rows(sites: Seq<Site>, ancestors: Seq<bool>, top: bool) -> Seq<TreeRowView> {
    Seq::new(
        sites.len(),
        |i: int| site_row(sites[i], guide_text(ancestors, top, i == sites.len() - 1)),
    )
}

fn push_rows(folder: &Folder, ancestors: &Vec<bool>, top: bool, out: &mut Vec<TreeRow>)
    requires
        sites_of(folder@).len() <= usize::MAX,
    ensures
        row_views(final(out)@) == row_views(old(out)@) + rows_of(folder@, ancestors@, top),
    decreases folder@,
{
    let n = folder.folders.len();
    let sites_follow = folder.sites.len() > 0;
    let ghost all = forest_rows(folder@.folders, sites_follow, ancestors@, top);
    let mut i: usize = 0;
    assert(folder@.folders.skip(0) =~= folder@.folders);
    while i < n
        invariant
            n == folder.folders@.len(),
            i <= n,
            sites_of(folder@).len() <= usize::MAX,
            row_views(old(out)@) + all == row_views(out@) + forest_rows(
                folder@.folders.skip(i as int),
                sites_follow,
                ancestors@,
                top,
            ),
        decreases n - i,
    {
        let sub = &folder.folders[i];
        let is_last = i + 1 == n && !sites_follow;
        proof {
            let fs = folder@.folders;
            assert(fs.skip(i as int)[0] == sub@);
            assert(fs.skip(i as int).skip(1) =~= fs.skip(i + 1));
            lemma_subfolder_smaller(folder@, i as int);
            lemma_forest_sites_split(fs, i as int);
            lemma_forest_sites_prefix(fs, i + 1);
        }
        let prefix = guide(ancestors, top, is_last);
        let ghost before = out@;
        let row = TreeRow {
            id: sub.id.clone(),
            name: sub.name.clone(),
            prefix,
            subtitle: count_label(sub.site_count()),
            is_folder: true,
        };
        out.push(row);
        assert(row_views(out@) =~= row_views(before).push(row@));
        let mut levels: Vec<bool> = Vec::new();
        if !top {
            levels = copy_levels(ancestors);
            levels.push(!is_last);
        }
        assert(levels@ =~= child_levels(ancestors@, top, is_last));
        let ghost middle = out@;
        push_rows(sub, &levels, false, out);
        let ghost rest = forest_rows(folder@.folders.skip(i + 1), sites_follow, ancestors@, top);
        let ghost below = rows_of(sub@, levels@, false);
        assert(row_views(before) + (seq![row@] + below + rest) =~= row_views(out@) + rest);
        i += 1;
    }
    assert(folder@.folders.skip(i as int) =~= seq![]);
    assert(row_views(out@) =~= row_views(old(out)@) + all);
    let ghost so_far = row_views(out@);
    let m = folder.sites.len();
    let mut j: usize = 0;
    assert(so_far + site_rows(folder@.sites, ancestors@, top).take(0) =~= so_far);
    while j < m
        invariant
            m == folder.sites@.len(),
            j <= m,
            row_views(out@) == so_far + site_rows(folder@.sites, ancestors@, top).take(j as int),
        decreases m - j,
    {
        let site = &folder.sites[j];
        let row = TreeRow {
            id: site.id.clone(),
            name: site.name.clone(),
            prefix: guide(ancestors, top, j + 1 == m),
            subtitle: site.summary(),
            is_folder: false,
        };
        let ghost before = out@;
        out.push(row);
        assert(row_views(out@) =~= row_views(before).push(row@));
        assert(site_rows(folder@.sites, ancestors@, top).take(j + 1) =~= site_rows(
            folder@.sites,
            ancestors@,
            top,
        ).take(j as int).push(row@));
        j += 1;
    }
    assert(site_rows(folder@.sites, ancestors@, top).take(m as int) =~= site_rows(
        folder@.sites,
        ancestors@,
        top,
    ));
    assert(so_far + site_rows(folder@.sites, ancestors@, top) =~= row_views(old(out)@) + rows_of(
        folder@,
        ancestors@,
        top,
    ));
}

fn copy_levels(v: &Vec<bool>) -> (r: Vec<bool>)
    ensures
        r@ == v@,
{
    let mut out: Vec<bool> = Vec::new();
    let mut i: usize = 0;
    while i < v.len()
        invariant
            i <= v@.len(),
            out@ == v@.take(i as int),
        decreases v@.len() - i,
    {
        out.push(v[i]);
        i += 1;
        assert(v@.take(i as int) =~= v@.take(i - 1).push(v@[i - 1]));
    }
    assert(v@.take(i as int) =~= v@);
    out
}

/// Flatten the folder tree into display rows with box-drawing guide lines
/// that connect each folder to its children. Folders come first at each
/// level, then sites.
pub fn build_tree_model(root: &Folder) -> (r: Vec<TreeRow>)
    requires
        sites_of(root@).len() <= usize::MAX,
    ensures
        row_views(r@) == rows_of(root@, seq![], true),
{
    let mut out: Vec<TreeRow> = Vec::new();
    let levels: Vec<bool> = Vec::new();
    push_rows(root, &levels, true, &mut out);
    assert(row_views(out@) =~= rows_of(root@, seq![], true));
    out
}

/// The tree shows each folder below the root and each site in one row.
pub proof fn law_rows_count(t: FolderView, ancestors: Seq<bool>, top: bool)
    ensures
        rows_of(t, ancestors, top).len() + 1 == folder_ids(t).len() + sites_of(t).len(),
    decreases t,
{
    broadcast use vstd::multiset::group_multiset_axioms;

    lemma_forest_rows_count(t.folders, t.sites.len() > 0, ancestors, top);
    assert(folder_ids(t).len() == 1 + forest_bag(t.folders, own_id()).len());
}

proof fn lemma_forest_rows_count(
    fs: Seq<FolderView>,
    sites_follow: bool,
    ancestors: Seq<bool>,
    top: bool,
)
    ensures
        forest_rows(fs, sites_follow, ancestors, top).len() == forest_bag(fs, own_id()).len()
            + forest_sites(fs).len(),
    decreases fs,
{
    broadcast use vstd::multiset::group_multiset_axioms;

    if fs.len() > 0 {
        let is_last = fs.len() == 1 && !sites_follow;
        law_rows_count(fs[0], child_levels(ancestors, top, is_last), false);
        lemma_forest_rows_count(fs.skip(1), sites_follow, ancestors, top);
    }
}

/// Whether `r` is where the first unsaved draft stands.
pub open spec fn is_first_draft(r: Option<int>, rows: Seq<TreeRow>) -> bool {
    match r {
        Some(i) => 0 <= i < rows.len() && rows[i].draft() && forall|k: int|
            0 <= k < i ==> !(#[trigger] rows[k]).draft(),
        None => forall|k: int| 0 <= k < rows.len() ==> !(#[trigger] rows[k]).draft(),
    }
}

/// Whether `r` is where the first row with this id stands.
pub open spec fn is_first_row(r: Option<int>, rows: Seq<TreeRow>, id: Seq<char>) -> bool {
    match r {
        Some(i) => 0 <= i < rows.len() && rows[i].id@ == id && forall|k: int|
            0 <= k < i ==> (#[trigger] rows[k]).id@ != id,
        None => forall|k: int| 0 <= k < rows.len() ==> (#[trigger] rows[k]).id@ != id,
    }
}

/// A row that is there is found, the first of several, and the row found is
/// one that was looked for.
pub proof fn law_rows_found(
    draft: Option<int>,
    place: Option<int>,
    rows: Seq<TreeRow>,
    id: Seq<char>,
    i: int,
)
    requires
        is_first_draft(draft, rows),
        is_first_row(place, rows, id),
        0 <= i < rows.len(),
    ensures
        rows[i].id@ == id ==> place is Some && place->0 <= i,
        place is Some ==> 0 <= place->0 < rows.len() && rows[place->0].id@ == id,
        !rows[i].is_folder && rows[i].id@.len() == 0 ==> draft is Some && draft->0 <= i,
        draft is Some ==> 0 <= draft->0 < rows.len() && !rows[draft->0].is_folder
            && rows[draft->0].id@.len() == 0,
{
}

/// Position of the unsaved draft row, if present.
pub fn draft_position(rows: &Vec<TreeRow>) -> (r: Option<usize>)
    ensures
        is_first_draft(
            match r {
                Some(i) => Some(i as int),
                None => None,
            },
            rows@,
        ),
{
    let mut i: usize = 0;
    while i < rows.len()
        invariant
            i <= rows@.len(),
            forall|k: int| 0 <= k < i ==> !(#[trigger] rows@[k]).draft(),
        decreases rows@.len() - i,
    {
        if rows[i].is_draft() {
            return Some(i);
        }
        i += 1;
    }
    None
}

/// Where the row with this id stands, to be selected again after a rebuild;
/// `None` where the search leaves no such row.
pub fn row_position(rows: &Vec<TreeRow>, id: &str) -> (r: Option<usize>)
    ensures
        is_first_row(
            match r {
                Some(i) => Some(i as int),
                None => None,
            },
            rows@,
            id@,
        ),
{
    let mut i: usize = 0;
    while i < rows.len()
        invariant
            i <= rows@.len(),
            forall|k: int| 0 <= k < i ==> (#[trigger] rows@[k]).id@ != id@,
        decreases rows@.len() - i,
    {
        if same(rows[i].id.as_str(), id) {
            return Some(i);
        }
        i += 1;
    }
    None
}

/// What the text in the search box is looked for as: letter case does not
/// count.
pub fn search_query(text: &str) -> (r: String)
    ensures
        r@ == lowercase(text@),
{
    to_lower(text)
}

/// Whether any host answers to the search.
pub open spec fn any_host(hosts: Seq<KnownHost>, query: Seq<char>) -> bool {
    exists|i: int| 0 <= i < hosts.len() && (#[trigger] hosts[i]).answers(query)
}

/// Whether any host answers to the search, and so is shown.
pub fn has_match(hosts: &Vec<KnownHost>, query: &str) -> (r: bool)
    ensures
        r == any_host(hosts@, query@),
{
    let mut i: usize = 0;
    while i < hosts.len()
        invariant
            i <= hosts@.len(),
            forall|k: int| 0 <= k < i ==> !(#[trigger] hosts@[k]).answers(query@),
        decreases hosts@.len() - i,
    {
        if hosts[i].matches(query) {
            return true;
        }
        i += 1;
    }
    false
}

/// What stands in place of the hosts when none is shown.
pub fn no_hosts_message(any_known: bool) -> (r: &'static str)
    ensures
        r@ == if any_known {
            "No hosts match the search."@
        } else {
            "No Host entries yet.\n\nUse the edit button above to add some to ~/.ssh/config."@
        },
{
    if any_known {
        "No hosts match the search."
    } else {
        "No Host entries yet.\n\nUse the edit button above to add some to ~/.ssh/config."
    }
}

/// What is selected in the tree, and what follows from it.
pub struct Selection {
    /// The folder that new sites and folders are created in; "" is the root.
    pub parent: String,
    pub site: Option<String>,
    pub folder: Option<String>,
    pub can_delete: bool,
    /// Whether the form is shown.
    pub shows_form: bool,
}

/// Whether `after` is the selection once a row was selected, or none, and `r`
/// the site to be loaded into the form.
pub open spec fn is_selected(
    before: Selection,
    after: Selection,
    row: Option<TreeRow>,
    root: FolderView,
    r: Option<Site>,
) -> bool {
    match row {
        None => {
            &&& r is None
            &&& after.parent@.len() == 0
            &&& after.site is None
            &&& after.folder is None
            &&& !after.can_delete
            &&& !after.shows_form
        },
        Some(row) => if row.is_folder {
            &&& r is None
            &&& after.parent@ == row.id@
            &&& after.site is None
            &&& opt_text(after.folder) == Some(row.id@)
            &&& after.can_delete
            &&& !after.shows_form
        } else if row.draft() {
            &&& r is None
            &&& after.parent == before.parent
            &&& after.site is None
            &&& after.folder is None
            &&& after.can_delete
            &&& after.shows_form
        } else {
            &&& site_found(sites_of(root), row.id@, r)
            &&& after.parent@ == holder_id(root, row.id@)
            &&& opt_text(after.site) == Some(row.id@)
            &&& after.folder is None
            &&& after.can_delete
            &&& after.shows_form == (r is Some)
        },
    }
}

/// The id of the folder that holds a site or folder; "" for the root.
pub open spec fn holder_id(root: FolderView, id: Seq<char>) -> Seq<char> {
    match parent_of(root, id) {
        Some(p) => p,
        None => seq![],
    }
}

/// What selecting means. What is selected is what is kept selected and what
/// deleting is about: a site or a folder, never both. New items go into the
/// selected folder or next to the selected site, and to the root where nothing
/// is selected; beginning a new site changes nothing of where it goes. Anything
/// that is selected can be deleted. The form shows for a site and for a new one.
pub proof fn law_selected(
    before: Selection,
    after: Selection,
    row: Option<TreeRow>,
    root: FolderView,
    r: Option<Site>,
    choice: DeleteChoice,
)
    requires
        is_selected(before, after, row, root, r),
        is_choice(choice, row is Some && row->0.draft(), after),
    ensures
        after.can_delete <==> row is Some,
        !(after.site is Some && after.folder is Some),
        row is None ==> after.parent@.len() == 0 && after.kept_id() is None && choice is Nothing,
        row matches Some(row) ==> {
            &&& row.is_folder ==> after.parent@ == row.id@ && opt_text(after.kept_id()) == Some(
                row.id@,
            ) && !after.shows_form && (choice matches DeleteChoice::Folder(id) && id@ == row.id@)
            &&& row.draft() ==> after.parent == before.parent && after.kept_id() is None
                && after.shows_form && choice is DiscardDraft
            &&& !row.is_folder && !row.draft() ==> after.parent@ == holder_id(root, row.id@)
                && opt_text(after.kept_id()) == Some(row.id@) && (after.shows_form <==> r is Some)
                && (choice matches DeleteChoice::Site(id) && id@ == row.id@)
            &&& r is Some ==> r->0.id@ == row.id@ && !row.is_folder
        },
{
}

impl Selection {
    /// What is kept selected when the tree is rebuilt.
    pub open spec fn kept_id(self) -> Option<String> {
        if self.site is Some {
            self.site
        } else {
            self.folder
        }
    }

    /// Nothing is selected.
    pub fn new() -> (r: Self)
        ensures
            r.parent@.len() == 0,
            r.site is None,
            r.folder is None,
            !r.can_delete,
            !r.shows_form,
    {
        Selection {
            parent: String::new(),
            site: None,
            folder: None,
            can_delete: false,
            shows_form: false,
        }
    }

    /// A row was selected, or none. Returns the site to be loaded into the
    /// form: that of a saved site's row. New items go into a selected folder,
    /// into the folder that holds a selected site, and else into the root;
    /// the draft of a new site leaves that as it is.
    pub fn select(&mut self, row: Option<&TreeRow>, root: &Folder) -> (r: Option<Site>)
        ensures
            is_selected(
                *old(self),
                *final(self),
                match row {
                    Some(row) => Some(*row),
                    None => None,
                },
                root@,
                r,
            ),
    {
        self.site = None;
        self.folder = None;
        let row = match row {
            Some(row) => row,
            None => {
                self.parent = String::new();
                self.can_delete = false;
                self.shows_form = false;
                return None;
            },
        };
        self.can_delete = true;
        if row.is_folder {
            self.parent = row.id.clone();
            self.folder = Some(row.id.clone());
            self.shows_form = false;
            return None;
        }
        if row.is_draft() {
            self.shows_form = true;
            return None;
        }
        self.parent = match root.parent_id_of(row.id.as_str()) {
            Some(p) => p,
            None => String::new(),
        };
        self.site = Some(row.id.clone());
        let found = site_by_id(root, row.id.as_str());
        self.shows_form = found.is_some();
        found
    }

    /// What is kept selected when the tree is rebuilt.
    pub fn kept(&self) -> (r: Option<String>)
        ensures
            r == self.kept_id(),
    {
        if self.site.is_some() {
            copy_opt(&self.site)
        } else {
            copy_opt(&self.folder)
        }
    }
}

/// Whether `r` is the first of the sites with this id.
pub open spec fn site_found(sites: Seq<Site>, id: Seq<char>, r: Option<Site>) -> bool {
    match r {
        Some(s) => exists|i: int|
            #![trigger sites[i]]
            0 <= i < sites.len() && sites[i] == s && s.id@ == id && forall|k: int|
                0 <= k < i ==> (#[trigger] sites[k]).id@ != id,
        None => forall|k: int| 0 <= k < sites.len() ==> (#[trigger] sites[k]).id@ != id,
    }
}

/// The first site of the tree with this id.
pub fn site_by_id(root: &Folder, id: &str) -> (r: Option<Site>)
    ensures
        site_found(sites_of(root@), id@, r),
{
    let all = root.all_sites();
    let mut i: usize = 0;
    while i < all.len()
        invariant
            i <= all@.len() == sites_of(root@).len(),
            forall|k: int| 0 <= k < all@.len() ==> *#[trigger] all@[k] == sites_of(root@)[k],
            forall|k: int| 0 <= k < i ==> (#[trigger] sites_of(root@)[k]).id@ != id@,
        decreases all@.len() - i,
    {
        assert(*all@[i as int] == sites_of(root@)[i as int]);
        if same(all[i].id.as_str(), id) {
            return Some(all[i].clone());
        }
        i += 1;
    }
    None
}

/// What a dragged row is told by: its kind and id. The unsaved draft stays
/// put.
pub open spec fn drag_text(row: TreeRow) -> Option<Seq<char>> {
    if row.id@.len() == 0 {
        None
    } else if row.is_folder {
        Some("folder:"@ + row.id@)
    } else {
        Some("site:"@ + row.id@)
    }
}

/// What a dragged row is told by.
pub fn drag_payload(row: &TreeRow) -> (r: Option<String>)
    ensures
        opt_text(r) == drag_text(*row),
{
    if row.id.as_str().unicode_len() == 0 {
        return None;
    }
    let mut s = if row.is_folder {
        "folder:".to_owned()
    } else {
        "site:".to_owned()
    };
    s.append(row.id.as_str());
    Some(s)
}

/// What dropping a row does.
#[derive(Debug)]
pub struct Dropped {
    pub folder: bool,
    pub id: String,
    /// The folder it goes into; "" is the root.
    pub dest: String,
}

/// The kind and id that a payload tells.
pub open spec fn dropped(payload: Seq<char>) -> Option<(bool, Seq<char>)> {
    match parted(payload, ':') {
        Some((kind, id)) => Some((kind == "folder"@, id)),
        None => None,
    }
}

/// Where something dropped on a row goes: into a folder, next to a site, and
/// to the root where there is no row.
pub open spec fn drop_dest(target: Option<TreeRow>, root: FolderView) -> Seq<char> {
    match target {
        None => seq![],
        Some(row) => if row.is_folder {
            row.id@
        } else {
            holder_id(root, row.id@)
        },
    }
}

/// Something that is dropped on a folder goes into it, something dropped on a
/// site to the folder that holds the site, and something dropped on no row to
/// the root.
pub proof fn law_drop_dest(row: TreeRow, root: FolderView)
    ensures
        drop_dest(None, root).len() == 0,
        row.is_folder ==> drop_dest(Some(row), root) == row.id@,
        !row.is_folder && parent_of(root, row.id@) is Some ==> drop_dest(Some(row), root)
            == parent_of(root, row.id@)->0,
        !row.is_folder && parent_of(root, row.id@) is None ==> drop_dest(Some(row), root).len() == 0,
{
}

/// Whether `r` is what dropping a payload on a row does.
pub open spec fn is_drop(
    r: Option<Dropped>,
    payload: Seq<char>,
    target: Option<TreeRow>,
    root: FolderView,
) -> bool {
    match dropped(payload) {
        Some((folder, id)) => {
            &&& r matches Some(d)
            &&& d.folder == folder
            &&& d.id@ == id
            &&& d.dest@ == drop_dest(target, root)
        },
        None => r is None,
    }
}

/// A row that is dragged and dropped is moved as what it is, to where it was
/// dropped. What comes from elsewhere, without a kind, moves nothing.
pub proof fn law_drag_and_drop(
    row: TreeRow,
    r: Option<Dropped>,
    target: Option<TreeRow>,
    root: FolderView,
    other: Seq<char>,
)
    requires
        drag_text(row) is Some,
        is_drop(r, drag_text(row)->0, target, root),
    ensures
        r is Some && r->0.folder == row.is_folder && r->0.id@ == row.id@ && r->0.dest@ == drop_dest(
            target,
            root,
        ),
        !other.contains(':') ==> dropped(other) is None,
{
    law_drag_told(row);
    if !other.contains(':') {
        crate::text::law_parted(other, Seq::empty(), ':');
    }
}

/// What dropping a payload on a row does; `None` for one that is not ours.
pub fn drop_on(payload: &str, target: Option<&TreeRow>, root: &Folder) -> (r: Option<Dropped>)
    ensures
        is_drop(
            r,
            payload@,
            match target {
                Some(row) => Some(*row),
                None => None,
            },
            root@,
        ),
{
    let (kind, id) = match split_once(payload, ':') {
        Some(parts) => parts,
        None => return None,
    };
    let dest = match target {
        None => String::new(),
        Some(row) => if row.is_folder {
            row.id.clone()
        } else {
            match root.parent_id_of(row.id.as_str()) {
                Some(p) => p,
                None => String::new(),
            }
        },
    };
    Some(Dropped { folder: same(kind.as_str(), "folder"), id, dest })
}

/// A dragged row is told again by its payload.
pub proof fn law_drag_told(row: TreeRow)
    requires
        drag_text(row) is Some,
    ensures
        dropped(drag_text(row)->0) == Some((row.is_folder, row.id@)),
{
    let text = drag_text(row)->0;
    let kind = if row.is_folder {
        "folder"@
    } else {
        "site"@
    };
    reveal_strlit("folder:");
    reveal_strlit("site:");
    reveal_strlit("folder");
    reveal_strlit("site");
    assert(text =~= kind.push(':') + row.id@);
    lemma_find_colon(kind, row.id@, 0);
    assert(text.take(kind.len() as int) =~= kind);
    assert(text.skip(kind.len() as int + 1) =~= row.id@);
    if !row.is_folder {
        assert("site"@.len() != "folder"@.len());
    }
}

proof fn lemma_find_colon(head: Seq<char>, tail: Seq<char>, i: int)
    requires
        0 <= i <= head.len(),
        forall|k: int| 0 <= k < head.len() ==> head[k] != ':',
    ensures
        crate::text::find_char(head.push(':') + tail, ':', i) == head.len(),
    decreases head.len() - i,
{
    if i < head.len() {
        lemma_find_colon(head, tail, i + 1);
    }
}

/// The folder that a saved form goes to.
pub open spec fn saved_into(
    is_draft: bool,
    draft_parent: Seq<char>,
    site_id: Seq<char>,
    root: FolderView,
) -> Seq<char> {
    if is_draft {
        draft_parent
    } else {
        holder_id(root, site_id)
    }
}

/// A new site is saved where it was begun, and one that is in the tree where
/// it is.
pub proof fn law_saved_into(draft_parent: Seq<char>, site_id: Seq<char>, root: FolderView)
    ensures
        saved_into(true, draft_parent, site_id, root) == draft_parent,
        parent_of(root, site_id) is Some ==> saved_into(false, draft_parent, site_id, root)
            == parent_of(root, site_id)->0,
        parent_of(root, site_id) is None ==> saved_into(
            false,
            draft_parent,
            site_id,
            root,
        ).len() == 0,
{
}

/// The folder that a saved form goes to: where the draft was opened, or where
/// the site is already.
pub fn save_parent(is_draft: bool, draft_parent: &str, site_id: &str, root: &Folder) -> (r: String)
    ensures
        r@ == saved_into(is_draft, draft_parent@, site_id@, root@),
{
    if is_draft {
        return draft_parent.to_owned();
    }
    match root.parent_id_of(site_id) {
        Some(p) => p,
        None => String::new(),
    }
}

/// Whether a stored secret is to be looked up.
pub open spec fn looks_up_secret(typed: Seq<char>, has_secret: bool) -> bool {
    typed.len() == 0 && has_secret
}

/// Whether `r` is how to connect to the site with these secrets.
pub open spec fn connects_with(
    r: ConnectSpec,
    site: Site,
    typed: Seq<char>,
    stored: Option<Seq<char>>,
) -> bool {
    &&& is_spec_of(ConnectSpec { secret: None, ..r }, site)
    &&& opt_text(r.secret) == if typed.len() > 0 {
        Some(typed)
    } else if site.has_secret {
        stored
    } else {
        None
    }
}

/// A secret that was typed is the one used, whatever is stored. The stored one
/// is used exactly where it is looked up: where none was typed and the site has
/// one. All else is as the site says.
pub proof fn law_connects_with(
    r: ConnectSpec,
    site: Site,
    typed: Seq<char>,
    stored: Option<Seq<char>>,
)
    requires
        connects_with(r, site, typed, stored),
    ensures
        typed.len() > 0 ==> r.secret is Some && r.secret->0@ == typed && !looks_up_secret(
            typed,
            site.has_secret,
        ),
        looks_up_secret(typed, site.has_secret) ==> opt_text(r.secret) == stored,
        typed.len() == 0 && !site.has_secret ==> r.secret is None && !looks_up_secret(
            typed,
            site.has_secret,
        ),
        typed.len() == 0 && site.has_secret ==> looks_up_secret(typed, site.has_secret),
        r.host@ == site.host@ && r.port == site.port && r.auth == site.auth && r.elevation
            == site.elevation,
        opt_text(r.user) == crate::types::non_empty(site.user),
        opt_text(r.identity_file) == crate::types::non_empty(site.identity_file),
        opt_text(r.remote_dir) == crate::types::non_empty(site.remote_dir),
{
}

/// Whether a stored secret is to be looked up to connect with the form's
/// values: none was typed, and there is one.
pub fn needs_stored_secret(typed: &str, has_secret: bool) -> (r: bool)
    ensures
        r == looks_up_secret(typed@, has_secret),
{
    typed.unicode_len() == 0 && has_secret
}

/// The spec to connect with: the secret that was typed, else the stored one.
pub fn connect_spec(site: &Site, typed: &str, stored: Option<String>) -> (r: ConnectSpec)
    ensures
        connects_with(r, *site, typed@, opt_text(stored)),
{
    let mut spec = site.to_spec();
    if typed.unicode_len() > 0 {
        spec.secret = Some(typed.to_owned());
    } else if site.has_secret {
        spec.secret = stored;
    }
    spec
}

/// What deleting means for what is selected.
#[derive(Debug)]
pub enum DeleteChoice {
    DiscardDraft,
    Site(String),
    Folder(String),
    Nothing,
}

/// Whether `r` is what deleting means.
pub open spec fn is_choice(r: DeleteChoice, draft_selected: bool, selection: Selection) -> bool {
    if draft_selected {
        r is DiscardDraft
    } else {
        match (selection.site, selection.folder) {
            (Some(id), _) => r == DeleteChoice::Site(id),
            (None, Some(id)) => r == DeleteChoice::Folder(id),
            (None, None) => r is Nothing,
        }
    }
}

/// What deleting means: the draft is discarded, a site or folder is deleted
/// once that is confirmed.
pub fn delete_choice(draft_selected: bool, selection: &Selection) -> (r: DeleteChoice)
    ensures
        is_choice(r, draft_selected, *selection),
{
    if draft_selected {
        return DeleteChoice::DiscardDraft;
    }
    match &selection.site {
        Some(id) => DeleteChoice::Site(id.clone()),
        None => match &selection.folder {
            Some(id) => DeleteChoice::Folder(id.clone()),
            None => DeleteChoice::Nothing,
        },
    }
}

/// One site is told of as one, and any other number as that many.
pub proof fn law_count_text(n: nat)
    ensures
        n == 1 ==> count_text(n) == "1 site"@,
        n != 1 ==> count_text(n) == decimal(n) + " sites"@,
{
}

/// Rows at the top have no guide. Below, the last row of its level has a corner
/// and any other a tee; before that stands one bar for each level above it that
/// goes on, and a gap for each that does not.
pub proof fn law_guides(ancestors: Seq<bool>, goes_on: bool, is_last: bool)
    ensures
        guide_text(ancestors, true, is_last).len() == 0,
        guide_text(ancestors, false, true) == bars(ancestors) + "\u{2514}\u{2500}\u{a0}"@,
        guide_text(ancestors, false, false) == bars(ancestors) + "\u{251c}\u{2500}\u{a0}"@,
        bars(ancestors.push(true)) == bars(ancestors) + "\u{2502}\u{a0}\u{a0}"@,
        bars(ancestors.push(false)) == bars(ancestors) + "\u{a0}\u{a0}\u{a0}"@,
        bars(Seq::empty()).len() == 0,
        child_levels(ancestors, false, true) == ancestors.push(false),
        child_levels(ancestors, false, false) == ancestors.push(true),
        child_levels(ancestors, true, is_last).len() == 0,
{
    assert(ancestors.push(true).drop_last() =~= ancestors);
    assert(ancestors.push(false).drop_last() =~= ancestors);
}

/// The ids of what a folder holds, in the order in which they are shown: each
/// subfolder and what it holds, and then the sites.
pub open spec fn shown_ids(t: FolderView) -> Seq<Seq<char>>
    decreases t,
{
    forest_ids(t.folders) + Seq::new(t.sites.len(), |i: int| t.sites[i].id@)
}

/// The ids of folders next to each other and of what they hold.
pub open spec fn forest_ids(fs: Seq<FolderView>) -> Seq<Seq<char>>
    decreases fs,
{
    if fs.len() == 0 {
        seq![]
    } else {
        seq![fs[0].id] + shown_ids(fs[0]) + forest_ids(fs.skip(1))
    }
}

/// The tree shows everything it holds in its order, each folder before what is
/// in it, and folders before sites on every level.
pub proof fn law_rows_in_order(t: FolderView, ancestors: Seq<bool>, top: bool)
    ensures
        rows_of(t, ancestors, top).map_values(|r: TreeRowView| r.id) == shown_ids(t),
    decreases t,
{
    let id = |r: TreeRowView| r.id;
    lemma_forest_rows_in_order(t.folders, t.sites.len() > 0, ancestors, top);
    let a = forest_rows(t.folders, t.sites.len() > 0, ancestors, top);
    let b = site_rows(t.sites, ancestors, top);
    assert((a + b).map_values(id) =~= a.map_values(id) + b.map_values(id));
    assert(b.map_values(id) =~= Seq::new(t.sites.len(), |i: int| t.sites[i].id@));
}

proof fn lemma_forest_rows_in_order(
    fs: Seq<FolderView>,
    sites_follow: bool,
    ancestors: Seq<bool>,
    top: bool,
)
    ensures
        forest_rows(fs, sites_follow, ancestors, top).map_values(|r: TreeRowView| r.id)
            == forest_ids(fs),
    decreases fs,
{
    let id = |r: TreeRowView| r.id;
    if fs.len() == 0 {
        assert(forest_rows(fs, sites_follow, ancestors, top).map_values(id) =~= forest_ids(fs));
    } else {
        let is_last = fs.len() == 1 && !sites_follow;
        let first = seq![folder_row(fs[0], guide_text(ancestors, top, is_last))];
        let below = rows_of(fs[0], child_levels(ancestors, top, is_last), false);
        let rest = forest_rows(fs.skip(1), sites_follow, ancestors, top);
        law_rows_in_order(fs[0], child_levels(ancestors, top, is_last), false);
        lemma_forest_rows_in_order(fs.skip(1), sites_follow, ancestors, top);
        assert((first + below + rest).map_values(id) =~= first.map_values(id) + below.map_values(id)
            + rest.map_values(id));
        assert(first.map_values(id) =~= seq![fs[0].id]);
    }
}

/// What a row shows: a folder its name and how many sites are in it, also
/// further down, and a site its name and how it is reached.
pub proof fn law_row_shows(f: FolderView, site: Site, prefix: Seq<char>)
    ensures
        folder_row(f, prefix).is_folder && !site_row(site, prefix).is_folder,
        folder_row(f, prefix).id == f.id && folder_row(f, prefix).name == f.name,
        folder_row(f, prefix).subtitle == count_text(sites_of(f).len()),
        site_row(site, prefix).id == site.id@ && site_row(site, prefix).name == site.name@,
        site_row(site, prefix).subtitle == site.summary_text(),
        folder_row(f, prefix).prefix == prefix && site_row(site, prefix).prefix == prefix,
{
}

/// A row can be dragged when it stands for something that is saved, and the
/// unsaved draft cannot.
pub proof fn law_drag(row: TreeRow)
    ensures
        drag_text(row) is Some <==> row.id@.len() > 0,
        row.draft() ==> drag_text(row) is None,
{
}

/// A host is shown as long as it answers to the search, whatever the others
/// do.
pub proof fn law_any_host(hosts: Seq<KnownHost>, host: KnownHost, query: Seq<char>)
    ensures
        any_host(hosts.push(host), query) <==> any_host(hosts, query) || host.answers(query),
        !any_host(Seq::empty(), query),
{
    let more = hosts.push(host);
    if any_host(hosts, query) {
        let i = choose|i: int| 0 <= i < hosts.len() && (#[trigger] hosts[i]).answers(query);
        assert(more[i] == hosts[i]);
    }
    assert(more[hosts.len() as int] == host);
    if any_host(more, query) {
        let i = choose|i: int| 0 <= i < more.len() && (#[trigger] more[i]).answers(query);
        if i < hosts.len() {
            assert(hosts[i].answers(query));
        }
    }
}

/// The site that is looked up by its id is the first of the tree that has it,
/// the one that is updated, moved and removed by that id.
pub proof fn law_site_by_id(t: FolderView, id: Seq<char>, r: Option<Site>)
    requires
        site_found(sites_of(t), id, r),
    ensures
        r == first_site(t, id),
        r is Some ==> r->0.id@ == id,
{
    crate::tree_laws::law_first_site(t, id);
    crate::tree_laws::law_site_position(sites_of(t), id);
    let all = sites_of(t);
    let p = site_pos(all, id, 0);
    if r is Some {
        let i = choose|i: int|
            #![trigger all[i]]
            0 <= i < all.len() && all[i] == r->0 && r->0.id@ == id && forall|k: int|
                0 <= k < i ==> (#[trigger] all[k]).id@ != id;
        assert(all[i].id@ == id);
        assert(p < all.len());
        assert(all[p].id@ == id);
        assert(i == p);
    }
}

} // verus!
