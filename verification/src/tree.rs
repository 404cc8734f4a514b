//! The site tree as a mathematical value, and what each operation makes of it.

use crate::settings::Site;
use crate::text::{contains_text, lowercase};
use vstd::prelude::*;
use vstd::seq_lib::*;

verus! {

/// A folder: its own sites, then its subfolders, each in order.
#[verifier::ext_equal]
pub struct FolderView {
    pub id: Seq<char>,
    pub name: Seq<char>,
    pub folders: Seq<FolderView>,
    pub sites: Seq<Site>,
}

/// Every site of the subtree, a folder's own before those of its subfolders.
pub open spec fn sites_of(t: FolderView) -> Seq<Site>
    decreases t,
{
    t.sites + forest_sites(t.folders)
}

/// Every site of the folders in `fs`.
pub open spec fn forest_sites(fs: Seq<FolderView>) -> Seq<Site>
    decreases fs,
{
    if fs.len() == 0 {
        seq![]
    } else {
        sites_of(fs[0]) + forest_sites(fs.skip(1))
    }
}

/// The first folder with this id, the root first, then each subtree in order.
pub open spec fn find(t: FolderView, id: Seq<char>) -> Option<FolderView>
    decreases t,
{
    if t.id == id {
        Some(t)
    } else {
        forest_find(t.folders, id)
    }
}

pub open spec fn forest_find(fs: Seq<FolderView>, id: Seq<char>) -> Option<FolderView>
    decreases fs,
{
    if fs.len() == 0 {
        None
    } else {
        match find(fs[0], id) {
            Some(f) => Some(f),
            None => forest_find(fs.skip(1), id),
        }
    }
}

/// The tree with `new` in place of the folder that [`find`] finds.
pub open spec fn replaced(t: FolderView, id: Seq<char>, new: FolderView) -> FolderView
    decreases t,
{
    if t.id == id {
        new
    } else {
        FolderView { folders: forest_replaced(t.folders, id, new), ..t }
    }
}

pub open spec fn forest_replaced(fs: Seq<FolderView>, id: Seq<char>, new: FolderView) -> Seq<
    FolderView,
>
    decreases fs,
{
    if fs.len() == 0 {
        fs
    } else if find(fs[0], id) is Some {
        seq![replaced(fs[0], id, new)] + fs.skip(1)
    } else {
        seq![fs[0]] + forest_replaced(fs.skip(1), id, new)
    }
}

/// Whether `id` names a folder of the tree to put something into; an empty id
/// and an unknown one stand for the root.
pub open spec fn names_folder(t: FolderView, id: Seq<char>) -> bool {
    id.len() > 0 && find(t, id) is Some
}

/// The folder that `id` names, or the root.
pub open spec fn folder_or_root(t: FolderView, id: Seq<char>) -> FolderView {
    if names_folder(t, id) {
        find(t, id)->0
    } else {
        t
    }
}

/// The tree with `new` in place of the folder that `id` names, or the root.
pub open spec fn with_folder_or_root(t: FolderView, id: Seq<char>, new: FolderView) -> FolderView {
    if names_folder(t, id) {
        replaced(t, id, new)
    } else {
        new
    }
}

/// The first position at or after `from` of a site with this id, or the length.
pub open spec fn site_pos(sites: Seq<Site>, id: Seq<char>, from: int) -> int
    decreases sites.len() - from,
{
    if from >= sites.len() {
        sites.len() as int
    } else if sites[from].id@ == id {
        from
    } else {
        site_pos(sites, id, from + 1)
    }
}

/// The first site with this id: a folder's own before those further down.
pub open spec fn first_site(t: FolderView, id: Seq<char>) -> Option<Site>
    decreases t,
{
    let p = site_pos(t.sites, id, 0);
    if p < t.sites.len() {
        Some(t.sites[p])
    } else {
        forest_first_site(t.folders, id)
    }
}

pub open spec fn forest_first_site(fs: Seq<FolderView>, id: Seq<char>) -> Option<Site>
    decreases fs,
{
    if fs.len() == 0 {
        None
    } else {
        match first_site(fs[0], id) {
            Some(s) => Some(s),
            None => forest_first_site(fs.skip(1), id),
        }
    }
}

/// The tree without the site that [`first_site`] finds.
pub open spec fn site_removed(t: FolderView, id: Seq<char>) -> FolderView
    decreases t,
{
    let p = site_pos(t.sites, id, 0);
    if p < t.sites.len() {
        FolderView { sites: t.sites.remove(p), ..t }
    } else {
        FolderView { folders: forest_site_removed(t.folders, id), ..t }
    }
}

pub open spec fn forest_site_removed(fs: Seq<FolderView>, id: Seq<char>) -> Seq<FolderView>
    decreases fs,
{
    if fs.len() == 0 {
        fs
    } else if first_site(fs[0], id) is Some {
        seq![site_removed(fs[0], id)] + fs.skip(1)
    } else {
        seq![fs[0]] + forest_site_removed(fs.skip(1), id)
    }
}

/// The tree with `site` in place of the first site that has its id.
pub open spec fn site_updated(t: FolderView, site: Site) -> FolderView
    decreases t,
{
    let p = site_pos(t.sites, site.id@, 0);
    if p < t.sites.len() {
        FolderView { sites: t.sites.update(p, site), ..t }
    } else {
        FolderView { folders: forest_site_updated(t.folders, site), ..t }
    }
}

pub open spec fn forest_site_updated(fs: Seq<FolderView>, site: Site) -> Seq<FolderView>
    decreases fs,
{
    if fs.len() == 0 {
        fs
    } else if first_site(fs[0], site.id@) is Some {
        seq![site_updated(fs[0], site)] + fs.skip(1)
    } else {
        seq![fs[0]] + forest_site_updated(fs.skip(1), site)
    }
}

/// The first position at or after `from` of a folder with this id, or the
/// length.
pub open spec fn folder_pos(fs: Seq<FolderView>, id: Seq<char>, from: int) -> int
    decreases fs.len() - from,
{
    if from >= fs.len() {
        fs.len() as int
    } else if fs[from].id == id {
        from
    } else {
        folder_pos(fs, id, from + 1)
    }
}

/// The first folder below the root with this id: a direct subfolder before
/// those further down.
pub open spec fn first_below(t: FolderView, id: Seq<char>) -> Option<FolderView>
    decreases t,
{
    let p = folder_pos(t.folders, id, 0);
    if p < t.folders.len() {
        Some(t.folders[p])
    } else {
        forest_first_below(t.folders, id)
    }
}

pub open spec fn forest_first_below(fs: Seq<FolderView>, id: Seq<char>) -> Option<FolderView>
    decreases fs,
{
    if fs.len() == 0 {
        None
    } else {
        match first_below(fs[0], id) {
            Some(f) => Some(f),
            None => forest_first_below(fs.skip(1), id),
        }
    }
}

/// The tree without the folder that [`first_below`] finds.
pub open spec fn folder_removed(t: FolderView, id: Seq<char>) -> FolderView
    decreases t,
{
    let p = folder_pos(t.folders, id, 0);
    if p < t.folders.len() {
        FolderView { folders: t.folders.remove(p), ..t }
    } else {
        FolderView { folders: forest_folder_removed(t.folders, id), ..t }
    }
}

pub open spec fn forest_folder_removed(fs: Seq<FolderView>, id: Seq<char>) -> Seq<FolderView>
    decreases fs,
{
    if fs.len() == 0 {
        fs
    } else if first_below(fs[0], id) is Some {
        seq![folder_removed(fs[0], id)] + fs.skip(1)
    } else {
        seq![fs[0]] + forest_folder_removed(fs.skip(1), id)
    }
}

/// Whether the folder itself holds a site or a subfolder with this id.
pub open spec fn holds(t: FolderView, id: Seq<char>) -> bool {
    site_pos(t.sites, id, 0) < t.sites.len() || folder_pos(t.folders, id, 0) < t.folders.len()
}

/// The id of the first folder that directly holds `id`.
pub open spec fn parent_of(t: FolderView, id: Seq<char>) -> Option<Seq<char>>
    decreases t,
{
    if holds(t, id) {
        Some(t.id)
    } else {
        forest_parent_of(t.folders, id)
    }
}

pub open spec fn forest_parent_of(fs: Seq<FolderView>, id: Seq<char>) -> Option<Seq<char>>
    decreases fs,
{
    if fs.len() == 0 {
        None
    } else {
        match parent_of(fs[0], id) {
            Some(p) => Some(p),
            None => forest_parent_of(fs.skip(1), id),
        }
    }
}

/// Whether a site answers to a search: by its name, host or user.
pub open spec fn site_matches(s: Site, query: Seq<char>) -> bool {
    ||| query.len() == 0
    ||| contains_text(lowercase(s.name@), query)
    ||| contains_text(lowercase(s.host@), query)
    ||| s.user is Some && contains_text(lowercase(s.user->0@), query)
}

/// Whether a folder answers to a search by its name.
pub open spec fn name_matches(t: FolderView, query: Seq<char>) -> bool {
    contains_text(lowercase(t.name), query)
}

/// The sites of `sites` that answer to the search, in order.
pub open spec fn sites_matching(sites: Seq<Site>, query: Seq<char>) -> Seq<Site>
    decreases sites.len(),
{
    if sites.len() == 0 {
        seq![]
    } else if site_matches(sites.last(), query) {
        sites_matching(sites.drop_last(), query).push(sites.last())
    } else {
        sites_matching(sites.drop_last(), query)
    }
}

/// Whether nothing is left in a folder.
pub open spec fn is_bare(t: FolderView) -> bool {
    t.folders.len() == 0 && t.sites.len() == 0
}

/// What a search leaves of a tree: the sites that answer to it, the folders
/// whose name does (whole), and the folders above either. An empty query
/// leaves everything.
pub open spec fn filtered(t: FolderView, query: Seq<char>) -> FolderView
    decreases t,
{
    if query.len() == 0 {
        t
    } else {
        FolderView {
            folders: forest_filtered(t.folders, query),
            sites: sites_matching(t.sites, query),
            ..t
        }
    }
}

pub open spec fn forest_filtered(fs: Seq<FolderView>, query: Seq<char>) -> Seq<FolderView>
    decreases fs,
{
    if fs.len() == 0 {
        fs
    } else {
        let rest = forest_filtered(fs.drop_last(), query);
        let last = fs.last();
        if name_matches(last, query) {
            rest.push(last)
        } else if is_bare(filtered(last, query)) {
            rest
        } else {
            rest.push(filtered(last, query))
        }
    }
}

/// What moving the site `site_id` into `dest_id` makes of the tree, or `None`
/// when it stays: there is no such site, or it is there already.
pub open spec fn site_moved(t: FolderView, site_id: Seq<char>, dest_id: Seq<char>) -> Option<
    FolderView,
> {
    let dest = folder_or_root(t, dest_id).id;
    if parent_of(t, site_id) == Some(dest) || first_site(t, site_id) is None {
        None
    } else {
        let site = first_site(t, site_id)->0;
        let rest = site_removed(t, site_id);
        let target = folder_or_root(rest, dest);
        Some(
            with_folder_or_root(
                rest,
                dest,
                FolderView { sites: target.sites.push(site), ..target },
            ),
        )
    }
}

/// What moving the folder `folder_id` into `dest_id` makes of the tree, or
/// `None` when it stays: it is the root, there is no such folder, the
/// destination is the folder itself or lies below it, or it is there already.
pub open spec fn folder_moved(t: FolderView, folder_id: Seq<char>, dest_id: Seq<char>) -> Option<
    FolderView,
> {
    let dest = folder_or_root(t, dest_id).id;
    if folder_id == t.id || find(t, folder_id) is None || find(find(t, folder_id)->0, dest) is Some
        || parent_of(t, folder_id) == Some(dest) || first_below(t, folder_id) is None {
        None
    } else {
        let folder = first_below(t, folder_id)->0;
        let rest = folder_removed(t, folder_id);
        let target = folder_or_root(rest, dest);
        Some(
            with_folder_or_root(
                rest,
                dest,
                FolderView { folders: target.folders.push(folder), ..target },
            ),
        )
    }
}

/// A forest's search results from the one subtree that decides them: the
/// first of `fs` that has a folder with this id, if any.
pub proof fn lemma_forest_find(fs: Seq<FolderView>, id: Seq<char>, i: int)
    requires
        0 <= i <= fs.len(),
        forall|k: int| 0 <= k < i ==> find(#[trigger] fs[k], id) is None,
    ensures
        i == fs.len() ==> forest_find(fs, id) is None,
        i < fs.len() && find(fs[i], id) is Some ==> forest_find(fs, id) == find(fs[i], id)
            && forall|new: FolderView| #[trigger]
            forest_replaced(fs, id, new) == fs.update(i, replaced(fs[i], id, new)),
    decreases fs.len(),
{
    if fs.len() > 0 {
        if i > 0 {
            assert forall|k: int| 0 <= k < i - 1 implies find(#[trigger] fs.skip(1)[k], id) is None by {
                assert(fs.skip(1)[k] == fs[k + 1]);
            }
            lemma_forest_find(fs.skip(1), id, i - 1);
            assert(find(fs[0], id) is None);
        }
        if i < fs.len() && find(fs[i], id) is Some {
            assert forall|new: FolderView| #[trigger]
                forest_replaced(fs, id, new) == fs.update(i, replaced(fs[i], id, new)) by {
                if i > 0 {
                    assert(forest_replaced(fs.skip(1), id, new) == fs.skip(1).update(
                        i - 1,
                        replaced(fs[i], id, new),
                    ));
                }
                assert(forest_replaced(fs, id, new) =~= fs.update(i, replaced(fs[i], id, new)));
            }
        }
    }
}

pub proof fn lemma_forest_first_site(fs: Seq<FolderView>, id: Seq<char>, i: int)
    requires
        0 <= i <= fs.len(),
        forall|k: int| 0 <= k < i ==> first_site(#[trigger] fs[k], id) is None,
    ensures
        i == fs.len() ==> forest_first_site(fs, id) is None && forest_site_removed(fs, id) == fs,
        i < fs.len() && first_site(fs[i], id) is Some ==> {
            &&& forest_first_site(fs, id) == first_site(fs[i], id)
            &&& forest_site_removed(fs, id) == fs.update(i, site_removed(fs[i], id))
        },
    decreases fs.len(),
{
    if fs.len() > 0 {
        if i > 0 {
            assert forall|k: int| 0 <= k < i - 1 implies first_site(
                #[trigger] fs.skip(1)[k],
                id,
            ) is None by {
                assert(fs.skip(1)[k] == fs[k + 1]);
            }
            lemma_forest_first_site(fs.skip(1), id, i - 1);
            assert(first_site(fs[0], id) is None);
        }
        if i == fs.len() {
            assert(forest_site_removed(fs, id) =~= fs);
        } else if first_site(fs[i], id) is Some {
            assert(forest_site_removed(fs, id) =~= fs.update(i, site_removed(fs[i], id)));
        }
    }
}

pub proof fn lemma_forest_site_updated(fs: Seq<FolderView>, site: Site, i: int)
    requires
        0 <= i <= fs.len(),
        forall|k: int| 0 <= k < i ==> first_site(#[trigger] fs[k], site.id@) is None,
    ensures
        i == fs.len() ==> forest_site_updated(fs, site) == fs,
        i < fs.len() && first_site(fs[i], site.id@) is Some ==> forest_site_updated(fs, site)
            == fs.update(i, site_updated(fs[i], site)),
    decreases fs.len(),
{
    if fs.len() > 0 {
        if i > 0 {
            assert forall|k: int| 0 <= k < i - 1 implies first_site(
                #[trigger] fs.skip(1)[k],
                site.id@,
            ) is None by {
                assert(fs.skip(1)[k] == fs[k + 1]);
            }
            lemma_forest_site_updated(fs.skip(1), site, i - 1);
            assert(first_site(fs[0], site.id@) is None);
        }
        if i == fs.len() {
            assert(forest_site_updated(fs, site) =~= fs);
        } else if first_site(fs[i], site.id@) is Some {
            assert(forest_site_updated(fs, site) =~= fs.update(i, site_updated(fs[i], site)));
        }
    }
}

pub proof fn lemma_forest_first_below(fs: Seq<FolderView>, id: Seq<char>, i: int)
    requires
        0 <= i <= fs.len(),
        forall|k: int| 0 <= k < i ==> first_below(#[trigger] fs[k], id) is None,
    ensures
        i == fs.len() ==> forest_first_below(fs, id) is None && forest_folder_removed(fs, id) == fs,
        i < fs.len() && first_below(fs[i], id) is Some ==> {
            &&& forest_first_below(fs, id) == first_below(fs[i], id)
            &&& forest_folder_removed(fs, id) == fs.update(i, folder_removed(fs[i], id))
        },
    decreases fs.len(),
{
    if fs.len() > 0 {
        if i > 0 {
            assert forall|k: int| 0 <= k < i - 1 implies first_below(
                #[trigger] fs.skip(1)[k],
                id,
            ) is None by {
                assert(fs.skip(1)[k] == fs[k + 1]);
            }
            lemma_forest_first_below(fs.skip(1), id, i - 1);
            assert(first_below(fs[0], id) is None);
        }
        if i == fs.len() {
            assert(forest_folder_removed(fs, id) =~= fs);
        } else if first_below(fs[i], id) is Some {
            assert(forest_folder_removed(fs, id) =~= fs.update(i, folder_removed(fs[i], id)));
        }
    }
}

pub proof fn lemma_forest_parent_of(fs: Seq<FolderView>, id: Seq<char>, i: int)
    requires
        0 <= i <= fs.len(),
        forall|k: int| 0 <= k < i ==> parent_of(#[trigger] fs[k], id) is None,
    ensures
        i == fs.len() ==> forest_parent_of(fs, id) is None,
        i < fs.len() && parent_of(fs[i], id) is Some ==> forest_parent_of(fs, id) == parent_of(
            fs[i],
            id,
        ),
    decreases fs.len(),
{
    if fs.len() > 0 && i > 0 {
        assert forall|k: int| 0 <= k < i - 1 implies parent_of(#[trigger] fs.skip(1)[k], id) is None by {
            assert(fs.skip(1)[k] == fs[k + 1]);
        }
        lemma_forest_parent_of(fs.skip(1), id, i - 1);
        assert(parent_of(fs[0], id) is None);
    }
}

pub proof fn lemma_forest_sites_split(fs: Seq<FolderView>, i: int)
    requires
        0 <= i < fs.len(),
    ensures
        forest_sites(fs.take(i + 1)) == forest_sites(fs.take(i)) + sites_of(fs[i]),
    decreases i,
{
    reveal_with_fuel(forest_sites, 2);
    if i == 0 {
        assert(fs.take(1).skip(1) =~= seq![]);
        assert(fs.take(0) =~= seq![]);
        assert(forest_sites(fs.take(1)) =~= sites_of(fs[0]));
        assert(forest_sites(fs.take(0)) + sites_of(fs[0]) =~= sites_of(fs[0]));
    } else {
        lemma_forest_sites_split(fs.skip(1), i - 1);
        assert(fs.skip(1).take(i) =~= fs.take(i + 1).skip(1));
        assert(fs.skip(1).take(i - 1) =~= fs.take(i).skip(1));
        assert(forest_sites(fs.take(i + 1)) =~= forest_sites(fs.take(i)) + sites_of(fs[i]));
    }
}

/// The sites of the first folders are no more than the sites of all.
pub proof fn lemma_forest_sites_prefix(fs: Seq<FolderView>, i: int)
    requires
        0 <= i <= fs.len(),
    ensures
        forest_sites(fs.take(i)).len() <= forest_sites(fs).len(),
    decreases fs.len() - i,
{
    if i < fs.len() {
        lemma_forest_sites_split(fs, i);
        lemma_forest_sites_prefix(fs, i + 1);
    } else {
        assert(fs.take(i) =~= fs);
    }
}

/// A subfolder is smaller than the folder that holds it.
pub proof fn lemma_subfolder_smaller(t: FolderView, i: int)
    requires
        0 <= i < t.folders.len(),
    ensures
        decreases_to!(t => t.folders[i]),
{
}

} // verus!
