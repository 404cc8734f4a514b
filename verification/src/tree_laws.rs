//! Laws of the site tree: what moving, removing, updating and searching keep.

use crate::settings::Site;
use crate::text::{contains_text, lowercase};
use crate::tree::{
    filtered, find, first_below, first_site, folder_moved, folder_or_root, folder_pos,
    folder_removed, forest_filtered, forest_find, forest_first_below, forest_first_site,
    forest_folder_removed, forest_parent_of, forest_replaced, forest_site_removed, forest_site_updated,
    forest_sites, is_bare, name_matches, names_folder, parent_of, replaced, site_matches, site_moved, site_pos,
    site_removed, site_updated, sites_matching, sites_of, with_folder_or_root, FolderView,
};
use vstd::multiset::Multiset;
use vstd::prelude::*;
use vstd::seq_lib::*;

verus! {

broadcast use vstd::multiset::group_multiset_axioms;

/// What all folders of a tree have of their own, taken together.
pub open spec fn bag<A>(t: FolderView, own: spec_fn(FolderView) -> Multiset<A>) -> Multiset<A>
    decreases t,
{
    own(t).add(forest_bag(t.folders, own))
}

pub open spec fn forest_bag<A>(
    fs: Seq<FolderView>,
    own: spec_fn(FolderView) -> Multiset<A>,
) -> Multiset<A>
    decreases fs,
{
    if fs.len() == 0 {
        Multiset::empty()
    } else {
        bag(fs[0], own).add(forest_bag(fs.skip(1), own))
    }
}

/// A folder's own sites.
pub open spec fn own_sites() -> spec_fn(FolderView) -> Multiset<Site> {
    |t: FolderView| t.sites.to_multiset()
}

/// A folder's own id.
pub open spec fn own_id() -> spec_fn(FolderView) -> Multiset<Seq<char>> {
    |t: FolderView| Multiset::singleton(t.id)
}

/// The ids of a tree's folders, each as often as it occurs.
pub open spec fn folder_ids(t: FolderView) -> Multiset<Seq<char>> {
    bag(t, own_id())
}

/// No two folders of the tree share an id.
pub open spec fn distinct_folders(t: FolderView) -> bool {
    forall|id: Seq<char>| #[trigger] folder_ids(t).count(id) <= 1
}

/// What a folder has of its own does not depend on its subfolders.
spec fn shallow<A>(own: spec_fn(FolderView) -> Multiset<A>) -> bool {
    forall|t: FolderView, fs: Seq<FolderView>| #[trigger]
        own(FolderView { folders: fs, ..t }) == own(t)
}

proof fn lemma_forest_bag_at<A>(
    fs: Seq<FolderView>,
    own: spec_fn(FolderView) -> Multiset<A>,
    i: int,
)
    requires
        0 <= i < fs.len(),
    ensures
        forest_bag(fs, own) == forest_bag(fs.remove(i), own).add(bag(fs[i], own)),
    decreases fs.len(),
{
    if i == 0 {
        assert(fs.remove(0) =~= fs.skip(1));
    } else {
        lemma_forest_bag_at(fs.skip(1), own, i - 1);
        assert(fs.remove(i).skip(1) =~= fs.skip(1).remove(i - 1));
        assert(fs.remove(i)[0] == fs[0]);
    }
    assert(forest_bag(fs, own) =~= forest_bag(fs.remove(i), own).add(bag(fs[i], own)));
}

/// Putting `new` in place of a folder exchanges what the two have.
proof fn lemma_replaced_count<A>(
    t: FolderView,
    id: Seq<char>,
    new: FolderView,
    own: spec_fn(FolderView) -> Multiset<A>,
    a: A,
)
    requires
        shallow(own),
        find(t, id) is Some,
    ensures
        bag(replaced(t, id, new), own).count(a) + bag(find(t, id)->0, own).count(a) == bag(
            t,
            own,
        ).count(a) + bag(new, own).count(a),
    decreases t,
{
    if t.id != id {
        lemma_forest_replaced_count(t.folders, id, new, own, a);
        assert(own(replaced(t, id, new)) == own(t));
    }
}

proof fn lemma_forest_replaced_count<A>(
    fs: Seq<FolderView>,
    id: Seq<char>,
    new: FolderView,
    own: spec_fn(FolderView) -> Multiset<A>,
    a: A,
)
    requires
        shallow(own),
        forest_find(fs, id) is Some,
    ensures
        forest_bag(forest_replaced(fs, id, new), own).count(a) + bag(
            forest_find(fs, id)->0,
            own,
        ).count(a) == forest_bag(fs, own).count(a) + bag(new, own).count(a),
    decreases fs,
{
    let out = forest_replaced(fs, id, new);
    if find(fs[0], id) is Some {
        lemma_replaced_count(fs[0], id, new, own, a);
        assert(out.skip(1) =~= fs.skip(1));
    } else {
        lemma_forest_replaced_count(fs.skip(1), id, new, own, a);
        assert(out.skip(1) =~= forest_replaced(fs.skip(1), id, new));
    }
}

/// A removed folder takes with it exactly what it has.
proof fn lemma_folder_removed_bag<A>(
    t: FolderView,
    id: Seq<char>,
    own: spec_fn(FolderView) -> Multiset<A>,
)
    requires
        shallow(own),
        first_below(t, id) is Some,
    ensures
        bag(t, own) == bag(folder_removed(t, id), own).add(bag(first_below(t, id)->0, own)),
    decreases t,
{
    let p = folder_pos(t.folders, id, 0);
    if p < t.folders.len() {
        lemma_folder_pos(t.folders, id, 0);
        lemma_forest_bag_at(t.folders, own, p);
    } else {
        lemma_forest_folder_removed_bag(t.folders, id, own);
    }
    assert(bag(t, own) =~= bag(folder_removed(t, id), own).add(bag(first_below(t, id)->0, own)));
}

proof fn lemma_forest_folder_removed_bag<A>(
    fs: Seq<FolderView>,
    id: Seq<char>,
    own: spec_fn(FolderView) -> Multiset<A>,
)
    requires
        shallow(own),
        forest_first_below(fs, id) is Some,
    ensures
        forest_bag(fs, own) == forest_bag(forest_folder_removed(fs, id), own).add(
            bag(forest_first_below(fs, id)->0, own),
        ),
    decreases fs,
{
    let out = forest_folder_removed(fs, id);
    if first_below(fs[0], id) is Some {
        lemma_folder_removed_bag(fs[0], id, own);
        assert(out.skip(1) =~= fs.skip(1));
    } else {
        lemma_forest_folder_removed_bag(fs.skip(1), id, own);
        assert(out.skip(1) =~= forest_folder_removed(fs.skip(1), id));
    }
    assert(forest_bag(fs, own) =~= forest_bag(out, own).add(
        bag(forest_first_below(fs, id)->0, own),
    ));
}

proof fn lemma_folder_pos(fs: Seq<FolderView>, id: Seq<char>, from: int)
    requires
        0 <= from <= fs.len(),
    ensures
        from <= folder_pos(fs, id, from) <= fs.len(),
        folder_pos(fs, id, from) < fs.len() ==> fs[folder_pos(fs, id, from)].id == id,
        forall|k: int| from <= k < folder_pos(fs, id, from) ==> (#[trigger] fs[k]).id != id,
    decreases fs.len() - from,
{
    if from < fs.len() && fs[from].id != id {
        lemma_folder_pos(fs, id, from + 1);
    }
}

proof fn lemma_site_pos(sites: Seq<Site>, id: Seq<char>, from: int)
    requires
        0 <= from <= sites.len(),
    ensures
        from <= site_pos(sites, id, from) <= sites.len(),
        site_pos(sites, id, from) < sites.len() ==> sites[site_pos(sites, id, from)].id@ == id,
        forall|k: int| from <= k < site_pos(sites, id, from) ==> (#[trigger] sites[k]).id@ != id,
    decreases sites.len() - from,
{
    if from < sites.len() && sites[from].id@ != id {
        lemma_site_pos(sites, id, from + 1);
    }
}

/// Removing a site takes away that site and nothing else: no other site, and
/// no folder.
pub proof fn law_remove_site(t: FolderView, id: Seq<char>)
    requires
        first_site(t, id) is Some,
    ensures
        first_site(t, id)->0.id@ == id,
        bag(t, own_sites()) == bag(site_removed(t, id), own_sites()).insert(first_site(t, id)->0),
        folder_ids(site_removed(t, id)) == folder_ids(t),
    decreases t,
{
    let p = site_pos(t.sites, id, 0);
    lemma_site_pos(t.sites, id, 0);
    if p < t.sites.len() {
        to_multiset_remove(t.sites, p);
        to_multiset_contains(t.sites, t.sites[p]);
        assert(t.sites.contains(t.sites[p]));
    } else {
        lemma_forest_remove_site(t.folders, id);
    }
    assert(bag(t, own_sites()) =~= bag(site_removed(t, id), own_sites()).insert(
        first_site(t, id)->0,
    ));
    assert(folder_ids(site_removed(t, id)) =~= folder_ids(t));
}

proof fn lemma_forest_remove_site(fs: Seq<FolderView>, id: Seq<char>)
    requires
        forest_first_site(fs, id) is Some,
    ensures
        forest_first_site(fs, id)->0.id@ == id,
        forest_bag(fs, own_sites()) == forest_bag(forest_site_removed(fs, id), own_sites()).insert(
            forest_first_site(fs, id)->0,
        ),
        forest_bag(forest_site_removed(fs, id), own_id()) == forest_bag(fs, own_id()),
    decreases fs,
{
    let out = forest_site_removed(fs, id);
    if first_site(fs[0], id) is Some {
        law_remove_site(fs[0], id);
        assert(out.skip(1) =~= fs.skip(1));
    } else {
        lemma_forest_remove_site(fs.skip(1), id);
        assert(out.skip(1) =~= forest_site_removed(fs.skip(1), id));
    }
    assert(forest_bag(fs, own_sites()) =~= forest_bag(out, own_sites()).insert(
        forest_first_site(fs, id)->0,
    ));
    assert(forest_bag(out, own_id()) =~= forest_bag(fs, own_id()));
}

/// The sites of a tree, listed in order, are the sites of its folders.
pub proof fn law_all_sites(t: FolderView)
    ensures
        sites_of(t).to_multiset() == bag(t, own_sites()),
    decreases t,
{
    lemma_forest_all_sites(t.folders);
    lemma_multiset_commutative(t.sites, forest_sites(t.folders));
}

proof fn lemma_forest_all_sites(fs: Seq<FolderView>)
    ensures
        forest_sites(fs).to_multiset() == forest_bag(fs, own_sites()),
    decreases fs,
{
    if fs.len() == 0 {
        to_multiset_len(forest_sites(fs));
        assert(forest_sites(fs).to_multiset() =~= Multiset::empty());
    } else {
        law_all_sites(fs[0]);
        lemma_forest_all_sites(fs.skip(1));
        lemma_multiset_commutative(sites_of(fs[0]), forest_sites(fs.skip(1)));
    }
}

/// A folder is found exactly when its id occurs.
proof fn lemma_found_iff_counted(t: FolderView, id: Seq<char>)
    ensures
        (find(t, id) is Some) == (folder_ids(t).count(id) > 0),
        find(t, id) is Some ==> find(t, id)->0.id == id,
    decreases t,
{
    lemma_forest_found_iff_counted(t.folders, id);
}

proof fn lemma_forest_found_iff_counted(fs: Seq<FolderView>, id: Seq<char>)
    ensures
        (forest_find(fs, id) is Some) == (forest_bag(fs, own_id()).count(id) > 0),
        forest_find(fs, id) is Some ==> forest_find(fs, id)->0.id == id,
    decreases fs,
{
    if fs.len() > 0 {
        lemma_found_iff_counted(fs[0], id);
        lemma_forest_found_iff_counted(fs.skip(1), id);
    }
}

/// A folder put in place of another with the same id is found by that id.
proof fn lemma_find_replaced(t: FolderView, id: Seq<char>, new: FolderView)
    requires
        find(t, id) is Some,
        new.id == id,
    ensures
        find(replaced(t, id, new), id) == Some(new),
    decreases t,
{
    if t.id != id {
        lemma_forest_find_replaced(t.folders, id, new);
    }
}

proof fn lemma_forest_find_replaced(fs: Seq<FolderView>, id: Seq<char>, new: FolderView)
    requires
        forest_find(fs, id) is Some,
        new.id == id,
    ensures
        forest_find(forest_replaced(fs, id, new), id) == Some(new),
    decreases fs,
{
    let out = forest_replaced(fs, id, new);
    if find(fs[0], id) is Some {
        lemma_find_replaced(fs[0], id, new);
    } else {
        lemma_forest_find_replaced(fs.skip(1), id, new);
        assert(out.skip(1) =~= forest_replaced(fs.skip(1), id, new));
    }
}

proof fn lemma_put_count<A>(
    t: FolderView,
    id: Seq<char>,
    new: FolderView,
    own: spec_fn(FolderView) -> Multiset<A>,
    a: A,
)
    requires
        shallow(own),
    ensures
        bag(with_folder_or_root(t, id, new), own).count(a) + bag(folder_or_root(t, id), own).count(
            a,
        ) == bag(t, own).count(a) + bag(new, own).count(a),
{
    if names_folder(t, id) {
        lemma_replaced_count(t, id, new, own, a);
    }
}

/// Moving a site neither loses nor doubles a site, and leaves the folders as
/// they are.
pub proof fn law_move_site_keeps_all(t: FolderView, site_id: Seq<char>, dest_id: Seq<char>)
    requires
        site_moved(t, site_id, dest_id) is Some,
    ensures
        bag(site_moved(t, site_id, dest_id)->0, own_sites()) == bag(t, own_sites()),
        folder_ids(site_moved(t, site_id, dest_id)->0) == folder_ids(t),
        sites_of(site_moved(t, site_id, dest_id)->0).len() == sites_of(t).len(),
{
    let dest = folder_or_root(t, dest_id).id;
    let site = first_site(t, site_id)->0;
    let rest = site_removed(t, site_id);
    let target = folder_or_root(rest, dest);
    let new = FolderView { sites: target.sites.push(site), ..target };
    let out = site_moved(t, site_id, dest_id)->0;
    law_remove_site(t, site_id);
    to_multiset_build(target.sites, site);
    assert(bag(new, own_sites()) =~= bag(target, own_sites()).insert(site));
    assert forall|s: Site| bag(out, own_sites()).count(s) == bag(t, own_sites()).count(s) by {
        lemma_put_count(rest, dest, new, own_sites(), s);
    }
    assert(bag(out, own_sites()) =~= bag(t, own_sites()));
    assert forall|s: Seq<char>| folder_ids(out).count(s) == folder_ids(t).count(s) by {
        lemma_put_count(rest, dest, new, own_id(), s);
    }
    assert(folder_ids(out) =~= folder_ids(t));
    law_all_sites(t);
    law_all_sites(out);
    to_multiset_len(sites_of(t));
    to_multiset_len(sites_of(out));
}

/// A site that moved stands last in the folder it was moved into.
pub proof fn law_move_site_arrives(t: FolderView, site_id: Seq<char>, dest_id: Seq<char>)
    requires
        site_moved(t, site_id, dest_id) is Some,
    ensures
        ({
            let dest = folder_or_root(t, dest_id).id;
            let there = find(site_moved(t, site_id, dest_id)->0, dest);
            &&& there is Some
            &&& there->0.sites.len() > 0
            &&& there->0.sites.last() == first_site(t, site_id)->0
        }),
{
    let dest = folder_or_root(t, dest_id).id;
    let site = first_site(t, site_id)->0;
    let rest = site_removed(t, site_id);
    let target = folder_or_root(rest, dest);
    let new = FolderView { sites: target.sites.push(site), ..target };
    law_remove_site(t, site_id);
    lemma_found_iff_counted(t, dest_id);
    lemma_found_iff_counted(t, dest);
    lemma_found_iff_counted(rest, dest);
    if names_folder(rest, dest) {
        lemma_find_replaced(rest, dest, new);
    } else {
        assert(find(t, t.id) is Some);
        assert(dest.len() == 0);
    }
}

/// Among folders with distinct ids, the folder that a removal takes is the
/// one that a search finds.
proof fn lemma_first_below_is_found(t: FolderView, id: Seq<char>)
    requires
        folder_ids(t).count(id) <= 1,
        t.id != id,
    ensures
        first_below(t, id) == find(t, id),
    decreases t,
{
    lemma_folder_pos(t.folders, id, 0);
    let p = folder_pos(t.folders, id, 0);
    if p < t.folders.len() {
        lemma_forest_find_at(t.folders, id, p);
    } else {
        lemma_forest_first_below_is_found(t.folders, id);
    }
}

proof fn lemma_forest_find_at(fs: Seq<FolderView>, id: Seq<char>, p: int)
    requires
        0 <= p < fs.len(),
        fs[p].id == id,
        forest_bag(fs, own_id()).count(id) <= 1,
    ensures
        forest_find(fs, id) == Some(fs[p]),
    decreases fs,
{
    if p == 0 {
        assert(find(fs[0], id) == Some(fs[0]));
    } else {
        lemma_forest_bag_at(fs.skip(1), own_id(), p - 1);
        assert(fs.skip(1)[p - 1] == fs[p]);
        assert(bag(fs[p], own_id()).count(id) >= 1);
        lemma_found_iff_counted(fs[0], id);
        lemma_forest_find_at(fs.skip(1), id, p - 1);
    }
}

proof fn lemma_forest_first_below_is_found(fs: Seq<FolderView>, id: Seq<char>)
    requires
        forest_bag(fs, own_id()).count(id) <= 1,
        forall|k: int| 0 <= k < fs.len() ==> (#[trigger] fs[k]).id != id,
    ensures
        forest_first_below(fs, id) == forest_find(fs, id),
    decreases fs,
{
    if fs.len() > 0 {
        lemma_first_below_is_found(fs[0], id);
        assert forall|k: int| 0 <= k < fs.skip(1).len() implies (#[trigger] fs.skip(1)[k]).id
            != id by {
            assert(fs.skip(1)[k] == fs[k + 1]);
        }
        lemma_forest_first_below_is_found(fs.skip(1), id);
    }
}

/// Moving a folder neither loses nor doubles a site or a folder.
pub proof fn law_move_folder_keeps_all(t: FolderView, folder_id: Seq<char>, dest_id: Seq<char>)
    requires
        folder_moved(t, folder_id, dest_id) is Some,
    ensures
        bag(folder_moved(t, folder_id, dest_id)->0, own_sites()) == bag(t, own_sites()),
        folder_ids(folder_moved(t, folder_id, dest_id)->0) == folder_ids(t),
        sites_of(folder_moved(t, folder_id, dest_id)->0).len() == sites_of(t).len(),
{
    let out = folder_moved(t, folder_id, dest_id)->0;
    lemma_move_folder_bag(t, folder_id, dest_id, own_sites());
    lemma_move_folder_bag(t, folder_id, dest_id, own_id());
    law_all_sites(t);
    law_all_sites(out);
    to_multiset_len(sites_of(t));
    to_multiset_len(sites_of(out));
}

proof fn lemma_move_folder_bag<A>(
    t: FolderView,
    folder_id: Seq<char>,
    dest_id: Seq<char>,
    own: spec_fn(FolderView) -> Multiset<A>,
)
    requires
        shallow(own),
        folder_moved(t, folder_id, dest_id) is Some,
    ensures
        bag(folder_moved(t, folder_id, dest_id)->0, own) == bag(t, own),
{
    let dest = folder_or_root(t, dest_id).id;
    let folder = first_below(t, folder_id)->0;
    let rest = folder_removed(t, folder_id);
    let target = folder_or_root(rest, dest);
    let new = FolderView { folders: target.folders.push(folder), ..target };
    let out = folder_moved(t, folder_id, dest_id)->0;
    lemma_folder_removed_bag(t, folder_id, own);
    lemma_forest_bag_at(new.folders, own, target.folders.len() as int);
    assert(new.folders.remove(target.folders.len() as int) =~= target.folders);
    assert(bag(new, own) =~= bag(target, own).add(bag(folder, own)));
    assert forall|a: A| bag(out, own).count(a) == bag(t, own).count(a) by {
        lemma_put_count(rest, dest, new, own, a);
    }
    assert(bag(out, own) =~= bag(t, own));
}

/// In a tree whose folders have distinct ids, a folder that moved stands last
/// in the folder it was moved into, whole, and the ids stay distinct.
pub proof fn law_move_folder_arrives(t: FolderView, folder_id: Seq<char>, dest_id: Seq<char>)
    requires
        distinct_folders(t),
        folder_moved(t, folder_id, dest_id) is Some,
    ensures
        distinct_folders(folder_moved(t, folder_id, dest_id)->0),
        ({
            let dest = folder_or_root(t, dest_id).id;
            let there = find(folder_moved(t, folder_id, dest_id)->0, dest);
            &&& there is Some
            &&& there->0.folders.len() > 0
            &&& Some(there->0.folders.last()) == find(t, folder_id)
        }),
{
    let dest = folder_or_root(t, dest_id).id;
    let folder = first_below(t, folder_id)->0;
    let rest = folder_removed(t, folder_id);
    let target = folder_or_root(rest, dest);
    let new = FolderView { folders: target.folders.push(folder), ..target };
    law_move_folder_keeps_all(t, folder_id, dest_id);
    lemma_folder_removed_bag(t, folder_id, own_id());
    lemma_found_iff_counted(t, dest_id);
    assert(find(t, t.id) is Some);
    lemma_found_iff_counted(t, dest);
    lemma_found_iff_counted(rest, dest);
    lemma_first_below_is_found(t, folder_id);
    lemma_found_iff_counted(folder, dest);
    if names_folder(rest, dest) {
        lemma_find_replaced(rest, dest, new);
    } else {
        assert(dest.len() == 0);
    }
}

/// A folder never moves into itself or below itself, and the root never moves.
pub proof fn law_move_folder_no_cycle(t: FolderView, folder_id: Seq<char>, dest_id: Seq<char>)
    requires
        folder_id == t.id || (find(t, folder_id) matches Some(f) && find(
            f,
            folder_or_root(t, dest_id).id,
        ) is Some),
    ensures
        folder_moved(t, folder_id, dest_id) is None,
{
}

/// Updating a site leaves the number of sites and the folders as they are,
/// and the site is found with its new contents.
pub proof fn law_update_site(t: FolderView, site: Site)
    requires
        first_site(t, site.id@) is Some,
    ensures
        sites_of(site_updated(t, site)).len() == sites_of(t).len(),
        folder_ids(site_updated(t, site)) == folder_ids(t),
        first_site(site_updated(t, site), site.id@) == Some(site),
        bag(site_updated(t, site), own_sites()) == bag(t, own_sites()).remove(
            first_site(t, site.id@)->0,
        ).insert(site),
    decreases t,
{
    let out = site_updated(t, site);
    let gone = first_site(t, site.id@)->0;
    lemma_update_site(t, site);
    assert forall|x: Site|
        bag(out, own_sites()).count(x) == bag(t, own_sites()).remove(gone).insert(site).count(x) by {
        lemma_update_site_count(t, site, x);
    }
    assert(bag(out, own_sites()) =~= bag(t, own_sites()).remove(gone).insert(site));
    law_all_sites(t);
    law_all_sites(out);
    to_multiset_len(sites_of(t));
    to_multiset_len(sites_of(out));
}

proof fn lemma_update_site(t: FolderView, site: Site)
    requires
        first_site(t, site.id@) is Some,
    ensures
        folder_ids(site_updated(t, site)) == folder_ids(t),
        first_site(site_updated(t, site), site.id@) == Some(site),
        bag(t, own_sites()).count(first_site(t, site.id@)->0) > 0,
    decreases t,
{
    let p = site_pos(t.sites, site.id@, 0);
    let out = site_updated(t, site);
    lemma_site_pos(t.sites, site.id@, 0);
    if p < t.sites.len() {
        to_multiset_contains(t.sites, t.sites[p]);
        assert(t.sites.contains(t.sites[p]));
        lemma_site_pos(out.sites, site.id@, 0);
        assert(out.sites[p].id@ == site.id@);
        assert forall|k: int| 0 <= k < p implies (#[trigger] out.sites[k]).id@ != site.id@ by {
            assert(out.sites[k] == t.sites[k]);
        }
        assert(site_pos(out.sites, site.id@, 0) == p);
    } else {
        lemma_forest_update_site(t.folders, site);
    }
    assert(folder_ids(out) =~= folder_ids(t));
}

proof fn lemma_forest_update_site(fs: Seq<FolderView>, site: Site)
    requires
        forest_first_site(fs, site.id@) is Some,
    ensures
        forest_bag(forest_site_updated(fs, site), own_id()) == forest_bag(fs, own_id()),
        forest_first_site(forest_site_updated(fs, site), site.id@) == Some(site),
        forest_bag(fs, own_sites()).count(forest_first_site(fs, site.id@)->0) > 0,
    decreases fs,
{
    let out = forest_site_updated(fs, site);
    if first_site(fs[0], site.id@) is Some {
        lemma_update_site(fs[0], site);
        assert(out.skip(1) =~= fs.skip(1));
    } else {
        lemma_forest_update_site(fs.skip(1), site);
        assert(out.skip(1) =~= forest_site_updated(fs.skip(1), site));
    }
    assert(forest_bag(out, own_id()) =~= forest_bag(fs, own_id()));
}

/// One if the two are the same, else none.
spec fn one_if(same: bool) -> nat {
    if same {
        1
    } else {
        0
    }
}

proof fn lemma_update_site_count(t: FolderView, site: Site, x: Site)
    requires
        first_site(t, site.id@) is Some,
    ensures
        bag(site_updated(t, site), own_sites()).count(x) + one_if(
            x == first_site(t, site.id@)->0,
        ) == bag(t, own_sites()).count(x) + one_if(x == site),
    decreases t,
{
    let p = site_pos(t.sites, site.id@, 0);
    lemma_site_pos(t.sites, site.id@, 0);
    if p < t.sites.len() {
        to_multiset_update(t.sites, p, site);
        to_multiset_contains(t.sites, t.sites[p]);
        assert(t.sites.contains(t.sites[p]));
    } else {
        lemma_forest_update_site_count(t.folders, site, x);
    }
}

proof fn lemma_forest_update_site_count(fs: Seq<FolderView>, site: Site, x: Site)
    requires
        forest_first_site(fs, site.id@) is Some,
    ensures
        forest_bag(forest_site_updated(fs, site), own_sites()).count(x) + one_if(
            x == forest_first_site(fs, site.id@)->0,
        ) == forest_bag(fs, own_sites()).count(x) + one_if(x == site),
    decreases fs,
{
    let out = forest_site_updated(fs, site);
    if first_site(fs[0], site.id@) is Some {
        lemma_update_site_count(fs[0], site, x);
        assert(out.skip(1) =~= fs.skip(1));
    } else {
        lemma_forest_update_site_count(fs.skip(1), site, x);
        assert(out.skip(1) =~= forest_site_updated(fs.skip(1), site));
    }
}

/// A tree that holds a site finds one with its id.
proof fn lemma_counted_site_found(t: FolderView, site: Site)
    requires
        bag(t, own_sites()).count(site) > 0,
    ensures
        first_site(t, site.id@) is Some,
    decreases t,
{
    lemma_site_pos(t.sites, site.id@, 0);
    if site_pos(t.sites, site.id@, 0) >= t.sites.len() {
        to_multiset_contains(t.sites, site);
        assert(!t.sites.contains(site));
        lemma_forest_counted_site_found(t.folders, site);
    }
}

proof fn lemma_forest_counted_site_found(fs: Seq<FolderView>, site: Site)
    requires
        forest_bag(fs, own_sites()).count(site) > 0,
    ensures
        forest_first_site(fs, site.id@) is Some,
    decreases fs,
{
    if bag(fs[0], own_sites()).count(site) > 0 {
        lemma_counted_site_found(fs[0], site);
    } else {
        lemma_forest_counted_site_found(fs.skip(1), site);
    }
}

/// Putting a site into a folder, or the root, adds that site and nothing else;
/// where no site had its id before, it is found by it.
pub proof fn law_put_site(t: FolderView, site: Site, id: Seq<char>)
    ensures
        ({
            let target = folder_or_root(t, id);
            let out = with_folder_or_root(
                t,
                id,
                FolderView { sites: target.sites.push(site), ..target },
            );
            &&& bag(out, own_sites()) == bag(t, own_sites()).insert(site)
            &&& sites_of(out).len() == sites_of(t).len() + 1
            &&& first_site(t, site.id@) is None ==> first_site(out, site.id@) == Some(site)
        }),
{
    let target = folder_or_root(t, id);
    let new = FolderView { sites: target.sites.push(site), ..target };
    let out = with_folder_or_root(t, id, new);
    to_multiset_build(target.sites, site);
    assert(bag(new, own_sites()) =~= bag(target, own_sites()).insert(site));
    assert forall|s: Site|
        bag(out, own_sites()).count(s) == bag(t, own_sites()).insert(site).count(s) by {
        lemma_put_count(t, id, new, own_sites(), s);
    }
    assert(bag(out, own_sites()) =~= bag(t, own_sites()).insert(site));
    law_all_sites(t);
    law_all_sites(out);
    to_multiset_len(sites_of(t));
    to_multiset_len(sites_of(out));
    if first_site(t, site.id@) is None {
        lemma_counted_site_found(out, site);
        law_remove_site(out, site.id@);
        let found = first_site(out, site.id@)->0;
        if found != site {
            assert(bag(out, own_sites()).count(found) > 0);
            lemma_counted_site_found(t, found);
        }
    }
}

/// Removing a folder takes its whole subtree, and nothing else; where ids are
/// distinct, it is not found afterwards.
pub proof fn law_remove_folder(t: FolderView, id: Seq<char>)
    requires
        first_below(t, id) is Some,
    ensures
        bag(t, own_sites()) == bag(folder_removed(t, id), own_sites()).add(
            bag(first_below(t, id)->0, own_sites()),
        ),
        folder_ids(t) == folder_ids(folder_removed(t, id)).add(folder_ids(first_below(t, id)->0)),
        first_below(t, id)->0.id == id,
        distinct_folders(t) ==> find(folder_removed(t, id), id) is None,
{
    lemma_folder_removed_bag(t, id, own_sites());
    lemma_folder_removed_bag(t, id, own_id());
    lemma_first_below_id(t, id);
    let gone = first_below(t, id)->0;
    assert(folder_ids(gone).count(id) >= 1);
    lemma_found_iff_counted(folder_removed(t, id), id);
    assert(folder_ids(t).count(id) == folder_ids(folder_removed(t, id)).count(id) + folder_ids(
        gone,
    ).count(id));
}

proof fn lemma_first_below_id(t: FolderView, id: Seq<char>)
    requires
        first_below(t, id) is Some,
    ensures
        first_below(t, id)->0.id == id,
    decreases t,
{
    lemma_folder_pos(t.folders, id, 0);
    if folder_pos(t.folders, id, 0) >= t.folders.len() {
        lemma_forest_first_below_id(t.folders, id);
    }
}

proof fn lemma_forest_first_below_id(fs: Seq<FolderView>, id: Seq<char>)
    requires
        forest_first_below(fs, id) is Some,
    ensures
        forest_first_below(fs, id)->0.id == id,
    decreases fs,
{
    if first_below(fs[0], id) is Some {
        lemma_first_below_id(fs[0], id);
    } else {
        lemma_forest_first_below_id(fs.skip(1), id);
    }
}

/// An empty search leaves the tree as it is.
pub proof fn law_empty_search(t: FolderView)
    ensures
        filtered(t, seq![]) == t,
{
}

/// A search keeps every site that answers to it and adds none: a site that
/// answers occurs as often as before, any other at most as often.
pub proof fn law_search_keeps_matches(t: FolderView, query: Seq<char>, site: Site)
    ensures
        bag(filtered(t, query), own_sites()).count(site) <= bag(t, own_sites()).count(site),
        site_matches(site, query) ==> bag(filtered(t, query), own_sites()).count(site) == bag(
            t,
            own_sites(),
        ).count(site),
    decreases t,
{
    if query.len() > 0 {
        lemma_sites_matching_count(t.sites, query, site);
        lemma_forest_search_count(t.folders, query, site);
    }
}

proof fn lemma_forest_bag_last<A>(fs: Seq<FolderView>, own: spec_fn(FolderView) -> Multiset<A>)
    requires
        fs.len() > 0,
    ensures
        forest_bag(fs, own) == forest_bag(fs.drop_last(), own).add(bag(fs.last(), own)),
{
    lemma_forest_bag_at(fs, own, fs.len() - 1);
    assert(fs.remove(fs.len() - 1) =~= fs.drop_last());
}

proof fn lemma_forest_search_count(fs: Seq<FolderView>, query: Seq<char>, site: Site)
    requires
        query.len() > 0,
    ensures
        forest_bag(forest_filtered(fs, query), own_sites()).count(site) <= forest_bag(
            fs,
            own_sites(),
        ).count(site),
        site_matches(site, query) ==> forest_bag(forest_filtered(fs, query), own_sites()).count(
            site,
        ) == forest_bag(fs, own_sites()).count(site),
    decreases fs,
{
    if fs.len() > 0 {
        let out = forest_filtered(fs, query);
        let last = fs.last();
        let rest = forest_filtered(fs.drop_last(), query);
        lemma_forest_search_count(fs.drop_last(), query, site);
        law_search_keeps_matches(last, query, site);
        lemma_forest_bag_last(fs, own_sites());
        if name_matches(last, query) {
            lemma_forest_bag_last(out, own_sites());
            assert(out.drop_last() =~= rest);
        } else if is_bare(filtered(last, query)) {
            to_multiset_len(filtered(last, query).sites);
            assert(bag(filtered(last, query), own_sites()).count(site) == 0) by {
                assert(filtered(last, query).folders =~= seq![]);
                assert(filtered(last, query).sites.to_multiset().len() == 0);
            }
        } else {
            lemma_forest_bag_last(out, own_sites());
            assert(out.drop_last() =~= rest);
        }
    }
}

proof fn lemma_sites_matching_count(sites: Seq<Site>, query: Seq<char>, site: Site)
    ensures
        sites_matching(sites, query).to_multiset().count(site) == if site_matches(site, query) {
            sites.to_multiset().count(site)
        } else {
            0
        },
    decreases sites.len(),
{
    if sites.len() == 0 {
        to_multiset_len(sites);
        to_multiset_len(sites_matching(sites, query));
    } else {
        lemma_sites_matching_count(sites.drop_last(), query, site);
        assert(sites =~= sites.drop_last().push(sites.last()));
        to_multiset_build(sites.drop_last(), sites.last());
        to_multiset_build(sites_matching(sites.drop_last(), query), sites.last());
    }
}

/// Searching what a search left, for the same words, leaves it as it is.
pub proof fn law_search_again(t: FolderView, query: Seq<char>)
    ensures
        filtered(filtered(t, query), query) == filtered(t, query),
    decreases t,
{
    if query.len() > 0 {
        lemma_sites_matching_again(t.sites, query);
        lemma_forest_search_again(t.folders, query);
    }
}

proof fn lemma_sites_matching_again(sites: Seq<Site>, query: Seq<char>)
    ensures
        sites_matching(sites_matching(sites, query), query) == sites_matching(sites, query),
    decreases sites.len(),
{
    if sites.len() > 0 {
        lemma_sites_matching_again(sites.drop_last(), query);
        let rest = sites_matching(sites.drop_last(), query);
        if site_matches(sites.last(), query) {
            assert(rest.push(sites.last()).drop_last() =~= rest);
        }
    }
}

proof fn lemma_forest_search_again(fs: Seq<FolderView>, query: Seq<char>)
    requires
        query.len() > 0,
    ensures
        forest_filtered(forest_filtered(fs, query), query) == forest_filtered(fs, query),
    decreases fs,
{
    if fs.len() > 0 {
        let rest = forest_filtered(fs.drop_last(), query);
        let last = fs.last();
        lemma_forest_search_again(fs.drop_last(), query);
        law_search_again(last, query);
        if name_matches(last, query) {
            assert(rest.push(last).drop_last() =~= rest);
        } else if !is_bare(filtered(last, query)) {
            assert(rest.push(filtered(last, query)).drop_last() =~= rest);
        }
    }
}

proof fn lemma_site_pos_split(a: Seq<Site>, b: Seq<Site>, id: Seq<char>)
    ensures
        site_pos(a + b, id, 0) == if site_pos(a, id, 0) < a.len() {
            site_pos(a, id, 0)
        } else {
            a.len() + site_pos(b, id, 0)
        },
{
    let all = a + b;
    lemma_site_pos(a, id, 0);
    lemma_site_pos(b, id, 0);
    lemma_site_pos(all, id, 0);
    let p = site_pos(a, id, 0);
    let q = site_pos(b, id, 0);
    let r = site_pos(all, id, 0);
    if p < a.len() {
        assert(all[p].id@ == id);
        if r < p {
            assert(all[r] == a[r]);
        }
    } else {
        if r < a.len() {
            assert(all[r] == a[r]);
        }
        if q < b.len() {
            assert(all[a.len() + q] == b[q]);
            assert(all[a.len() + q].id@ == id);
        }
        if r < all.len() && r >= a.len() {
            assert(all[r] == b[r - a.len()]);
        }
    }
}

/// The site with an id is the first of all sites that has it. There is one
/// wherever one of them does, however deep in the tree it lies.
pub proof fn law_first_site(t: FolderView, id: Seq<char>)
    ensures
        ({
            let all = sites_of(t);
            let p = site_pos(all, id, 0);
            &&& first_site(t, id) is Some <==> p < all.len()
            &&& first_site(t, id) is Some ==> first_site(t, id)->0 == all[p]
            &&& forall|i: int|
                0 <= i < all.len() && (#[trigger] all[i]).id@ == id ==> first_site(t, id) is Some
        }),
    decreases t,
{
    lemma_site_pos(t.sites, id, 0);
    lemma_forest_first_in(t.folders, id);
    lemma_site_pos_split(t.sites, forest_sites(t.folders), id);
    lemma_site_pos(sites_of(t), id, 0);
    lemma_site_pos(forest_sites(t.folders), id, 0);
}

proof fn lemma_forest_first_in(fs: Seq<FolderView>, id: Seq<char>)
    ensures
        ({
            let all = forest_sites(fs);
            let p = site_pos(all, id, 0);
            &&& forest_first_site(fs, id) is Some <==> p < all.len()
            &&& forest_first_site(fs, id) is Some ==> forest_first_site(fs, id)->0 == all[p]
        }),
    decreases fs,
{
    if fs.len() > 0 {
        law_first_site(fs[0], id);
        lemma_forest_first_in(fs.skip(1), id);
        lemma_site_pos_split(sites_of(fs[0]), forest_sites(fs.skip(1)), id);
        lemma_site_pos(sites_of(fs[0]), id, 0);
        lemma_site_pos(forest_sites(fs.skip(1)), id, 0);
    }
}

/// A site is updated and removed where it stands: in the list of all sites the
/// new one takes the place of the old, or the old one is left out, and all
/// others keep their order.
pub proof fn law_sites_in_place(t: FolderView, site: Site)
    requires
        first_site(t, site.id@) is Some,
    ensures
        sites_of(site_updated(t, site)) == sites_of(t).update(
            site_pos(sites_of(t), site.id@, 0),
            site,
        ),
        sites_of(site_removed(t, site.id@)) == sites_of(t).remove(
            site_pos(sites_of(t), site.id@, 0),
        ),
    decreases t,
{
    let id = site.id@;
    let below = forest_sites(t.folders);
    lemma_site_pos(t.sites, id, 0);
    lemma_site_pos_split(t.sites, below, id);
    let p = site_pos(t.sites, id, 0);
    if p < t.sites.len() {
        assert(t.sites.update(p, site) + below =~= sites_of(t).update(p, site));
        assert(t.sites.remove(p) + below =~= sites_of(t).remove(p));
    } else {
        lemma_forest_sites_in_place(t.folders, site);
        lemma_forest_first_in(t.folders, id);
        let q = site_pos(below, id, 0);
        lemma_site_pos(below, id, 0);
        assert(t.sites + below.update(q, site) =~= sites_of(t).update(t.sites.len() + q, site));
        assert(t.sites + below.remove(q) =~= sites_of(t).remove(t.sites.len() + q));
    }
}

proof fn lemma_forest_sites_in_place(fs: Seq<FolderView>, site: Site)
    requires
        forest_first_site(fs, site.id@) is Some,
    ensures
        forest_sites(forest_site_updated(fs, site)) == forest_sites(fs).update(
            site_pos(forest_sites(fs), site.id@, 0),
            site,
        ),
        forest_sites(forest_site_removed(fs, site.id@)) == forest_sites(fs).remove(
            site_pos(forest_sites(fs), site.id@, 0),
        ),
    decreases fs,
{
    let id = site.id@;
    let head = sites_of(fs[0]);
    let rest = forest_sites(fs.skip(1));
    law_first_site(fs[0], id);
    lemma_site_pos_split(head, rest, id);
    lemma_site_pos(head, id, 0);
    let up = forest_site_updated(fs, site);
    let out = forest_site_removed(fs, id);
    if first_site(fs[0], id) is Some {
        law_sites_in_place(fs[0], site);
        let p = site_pos(head, id, 0);
        assert(up.skip(1) =~= fs.skip(1));
        assert(out.skip(1) =~= fs.skip(1));
        assert(head.update(p, site) + rest =~= (head + rest).update(p, site));
        assert(head.remove(p) + rest =~= (head + rest).remove(p));
    } else {
        lemma_forest_sites_in_place(fs.skip(1), site);
        lemma_forest_first_in(fs.skip(1), id);
        lemma_site_pos(rest, id, 0);
        let q = site_pos(rest, id, 0);
        assert(up.skip(1) =~= forest_site_updated(fs.skip(1), site));
        assert(out.skip(1) =~= forest_site_removed(fs.skip(1), id));
        assert(head + rest.update(q, site) =~= (head + rest).update(head.len() + q, site));
        assert(head + rest.remove(q) =~= (head + rest).remove(head.len() + q));
    }
}

/// A folder is found by its id wherever it lies in the tree, the root among
/// them, and only where one has that id.
pub proof fn law_find_folder(t: FolderView, id: Seq<char>)
    ensures
        find(t, id) is Some <==> folder_ids(t).count(id) > 0,
        find(t, id) is Some ==> find(t, id)->0.id == id,
        find(t, t.id) == Some(t),
    decreases t,
{
    lemma_found_iff_counted(t, id);
    lemma_forest_found_id(t.folders, id);
}

proof fn lemma_forest_found_id(fs: Seq<FolderView>, id: Seq<char>)
    ensures
        forest_find(fs, id) is Some ==> forest_find(fs, id)->0.id == id,
    decreases fs,
{
    if fs.len() > 0 {
        law_find_folder(fs[0], id);
        lemma_forest_found_id(fs.skip(1), id);
    }
}

/// An id that names a folder stands for it, and an empty or unknown one for
/// the root.
pub proof fn law_destination(t: FolderView, id: Seq<char>)
    ensures
        id.len() > 0 && find(t, id) is Some ==> folder_or_root(t, id).id == id && Some(
            folder_or_root(t, id),
        ) == find(t, id),
        id.len() == 0 || find(t, id) is None ==> folder_or_root(t, id) == t,
{
    law_find_folder(t, id);
}

proof fn lemma_below_iff_found(t: FolderView, id: Seq<char>)
    ensures
        first_below(t, id) is Some <==> forest_find(t.folders, id) is Some,
    decreases t,
{
    lemma_forest_below_iff_found(t.folders, id);
}

proof fn lemma_forest_below_iff_found(fs: Seq<FolderView>, id: Seq<char>)
    ensures
        forest_find(fs, id) is Some <==> folder_pos(fs, id, 0) < fs.len() || forest_first_below(
            fs,
            id,
        ) is Some,
    decreases fs,
{
    lemma_folder_pos(fs, id, 0);
    if fs.len() > 0 {
        let rest = fs.skip(1);
        lemma_below_iff_found(fs[0], id);
        lemma_forest_below_iff_found(rest, id);
        lemma_folder_pos(rest, id, 0);
        let p = folder_pos(fs, id, 0);
        let q = folder_pos(rest, id, 0);
        if q < rest.len() {
            assert(fs[q + 1].id == id);
        }
        if 0 < p && p < fs.len() {
            assert(rest[p - 1].id == id);
        }
        assert(find(fs[0], id) is Some <==> fs[0].id == id || forest_find(fs[0].folders, id) is Some);
        assert(fs[0].id == id ==> p == 0);
        assert(p < fs.len() <==> fs[0].id == id || q < rest.len());
    }
}

/// Whatever is in the tree lies in a folder of it, the root itself aside: an
/// id has a parent exactly when a site or a folder below the root has that id,
/// and what lies directly in the root has the root as its parent.
pub proof fn law_parent_of(t: FolderView, id: Seq<char>)
    ensures
        parent_of(t, id) is Some <==> first_site(t, id) is Some || first_below(t, id) is Some,
        parent_of(t, id) is Some ==> folder_ids(t).count(parent_of(t, id)->0) > 0,
        forall|i: int|
            0 <= i < t.sites.len() && (#[trigger] t.sites[i]).id@ == id ==> parent_of(t, id) == Some(
                t.id,
            ),
        forall|i: int|
            0 <= i < t.folders.len() && (#[trigger] t.folders[i]).id == id ==> parent_of(t, id)
                == Some(t.id),
    decreases t,
{
    lemma_site_pos(t.sites, id, 0);
    lemma_folder_pos(t.folders, id, 0);
    lemma_forest_parent(t.folders, id);
    assert(own_id()(t).count(t.id) == 1);
}

proof fn lemma_forest_parent(fs: Seq<FolderView>, id: Seq<char>)
    ensures
        forest_parent_of(fs, id) is Some <==> forest_first_site(fs, id) is Some
            || forest_first_below(fs, id) is Some,
        forest_parent_of(fs, id) is Some ==> forest_bag(fs, own_id()).count(
            forest_parent_of(fs, id)->0,
        ) > 0,
    decreases fs,
{
    if fs.len() > 0 {
        law_parent_of(fs[0], id);
        lemma_forest_parent(fs.skip(1), id);
    }
}

/// A site moves whenever it is in the tree and not yet in the folder it is to
/// go to.
pub proof fn law_move_site_succeeds(t: FolderView, site_id: Seq<char>, dest_id: Seq<char>)
    ensures
        site_moved(t, site_id, dest_id) is Some <==> site_pos(sites_of(t), site_id, 0) < sites_of(
            t,
        ).len() && parent_of(t, site_id) != Some(folder_or_root(t, dest_id).id),
{
    law_first_site(t, site_id);
}

/// A folder moves whenever it is in the tree, below the root, and the folder
/// it is to go to neither holds it already nor lies within it.
pub proof fn law_move_folder_succeeds(t: FolderView, folder_id: Seq<char>, dest_id: Seq<char>)
    ensures
        folder_moved(t, folder_id, dest_id) is Some <==> {
            let dest = folder_or_root(t, dest_id).id;
            &&& folder_id != t.id
            &&& folder_ids(t).count(folder_id) > 0
            &&& folder_ids(find(t, folder_id)->0).count(dest) == 0
            &&& parent_of(t, folder_id) != Some(dest)
        },
{
    let dest = folder_or_root(t, dest_id).id;
    law_find_folder(t, folder_id);
    if find(t, folder_id) is Some {
        law_find_folder(find(t, folder_id)->0, dest);
    }
    lemma_below_iff_found(t, folder_id);
}

/// A search finds a site by a part of its name, of its host or of its user,
/// each of them alone being enough, and by nothing else.
pub proof fn law_site_search(site: Site, query: Seq<char>)
    ensures
        query.len() == 0 ==> site_matches(site, query),
        contains_text(lowercase(site.name@), query) ==> site_matches(site, query),
        contains_text(lowercase(site.host@), query) ==> site_matches(site, query),
        site.user is Some && contains_text(lowercase(site.user->0@), query) ==> site_matches(
            site,
            query,
        ),
        query.len() > 0 && !contains_text(lowercase(site.name@), query) && !contains_text(
            lowercase(site.host@),
            query,
        ) && site_matches(site, query) ==> site.user is Some && contains_text(
            lowercase(site.user->0@),
            query,
        ),
{
}

/// What a search leaves of a folder: of its own sites those that match, in
/// their order and no others. Of its subfolders each one whose name matches,
/// whole, and of every other one what the search leaves of it, unless that is
/// nothing.
pub proof fn law_search_leaves(t: FolderView, query: Seq<char>, site: Site, sub: FolderView)
    requires
        query.len() > 0,
    ensures
        filtered(t, query).id == t.id,
        filtered(t, query).name == t.name,
        forall|i: int|
            0 <= i < filtered(t, query).sites.len() ==> site_matches(
                #[trigger] filtered(t, query).sites[i],
                query,
            ),
        ({
            let more = filtered(FolderView { sites: t.sites.push(site), ..t }, query).sites;
            &&& site_matches(site, query) ==> more == filtered(t, query).sites.push(site)
            &&& !site_matches(site, query) ==> more == filtered(t, query).sites
        }),
        ({
            let more = filtered(FolderView { folders: t.folders.push(sub), ..t }, query).folders;
            let had = filtered(t, query).folders;
            &&& contains_text(lowercase(sub.name), query) ==> more == had.push(sub)
            &&& !contains_text(lowercase(sub.name), query) && filtered(sub, query).sites.len() == 0
                && filtered(sub, query).folders.len() == 0 ==> more == had
            &&& !contains_text(lowercase(sub.name), query) && (filtered(sub, query).sites.len() > 0
                || filtered(sub, query).folders.len() > 0) ==> more == had.push(
                filtered(sub, query),
            )
        }),
{
    lemma_all_match(t.sites, query);
    assert(t.sites.push(site).drop_last() =~= t.sites);
    assert(t.folders.push(sub).drop_last() =~= t.folders);
}

proof fn lemma_all_match(sites: Seq<Site>, query: Seq<char>)
    ensures
        forall|i: int|
            0 <= i < sites_matching(sites, query).len() ==> site_matches(
                #[trigger] sites_matching(sites, query)[i],
                query,
            ),
    decreases sites.len(),
{
    if sites.len() > 0 {
        lemma_all_match(sites.drop_last(), query);
        let before = sites_matching(sites.drop_last(), query);
        let now = sites_matching(sites, query);
        assert forall|i: int| 0 <= i < now.len() implies site_matches(#[trigger] now[i], query) by {
            if i < before.len() {
                assert(now[i] == before[i]);
            }
        }
    }
}

/// A site that is put into a folder stands last in it.
pub proof fn law_put_site_last(t: FolderView, site: Site, id: Seq<char>)
    ensures
        ({
            let target = folder_or_root(t, id);
            let out = with_folder_or_root(
                t,
                id,
                FolderView { sites: target.sites.push(site), ..target },
            );
            let there = find(out, target.id);
            there is Some && there->0.sites == target.sites.push(site) && there->0.folders
                == target.folders
        }),
{
    let target = folder_or_root(t, id);
    let new = FolderView { sites: target.sites.push(site), ..target };
    law_find_folder(t, id);
    if names_folder(t, id) {
        lemma_find_replaced(t, id, new);
    }
}

/// A folder that is put into another stands last in it, with all it has, and
/// nothing else changes.
pub proof fn law_put_folder(t: FolderView, folder: FolderView, id: Seq<char>)
    ensures
        ({
            let target = folder_or_root(t, id);
            let out = with_folder_or_root(
                t,
                id,
                FolderView { folders: target.folders.push(folder), ..target },
            );
            let there = find(out, target.id);
            &&& there is Some
            &&& there->0.folders == target.folders.push(folder)
            &&& there->0.sites == target.sites
            &&& folder_ids(out) == folder_ids(t).add(folder_ids(folder))
            &&& sites_of(out).to_multiset() == sites_of(t).to_multiset().add(
                sites_of(folder).to_multiset(),
            )
            &&& folder.folders.len() == 0 ==> folder_ids(out) == folder_ids(t).insert(folder.id)
            &&& folder.folders.len() == 0 && folder.sites.len() == 0 ==> sites_of(out).to_multiset()
                == sites_of(t).to_multiset()
        }),
{
    let target = folder_or_root(t, id);
    let new = FolderView { folders: target.folders.push(folder), ..target };
    let out = with_folder_or_root(t, id, new);
    law_find_folder(t, id);
    if names_folder(t, id) {
        lemma_find_replaced(t, id, new);
    }
    assert(target.folders.push(folder).drop_last() =~= target.folders);
    lemma_forest_bag_last(target.folders.push(folder), own_id());
    lemma_forest_bag_last(target.folders.push(folder), own_sites());
    assert(own_id()(new) == own_id()(target));
    assert(own_sites()(new) == own_sites()(target));
    assert forall|a: Seq<char>|
        folder_ids(out).count(a) == folder_ids(t).add(folder_ids(folder)).count(a) by {
        lemma_put_count(t, id, new, own_id(), a);
        assert(bag(new, own_id()).count(a) == bag(target, own_id()).count(a) + bag(
            folder,
            own_id(),
        ).count(a));
    }
    assert(folder_ids(out) =~= folder_ids(t).add(folder_ids(folder)));
    assert forall|a: Site|
        bag(out, own_sites()).count(a) == bag(t, own_sites()).add(bag(folder, own_sites())).count(
            a,
        ) by {
        lemma_put_count(t, id, new, own_sites(), a);
        assert(bag(new, own_sites()).count(a) == bag(target, own_sites()).count(a) + bag(
            folder,
            own_sites(),
        ).count(a));
    }
    assert(bag(out, own_sites()) =~= bag(t, own_sites()).add(bag(folder, own_sites())));
    law_all_sites(t);
    law_all_sites(out);
    law_all_sites(folder);
    if folder.folders.len() == 0 {
        assert(folder_ids(folder) =~= Multiset::singleton(folder.id));
        assert(folder_ids(out) =~= folder_ids(t).insert(folder.id));
        if folder.sites.len() == 0 {
            to_multiset_len(folder.sites);
            assert(sites_of(folder) =~= Seq::<Site>::empty());
            to_multiset_len(sites_of(folder));
            assert(sites_of(out).to_multiset() =~= sites_of(t).to_multiset());
        }
    }
}

/// The place of a site is the first at which its id stands, and behind the last
/// where it stands nowhere.
pub proof fn law_site_position(sites: Seq<Site>, id: Seq<char>)
    ensures
        0 <= site_pos(sites, id, 0) <= sites.len(),
        site_pos(sites, id, 0) < sites.len() ==> sites[site_pos(sites, id, 0)].id@ == id,
        forall|k: int| 0 <= k < site_pos(sites, id, 0) ==> (#[trigger] sites[k]).id@ != id,
{
    lemma_site_pos(sites, id, 0);
}

} // verus!
