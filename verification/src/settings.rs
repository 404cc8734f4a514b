//! The site manager: an in-app tree of folders and saved connections.
//! Passwords and key passphrases are never part of it; they live in the OS
//! keyring under the site id.

use crate::text::{
    contains, contains_text, decimal, law_parts, same, to_decimal, to_lower,
};
use crate::tree::{
    filtered, find, first_below, first_site, folder_moved, folder_or_root, folder_pos,
    folder_removed, forest_filtered, forest_replaced, forest_sites, holds, lemma_forest_find,
    lemma_forest_first_below, lemma_forest_first_site, lemma_forest_parent_of,
    lemma_forest_site_updated, lemma_forest_sites_prefix, lemma_forest_sites_split,
    lemma_subfolder_smaller, parent_of, replaced, site_matches, site_moved, site_pos, site_removed,
    site_updated, sites_matching, sites_of, with_folder_or_root, FolderView,
};
use crate::types::{
    copy_non_empty, copy_opt, non_empty, opt_text, AuthMethod, ConnectSpec, Elevation,
};
use vstd::prelude::*;
use vstd::string::*;

verus! {

/// A saved connection in the site manager.
#[derive(Debug)]
pub struct Site {
    pub id: String,
    pub name: String,
    pub host: String,
    pub port: Option<u16>,
    pub user: Option<String>,
    pub auth: AuthMethod,
    pub identity_file: Option<String>,
    pub elevation: Elevation,
    pub remote_dir: Option<String>,
    /// True if a secret (password/passphrase) is stored in the keyring.
    pub has_secret: bool,
}

impl Clone for Site {
    fn clone(&self) -> (r: Self)
        ensures
            r == *self,
    {
        Site {
            id: self.id.clone(),
            name: self.name.clone(),
            host: self.host.clone(),
            port: self.port,
            user: copy_opt(&self.user),
            auth: self.auth,
            identity_file: copy_opt(&self.identity_file),
            elevation: self.elevation,
            remote_dir: copy_opt(&self.remote_dir),
            has_secret: self.has_secret,
        }
    }
}

/// Whether `s` has the form of a random (version 4) UUID in lower case.
pub open spec fn is_random_id(s: Seq<char>) -> bool {
    &&& s.len() == 36
    &&& forall|i: int|
        0 <= i < 36 ==> if i == 8 || i == 13 || i == 18 || i == 23 {
            #[trigger] s[i] == '-'
        } else {
            ('0' <= s[i] && s[i] <= '9') || ('a' <= s[i] && s[i] <= 'f')
        }
    &&& s[14] == '4'
    &&& s[19] == '8' || s[19] == '9' || s[19] == 'a' || s[19] == 'b'
}

/// A fresh id: `uuid::Uuid::new_v4`, written out by its `Display`. The id is
/// random; every outcome is 36 characters long, lower-case hexadecimal with
/// hyphens after the eighth, twelfth, sixteenth and twentieth digit, with the
/// version digit 4 and the variant digit 8, 9, a or b. That two ids differ is
/// left to chance.
#[verifier::external_body]
fn new_id() -> (r: String)
    ensures
        is_random_id(r@),
{
    uuid::Uuid::new_v4().to_string()
}

/// Whether a search finds one of the texts.
pub open spec fn finds(
    name: Seq<char>,
    host: Seq<char>,
    user: Option<Seq<char>>,
    query: Seq<char>,
) -> bool {
    query.len() == 0 || contains_text(name, query) || contains_text(host, query) || (user is Some
        && contains_text(user->0, query))
}

/// A search finds a part of any of the texts, wherever it stands in it, and an
/// empty one finds anything. It finds nothing that is in none of them.
pub proof fn law_finds(
    before: Seq<char>,
    query: Seq<char>,
    after: Seq<char>,
    other: Seq<char>,
    user: Option<Seq<char>>,
)
    ensures
        finds(before + query + after, other, user, query),
        finds(other, before + query + after, user, query),
        finds(other, other, Some(before + query + after), query),
        finds(before, other, user, Seq::empty()),
        query.len() > 0 && !contains_text(other, query) ==> !finds(other, other, None, query),
{
    law_parts(before, query, after);
}

/// Whether a search finds one of a site's texts, given in lower case.
pub fn found_in(name: &str, host: &str, user: Option<&str>, query: &str) -> (r: bool)
    ensures
        r == finds(
            name@,
            host@,
            match user {
                Some(u) => Some(u@),
                None => None,
            },
            query@,
        ),
{
    query.unicode_len() == 0 || contains(name, query) || contains(host, query) || match user {
        Some(u) => contains(u, query),
        None => false,
    }
}

/// Whether `r` is how to connect to the site.
pub open spec fn is_spec_of(r: ConnectSpec, site: Site) -> bool {
    &&& r.host@ == site.host@
    &&& r.port == site.port
    &&& opt_text(r.user) == non_empty(site.user)
    &&& r.auth == site.auth
    &&& opt_text(r.identity_file) == non_empty(site.identity_file)
    &&& r.elevation == site.elevation
    &&& opt_text(r.remote_dir) == non_empty(site.remote_dir)
    &&& r.sftp_server_path is None
    &&& r.extra_ssh_args@.len() == 0
    &&& r.secret is None
}

/// Connecting to a site goes to its host, by its port, as its user, by its way
/// to authenticate and with its key, and opens its directory; what was left
/// empty is left to ssh. No secret is in it, nor any further argument.
pub proof fn law_site_connects(r: ConnectSpec, site: Site)
    requires
        is_spec_of(r, site),
    ensures
        r.host@ == site.host@ && r.port == site.port && r.auth == site.auth && r.elevation
            == site.elevation,
        site.user is Some && site.user->0@.len() > 0 ==> r.user is Some && r.user->0@
            == site.user->0@,
        site.user is None || site.user->0@.len() == 0 ==> r.user is None,
        site.identity_file is Some && site.identity_file->0@.len() > 0 ==> r.identity_file is Some
            && r.identity_file->0@ == site.identity_file->0@,
        site.identity_file is None || site.identity_file->0@.len() == 0 ==> r.identity_file is None,
        site.remote_dir is Some && site.remote_dir->0@.len() > 0 ==> r.remote_dir is Some
            && r.remote_dir->0@ == site.remote_dir->0@,
        site.remote_dir is None || site.remote_dir->0@.len() == 0 ==> r.remote_dir is None,
        r.secret is None && r.extra_ssh_args@.len() == 0 && r.sftp_server_path is None,
{
}

/// A site is shown as "user@host:port": the host always, a user with an at sign
/// before it where there is one, and a port with a colon behind it where there
/// is one, neither depending on the other.
pub proof fn law_site_summary(site: Site)
    ensures
        ({
            let no_user = Site { user: None, ..site };
            let no_port = Site { port: None, ..site };
            let bare = Site { user: None, port: None, ..site };
            &&& bare.summary_text() == site.host@
            &&& site.user is Some && site.user->0@.len() > 0 ==> site.summary_text()
                == site.user->0@ + seq!['@'] + no_user.summary_text()
            &&& site.user is Some && site.user->0@.len() == 0 ==> site.summary_text()
                == no_user.summary_text()
            &&& site.port is Some ==> site.summary_text() == no_port.summary_text() + seq![':']
                + decimal(site.port->0 as nat)
        }),
{
    let no_user = Site { user: None, ..site };
    let no_port = Site { port: None, ..site };
    let bare = Site { user: None, port: None, ..site };
    assert(bare.summary_text() =~= site.host@);
    if site.user is Some && site.user->0@.len() > 0 {
        assert(site.summary_text() =~= site.user->0@ + seq!['@'] + no_user.summary_text());
    }
    if site.port is Some {
        assert(site.summary_text() =~= no_port.summary_text() + seq![':'] + decimal(
            site.port->0 as nat,
        ));
    }
}

impl Site {
    /// A site with a fresh id and nothing but a name and a host.
    pub fn new(name: &str, host: &str) -> (r: Self)
        ensures
            is_random_id(r.id@),
            r.name@ == name@,
            r.host@ == host@,
            r.port is None,
            r.user is None,
            r.auth == AuthMethod::Agent,
            r.identity_file is None,
            r.elevation == Elevation::Plain,
            r.remote_dir is None,
            !r.has_secret,
    {
        Site {
            id: new_id(),
            name: name.to_owned(),
            host: host.to_owned(),
            port: None,
            user: None,
            auth: AuthMethod::Agent,
            identity_file: None,
            elevation: Elevation::Plain,
            remote_dir: None,
            has_secret: false,
        }
    }

    /// "user@host:port", without what is not set.
    pub open spec fn summary_text(self) -> Seq<char> {
        let user = match non_empty(self.user) {
            Some(u) => u.push('@'),
            None => seq![],
        };
        let port = match self.port {
            Some(p) => seq![':'] + decimal(p as nat),
            None => seq![],
        };
        user + self.host@ + port
    }

    /// Human-readable "user@host:port" summary for list subtitles.
    pub fn summary(&self) -> (r: String)
        ensures
            r@ == self.summary_text(),
    {
        let mut s = String::new();
        if let Some(user) = &self.user {
            if user.as_str().unicode_len() > 0 {
                s.append(user.as_str());
                s.push('@');
            }
        }
        s.append(self.host.as_str());
        if let Some(port) = self.port {
            s.push(':');
            s.append(to_decimal(port as u64).as_str());
        }
        assert(s@ =~= self.summary_text());
        s
    }

    /// Case-insensitive match against the name, host, and user, for the
    /// site-manager search box. `query` must already be lowercase.
    pub fn matches(&self, query: &str) -> (r: bool)
        ensures
            r == site_matches(*self, query@),
    {
        let name = to_lower(self.name.as_str());
        let host = to_lower(self.host.as_str());
        match &self.user {
            Some(u) => {
                let user = to_lower(u.as_str());
                found_in(name.as_str(), host.as_str(), Some(user.as_str()), query)
            },
            None => found_in(name.as_str(), host.as_str(), None, query),
        }
    }

    /// Build a connection spec from this site. The secret (if any) is loaded
    /// separately by the caller and assigned to `spec.secret`.
    pub fn to_spec(&self) -> (r: ConnectSpec)
        ensures
            is_spec_of(r, *self),
    {
        ConnectSpec {
            host: self.host.clone(),
            port: self.port,
            user: copy_non_empty(&self.user),
            auth: self.auth,
            identity_file: copy_non_empty(&self.identity_file),
            elevation: self.elevation,
            remote_dir: copy_non_empty(&self.remote_dir),
            sftp_server_path: None,
            extra_ssh_args: Vec::new(),
            secret: None,
        }
    }
}

/// A folder in the site tree. Folders nest arbitrarily and hold sites.
#[derive(Debug)]
pub struct Folder {
    pub id: String,
    pub name: String,
    pub folders: Vec<Folder>,
    pub sites: Vec<Site>,
}

impl Default for Folder {
    /// A fresh, unique id so programmatically-created folders never
    /// collide (an empty id would match the root and every sibling).
    fn default() -> (r: Self)
        ensures
            is_random_id(r.id@),
            r.name@.len() == 0,
            r.folders@.len() == 0,
            r.sites@.len() == 0,
    {
        Folder { id: new_id(), name: String::new(), folders: Vec::new(), sites: Vec::new() }
    }
}

impl Clone for Folder {
    fn clone(&self) -> (r: Self)
        ensures
            r@ == self@,
    {
        self.copied()
    }
}

impl Folder {
    pub open spec fn view(self) -> FolderView
        decreases self,
    {
        FolderView {
            id: self.id@,
            name: self.name@,
            folders: Seq::new(
                self.folders@.len(),
                |i: int|
                    if 0 <= i < self.folders@.len() {
                        self.folders@[i].view()
                    } else {
                        arbitrary()
                    },
            ),
            sites: self.sites@,
        }
    }

    /// An empty folder with a fresh id.
    pub fn new(name: &str) -> (r: Self)
        ensures
            is_random_id(r.id@),
            r.name@ == name@,
            r.folders@.len() == 0,
            r.sites@.len() == 0,
    {
        Folder { id: new_id(), name: name.to_owned(), folders: Vec::new(), sites: Vec::new() }
    }

    /// The subtree, every folder and site of it copied.
    fn copied(&self) -> (r: Self)
        ensures
            r@ == self@,
        decreases self@,
    {
        let mut folders: Vec<Folder> = Vec::new();
        let mut i: usize = 0;
        while i < self.folders.len()
            invariant
                i <= self.folders@.len(),
                folders@.len() == i,
                forall|k: int| 0 <= k < i ==> (#[trigger] folders@[k])@ == self.folders@[k]@,
            decreases self.folders@.len() - i,
        {
            proof {
                lemma_subfolder_smaller(self@, i as int);
            }
            folders.push(self.folders[i].copied());
            i += 1;
        }
        let mut sites: Vec<Site> = Vec::new();
        let mut j: usize = 0;
        while j < self.sites.len()
            invariant
                j <= self.sites@.len(),
                sites@ == self.sites@.take(j as int),
            decreases self.sites@.len() - j,
        {
            sites.push(self.sites[j].clone());
            j += 1;
            assert(self.sites@.take(j as int) =~= self.sites@.take(j - 1).push(self.sites@[j - 1]));
        }
        assert(self.sites@.take(j as int) =~= self.sites@);
        let r = Folder { id: self.id.clone(), name: self.name.clone(), folders, sites };
        assert(r@.folders =~= self@.folders);
        r
    }

    /// Depth-first iterator over every site in this subtree.
    pub fn all_sites(&self) -> (r: Vec<&Site>)
        ensures
            r@.len() == sites_of(self@).len(),
            forall|i: int| 0 <= i < r@.len() ==> *#[trigger] r@[i] == sites_of(self@)[i],
        decreases self@,
    {
        let mut out: Vec<&Site> = Vec::new();
        let mut i: usize = 0;
        while i < self.sites.len()
            invariant
                i <= self.sites@.len(),
                out@.len() == i,
                forall|k: int| 0 <= k < i ==> *#[trigger] out@[k] == self.sites@[k],
            decreases self.sites@.len() - i,
        {
            out.push(&self.sites[i]);
            i += 1;
        }
        let mut j: usize = 0;
        while j < self.folders.len()
            invariant
                j <= self.folders@.len(),
                out@.len() == (self.sites@ + forest_sites(self@.folders.take(j as int))).len(),
                forall|k: int|
                    0 <= k < out@.len() ==> *#[trigger] out@[k] == (self.sites@ + forest_sites(
                        self@.folders.take(j as int),
                    ))[k],
            decreases self.folders@.len() - j,
        {
            proof {
                lemma_subfolder_smaller(self@, j as int);
            }
            let mut below = self.folders[j].all_sites();
            proof {
                lemma_forest_sites_split(self@.folders, j as int);
            }
            out.append(&mut below);
            j += 1;
        }
        assert(self@.folders.take(j as int) =~= self@.folders);
        out
    }

    /// Total number of sites in this subtree.
    pub fn site_count(&self) -> (r: usize)
        requires
            sites_of(self@).len() <= usize::MAX,
        ensures
            r == sites_of(self@).len(),
        decreases self@,
    {
        let mut n: usize = self.sites.len();
        let mut j: usize = 0;
        while j < self.folders.len()
            invariant
                j <= self.folders@.len(),
                n == self.sites@.len() + forest_sites(self@.folders.take(j as int)).len(),
                sites_of(self@).len() <= usize::MAX,
            decreases self.folders@.len() - j,
        {
            proof {
                lemma_subfolder_smaller(self@, j as int);
                lemma_forest_sites_split(self@.folders, j as int);
                lemma_forest_sites_prefix(self@.folders, j + 1);
            }
            n += self.folders[j].site_count();
            j += 1;
        }
        assert(self@.folders.take(j as int) =~= self@.folders);
        n
    }

    /// Mutable ref to the folder identified by `id`, falling back to self
    /// when the id is empty or not found.
    pub fn folder_or_root_mut(&mut self, id: &str) -> (r: &mut Folder)
        ensures
            r@ == folder_or_root(old(self)@, id@),
            final(self)@ == with_folder_or_root(old(self)@, id@, final(r)@),
    {
        if id.unicode_len() == 0 || self.find_folder(id).is_none() {
            return self;
        }
        self.find_folder_mut(id).unwrap()
    }

    /// Find a folder by id anywhere in the subtree (including self).
    pub fn find_folder_mut(&mut self, id: &str) -> (r: Option<&mut Folder>)
        ensures
            match r {
                Some(f) => find(old(self)@, id@) == Some(f@) && final(self)@ == replaced(
                    old(self)@,
                    id@,
                    final(f)@,
                ),
                None => find(old(self)@, id@) is None && final(self)@ == old(self)@,
            },
        decreases old(self)@,
    {
        if same(self.id.as_str(), id) {
            return Some(self);
        }
        let mut i: usize = 0;
        while i < self.folders.len()
            invariant
                i <= self.folders@.len(),
                self@ == old(self)@,
                self.id@ != id@,
                forall|k: int| 0 <= k < i ==> find(#[trigger] self@.folders[k], id@) is None,
            decreases self.folders@.len() - i,
        {
            if self.folders[i].find_folder(id).is_some() {
                proof {
                    lemma_subfolder_smaller(self@, i as int);
                    lemma_forest_find(self@.folders, id@, i as int);
                }
                let ghost before = self@;
                let ghost after = *final(self);
                let child = &mut self.folders[i];
                let ghost child_after = *final(child);
                let r = child.find_folder_mut(id);
                proof {
                    assert(after@.folders =~= before.folders.update(i as int, child_after@));
                    assert(forest_replaced(before.folders, id@, final(r->0)@) == before.folders.update(
                        i as int,
                        child_after@,
                    ));
                }
                return r;
            }
            i += 1;
        }
        proof {
            lemma_forest_find(self@.folders, id@, i as int);
        }
        None
    }

    /// Immutable [`Self::find_folder_mut`].
    pub fn find_folder(&self, id: &str) -> (r: Option<&Folder>)
        ensures
            match r {
                Some(f) => find(self@, id@) == Some(f@),
                None => find(self@, id@) is None,
            },
        decreases self@,
    {
        if same(self.id.as_str(), id) {
            return Some(self);
        }
        let mut i: usize = 0;
        while i < self.folders.len()
            invariant
                i <= self.folders@.len(),
                self.id@ != id@,
                forall|k: int| 0 <= k < i ==> find(#[trigger] self@.folders[k], id@) is None,
            decreases self.folders@.len() - i,
        {
            proof {
                lemma_subfolder_smaller(self@, i as int);
            }
            let found = self.folders[i].find_folder(id);
            if found.is_some() {
                proof {
                    lemma_forest_find(self@.folders, id@, i as int);
                }
                return found;
            }
            i += 1;
        }
        proof {
            lemma_forest_find(self@.folders, id@, i as int);
        }
        None
    }

    /// The position of the folder's own site with this id, or their number.
    fn site_position(&self, id: &str) -> (r: usize)
        ensures
            r == site_pos(self.sites@, id@, 0),
            r <= self.sites@.len(),
    {
        let mut i: usize = 0;
        while i < self.sites.len()
            invariant
                i <= self.sites@.len(),
                site_pos(self.sites@, id@, 0) == site_pos(self.sites@, id@, i as int),
            decreases self.sites@.len() - i,
        {
            if same(self.sites[i].id.as_str(), id) {
                return i;
            }
            i += 1;
        }
        i
    }

    /// The position of the direct subfolder with this id, or their number.
    fn folder_position(&self, id: &str) -> (r: usize)
        ensures
            r == folder_pos(self@.folders, id@, 0),
            r <= self.folders@.len(),
    {
        let mut i: usize = 0;
        while i < self.folders.len()
            invariant
                i <= self.folders@.len(),
                folder_pos(self@.folders, id@, 0) == folder_pos(self@.folders, id@, i as int),
            decreases self.folders@.len() - i,
        {
            assert(self@.folders[i as int] == self.folders@[i as int]@);
            if same(self.folders[i].id.as_str(), id) {
                return i;
            }
            i += 1;
        }
        i
    }

    /// Remove a site by id from anywhere in the subtree; returns it.
    pub fn remove_site(&mut self, id: &str) -> (r: Option<Site>)
        ensures
            r == first_site(old(self)@, id@),
            final(self)@ == if r is Some {
                site_removed(old(self)@, id@)
            } else {
                old(self)@
            },
        decreases old(self)@,
    {
        let p = self.site_position(id);
        if p < self.sites.len() {
            let site = self.sites.remove(p);
            assert(self@ == site_removed(old(self)@, id@));
            return Some(site);
        }
        let mut i: usize = 0;
        while i < self.folders.len()
            invariant
                i <= self.folders@.len(),
                self@ == old(self)@,
                site_pos(self@.sites, id@, 0) == self@.sites.len(),
                forall|k: int| 0 <= k < i ==> first_site(#[trigger] self@.folders[k], id@) is None,
            decreases self@.folders.len() - i,
        {
            let ghost before = self@;
            proof {
                lemma_subfolder_smaller(self@, i as int);
            }
            let removed = self.folders[i].remove_site(id);
            if removed.is_some() {
                proof {
                    lemma_forest_first_site(before.folders, id@, i as int);
                    assert(self@.folders =~= before.folders.update(
                        i as int,
                        site_removed(before.folders[i as int], id@),
                    ));
                }
                return removed;
            }
            assert(self@.folders =~= before.folders);
            i += 1;
        }
        proof {
            lemma_forest_first_site(self@.folders, id@, i as int);
        }
        None
    }

    /// Update a site in place by id; returns true if found.
    pub fn update_site(&mut self, site: Site) -> (r: bool)
        ensures
            r == (first_site(old(self)@, site.id@) is Some),
            final(self)@ == if r {
                site_updated(old(self)@, site)
            } else {
                old(self)@
            },
        decreases old(self)@,
    {
        let p = self.site_position(site.id.as_str());
        if p < self.sites.len() {
            self.sites[p] = site;
            assert(self@ == site_updated(old(self)@, site));
            return true;
        }
        let mut i: usize = 0;
        while i < self.folders.len()
            invariant
                i <= self.folders@.len(),
                self@ == old(self)@,
                site_pos(self@.sites, site.id@, 0) == self@.sites.len(),
                forall|k: int|
                    0 <= k < i ==> first_site(#[trigger] self@.folders[k], site.id@) is None,
            decreases self@.folders.len() - i,
        {
            let ghost before = self@;
            proof {
                lemma_subfolder_smaller(self@, i as int);
            }
            let updated = self.folders[i].update_site(site.clone());
            if updated {
                proof {
                    lemma_forest_first_site(before.folders, site.id@, i as int);
                    lemma_forest_site_updated(before.folders, site, i as int);
                    assert(self@.folders =~= before.folders.update(
                        i as int,
                        site_updated(before.folders[i as int], site),
                    ));
                }
                return true;
            }
            assert(self@.folders =~= before.folders);
            i += 1;
        }
        proof {
            lemma_forest_first_site(self@.folders, site.id@, i as int);
        }
        false
    }

    /// Id of the folder directly containing `child_id` (a site or subfolder).
    pub fn parent_id_of(&self, child_id: &str) -> (r: Option<String>)
        ensures
            opt_text(r) == parent_of(self@, child_id@),
        decreases self@,
    {
        if self.site_position(child_id) < self.sites.len() || self.folder_position(child_id)
            < self.folders.len() {
            return Some(self.id.clone());
        }
        let mut i: usize = 0;
        while i < self.folders.len()
            invariant
                i <= self.folders@.len(),
                !holds(self@, child_id@),
                forall|k: int|
                    0 <= k < i ==> parent_of(#[trigger] self@.folders[k], child_id@) is None,
            decreases self.folders@.len() - i,
        {
            proof {
                lemma_subfolder_smaller(self@, i as int);
            }
            let found = self.folders[i].parent_id_of(child_id);
            if found.is_some() {
                proof {
                    lemma_forest_parent_of(self@.folders, child_id@, i as int);
                }
                return found;
            }
            i += 1;
        }
        proof {
            lemma_forest_parent_of(self@.folders, child_id@, i as int);
        }
        None
    }

    /// Copy of this subtree keeping only what matches `query` (lowercase):
    /// matching sites, plus folders that match by name (kept whole) or that
    /// contain a match somewhere below. An empty query returns everything.
    pub fn filtered(&self, query: &str) -> (r: Folder)
        ensures
            r@ == filtered(self@, query@),
        decreases self@,
    {
        if query.unicode_len() == 0 {
            return self.clone();
        }
        let mut out = Folder {
            id: self.id.clone(),
            name: self.name.clone(),
            folders: Vec::new(),
            sites: Vec::new(),
        };
        let mut i: usize = 0;
        assert(out@.folders =~= forest_filtered(self@.folders.take(0), query@));
        while i < self.folders.len()
            invariant
                query@.len() > 0,
                i <= self.folders@.len(),
                out.id@ == self.id@,
                out.name@ == self.name@,
                out.sites@.len() == 0,
                out@.folders == forest_filtered(self@.folders.take(i as int), query@),
            decreases self.folders@.len() - i,
        {
            proof {
                lemma_subfolder_smaller(self@, i as int);
                assert(self@.folders.take(i + 1).drop_last() =~= self@.folders.take(i as int));
                assert(self@.folders.take(i + 1).last() == self@.folders[i as int]);
            }
            let sub = &self.folders[i];
            let ghost before = out@.folders;
            if contains(to_lower(sub.name.as_str()).as_str(), query) {
                out.folders.push(sub.clone());
                assert(out@.folders =~= before.push(sub@));
            } else {
                let pruned = sub.filtered(query);
                if pruned.folders.len() > 0 || pruned.sites.len() > 0 {
                    out.folders.push(pruned);
                    assert(out@.folders =~= before.push(pruned@));
                }
            }
            i += 1;
        }
        assert(self@.folders.take(i as int) =~= self@.folders);
        let ghost kept = out@.folders;
        let mut j: usize = 0;
        assert(out.sites@ =~= sites_matching(self.sites@.take(0), query@));
        while j < self.sites.len()
            invariant
                j <= self.sites@.len(),
                out.id@ == self.id@,
                out.name@ == self.name@,
                out@.folders == kept,
                out.sites@ == sites_matching(self.sites@.take(j as int), query@),
            decreases self.sites@.len() - j,
        {
            proof {
                assert(self.sites@.take(j + 1).drop_last() =~= self.sites@.take(j as int));
            }
            if self.sites[j].matches(query) {
                out.sites.push(self.sites[j].clone());
            }
            j += 1;
        }
        assert(self.sites@.take(j as int) =~= self.sites@);
        out
    }

    /// Move a site into the folder `dest_id` (the root when empty or
    /// unknown). Returns true when the site actually moved.
    pub fn move_site_to(&mut self, site_id: &str, dest_id: &str) -> (r: bool)
        ensures
            match site_moved(old(self)@, site_id@, dest_id@) {
                Some(t) => r && final(self)@ == t,
                None => !r && final(self)@ == old(self)@,
            },
    {
        let dest = self.destination(dest_id);
        if let Some(parent) = self.parent_id_of(site_id) {
            if parent == dest {
                return false;
            }
        }
        match self.remove_site(site_id) {
            Some(site) => {
                self.folder_or_root_mut(dest.as_str()).sites.push(site);
                true
            },
            None => false,
        }
    }

    /// The id of the folder that `id` names, or of the root.
    fn destination(&self, id: &str) -> (r: String)
        ensures
            r@ == folder_or_root(self@, id@).id,
    {
        if id.unicode_len() == 0 {
            return self.id.clone();
        }
        match self.find_folder(id) {
            Some(f) => f.id.clone(),
            None => self.id.clone(),
        }
    }

    /// Move a folder (subtree and all, sites included) into the folder
    /// `dest_id` (the root when empty or unknown). Rejects moves into the
    /// folder itself or anywhere below it. Returns true when it moved.
    pub fn move_folder_to(&mut self, folder_id: &str, dest_id: &str) -> (r: bool)
        ensures
            match folder_moved(old(self)@, folder_id@, dest_id@) {
                Some(t) => r && final(self)@ == t,
                None => !r && final(self)@ == old(self)@,
            },
    {
        if same(folder_id, self.id.as_str()) {
            return false;
        }
        let dest = self.destination(dest_id);
        match self.find_folder(folder_id) {
            Some(moving) => if moving.find_folder(dest.as_str()).is_some() {
                return false;
            },
            None => return false,
        }
        if let Some(parent) = self.parent_id_of(folder_id) {
            if parent == dest {
                return false;
            }
        }
        match self.remove_folder(folder_id) {
            Some(folder) => {
                self.put_folder(dest.as_str(), folder);
                true
            },
            None => false,
        }
    }

    /// Appends a folder to the one that `id` names, or to the root.
    fn put_folder(&mut self, id: &str, folder: Folder)
        ensures
            final(self)@ == ({
                let target = folder_or_root(old(self)@, id@);
                with_folder_or_root(
                    old(self)@,
                    id@,
                    FolderView { folders: target.folders.push(folder@), ..target },
                )
            }),
    {
        let target = self.folder_or_root_mut(id);
        let ghost before = *target;
        target.folders.push(folder);
        assert(target@.folders =~= before@.folders.push(folder@));
    }

    /// Remove a (non-root) folder by id from the subtree; returns it.
    pub fn remove_folder(&mut self, id: &str) -> (r: Option<Folder>)
        ensures
            match r {
                Some(f) => first_below(old(self)@, id@) == Some(f@) && final(self)@
                    == folder_removed(old(self)@, id@),
                None => first_below(old(self)@, id@) is None && final(self)@ == old(self)@,
            },
        decreases old(self)@,
    {
        let p = self.folder_position(id);
        if p < self.folders.len() {
            let folder = self.folders.remove(p);
            assert(self@.folders =~= old(self)@.folders.remove(p as int));
            assert(self@ == folder_removed(old(self)@, id@));
            return Some(folder);
        }
        let mut i: usize = 0;
        while i < self.folders.len()
            invariant
                i <= self.folders@.len(),
                self@ == old(self)@,
                folder_pos(self@.folders, id@, 0) == self@.folders.len(),
                forall|k: int| 0 <= k < i ==> first_below(#[trigger] self@.folders[k], id@) is None,
            decreases self@.folders.len() - i,
        {
            let ghost before = self@;
            proof {
                lemma_subfolder_smaller(self@, i as int);
            }
            let removed = self.folders[i].remove_folder(id);
            if removed.is_some() {
                proof {
                    lemma_forest_first_below(before.folders, id@, i as int);
                    assert(self@.folders =~= before.folders.update(
                        i as int,
                        folder_removed(before.folders[i as int], id@),
                    ));
                }
                return removed;
            }
            assert(self@.folders =~= before.folders);
            i += 1;
        }
        proof {
            lemma_forest_first_below(self@.folders, id@, i as int);
        }
        None
    }
}

/// Old bookmark format (pre-site-manager). Kept only for migration.
#[derive(Debug, Clone)]
pub struct LegacyBookmark {
    pub label: String,
    pub host: String,
    pub elevation: Elevation,
    pub remote_dir: Option<String>,
}

#[derive(Debug, Clone)]
pub struct Settings {
    pub show_hidden: bool,
    /// Root of the site-manager tree; its own name is unused.
    pub sites: Folder,
    /// Legacy flat bookmarks, migrated into `sites` on load.
    pub bookmarks: Vec<LegacyBookmark>,
    /// Preferred terminal command; `None` = auto-detect.
    pub terminal: Option<String>,
    pub left_width: Option<i32>,
    /// Play a sound when a transfer completes.
    pub notify_sound: bool,
    /// Send a desktop notification when a transfer completes.
    pub notify_desktop: bool,
}

/// What a notification setting is when it was never saved.
pub fn enabled() -> (r: bool)
    ensures
        r,
{
    true
}

impl Default for Settings {
    fn default() -> (r: Self)
        ensures
            !r.show_hidden,
            is_random_id(r.sites.id@),
            r.sites.name@.len() == 0,
            r.sites.folders@.len() == 0,
            r.sites.sites@.len() == 0,
            r.bookmarks@.len() == 0,
            r.terminal is None,
            r.left_width is None,
            r.notify_sound,
            r.notify_desktop,
    {
        Settings {
            show_hidden: false,
            sites: Folder::default(),
            bookmarks: Vec::new(),
            terminal: None,
            left_width: None,
            notify_sound: enabled(),
            notify_desktop: enabled(),
        }
    }
}

/// Whether `site` is what migration makes of `bookmark`, under a fresh id.
pub open spec fn migrated(bookmark: LegacyBookmark, site: Site) -> bool {
    &&& is_random_id(site.id@)
    &&& site.name@ == bookmark.label@
    &&& site.host@ == bookmark.host@
    &&& site.elevation == bookmark.elevation
    &&& site.remote_dir == bookmark.remote_dir
    &&& site.port is None
    &&& site.user is None
    &&& site.auth == AuthMethod::Agent
    &&& site.identity_file is None
    &&& !site.has_secret
}

/// A bookmark becomes a site that connects as it did: to the same host, with
/// the same elevation, at the same directory, and with nothing else set.
pub proof fn law_migrated(bookmark: LegacyBookmark, site: Site, spec: ConnectSpec)
    requires
        migrated(bookmark, site),
        is_spec_of(spec, site),
    ensures
        site.name@ == bookmark.label@,
        spec.host@ == bookmark.host@,
        spec.elevation == bookmark.elevation,
        opt_text(spec.remote_dir) == non_empty(bookmark.remote_dir),
        spec.port is None && spec.user is None && spec.identity_file is None,
        spec.auth == AuthMethod::Agent,
        !site.has_secret,
{
}

/// Whether `after` are the settings once the bookmarks were folded in.
pub open spec fn is_migration(before: Settings, after: Settings) -> bool {
    let had = before.sites.sites@.len();
    &&& after.bookmarks@.len() == 0
    &&& after.sites.sites@.len() == had + before.bookmarks@.len()
    &&& after.sites.sites@.take(had as int) == before.sites.sites@
    &&& forall|i: int|
        0 <= i < before.bookmarks@.len() ==> #[trigger] migrated(
            before.bookmarks@[i],
            after.sites.sites@[had + i],
        )
    &&& after.sites.id == before.sites.id
    &&& after.sites.name == before.sites.name
    &&& after.sites.folders == before.sites.folders
    &&& after.show_hidden == before.show_hidden
    &&& after.terminal == before.terminal
    &&& after.left_width == before.left_width
    &&& after.notify_sound == before.notify_sound
    &&& after.notify_desktop == before.notify_desktop
}

/// Bookmarks are folded in once: each becomes a site behind those that were
/// there, in order, and none is left to fold in again. Doing it once more
/// changes no site. The sites that were there and all other settings stay.
pub proof fn law_migration(before: Settings, after: Settings, again: Settings, i: int)
    requires
        is_migration(before, after),
        is_migration(after, again),
    ensures
        after.bookmarks@.len() == 0,
        0 <= i < before.bookmarks@.len() ==> {
            let site = after.sites.sites@[before.sites.sites@.len() + i];
            site.host@ == before.bookmarks@[i].host@ && site.name@ == before.bookmarks@[i].label@
                && site.elevation == before.bookmarks@[i].elevation
        },
        0 <= i < before.sites.sites@.len() ==> after.sites.sites@[i] == before.sites.sites@[i],
        again.sites.sites@ == after.sites.sites@,
        after.sites.folders == before.sites.folders,
        after.show_hidden == before.show_hidden && after.terminal == before.terminal,
        after.notify_sound == before.notify_sound && after.notify_desktop == before.notify_desktop,
        after.left_width == before.left_width,
{
    if 0 <= i < before.bookmarks@.len() {
        assert(migrated(
            before.bookmarks@[i],
            after.sites.sites@[before.sites.sites@.len() + i],
        ));
    }
    if 0 <= i < before.sites.sites@.len() {
        assert(after.sites.sites@.take(before.sites.sites@.len() as int)[i]
            == before.sites.sites@[i]);
    }
    assert(again.sites.sites@.take(after.sites.sites@.len() as int) =~= again.sites.sites@);
}

impl Settings {
    /// Fold any legacy flat bookmarks into the site tree root, once: they
    /// follow the root's own sites in order. Returns whether there were any,
    /// and so whether the settings are to be saved.
    pub fn migrate_bookmarks(&mut self) -> (r: bool)
        ensures
            r == (old(self).bookmarks@.len() > 0),
            is_migration(*old(self), *final(self)),
    {
        if self.bookmarks.len() == 0 {
            assert(self.sites.sites@.take(self.sites.sites@.len() as int) =~= self.sites.sites@);
            return false;
        }
        let ghost had = self.sites.sites@;
        let mut i: usize = 0;
        while i < self.bookmarks.len()
            invariant
                i <= self.bookmarks@.len(),
                had == old(self).sites.sites@,
                self.bookmarks == old(self).bookmarks,
                self.sites.sites@.len() == had.len() + i,
                self.sites.sites@.take(had.len() as int) == had,
                forall|k: int|
                    0 <= k < i ==> #[trigger] migrated(
                        old(self).bookmarks@[k],
                        self.sites.sites@[had.len() + k],
                    ),
                self.sites.id == old(self).sites.id,
                self.sites.name == old(self).sites.name,
                self.sites.folders == old(self).sites.folders,
                self.show_hidden == old(self).show_hidden,
                self.terminal == old(self).terminal,
                self.left_width == old(self).left_width,
                self.notify_sound == old(self).notify_sound,
                self.notify_desktop == old(self).notify_desktop,
            decreases self.bookmarks@.len() - i,
        {
            let bookmark = &self.bookmarks[i];
            let mut site = Site::new(bookmark.label.as_str(), bookmark.host.as_str());
            site.elevation = bookmark.elevation;
            site.remote_dir = copy_opt(&bookmark.remote_dir);
            let ghost before = self.sites.sites@;
            assert(migrated(old(self).bookmarks@[i as int], site));
            self.sites.sites.push(site);
            assert(self.sites.sites@.take(had.len() as int) =~= before.take(had.len() as int));
            i += 1;
        }
        self.bookmarks = Vec::new();
        true
    }
}

} // verus!
