//! The editor form for a saved site: what its fields show, and what they
//! stand for when they are read back.

use crate::settings::Site;
use crate::text::{
    decimal, law_digits_read_back, law_number_bounds, law_trimmed_again, lemma_digits_back, lemma_trim_tight,
    number_in, parse_number, to_decimal, trim, trimmed,
};
use crate::types::{copy_opt, non_empty, opt_text, AuthMethod, Elevation};
use vstd::prelude::*;
use vstd::string::*;

verus! {

/// What to do with the site's stored secret after editing.
#[derive(Debug)]
pub enum SecretUpdate {
    /// Leave the keyring entry untouched.
    Keep,
    /// Store this new secret.
    Store(String),
    /// Remove any stored secret.
    Clear,
}

/// The contents of the form's fields.
#[derive(Debug)]
pub struct SiteFields {
    pub name: String,
    pub host: String,
    pub user: String,
    pub port: String,
    pub auth: AuthMethod,
    pub key_path: Option<String>,
    pub elevation: Elevation,
    pub dir: String,
    pub secret: String,
}

/// Trimmed text, or `None` where nothing is left.
pub open spec fn filled(text: Seq<char>) -> Option<Seq<char>> {
    if trimmed(text).len() > 0 {
        Some(trimmed(text))
    } else {
        None
    }
}

fn filled_text(text: &str) -> (r: Option<String>)
    ensures
        opt_text(r) == filled(text@),
{
    let t = trim(text);
    if t.as_str().unicode_len() > 0 {
        Some(t)
    } else {
        None
    }
}

/// The port that a field's text stands for, if it is one.
pub open spec fn port_of(text: Seq<char>) -> Option<u16> {
    match number_in(trimmed(text), 10, u16::MAX as nat) {
        Some(n) => Some(n as u16),
        None => None,
    }
}

fn parse_port(text: &str) -> (r: Option<u16>)
    ensures
        r == port_of(text@),
{
    match parse_number(trim(text).as_str(), 10, u16::MAX as u64) {
        Some(n) => Some(n as u16),
        None => None,
    }
}

/// What becomes of the stored secret: a new one is stored where the method
/// takes one and it was typed; an old one is cleared where the method takes
/// none and there is one to clear.
pub open spec fn secret_update_is(
    auth: AuthMethod,
    typed: Seq<char>,
    had_secret: bool,
    r: SecretUpdate,
) -> bool {
    if auth is Agent {
        if had_secret {
            r is Clear
        } else {
            r is Keep
        }
    } else if typed.len() > 0 {
        r matches SecretUpdate::Store(s) && s@ == typed
    } else {
        r is Keep
    }
}

/// Whether the fields are those that a site is loaded into; the secret is
/// never shown.
pub open spec fn shows_site(f: SiteFields, site: Site) -> bool {
    &&& f.name@ == site.name@
    &&& f.host@ == site.host@
    &&& f.user@ == (match site.user {
        Some(u) => u@,
        None => seq![],
    })
    &&& f.port@ == (match site.port {
        Some(p) => decimal(p as nat),
        None => seq![],
    })
    &&& f.auth == site.auth
    &&& f.key_path == site.identity_file
    &&& f.elevation == site.elevation
    &&& f.dir@ == (match site.remote_dir {
        Some(d) => d@,
        None => seq![],
    })
    &&& f.secret@.len() == 0
}

/// Whether the fields, edited from `base`, stand for the site and for what
/// becomes of its secret.
pub open spec fn stands_for(f: SiteFields, base: Site, site: Site, secret: SecretUpdate) -> bool {
    &&& filled(f.host@) is Some
    &&& site.id == base.id
    &&& site.host@ == trimmed(f.host@)
    &&& site.name@ == f.display_text()
    &&& opt_text(site.user) == filled(f.user@)
    &&& site.port == port_of(f.port@)
    &&& site.auth == f.auth
    &&& opt_text(site.identity_file) == non_empty(f.key_path)
    &&& site.elevation == f.elevation
    &&& opt_text(site.remote_dir) == filled(f.dir@)
    &&& secret_update_is(f.auth, f.secret@, base.has_secret, secret)
    &&& site.has_secret == (match secret {
        SecretUpdate::Store(_) => true,
        SecretUpdate::Clear => false,
        SecretUpdate::Keep => base.has_secret,
    })
}

impl SiteFields {
    /// The fields for a site; the secret is never shown.
    pub fn load(site: &Site) -> (r: Self)
        ensures
            shows_site(r, *site),
    {
        SiteFields {
            name: site.name.clone(),
            host: site.host.clone(),
            user: match &site.user {
                Some(u) => u.clone(),
                None => String::new(),
            },
            port: match site.port {
                Some(p) => to_decimal(p as u64),
                None => String::new(),
            },
            auth: site.auth,
            key_path: copy_opt(&site.identity_file),
            elevation: site.elevation,
            dir: match &site.remote_dir {
                Some(d) => d.clone(),
                None => String::new(),
            },
            secret: String::new(),
        }
    }

    /// The name field, falling back to the host, then a placeholder.
    pub open spec fn display_text(self) -> Seq<char> {
        match (filled(self.name@), filled(self.host@)) {
            (Some(name), _) => name,
            (None, Some(host)) => host,
            (None, None) => "New site"@,
        }
    }

    /// Name for the site list row while editing.
    pub fn display_name(&self) -> (r: String)
        ensures
            r@ == self.display_text(),
    {
        if let Some(name) = filled_text(self.name.as_str()) {
            return name;
        }
        if let Some(host) = filled_text(self.host.as_str()) {
            return host;
        }
        "New site".to_owned()
    }

    /// "user@host:port" of the current field values.
    pub open spec fn preview_text(self) -> Seq<char> {
        (match filled(self.user@) {
            Some(u) => u.push('@'),
            None => seq![],
        }) + trimmed(self.host@) + (match port_of(self.port@) {
            Some(p) => seq![':'] + decimal(p as nat),
            None => seq![],
        })
    }

    /// Live "user@host:port" preview from the current field values.
    pub fn summary(&self) -> (r: String)
        ensures
            r@ == self.preview_text(),
    {
        let mut s = String::new();
        if let Some(user) = filled_text(self.user.as_str()) {
            s.append(user.as_str());
            s.push('@');
        }
        s.append(trim(self.host.as_str()).as_str());
        if let Some(port) = parse_port(self.port.as_str()) {
            s.push(':');
            s.append(to_decimal(port as u64).as_str());
        }
        assert(s@ =~= (match filled(self.user@) {
            Some(u) => u.push('@'),
            None => seq![],
        }) + trimmed(self.host@) + (match port_of(self.port@) {
            Some(p) => seq![':'] + decimal(p as nat),
            None => seq![],
        }));
        s
    }

    fn secret_update(&self, had_secret: bool) -> (r: SecretUpdate)
        ensures
            secret_update_is(self.auth, self.secret@, had_secret, r),
    {
        match self.auth {
            AuthMethod::Agent => if had_secret {
                SecretUpdate::Clear
            } else {
                SecretUpdate::Keep
            },
            AuthMethod::Password | AuthMethod::Key => if self.secret.as_str().unicode_len() > 0 {
                SecretUpdate::Store(self.secret.clone())
            } else {
                SecretUpdate::Keep
            },
        }
    }

    /// The edited site plus the secret action to apply; `None` when the host
    /// is empty. `base` is the site being edited, which keeps its id.
    pub fn collect(&self, base: &Site) -> (r: Option<(Site, SecretUpdate)>)
        ensures
            match r {
                Some((site, secret)) => stands_for(*self, *base, site, secret),
                None => filled(self.host@) is None,
            },
    {
        let host = match filled_text(self.host.as_str()) {
            Some(h) => h,
            None => return None,
        };
        let secret = self.secret_update(base.has_secret);
        let has_secret = match &secret {
            SecretUpdate::Store(_) => true,
            SecretUpdate::Clear => false,
            SecretUpdate::Keep => base.has_secret,
        };
        let site = Site {
            id: base.id.clone(),
            name: self.display_name(),
            host,
            port: parse_port(self.port.as_str()),
            user: filled_text(self.user.as_str()),
            auth: self.auth,
            identity_file: crate::types::copy_non_empty(&self.key_path),
            elevation: self.elevation,
            remote_dir: filled_text(self.dir.as_str()),
            has_secret,
        };
        Some((site, secret))
    }
}

/// A site that was saved from the form and is opened again stands in it as it
/// was saved: saving it once more, untouched, changes nothing and leaves its
/// secret alone.
pub proof fn law_saved_form_reads_back(
    f: SiteFields,
    base: Site,
    site: Site,
    secret: SecretUpdate,
    again: SiteFields,
    site2: Site,
    secret2: SecretUpdate,
)
    requires
        stands_for(f, base, site, secret),
        shows_site(again, site),
        stands_for(again, site, site2, secret2),
    ensures
        secret2 is Keep,
        site2.id == site.id,
        site2.name@ == site.name@,
        site2.host@ == site.host@,
        opt_text(site2.user) == opt_text(site.user),
        site2.port == site.port,
        site2.auth == site.auth,
        opt_text(site2.identity_file) == opt_text(site.identity_file),
        site2.elevation == site.elevation,
        opt_text(site2.remote_dir) == opt_text(site.remote_dir),
        site2.has_secret == site.has_secret,
{
    law_trimmed_again(f.host@);
    law_trimmed_again(f.name@);
    law_trimmed_again(f.user@);
    law_trimmed_again(f.dir@);
    lemma_trim_tight(seq![]);
    if let Some(p) = site.port {
        lemma_digits_back(p as nat, 10);
        lemma_trim_tight(decimal(p as nat));
        law_digits_read_back(p as nat, 10, u16::MAX as nat);
    }
}

/// Which rows of the form belong to a method of authentication.
#[derive(Debug)]
pub struct AuthRows {
    pub key_visible: bool,
    pub secret_visible: bool,
    pub secret_title: &'static str,
}

/// Whether `r` is which rows belong to a method.
pub open spec fn shows_rows(r: AuthRows, method: AuthMethod, had_secret: bool) -> bool {
    &&& r.key_visible == (method is Key)
    &&& r.secret_visible == !(method is Agent)
    &&& r.secret_title@ == (match (method, had_secret) {
        (AuthMethod::Key, true) => "Passphrase (leave blank to keep saved)"@,
        (AuthMethod::Key, false) => "Passphrase (optional)"@,
        (_, true) => "Password (leave blank to keep saved)"@,
        (_, false) => "Password"@,
    })
}

/// The key file is asked for by the method that uses one, and a secret by
/// those that take one; a key's is a passphrase. That a blank field keeps what
/// is saved is said exactly where something is.
pub proof fn law_auth_rows(r: AuthRows, method: AuthMethod, had_secret: bool)
    requires
        shows_rows(r, method, had_secret),
    ensures
        r.key_visible <==> method is Key,
        r.secret_visible <==> method is Key || method is Password,
        method is Key && had_secret ==> r.secret_title@ == "Passphrase (leave blank to keep saved)"@,
        method is Key && !had_secret ==> r.secret_title@ == "Passphrase (optional)"@,
        method is Password && had_secret ==> r.secret_title@
            == "Password (leave blank to keep saved)"@,
        method is Password && !had_secret ==> r.secret_title@ == "Password"@,
{
}

/// Show/hide auth-specific rows for the selected method.
pub fn auth_rows(method: AuthMethod, had_secret: bool) -> (r: AuthRows)
    ensures
        shows_rows(r, method, had_secret),
{
    AuthRows {
        key_visible: method == AuthMethod::Key,
        secret_visible: method != AuthMethod::Agent,
        secret_title: match (method, had_secret) {
            (AuthMethod::Key, true) => "Passphrase (leave blank to keep saved)",
            (AuthMethod::Key, false) => "Passphrase (optional)",
            (_, true) => "Password (leave blank to keep saved)",
            (_, false) => "Password",
        },
    }
}

/// The position of a method in [`AuthMethod::ALL`].
pub fn auth_index(method: AuthMethod) -> (r: u32)
    ensures
        r < 3,
        AuthMethod::ALL[r as int] == method,
{
    match method {
        AuthMethod::Agent => 0,
        AuthMethod::Password => 1,
        AuthMethod::Key => 2,
    }
}

/// The position of a mode in [`Elevation::ALL`].
pub fn elevation_index(elevation: Elevation) -> (r: u32)
    ensures
        r < 3,
        Elevation::ALL[r as int] == elevation,
{
    match elevation {
        Elevation::Plain => 0,
        Elevation::Sudo => 1,
        Elevation::Su => 2,
    }
}

/// A field counts without the white space round it, and not at all when there
/// is nothing else in it.
pub proof fn law_filled(text: Seq<char>)
    ensures
        filled(text) is Some <==> trimmed(text).len() > 0,
        filled(text) is Some ==> filled(text)->0 == trimmed(text),
        filled(trimmed(text)) == filled(text),
{
    law_trimmed_again(text);
}

/// A port is any number up to 65535, white space round it aside; anything else
/// in the field is none.
pub proof fn law_port_of(p: u16, text: Seq<char>, large: nat)
    ensures
        port_of(decimal(p as nat)) == Some(p),
        port_of(trimmed(text)) == port_of(text),
        trimmed(text) == decimal(p as nat) ==> port_of(text) == Some(p),
        large > 65535 ==> port_of(decimal(large)) is None,
        trimmed(text).len() == 0 ==> port_of(text) is None,
{
    law_trimmed_again(text);
    lemma_digits_back(p as nat, 10);
    lemma_trim_tight(decimal(p as nat));
    law_digits_read_back(p as nat, 10, u16::MAX as nat);
    lemma_digits_back(large, 10);
    lemma_trim_tight(decimal(large));
    law_number_bounds(large, 10, u16::MAX as nat);
}

/// What becomes of a secret: one that was typed is stored, where the method
/// takes one. A stored one is cleared only where the method takes none. In
/// every other case it stays.
pub proof fn law_secret_update(auth: AuthMethod, typed: Seq<char>, had_secret: bool, r: SecretUpdate)
    requires
        secret_update_is(auth, typed, had_secret, r),
    ensures
        r is Store <==> (auth is Password || auth is Key) && typed.len() > 0,
        r matches SecretUpdate::Store(s) ==> s@ == typed,
        r is Clear <==> auth is Agent && had_secret,
        r is Keep <==> (auth is Agent && !had_secret) || (!(auth is Agent) && typed.len() == 0),
{
}

/// What the form stands for: each field for its own part of the site, which
/// keeps its id. A site without a name goes by its host. It has a secret when
/// one was typed for it, or when it had one and that stays.
pub proof fn law_form_means(f: SiteFields, base: Site, site: Site, secret: SecretUpdate)
    requires
        stands_for(f, base, site, secret),
    ensures
        site.id@ == base.id@,
        site.host@ == trimmed(f.host@) && site.host@.len() > 0,
        trimmed(f.name@).len() > 0 ==> site.name@ == trimmed(f.name@),
        trimmed(f.name@).len() == 0 ==> site.name@ == site.host@,
        trimmed(f.user@).len() > 0 ==> site.user is Some && site.user->0@ == trimmed(f.user@),
        trimmed(f.user@).len() == 0 ==> site.user is None,
        site.port is Some ==> number_in(trimmed(f.port@), 10, 65535) == Some(site.port->0 as nat),
        site.port is None ==> number_in(trimmed(f.port@), 10, 65535) is None,
        site.auth == f.auth && site.elevation == f.elevation,
        f.key_path is Some && f.key_path->0@.len() > 0 ==> site.identity_file is Some
            && site.identity_file->0@ == f.key_path->0@,
        f.key_path is None || f.key_path->0@.len() == 0 ==> site.identity_file is None,
        trimmed(f.dir@).len() > 0 ==> site.remote_dir is Some && site.remote_dir->0@ == trimmed(
            f.dir@,
        ),
        trimmed(f.dir@).len() == 0 ==> site.remote_dir is None,
        f.auth is Agent ==> !site.has_secret,
        !(f.auth is Agent) ==> (site.has_secret <==> f.secret@.len() > 0 || base.has_secret),
        f.preview_text() == site.summary_text(),
{
}

/// A site whose texts are in order stands in the form as it is: saving the
/// form untouched gives the same site back.
pub proof fn law_untouched_form(f: SiteFields, site: Site, again: Site, secret: SecretUpdate)
    requires
        shows_site(f, site),
        stands_for(f, site, again, secret),
        trimmed(site.name@) == site.name@ && site.name@.len() > 0,
        trimmed(site.host@) == site.host@,
        site.user is Some ==> trimmed(site.user->0@) == site.user->0@ && site.user->0@.len() > 0,
        site.remote_dir is Some ==> trimmed(site.remote_dir->0@) == site.remote_dir->0@
            && site.remote_dir->0@.len() > 0,
        site.identity_file is Some ==> site.identity_file->0@.len() > 0,
    ensures
        again.id == site.id,
        again.name@ == site.name@,
        again.host@ == site.host@,
        again.port == site.port,
        opt_text(again.user) == opt_text(site.user),
        again.auth == site.auth,
        opt_text(again.identity_file) == opt_text(site.identity_file),
        again.elevation == site.elevation,
        opt_text(again.remote_dir) == opt_text(site.remote_dir),
        !(site.auth is Agent) ==> again.has_secret == site.has_secret && secret is Keep,
{
    lemma_trim_tight(seq![]);
    if let Some(p) = site.port {
        lemma_digits_back(p as nat, 10);
        lemma_trim_tight(decimal(p as nat));
        law_digits_read_back(p as nat, 10, u16::MAX as nat);
    }
}

/// A site is called by its name, by its host where it has none, and as a new
/// one where it has neither.
pub proof fn law_display_name(f: SiteFields)
    ensures
        trimmed(f.name@).len() > 0 ==> f.display_text() == trimmed(f.name@),
        trimmed(f.name@).len() == 0 && trimmed(f.host@).len() > 0 ==> f.display_text() == trimmed(
            f.host@,
        ),
        trimmed(f.name@).len() == 0 && trimmed(f.host@).len() == 0 ==> f.display_text()
            == "New site"@,
{
}

} // verus!
