//! The plain data that the parts of the program hand to each other.

use vstd::prelude::*;
use vstd::string::*;

verus! {

pub type SessionId = u64;

pub type TransferId = u64;

/// How to become root (or another user) after connecting.
#[derive(Debug, Clone, Copy, PartialEq, Eq, Structural)]
pub enum Elevation {
    Plain,
    /// `sudo` over a forced remote pty; works with and without NOPASSWD.
    Sudo,
    /// `su -` over a forced remote pty (su requires a tty).
    Su,
}

impl Default for Elevation {
    fn default() -> (r: Self)
        ensures
            r == Elevation::Plain,
    {
        Elevation::Plain
    }
}

impl Elevation {
    pub const ALL: [Elevation; 3] = [Elevation::Plain, Elevation::Sudo, Elevation::Su];

    pub open spec fn label_text(self) -> Seq<char> {
        match self {
            Elevation::Plain => "Connect as yourself"@,
            Elevation::Sudo => "Root via sudo"@,
            Elevation::Su => "Root via su -"@,
        }
    }

    pub fn label(&self) -> (r: &'static str)
        ensures
            r@ == self.label_text(),
    {
        match self {
            Elevation::Plain => "Connect as yourself",
            Elevation::Sudo => "Root via sudo",
            Elevation::Su => "Root via su -",
        }
    }
}

/// How to authenticate to the SSH server.
#[derive(Debug, Clone, Copy, PartialEq, Eq, Structural)]
pub enum AuthMethod {
    /// Whatever ssh would do on its own: agent, ssh_config `IdentityFile`, etc.
    Agent,
    /// Interactive password (optionally remembered in the keyring).
    Password,
    /// A specific private key / PEM file (optionally with a saved passphrase).
    Key,
}

impl Default for AuthMethod {
    fn default() -> (r: Self)
        ensures
            r == AuthMethod::Agent,
    {
        AuthMethod::Agent
    }
}

impl AuthMethod {
    pub const ALL: [AuthMethod; 3] = [AuthMethod::Agent, AuthMethod::Password, AuthMethod::Key];

    pub open spec fn label_text(self) -> Seq<char> {
        match self {
            AuthMethod::Agent => "SSH agent / default keys"@,
            AuthMethod::Password => "Password"@,
            AuthMethod::Key => "Key file (PEM)"@,
        }
    }

    pub fn label(&self) -> (r: &'static str)
        ensures
            r@ == self.label_text(),
    {
        match self {
            AuthMethod::Agent => "SSH agent / default keys",
            AuthMethod::Password => "Password",
            AuthMethod::Key => "Key file (PEM)",
        }
    }
}

/// The characters of an optional text.
pub open spec fn opt_text(o: Option<String>) -> Option<Seq<char>> {
    match o {
        Some(s) => Some(s@),
        None => None,
    }
}

/// An optional text copied.
pub fn copy_opt(o: &Option<String>) -> (r: Option<String>)
    ensures
        r == *o,
{
    match o {
        Some(s) => Some(s.clone()),
        None => None,
    }
}

/// A list of texts copied.
pub fn copy_texts(v: &Vec<String>) -> (r: Vec<String>)
    ensures
        r@ == v@,
{
    let mut out: Vec<String> = Vec::new();
    let mut i: usize = 0;
    while i < v.len()
        invariant
            i <= v@.len(),
            out@ == v@.take(i as int),
        decreases v@.len() - i,
    {
        out.push(v[i].clone());
        i += 1;
        assert(v@.take(i as int) =~= v@.take(i - 1).push(v@[i - 1]));
    }
    assert(v@.take(i as int) =~= v@);
    out
}

/// An optional text with an empty one left out.
pub open spec fn non_empty(o: Option<String>) -> Option<Seq<char>> {
    match o {
        Some(s) => if s@.len() > 0 {
            Some(s@)
        } else {
            None
        },
        None => None,
    }
}

/// An optional text copied, an empty one left out.
pub fn copy_non_empty(o: &Option<String>) -> (r: Option<String>)
    ensures
        opt_text(r) == non_empty(*o),
{
    match o {
        Some(s) => if s.as_str().unicode_len() > 0 {
            Some(s.clone())
        } else {
            None
        },
        None => None,
    }
}

/// Everything needed to open a connection.
#[derive(Debug, PartialEq)]
pub struct ConnectSpec {
    /// ssh_config alias or hostname, handed to the ssh binary.
    pub host: String,
    pub port: Option<u16>,
    /// Login user (`-l`); when unset ssh uses its own default / config.
    pub user: Option<String>,
    pub auth: AuthMethod,
    /// Private key / PEM path for [`AuthMethod::Key`].
    pub identity_file: Option<String>,
    pub elevation: Elevation,
    /// Directory to open after connecting; defaults to the remote home.
    pub remote_dir: Option<String>,
    /// Override for the remote sftp-server path (elevated modes only).
    pub sftp_server_path: Option<String>,
    /// Extra arguments passed to the ssh binary verbatim (e.g. -J jump).
    pub extra_ssh_args: Vec<String>,
    /// Resolved password / key passphrase to auto-answer ssh's prompt with.
    /// Secrets live in the OS keyring.
    pub secret: Option<String>,
}

impl ConnectSpec {
    /// A plain connection to a host.
    pub fn new(host: &str) -> (r: Self)
        ensures
            r.host@ == host@,
            r.port is None,
            r.user is None,
            r.auth == AuthMethod::Agent,
            r.identity_file is None,
            r.elevation == Elevation::Plain,
            r.remote_dir is None,
            r.sftp_server_path is None,
            r.extra_ssh_args@.len() == 0,
            r.secret is None,
    {
        ConnectSpec {
            host: host.to_owned(),
            port: None,
            user: None,
            auth: AuthMethod::Agent,
            identity_file: None,
            elevation: Elevation::Plain,
            remote_dir: None,
            sftp_server_path: None,
            extra_ssh_args: Vec::new(),
            secret: None,
        }
    }
}

impl Clone for ConnectSpec {
    fn clone(&self) -> (r: Self)
        ensures
            r.host == self.host,
            r.port == self.port,
            r.user == self.user,
            r.auth == self.auth,
            r.identity_file == self.identity_file,
            r.elevation == self.elevation,
            r.remote_dir == self.remote_dir,
            r.sftp_server_path == self.sftp_server_path,
            r.extra_ssh_args@ == self.extra_ssh_args@,
            r.secret == self.secret,
    {
        ConnectSpec {
            host: self.host.clone(),
            port: self.port,
            user: copy_opt(&self.user),
            auth: self.auth,
            identity_file: copy_opt(&self.identity_file),
            elevation: self.elevation,
            remote_dir: copy_opt(&self.remote_dir),
            sftp_server_path: copy_opt(&self.sftp_server_path),
            extra_ssh_args: copy_texts(&self.extra_ssh_args),
            secret: copy_opt(&self.secret),
        }
    }
}

/// A file or directory entry, unified across the local and remote backends.
#[derive(Debug, PartialEq)]
pub struct FsEntry {
    pub name: String,
    /// Full path (native for local, absolute remote path for SFTP).
    pub path: String,
    pub is_dir: bool,
    pub is_symlink: bool,
    pub size: u64,
    /// Unix timestamp of last modification.
    pub mtime: Option<i64>,
    /// Unix permission bits (the low 12 bits of st_mode).
    pub mode: Option<u32>,
    pub owner: Option<String>,
    pub group: Option<String>,
    /// Symlink target, if known.
    pub link_target: Option<String>,
}

impl Clone for FsEntry {
    fn clone(&self) -> (r: Self)
        ensures
            r == *self,
    {
        FsEntry {
            name: self.name.clone(),
            path: self.path.clone(),
            is_dir: self.is_dir,
            is_symlink: self.is_symlink,
            size: self.size,
            mtime: self.mtime,
            mode: self.mode,
            owner: copy_opt(&self.owner),
            group: copy_opt(&self.group),
            link_target: copy_opt(&self.link_target),
        }
    }
}

impl FsEntry {
    /// The permissions as `ls -l` shows them.
    pub open spec fn permissions_text(self) -> Seq<char> {
        match self.mode {
            Some(mode) => permission_chars(self.is_dir, self.is_symlink, mode),
            None => "----------"@,
        }
    }

    /// The permissions as `ls -l` shows them.
    pub fn permissions_string(&self) -> (r: String)
        ensures
            r@ == self.permissions_text(),
    {
        match self.mode {
            Some(mode) => format_permissions(self.is_dir, self.is_symlink, mode),
            None => "----------".to_owned(),
        }
    }
}

/// The letter of a plain permission bit.
pub open spec fn bit_char(mode: u32, bit: u32, letter: char) -> char {
    if mode & bit != 0 {
        letter
    } else {
        '-'
    }
}

/// The letter of an execute bit that shares its place with a special bit:
/// the special one shows small over execute and capital without it.
pub open spec fn exec_char(mode: u32, bit: u32, special: u32, small: char, capital: char) -> char {
    if mode & special != 0 {
        if mode & bit != 0 {
            small
        } else {
            capital
        }
    } else {
        bit_char(mode, bit, 'x')
    }
}

/// The ten characters `ls -l` shows for a file's kind and mode.
pub open spec fn permission_chars(is_dir: bool, is_symlink: bool, mode: u32) -> Seq<char> {
    seq![
        if is_symlink { 'l' } else if is_dir { 'd' } else { '-' },
        bit_char(mode, 0o400, 'r'),
        bit_char(mode, 0o200, 'w'),
        exec_char(mode, 0o100, 0o4000, 's', 'S'),
        bit_char(mode, 0o40, 'r'),
        bit_char(mode, 0o20, 'w'),
        exec_char(mode, 0o10, 0o2000, 's', 'S'),
        bit_char(mode, 0o4, 'r'),
        bit_char(mode, 0o2, 'w'),
        exec_char(mode, 0o1, 0o1000, 't', 'T'),
    ]
}

fn push_bit(s: &mut String, mode: u32, bit: u32, letter: char)
    ensures
        final(s)@ == old(s)@.push(bit_char(mode, bit, letter)),
{
    s.push(
        if mode & bit != 0 {
            letter
        } else {
            '-'
        },
    );
}

fn push_exec(s: &mut String, mode: u32, bit: u32, special: u32, small: char, capital: char)
    ensures
        final(s)@ == old(s)@.push(exec_char(mode, bit, special, small, capital)),
{
    if mode & special != 0 {
        s.push(
            if mode & bit != 0 {
                small
            } else {
                capital
            },
        );
    } else {
        push_bit(s, mode, bit, 'x');
    }
}

/// The ten characters `ls -l` shows for a kind and a mode.
pub fn format_permissions(is_dir: bool, is_symlink: bool, mode: u32) -> (r: String)
    ensures
        r@ == permission_chars(is_dir, is_symlink, mode),
{
    let mut s = String::new();
    s.push(
        if is_symlink {
            'l'
        } else if is_dir {
            'd'
        } else {
            '-'
        },
    );
    push_bit(&mut s, mode, 0o400, 'r');
    push_bit(&mut s, mode, 0o200, 'w');
    push_exec(&mut s, mode, 0o100, 0o4000, 's', 'S');
    push_bit(&mut s, mode, 0o40, 'r');
    push_bit(&mut s, mode, 0o20, 'w');
    push_exec(&mut s, mode, 0o10, 0o2000, 's', 'S');
    push_bit(&mut s, mode, 0o4, 'r');
    push_bit(&mut s, mode, 0o2, 'w');
    push_exec(&mut s, mode, 0o1, 0o1000, 't', 'T');
    assert(s@ =~= permission_chars(is_dir, is_symlink, mode));
    s
}

/// Which side of a pane talks to which filesystem.
#[derive(Debug, Clone, Copy, PartialEq, Eq, Structural)]
pub enum Backend {
    Local,
    Remote(SessionId),
}

impl Backend {
    /// Whether it is on a server.
    pub fn is_remote(&self) -> (r: bool)
        ensures
            r == (*self is Remote),
    {
        matches!(self, Backend::Remote(_))
    }
}

#[derive(Debug, Clone)]
pub struct ConnectedInfo {
    pub id: SessionId,
    pub spec: ConnectSpec,
    /// Directory the remote pane should open at.
    pub initial_dir: String,
}

/// One queued transfer operation (possibly many files).
#[derive(Debug, Clone)]
pub struct TransferRequest {
    pub src_backend: Backend,
    pub dst_backend: Backend,
    pub items: Vec<FsEntry>,
    /// Destination directory the items land in.
    pub dst_dir: String,
    /// Delete sources after a fully successful copy (F6 move).
    pub move_src: bool,
    /// Replace existing destinations without asking.
    pub overwrite: bool,
}

#[derive(Debug, Clone, Copy, PartialEq, Eq, Structural)]
pub enum TransferState {
    Queued,
    Scanning,
    Running,
    Paused,
    WaitingConflict,
    Done,
    Failed,
    Cancelled,
}

impl TransferState {
    /// Whether nothing follows this state.
    pub open spec fn terminal(self) -> bool {
        self is Done || self is Failed || self is Cancelled
    }

    /// Whether nothing follows this state.
    pub fn is_terminal(&self) -> (r: bool)
        ensures
            r == self.terminal(),
    {
        matches!(
            self,
            TransferState::Done | TransferState::Failed | TransferState::Cancelled
        )
    }
}

/// What a queue job is doing — copies/moves transfer bytes, while deletes
/// and attribute changes are remote mutations that also want progress,
/// cancel and a pane refresh when they complete.
#[derive(Debug, Clone, Copy, PartialEq, Eq, Structural)]
pub enum TransferKind {
    Copy,
    Move,
    Delete,
    Attributes,
}

/// Which way a transfer goes between the local and the remote side.
#[derive(Debug, Clone, Copy, PartialEq, Eq, Structural)]
pub enum TransferDirection {
    Upload,
    Download,
}

/// How fast a transfer goes, in whole units.
#[derive(Debug, Clone, Copy, PartialEq, Eq, Structural)]
pub struct Rate {
    pub bytes_per_sec: u64,
    /// Seconds until all bytes known so far are through.
    pub eta_secs: u64,
}

#[derive(Debug)]
pub struct TransferSnapshot {
    pub id: TransferId,
    pub title: String,
    pub kind: TransferKind,
    /// `None` when nothing moves between the local and remote sides.
    pub direction: Option<TransferDirection>,
    pub state: TransferState,
    pub current_file: String,
    pub done_bytes: u64,
    pub total_bytes: u64,
    pub files_done: u32,
    pub files_total: u32,
    /// Set once the speed is above one byte per second.
    pub rate: Option<Rate>,
    /// True while the scanner is still discovering files, so `total_bytes`
    /// and `files_total` are lower bounds (still climbing). The UI shows an
    /// indeterminate bar and withholds the ETA until this clears.
    pub scanning: bool,
    pub error: Option<String>,
}

impl Clone for TransferSnapshot {
    fn clone(&self) -> (r: Self)
        ensures
            r == *self,
    {
        TransferSnapshot {
            id: self.id,
            title: self.title.clone(),
            kind: self.kind,
            direction: self.direction,
            state: self.state,
            current_file: self.current_file.clone(),
            done_bytes: self.done_bytes,
            total_bytes: self.total_bytes,
            files_done: self.files_done,
            files_total: self.files_total,
            rate: self.rate,
            scanning: self.scanning,
            error: copy_opt(&self.error),
        }
    }
}

#[derive(Debug, Clone, Copy, PartialEq, Eq, Structural)]
pub enum TransferAction {
    Pause,
    Resume,
    Cancel,
    /// Remove a terminal entry from the queue view.
    Dismiss,
}

/// User's answer to a destination-exists conflict.
#[derive(Debug, Clone, Copy, PartialEq, Eq, Structural)]
pub enum ConflictDecision {
    Overwrite,
    OverwriteAll,
    /// Continue writing the existing destination from its current length.
    Resume,
    Skip,
    SkipAll,
    CancelJob,
}

#[derive(Debug, Clone, Copy, PartialEq, Eq, Structural)]
pub enum PromptKind {
    /// Hidden-input password/passphrase entry.
    Secret,
    /// A yes/no question (host key confirmation).
    YesNo,
}

/// The ten characters tell a mode apart bit by bit. The first tells the kind,
/// a symlink whatever it points at. Each of the others tells its own bit, and
/// the three for execute tell the special bit of their place as well: small
/// over execute, capital without.
pub proof fn law_permission_chars(is_dir: bool, is_symlink: bool, mode: u32)
    ensures
        ({
            let s = permission_chars(is_dir, is_symlink, mode);
            &&& s.len() == 10
            &&& s[0] == 'l' <==> is_symlink
            &&& s[0] == 'd' <==> is_dir && !is_symlink
            &&& s[0] == '-' <==> !is_dir && !is_symlink
            &&& s[1] == 'r' <==> mode & 0o400 != 0
            &&& s[2] == 'w' <==> mode & 0o200 != 0
            &&& s[3] == 'x' || s[3] == 's' <==> mode & 0o100 != 0
            &&& s[3] == 's' || s[3] == 'S' <==> mode & 0o4000 != 0
            &&& s[4] == 'r' <==> mode & 0o40 != 0
            &&& s[5] == 'w' <==> mode & 0o20 != 0
            &&& s[6] == 'x' || s[6] == 's' <==> mode & 0o10 != 0
            &&& s[6] == 's' || s[6] == 'S' <==> mode & 0o2000 != 0
            &&& s[7] == 'r' <==> mode & 0o4 != 0
            &&& s[8] == 'w' <==> mode & 0o2 != 0
            &&& s[9] == 'x' || s[9] == 't' <==> mode & 0o1 != 0
            &&& s[9] == 't' || s[9] == 'T' <==> mode & 0o1000 != 0
            &&& forall|i: int| 0 <= i < 10 ==> s[i] == '-' || "ldrwxsStT"@.contains(#[trigger] s[i])
        }),
{
    reveal_strlit("ldrwxsStT");
    let letters = "ldrwxsStT"@;
    assert(letters[0] == 'l' && letters[1] == 'd' && letters[2] == 'r' && letters[3] == 'w'
        && letters[4] == 'x' && letters[5] == 's' && letters[6] == 'S' && letters[7] == 't'
        && letters[8] == 'T');
}

/// An entry whose mode is unknown shows ten dashes, whatever it is; any other
/// shows its mode.
pub proof fn law_permissions_text(e: FsEntry)
    ensures
        e.permissions_text().len() == 10,
        e.mode is None ==> forall|i: int| 0 <= i < 10 ==> e.permissions_text()[i] == '-',
        e.mode is Some ==> e.permissions_text() == permission_chars(
            e.is_dir,
            e.is_symlink,
            e.mode->0,
        ),
{
    reveal_strlit("----------");
}

/// An empty text counts as none, and any other as itself.
pub proof fn law_non_empty(o: Option<String>)
    ensures
        non_empty(o) is Some <==> o is Some && o->0@.len() > 0,
        non_empty(o) is Some ==> non_empty(o)->0 == o->0@,
{
}

/// A job is over when it is done, failed or cancelled, and in no other state:
/// one that waits, is paused or has not begun is still to end.
pub proof fn law_terminal(state: TransferState)
    ensures
        state.terminal() <==> !(state is Queued || state is Scanning || state is Running || state
            is Paused || state is WaitingConflict),
{
}

/// Each way to become root and each way to authenticate has a label of its
/// own, so that a choice by label is a choice of one.
pub proof fn law_labels_differ(a: Elevation, b: Elevation, x: AuthMethod, y: AuthMethod)
    ensures
        a.label_text() == b.label_text() ==> a == b,
        x.label_text() == y.label_text() ==> x == y,
        a is Sudo <==> a.label_text() == "Root via sudo"@,
        a is Su <==> a.label_text() == "Root via su -"@,
        x is Password <==> x.label_text() == "Password"@,
        x is Key <==> x.label_text() == "Key file (PEM)"@,
{
    reveal_strlit("Connect as yourself");
    reveal_strlit("Root via sudo");
    reveal_strlit("Root via su -");
    reveal_strlit("SSH agent / default keys");
    reveal_strlit("Password");
    reveal_strlit("Key file (PEM)");
    assert("Root via sudo"@[11] != "Root via su -"@[11]);
    assert("Connect as yourself"@.len() == 19);
    assert("Root via sudo"@.len() == 13);
    assert("Root via su -"@.len() == 13);
    assert("SSH agent / default keys"@.len() == 24);
    assert("Password"@.len() == 8);
    assert("Key file (PEM)"@.len() == 14);
}

} // verus!
