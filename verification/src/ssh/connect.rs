//! Connecting through the system OpenSSH binary: its arguments, the remote
//! bootstrap for elevated sessions, and what its output means.

use crate::ssh::askpass::{lossy_text, text_from_utf8_lossy};
use crate::text::{
    chars_of, contains, contains_text, decimal, lines, lines_of, occurs_at, texts, to_decimal,
    trim, trimmed,
};
use crate::types::{copy_texts, non_empty, AuthMethod, ConnectSpec, Elevation};
use vstd::prelude::*;
use vstd::string::*;
use vstd::utf8::*;

verus! {

/// Well-known sftp-server locations across distros, tried in order.
pub const SFTP_SERVER_CANDIDATES: &'static str =
    "/usr/lib/openssh/sftp-server /usr/libexec/openssh/sftp-server /usr/lib/ssh/sftp-server /usr/libexec/sftp-server /usr/lib/sftp-server";

/// `LSCP_READY` and a line end: the pty is raw and sftp-server starts.
pub const READY: [u8; 11] = [76, 83, 67, 80, 95, 82, 69, 65, 68, 89, 10];

/// `LSCP_NOSERVER`: there is no sftp-server on the remote host.
pub const NOSERVER: [u8; 13] = [76, 83, 67, 80, 95, 78, 79, 83, 69, 82, 86, 69, 82];

/// `LSCP_PASS:`, which sudo is told to ask with.
pub const PASS_PROMPT: [u8; 10] = [76, 83, 67, 80, 95, 80, 65, 83, 83, 58];

/// `Password:`, which su asks with.
pub const SU_PROMPT: [u8; 9] = [80, 97, 115, 115, 119, 111, 114, 100, 58];

/// How much of ssh's error output is kept.
pub const STDERR_KEPT: usize = 16384;

/// How much the bootstrap may print before it says it is ready.
pub const BOOTSTRAP_LIMIT: usize = 65536;

/// How often an elevation password is asked for.
pub const MAX_ASKED: u32 = 3;

/// The characters of `s` with each single quote closed, escaped and reopened.
pub open spec fn quote_escaped(s: Seq<char>) -> Seq<char>
    decreases s.len(),
{
    if s.len() == 0 {
        seq![]
    } else if s.last() == '\'' {
        quote_escaped(s.drop_last()) + seq!['\'', '\\', '\'', '\'']
    } else {
        quote_escaped(s.drop_last()).push(s.last())
    }
}

/// `s` in single quotes for a shell.
pub open spec fn shell_quoted(s: Seq<char>) -> Seq<char> {
    seq!['\''] + quote_escaped(s) + seq!['\'']
}

/// `s` in single quotes for a shell.
pub fn shell_quote(s: &str) -> (r: String)
    ensures
        r@ == shell_quoted(s@),
{
    let v = chars_of(s);
    let mut out = String::new();
    out.push('\'');
    let mut i: usize = 0;
    assert(out@ =~= seq!['\''] + quote_escaped(s@.take(0)));
    while i < v.len()
        invariant
            v@ == s@,
            i <= v@.len(),
            out@ == seq!['\''] + quote_escaped(s@.take(i as int)),
        decreases v@.len() - i,
    {
        assert(s@.take(i + 1).drop_last() =~= s@.take(i as int));
        let ghost before = out@;
        if v[i] == '\'' {
            out.push('\'');
            out.push('\\');
            out.push('\'');
            out.push('\'');
            assert(out@ =~= before + seq!['\'', '\\', '\'', '\'']);
        } else {
            out.push(v[i]);
        }
        i += 1;
        assert(out@ =~= seq!['\''] + quote_escaped(s@.take(i as int)));
    }
    assert(s@.take(i as int) =~= s@);
    out.push('\'');
    assert(out@ =~= shell_quoted(s@));
    out
}

/// What a shell reads from single-quoted pieces and escaped characters in one
/// word, from within quotes or not; `None` where quotes do not match or
/// anything else stands outside of them.
pub open spec fn shell_reads(s: Seq<char>, quoted: bool) -> Option<Seq<char>>
    decreases s.len(),
{
    if s.len() == 0 {
        if quoted {
            None
        } else {
            Some(seq![])
        }
    } else if s[0] == '\'' {
        shell_reads(s.skip(1), !quoted)
    } else if quoted {
        match shell_reads(s.skip(1), true) {
            Some(rest) => Some(seq![s[0]] + rest),
            None => None,
        }
    } else if s[0] == '\\' && s.len() > 1 {
        match shell_reads(s.skip(2), false) {
            Some(rest) => Some(seq![s[1]] + rest),
            None => None,
        }
    } else {
        None
    }
}

proof fn lemma_escaped_first(s: Seq<char>)
    requires
        s.len() > 0,
    ensures
        quote_escaped(s) == (if s[0] == '\'' {
            seq!['\'', '\\', '\'', '\'']
        } else {
            seq![s[0]]
        }) + quote_escaped(s.skip(1)),
    decreases s.len(),
{
    let head = if s[0] == '\'' {
        seq!['\'', '\\', '\'', '\'']
    } else {
        seq![s[0]]
    };
    if s.len() == 1 {
        assert(s.drop_last() =~= seq![]);
        assert(s.skip(1) =~= seq![]);
        reveal_with_fuel(quote_escaped, 2);
        assert(quote_escaped(s) =~= head + quote_escaped(s.skip(1)));
    } else {
        lemma_escaped_first(s.drop_last());
        assert(s.drop_last().skip(1) =~= s.skip(1).drop_last());
        assert(quote_escaped(s) =~= head + quote_escaped(s.skip(1)));
    }
}

proof fn lemma_reads_escaped(s: Seq<char>)
    ensures
        shell_reads(quote_escaped(s) + seq!['\''], true) == Some(s),
    decreases s.len(),
{
    let whole = quote_escaped(s) + seq!['\''];
    if s.len() == 0 {
        assert(whole.skip(1) =~= seq![]);
        reveal_with_fuel(shell_reads, 2);
        assert(shell_reads(whole, true) == Some(Seq::<char>::empty()));
        assert(s =~= seq![]);
    } else {
        lemma_escaped_first(s);
        lemma_reads_escaped(s.skip(1));
        let rest = quote_escaped(s.skip(1)) + seq!['\''];
        if s[0] == '\'' {
            let one = whole.skip(1);
            let three = one.skip(2);
            assert(three.skip(1) =~= rest);
            assert(whole[0] == '\'' && one[0] == '\\' && one[1] == '\'' && three[0] == '\'');
            assert(shell_reads(three, false) == shell_reads(rest, true));
            assert(shell_reads(one, false) == Some(seq!['\''] + s.skip(1)));
            assert(shell_reads(whole, true) == shell_reads(one, false));
            assert(seq!['\''] + s.skip(1) =~= s);
        } else {
            assert(whole.skip(1) =~= rest);
            assert(whole[0] == s[0]);
            assert(seq![s[0]] + s.skip(1) =~= s);
        }
    }
}

/// A shell reads a quoted text back as it was.
pub proof fn law_shell_quote(s: Seq<char>)
    ensures
        shell_reads(shell_quoted(s), false) == Some(s),
{
    lemma_reads_escaped(s);
    assert(shell_quoted(s).skip(1) =~= quote_escaped(s) + seq!['\'']);
}

/// The part of the bootstrap that sets `P` to the sftp-server.
pub open spec fn find_server_text(server: Option<Seq<char>>) -> Seq<char> {
    match server {
        Some(path) => "P="@ + shell_quoted(path),
        None => "P=; for c in "@ + SFTP_SERVER_CANDIDATES@
            + "; do [ -x \"$c\" ] && P=\"$c\" && break; done; [ -n \"$P\" ] || P=$(command -v sftp-server) || { echo LSCP_NOSERVER; exit 127; }"@,
    }
}

/// The bootstrap for an elevated session.
pub open spec fn bootstrap_text(elevation: Elevation, server: Option<Seq<char>>) -> Seq<char> {
    let inner = "\"stty raw -echo; printf 'LSCP_READY\\n'; exec \\\"$P\\\"\""@;
    match elevation {
        Elevation::Sudo => find_server_text(server) + "; exec sudo -p LSCP_PASS: sh -c "@ + inner,
        _ => find_server_text(server) + "; LC_ALL=C exec su -s /bin/sh -c "@ + inner + " - root"@,
    }
}

/// Remote bootstrap for elevated sessions. Runs under `ssh -tt`, so it owns
/// a pty. It locates sftp-server, then elevates; the elevated shell flips
/// the pty to raw mode (making it 8-bit clean), prints a sentinel and execs
/// sftp-server, at which point the pty carries the binary SFTP protocol.
///
/// The elevated command is double-quoted so `$P` is expanded by the
/// unprivileged outer shell before sudo/su ever runs; the escaped inner
/// quotes keep paths with spaces intact for the root shell. `LC_ALL=C` pins
/// su's password prompt to English so that it can be told.
pub fn bootstrap_script(elevation: Elevation, server_override: Option<&str>) -> (r: String)
    requires
        elevation != Elevation::Plain,
    ensures
        r@ == bootstrap_text(
            elevation,
            match server_override {
                Some(p) => Some(p@),
                None => None,
            },
        ),
{
    let mut s = String::new();
    match server_override {
        Some(path) => {
            s.append("P=");
            s.append(shell_quote(path).as_str());
        },
        None => {
            s.append("P=; for c in ");
            s.append(SFTP_SERVER_CANDIDATES);
            s.append(
                "; do [ -x \"$c\" ] && P=\"$c\" && break; done; [ -n \"$P\" ] || P=$(command -v sftp-server) || { echo LSCP_NOSERVER; exit 127; }",
            );
        },
    }
    let inner = "\"stty raw -echo; printf 'LSCP_READY\\n'; exec \\\"$P\\\"\"";
    if elevation == Elevation::Sudo {
        s.append("; exec sudo -p LSCP_PASS: sh -c ");
        s.append(inner);
    } else {
        s.append("; LC_ALL=C exec su -s /bin/sh -c ");
        s.append(inner);
        s.append(" - root");
    }
    assert(s@ =~= bootstrap_text(
        elevation,
        match server_override {
            Some(p) => Some(p@),
            None => None,
        },
    ));
    s
}

/// The position of the first occurrence of `needle`.
pub fn find(haystack: &[u8], needle: &[u8]) -> (r: Option<usize>)
    requires
        needle@.len() > 0,
    ensures
        match r {
            Some(i) => occurs_at(haystack@, needle@, i as int) && forall|k: int|
                0 <= k < i ==> !occurs_at(haystack@, needle@, k),
            None => forall|k: int| !occurs_at(haystack@, needle@, k),
        },
{
    let n = haystack.len();
    let m = needle.len();
    let mut i: usize = 0;
    while i < n && m <= n - i
        invariant
            n == haystack@.len(),
            m == needle@.len(),
            m > 0,
            i <= n,
            forall|k: int| 0 <= k < i ==> !occurs_at(haystack@, needle@, k),
        decreases n - i,
    {
        if bytes_at(haystack, needle, i) {
            return Some(i);
        }
        i += 1;
    }
    None
}

/// Whether `needle` stands in `haystack` at `at`.
fn bytes_at(haystack: &[u8], needle: &[u8], at: usize) -> (r: bool)
    requires
        at + needle@.len() <= haystack@.len(),
    ensures
        r == occurs_at(haystack@, needle@, at as int),
{
    let m = needle.len();
    let n = haystack.len();
    let mut j: usize = 0;
    while j < m
        invariant
            m == needle@.len(),
            n == haystack@.len(),
            at + m <= n,
            j <= m,
            forall|k: int| 0 <= k < j ==> haystack@[at + k] == needle@[k],
        decreases m - j,
    {
        if haystack[at + j] != needle[j] {
            assert(haystack@.subrange(at as int, at + needle@.len())[j as int] != needle@[j as int]);
            return false;
        }
        j += 1;
    }
    assert(haystack@.subrange(at as int, at + needle@.len()) =~= needle@);
    true
}

/// Whether `buf` ends with `needle` and `n` spaces after it.
pub open spec fn then_spaces(buf: Seq<u8>, needle: Seq<u8>, n: int) -> bool {
    &&& n >= 0
    &&& occurs_at(buf, needle, buf.len() - n - needle.len())
    &&& forall|k: int| buf.len() - n <= k < buf.len() ==> #[trigger] buf[k] == 32
}

/// Whether `buf` ends with `needle`, followed by any number of spaces.
pub open spec fn at_prompt(buf: Seq<u8>, needle: Seq<u8>) -> bool {
    exists|n: int| #[trigger] then_spaces(buf, needle, n)
}

/// True when the buffer ends with `needle` optionally followed by spaces —
/// how `su` renders "Password: " while waiting for input.
pub fn ends_with_prompt(buf: &[u8], needle: &[u8]) -> (r: bool)
    ensures
        r == at_prompt(buf@, needle@),
{
    let len = buf.len();
    let m = needle.len();
    let mut end: usize = len;
    loop
        invariant
            len == buf@.len(),
            m == needle@.len(),
            end <= len,
            forall|k: int| end <= k < len ==> #[trigger] buf@[k] == 32,
            forall|n: int| 0 <= n < len - end ==> !#[trigger] then_spaces(buf@, needle@, n),
        decreases end,
    {
        if m <= end && bytes_at(buf, needle, end - m) {
            assert(then_spaces(buf@, needle@, len - end));
            return true;
        }
        assert(!then_spaces(buf@, needle@, len - end));
        if end == 0 || buf[end - 1] != 32 {
            assert forall|n: int| !#[trigger] then_spaces(buf@, needle@, n) by {
                if n > len - end && then_spaces(buf@, needle@, n) && end > 0 {
                    assert(buf@[end - 1] == 32);
                }
            }
            return false;
        }
        end -= 1;
    }
}

/// Why an elevation failed.
#[derive(Debug)]
pub enum ElevationFailure {
    /// There is no sftp-server on the remote host.
    NoServer,
    /// The password was refused too often.
    TooManyAttempts,
    /// The user gave no password.
    Cancelled,
    TimedOut,
    /// ssh ended, with this status.
    Exited(String),
    /// ssh's output ended.
    Closed,
    /// The bootstrap printed more than it may.
    TooMuchOutput,
}

impl ElevationFailure {
    /// What the user is told, for an elevation on `host`.
    pub open spec fn text(self, host: Seq<char>) -> Seq<char> {
        match self {
            ElevationFailure::NoServer =>
                "sftp-server binary not found on the remote host; "@
                    + "set an explicit path in the connection settings"@,
            ElevationFailure::TooManyAttempts => "authentication failed (too many attempts)"@,
            ElevationFailure::Cancelled => "connection cancelled"@,
            ElevationFailure::TimedOut => "timed out waiting for elevation on "@ + host,
            ElevationFailure::Exited(status) => "ssh exited during elevation ("@ + status@ + ")"@,
            ElevationFailure::Closed => "connection closed during elevation"@,
            ElevationFailure::TooMuchOutput => "unexpected output from remote bootstrap"@,
        }
    }

    /// What the user is told, for an elevation on `host`.
    pub fn message(&self, host: &str) -> (r: String)
        ensures
            r@ == self.text(host@),
    {
        let mut s = match self {
            ElevationFailure::NoServer => "sftp-server binary not found on the remote host; ",
            ElevationFailure::TooManyAttempts => "authentication failed (too many attempts)",
            ElevationFailure::Cancelled => "connection cancelled",
            ElevationFailure::TimedOut => "timed out waiting for elevation on ",
            ElevationFailure::Exited(_) => "ssh exited during elevation (",
            ElevationFailure::Closed => "connection closed during elevation",
            ElevationFailure::TooMuchOutput => "unexpected output from remote bootstrap",
        }.to_owned();
        match self {
            ElevationFailure::NoServer => s.append(
                "set an explicit path in the connection settings",
            ),
            ElevationFailure::TimedOut => s.append(host),
            ElevationFailure::Exited(status) => {
                s.append(status.as_str());
                s.append(")");
            },
            _ => {},
        }
        s
    }
}

/// What an elevation under way does next.
#[derive(Debug)]
pub enum ElevationStep {
    /// The session starts with these bytes, which followed the sentinel.
    Ready(Vec<u8>),
    Fail(ElevationFailure),
    /// Ask the user for the password.
    Ask,
    /// Wait for more output.
    Read,
}

/// What came while an elevation waited for output.
#[derive(Debug)]
pub enum Heard {
    /// These bytes; none once the output ended.
    Output(Vec<u8>),
    TimedOut,
    /// ssh ended, with this status.
    Exited(String),
}

/// An elevation under way: the output since the last answer, and how often a
/// password was asked for.
pub struct ElevationDriver {
    pub buf: Vec<u8>,
    pub asked: u32,
}

/// Whether the output says that a password is wanted.
pub open spec fn wants_password(buf: Seq<u8>) -> bool {
    (exists|k: int| occurs_at(buf, PASS_PROMPT@, k)) || at_prompt(buf, SU_PROMPT@)
}

/// Whether `r` is what the output calls for, after `asked` questions.
pub open spec fn elevation_calls_for(buf: Seq<u8>, asked: u32, r: ElevationStep) -> bool {
    if exists|k: int| occurs_at(buf, READY@, k) {
        &&& r matches ElevationStep::Ready(rest)
        &&& exists|p: int|
            #![trigger occurs_at(buf, READY@, p)]
            occurs_at(buf, READY@, p) && (forall|k: int|
                0 <= k < p ==> !occurs_at(buf, READY@, k)) && rest@ == buf.skip(
                p + READY@.len(),
            )
    } else if exists|k: int| occurs_at(buf, NOSERVER@, k) {
        r == ElevationStep::Fail(ElevationFailure::NoServer)
    } else if wants_password(buf) {
        if asked >= MAX_ASKED {
            r == ElevationStep::Fail(ElevationFailure::TooManyAttempts)
        } else {
            r is Ask
        }
    } else {
        r is Read
    }
}

/// The output kept once this was heard, and whether the elevation goes on.
pub open spec fn heard_outcome(buf: Seq<u8>, heard: Heard) -> (Seq<u8>, Result<
    (),
    ElevationFailure,
>) {
    match heard {
        Heard::Output(chunk) => (
            buf + chunk@,
            if chunk@.len() == 0 {
                Err(ElevationFailure::Closed)
            } else if buf.len() + chunk@.len() > BOOTSTRAP_LIMIT {
                Err(ElevationFailure::TooMuchOutput)
            } else {
                Ok(())
            },
        ),
        Heard::TimedOut => (buf, Err(ElevationFailure::TimedOut)),
        Heard::Exited(status) => (buf, Err(ElevationFailure::Exited(status))),
    }
}

impl ElevationDriver {
    /// Nothing was printed or asked yet.
    pub fn new() -> (r: Self)
        ensures
            r.buf@.len() == 0,
            r.asked == 0,
    {
        ElevationDriver { buf: Vec::new(), asked: 0 }
    }

    /// What the output so far calls for.
    pub fn look(&mut self) -> (r: ElevationStep)
        ensures
            elevation_calls_for(old(self).buf@, old(self).asked, r),
            final(self).asked == old(self).asked + if r is Ask {
                1int
            } else {
                0
            },
            match r {
                ElevationStep::Ready(rest) => final(self).buf@ + rest@ == old(self).buf@,
                _ => final(self).buf@ == old(self).buf@,
            },
    {
        let len = self.buf.len();
        if let Some(pos) = find(self.buf.as_slice(), READY.as_slice()) {
            assert(occurs_at(self.buf@, READY@, pos as int));
            assert(pos + 11 <= len);
            let rest = self.buf.split_off(pos + 11);
            assert(rest@ =~= old(self).buf@.skip(pos + 11));
            assert(self.buf@ + rest@ =~= old(self).buf@);
            return ElevationStep::Ready(rest);
        }
        if let Some(pos) = find(self.buf.as_slice(), NOSERVER.as_slice()) {
            assert(occurs_at(self.buf@, NOSERVER@, pos as int));
            return ElevationStep::Fail(ElevationFailure::NoServer);
        }
        let asks = match find(self.buf.as_slice(), PASS_PROMPT.as_slice()) {
            Some(pos) => {
                assert(occurs_at(self.buf@, PASS_PROMPT@, pos as int));
                true
            },
            None => ends_with_prompt(self.buf.as_slice(), SU_PROMPT.as_slice()),
        };
        if asks {
            if self.asked >= MAX_ASKED {
                return ElevationStep::Fail(ElevationFailure::TooManyAttempts);
            }
            self.asked += 1;
            return ElevationStep::Ask;
        }
        ElevationStep::Read
    }

    /// The password was sent: what came before no longer counts.
    pub fn answered(&mut self)
        ensures
            final(self).buf@.len() == 0,
            final(self).asked == old(self).asked,
    {
        self.buf.clear();
    }

    /// More output came, or none will. Only output is kept, and only so much
    /// of it may come.
    pub fn received(&mut self, heard: Heard) -> (r: Result<(), ElevationFailure>)
        ensures
            final(self).asked == old(self).asked,
            (final(self).buf@, r) == heard_outcome(old(self).buf@, heard),
    {
        match heard {
            Heard::Output(chunk) => {
                self.buf.extend_from_slice(chunk.as_slice());
                assert(self.buf@ =~= old(self).buf@ + chunk@);
                if chunk.len() == 0 {
                    Err(ElevationFailure::Closed)
                } else if self.buf.len() > BOOTSTRAP_LIMIT {
                    Err(ElevationFailure::TooMuchOutput)
                } else {
                    Ok(())
                }
            },
            Heard::TimedOut => Err(ElevationFailure::TimedOut),
            Heard::Exited(status) => Err(ElevationFailure::Exited(status)),
        }
    }
}

/// A password is asked for three times at most, and never once the session
/// is ready or there is no server.
pub proof fn law_elevation_asks(buf: Seq<u8>, asked: u32, r: ElevationStep)
    requires
        elevation_calls_for(buf, asked, r),
    ensures
        r is Ask ==> asked < MAX_ASKED && forall|k: int| !occurs_at(buf, READY@, k) && !occurs_at(
            buf,
            NOSERVER@,
            k,
        ),
{
}

/// What the user is asked for when elevating.
pub open spec fn elevation_question(elevation: Elevation, host: Seq<char>) -> Seq<char> {
    (if elevation == Elevation::Sudo {
        "sudo password on "@
    } else {
        "root password on "@
    }) + host
}

/// What the user is asked for when elevating.
pub fn elevation_title(elevation: Elevation, host: &str) -> (r: String)
    ensures
        r@ == elevation_question(elevation, host@),
{
    let mut s = if elevation == Elevation::Sudo {
        "sudo password on ".to_owned()
    } else {
        "root password on ".to_owned()
    };
    s.append(host);
    s
}

/// What is typed for a password.
pub open spec fn typed_bytes(password: Seq<char>) -> Seq<u8> {
    encode_utf8(password).push(10)
}

/// What is typed for a password: its bytes and a line end.
pub fn password_bytes(password: &str) -> (r: Vec<u8>)
    ensures
        r@ == typed_bytes(password@),
{
    let mut out: Vec<u8> = Vec::new();
    out.extend_from_slice(password.as_bytes());
    assert(out@ =~= encode_utf8(password@));
    out.push(10);
    out
}

/// The last `n` bytes of `b`, or all of them.
pub open spec fn tail<T>(b: Seq<T>, n: int) -> Seq<T> {
    if b.len() > n {
        b.skip(b.len() - n)
    } else {
        b
    }
}

/// Takes up more of ssh's error output, of which the end is kept.
pub fn keep_stderr(buf: &mut Vec<u8>, chunk: &[u8])
    ensures
        final(buf)@ == tail(old(buf)@ + chunk@, STDERR_KEPT as int),
{
    buf.extend_from_slice(chunk);
    assert(buf@ =~= old(buf)@ + chunk@);
    if buf.len() > STDERR_KEPT {
        let excess = buf.len() - STDERR_KEPT;
        let kept = buf.split_off(excess);
        *buf = kept;
        assert(buf@ =~= tail(old(buf)@ + chunk@, STDERR_KEPT as int));
    }
}

/// The lines that tell something: not blank, and not the remark on the
/// pseudo-terminal that ssh makes of every elevated session.
pub open spec fn telling_lines(ls: Seq<Seq<char>>) -> Seq<Seq<char>>
    decreases ls.len(),
{
    if ls.len() == 0 {
        seq![]
    } else if trimmed(ls.last()).len() > 0 && !contains_text(ls.last(), "Pseudo-terminal"@) {
        telling_lines(ls.drop_last()).push(ls.last())
    } else {
        telling_lines(ls.drop_last())
    }
}

/// The lines with a line feed between each two.
pub open spec fn line_joined(ls: Seq<Seq<char>>) -> Seq<char>
    decreases ls.len(),
{
    if ls.len() == 0 {
        seq![]
    } else if ls.len() == 1 {
        ls[0]
    } else {
        line_joined(ls.drop_last()).push('\n') + ls.last()
    }
}

/// What is shown of ssh's error output: its last four telling lines.
pub open spec fn error_detail(output: Seq<char>) -> Seq<char> {
    line_joined(tail(telling_lines(lines_of(output)), 4))
}

/// The last four telling lines of the output.
pub fn ssh_error_text(output: &str) -> (r: String)
    ensures
        r@ == error_detail(output@),
{
    let all = lines(output);
    let ghost ls = texts(all@);
    let mut kept: Vec<String> = Vec::new();
    let mut i: usize = 0;
    assert(texts(kept@) =~= telling_lines(ls.take(0)));
    while i < all.len()
        invariant
            ls == texts(all@),
            i <= all@.len(),
            texts(kept@) == telling_lines(ls.take(i as int)),
        decreases all@.len() - i,
    {
        assert(ls.take(i + 1).drop_last() =~= ls.take(i as int));
        assert(ls.take(i + 1).last() == all@[i as int]@);
        let line = &all[i];
        if trim(line.as_str()).as_str().unicode_len() > 0 && !contains(
            line.as_str(),
            "Pseudo-terminal",
        ) {
            let ghost before = kept@;
            kept.push(line.clone());
            assert(texts(kept@) =~= texts(before).push(line@));
        }
        i += 1;
    }
    assert(ls.take(i as int) =~= ls);
    let n = kept.len();
    let from: usize = if n > 4 {
        n - 4
    } else {
        0
    };
    let ghost last = texts(kept@).skip(from as int);
    assert(last =~= tail(texts(kept@), 4));
    let mut out = String::new();
    let mut j: usize = from;
    assert(out@ =~= line_joined(last.take(0)));
    while j < n
        invariant
            n == kept@.len(),
            from <= j <= n,
            last == texts(kept@).skip(from as int),
            out@ == line_joined(last.take(j - from)),
        decreases n - j,
    {
        if j > from {
            out.push('\n');
        }
        out.append(kept[j].as_str());
        assert(last.take(j - from + 1).drop_last() =~= last.take(j - from));
        assert(last.take(j - from + 1).last() == kept@[j as int]@);
        if j == from {
            assert(last.take(0) =~= seq![]);
            assert(out@ =~= last.take(1)[0]);
        }
        j += 1;
    }
    assert(last.take(n - from) =~= last);
    out
}

/// What is shown of ssh's error output, which is read as UTF-8 where it is.
pub fn ssh_error(output: &[u8]) -> (r: String)
    ensures
        r@ == error_detail(lossy_text(output@)),
{
    let text = text_from_utf8_lossy(output);
    ssh_error_text(text.as_str())
}

/// Why a session ended.
pub open spec fn reason_text(detail: Seq<char>, status: Seq<char>) -> Seq<char> {
    if detail.len() == 0 {
        "ssh exited: "@ + status
    } else {
        detail
    }
}

/// Why a session ended: what ssh said, or else how it exited.
pub fn close_reason(detail: String, status: &str) -> (r: String)
    ensures
        r@ == reason_text(detail@, status@),
{
    if detail.as_str().unicode_len() == 0 {
        let mut s = "ssh exited: ".to_owned();
        s.append(status);
        s
    } else {
        detail
    }
}

/// The directory that a session opens at.
pub open spec fn opened_at(requested: Option<String>, resolved: Option<String>) -> Option<String> {
    if resolved is Some {
        resolved
    } else {
        requested
    }
}

/// The directory that a session opens at: the one asked for, in its resolved
/// form where the server gives one, or else the resolved home; `None` where
/// there is neither.
pub fn initial_dir(requested: &Option<String>, resolved: Option<String>) -> (r: Option<String>)
    ensures
        r == opened_at(*requested, resolved),
{
    if resolved.is_some() {
        resolved
    } else {
        crate::types::copy_opt(requested)
    }
}

/// How many of the bytes that were read ahead are handed out.
pub open spec fn handed_out(ahead: nat, room: nat) -> nat {
    if ahead < room {
        ahead
    } else {
        room
    }
}

/// Hands out the bytes that were read ahead, as many as there is room for.
pub fn take_ahead(ahead: &mut Vec<u8>, room: usize) -> (r: Vec<u8>)
    ensures
        r@ + final(ahead)@ == old(ahead)@,
        r@.len() == handed_out(old(ahead)@.len(), room as nat),
{
    let n = if ahead.len() < room {
        ahead.len()
    } else {
        room
    };
    let rest = ahead.split_off(n);
    let mut out = rest;
    std::mem::swap(&mut out, ahead);
    assert(out@ + ahead@ =~= old(ahead)@);
    out
}

/// The words that `shell_words::split` makes of a command line; `None` where
/// it finds an unmatched quote.
pub uninterp spec fn shell_words_of(s: Seq<char>) -> Option<Seq<Seq<char>>>;

/// The error of `shell_words::split`.
#[verifier::external_type_specification]
#[verifier::external_body]
pub struct ExParseError(shell_words::ParseError);

/// `shell_words::split`: the words of a command line, as a Unix shell has
/// them, or an error for an unmatched quote. Either is a function of the line
/// alone.
pub assume_specification[ shell_words::split ](s: &str) -> (r: Result<
    Vec<String>,
    shell_words::ParseError,
>)
    ensures
        match r {
            Ok(words) => shell_words_of(s@) == Some(texts(words@)),
            Err(_) => shell_words_of(s@) is None,
        },
;

/// The arguments for port, user and authentication.
pub open spec fn auth_arg_list(spec: ConnectSpec) -> Seq<Seq<char>> {
    (match spec.port {
        Some(port) => seq!["-p"@, decimal(port as nat)],
        None => seq![],
    }) + (match non_empty(spec.user) {
        Some(user) => seq!["-l"@, user],
        None => seq![],
    }) + (match spec.auth {
        AuthMethod::Agent => seq![],
        AuthMethod::Password => seq![
            "-o"@,
            "PreferredAuthentications=password,keyboard-interactive"@,
            "-o"@,
            "PubkeyAuthentication=no"@,
            "-o"@,
            "NumberOfPasswordPrompts=3"@,
        ],
        AuthMethod::Key => match non_empty(spec.identity_file) {
            Some(path) => seq!["-i"@, path, "-o"@, "IdentitiesOnly=yes"@],
            None => seq![],
        },
    })
}

/// The arguments for what runs on the remote host.
pub open spec fn remote_arg_list(spec: ConnectSpec) -> Seq<Seq<char>> {
    match spec.elevation {
        Elevation::Plain => seq!["-s"@, spec.host@, "sftp"@],
        _ => seq![
            "-tt"@,
            spec.host@,
            "--"@,
            bootstrap_text(
                spec.elevation,
                match spec.sftp_server_path {
                    Some(p) => Some(p@),
                    None => None,
                },
            ),
        ],
    }
}

/// All arguments of ssh: those for authentication, the words from the
/// environment, those of the connection, and what runs on the remote host.
pub open spec fn ssh_arg_list(spec: ConnectSpec, extra: Option<Seq<Seq<char>>>) -> Seq<Seq<char>> {
    auth_arg_list(spec) + (match extra {
        Some(words) => words,
        None => seq![],
    }) + texts(spec.extra_ssh_args@) + remote_arg_list(spec)
}

fn push_arg(args: &mut Vec<String>, arg: &str)
    ensures
        texts(final(args)@) == texts(old(args)@).push(arg@),
{
    args.push(arg.to_owned());
    assert(texts(args@) =~= texts(old(args)@).push(arg@));
}

fn push_args(args: &mut Vec<String>, more: &Vec<String>)
    ensures
        texts(final(args)@) == texts(old(args)@) + texts(more@),
{
    let mut copy = copy_texts(more);
    args.append(&mut copy);
    assert(texts(args@) =~= texts(old(args)@) + texts(more@));
}

/// Translate the spec's connection and auth settings into ssh arguments.
/// A password is forced through password/keyboard-interactive so ssh actually
/// prompts, rather than silently using a key; IdentitiesOnly stops the agent
/// from offering other keys before the chosen one.
pub fn auth_args(spec: &ConnectSpec) -> (r: Vec<String>)
    ensures
        texts(r@) == auth_arg_list(*spec),
{
    let mut args: Vec<String> = Vec::new();
    if let Some(port) = spec.port {
        push_arg(&mut args, "-p");
        push_arg(&mut args, to_decimal(port as u64).as_str());
    }
    if let Some(user) = &spec.user {
        if user.as_str().unicode_len() > 0 {
            push_arg(&mut args, "-l");
            push_arg(&mut args, user.as_str());
        }
    }
    match spec.auth {
        AuthMethod::Agent => {},
        AuthMethod::Password => {
            push_arg(&mut args, "-o");
            push_arg(&mut args, "PreferredAuthentications=password,keyboard-interactive");
            push_arg(&mut args, "-o");
            push_arg(&mut args, "PubkeyAuthentication=no");
            push_arg(&mut args, "-o");
            push_arg(&mut args, "NumberOfPasswordPrompts=3");
        },
        AuthMethod::Key => {
            if let Some(path) = &spec.identity_file {
                if path.as_str().unicode_len() > 0 {
                    push_arg(&mut args, "-i");
                    push_arg(&mut args, path.as_str());
                    push_arg(&mut args, "-o");
                    push_arg(&mut args, "IdentitiesOnly=yes");
                }
            }
        },
    }
    assert(texts(args@) =~= auth_arg_list(*spec));
    args
}

/// All arguments of ssh, with the words that the environment adds.
pub fn ssh_args_with(spec: &ConnectSpec, extra: &Option<Vec<String>>) -> (r: Vec<String>)
    ensures
        texts(r@) == ssh_arg_list(
            *spec,
            match *extra {
                Some(words) => Some(texts(words@)),
                None => None,
            },
        ),
{
    let mut args = auth_args(spec);
    if let Some(words) = extra {
        push_args(&mut args, words);
    }
    push_args(&mut args, &spec.extra_ssh_args);
    match spec.elevation {
        Elevation::Plain => {
            push_arg(&mut args, "-s");
            push_arg(&mut args, spec.host.as_str());
            push_arg(&mut args, "sftp");
        },
        Elevation::Sudo | Elevation::Su => {
            let script = match &spec.sftp_server_path {
                Some(p) => bootstrap_script(spec.elevation, Some(p.as_str())),
                None => bootstrap_script(spec.elevation, None),
            };
            push_arg(&mut args, "-tt");
            push_arg(&mut args, spec.host.as_str());
            push_arg(&mut args, "--");
            push_arg(&mut args, script.as_str());
        },
    }
    assert(texts(args@) =~= ssh_arg_list(
        *spec,
        match *extra {
            Some(words) => Some(texts(words@)),
            None => None,
        },
    ));
    args
}

/// All arguments of ssh. `env_args` is a command line of further arguments
/// for every connection; one with unmatched quotes adds none.
pub fn ssh_args(spec: &ConnectSpec, env_args: Option<&str>) -> (r: Vec<String>)
    ensures
        texts(r@) == ssh_arg_list(
            *spec,
            match env_args {
                Some(line) => shell_words_of(line@),
                None => None,
            },
        ),
{
    let extra = match env_args {
        Some(line) => match shell_words::split(line) {
            Ok(words) => Some(words),
            Err(_) => None,
        },
        None => None,
    };
    ssh_args_with(spec, &extra)
}

/// Whether `s[..end]` holds no `c`.
spec fn free_of(s: Seq<char>, c: char, end: int) -> bool
    decreases end,
{
    end <= 0 || (s[end - 1] != c && free_of(s, c, end - 1))
}

proof fn lemma_free_of(s: Seq<char>, c: char, end: int)
    requires
        free_of(s, c, end),
        0 <= end <= s.len(),
    ensures
        forall|i: int| 0 <= i < end ==> s[i] != c,
    decreases end,
{
    if end > 0 {
        lemma_free_of(s, c, end - 1);
    }
}

proof fn lemma_quoted_free_of(s: Seq<char>, c: char)
    requires
        !s.contains(c),
        c != '\'',
        c != '\\',
    ensures
        !quote_escaped(s).contains(c),
    decreases s.len(),
{
    if s.len() > 0 {
        assert forall|i: int| 0 <= i < s.drop_last().len() implies s.drop_last()[i] != c by {
            assert(s[i] != c);
        }
        lemma_quoted_free_of(s.drop_last(), c);
        assert(s[s.len() - 1] != c);
        let head = quote_escaped(s.drop_last());
        assert forall|i: int| 0 <= i < quote_escaped(s).len() implies quote_escaped(s)[i] != c by {
            if i < head.len() {
                assert(quote_escaped(s)[i] == head[i]);
                assert(!head.contains(c));
            }
        }
    }
}

proof fn lemma_literals_single_line()
    ensures
        !"P="@.contains('\n'),
        !"P=; for c in "@.contains('\n'),
        !SFTP_SERVER_CANDIDATES@.contains('\n'),
        !"; do [ -x \"$c\" ] && P=\"$c\" && break; done; [ -n \"$P\" ] || P=$(command -v sftp-server) || { echo LSCP_NOSERVER; exit 127; }"@.contains('\n'),
        !"\"stty raw -echo; printf 'LSCP_READY\\n'; exec \\\"$P\\\"\""@.contains('\n'),
        !"; exec sudo -p LSCP_PASS: sh -c "@.contains('\n'),
        !"; LC_ALL=C exec su -s /bin/sh -c "@.contains('\n'),
        !" - root"@.contains('\n'),
{
    reveal_with_fuel(free_of, 65);
    reveal_strlit("P=");
    reveal_strlit("P=; for c in ");
    reveal_strlit("/usr/lib/openssh/sftp-server /usr/libexec/openssh/sftp-server /usr/lib/ssh/sftp-server /usr/libexec/sftp-server /usr/lib/sftp-server");
    reveal_strlit("; do [ -x \"$c\" ] && P=\"$c\" && break; done; [ -n \"$P\" ] || P=$(command -v sftp-server) || { echo LSCP_NOSERVER; exit 127; }");
    reveal_strlit("\"stty raw -echo; printf 'LSCP_READY\\n'; exec \\\"$P\\\"\"");
    reveal_strlit("; exec sudo -p LSCP_PASS: sh -c ");
    reveal_strlit("; LC_ALL=C exec su -s /bin/sh -c ");
    reveal_strlit(" - root");
    lemma_free_of("P="@, '\n', "P="@.len() as int);
    lemma_free_of("P=; for c in "@, '\n', "P=; for c in "@.len() as int);
    assert(free_of(SFTP_SERVER_CANDIDATES@, '\n', 50));
    assert(free_of(SFTP_SERVER_CANDIDATES@, '\n', 100));
    lemma_free_of(SFTP_SERVER_CANDIDATES@, '\n', SFTP_SERVER_CANDIDATES@.len() as int);
    let a = "; do [ -x \"$c\" ] && P=\"$c\" && break; done; [ -n \"$P\" ] || P=$(command -v sftp-server) || { echo LSCP_NOSERVER; exit 127; }"@;
    assert(free_of(a, '\n', 50));
    assert(free_of(a, '\n', 100));
    lemma_free_of(a, '\n', a.len() as int);
    let b = "\"stty raw -echo; printf 'LSCP_READY\\n'; exec \\\"$P\\\"\""@;
    assert(free_of(b, '\n', 30));
    lemma_free_of(b, '\n', b.len() as int);
    let c = "; exec sudo -p LSCP_PASS: sh -c "@;
    lemma_free_of(c, '\n', c.len() as int);
    let d = "; LC_ALL=C exec su -s /bin/sh -c "@;
    lemma_free_of(d, '\n', d.len() as int);
    lemma_free_of(" - root"@, '\n', " - root"@.len() as int);
}

/// The bootstrap is a single line, unless the path of the server is not.
pub proof fn law_bootstrap_single_line(elevation: Elevation, server: Option<Seq<char>>)
    requires
        server is Some ==> !server->0.contains('\n'),
    ensures
        !bootstrap_text(elevation, server).contains('\n'),
{
    lemma_literals_single_line();
    if let Some(path) = server {
        lemma_quoted_free_of(path, '\n');
    }
    let text = bootstrap_text(elevation, server);
    let find = find_server_text(server);
    assert(!find.contains('\n'));
    assert(!text.contains('\n'));
}

} // verus!
