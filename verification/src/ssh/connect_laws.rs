//! Laws of connecting: what every ssh command line holds, what the bootstrap
//! and its sentinels have to do with each other, and what output means.

use crate::ssh::connect::{
    at_prompt, auth_arg_list, bootstrap_text, elevation_calls_for, elevation_question, error_detail,
    find_server_text, handed_out, heard_outcome, law_shell_quote, line_joined, opened_at,
    reason_text, remote_arg_list, shell_quoted, shell_reads, ssh_arg_list, tail, telling_lines,
    then_spaces, typed_bytes, wants_password, ElevationFailure, ElevationStep, Heard, BOOTSTRAP_LIMIT,
    NOSERVER, PASS_PROMPT, READY, STDERR_KEPT, SU_PROMPT,
};
use crate::text::{
    contains_text, decimal, has_prefix, has_suffix, law_digits_read_back, lines_of, number_in,
    occurs_at, texts, trimmed,
};
use crate::types::{AuthMethod, ConnectSpec, Elevation};
use vstd::prelude::*;
use vstd::string::*;
use vstd::utf8::*;

verus! {

/// A port stands in every command line that is given one, at its front: "-p"
/// and then the number, whatever the user, the authentication and the rest
/// are. Those change nothing of it, nor it of them.
pub proof fn law_port_args(spec: ConnectSpec, extra: Option<Seq<Seq<char>>>)
    requires
        spec.port is Some,
    ensures
        ({
            let bare = ConnectSpec { port: None, ..spec };
            let port = seq!["-p"@, decimal(spec.port->0 as nat)];
            &&& auth_arg_list(spec) == port + auth_arg_list(bare)
            &&& ssh_arg_list(spec, extra) == port + ssh_arg_list(bare, extra)
            &&& ssh_arg_list(spec, extra)[0] == "-p"@
            &&& number_in(ssh_arg_list(spec, extra)[1], 10, 65535) == Some(spec.port->0 as nat)
        }),
{
    let bare = ConnectSpec { port: None, ..spec };
    let port = seq!["-p"@, decimal(spec.port->0 as nat)];
    assert(auth_arg_list(spec) =~= port + auth_arg_list(bare));
    assert(ssh_arg_list(spec, extra) =~= port + ssh_arg_list(bare, extra));
    law_digits_read_back(spec.port->0 as nat, 10, 65535);
}

proof fn lemma_no_port_literals()
    ensures
        "-o"@ != "-p"@,
        "-l"@ != "-p"@,
        "-i"@ != "-p"@,
        "-s"@ != "-p"@,
        "-tt"@ != "-p"@,
        "--"@ != "-p"@,
        "sftp"@ != "-p"@,
        "IdentitiesOnly=yes"@ != "-p"@,
        "PreferredAuthentications=password,keyboard-interactive"@ != "-p"@,
        "PubkeyAuthentication=no"@ != "-p"@,
        "NumberOfPasswordPrompts=3"@ != "-p"@,
        "P="@[0] != "-p"@[0],
        "P="@.len() == 2,
        "P=; for c in "@[0] != "-p"@[0],
        "P=; for c in "@.len() > 0,
{
    reveal_strlit("-p");
    reveal_strlit("-o");
    reveal_strlit("-l");
    reveal_strlit("-i");
    reveal_strlit("-s");
    reveal_strlit("-tt");
    reveal_strlit("--");
    reveal_strlit("sftp");
    reveal_strlit("IdentitiesOnly=yes");
    reveal_strlit("PreferredAuthentications=password,keyboard-interactive");
    reveal_strlit("PubkeyAuthentication=no");
    reveal_strlit("NumberOfPasswordPrompts=3");
    reveal_strlit("P=");
    reveal_strlit("P=; for c in ");
    assert("-o"@[1] != "-p"@[1]);
    assert("-l"@[1] != "-p"@[1]);
    assert("-i"@[1] != "-p"@[1]);
    assert("-s"@[1] != "-p"@[1]);
    assert("--"@[1] != "-p"@[1]);
}

/// Without a port a command line holds no "-p", unless it is among the
/// arguments that were added by hand or is itself the user, the key file or
/// the host.
pub proof fn law_no_port_args(spec: ConnectSpec, extra: Option<Seq<Seq<char>>>, i: int)
    requires
        spec.port is None,
        0 <= i < ssh_arg_list(spec, extra).len(),
        ssh_arg_list(spec, extra)[i] == "-p"@,
    ensures
        ({
            let start = auth_arg_list(spec).len();
            let added = (match extra {
                Some(words) => words.len(),
                None => 0,
            }) + spec.extra_ssh_args@.len();
            ||| start <= i < start + added
            ||| spec.user is Some && spec.user->0@ == "-p"@
            ||| spec.identity_file is Some && spec.identity_file->0@ == "-p"@
            ||| spec.host@ == "-p"@
        }),
{
    lemma_no_port_literals();
    let list = ssh_arg_list(spec, extra);
    let auth = auth_arg_list(spec);
    let script = bootstrap_text(
        spec.elevation,
        match spec.sftp_server_path {
            Some(p) => Some(p@),
            None => None,
        },
    );
    assert(script[0] == "P="@[0] || script[0] == "P=; for c in "@[0]);
    if i < auth.len() {
        assert(list[i] == auth[i]);
    } else {
        let words = match extra {
            Some(words) => words,
            None => seq![],
        };
        let k = auth.len() + words.len() + spec.extra_ssh_args@.len();
        if i >= k {
            assert(list[i] == remote_arg_list(spec)[i - k]);
        }
    }
}

/// A user stands in every command line that is given one, behind the port:
/// "-l" and then the name. No user and an empty one are the same.
pub proof fn law_user_args(spec: ConnectSpec)
    requires
        spec.port is None,
    ensures
        ({
            let bare = ConnectSpec { user: None, ..spec };
            &&& spec.user is Some && spec.user->0@.len() > 0 ==> auth_arg_list(spec) == seq![
                "-l"@,
                spec.user->0@,
            ] + auth_arg_list(bare)
            &&& spec.user is Some && spec.user->0@.len() == 0 ==> auth_arg_list(spec)
                == auth_arg_list(bare)
        }),
{
    let bare = ConnectSpec { user: None, ..spec };
    if spec.user is Some && spec.user->0@.len() > 0 {
        assert(auth_arg_list(spec) =~= seq!["-l"@, spec.user->0@] + auth_arg_list(bare));
    } else {
        assert(auth_arg_list(spec) =~= auth_arg_list(bare));
    }
}

/// What the way to authenticate adds, behind the port and the user, which it
/// leaves as they are. The agent needs nothing. A password is asked for by the
/// two methods that do, three times at most, and no key is tried. A key file
/// is named and is then the only key; without one nothing is said.
pub proof fn law_auth_method_args(spec: ConnectSpec)
    ensures
        ({
            let before = auth_arg_list(ConnectSpec { auth: AuthMethod::Agent, ..spec });
            let key = spec.identity_file is Some && spec.identity_file->0@.len() > 0;
            &&& auth_arg_list(spec) == before + auth_arg_list(
                ConnectSpec { port: None, user: None, ..spec },
            )
            &&& spec.auth is Agent || (spec.auth is Key && !key) ==> auth_arg_list(spec) == before
            &&& spec.auth is Key && key ==> auth_arg_list(spec) == before + seq![
                "-i"@,
                spec.identity_file->0@,
                "-o"@,
                "IdentitiesOnly=yes"@,
            ]
            &&& spec.auth is Password ==> auth_arg_list(spec) == before + seq![
                "-o"@,
                "PreferredAuthentications=password,keyboard-interactive"@,
                "-o"@,
                "PubkeyAuthentication=no"@,
                "-o"@,
                "NumberOfPasswordPrompts=3"@,
            ]
            &&& spec.port is None && (spec.user is None || spec.user->0@.len() == 0) ==> before.len()
                == 0
        }),
{
    let agent = ConnectSpec { auth: AuthMethod::Agent, ..spec };
    let before = auth_arg_list(agent);
    let alone = auth_arg_list(ConnectSpec { port: None, user: None, ..spec });
    assert(auth_arg_list(spec) =~= before + alone);
    match spec.auth {
        AuthMethod::Agent => {
            assert(auth_arg_list(spec) =~= before);
        },
        AuthMethod::Password => {},
        AuthMethod::Key => {
            if spec.identity_file is Some && spec.identity_file->0@.len() > 0 {
                assert(alone =~= seq![
                    "-i"@,
                    spec.identity_file->0@,
                    "-o"@,
                    "IdentitiesOnly=yes"@,
                ]);
            } else {
                assert(auth_arg_list(spec) =~= before);
            }
        },
    }
    if spec.auth is Password {
        assert(alone =~= seq![
            "-o"@,
            "PreferredAuthentications=password,keyboard-interactive"@,
            "-o"@,
            "PubkeyAuthentication=no"@,
            "-o"@,
            "NumberOfPasswordPrompts=3"@,
        ]);
    }
}

/// How a command line is put together: the arguments for authentication, then
/// the words from the environment, then those of the connection, each as they
/// are, and at the end the host with what runs there. An ordinary session
/// starts the sftp subsystem; an elevated one gets a terminal and runs the
/// bootstrap of its elevation.
pub proof fn law_command_line(spec: ConnectSpec, words: Seq<Seq<char>>)
    ensures
        ({
            let list = ssh_arg_list(spec, Some(words));
            let a = auth_arg_list(spec).len() as int;
            let w = words.len() as int;
            let x = spec.extra_ssh_args@.len() as int;
            let n = list.len() as int;
            &&& list.take(a) == auth_arg_list(spec)
            &&& list.subrange(a, a + w) == words
            &&& forall|i: int| 0 <= i < x ==> list[a + w + i] == (#[trigger] spec.extra_ssh_args@[i])@
            &&& spec.elevation is Plain ==> n == a + w + x + 3 && list.skip(n - 3) == seq![
                "-s"@,
                spec.host@,
                "sftp"@,
            ]
            &&& !(spec.elevation is Plain) ==> {
                &&& n == a + w + x + 4
                &&& list[n - 4] == "-tt"@
                &&& list[n - 3] == spec.host@
                &&& list[n - 2] == "--"@
                &&& spec.sftp_server_path is Some ==> list[n - 1] == bootstrap_text(
                    spec.elevation,
                    Some(spec.sftp_server_path->0@),
                )
                &&& spec.sftp_server_path is None ==> list[n - 1] == bootstrap_text(
                    spec.elevation,
                    None,
                )
            }
        }),
        ssh_arg_list(spec, None) == ssh_arg_list(spec, Some(Seq::<Seq<char>>::empty())),
{
    let list = ssh_arg_list(spec, Some(words));
    let a = auth_arg_list(spec).len() as int;
    let w = words.len() as int;
    let x = spec.extra_ssh_args@.len() as int;
    assert(list.take(a) =~= auth_arg_list(spec));
    assert(list.subrange(a, a + w) =~= words);
    assert forall|i: int| 0 <= i < x implies list[a + w + i] == (
    #[trigger] spec.extra_ssh_args@[i])@ by {
        assert(texts(spec.extra_ssh_args@)[i] == spec.extra_ssh_args@[i]@);
    }
    assert(list.skip(a + w + x) =~= remote_arg_list(spec));
    assert forall|i: int| 0 <= i < remote_arg_list(spec).len() implies list[a + w + x + i]
        == #[trigger] remote_arg_list(spec)[i] by {
        assert(list.skip(a + w + x)[i] == remote_arg_list(spec)[i]);
    }
    assert(ssh_arg_list(spec, None) =~= ssh_arg_list(spec, Some(Seq::<Seq<char>>::empty())));
}

/// The bytes of a text of ASCII characters.
pub open spec fn ascii_bytes(s: Seq<char>) -> Seq<u8> {
    Seq::new(s.len(), |i: int| s[i] as u8)
}

/// A path of the server that was given is what the remote shell reads for it,
/// and it is the one thing of the bootstrap that it changes: whatever finds
/// the server, the same follows.
pub proof fn law_bootstrap_server(
    elevation: Elevation,
    path: Seq<char>,
    one: Option<Seq<char>>,
    other: Option<Seq<char>>,
)
    ensures
        has_prefix(bootstrap_text(elevation, Some(path)), "P="@ + shell_quoted(path)),
        shell_reads(shell_quoted(path), false) == Some(path),
        bootstrap_text(elevation, one).skip(find_server_text(one).len() as int) == bootstrap_text(
            elevation,
            other,
        ).skip(find_server_text(other).len() as int),
        has_prefix(bootstrap_text(elevation, one), find_server_text(one)),
{
    law_shell_quote(path);
    let text = bootstrap_text(elevation, Some(path));
    let head = "P="@ + shell_quoted(path);
    assert(text.subrange(0, head.len() as int) =~= head);
    let a = bootstrap_text(elevation, one);
    let b = bootstrap_text(elevation, other);
    let m = find_server_text(one).len() as int;
    let n = find_server_text(other).len() as int;
    assert(a.subrange(0, m) =~= find_server_text(one));
    assert(a.skip(m) =~= b.skip(n));
}

/// The bootstrap and what its output is searched for belong together. It
/// prints the very sentinels that say that the session starts and that there
/// is no server, and sudo asks with the very prompt that is waited for. Under
/// sudo it runs sudo, and otherwise su, in a language in which su asks with
/// the prompt that is waited for.
pub proof fn law_bootstrap_sentinels(elevation: Elevation, server: Option<Seq<char>>)
    ensures
        READY@ == ascii_bytes("LSCP_READY"@).push(10),
        NOSERVER@ == ascii_bytes("LSCP_NOSERVER"@),
        PASS_PROMPT@ == ascii_bytes("LSCP_PASS:"@),
        SU_PROMPT@ == ascii_bytes("Password:"@),
        contains_text(bootstrap_text(elevation, server), "printf 'LSCP_READY"@),
        server is None ==> contains_text(
            bootstrap_text(elevation, server),
            "echo LSCP_NOSERVER;"@,
        ),
        elevation is Sudo ==> contains_text(
            bootstrap_text(elevation, server),
            "exec sudo -p LSCP_PASS: sh -c "@,
        ),
        !(elevation is Sudo) ==> contains_text(
            bootstrap_text(elevation, server),
            "LC_ALL=C exec su "@,
        ) && has_suffix(bootstrap_text(elevation, server), " - root"@),
{
    reveal_strlit("LSCP_READY");
    reveal_strlit("LSCP_NOSERVER");
    reveal_strlit("LSCP_PASS:");
    reveal_strlit("Password:");
    assert(READY@ =~= ascii_bytes("LSCP_READY"@).push(10));
    assert(NOSERVER@ =~= ascii_bytes("LSCP_NOSERVER"@));
    assert(PASS_PROMPT@ =~= ascii_bytes("LSCP_PASS:"@));
    assert(SU_PROMPT@ =~= ascii_bytes("Password:"@));
    let inner = "\"stty raw -echo; printf 'LSCP_READY\\n'; exec \\\"$P\\\"\""@;
    reveal_strlit("\"stty raw -echo; printf 'LSCP_READY\\n'; exec \\\"$P\\\"\"");
    reveal_strlit("printf 'LSCP_READY");
    let ready = "printf 'LSCP_READY"@;
    assert(inner.subrange(17, 17 + ready.len() as int) =~= ready);
    let found = find_server_text(server);
    let n = found.len() as int;
    let text = bootstrap_text(elevation, server);
    reveal_strlit("; exec sudo -p LSCP_PASS: sh -c ");
    reveal_strlit("; LC_ALL=C exec su -s /bin/sh -c ");
    reveal_strlit(" - root");
    reveal_strlit("exec sudo -p LSCP_PASS: sh -c ");
    reveal_strlit("LC_ALL=C exec su ");
    let sudo = "; exec sudo -p LSCP_PASS: sh -c "@;
    let su = "; LC_ALL=C exec su -s /bin/sh -c "@;
    if elevation is Sudo {
        let at = n + sudo.len() + 17;
        assert(text.subrange(at, at + ready.len()) =~= ready);
        assert(occurs_at(text, ready, at));
        let want = "exec sudo -p LSCP_PASS: sh -c "@;
        assert(text.subrange(n + 2, n + 2 + want.len()) =~= want);
        assert(occurs_at(text, want, n + 2));
    } else {
        let at = n + su.len() + 17;
        assert(text.subrange(at, at + ready.len()) =~= ready);
        assert(occurs_at(text, ready, at));
        let want = "LC_ALL=C exec su "@;
        assert(text.subrange(n + 2, n + 2 + want.len()) =~= want);
        assert(occurs_at(text, want, n + 2));
        let root = " - root"@;
        assert(text.subrange(text.len() - root.len(), text.len() as int) =~= root);
    }
    if server is None {
        lemma_search_reports(found);
        let want = "echo LSCP_NOSERVER;"@;
        let at = choose|at: int| occurs_at(found, want, at);
        assert(text.subrange(at, at + want.len()) =~= found.subrange(at, at + want.len()));
        assert(occurs_at(text, want, at));
    }
}

proof fn lemma_search_reports(found: Seq<char>)
    requires
        found == find_server_text(None),
    ensures
        exists|at: int| occurs_at(found, "echo LSCP_NOSERVER;"@, at),
{
    let end =
        "; do [ -x \"$c\" ] && P=\"$c\" && break; done; [ -n \"$P\" ] || P=$(command -v sftp-server) || { echo LSCP_NOSERVER; exit 127; }"@;
    reveal_strlit("; do [ -x \"$c\" ] && P=\"$c\" && break; done; [ -n \"$P\" ] || P=$(command -v sftp-server) || { echo LSCP_NOSERVER; exit 127; }");
    reveal_strlit("echo LSCP_NOSERVER;");
    let want = "echo LSCP_NOSERVER;"@;
    let at = found.len() - 31;
    assert(end.len() >= 31);
    assert(end.subrange(end.len() - 31, end.len() - 12) =~= want);
    assert(found.subrange(at, at + want.len()) =~= end.subrange(end.len() - 31, end.len() - 12));
    assert(occurs_at(found, want, at));
}

/// Once the sentinel was printed the session starts, whatever was printed or
/// asked before it: with the very bytes that follow the first sentinel.
pub proof fn law_elevation_ready(before: Seq<u8>, rest: Seq<u8>, asked: u32, r: ElevationStep)
    requires
        elevation_calls_for(before + READY@ + rest, asked, r),
        forall|k: int| 0 <= k < before.len() ==> !occurs_at(before + READY@ + rest, READY@, k),
    ensures
        r matches ElevationStep::Ready(bytes) && bytes@ == rest,
{
    let buf = before + READY@ + rest;
    let at = before.len() as int;
    assert(buf.subrange(at, at + READY@.len()) =~= READY@);
    assert(occurs_at(buf, READY@, at));
    let p = choose|p: int|
        #![trigger occurs_at(buf, READY@, p)]
        occurs_at(buf, READY@, p) && (forall|k: int| 0 <= k < p ==> !occurs_at(buf, READY@, k))
            && r->Ready_0@ == buf.skip(p + READY@.len());
    assert(p == at);
    assert(buf.skip(at + READY@.len()) =~= rest);
}

/// Until then: where the bootstrap found no server, the elevation fails. Where
/// sudo's prompt was printed, or the output ends with su's and any number of
/// spaces, the password is asked for, up to three times; the fourth time the
/// elevation fails. Any other output is waited on.
pub proof fn law_elevation_waits(buf: Seq<u8>, asked: u32, r: ElevationStep, at: int, spaces: int)
    requires
        elevation_calls_for(buf, asked, r),
        forall|k: int| !#[trigger] occurs_at(buf, READY@, k),
    ensures
        occurs_at(buf, NOSERVER@, at) ==> r == ElevationStep::Fail(ElevationFailure::NoServer),
        (forall|k: int| !#[trigger] occurs_at(buf, NOSERVER@, k)) ==> {
            let prompt = occurs_at(buf, PASS_PROMPT@, at) || then_spaces(buf, SU_PROMPT@, spaces);
            &&& prompt && asked < 3 ==> r is Ask
            &&& prompt && asked >= 3 ==> r == ElevationStep::Fail(ElevationFailure::TooManyAttempts)
            &&& (forall|k: int| !#[trigger] occurs_at(buf, PASS_PROMPT@, k)) && (forall|n: int|
                !#[trigger] then_spaces(buf, SU_PROMPT@, n)) ==> r is Read
            &&& !(r is Ready)
        },
{
}

/// A prompt is waited at when the output ends with it and then spaces, any
/// number of them or none. Anything else behind it, a line end among them, is
/// no prompt that is waited at.
pub proof fn law_at_prompt(before: Seq<u8>, needle: Seq<u8>, spaces: Seq<u8>, other: u8)
    requires
        forall|i: int| 0 <= i < spaces.len() ==> spaces[i] == 32,
    ensures
        at_prompt(before + needle + spaces, needle),
        at_prompt(before, needle) ==> exists|n: int|
            0 <= n && n + needle.len() <= before.len() && #[trigger] then_spaces(before, needle, n),
        needle.len() > 0 && other != 32 && other != needle.last() ==> !at_prompt(
            before.push(other),
            needle,
        ),
        wants_password(before + SU_PROMPT@ + spaces),
        wants_password(before + PASS_PROMPT@ + spaces),
{
    let buf = before + needle + spaces;
    let at = before.len() as int;
    assert(buf.subrange(at, at + needle.len()) =~= needle);
    assert(then_spaces(buf, needle, spaces.len() as int));
    let asked = before + SU_PROMPT@ + spaces;
    assert(asked.subrange(at, at + SU_PROMPT@.len()) =~= SU_PROMPT@);
    assert(then_spaces(asked, SU_PROMPT@, spaces.len() as int));
    let sudo = before + PASS_PROMPT@ + spaces;
    assert(sudo.subrange(at, at + PASS_PROMPT@.len()) =~= PASS_PROMPT@);
    assert(occurs_at(sudo, PASS_PROMPT@, at));
    let more = before.push(other);
    if needle.len() > 0 && other != 32 && other != needle.last() && at_prompt(more, needle) {
        let n = choose|n: int| #[trigger] then_spaces(more, needle, n);
        if n > 0 {
            assert(more[more.len() - 1] == 32);
        } else {
            assert(more.subrange(more.len() - needle.len(), more.len() as int).last()
                == needle.last());
        }
    }
}

/// Output is kept in the order it came. It ends the elevation only when there
/// is none, or when more was printed than may be; a time-out and an exit end
/// it always, each with its own reason.
pub proof fn law_elevation_hears(buf: Seq<u8>, heard: Heard)
    ensures
        heard matches Heard::Output(chunk) ==> {
            &&& heard_outcome(buf, heard).0 == buf + chunk@
            &&& heard_outcome(buf, heard).1 is Ok <==> 0 < chunk@.len() && buf.len() + chunk@.len()
                <= 65536
            &&& chunk@.len() == 0 ==> heard_outcome(buf, heard).1 == Err::<(), ElevationFailure>(
                ElevationFailure::Closed,
            )
            &&& chunk@.len() > 0 && buf.len() + chunk@.len() > 65536 ==> heard_outcome(buf, heard).1
                == Err::<(), ElevationFailure>(ElevationFailure::TooMuchOutput)
        },
        heard is TimedOut ==> heard_outcome(buf, heard) == (
            buf,
            Err::<(), ElevationFailure>(ElevationFailure::TimedOut),
        ),
        heard matches Heard::Exited(status) ==> heard_outcome(buf, heard) == (
            buf,
            Err::<(), ElevationFailure>(ElevationFailure::Exited(status)),
        ),
{
}

/// The failures of an elevation are told apart, and those that have a host or
/// a status name it at the place where the reader looks for it.
pub proof fn law_elevation_messages(host: Seq<char>, status: String)
    ensures
        has_suffix(ElevationFailure::TimedOut.text(host), host),
        has_prefix(
            ElevationFailure::Exited(status).text(host),
            "ssh exited during elevation ("@ + status@,
        ),
        elevation_question(Elevation::Sudo, host) == "sudo password on "@ + host,
        elevation_question(Elevation::Su, host) == "root password on "@ + host,
{
    let late = ElevationFailure::TimedOut.text(host);
    assert(late.subrange(late.len() - host.len(), late.len() as int) =~= host);
    let gone = ElevationFailure::Exited(status).text(host);
    let head = "ssh exited during elevation ("@ + status@;
    assert(gone.subrange(0, head.len() as int) =~= head);
}

/// What is typed for a password is its own bytes and then one line end: two
/// passwords that differ are typed differently.
pub proof fn law_password_typed(password: Seq<char>)
    ensures
        typed_bytes(password).len() == encode_utf8(password).len() + 1,
        typed_bytes(password).last() == 10,
        typed_bytes(password).drop_last() == encode_utf8(password),
{
    assert(typed_bytes(password).drop_last() =~= encode_utf8(password));
}

/// Of error output the end is kept, at most so much of it, and all of it where
/// it is no longer. In what pieces it came makes no difference.
pub proof fn law_tail_kept(a: Seq<u8>, b: Seq<u8>, n: int)
    requires
        0 <= n,
    ensures
        tail(tail(a, n) + b, n) == tail(a + b, n),
        tail(a, n).len() <= n,
        a.len() <= n ==> tail(a, n) == a,
        a.len() > n ==> tail(a, n).len() == n,
        tail(a, n) == a.skip(a.len() - tail(a, n).len()),
        STDERR_KEPT == 16384,
        BOOTSTRAP_LIMIT == 65536,
{
    assert(tail(tail(a, n) + b, n) =~= tail(a + b, n));
    assert(tail(a, n) =~= a.skip(a.len() - tail(a, n).len()));
}

/// Every line tells something but a blank one and the remark on the
/// pseudo-terminal; those that do stay in their order.
pub proof fn law_telling_lines(a: Seq<Seq<char>>, b: Seq<Seq<char>>, line: Seq<char>)
    ensures
        telling_lines(a + b) == telling_lines(a) + telling_lines(b),
        trimmed(line).len() == 0 ==> telling_lines(seq![line]).len() == 0,
        contains_text(line, "Pseudo-terminal"@) ==> telling_lines(seq![line]).len() == 0,
        trimmed(line).len() > 0 && !contains_text(line, "Pseudo-terminal"@) ==> telling_lines(
            seq![line],
        ) == seq![line],
    decreases b.len(),
{
    assert(seq![line].drop_last() =~= Seq::<Seq<char>>::empty());
    assert(telling_lines(Seq::<Seq<char>>::empty()) =~= Seq::<Seq<char>>::empty());
    assert(trimmed(line).len() > 0 && !contains_text(line, "Pseudo-terminal"@) ==> telling_lines(
        seq![line],
    ) =~= seq![line]);
    if b.len() == 0 {
        assert(a + b =~= a);
        assert(telling_lines(a) + telling_lines(b) =~= telling_lines(a));
    } else {
        law_telling_lines(a, b.drop_last(), line);
        assert((a + b).drop_last() =~= a + b.drop_last());
        assert((a + b).last() == b.last());
        assert(telling_lines(a + b) =~= telling_lines(a) + telling_lines(b));
    }
}

/// What is shown of ssh's error output ends with the last line that tells
/// something. It is empty only where no line does, or that line alone is. Up
/// to four such lines are shown, each on a line of its own; the fifth from the
/// end and those before it make no difference.
pub proof fn law_error_detail(output: Seq<char>, other: Seq<char>)
    ensures
        ({
            let told = telling_lines(lines_of(output));
            &&& told.len() == 0 ==> error_detail(output).len() == 0
            &&& told.len() > 0 ==> has_suffix(error_detail(output), told.last())
            &&& told.len() == 1 ==> error_detail(output) == told[0]
            &&& told.len() == 2 ==> error_detail(output) == told[0] + seq!['\n'] + told[1]
            &&& told.len() >= 4 && telling_lines(lines_of(other)).len() >= 4 && told.skip(
                told.len() - 4,
            ) == telling_lines(lines_of(other)).skip(telling_lines(lines_of(other)).len() - 4)
                ==> error_detail(output) == error_detail(other)
            &&& 0 < told.len() <= 4 ==> error_detail(output) == line_joined(told)
            &&& told.len() >= 4 ==> error_detail(output) == line_joined(
                seq![
                    told[told.len() - 4],
                    told[told.len() - 3],
                    told[told.len() - 2],
                    told[told.len() - 1],
                ],
            )
        }),
{
    let told = telling_lines(lines_of(output));
    let shown = tail(told, 4);
    if told.len() > 0 {
        assert(shown.last() == told.last());
        let text = line_joined(shown);
        assert(text.subrange(text.len() - shown.last().len(), text.len() as int) =~= shown.last());
    }
    if told.len() == 2 {
        assert(shown.drop_last() =~= seq![told[0]]);
        assert(line_joined(seq![told[0]]) == told[0]);
        assert(line_joined(shown) =~= told[0] + seq!['\n'] + told[1]);
    }
    if told.len() >= 4 {
        assert(shown =~= seq![
            told[told.len() - 4],
            told[told.len() - 3],
            told[told.len() - 2],
            told[told.len() - 1],
        ]);
        assert(shown =~= told.skip(told.len() - 4));
    }
    let rest = telling_lines(lines_of(other));
    if rest.len() >= 4 {
        assert(tail(rest, 4) =~= rest.skip(rest.len() - 4));
    }
}

/// Lines that are shown together have one line end between each two.
pub proof fn law_line_joined(ls: Seq<Seq<char>>, line: Seq<char>)
    ensures
        line_joined(seq![line]) == line,
        ls.len() > 0 ==> line_joined(ls.push(line)) == line_joined(ls) + seq!['\n'] + line,
{
    assert(ls.push(line).drop_last() =~= ls);
    if ls.len() > 0 {
        assert(line_joined(ls.push(line)) =~= line_joined(ls) + seq!['\n'] + line);
    }
}

/// A session that ended says why: in ssh's own words wherever there are any,
/// and else by how it exited. It is never left without a reason.
pub proof fn law_close_reason(detail: Seq<char>, status: Seq<char>)
    ensures
        detail.len() > 0 ==> reason_text(detail, status) == detail,
        detail.len() == 0 ==> has_suffix(reason_text(detail, status), status),
        reason_text(detail, status).len() > 0,
{
    reveal_strlit("ssh exited: ");
    let text = reason_text(detail, status);
    if detail.len() == 0 {
        assert(text.subrange(text.len() - status.len(), text.len() as int) =~= status);
    }
}

/// A session opens at what the server resolved, and at what was asked for
/// where it resolved nothing; nowhere only where there is neither.
pub proof fn law_opened_at(requested: Option<String>, resolved: Option<String>)
    ensures
        resolved is Some ==> opened_at(requested, resolved) == resolved,
        resolved is None ==> opened_at(requested, resolved) == requested,
        opened_at(requested, resolved) is None <==> requested is None && resolved is None,
{
}

/// No more is handed out than there is room for, all of it where there is
/// room, and something whenever there is something and room for it.
pub proof fn law_handed_out(ahead: nat, room: nat)
    ensures
        handed_out(ahead, room) <= room,
        handed_out(ahead, room) <= ahead,
        handed_out(ahead, room) == room || handed_out(ahead, room) == ahead,
{
}

} // verus!
