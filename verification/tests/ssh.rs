use linuxscp::ssh::askpass::{
    answer_frame, answer_len, classify, handle_prompt, handle_request, helper_output, reply_frame,
    request_frame, request_len, socket_name, socket_pid, PromptStep, MAX_PROMPT,
};
use linuxscp::ssh::config::{
    expand_pattern, is_before, is_concrete_alias, known_hosts, path_join, select_names,
    split_keyword, tokenize, tokens_or_words, ConfigDir, ConfigFile, ConfigSnapshot, KnownHost,
    Need,
};
use linuxscp::ssh::connect::{
    auth_args, bootstrap_script, close_reason, elevation_title, ends_with_prompt, find,
    initial_dir, keep_stderr, password_bytes, shell_quote, ssh_args, ssh_error, take_ahead,
    ElevationDriver, ElevationFailure, ElevationStep, Heard, BOOTSTRAP_LIMIT, NOSERVER,
    PASS_PROMPT, READY, STDERR_KEPT, SU_PROMPT,
};
use linuxscp::types::{AuthMethod, ConnectSpec, Elevation, PromptKind};

#[test]
fn sentinel_scanning() {
    assert_eq!(find(b"xxLSCP_READY\nyy", &READY), Some(2));
    assert!(ends_with_prompt(b"\r\nPassword: ", &SU_PROMPT));
    assert!(!ends_with_prompt(b"Password: ok\n", &SU_PROMPT));
}

#[test]
fn only_spaces_may_follow_a_prompt() {
    assert!(ends_with_prompt(b"Password:", &SU_PROMPT));
    assert!(ends_with_prompt(b"Password:   ", &SU_PROMPT));
    assert!(!ends_with_prompt(b"Password:\r\n", &SU_PROMPT));
    assert!(!ends_with_prompt(b"Password: \n", &SU_PROMPT));
    assert!(!ends_with_prompt(b"assword:", &SU_PROMPT));
    assert!(!ends_with_prompt(b"   ", &SU_PROMPT));
    assert!(!ends_with_prompt(b"", &SU_PROMPT));
    assert!(ends_with_prompt(b"ask:   ", b": "));

    let mut driver = ElevationDriver::new();
    assert!(driver.received(Heard::Output(b"Password:\r\n".to_vec())).is_ok());
    assert!(matches!(driver.look(), ElevationStep::Read));
    assert!(driver.received(Heard::Output(b"Password: ".to_vec())).is_ok());
    assert!(matches!(driver.look(), ElevationStep::Ask));
}

#[test]
fn bootstrap_scripts_are_single_line() {
    for elevation in [Elevation::Sudo, Elevation::Su] {
        let script = bootstrap_script(elevation, None);
        assert!(!script.contains('\n'), "{script}");
        assert!(script.contains("LSCP_READY"));
    }
    let with_path = bootstrap_script(Elevation::Sudo, Some("/opt/sftp server"));
    assert!(with_path.contains("'/opt/sftp server'"));
}

#[test]
fn sentinels_spell_what_the_script_prints() {
    assert_eq!(&READY[..], b"LSCP_READY\n");
    assert_eq!(&NOSERVER[..], b"LSCP_NOSERVER");
    assert_eq!(&PASS_PROMPT[..], b"LSCP_PASS:");
    assert_eq!(&SU_PROMPT[..], b"Password:");
    assert!(bootstrap_script(Elevation::Sudo, None).contains("sudo -p LSCP_PASS:"));
    assert!(bootstrap_script(Elevation::Su, None).contains("su -s /bin/sh -c"));
    assert_eq!(find(b"LSCP_READ", &READY), None);
    assert_eq!(find(b"aXbX", b"X"), Some(1));
}

#[test]
fn quoted_words_survive_a_shell() {
    assert_eq!(shell_quote("plain"), "'plain'");
    assert_eq!(shell_quote("it's"), "'it'\\''s'");
    for word in ["", "a b", "it's", "$HOME \"x\" \\"] {
        assert_eq!(shell_words::split(&shell_quote(word)).unwrap(), vec![word.to_string()]);
    }
}

#[test]
fn elevation_asks_three_times_at_most() {
    let mut driver = ElevationDriver::new();
    assert!(matches!(driver.look(), ElevationStep::Read));
    for _ in 0..3 {
        assert!(driver.received(Heard::Output(b"LSCP_PASS:".to_vec())).is_ok());
        assert!(matches!(driver.look(), ElevationStep::Ask));
        driver.answered();
    }
    assert!(driver.received(Heard::Output(b"\r\nPassword: ".to_vec())).is_ok());
    assert!(matches!(driver.look(), ElevationStep::Fail(ElevationFailure::TooManyAttempts)));

    let mut driver = ElevationDriver::new();
    assert!(driver.received(Heard::Output(b"banner\nLSCP_READY\nbytes".to_vec())).is_ok());
    match driver.look() {
        ElevationStep::Ready(rest) => assert_eq!(rest, b"bytes"),
        other => panic!("{other:?}"),
    }
    let mut driver = ElevationDriver::new();
    assert!(driver.received(Heard::Output(b"LSCP_NOSERVER".to_vec())).is_ok());
    assert!(matches!(driver.look(), ElevationStep::Fail(ElevationFailure::NoServer)));
    let mut driver = ElevationDriver::new();
    assert!(driver.received(Heard::Output(vec![0u8; BOOTSTRAP_LIMIT])).is_ok());
    let told = |r: Result<(), ElevationFailure>| r.unwrap_err().message("h");
    assert_eq!(
        told(driver.received(Heard::Output(b"x".to_vec()))),
        "unexpected output from remote bootstrap",
    );
    assert_eq!(
        told(driver.received(Heard::Output(Vec::new()))),
        "connection closed during elevation",
    );
    assert_eq!(told(driver.received(Heard::TimedOut)), "timed out waiting for elevation on h");
    assert_eq!(
        told(driver.received(Heard::Exited("1".into()))),
        "ssh exited during elevation (1)",
    );
    assert_eq!(
        ElevationFailure::NoServer.message("h"),
        "sftp-server binary not found on the remote host; \
         set an explicit path in the connection settings",
    );
    assert_eq!(
        ElevationFailure::TooManyAttempts.message("h"),
        "authentication failed (too many attempts)",
    );
    assert_eq!(ElevationFailure::Cancelled.message("h"), "connection cancelled");
    assert_eq!(elevation_title(Elevation::Sudo, "h"), "sudo password on h");
    assert_eq!(elevation_title(Elevation::Su, "h"), "root password on h");
    assert_eq!(password_bytes("p\u{e4}"), "p\u{e4}\n".as_bytes());
}

#[test]
fn error_output_keeps_its_end() {
    let mut buf = Vec::new();
    keep_stderr(&mut buf, &vec![b'a'; STDERR_KEPT]);
    keep_stderr(&mut buf, b"tail");
    assert_eq!(buf.len(), STDERR_KEPT);
    assert!(buf.ends_with(b"atail"));

    let shown = ssh_error(b"one\n\ntwo\nPseudo-terminal will not be allocated\nthree\nfour\nfive\n");
    assert_eq!(shown, "two\nthree\nfour\nfive");
    assert_eq!(ssh_error(b"bad \xff byte"), "bad \u{fffd} byte");
    assert_eq!(close_reason(String::new(), "exit status: 255"), "ssh exited: exit status: 255");
    assert_eq!(close_reason("refused".into(), "x"), "refused");
}

#[test]
fn read_ahead_bytes_come_first_and_once() {
    let mut ahead = b"abcdef".to_vec();
    assert_eq!(take_ahead(&mut ahead, 4), b"abcd");
    assert_eq!(take_ahead(&mut ahead, 4), b"ef");
    assert!(take_ahead(&mut ahead, 4).is_empty());
    assert_eq!(initial_dir(&Some("/a".into()), Some("/b".into())).as_deref(), Some("/b"));
    assert_eq!(initial_dir(&Some("/a".into()), None).as_deref(), Some("/a"));
    assert_eq!(initial_dir(&None, None), None);
}

#[test]
fn ssh_is_started_with_the_chosen_authentication() {
    let mut spec = ConnectSpec::new("box");
    assert!(auth_args(&spec).is_empty());
    assert_eq!(ssh_args(&spec, None), vec!["-s", "box", "sftp"]);
    spec.port = Some(2222);
    spec.user = Some("deploy".into());
    spec.auth = AuthMethod::Key;
    spec.identity_file = Some("/k".into());
    spec.extra_ssh_args = vec!["-F".into(), "/cfg".into()];
    assert_eq!(
        ssh_args(&spec, Some("-o 'A B=c'")),
        vec![
            "-p", "2222", "-l", "deploy", "-i", "/k", "-o", "IdentitiesOnly=yes", "-o", "A B=c",
            "-F", "/cfg", "-s", "box", "sftp"
        ]
    );
    // Unmatched quotes in the environment add nothing.
    spec = ConnectSpec::new("box");
    assert_eq!(ssh_args(&spec, Some("-o 'A")), vec!["-s", "box", "sftp"]);
    spec.auth = AuthMethod::Password;
    assert!(auth_args(&spec).contains(&"PubkeyAuthentication=no".to_string()));
    spec.elevation = Elevation::Su;
    spec.sftp_server_path = Some("/opt/s".into());
    let args = ssh_args(&spec, None);
    assert_eq!(args[args.len() - 4..args.len() - 1], ["-tt", "box", "--"]);
    assert_eq!(args.last().unwrap(), &bootstrap_script(Elevation::Su, Some("/opt/s")));
}

#[test]
fn prompts_are_told_apart() {
    assert_eq!(classify("Are you sure you want to continue connecting"), PromptKind::YesNo);
    assert_eq!(classify("Continue (yes/no)?"), PromptKind::YesNo);
    assert_eq!(classify("user@host's password:"), PromptKind::Secret);
}

#[test]
fn requests_and_replies_read_back() {
    let frame = request_frame("user's password:");
    assert_eq!(frame[..4], [0, 0, 0, 16]);
    assert_eq!(request_len(&frame[..4]), Some(16));
    assert_eq!(&frame[4..], b"user's password:");
    assert_eq!(request_len(&MAX_PROMPT.to_be_bytes()), None);
    assert_eq!(request_len(&(MAX_PROMPT - 1).to_be_bytes()), Some(MAX_PROMPT - 1));

    let reply = answer_frame(&Some("pw".into()), PromptKind::Secret);
    assert_eq!(reply, reply_frame(0, b"pw"));
    assert_eq!(answer_len(&reply[1..5]), 2);
    assert_eq!(helper_output(reply[0], reply[5..].to_vec()), (b"pw\n".to_vec(), 0));
    let yes = answer_frame(&Some("x".into()), PromptKind::YesNo);
    assert_eq!(helper_output(yes[0], yes[5..].to_vec()), (b"yes\n".to_vec(), 0));
    let no = answer_frame(&None, PromptKind::Secret);
    assert_eq!(helper_output(no[0], no[5..].to_vec()), (Vec::new(), 1));
}

#[test]
fn a_saved_secret_answers_once() {
    let mut preset = Some("saved".to_string());
    match handle_request("Are you sure (yes/no)?".as_bytes(), &mut preset) {
        PromptStep::Ask { kind, .. } => assert_eq!(kind, PromptKind::YesNo),
        other => panic!("{other:?}"),
    }
    assert_eq!(preset.as_deref(), Some("saved"));
    match handle_prompt("password:".into(), &mut preset) {
        PromptStep::Reply(bytes) => assert_eq!(bytes, reply_frame(0, b"saved")),
        other => panic!("{other:?}"),
    }
    assert_eq!(preset, None);
    match handle_request(b"again \xff:", &mut preset) {
        PromptStep::Ask { prompt, kind } => {
            assert_eq!(prompt, "again \u{fffd}:");
            assert_eq!(kind, PromptKind::Secret);
        }
        other => panic!("{other:?}"),
    }
}

#[test]
fn sockets_name_their_process() {
    assert_eq!(socket_name(4711, 3), "askpass-4711-3.sock");
    assert_eq!(socket_pid("askpass-4711-3.sock"), Some(4711));
    assert_eq!(socket_pid("askpass-x-3.sock"), None);
    assert_eq!(socket_pid("other-1-1.sock"), None);
    assert_eq!(socket_pid("askpass-1"), None);
    assert_eq!(socket_pid("askpass--1"), None);
}

/// Reads what the parser asks for out of the given files until it is through.
fn hosts_of(files: &[(&str, &str)], config: &str) -> Vec<KnownHost> {
    let mut snap = ConfigSnapshot { files: Vec::new(), dirs: Vec::new(), home: "/home/u".into() };
    for _ in 0..100 {
        match known_hosts(&snap, config) {
            Ok(hosts) => return hosts,
            Err(Need::File(path)) => {
                let content = files.iter().find(|f| f.0 == path).map(|f| f.1.to_string());
                snap.files.push(ConfigFile { path, content });
            }
            Err(Need::Dir(path)) => {
                let dir = format!("{}/", path.trim_end_matches('/'));
                let mut names: Vec<String> = files
                    .iter()
                    .filter_map(|f| f.0.strip_prefix(&dir))
                    .filter(|rest| !rest.contains('/'))
                    .map(String::from)
                    .collect();
                names.reverse();
                snap.dirs.push(ConfigDir { path, names: Some(names) });
            }
        }
    }
    panic!("the parser never came to an end")
}

#[test]
fn parses_hosts_and_hints() {
    let hosts = hosts_of(
        &[(
            "/tmp/linuxscp-test-sshcfg/config",
            "# comment\n\
             Host web db.example.com\n\
             \tHostName 10.0.0.5\n\
             \tUser deploy\n\
             Host *\n\
             \tUser nobody\n\
             Host jump\n\
             \tPort 2222\n",
        )],
        "/tmp/linuxscp-test-sshcfg/config",
    );
    assert_eq!(hosts.len(), 3);
    assert_eq!(hosts[0].alias, "web");
    assert_eq!(hosts[0].hostname.as_deref(), Some("10.0.0.5"));
    assert_eq!(hosts[0].user.as_deref(), Some("deploy"));
    assert_eq!(hosts[1].alias, "db.example.com");
    assert_eq!(hosts[2].alias, "jump");
    assert_eq!(hosts[2].user, None);
}

#[test]
fn host_search_matches_alias_hostname_and_user() {
    let host = KnownHost {
        alias: "Web".into(),
        hostname: Some("10.0.0.5".into()),
        user: Some("Deploy".into()),
    };
    assert!(host.matches(""));
    assert!(host.matches("web"));
    assert!(host.matches("0.0.5"));
    assert!(host.matches("deploy"));
    assert!(!host.matches("db"));
}

#[test]
fn follows_includes() {
    let hosts = hosts_of(
        &[
            ("/tmp/linuxscp-test-sshcfg-inc/config", "Include config.d/*\nHost main\n"),
            ("/tmp/linuxscp-test-sshcfg-inc/config.d/extra", "Host extra1\n"),
        ],
        "/tmp/linuxscp-test-sshcfg-inc/config",
    );
    let aliases: Vec<_> = hosts.iter().map(|h| h.alias.as_str()).collect();
    assert_eq!(aliases, vec!["extra1", "main"]);
}

#[test]
fn included_files_come_in_order_and_loops_end() {
    let hosts = hosts_of(
        &[
            ("/c/config", "Include d/*.conf ~/own\nHost last\nInclude config\n"),
            ("/c/d/b.conf", "Host b\nHostName=hb\n"),
            ("/c/d/a.conf", "Host a !neg \"two words\"\nInclude /c/config\n"),
            ("/c/d/skipped", "Host never\n"),
            ("/home/u/own", "host own\nUSER me\n"),
        ],
        "/c/config",
    );
    let aliases: Vec<_> = hosts.iter().map(|h| h.alias.as_str()).collect();
    assert_eq!(aliases, vec!["a", "two words", "b", "own", "last"]);
    assert_eq!(hosts[2].hostname.as_deref(), Some("hb"));
    assert_eq!(hosts[3].user.as_deref(), Some("me"));
    assert_eq!(hosts[3].subtitle(), "me@own");
    assert_eq!(hosts[2].subtitle(), "hb");
    assert!(hosts_of(&[], "/none").is_empty());
}

#[test]
fn config_lines_come_apart() {
    assert_eq!(split_keyword("Host web"), Some(("Host".into(), "web".into())));
    assert_eq!(split_keyword("Port = 22"), Some(("Port".into(), "22".into())));
    assert_eq!(split_keyword("Port=22"), Some(("Port".into(), "22".into())));
    assert_eq!(split_keyword("Host"), None);
    assert_eq!(tokenize("a \"b c\" d"), vec!["a", "b c", "d"]);
    assert_eq!(tokenize("a \"b c"), vec!["a", "\"b", "c"]);
    assert_eq!(tokens_or_words("a b", None), vec!["a", "b"]);
    assert!(is_concrete_alias("web"));
    for pattern in ["*", "web?", "!web"] {
        assert!(!is_concrete_alias(pattern));
    }
    assert_eq!(path_join("/a", "b"), "/a/b");
    assert_eq!(path_join("/a/", "b"), "/a/b");
    assert_eq!(path_join("/a", "/b"), "/b");
    assert_eq!(expand_pattern("~/x", "/home/u", &None), "/home/u/x");
    assert_eq!(expand_pattern("/x", "/home/u", &None), "/x");
    assert_eq!(expand_pattern("x", "/home/u", &Some("/d".into())), "/d/x");
    assert!(is_before("a", "b") && is_before("a", "ab") && !is_before("a", "a"));
    let names = vec!["b.conf".to_string(), "a.conf".to_string(), "x".to_string()];
    assert_eq!(select_names(&names, "", ".conf"), vec!["a.conf", "b.conf"]);
}

#[test]
fn files_that_name_each_other_are_read_once() {
    let hosts = hosts_of(
        &[
            ("/home/u/.ssh/config", "Include other\nHost a\n"),
            ("/home/u/.ssh/other", "Host b\nInclude config\nInclude ./config\n"),
        ],
        "/home/u/.ssh/config",
    );
    let aliases: Vec<&str> = hosts.iter().map(|h| h.alias.as_str()).collect();
    assert_eq!(aliases, vec!["b", "a"]);
}
