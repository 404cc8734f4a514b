use linuxscp::secrets::{is_gone, store_step, Deletion, StoreStep};
use linuxscp::types::{
    AuthMethod, Backend, ConflictDecision, Elevation, FsEntry, Rate, TransferAction, TransferKind,
    TransferSnapshot, TransferState,
};
use linuxscp::ui::actions::{
    candidate, choose_terminal, clip_message, completion_detail, copy_to_dir, delete_body,
    is_left_over, key_command, menu_state, move_rest, paste_into, rename_target, start_transfer,
    strip_width, symlink_paths, terminal_args, terminal_args_for, terminal_command_line,
    transfer_into, Clipboard, Command, KeyCode, Outcome, Paste, Place, TERMINALS,
};
use linuxscp::ui::edit::{
    large_file_body, needs_confirmation, session_dir, session_dir_for, Download, EditManager,
    EndStep, OpenStep, WARN_SIZE,
};
use linuxscp::ui::notify::completion_plan;
use linuxscp::ui::pane::{
    activate, is_parent_row, is_visible, owner_text, parent_row, permissions_column, rank_entries,
    size_column, status_text, up_target, Activation, Column, PaneState, Rank,
};
use linuxscp::ui::prompts::{
    conflict_body, conflict_decision, entered_text, offers_resume, secret_answer, yes_no_answer,
};
use linuxscp::ui::properties::{
    attr_request, common_group, common_owner, contents_text, details, has_dir, heading,
    initial_mode, octal, type_description, OnDemand, PermChecks, PermEditor,
};
use linuxscp::ui::queue::{pause_action, row_view, Bar};
use linuxscp::ui::splash::duration;
use linuxscp::ui::workspace::{tab_label, tab_session, Side, Workspace};
use linuxscp::walks::DiskUsage;

#[test]
fn plan_matrix() {
    // Success with both toggles on: sound + desktop.
    let p = completion_plan(TransferState::Done, true, true).unwrap();
    assert!(p.play_sound && p.show_desktop && p.success);

    // Failure never plays the success sound, but can still notify.
    let p = completion_plan(TransferState::Failed, true, true).unwrap();
    assert!(!p.play_sound && p.show_desktop && !p.success);

    // Toggles off: silence.
    let p = completion_plan(TransferState::Done, false, false).unwrap();
    assert!(!p.play_sound && !p.show_desktop);

    // Non-terminal / cancelled: no plan at all.
    assert!(completion_plan(TransferState::Running, true, true).is_none());
    assert!(completion_plan(TransferState::Cancelled, true, true).is_none());
}

fn entry(name: &str, is_dir: bool, size: u64) -> FsEntry {
    FsEntry {
        name: name.into(),
        path: format!("/d/{name}"),
        is_dir,
        is_symlink: false,
        size,
        mtime: None,
        mode: Some(0o644),
        owner: Some("me".into()),
        group: Some("us".into()),
        link_target: None,
    }
}

fn snapshot(state: TransferState, kind: TransferKind) -> TransferSnapshot {
    TransferSnapshot {
        id: 1,
        title: "Copy a".into(),
        kind,
        direction: None,
        state,
        current_file: String::new(),
        done_bytes: 512,
        total_bytes: 1024,
        files_done: 1,
        files_total: 2,
        rate: Some(Rate { bytes_per_sec: 100, eta_secs: 5 }),
        scanning: false,
        error: None,
    }
}

#[test]
fn queue_rows_show_progress() {
    let mut s = snapshot(TransferState::Running, TransferKind::Copy);
    let row = row_view(&s);
    assert_eq!(row.bar, Bar::Fraction { done: 512, total: 1024 });
    assert_eq!(
        row.detail,
        "512 B / 1.0 KB \u{2022} 1/2 files  \u{2022}  100 B/s  \u{2022}  5s left"
    );
    assert!(row.pause_visible && !row.dismisses && !row.finished);
    s.scanning = true;
    s.current_file = "f".into();
    let row = row_view(&s);
    assert_eq!(row.bar, Bar::Pulse);
    assert_eq!(
        row.detail,
        "512 B \u{2022} 1/2+ files \u{2022} counting\u{2026}  \u{2022}  100 B/s  \u{2022}  f"
    );
    let done = row_view(&snapshot(TransferState::Done, TransferKind::Copy));
    assert_eq!(done.bar, Bar::Full);
    assert_eq!(done.detail, "Done \u{2014} 1.0 KB in 2 files");
    assert!(done.dismisses && !done.clears_itself);
    let deleted = row_view(&snapshot(TransferState::Done, TransferKind::Delete));
    assert_eq!(deleted.detail, "Removed 1 item");
    assert!(deleted.clears_itself);
    let mut failed = snapshot(TransferState::Failed, TransferKind::Move);
    assert_eq!(row_view(&failed).detail, "Failed");
    failed.error = Some("disk full".into());
    assert_eq!(row_view(&failed).detail, "disk full");
    assert!(row_view(&failed).is_error);
    assert!(row_view(&snapshot(TransferState::Paused, TransferKind::Copy)).resumes);
    assert!(!row_view(&snapshot(TransferState::Running, TransferKind::Attributes)).pause_visible);
    assert_eq!(pause_action(true), TransferAction::Resume);
    assert_eq!(pause_action(false), TransferAction::Pause);
    assert_eq!(completion_detail(&failed, false), "disk full");
    assert_eq!(completion_detail(&failed, true), "Copy a \u{2014} 1.0 KB");
}

#[test]
fn permission_boxes_and_octal_agree() {
    for mode in 0..0o10000u32 {
        assert_eq!(PermChecks::of(mode).collect(), mode);
    }
    assert_eq!(octal(0o644), "0644");
    assert_eq!(octal(0o4755), "4755");
    let mut editor = PermEditor::new(0o644);
    assert!(!editor.dirty);
    editor.typed("75x");
    assert!(!editor.dirty);
    editor.typed(" 755 ");
    assert!(editor.dirty);
    assert_eq!(editor.checks.collect(), 0o755);
    editor.toggled(PermChecks::of(0o600));
    assert_eq!(editor.octal, "0600");

    let untouched = PermEditor::new(0o644);
    assert!(attr_request("me", "me", " us ", "us", &untouched, true, false).is_none());
    let request = attr_request("you", "me", "", "us", &editor, true, false).unwrap();
    assert_eq!(request.owner.as_deref(), Some("you"));
    assert_eq!(request.group, None);
    assert_eq!(request.mode, Some(0o600));
    assert!(request.add_x_dirs && !request.recursive);
}

#[test]
fn properties_describe_the_selection() {
    let file = entry("f", false, 2048);
    let mut other = entry("g", false, 1);
    let dir = entry("sub", true, 0);
    let both = vec![file.clone(), other.clone()];
    assert_eq!(common_owner(&both), "me");
    other.owner = None;
    other.group = Some("them".into());
    other.mode = None;
    let mixed = vec![other.clone(), file.clone()];
    assert_eq!(common_owner(&mixed), "");
    assert_eq!(common_group(&mixed), "");
    assert_eq!(initial_mode(&mixed), 0o644);
    assert_eq!(heading(&mixed), "2 Items");
    assert_eq!(heading(&vec![file.clone()]), "f");
    assert!(!has_dir(&mixed));
    assert!(has_dir(&vec![dir.clone()]));
    let rows = details(&both, "", "", "Local");
    let texts: Vec<(&str, &str)> = rows.iter().map(|r| (r.title, r.value.as_str())).collect();
    assert_eq!(
        texts,
        vec![
            ("Location", "/d"),
            ("Contents", "2 files"),
            ("Size", "2.0 KB (2,049 bytes)"),
            ("Stored on", "Local")
        ]
    );
    let rows = details(&vec![dir.clone()], "Folder", "now", "box");
    let waiting: Vec<(&str, OnDemand)> =
        rows.iter().filter_map(|r| r.awaits.map(|a| (r.title, a))).collect();
    assert_eq!(waiting, vec![("Contents", OnDemand::Contents), ("Size", OnDemand::Size)]);
    assert!(rows.iter().any(|r| r.title == "Size" && r.value == "Not calculated"));
    assert_eq!(type_description(&dir, "", false, ""), "Folder");
    assert_eq!(type_description(&file, "application/octet-stream", true, "Unknown"), "File");
    assert_eq!(type_description(&file, "text/plain", false, "Text"), "Text");
    assert_eq!(contents_text(&DiskUsage { files: 1, dirs: 2, bytes: 3 }), "1 file, 2 folders");
}

#[test]
fn panes_sort_directories_first() {
    let a = entry("Alpha", false, 5);
    let b = entry("beta", false, 3);
    let d = entry("zeta", true, 0);
    assert_eq!(rank_entries(&a, &b, Column::Name), Rank::Before);
    assert_eq!(rank_entries(&b, &a, Column::Name), Rank::After);
    assert_eq!(rank_entries(&a, &b, Column::Size), Rank::After);
    assert_eq!(rank_entries(&a, &a, Column::Owner), Rank::Level);
    assert_eq!(rank_entries(&a, &b, Column::Modified), Rank::Level);
    for column in [Column::Name, Column::Size, Column::Permissions] {
        assert_eq!(rank_entries(&d, &a, column), Rank::Before);
    }
    let upper = entry("\u{c4}b", false, 0);
    let lower = entry("\u{e4}a", false, 0);
    assert_eq!(rank_entries(&upper, &lower, Column::Name), Rank::After);
    // The ranks of three entries agree with each other.
    let (one, two, three) = (entry("1", false, 1), entry("2", false, 2), entry("3", false, 3));
    for column in [Column::Name, Column::Size] {
        assert_eq!(rank_entries(&one, &two, column), Rank::Before);
        assert_eq!(rank_entries(&two, &three, column), Rank::Before);
        assert_eq!(rank_entries(&one, &three, column), Rank::Before);
    }
}

#[test]
fn panes_move_and_describe() {
    let mut pane = PaneState::new();
    let first = pane.navigate();
    let second = pane.navigate();
    assert!(!pane.is_current(first) && pane.is_current(second));
    assert!(pane.opened("/a".into()));
    assert!(!pane.opened("/a".into()));
    assert!(pane.shows(Backend::Local, "/a"));
    assert_eq!(pane.session_id(), None);
    pane.backend = Backend::Remote(4);
    assert_eq!(pane.session_id(), Some(4));
    assert!(is_visible("x", false) && !is_visible(".x", false) && is_visible(".x", true));
    assert_eq!(up_target("/a/b").as_deref(), Some("/a"));
    assert_eq!(up_target("/"), None);
    assert!(parent_row("/").is_none());
    let up = parent_row("/a/b").unwrap();
    assert!(is_parent_row(&up));
    assert_eq!(permissions_column(&up), "");
    assert_eq!(status_text(4, 1, &vec![]), "3 items");
    let some = vec![entry("f", false, 1024), entry("d", true, 99)];
    assert_eq!(status_text(4, 1, &some), "2 of 3 selected, 1.0 KB");
    assert_eq!(owner_text(&some[0]), "me:us");
    assert_eq!(size_column(&some[0]), "1.0 KB");
    assert_eq!(size_column(&some[1]), "");
    assert!(matches!(activate(some[1].clone()), Activation::Navigate(p) if p == "/d/d"));
    assert!(matches!(activate(some[0].clone()), Activation::OpenFile(_)));
}

#[test]
fn prompts_mean_what_they_say() {
    assert!(offers_resume(10, 3) && !offers_resume(3, 3));
    assert!(conflict_body("f", 1024, 3).contains("Source: 1.0 KB\nDestination: 3 B"));
    let cases = [
        ("overwrite", ConflictDecision::Overwrite),
        ("overwrite_all", ConflictDecision::OverwriteAll),
        ("resume", ConflictDecision::Resume),
        ("skip", ConflictDecision::Skip),
        ("skip_all", ConflictDecision::SkipAll),
        ("close", ConflictDecision::CancelJob),
    ];
    for (response, decision) in cases {
        assert_eq!(conflict_decision(response), decision);
    }
    assert_eq!(secret_answer("ok", "").as_deref(), Some(""));
    assert_eq!(secret_answer("cancel", "x"), None);
    assert_eq!(yes_no_answer("yes").as_deref(), Some("yes"));
    assert_eq!(yes_no_answer("no"), None);
    assert_eq!(entered_text("ok", ""), None);
    assert_eq!(entered_text("ok", "n").as_deref(), Some("n"));
}

#[test]
fn transfers_start_between_different_places() {
    let here = Place { backend: Backend::Local, dir: "/a".into() };
    let there = Place { backend: Backend::Remote(1), dir: "/b".into() };
    let items = || vec![entry("f", false, 1)];
    assert!(matches!(start_transfer(&here, &there, vec![], false), Outcome::Tell("Nothing selected")));
    assert!(matches!(start_transfer(&here, &here, items(), false), Outcome::Tell(_)));
    match start_transfer(&here, &there, items(), true) {
        Outcome::Start(q) => {
            assert!(q.move_src && !q.overwrite);
            assert_eq!(q.dst_dir, "/b");
        }
        _ => panic!("no request"),
    }
    assert!(matches!(transfer_into(Backend::Local, vec![], &there), Outcome::Nothing));
    assert!(matches!(transfer_into(Backend::Local, items(), &here), Outcome::Tell(_)));
    assert!(matches!(transfer_into(Backend::Local, items(), &there), Outcome::Start(_)));
    assert_eq!(delete_body(&items()), "Permanently delete \u{201c}f\u{201d}?");
    assert!(clip_message(&items(), true).starts_with("\u{201c}f\u{201d} ready to move"));
}

#[test]
fn what_was_cut_is_pasted_once() {
    let here = Place { backend: Backend::Local, dir: "/a".into() };
    let there = Place { backend: Backend::Local, dir: "/b".into() };
    let clip = |cut: bool| {
        Some(Clipboard {
            backend: Backend::Local,
            dir: "/a".into(),
            items: vec![entry("f", false, 1)],
            cut,
        })
    };
    let mut none = None;
    assert!(matches!(paste_into(&mut none, false, &there), Paste::Tell("Nothing to paste")));
    let mut copied = clip(false);
    assert!(matches!(paste_into(&mut copied, false, &here), Paste::Tell(_)));
    assert!(matches!(paste_into(&mut copied, false, &there), Paste::Start(_)));
    assert!(copied.is_some());
    let mut cut = clip(true);
    assert!(matches!(paste_into(&mut cut, false, &there), Paste::Rename { .. }));
    assert!(cut.is_none());
    let mut gone = clip(false);
    assert!(matches!(paste_into(&mut gone, true, &there), Paste::Tell(_)));
    assert!(gone.is_none());

    assert!(is_left_over(true, false) && is_left_over(false, false) && !is_left_over(false, true));
    assert!(move_rest(Backend::Local, vec![], "/b").is_none());
    assert!(move_rest(Backend::Local, vec![entry("f", false, 1)], "/b").unwrap().move_src);
    let f = entry("f", false, 1);
    assert_eq!(rename_target(&f, "g"), Some(("/d".into(), "/d/g".into())));
    assert_eq!(rename_target(&f, "f"), None);
    assert_eq!(copy_to_dir(" /x ", "/y").as_deref(), Some("/x"));
    assert_eq!(copy_to_dir("/y", "/y"), None);
    assert_eq!(symlink_paths(&f, "l", "/d"), Some(("/d/l".into(), "f".into())));
    assert_eq!(symlink_paths(&f, " f ", "/d"), None);
}

#[test]
fn remote_terminals_quote_their_directory() {
    let args = terminal_args("box", "/srv/my dir");
    assert_eq!(args[..3], ["-t", "box", "--"]);
    let words = shell_words::split(args[3].trim_end_matches("; exec \"$SHELL\" -l")).unwrap();
    assert_eq!(words[..2], ["cd", "/srv/my dir"]);
    assert_eq!(terminal_args_for("box", "'q'")[3], "cd 'q' 2>/dev/null; exec \"$SHELL\" -l");
    assert_eq!(terminal_command_line("--", &vec!["-t".into()]), vec!["--", "ssh", "-t"]);
    assert_eq!(terminal_command_line("", &vec![]), vec!["ssh"]);

    let mut present = vec![false; TERMINALS];
    assert!(choose_terminal(Some("foot"), false, &present).is_none());
    assert_eq!(choose_terminal(Some("foot"), true, &present).unwrap().program, "foot");
    present[4] = true;
    present[6] = true;
    assert_eq!(choose_terminal(None, false, &present).unwrap().program, "xterm");
    assert_eq!(candidate(6), ("kitty", ""));
}

#[test]
fn keys_mean_commands_outside_of_texts() {
    assert_eq!(key_command(KeyCode::F5, false, true, false), Some(Command::Copy));
    assert_eq!(key_command(KeyCode::F5, false, true, true), None);
    assert_eq!(key_command(KeyCode::Tab, false, true, false), Some(Command::SwitchPane));
    assert_eq!(key_command(KeyCode::Tab, true, false, false), None);
    assert_eq!(key_command(KeyCode::C, true, false, false), Some(Command::ClipCopy));
    assert_eq!(key_command(KeyCode::C, true, false, true), None);
    assert_eq!(key_command(KeyCode::H, true, false, true), Some(Command::ToggleHidden));
    assert_eq!(key_command(KeyCode::Other, true, false, false), None);
    let menu = menu_state(2, true);
    assert!(menu.on_selection && !menu.on_single && menu.paste);
    assert_eq!((strip_width(0), strip_width(2), strip_width(9)), (200, 400, 640));
}

fn download(path: &str) -> Download {
    Download {
        session: 1,
        path: path.into(),
        remote_dir: "/srv".into(),
        local_path: format!("/tmp{path}"),
    }
}

#[test]
fn saves_during_an_upload_are_uploaded_next() {
    let mut edits = EditManager::new();
    assert!(matches!(edits.open_remote(1, "/srv/f"), OpenStep::Download));
    edits.download_started(7, download("/srv/f"));
    assert!(matches!(edits.open_remote(1, "/srv/f"), OpenStep::Wait));
    assert!(matches!(edits.job_ended(7, TransferState::Running), EndStep::Nothing));
    match edits.job_ended(7, TransferState::Done) {
        EndStep::Watch(d) => edits.watched(d),
        other => panic!("{other:?}"),
    }
    match edits.open_remote(1, "/srv/f") {
        OpenStep::Reopen(local) => assert_eq!(local, "/tmp/srv/f"),
        other => panic!("{other:?}"),
    }
    assert_eq!(edits.upload_target(1, "/srv/f"), Some(("/tmp/srv/f".into(), "/srv".into())));
    assert_eq!(edits.upload_target(1, "/srv/g"), None);
    assert_eq!(edits.upload_target(2, "/srv/f"), None);
    assert!(edits.saved(1, "/srv/f"));
    edits.upload_started(8, 1, "/srv/f".into());
    assert!(!edits.saved(1, "/srv/f"));
    match edits.job_ended(8, TransferState::Failed) {
        EndStep::Upload { session, path } => {
            assert_eq!((session, path.as_str()), (1, "/srv/f"));
            edits.upload_started(9, session, path);
        }
        other => panic!("{other:?}"),
    }
    assert!(matches!(edits.job_ended(9, TransferState::Done), EndStep::Nothing));
    assert!(edits.saved(1, "/srv/f"));
    edits.upload_failed(1, "/srv/f");
    assert!(edits.saved(1, "/srv/f"));
    assert!(!edits.saved(2, "/srv/f"));
    edits.download_started(10, download("/srv/g"));
    assert!(matches!(edits.job_ended(10, TransferState::Failed), EndStep::Nothing));
    assert!(needs_confirmation(WARN_SIZE + 1) && !needs_confirmation(WARN_SIZE));
    assert!(large_file_body("f", WARN_SIZE).contains("10.0 MB"));
}

#[test]
fn temp_copies_are_told_apart_by_directory() {
    assert_eq!(session_dir_for("/cache", 3, 0xab), "/cache/3/00000000000000ab");
    let srv = session_dir("/cache", 3, "/srv");
    assert!(srv.starts_with("/cache/3/"));
    assert_eq!(srv.len(), "/cache/3/".len() + 16);
    assert_eq!(session_dir("/cache", 3, "/srv"), srv);
    assert_ne!(session_dir("/cache", 3, "/etc"), srv);
    assert_ne!(session_dir("/cache", 4, "/srv"), srv);
    assert_ne!(session_dir_for("/cache", 3, 1), session_dir_for("/cache", 31, 1));
}

#[test]
fn tabs_show_their_host() {
    let mut tab = Workspace::new("Local");
    assert_eq!((tab.active_pane(), tab.inactive_pane()), (Side::Left, Side::Right));
    tab.set_left_active(false);
    assert_eq!(tab.active_pane(), Side::Right);
    assert_eq!(tab_session(Some(2), Some(1)), Some(2));
    assert_eq!(tab_session(None, Some(1)), Some(1));
    let label = tab_label(&tab, true, &Some("box".into()));
    assert_eq!((label.title.as_str(), label.tooltip.as_str(), label.remote), ("box", "box", true));
    assert_eq!(tab_label(&tab, true, &None).title, "Remote");
    assert_eq!(tab_label(&tab, false, &None).title, "Local");
}

#[test]
fn small_settings() {
    assert_eq!(duration(None), 1200);
    assert_eq!(duration(Some("0")), 0);
    assert_eq!(duration(Some("soon")), 1200);
    assert_eq!(store_step(""), StoreStep::Clear);
    assert_eq!(store_step("x"), StoreStep::Write);
    assert!(is_gone(Deletion::Deleted) && is_gone(Deletion::Absent) && !is_gone(Deletion::Failed));
    let methods: Vec<&str> = AuthMethod::ALL.iter().map(|m| m.label()).collect();
    assert_eq!(methods, vec!["SSH agent / default keys", "Password", "Key file (PEM)"]);
    let modes: Vec<&str> = Elevation::ALL.iter().map(|e| e.label()).collect();
    assert_eq!(modes, vec!["Connect as yourself", "Root via sudo", "Root via su -"]);
    assert_eq!(Elevation::default(), Elevation::Plain);
    assert_eq!(AuthMethod::default(), AuthMethod::Agent);
}
