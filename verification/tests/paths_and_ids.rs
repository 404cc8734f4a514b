use std::collections::HashMap;

use linuxscp::fsops::{
    chmod_bits, entry_from_attrs, entry_from_meta, file_name, id_for, is_remote_dir, join, lookup,
    owner_ids, parent, remote_entries, resolve_ids, resolve_link, AttrChanges, LocalMeta,
    RemoteAttrs, RemoteRow, UnknownName,
};
use linuxscp::paths::path_prefixes;
use linuxscp::sessions::{close, forget, get, next_id, register, IdNames, Registry};
use linuxscp::types::{format_permissions, Backend, FsEntry};

#[test]
fn path_helpers() {
    assert_eq!(join("/a/b", "c"), "/a/b/c");
    assert_eq!(join("/", "c"), "/c");
    assert_eq!(parent("/a/b/c"), "/a/b");
    assert_eq!(parent("/a"), "/");
    assert_eq!(parent("/"), "/");
    assert_eq!(file_name("/a/b/c.txt"), "c.txt");
    assert_eq!(file_name("/"), "");
}

#[test]
fn joined_paths_come_apart_again() {
    for dir in ["/", "/a", "/a/b", "/srv/data"] {
        let path = join(dir, "name.txt");
        assert_eq!(file_name(&path), "name.txt");
        assert_eq!(parent(&path), dir);
    }
    assert_eq!(join("/a/b/", "c"), "/a/b/c");
    assert_eq!(parent("/a/b/"), "/a");
    assert_eq!(parent("plain"), "/");
    assert_eq!(file_name("/a/b/"), "b");
    assert_eq!(file_name("plain"), "plain");
}

#[test]
fn every_prefix_of_a_path_is_made() {
    assert_eq!(path_prefixes("/a/b/c"), vec!["/a", "/a/b", "/a/b/c"]);
    assert_eq!(path_prefixes("/a//b/"), vec!["/a", "/a/b"]);
    assert!(path_prefixes("/").is_empty());
}

#[test]
fn permission_strings() {
    assert_eq!(format_permissions(false, false, 0o644), "-rw-r--r--");
    assert_eq!(format_permissions(true, false, 0o755), "drwxr-xr-x");
    assert_eq!(format_permissions(false, true, 0o777), "lrwxrwxrwx");
    assert_eq!(format_permissions(false, false, 0o4755), "-rwsr-xr-x");
    assert_eq!(format_permissions(false, false, 0o2644), "-rw-r-Sr--");
    assert_eq!(format_permissions(true, false, 0o1777), "drwxrwxrwt");
}

#[test]
fn permission_strings_without_execute() {
    assert_eq!(format_permissions(false, false, 0o4644), "-rwSr--r--");
    assert_eq!(format_permissions(false, false, 0o1644), "-rw-r--r-T");
    assert_eq!(format_permissions(false, false, 0o2755), "-rwxr-sr-x");
    assert_eq!(format_permissions(true, true, 0), "l---------");
}

#[test]
fn parses_passwd_format() {
    let map = IdNames::parse_id_file(
        "root:x:0:0:root:/root:/bin/bash\n\
         daemon:x:1:1:daemon:/usr/sbin:/usr/sbin/nologin\n\
         malformed line\n\
         jacob:x:1000:1000::/home/jacob:/bin/bash\n",
    );
    assert_eq!(map.get(&0).map(String::as_str), Some("root"));
    assert_eq!(map.get(&1000).map(String::as_str), Some("jacob"));
    assert_eq!(map.len(), 3);
}

#[test]
fn id_files_keep_the_last_name_and_drop_bad_numbers() {
    let map = IdNames::parse_id_file("a:x:5\nb:x:5\nc:x:-1\nd:x:4294967296\ne:x\nf:x:+7\n");
    assert_eq!(map.get(&5).map(String::as_str), Some("b"));
    assert_eq!(map.get(&7).map(String::as_str), Some("f"));
    assert_eq!(map.len(), 2);
}

#[test]
fn id_files_need_not_be_utf8() {
    let map = IdNames::parse_id_bytes(b"root:x:0\nm\xfcller:x:1000\nbad\xff:x:y\n");
    assert_eq!(map.get(&0).map(String::as_str), Some("root"));
    assert_eq!(map.get(&1000).map(String::as_str), Some("m\u{fffd}ller"));
    assert_eq!(map.len(), 2);
    assert_eq!(IdNames::parse_id_bytes("j\u{fc}rgen:x:7".as_bytes())[&7], "j\u{fc}rgen");
}

fn names() -> IdNames {
    IdNames {
        users: IdNames::parse_id_file("root:x:0\njacob:x:1000\n"),
        groups: IdNames::parse_id_file("wheel:x:10\nstaff:x:50\n"),
    }
}

#[test]
fn names_and_ids_look_each_other_up() {
    let ids = names();
    assert_eq!(ids.uid_of("jacob"), Some(1000));
    assert_eq!(ids.gid_of("wheel"), Some(10));
    assert_eq!(ids.uid_of("wheel"), None);
    assert_eq!(lookup(1000, &ids.users), "jacob");
    assert_eq!(lookup(7, &ids.users), "7");
    assert_eq!(id_for("jacob", &ids.users), Some(1000));
    assert_eq!(id_for("42", &ids.users), None);
    assert_eq!(id_for("nobody", &ids.users), None);
    let empty: HashMap<u32, String> = HashMap::new();
    assert_eq!(IdNames::id_by_name(&empty, "jacob"), None);
    assert_eq!(IdNames::default().users.len(), 0);
}

#[test]
fn typed_owners_resolve_or_name_who_is_unknown() {
    let ids = names();
    let user = Some("jacob".to_string());
    let group = Some("staff".to_string());
    assert!(matches!(resolve_ids(&user, &group, Some(&ids)), Ok((Some(1000), Some(50)))));
    assert!(matches!(resolve_ids(&None, &None, None), Ok((None, None))));
    let number = Some("12".to_string());
    assert!(matches!(resolve_ids(&number, &None, None), Ok((Some(12), None))));

    let nobody = Some("nobody".to_string());
    match resolve_ids(&nobody, &group, Some(&ids)) {
        Err(UnknownName::User(name)) => assert_eq!(name, "nobody"),
        other => panic!("{other:?}"),
    }
    match resolve_ids(&user, &nobody, Some(&ids)) {
        Err(e) => {
            assert!(matches!(e, UnknownName::Group(_)));
            assert!(e.message().contains("nobody"));
        }
        other => panic!("{other:?}"),
    }
}

fn attrs(permissions: Option<u32>) -> RemoteAttrs {
    RemoteAttrs {
        size: Some(5),
        uid: Some(1000),
        user: None,
        gid: Some(77),
        group: None,
        permissions,
        mtime: Some(1_700_000_000),
    }
}

#[test]
fn remote_types_come_from_the_mode_bits() {
    assert!(is_remote_dir(Some(0o040755)));
    assert!(!is_remote_dir(Some(0o100644)));
    assert!(!is_remote_dir(Some(0o120777)));
    assert!(!is_remote_dir(Some(0o020600)));
    assert!(!is_remote_dir(None));

    let ids = names();
    let dir = entry_from_attrs("/srv/sub", "sub", &attrs(Some(0o040755)), Some(&ids));
    assert!(dir.is_dir && !dir.is_symlink);
    assert_eq!(dir.mode, Some(0o755));
    assert_eq!(dir.owner.as_deref(), Some("jacob"));
    assert_eq!(dir.group.as_deref(), Some("77"));
    let link = entry_from_attrs("/srv/l", "l", &attrs(Some(0o120777)), None);
    assert!(!link.is_dir && link.is_symlink);
    assert_eq!(link.owner.as_deref(), Some("1000"));
    assert_eq!(link.size, 5);
    assert_eq!(link.mtime, Some(1_700_000_000));
    assert_eq!(link.path, "/srv/l");
}

#[test]
fn remote_listings_leave_out_the_dots() {
    let rows = vec![
        RemoteRow { name: ".".into(), attrs: attrs(Some(0o040755)) },
        RemoteRow { name: "..".into(), attrs: attrs(Some(0o040755)) },
        RemoteRow { name: "file.txt".into(), attrs: attrs(Some(0o100644)) },
        RemoteRow { name: "sub".into(), attrs: attrs(Some(0o040755)) },
    ];
    let entries = remote_entries("/home/x", &rows, None);
    assert_eq!(entries.len(), 2);
    assert_eq!(entries[0].path, "/home/x/file.txt");
    assert!(!entries[0].is_dir);
    assert!(entries[1].is_dir);
}

#[test]
fn links_take_their_targets_type() {
    let link = entry_from_attrs("/l", "l", &attrs(Some(0o120777)), None);
    let to_dir = resolve_link(link.clone(), Some(Some(0o040755)), Some("sub".into()));
    assert!(to_dir.is_dir && to_dir.is_symlink);
    assert_eq!(to_dir.link_target.as_deref(), Some("sub"));
    let dangling = resolve_link(link, None, None);
    assert!(!dangling.is_dir && dangling.is_symlink);
    assert_eq!(dangling.link_target, None);
}

#[test]
fn local_metadata_becomes_an_entry() {
    let meta = LocalMeta {
        is_dir: false,
        is_symlink: false,
        len: 5,
        mtime: -3,
        mode: 0o100644,
        uid: 1000,
        gid: 9,
    };
    let ids = names();
    let entry = entry_from_meta("/tmp/file.txt", &meta, &None, &None, &ids);
    assert_eq!(entry.name, "file.txt");
    assert_eq!(entry.size, 5);
    assert_eq!(entry.mtime, Some(-3));
    assert_eq!(entry.mode, Some(0o644));
    assert_eq!(entry.owner.as_deref(), Some("jacob"));
    assert_eq!(entry.group.as_deref(), Some("9"));
    assert!(!entry.is_dir);

    let link = LocalMeta { is_symlink: true, ..meta };
    let dir = LocalMeta { is_dir: true, len: 4096, ..meta };
    let to_dir = entry_from_meta("/tmp/l", &link, &Some(dir), &Some("sub".into()), &ids);
    assert!(to_dir.is_dir && to_dir.is_symlink);
    assert_eq!(to_dir.size, 4096);
    assert_eq!(to_dir.link_target.as_deref(), Some("sub"));
}

#[test]
fn mode_changes_keep_the_type_and_add_search_bits() {
    assert_eq!(chmod_bits(Some(0o100644), 0o600), 0o100600);
    assert_eq!(chmod_bits(Some(0o044755), 0o1700), 0o041700);
    let changes = AttrChanges { mode: Some(0o640), uid: None, gid: None, add_x_dirs: true };
    assert_eq!(changes.mode_for(true), Some(0o750));
    assert_eq!(changes.mode_for(false), Some(0o640));
    let plain = AttrChanges { add_x_dirs: false, ..changes };
    assert_eq!(plain.mode_for(true), Some(0o640));
    assert!(AttrChanges::default().is_empty());
    assert!(!changes.is_empty());
    assert_eq!(AttrChanges::default().mode_for(true), None);
}

#[test]
fn an_owner_change_keeps_the_other_half() {
    assert_eq!(owner_ids(Some(5), None, Some(1), Some(2)), Some((5, 2)));
    assert_eq!(owner_ids(None, Some(9), Some(1), Some(2)), Some((1, 9)));
    assert_eq!(owner_ids(None, Some(9), None, Some(2)), None);
}

#[test]
fn sessions_are_found_until_they_close() {
    let mut registry: Registry<String> = Registry::new();
    let a = next_id(&mut registry);
    let b = next_id(&mut registry);
    assert_eq!((a, b), (1, 2));
    register(&mut registry, a, "first".into());
    register(&mut registry, b, "second".into());
    assert_eq!(get(&registry, a).map(String::as_str), Some("first"));
    assert_eq!(close(&mut registry, a).as_deref(), Some("first"));
    assert_eq!(get(&registry, a), None);
    assert_eq!(close(&mut registry, a), None);
    forget(&mut registry, b);
    assert_eq!(get(&registry, b), None);
    assert_eq!(next_id(&mut registry), 3);
}

#[test]
fn backends_and_entries_describe_themselves() {
    assert!(Backend::Remote(3).is_remote());
    assert!(!Backend::Local.is_remote());
    let entry = FsEntry {
        name: "x".into(),
        path: "/x".into(),
        is_dir: true,
        is_symlink: false,
        size: 0,
        mtime: None,
        mode: Some(0o700),
        owner: None,
        group: None,
        link_target: None,
    };
    assert_eq!(entry.permissions_string(), "drwx------");
    let unknown = FsEntry { mode: None, ..entry.clone() };
    assert_eq!(unknown.permissions_string(), "----------");
    assert_eq!(entry.clone(), entry);
}
