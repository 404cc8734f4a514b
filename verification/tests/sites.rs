use linuxscp::settings::{enabled, found_in, Folder, LegacyBookmark, Settings, Site};
use linuxscp::types::{AuthMethod, Elevation};
use linuxscp::ui::actions::{
    add_folder, bookmark_site, save_site, secrets_in_folder, session_label, spec_for_site,
};
use linuxscp::ui::site_editor::{
    auth_index, auth_rows, elevation_index, SecretUpdate, SiteFields,
};
use linuxscp::ui::site_tree::{
    build_tree_model, connect_spec, delete_choice, drag_payload, draft_position, drop_on,
    has_match, needs_stored_secret, no_hosts_message, row_position, save_parent, search_query,
    site_by_id, DeleteChoice, Selection, TreeRow,
};

#[test]
fn folder_tree_operations() {
    let mut root = Folder::default();
    let mut prod = Folder {
        name: "Production".into(),
        ..Default::default()
    };
    let prod_id = prod.id.clone();
    prod.sites.push(Site::new("web", "web.example.com"));
    root.folders.push(prod);
    root.sites.push(Site::new("laptop", "laptop.local"));

    assert_eq!(root.site_count(), 2);
    assert_eq!(root.all_sites().len(), 2);

    // Add a site into the nested folder.
    let target = root.find_folder_mut(&prod_id).unwrap();
    target.sites.push(Site::new("db", "db.example.com"));
    assert_eq!(root.site_count(), 3);

    // Remove a nested site.
    let web_id = root.folders[0].sites[0].id.clone();
    let removed = root.remove_site(&web_id).unwrap();
    assert_eq!(removed.name, "web");
    assert_eq!(root.site_count(), 2);

    // Remove the folder (and its remaining site).
    root.remove_folder(&prod_id).unwrap();
    assert_eq!(root.site_count(), 1);
}

#[test]
fn move_site_between_folders() {
    let mut root = Folder::default();
    let prod = Folder::new("Production");
    let prod_id = prod.id.clone();
    root.folders.push(prod);
    root.sites.push(Site::new("web", "web.example.com"));
    let site_id = root.sites[0].id.clone();

    // Root -> folder.
    assert!(root.move_site_to(&site_id, &prod_id));
    assert!(root.sites.is_empty());
    assert_eq!(root.folders[0].sites.len(), 1);

    // Already there: no-op.
    assert!(!root.move_site_to(&site_id, &prod_id));

    // Folder -> root ("" and the root id both mean root).
    assert!(root.move_site_to(&site_id, ""));
    assert_eq!(root.sites.len(), 1);
    assert!(root.folders[0].sites.is_empty());

    // Unknown site id: no-op.
    assert!(!root.move_site_to("missing", &prod_id));
}

#[test]
fn move_folder_carries_subtree_and_rejects_cycles() {
    let mut root = Folder::default();
    let mut prod = Folder::new("Production");
    let prod_id = prod.id.clone();
    let mut backups = Folder::new("Backups");
    let backups_id = backups.id.clone();
    backups.sites.push(Site::new("vault", "vault.internal"));
    prod.folders.push(backups);
    root.folders.push(prod);
    let home = Folder::new("Homelab");
    let home_id = home.id.clone();
    root.folders.push(home);

    // Move Backups (with its site) from Production into Homelab.
    assert!(root.move_folder_to(&backups_id, &home_id));
    assert!(root.find_folder(&prod_id).unwrap().folders.is_empty());
    let moved = &root.find_folder(&home_id).unwrap().folders[0];
    assert_eq!(moved.name, "Backups");
    assert_eq!(moved.sites.len(), 1, "sites must travel with the folder");

    // Cycles: into itself, or into its own subtree.
    assert!(!root.move_folder_to(&home_id, &home_id));
    assert!(!root.move_folder_to(&home_id, &backups_id));

    // Already in the destination: no-op.
    assert!(!root.move_folder_to(&backups_id, &home_id));

    // Folder -> root, and the root itself never moves.
    assert!(root.move_folder_to(&backups_id, ""));
    assert!(root.folders.iter().any(|f| f.id == backups_id));
    let root_id = root.id.clone();
    assert!(!root.move_folder_to(&root_id, &home_id));
}

#[test]
fn search_filters_sites_and_folders() {
    let mut root = Folder::default();
    let mut prod = Folder::new("Production");
    prod.sites.push(Site::new("web", "web.example.com"));
    prod.sites.push(Site::new("db", "db.internal"));
    let mut nested = Folder::new("Backups");
    nested.sites.push(Site::new("vault", "vault.internal"));
    prod.folders.push(nested);
    root.folders.push(prod);
    let mut laptop = Site::new("laptop", "laptop.local");
    laptop.user = Some("Jacob".into());
    root.sites.push(laptop);

    // Empty query returns everything.
    assert_eq!(root.filtered("").site_count(), 4);

    // Site match by name keeps only the matching branch.
    let hit = root.filtered("web");
    assert_eq!(hit.site_count(), 1);
    assert_eq!(hit.folders[0].sites[0].name, "web");

    // Match by host and by user (case-insensitive).
    assert_eq!(root.filtered("internal").site_count(), 2);
    assert_eq!(root.filtered("jacob").site_count(), 1);

    // Folder-name match keeps the whole subtree.
    let by_folder = root.filtered("backup");
    assert_eq!(by_folder.site_count(), 1);
    assert_eq!(by_folder.folders[0].folders[0].name, "Backups");

    // No match prunes everything.
    let none = root.filtered("nomatch");
    assert_eq!(none.site_count(), 0);
    assert!(none.folders.is_empty());
}

#[test]
fn site_summary_and_spec() {
    let mut site = Site::new("prod", "example.com");
    site.user = Some("deploy".into());
    site.port = Some(2222);
    assert_eq!(site.summary(), "deploy@example.com:2222");
    let spec = site.to_spec();
    assert_eq!(spec.user.as_deref(), Some("deploy"));
    assert_eq!(spec.port, Some(2222));
}

fn is_uuid(id: &str) -> bool {
    let parts: Vec<&str> = id.split('-').collect();
    let sizes: Vec<usize> = parts.iter().map(|p| p.len()).collect();
    sizes == vec![8, 4, 4, 4, 12]
        && parts[2].starts_with('4')
        && id.chars().all(|c| c == '-' || (c.is_ascii_hexdigit() && !c.is_ascii_uppercase()))
}

#[test]
fn new_ids_are_fresh_random_uuids() {
    let a = Site::new("a", "h");
    let b = Site::new("a", "h");
    let f = Folder::new("f");
    let d = Folder::default();
    for id in [&a.id, &b.id, &f.id, &d.id] {
        assert!(is_uuid(id), "{id}");
    }
    assert_ne!(a.id, b.id);
    assert_ne!(f.id, d.id);
    assert_eq!(a.auth, AuthMethod::Agent);
    assert_eq!(a.elevation, Elevation::Plain);
    assert!(!a.has_secret);
}

#[test]
fn search_lowers_letters_beyond_ascii() {
    let site = Site::new("\u{c4}RZTE", "host");
    assert!(site.matches("\u{e4}rzte"));
    assert!(site.matches(""));
    assert!(found_in("n", "host", None, "host"));
    assert!(found_in("n", "h", Some("root"), "root"));
    assert!(!found_in("n", "h", Some("root"), "admin"));
    let root = Folder { sites: vec![site], ..Folder::default() };
    assert_eq!(root.filtered("\u{e4}rzte").site_count(), 1);
}

#[test]
fn updates_replace_the_site_in_place() {
    let mut root = Folder::default();
    let mut inner = Folder::new("inner");
    inner.sites.push(Site::new("a", "a.example"));
    let id = inner.sites[0].id.clone();
    let inner_id = inner.id.clone();
    root.folders.push(inner);
    let mut changed = root.folders[0].sites[0].clone();
    changed.host = "b.example".into();
    assert!(root.update_site(changed));
    assert_eq!(root.folders[0].sites[0].host, "b.example");
    assert!(!root.update_site(Site::new("other", "o")));
    assert_eq!(root.parent_id_of(&id), Some(inner_id.clone()));
    assert_eq!(root.parent_id_of(&inner_id), Some(root.id.clone()));
    assert_eq!(root.parent_id_of("missing"), None);
    assert_eq!(root.folder_or_root_mut("missing").name, root_name());
    assert_eq!(root.folder_or_root_mut(&inner_id).name, "inner");
    assert_eq!(root.clone().site_count(), 1);
}

fn root_name() -> String {
    Folder::default().name
}

#[test]
fn old_bookmarks_become_sites_once() {
    let mut settings = Settings::default();
    assert!(settings.notify_sound && settings.notify_desktop && enabled());
    assert!(!settings.migrate_bookmarks());
    settings.bookmarks.push(LegacyBookmark {
        label: "Work".into(),
        host: "work.example".into(),
        elevation: Elevation::Sudo,
        remote_dir: Some("/srv".into()),
    });
    assert!(settings.migrate_bookmarks());
    assert!(settings.bookmarks.is_empty());
    assert_eq!(settings.sites.sites.len(), 1);
    assert_eq!(settings.sites.sites[0].name, "Work");
    assert_eq!(settings.sites.sites[0].host, "work.example");
    assert_eq!(settings.sites.sites[0].elevation, Elevation::Sudo);
    assert_eq!(settings.sites.sites[0].remote_dir.as_deref(), Some("/srv"));
    assert!(!settings.migrate_bookmarks());
}

#[test]
fn saved_sites_are_found_again() {
    let mut root = Folder::default();
    assert!(add_folder(&mut root, "", "Production"));
    assert!(!add_folder(&mut root, "", "   "));
    let prod = root.folders[0].id.clone();
    let site = Site::new("web", "web.example.com");
    let id = site.id.clone();
    save_site(&mut root, site.clone(), &prod);
    assert_eq!(root.folders[0].sites.len(), 1);
    let mut edited = site;
    edited.has_secret = true;
    save_site(&mut root, edited, "");
    assert_eq!(root.site_count(), 1);
    assert!(site_by_id(&root, &id).unwrap().has_secret);
    assert_eq!(secrets_in_folder(&root, &prod), vec![id.clone()]);
    assert!(secrets_in_folder(&root, "missing").is_empty());
    let (spec, has_secret) = spec_for_site(&root, &id).unwrap();
    assert_eq!(spec.host, "web.example.com");
    assert!(has_secret);
    assert!(spec_for_site(&root, "missing").is_none());
    assert!(site_by_id(&root, "missing").is_none());
}

fn folder_payload_of(id: &str) -> String {
    format!("folder:{id}")
}

#[test]
fn guide_lines_connect_folders_to_what_they_hold() {
    let mut root = Folder::default();
    let mut prod = Folder::new("Production");
    let mut backups = Folder::new("Backups");
    backups.sites.push(Site::new("vault", "vault.internal"));
    let mut empty = Folder::new("Empty");
    empty.folders.push(Folder::new("Deeper"));
    prod.folders.push(backups);
    prod.folders.push(empty);
    root.folders.push(prod);
    root.sites.push(Site::new("laptop", "laptop.local"));
    let rows = build_tree_model(&root);
    let lines: Vec<String> = rows.iter().map(|r| format!("{}{}", r.prefix, r.name)).collect();
    assert_eq!(
        lines,
        vec![
            "Production",
            "\u{251c}\u{2500}\u{a0}Backups",
            "\u{2502}\u{a0}\u{a0}\u{2514}\u{2500}\u{a0}vault",
            "\u{2514}\u{2500}\u{a0}Empty",
            "\u{a0}\u{a0}\u{a0}\u{2514}\u{2500}\u{a0}Deeper",
            "laptop",
        ]
    );
    assert_eq!(rows[0].subtitle, "1 site");
    assert_eq!(rows[3].subtitle, "0 sites");
}

#[test]
fn tree_rows_show_every_folder_and_site() {
    let mut root = Folder::default();
    let mut prod = Folder::new("Production");
    prod.sites.push(Site::new("web", "web.example.com"));
    let prod_id = prod.id.clone();
    let web_id = prod.sites[0].id.clone();
    root.folders.push(prod);
    root.sites.push(Site::new("laptop", "laptop.local"));
    let rows = build_tree_model(&root);
    assert_eq!(rows.len(), 3);
    let names: Vec<&str> = rows.iter().map(|r| r.name.as_str()).collect();
    assert_eq!(names, vec!["Production", "web", "laptop"]);
    assert!(rows[0].is_folder && !rows[1].is_folder);
    assert_eq!(rows[1].subtitle, "web.example.com");
    assert_eq!(draft_position(&rows), None);
    assert_eq!(row_position(&rows, &web_id), Some(1));
    assert_eq!(row_position(&rows, "missing"), None);

    // A folder is dropped on the root, a site on a folder.
    let site_row = build_tree_model(&root.folders[0]).remove(0);
    let payload = drag_payload(&site_row).unwrap();
    assert_eq!(payload, format!("site:{web_id}"));
    let dropped = drop_on(&payload, None, &root).unwrap();
    assert_eq!(dropped.id, web_id);
    assert!(!dropped.folder);
    assert_eq!(dropped.dest, "");
    let next_to = drop_on(&folder_payload_of(&prod_id), Some(&site_row), &root).unwrap();
    assert!(next_to.folder);
    assert_eq!(next_to.dest, prod_id);
    let folder_payload = drag_payload(&rows[0]).unwrap();
    assert_eq!(folder_payload, format!("folder:{prod_id}"));
    let draft = TreeRow::new_draft();
    assert!(draft.is_draft());
    assert_eq!(drag_payload(&draft).is_none(), true);
    assert!(drop_on("nonsense", None, &root).is_none());

    let mut selection = Selection::new();
    let shown = selection.select(Some(&site_row), &root).unwrap();
    assert_eq!(shown.id, web_id);
    assert_eq!(selection.kept(), Some(web_id.clone()));
    assert!(matches!(delete_choice(false, &selection), DeleteChoice::Site(_)));
    assert!(matches!(delete_choice(true, &selection), DeleteChoice::DiscardDraft));
    assert!(selection.select(Some(&rows[0]), &root).is_none());
    assert!(matches!(delete_choice(false, &selection), DeleteChoice::Folder(_)));
    assert!(selection.select(None, &root).is_none());
    assert!(matches!(delete_choice(false, &selection), DeleteChoice::Nothing));

    assert_eq!(save_parent(true, &prod_id, "new", &root), prod_id);
    assert_eq!(save_parent(false, "", &web_id, &root), prod_id);
    assert!(!has_match(&Vec::new(), "x"));
    assert_eq!(search_query("WEB.Example"), "web.example");
    assert_eq!(root.filtered(&search_query("WEB")).site_count(), 1);
    assert_ne!(no_hosts_message(true), no_hosts_message(false));
}

#[test]
fn the_editor_reads_back_what_it_loaded() {
    let mut site = Site::new("prod", "example.com");
    site.user = Some("deploy".into());
    site.port = Some(2222);
    site.auth = AuthMethod::Key;
    site.identity_file = Some("/k".into());
    site.elevation = Elevation::Su;
    let fields = SiteFields::load(&site);
    let (again, update) = fields.collect(&site).unwrap();
    assert_eq!(again.summary(), "deploy@example.com:2222");
    assert_eq!(again.id, site.id);
    assert_eq!(again.auth, AuthMethod::Key);
    assert_eq!(again.identity_file.as_deref(), Some("/k"));
    assert_eq!(again.elevation, Elevation::Su);
    assert!(matches!(update, SecretUpdate::Keep));
    assert_eq!(fields.display_name(), "prod");
    assert_eq!(auth_index(AuthMethod::Key), 2);
    assert_eq!(elevation_index(Elevation::Su), 2);
    assert_eq!(auth_index(AuthMethod::Agent), 0);

    let empty = SiteFields::load(&Site::new("", "  "));
    assert!(empty.collect(&site).is_none());
    let rows = auth_rows(AuthMethod::Password, true);
    assert!(rows.secret_visible && !rows.key_visible);
}

#[test]
fn typed_secrets_win_over_stored_ones() {
    let mut site = Site::new("prod", "example.com");
    site.has_secret = true;
    assert!(needs_stored_secret("", true));
    assert!(!needs_stored_secret("typed", true));
    assert!(!needs_stored_secret("", false));
    assert_eq!(connect_spec(&site, "typed", Some("old".into())).secret.as_deref(), Some("typed"));
    assert_eq!(connect_spec(&site, "", Some("old".into())).secret.as_deref(), Some("old"));
    assert_eq!(connect_spec(&site, "", None).secret, None);
}

#[test]
fn a_session_is_bookmarked_where_it_stands() {
    let mut site = Site::new("prod", "example.com");
    site.user = Some("deploy".into());
    let mut spec = site.to_spec();
    let label = session_label(&spec);
    assert!(label.contains("example.com"));
    let (mark, update) = bookmark_site(&spec, "/srv/www");
    assert_eq!(mark.host, "example.com");
    assert_eq!(mark.remote_dir.as_deref(), Some("/srv/www"));
    assert!(!matches!(update, SecretUpdate::Store(_)));
    spec.secret = Some("s".into());
    let (mark, update) = bookmark_site(&spec, "/");
    assert!(matches!(update, SecretUpdate::Store(ref s) if s == "s"));
    assert_ne!(mark.id, site.id);
}
