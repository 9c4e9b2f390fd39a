use knave_shell::catalog::{
    catalog_listing, entry_for_app_id, icon_file_admitted, icon_targets, icon_update, merge_update,
    CatalogScan, normalize_app_id, read_catalog_entry, unique_icon_requests, AppCatalogUpdate,
    FileAdmission, IconCache, ScanBounds,
};
use knave_shell::ui::UiImage;

fn icon() -> UiImage {
    UiImage::from_rgba(1, 1, vec![0, 0, 0, 0]).unwrap()
}

#[test]
fn app_ids_match_desktop_entry_names_without_suffix() {
    assert_eq!(
        normalize_app_id("org.example.Editor.desktop"),
        "org.example.editor"
    );
}

#[test]
fn normalization_trims_and_strips_repeated_suffixes() {
    assert_eq!(normalize_app_id("  Foot.desktop.desktop "), "foot");
    assert_eq!(normalize_app_id(".desktop"), "");
    assert_eq!(normalize_app_id("Firefox"), "firefox");
}

#[test]
fn icon_requests_are_coalesced() {
    let ids = vec!["Foot".to_string(), "foot.desktop".to_string(), "code".to_string()];
    assert_eq!(unique_icon_requests(ids), vec!["Foot".to_string(), "code".to_string()]);
    let many: Vec<String> = (0..60).map(|i| format!("app{i}")).collect();
    let kept = unique_icon_requests(many);
    assert_eq!(kept.len(), 48);
    assert_eq!(kept[47], "app47");
}

#[test]
fn updates_accumulate_icons_up_to_48() {
    let older = AppCatalogUpdate {
        applications: Some(Vec::new()),
        icons: (0..40).map(|i| (format!("a{i}"), icon())).collect(),
    };
    let newer = AppCatalogUpdate {
        applications: None,
        icons: (0..20).map(|i| (format!("b{i}"), icon())).collect(),
    };
    let merged = merge_update(Some(older), newer);
    assert!(merged.applications.is_some());
    assert_eq!(merged.icons.len(), 48);
    assert_eq!(merged.icons[0].0, "a12");
    assert_eq!(merged.icons[47].0, "b19");
    let alone = merge_update(None, AppCatalogUpdate { applications: None, icons: Vec::new() });
    assert!(alone.applications.is_none());
}

#[test]
fn icon_cache_evicts_the_oldest() {
    let mut cache = IconCache::new();
    for i in 0..48 {
        cache.insert(format!("id{i}"), icon());
    }
    assert_eq!(cache.len(), 48);
    cache.insert("id3".to_string(), icon());
    assert_eq!(cache.len(), 48);
    cache.insert("new".to_string(), icon());
    assert_eq!(cache.len(), 48);
    assert!(cache.find(&"id0".to_string()).is_none());
    assert!(cache.find(&"new".to_string()).is_some());
    assert_eq!(cache.position(&"id1".to_string()), Some(0));
}

#[test]
fn scan_bounds_stop_the_scan() {
    let mut bounds = ScanBounds::new();
    assert!(bounds.enter_directory(0, 0));
    assert!(!bounds.enter_directory(9, 0));
    assert!(!bounds.enter_directory(1, 512));
    for _ in 0..2048 {
        assert!(bounds.count_file());
    }
    assert!(!bounds.count_file());
    assert!(bounds.exhausted());
    assert!(!bounds.may_continue(0));
}

#[test]
fn scan_bounds_admit_files_by_size() {
    let mut bounds = ScanBounds::new();
    assert_eq!(bounds.admit_file(0), FileAdmission::Skip);
    assert_eq!(bounds.admit_file(65537), FileAdmission::Skip);
    assert_eq!(bounds.admit_file(65536), FileAdmission::Read);
    for _ in 0..128 {
        assert!(bounds.record_bytes(65536));
    }
    assert_eq!(bounds.total_bytes(), 8 * 1024 * 1024);
    assert_eq!(bounds.admit_file(1), FileAdmission::Stop);
    assert!(bounds.exhausted());
    let mut near_full = ScanBounds::new();
    for _ in 0..127 {
        assert!(near_full.record_bytes(65536));
    }
    assert!(near_full.record_bytes(65528));
    assert!(!near_full.record_bytes(65536));
    assert_eq!(near_full.total_bytes(), 8 * 1024 * 1024 - 8);
    assert!(near_full.exhausted());
    let mut entries = ScanBounds::new();
    for _ in 0..8192 {
        assert!(entries.count_entry());
    }
    assert!(!entries.count_entry());
}

const EDITOR: &str = "[Desktop Entry]\nType=Application\nName=Editor\nGenericName=Text Editor\nKeywords=text;code;\nExec=editor %F\nIcon=editor\nStartupWMClass=Editor-Main\n";

#[test]
fn desktop_files_become_catalog_entries() {
    let mut seen = Vec::new();
    let entry = read_catalog_entry("/usr/share/applications/org.example.Editor.desktop", EDITOR, &mut seen).unwrap();
    assert_eq!(entry.summary.id, "org.example.Editor");
    assert_eq!(entry.summary.name, "Editor");
    assert_eq!(entry.summary.generic_name, "Text Editor");
    assert_eq!(entry.summary.keywords, vec!["text".to_string(), "code".to_string(), String::new()]);
    assert_eq!(entry.summary.exec_argv, vec!["editor".to_string()]);
    assert_eq!(
        entry.summary.window_app_ids,
        vec!["org.example.Editor".to_string(), "Editor-Main".to_string()]
    );
    assert_eq!(entry.icon_name.as_deref(), Some("editor"));
    assert_eq!(seen, vec!["org.example.Editor".to_string()]);
    assert!(read_catalog_entry("/usr/share/applications/org.example.Editor.desktop", EDITOR, &mut seen).is_none());
}

#[test]
fn hidden_or_unlaunchable_files_are_skipped() {
    let mut seen = Vec::new();
    let hidden = "[Desktop Entry]\nType=Application\nName=H\nExec=h\nNoDisplay=true\n";
    assert!(read_catalog_entry("/a/applications/h.desktop", hidden, &mut seen).is_none());
    let link = "[Desktop Entry]\nType=Link\nName=L\nExec=l\n";
    assert!(read_catalog_entry("/a/applications/l.desktop", link, &mut seen).is_none());
    let no_exec = "[Desktop Entry]\nType=Application\nName=N\n";
    assert!(read_catalog_entry("/a/applications/n.desktop", no_exec, &mut seen).is_none());
    assert!(seen.is_empty());
}

#[test]
fn icon_requests_go_to_the_first_matching_entry_once() {
    let mut seen = Vec::new();
    let editor = read_catalog_entry("/usr/share/applications/org.example.Editor.desktop", EDITOR, &mut seen).unwrap();
    let foot_source = "[Desktop Entry]\nType=Application\nName=Foot\nExec=foot\n";
    let foot = read_catalog_entry("/usr/share/applications/foot.desktop", foot_source, &mut seen).unwrap();
    let entries = vec![editor, foot];
    assert_eq!(entry_for_app_id(&entries, "editor-main"), Some(0));
    assert_eq!(entry_for_app_id(&entries, " Foot.desktop"), Some(1));
    assert_eq!(entry_for_app_id(&entries, "missing"), None);
    let request = vec![
        "foot".to_string(),
        "missing".to_string(),
        "Editor-Main".to_string(),
        "org.example.editor".to_string(),
        "FOOT".to_string(),
    ];
    assert_eq!(icon_targets(&entries, &request), vec![1, 0]);
}

#[test]
fn icon_files_are_at_most_one_mebibyte() {
    assert!(!icon_file_admitted(0));
    assert!(icon_file_admitted(1));
    assert!(icon_file_admitted(1024 * 1024));
    assert!(!icon_file_admitted(1024 * 1024 + 1));
}

#[test]
fn cloned_images_are_the_same_image() {
    let image = UiImage::from_rgba(2, 1, vec![1, 2, 3, 4, 5, 6, 7, 8]).unwrap();
    let copy = image.clone();
    assert_eq!((copy.width(), copy.height()), (2, 1));
    assert_eq!(copy.pixels(), image.pixels());
}

#[test]
fn a_scan_lists_each_application_once() {
    let mut scan = CatalogScan::new();
    assert!(scan.enter_directory(0));
    assert!(!scan.enter_directory(9));
    assert!(scan.read_file("/usr/share/applications/org.example.Editor.desktop", EDITOR, 200, 0));
    assert!(!scan.read_file("/usr/share/applications/org.example.Editor.desktop", EDITOR, 200, 1));
    assert!(!scan.read_file("/usr/share/applications/foot.desktop", EDITOR, 0, 0));
    assert!(!scan.read_file("/usr/share/applications/foot.desktop", EDITOR, 65537, 0));
    assert!(!scan.read_file("/usr/share/applications/foot.desktop", EDITOR, 200, 9));
    assert!(scan.read_file("/usr/share/applications/foot.desktop", EDITOR, 200, 8));
    assert_eq!(scan.listed_count(), 2);
    assert!(scan.may_continue());
    assert!(scan.record_bytes(400));
    let entries = scan.into_entries();
    assert_eq!(entries[0].summary.id, "org.example.Editor");
    assert_eq!(entries[1].summary.id, "foot");
}

#[test]
fn icon_updates_carry_found_icons_once() {
    let mut scan = CatalogScan::new();
    assert!(scan.read_file("/usr/share/applications/org.example.Editor.desktop", EDITOR, 200, 0));
    let entries = scan.into_entries();
    let listing = catalog_listing(&entries);
    assert!(listing.icons.is_empty());
    assert_eq!(listing.applications.as_ref().unwrap().len(), 1);
    assert_eq!(listing.applications.as_ref().unwrap()[0].name, "Editor");
    let targets = icon_targets(&entries, &vec!["editor-main".to_string()]);
    assert_eq!(targets, vec![0]);
    assert!(icon_update(&entries, &targets, vec![None]).is_none());
    let update = icon_update(&entries, &targets, vec![Some(icon())]).unwrap();
    assert!(update.applications.is_none());
    assert_eq!(update.icons.len(), 1);
    assert_eq!(update.icons[0].0, "org.example.Editor");
}
