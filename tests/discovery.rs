use cs2_server_prestarter::steam::{
    get_available_apps, get_steam_apps_id_with_paths, get_steam_dir_for_app, resolve, AppRecord,
    DiscoveryError, LibraryIndex, ReadyState,
};

fn rec(app_id: u32, dir: &str) -> AppRecord {
    AppRecord { app_id, name: Some(format!("app {}", app_id)), install_dir: dir.to_string() }
}

fn ids_and_dirs(index: &LibraryIndex) -> Vec<(u32, String)> {
    (0..index.len()).map(|i| (index.entry(i).app_id, index.entry(i).install_dir.clone())).collect()
}

fn two_apps() -> LibraryIndex {
    LibraryIndex::from_records(vec![rec(200, "/b"), rec(100, "/a")])
}

#[test]
fn index_sorted_by_id() {
    let index = LibraryIndex::from_records(vec![rec(730, "/c"), rec(10, "/x"), rec(440, "/t")]);
    assert_eq!(
        ids_and_dirs(&index),
        vec![(10, "/x".to_string()), (440, "/t".to_string()), (730, "/c".to_string())]
    );
}

#[test]
fn index_last_writer_wins() {
    let index = LibraryIndex::from_records(vec![rec(5, "/first"), rec(7, "/seven"), rec(5, "/second")]);
    assert_eq!(ids_and_dirs(&index), vec![(5, "/second".to_string()), (7, "/seven".to_string())]);
}

#[test]
fn index_of_empty_scan_is_empty() {
    let index = LibraryIndex::from_records(Vec::new());
    assert_eq!(index.len(), 0);
}

#[test]
fn index_independent_of_scan_order() {
    let a = LibraryIndex::from_records(vec![rec(3, "/c"), rec(1, "/a"), rec(2, "/b")]);
    let b = LibraryIndex::from_records(vec![rec(2, "/b"), rec(3, "/c"), rec(1, "/a")]);
    assert_eq!(ids_and_dirs(&a), ids_and_dirs(&b));
}

#[test]
fn available_apps_passes_errors_through() {
    let r = get_available_apps(Err(DiscoveryError::PlatformNotFound));
    assert!(matches!(r, Err(DiscoveryError::PlatformNotFound)));
    let ok = get_available_apps(Ok(vec![rec(9, "/n"), rec(4, "/f")])).unwrap();
    assert_eq!(ids_and_dirs(&ok), vec![(4, "/f".to_string()), (9, "/n".to_string())]);
}

#[test]
fn id_paths_listing() {
    assert_eq!(
        get_steam_apps_id_with_paths(&two_apps()),
        vec![(100, "/a".to_string()), (200, "/b".to_string())]
    );
}

#[test]
fn dir_for_present_app() {
    assert_eq!(get_steam_dir_for_app(&200, &two_apps()).unwrap(), "/b");
}

#[test]
fn dir_for_missing_app() {
    let r = get_steam_dir_for_app(&999, &two_apps());
    assert!(matches!(r, Err(DiscoveryError::MissingTarget { app_id: 999 })));
}

#[test]
fn find_returns_record() {
    let index = two_apps();
    assert_eq!(index.find(100).unwrap().name.as_deref(), Some("app 100"));
    assert!(index.find(150).is_none());
}

#[test]
fn resolve_ready_when_present() {
    let r = resolve(100, Ok(two_apps()));
    assert_eq!(r.state, ReadyState::Ready);
    assert_eq!(r.game_path, "/a");
    assert_eq!(r.error_title, "");
    assert_eq!(r.error_msg, "");
    assert_eq!(r.available_apps.len(), 0);
}

#[test]
fn resolve_no_game_lists_sorted_apps() {
    let r = resolve(999, Ok(two_apps()));
    assert_eq!(r.state, ReadyState::NoGame);
    assert_eq!(r.error_title, "Game not found");
    assert!(r.error_msg.contains("999"));
    assert_eq!(r.error_msg, "Unable to find app with id 999. \nAre you sure it is installed?");
    assert_eq!(r.game_path, "");
    assert_eq!(
        ids_and_dirs(&r.available_apps),
        vec![(100, "/a".to_string()), (200, "/b".to_string())]
    );
}

#[test]
fn resolve_no_game_on_empty_platform() {
    let r = resolve(730, Ok(LibraryIndex::from_records(Vec::new())));
    assert_eq!(r.state, ReadyState::NoGame);
    assert_eq!(r.available_apps.len(), 0);
}

#[test]
fn resolve_no_steam_when_platform_missing() {
    for err in [DiscoveryError::PlatformNotFound, DiscoveryError::InvalidRoot] {
        let r = resolve(730, Err(err));
        assert_eq!(r.state, ReadyState::NoSteam);
        assert_eq!(r.error_title, "Steam not found");
        assert_eq!(
            r.error_msg,
            "Unable to find SteamLibrary directory. Are you sure you have Steam installed?"
        );
        assert_eq!(r.game_path, "");
        assert_eq!(r.available_apps.len(), 0);
    }
}

#[test]
fn resolve_missing_target_error() {
    let r = resolve(730, Err(DiscoveryError::MissingTarget { app_id: 42 }));
    assert_eq!(r.state, ReadyState::NoGame);
    assert_eq!(r.error_msg, "Unable to find app with id 42. \nAre you sure it is installed?");
}

#[test]
fn resolve_unknown_error_verbatim() {
    let r = resolve(730, Err(DiscoveryError::Unknown { message: "disk on fire".to_string() }));
    assert_eq!(r.state, ReadyState::NoSteam);
    assert_eq!(r.error_title, "Unknown error");
    assert_eq!(r.error_msg, "Unknown error occurred: disk on fire");
}

#[test]
fn resolve_twice_same_outcome() {
    let a = resolve(999, Ok(two_apps()));
    let b = resolve(999, Ok(two_apps()));
    assert_eq!(a.state, b.state);
    assert_eq!(a.error_title, b.error_title);
    assert_eq!(a.error_msg, b.error_msg);
    assert_eq!(a.game_path, b.game_path);
    assert_eq!(ids_and_dirs(&a.available_apps), ids_and_dirs(&b.available_apps));
}
