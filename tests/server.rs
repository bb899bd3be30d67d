use cs2_server_prestarter::counter_strike::{
    check_server_launch, connect_url, get_available_maps, server_args, server_envs,
    ServerSettings, CS2APPID, MAP_EXT,
};
use cs2_server_prestarter::steam::ServerCreationError;
use cs2_server_prestarter::utils::{bool_to_str, seconds_to_minutes_str, u64_to_str};

fn names(v: &[&str]) -> Vec<Option<String>> {
    v.iter().map(|s| Some(s.to_string())).collect()
}

#[test]
fn maps_filtered_and_stripped() {
    let mut maps = get_available_maps(Some(names(&["de_dust2.vpk", "de_mirage.vpk", "readme.txt"])))
        .unwrap();
    maps.sort();
    assert_eq!(maps, vec!["de_dust2".to_string(), "de_mirage".to_string()]);
}

#[test]
fn maps_keep_listing_order() {
    let maps = get_available_maps(Some(names(&["b.vpk", "a.vpk", "vpk", ".vpk"]))).unwrap();
    assert_eq!(maps, vec!["b".to_string(), "a".to_string(), "".to_string()]);
}

#[test]
fn maps_missing_directory_is_none() {
    assert_eq!(get_available_maps(None), None);
}

#[test]
fn maps_empty_directory_is_empty_list() {
    assert_eq!(get_available_maps(Some(Vec::new())), Some(Vec::new()));
}

#[test]
fn maps_skip_unreadable_entries() {
    let listing = vec![None, Some("de_nuke.vpk".to_string()), None, Some("notes.vpk.txt".to_string())];
    assert_eq!(get_available_maps(Some(listing)), Some(vec!["de_nuke".to_string()]));
}

#[test]
fn launch_without_binary_fails_first() {
    assert_eq!(check_server_launch(false, true), Err(ServerCreationError::NoExecutableFound));
    assert_eq!(check_server_launch(false, false), Err(ServerCreationError::NoExecutableFound));
}

#[test]
fn launch_on_other_platform_fails() {
    assert_eq!(check_server_launch(true, false), Err(ServerCreationError::UnsupportedOS));
}

#[test]
fn launch_allowed() {
    assert_eq!(check_server_launch(true, true), Ok(()));
}

#[test]
fn minutes_text_values() {
    assert_eq!(seconds_to_minutes_str(115), "1.92");
    assert_eq!(seconds_to_minutes_str(0), "0.00");
    assert_eq!(seconds_to_minutes_str(60), "1.00");
    assert_eq!(seconds_to_minutes_str(90), "1.50");
    assert_eq!(seconds_to_minutes_str(100), "1.67");
    assert_eq!(seconds_to_minutes_str(3600), "60.00");
    assert_eq!(seconds_to_minutes_str(u32::MAX), "71582788.25");
}

#[test]
fn flag_values() {
    assert_eq!(bool_to_str(true), "1");
    assert_eq!(bool_to_str(false), "0");
}

#[test]
fn decimal_values() {
    assert_eq!(u64_to_str(0), "0");
    assert_eq!(u64_to_str(730), "730");
    assert_eq!(u64_to_str(u64::MAX), "18446744073709551615");
}

#[test]
fn default_settings_arguments() {
    let args = server_args(&ServerSettings::default());
    let expected = [
        "-dedicated", "-insecure", "+map", "de_dust2", "+mp_autokick", "1", "+mp_buy_anywhere",
        "0", "+mp_buytime", "15", "+mp_c4timer", "40", "+mp_freezetime", "20",
        "+mp_friendlyfire", "1", "+mp_maxrounds", "32", "+mp_randomspawn", "0",
        "+mp_roundtime", "1.92", "+mp_warmuptime", "15", "+mp_endwarmup_player_count", "2",
        "+sv_minupdaterate", "64", "+sv_password", "0",
    ];
    assert_eq!(args, expected.iter().map(|s| s.to_string()).collect::<Vec<String>>());
}

#[test]
fn edited_settings_arguments() {
    let mut s = ServerSettings::default();
    s.map_name = "de_inferno".to_string();
    s.mp_friendlyfire = false;
    s.mp_buy_anywhere = 3;
    s.mp_roundtime = 90;
    s.sv_password = "hunter".to_string();
    let args = server_args(&s);
    assert_eq!(args[3], "de_inferno");
    assert_eq!(args[7], "3");
    assert_eq!(args[15], "0");
    assert_eq!(args[21], "1.50");
    assert_eq!(args[29], "hunter");
    assert_eq!(args.len(), 30);
}

#[test]
fn environment_holds_game_mode() {
    let mut s = ServerSettings::default();
    s.game_alias = "wingman".to_string();
    assert_eq!(server_envs(&s), vec![("game_alias".to_string(), "wingman".to_string())]);
}

#[test]
fn connect_link() {
    assert_eq!(connect_url(&"0".to_string()), "steam://connect/127.0.0.1:27015/0");
}

#[test]
fn layout_constants() {
    assert_eq!(CS2APPID, 730);
    assert_eq!(MAP_EXT, ".vpk");
}
