//! The game's install layout: its map assets, the server's command line and
//! environment, and the checks made before the server is started.

use crate::steam::ServerCreationError;
use crate::utils::{bool_to_str, decimal, flag_text, minutes_text, seconds_to_minutes_str, u64_to_str};
use vstd::prelude::*;

verus! {

/// The game's app id on the platform.
pub const CS2APPID: u32 = 730;

/// The file extension of a packaged map.
pub const MAP_EXT: &'static str = ".vpk";

/// Where the maps lie, relative to the install directory.
pub const MAPS_DIR_PATH: &'static str = "game/csgo/maps";

/// Where the server binary lies, relative to the install directory.
pub const BINARY_DIR_PATH: &'static str = "game/bin/win64";

/// The server binary's file name.
pub const BINARY_NAME: &'static str = "cs2.exe";

/// The file name is that of a packaged map.
pub open spec fn is_map_file(name: Seq<char>) -> bool {
    name.len() >= MAP_EXT@.len() && name.subrange(name.len() - MAP_EXT@.len(), name.len() as int)
        == MAP_EXT@
}

/// The map's name: the file name without the extension.
pub open spec fn map_name_of(name: Seq<char>) -> Seq<char> {
    name.subrange(0, name.len() - MAP_EXT@.len())
}

/// The maps among the entries of a directory listing, in listing order; an
/// entry that could not be read (`None`) is skipped.
pub open spec fn maps_in(entries: Seq<Option<String>>) -> Seq<Seq<char>>
    decreases entries.len(),
{
    if entries.len() == 0 {
        Seq::empty()
    } else {
        let rest = maps_in(entries.drop_last());
        match entries.last() {
            Some(name) => if is_map_file(name@) {
                rest.push(map_name_of(name@))
            } else {
                rest
            },
            None => rest,
        }
    }
}

/// The map's name, if the file name is that of a packaged map.
fn map_name(name: &String) -> (r: Option<String>)
    ensures
        match r {
            Some(m) => is_map_file(name@) && m@ == map_name_of(name@),
            None => !is_map_file(name@),
        },
{
    let n = name.as_str().unicode_len();
    let k = MAP_EXT.unicode_len();
    if n < k {
        return None;
    }
    let mut i: usize = 0;
    while i < k
        invariant
            k == MAP_EXT@.len(),
            n == name@.len(),
            k <= n,
            i <= k,
            forall|j: int| 0 <= j < i ==> name@[n - k + j] == MAP_EXT@[j],
        decreases k - i,
    {
        if name.as_str().get_char(n - k + i) != MAP_EXT.get_char(i) {
            assert(name@.subrange(n - k, n as int)[i as int] != MAP_EXT@[i as int]);
            return None;
        }
        i += 1;
    }
    assert(name@.subrange(n - k, n as int) =~= MAP_EXT@);
    Some(String::from_str(name.as_str().substring_char(0, n - k)))
}

/// The maps of a listing of the maps directory, in listing order, each by its
/// name without the extension; entries that could not be read are skipped.
/// A directory that could not be read (`None`) gives `None`, not an empty
/// list.
pub fn get_available_maps(listing: Option<Vec<Option<String>>>) -> (r: Option<Vec<String>>)
    ensures
        match listing {
            None => r is None,
            Some(entries) => r matches Some(maps) && maps@.map_values(|m: String| m@)
                == maps_in(entries@),
        },
{
    match listing {
        None => None,
        Some(entries) => {
            let mut maps: Vec<String> = Vec::new();
            let mut i: usize = 0;
            while i < entries.len()
                invariant
                    i <= entries@.len(),
                    maps@.map_values(|m: String| m@) == maps_in(entries@.take(i as int)),
                decreases entries@.len() - i,
            {
                assert(entries@.take(i + 1).drop_last() =~= entries@.take(i as int));
                match &entries[i] {
                    Some(name) => match map_name(name) {
                        Some(m) => {
                            maps.push(m);
                        },
                        None => {},
                    },
                    None => {},
                }
                assert(maps@.map_values(|m: String| m@) =~= maps_in(entries@.take(i + 1)));
                i += 1;
            }
            assert(entries@.take(entries@.len() as int) =~= entries@);
            Some(maps)
        },
    }
}

/// Decides whether the server may be started: the binary must be present
/// (checked first), and the host must be the system the server runs on.
pub fn check_server_launch(executable_exists: bool, platform_supported: bool) -> (r: Result<
    (),
    ServerCreationError,
>)
    ensures
        r == (if !executable_exists {
            Err(ServerCreationError::NoExecutableFound)
        } else if !platform_supported {
            Err(ServerCreationError::UnsupportedOS)
        } else {
            Ok(())
        }),
{
    if !executable_exists {
        return Err(ServerCreationError::NoExecutableFound);
    }
    if !platform_supported {
        return Err(ServerCreationError::UnsupportedOS);
    }
    Ok(())
}

/// The server settings that a user edits before starting the server.
pub struct ServerSettings {
    /// Kick players that idle or hurt their team.
    pub mp_autokick: bool,
    /// Where buying is allowed: 0 buy zones only, 1 anywhere for all teams,
    /// 2 anywhere for terrorists, 3 anywhere for counter-terrorists.
    pub mp_buy_anywhere: u8,
    /// Seconds to buy after the freeze time.
    pub mp_buytime: u32,
    /// Seconds from planting to explosion.
    pub mp_c4timer: u32,
    /// Seconds of freeze before a round.
    pub mp_freezetime: u32,
    pub mp_friendlyfire: bool,
    /// Rounds in a match, both teams together.
    pub mp_maxrounds: u32,
    /// Random spawns: 0 none, 1 everyone, 2 terrorists, 3 counter-terrorists.
    pub mp_randomspawn: u8,
    /// Seconds in a round.
    pub mp_roundtime: u32,
    /// Seconds of warmup.
    pub mp_warmuptime: u32,
    /// Players whose arrival ends the warmup.
    pub mp_endwarmup_player_count: u32,
    /// The server's minimal update rate.
    pub sv_minupdaterate: u32,
    /// The password to join, `0` for none.
    pub sv_password: String,
    /// The game mode, handed to the server in its environment.
    pub game_alias: String,
    /// The map to start on.
    pub map_name: String,
}

impl Default for ServerSettings {
    fn default() -> (r: Self)
        ensures
            r.mp_autokick,
            r.mp_buy_anywhere == 0,
            r.mp_buytime == 15,
            r.mp_c4timer == 40,
            r.mp_freezetime == 20,
            r.mp_friendlyfire,
            r.mp_maxrounds == 32,
            r.mp_randomspawn == 0,
            r.mp_roundtime == 115,
            r.mp_warmuptime == 15,
            r.mp_endwarmup_player_count == 2,
            r.sv_minupdaterate == 64,
            r.sv_password@ == "0"@,
            r.game_alias@ == "competitive"@,
            r.map_name@ == "de_dust2"@,
    {
        ServerSettings {
            mp_autokick: true,
            mp_buy_anywhere: 0,
            mp_buytime: 15,
            mp_c4timer: 40,
            mp_freezetime: 20,
            mp_friendlyfire: true,
            mp_maxrounds: 32,
            mp_randomspawn: 0,
            mp_roundtime: 115,
            mp_warmuptime: 15,
            mp_endwarmup_player_count: 2,
            sv_minupdaterate: 64,
            sv_password: String::from_str("0"),
            game_alias: String::from_str("competitive"),
            map_name: String::from_str("de_dust2"),
        }
    }
}

/// The views of a list of strings.
pub open spec fn texts(v: Seq<String>) -> Seq<Seq<char>> {
    v.map_values(|a: String| a@)
}

/// The server's command line, after the binary: the dedicated and insecure
/// flags, then each setting as a `+name value` pair; the round time goes in
/// minutes.
pub open spec fn server_arguments(s: ServerSettings) -> Seq<Seq<char>> {
    seq!["-dedicated"@, "-insecure"@] + seq!["+map"@, s.map_name@] + seq![
        "+mp_autokick"@,
        flag_text(s.mp_autokick),
    ] + seq!["+mp_buy_anywhere"@, decimal(s.mp_buy_anywhere as nat)] + seq![
        "+mp_buytime"@,
        decimal(s.mp_buytime as nat),
    ] + seq!["+mp_c4timer"@, decimal(s.mp_c4timer as nat)] + seq![
        "+mp_freezetime"@,
        decimal(s.mp_freezetime as nat),
    ] + seq!["+mp_friendlyfire"@, flag_text(s.mp_friendlyfire)] + seq![
        "+mp_maxrounds"@,
        decimal(s.mp_maxrounds as nat),
    ] + seq!["+mp_randomspawn"@, decimal(s.mp_randomspawn as nat)] + seq![
        "+mp_roundtime"@,
        minutes_text(s.mp_roundtime as nat),
    ] + seq!["+mp_warmuptime"@, decimal(s.mp_warmuptime as nat)] + seq![
        "+mp_endwarmup_player_count"@,
        decimal(s.mp_endwarmup_player_count as nat),
    ] + seq!["+sv_minupdaterate"@, decimal(s.sv_minupdaterate as nat)] + seq![
        "+sv_password"@,
        s.sv_password@,
    ]
}

fn push_pair(args: &mut Vec<String>, first: &str, second: String)
    ensures
        texts(final(args)@) == texts(old(args)@) + seq![first@, second@],
{
    let ghost before = args@;
    args.push(String::from_str(first));
    args.push(second);
    assert(texts(args@) =~= texts(before) + seq![first@, second@]);
}

/// The command line that starts the server with these settings.
pub fn server_args(settings: &ServerSettings) -> (r: Vec<String>)
    ensures
        texts(r@) == server_arguments(*settings),
{
    let mut args: Vec<String> = Vec::new();
    assert(texts(args@) =~= Seq::empty());
    push_pair(&mut args, "-dedicated", String::from_str("-insecure"));
    push_pair(&mut args, "+map", settings.map_name.clone());
    push_pair(&mut args, "+mp_autokick", bool_to_str(settings.mp_autokick));
    push_pair(&mut args, "+mp_buy_anywhere", u64_to_str(settings.mp_buy_anywhere as u64));
    push_pair(&mut args, "+mp_buytime", u64_to_str(settings.mp_buytime as u64));
    push_pair(&mut args, "+mp_c4timer", u64_to_str(settings.mp_c4timer as u64));
    push_pair(&mut args, "+mp_freezetime", u64_to_str(settings.mp_freezetime as u64));
    push_pair(&mut args, "+mp_friendlyfire", bool_to_str(settings.mp_friendlyfire));
    push_pair(&mut args, "+mp_maxrounds", u64_to_str(settings.mp_maxrounds as u64));
    push_pair(&mut args, "+mp_randomspawn", u64_to_str(settings.mp_randomspawn as u64));
    push_pair(&mut args, "+mp_roundtime", seconds_to_minutes_str(settings.mp_roundtime));
    push_pair(&mut args, "+mp_warmuptime", u64_to_str(settings.mp_warmuptime as u64));
    push_pair(
        &mut args,
        "+mp_endwarmup_player_count",
        u64_to_str(settings.mp_endwarmup_player_count as u64),
    );
    push_pair(&mut args, "+sv_minupdaterate", u64_to_str(settings.sv_minupdaterate as u64));
    push_pair(&mut args, "+sv_password", settings.sv_password.clone());
    assert(texts(args@) =~= server_arguments(*settings));
    args
}

/// The environment added for the server: the game mode under `game_alias`.
pub fn server_envs(settings: &ServerSettings) -> (r: Vec<(String, String)>)
    ensures
        r@.len() == 1,
        r@[0].0@ == "game_alias"@,
        r@[0].1@ == settings.game_alias@,
{
    let mut envs: Vec<(String, String)> = Vec::new();
    envs.push((String::from_str("game_alias"), settings.game_alias.clone()));
    envs
}

/// The link that joins the local server with the password.
pub fn connect_url(password: &String) -> (r: String)
    ensures
        r@ == "steam://connect/127.0.0.1:27015/"@ + password@,
{
    String::from_str("steam://connect/127.0.0.1:27015/").concat(password.as_str())
}

} // verus!
