use std::collections::HashMap;

use clippiboy::audio::{
    ancestors, app_root, audible, configuration_warnings, live_pid, recorded, records_single_applications, resolve,
    Leftovers, Stream,
};
use clippiboy::model::{AudioDevice, AudioSource, DeviceKind, ProcessMode, SourceKind};

/// The pid this program runs under, as the tests hand it in.
const OWN: u32 = 77_777;

fn source(id: &str, solo: bool, muted: bool, separate: bool) -> AudioSource {
    AudioSource {
        id: id.into(),
        label: id.into(),
        kind: SourceKind::InputDevice { device_id: "d".into() },
        enabled: true,
        muted,
        solo,
        separate_track: separate,
    }
}

fn of_kind(id: &str, kind: SourceKind) -> AudioSource {
    AudioSource { kind, ..source(id, false, false, true) }
}

fn output(device_id: &str) -> SourceKind {
    SourceKind::OutputDevice { device_id: device_id.into(), exclude_game: false }
}

fn leftovers(device_id: &str) -> SourceKind {
    output(device_id)
}

fn recording_by_app() -> AudioSource {
    of_kind("the-game", SourceKind::Game)
}

fn app_source(id: &str, pid: u32, exe: Option<&str>) -> AudioSource {
    of_kind(id, SourceKind::Process { pid, exe: exe.map(str::to_string), mode: ProcessMode::Include })
}

fn playing(devices: &[(&str, &[(u32, bool)])]) -> Vec<(String, Vec<(u32, bool)>)> {
    devices.iter().map(|(device, sessions)| ((*device).to_string(), sessions.to_vec())).collect()
}

fn idle(pids: &[u32]) -> Vec<(u32, bool)> {
    pids.iter().map(|pid| (*pid, false)).collect()
}

fn nothing() -> Vec<(String, Vec<(u32, bool)>)> {
    Vec::new()
}

fn ledger(default_device: &str) -> Leftovers {
    Leftovers { default_device: default_device.into(), previous: HashMap::new() }
}

fn tree(processes: &[(u32, u32, &str)]) -> HashMap<u32, (u32, String)> {
    processes.iter().map(|(pid, parent, exe)| (*pid, (*parent, (*exe).to_string()))).collect()
}

fn loose() -> HashMap<u32, (u32, String)> {
    HashMap::new()
}

fn discord() -> HashMap<u32, (u32, String)> {
    tree(&[
        (2584, 5556, "Discord.exe"),
        (30988, 5556, "Discord.exe"),
        (5556, 12800, "Discord.exe"),
        (12800, 0, "explorer.exe"),
    ])
}

fn tapped(pid: u32) -> SourceKind {
    SourceKind::Process { pid, exe: None, mode: ProcessMode::Include }
}

fn pids_of(streams: &[Stream], source_id: &str) -> Vec<u32> {
    let mut out: Vec<u32> = streams
        .iter()
        .filter(|s| s.source_id == source_id)
        .filter_map(|s| match s.kind {
            SourceKind::Process { pid, .. } => Some(pid),
            _ => None,
        })
        .collect();
    out.sort();
    out
}

fn pid_of(streams: &[Stream], source_id: &str) -> Option<u32> {
    streams.iter().find_map(|s| match (&s.source_id, &s.kind) {
        (id, SourceKind::Process { pid, .. }) if id == source_id => Some(*pid),
        _ => None,
    })
}

fn run(
    sources: &[AudioSource],
    game: Option<u32>,
    playing: &[(String, Vec<(u32, bool)>)],
    tree: &HashMap<u32, (u32, String)>,
    ledger: &Leftovers,
) -> Vec<Stream> {
    resolve(sources, game, playing, tree, ledger, OWN)
}

#[test]
fn a_living_process_keeps_its_pid() {
    let sources = vec![app_source("chat", 4321, Some("Discord.exe"))];
    let tree = tree(&[(4321, 1, "Discord.exe")]);
    let streams = run(&sources, None, &nothing(), &tree, &ledger(""));
    assert_eq!(pid_of(&streams, "chat"), Some(4321));
}

#[test]
fn a_restarted_application_is_found_again_by_its_exe() {
    let sources = vec![app_source("chat", 4321, Some("Discord.exe"))];
    let tree = tree(&[(9999, 1, "Discord.exe")]);
    let streams = run(&sources, None, &nothing(), &tree, &ledger(""));
    assert_eq!(pid_of(&streams, "chat"), Some(9999));
}

#[test]
fn a_recycled_pid_is_not_mistaken_for_the_old_process() {
    let sources = vec![app_source("chat", 4321, Some("Discord.exe"))];
    let tree = tree(&[(4321, 1, "notepad.exe"), (7777, 1, "Discord.exe")]);
    let streams = run(&sources, None, &nothing(), &tree, &ledger(""));
    assert_eq!(pid_of(&streams, "chat"), Some(7777));
}

#[test]
fn an_application_that_is_gone_taps_nothing() {
    let sources = vec![app_source("chat", 4321, Some("Discord.exe"))];
    let tree = tree(&[(4321, 1, "notepad.exe")]);
    let streams = run(&sources, None, &nothing(), &tree, &ledger(""));
    assert_eq!(pid_of(&streams, "chat"), None);
}

#[test]
fn a_source_without_an_exe_keeps_the_old_behaviour() {
    let sources = vec![app_source("chat", 4321, None)];
    let streams = run(&sources, None, &nothing(), &loose(), &ledger(""));
    assert_eq!(pid_of(&streams, "chat"), Some(4321));
}

#[test]
fn the_oldest_of_several_namesakes_wins() {
    let sources = vec![app_source("chat", 1, Some("Discord.exe"))];
    let tree = tree(&[(700, 1, "Discord.exe"), (300, 1, "Discord.exe")]);
    let streams = run(&sources, None, &nothing(), &tree, &ledger(""));
    assert_eq!(pid_of(&streams, "chat"), Some(300));
}

#[test]
fn a_rebound_application_is_not_recorded_twice() {
    let sources = vec![app_source("chat", 4321, Some("Discord.exe")), of_kind("system", output("dev-1"))];
    let tree = tree(&[(9999, 1, "Discord.exe"), (5000, 1, "game.exe")]);
    let playing = playing(&[("dev-1", &[(9999, true), (5000, true)])]);
    let streams = run(&sources, None, &playing, &tree, &ledger("dev-1"));
    let leftovers: Vec<u32> = streams
        .iter()
        .filter_map(|s| match (&s.source_id, &s.kind) {
            (id, SourceKind::Process { pid, .. }) if id == "system" => Some(*pid),
            _ => None,
        })
        .collect();
    assert!(!leftovers.contains(&9999), "the rebound Discord is in the leftovers as well: {leftovers:?}");
    assert!(leftovers.contains(&5000), "the game should be in there");
}

fn device(id: &str, name: &str, default: bool) -> AudioDevice {
    AudioDevice { id: id.into(), name: name.into(), kind: DeviceKind::Output, is_default: default }
}

fn labelled(id: &str, label: &str, kind: SourceKind) -> AudioSource {
    AudioSource { label: label.into(), ..of_kind(id, kind) }
}

fn note<'a>(notes: &'a [(String, String)], id: &str) -> Option<&'a String> {
    notes.iter().find(|(source, _)| source == id).map(|(_, text)| text)
}

#[test]
fn a_label_that_does_not_match_the_default_device_is_flagged() {
    let sources = vec![labelled("sys", "System (TC-HELICON GoXLR Mini)", output(""))];
    let devices = vec![device("dev-1", "Speakers (Realtek)", true)];
    let notes = configuration_warnings(&sources, &devices, false, true);
    assert!(note(&notes, "sys").is_some(), "the mismatch has to be said");
    assert!(note(&notes, "sys").unwrap().contains("Speakers (Realtek)"));
}

#[test]
fn a_label_matching_the_default_device_stays_quiet() {
    let sources = vec![labelled("sys", "Speakers (Realtek)", output(""))];
    let devices = vec![device("dev-1", "Speakers (Realtek)", true)];
    assert!(configuration_warnings(&sources, &devices, false, true).is_empty());
}

#[test]
fn a_device_that_is_gone_is_flagged() {
    let sources = vec![labelled("music", "Music (GoXLR)", output("dev-gone"))];
    let devices = vec![device("dev-1", "Speakers", true)];
    let notes = configuration_warnings(&sources, &devices, false, true);
    assert!(note(&notes, "music").unwrap().contains("not connected"));
}

#[test]
fn a_device_that_is_there_stays_quiet() {
    let sources = vec![labelled("music", "Music (GoXLR)", output("dev-1"))];
    let devices = vec![device("dev-1", "Music (GoXLR)", false)];
    assert!(configuration_warnings(&sources, &devices, false, true).is_empty());
}

#[test]
fn the_game_source_says_when_there_is_no_game() {
    let sources = vec![of_kind("game", SourceKind::Game)];
    let notes = configuration_warnings(&sources, &[], false, true);
    assert!(note(&notes, "game").unwrap().contains("no game detected"));
    assert!(configuration_warnings(&sources, &[], true, true).is_empty());
    assert!(configuration_warnings(&sources, &[], false, false).is_empty());
}

#[test]
fn a_disabled_source_is_never_flagged() {
    let mut source = labelled("music", "Music (GoXLR)", output("dev-gone"));
    source.enabled = false;
    assert!(configuration_warnings(&[source], &[], false, true).is_empty());
}

#[test]
fn solo_silences_the_others() {
    let sources = vec![source("a", false, false, false), source("b", true, false, false)];
    assert!(!audible(&sources, &sources[0]));
    assert!(audible(&sources, &sources[1]));
}

#[test]
fn a_muted_source_is_still_recorded() {
    let sources = vec![source("mic", false, true, true)];
    assert_eq!(recorded(&sources).len(), 1);
    assert!(!audible(&sources, &sources[0]));
}

#[test]
fn the_main_mix_is_not_recorded_as_one() {
    let sources =
        vec![source("game", false, false, false), source("discord", false, false, true), source("mic", false, false, true)];
    assert_eq!(recorded(&sources).len(), 3);
}

#[test]
fn the_game_source_takes_the_detected_pid() {
    let streams = run(&[of_kind("game", SourceKind::Game)], Some(4711), &nothing(), &loose(), &ledger(""));
    assert_eq!(streams.len(), 1);
    assert_eq!(streams[0].source_id, "game");
    assert_eq!(streams[0].kind, tapped(4711));
}

#[test]
fn without_a_game_the_game_source_drops_out() {
    let sources =
        vec![of_kind("game", SourceKind::Game), of_kind("mic", SourceKind::InputDevice { device_id: "m".into() })];
    let streams = run(&sources, None, &nothing(), &loose(), &ledger(""));
    assert_eq!(streams.len(), 1);
    assert_eq!(streams[0].source_id, "mic");
}

#[test]
fn the_leftovers_become_one_stream_per_application() {
    let sources = vec![recording_by_app(), of_kind("rest", leftovers("spk"))];
    let streams = run(&sources, None, &playing(&[("spk", &idle(&[10, 11, 12]))]), &loose(), &ledger("spk"));
    assert_eq!(pids_of(&streams, "rest"), vec![10, 11, 12]);
}

#[test]
fn the_leftovers_leave_out_what_is_recorded_elsewhere() {
    let sources = vec![
        of_kind("game", SourceKind::Game),
        of_kind("discord", tapped(11)),
        of_kind("rest", leftovers("spk")),
    ];
    let streams = run(&sources, Some(10), &playing(&[("spk", &idle(&[10, 11, 12, 13]))]), &loose(), &ledger("spk"));
    assert_eq!(pids_of(&streams, "rest"), vec![12, 13]);
    assert_eq!(pids_of(&streams, "game"), vec![10]);
    assert_eq!(pids_of(&streams, "discord"), vec![11]);
}

#[test]
fn an_application_goes_where_it_is_actually_playing() {
    let sources =
        vec![recording_by_app(), of_kind("system", leftovers("system")), of_kind("chat", leftovers("chat"))];
    let streams = run(
        &sources,
        None,
        &playing(&[("system", &[(5556, false), (900, true)]), ("chat", &[(5556, true)])]),
        &loose(),
        &ledger("system"),
    );
    assert_eq!(pids_of(&streams, "chat"), vec![5556]);
    assert_eq!(pids_of(&streams, "system"), vec![900]);
}

#[test]
fn something_playing_nowhere_lands_on_the_default_device() {
    let sources =
        vec![recording_by_app(), of_kind("chat", leftovers("chat")), of_kind("system", leftovers("system"))];
    let streams = run(
        &sources,
        None,
        &playing(&[("chat", &idle(&[33264])), ("system", &idle(&[33264]))]),
        &loose(),
        &ledger("system"),
    );
    assert_eq!(pids_of(&streams, "system"), vec![33264]);
    assert!(pids_of(&streams, "chat").is_empty());
}

#[test]
fn a_moment_of_silence_does_not_move_an_application() {
    let sources =
        vec![recording_by_app(), of_kind("system", leftovers("system")), of_kind("chat", leftovers("chat"))];
    let quiet_everywhere = playing(&[("system", &idle(&[5556])), ("chat", &idle(&[5556]))]);
    let mut ledger = ledger("system");
    ledger.previous.insert(5556, "chat".into());

    let streams = run(&sources, None, &quiet_everywhere, &loose(), &ledger);
    assert_eq!(pids_of(&streams, "chat"), vec![5556]);
    assert!(pids_of(&streams, "system").is_empty());
}

#[test]
fn an_application_with_two_sessions_is_tapped_once() {
    let sources = vec![recording_by_app(), of_kind("rest", leftovers("spk"))];
    let streams = run(&sources, None, &playing(&[("spk", &idle(&[2584, 30988]))]), &discord(), &ledger("spk"));
    assert_eq!(pids_of(&streams, "rest"), vec![5556]);
}

#[test]
fn the_leftovers_skip_a_child_of_a_recorded_application() {
    let sources = vec![of_kind("discord", tapped(5556)), of_kind("rest", leftovers("spk"))];
    let mut processes = discord();
    processes.insert(40944, (0, "VALORANT-Win64-Shipping.exe".into()));
    let streams =
        run(&sources, None, &playing(&[("spk", &idle(&[2584, 30988, 40944]))]), &processes, &ledger("spk"));
    assert_eq!(pids_of(&streams, "rest"), vec![40944]);
}

#[test]
fn a_tap_is_never_nested_inside_another() {
    let processes = tree(&[(33264, 0, "steam.exe"), (12604, 33264, "steamwebhelper.exe")]);
    let sources = vec![recording_by_app(), of_kind("rest", leftovers("spk"))];
    let streams = run(&sources, None, &playing(&[("spk", &idle(&[12604, 33264]))]), &processes, &ledger("spk"));
    assert_eq!(pids_of(&streams, "rest"), vec![33264]);
}

#[test]
fn the_leftovers_never_record_clippiboy_itself() {
    let sources = vec![recording_by_app(), of_kind("rest", leftovers("spk"))];
    let streams = run(&sources, None, &playing(&[("spk", &idle(&[OWN, OWN + 1]))]), &loose(), &ledger("spk"));
    assert_eq!(pids_of(&streams, "rest"), vec![OWN + 1]);
}

#[test]
fn disabled_sources_produce_no_streams() {
    let mut source = of_kind("mic", SourceKind::InputDevice { device_id: "m".into() });
    source.enabled = false;
    assert!(run(&[source], Some(1), &nothing(), &loose(), &ledger("")).is_empty());
}

#[test]
fn devices_pass_through_while_nothing_is_recorded_per_application() {
    let sources =
        vec![of_kind("mic", SourceKind::InputDevice { device_id: "m".into() }), of_kind("desktop", output("speakers"))];
    let streams = run(&sources, Some(1234), &nothing(), &loose(), &ledger(""));
    assert_eq!(streams.len(), 2);
    for (before, after) in sources.iter().zip(&streams) {
        assert_eq!(before.id, after.source_id);
        assert_eq!(before.kind, after.kind);
    }
}

#[test]
fn one_application_source_turns_every_device_into_its_leftovers() {
    let sources = vec![of_kind("discord", tapped(7)), of_kind("desktop", output("speakers"))];
    let streams = run(&sources, None, &playing(&[("speakers", &idle(&[7, 8]))]), &loose(), &ledger("speakers"));
    assert_eq!(pids_of(&streams, "discord"), vec![7]);
    assert_eq!(pids_of(&streams, "desktop"), vec![8]);
    assert!(!streams.iter().any(|s| matches!(s.kind, SourceKind::OutputDevice { .. })));
}

#[test]
fn every_recorded_track_has_its_streams() {
    let sources = vec![
        of_kind("game", SourceKind::Game),
        of_kind("rest", leftovers("spk")),
        of_kind("mic", SourceKind::InputDevice { device_id: "m".into() }),
    ];
    assert_eq!(recorded(&sources).len(), 3);

    let streams = run(&sources, Some(10), &playing(&[("spk", &idle(&[10, 12]))]), &loose(), &ledger("spk"));
    for source in recorded(&sources) {
        assert!(streams.iter().any(|s| s.source_id == source.id), "track '{}' has no stream", source.id);
    }
}

#[test]
fn the_process_tree_is_walked_by_name() {
    let t = discord();
    assert_eq!(app_root(2584, &t), 5556);
    assert_eq!(app_root(12800, &t), 12800);
    assert_eq!(ancestors(2584, &t), vec![5556, 12800]);
    assert_eq!(live_pid(1, Some("DISCORD.EXE"), &t), Some(2584));
    assert!(records_single_applications(&[recording_by_app()]));
    assert!(!records_single_applications(&[of_kind("x", output("spk"))]));
}
