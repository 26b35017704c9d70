use clippiboy::game::{
    clean_title, find_game, find_suffix, from_exe, game_table, is_foreign_title, is_ignored, is_ignored_name, is_known_exe,
    known_games, layered_games, normalize_name, TITLE_SUFFIXES,
    resolve_name, resolve_name_checked, strip_invisibles, try_clean_title,
};

/// The part of the list of known games these cases speak of.
fn games() -> Vec<(String, String)> {
    known_games(vec![
        ("cs2.exe".to_string(), "Counter-Strike 2".to_string()),
        ("EldenRing.exe".to_string(), "Elden Ring".to_string()),
    ])
}

fn resolve(exe: &str, title: &str, fullscreen: bool) -> Option<String> {
    resolve_name_checked(exe, title, fullscreen, &games()).expect("the title can be trimmed")
}

#[test]
fn known_exe_wins_over_the_window_title() {
    assert_eq!(resolve("cs2.exe", "Counter-Strike 2 - Direct3D 11", false).as_deref(), Some("Counter-Strike 2"));
}

#[test]
fn exe_lookup_ignores_case() {
    assert_eq!(resolve("CS2.EXE", "", false).as_deref(), Some("Counter-Strike 2"));
}

#[test]
fn ignored_apps_are_never_a_game() {
    assert_eq!(resolve("discord.exe", "Discord", true), None);
    assert_eq!(resolve("clippiboy.exe", "ClippiBoy", true), None);
    assert_eq!(resolve("CHROME.EXE", "YouTube", true), None);
}

#[test]
fn unknown_app_counts_only_in_fullscreen() {
    assert_eq!(resolve("unknown.exe", "Some Game", false), None);
    assert_eq!(resolve("unknown.exe", "Some Game", true).as_deref(), Some("Some Game"));
}

#[test]
fn unknown_app_without_title_falls_back_to_the_exe() {
    assert_eq!(resolve("no_hesi.exe", "", true).as_deref(), Some("No Hesi"));
}

#[test]
fn suffixes_and_versions_are_trimmed() {
    assert_eq!(clean_title("Minecraft 1.21.4"), "Minecraft");
    assert_eq!(clean_title("My Game (64-bit) - Steam"), "My Game");
    assert_eq!(clean_title("Assetto Corsa - DirectX 11"), "Assetto Corsa");
    assert_eq!(clean_title("  Game v2.0  "), "Game");
}

#[test]
fn a_number_that_belongs_to_the_name_survives() {
    assert_eq!(clean_title("Counter-Strike 2"), "Counter-Strike 2");
    assert_eq!(clean_title("Half-Life 2"), "Half-Life 2");
}

#[test]
fn foreign_windows_do_not_become_a_game() {
    assert_eq!(resolve("unknown.exe", "(102) WIR MÜSSEN PAYEN - YouTube – Opera", true), None);
    assert_eq!(resolve("unknown.exe", "C:\\Users\\fabia\\projects\\clippiboy\\synctest.mp4", true), None);
    assert_eq!(resolve("unknown.exe", "Snipping Tool Überlagerung", true), None);
    assert!(is_ignored("SnippingTool.exe"));
}

#[test]
fn a_known_game_survives_a_foreign_looking_title() {
    assert_eq!(resolve("cs2.exe", "whatever.mp4", true).as_deref(), Some("Counter-Strike 2"));
}

#[test]
fn unread_counters_are_trimmed() {
    assert_eq!(clean_title("(3) My Game"), "My Game");
    assert_eq!(clean_title("(Beta) My Game"), "(Beta) My Game");
}

const ARC_RAIDERS: [&str; 4] = [
    "A\u{200b}\u{200b}\u{200b}\u{200b}R\u{feff}C\u{200b}\u{200b}\u{2005}\u{feff}\u{200b}\u{200b}\u{feff}\u{200b}\u{200b}\u{feff}\u{feff}Raid\u{feff}\u{200b}\u{200b}e\u{200b}\u{200b}rs",
    "A\u{200b}\u{200b}\u{feff}R\u{200b}\u{200b}C\u{2005}\u{200b}\u{200b}\u{200b}R\u{200b}\u{200b}ai\u{200b}\u{200b}\u{200b}\u{200b}\u{200b}\u{200b}\u{200b}\u{200b}de\u{200b}\u{200b}rs",
    "A\u{feff}RC\u{2005}\u{200b}\u{200b}\u{200b}\u{200b}\u{feff}Ra\u{feff}\u{feff}\u{feff}\u{200b}\u{200b}i\u{200b}d\u{200b}\u{200b}e\u{200b}r\u{200b}\u{feff}\u{200b}\u{200b}s",
    "\u{200b}A\u{200b}\u{200b}\u{feff}\u{feff}\u{200b}RC\u{200b}\u{200b} \u{200b}R\u{200b}a\u{200b}\u{200b}i\u{200b}d\u{feff}er\u{200b}\u{200b}\u{200b}\u{200b}\u{feff}s",
];

#[test]
fn invisible_characters_do_not_make_a_new_game() {
    for title in ARC_RAIDERS {
        assert_eq!(clean_title(title), "ARC Raiders", "from {title:?}");
    }
}

#[test]
fn all_four_real_variants_collapse_into_one_name() {
    let names: std::collections::HashSet<String> = ARC_RAIDERS.iter().map(|t| clean_title(t)).collect();
    assert_eq!(names.len(), 1, "still fragmented: {names:?}");
}

#[test]
fn a_title_of_nothing_but_invisibles_falls_back_to_the_exe() {
    assert_eq!(resolve("eldenring.exe", "\u{200b}\u{feff}\u{200b}", true).as_deref(), Some("Elden Ring"));
    assert_eq!(resolve("somegame.exe", "\u{200b}\u{feff}", true).as_deref(), Some("Somegame"));
}

#[test]
fn odd_spaces_are_the_same_space() {
    assert_eq!(clean_title("ARC\u{2005}Raiders"), "ARC Raiders");
    assert_eq!(clean_title("My\u{00a0}Game"), "My Game");
    assert_eq!(clean_title("My   Game"), "My Game");
}

#[test]
fn a_plain_title_comes_back_untouched() {
    assert_eq!(clean_title("Counter-Strike 2"), "Counter-Strike 2");
    assert_eq!(strip_invisibles("Counter-Strike 2"), "Counter-Strike 2");
    assert_eq!(clean_title("◑ Some Game"), "◑ Some Game");
}

#[test]
fn invisibles_survive_neither_suffix_nor_version_trimming() {
    assert_eq!(clean_title("My\u{200b} Game\u{200b} - Steam"), "My Game");
    assert_eq!(clean_title("Minecraft\u{feff} 1.21.4"), "Minecraft");
}

#[test]
fn the_known_list_is_looked_up_in_lower_case() {
    let list = games();
    assert!(is_known_exe("CS2.exe", &list));
    assert!(is_known_exe("eldenring.EXE", &list));
    assert!(!is_known_exe("unknown.exe", &list));
    assert_eq!(list[1].0, "eldenring.exe");
}

#[test]
fn a_later_entry_overrides_an_earlier_one() {
    let list = known_games(vec![
        ("game.exe".to_string(), "Old Name".to_string()),
        ("GAME.exe".to_string(), "New Name".to_string()),
    ]);
    assert_eq!(resolve_name("game.exe", "", false, &list).as_deref(), Some("New Name"));
}

#[test]
fn names_from_the_exe_and_the_normal_form() {
    assert_eq!(from_exe("my-great_game.exe.exe"), "My Great Game");
    assert_eq!(from_exe("eldenring.exe"), "Eldenring");
    assert_eq!(normalize_name("  A\u{200b}B \t C  "), "AB C");
    assert_eq!(normalize_name(&normalize_name(ARC_RAIDERS[0])), normalize_name(ARC_RAIDERS[0]));
}

#[test]
fn paths_and_files_give_a_title_away() {
    assert!(is_foreign_title("\\\\server\\share"));
    assert!(is_foreign_title("notes.TXT "));
    assert!(is_foreign_title("Chat - Discord"));
    assert!(!is_foreign_title("   "));
    assert!(!is_foreign_title("Elden Ring"));
}

#[test]
fn trailing_marks_and_counters_go() {
    assert_eq!(clean_title("Game -"), "Game");
    assert_eq!(clean_title("Game |: "), "Game");
    assert_eq!(try_clean_title("Game - vulkan").as_deref(), Some("Game"));
    assert_eq!(clean_title("(12)"), "");
    assert_eq!(clean_title("(12) Game 2"), "Game 2");
}

#[test]
fn a_user_list_extends_and_corrects_the_built_in_one() {
    let built_in = vec![
        ("EldenRing.exe".to_string(), "Elden Ring".to_string()),
        ("cs2.exe".to_string(), "Counter-Strike 2".to_string()),
    ];
    let user = vec![
        ("CS2.EXE".to_string(), "CS2".to_string()),
        ("MyIndie.exe".to_string(), "My Indie".to_string()),
    ];
    let table = layered_games(built_in, user);
    assert_eq!(table.len(), 4);
    assert!(is_known_exe("eldenring.exe", &table));
    assert!(is_known_exe("myindie.exe", &table));
    assert_eq!(resolve_name_checked("cs2.exe", "", false, &table), Some(Some("CS2".to_string())));
    assert_eq!(
        resolve_name_checked("ELDENRING.EXE", "", false, &table),
        Some(Some("Elden Ring".to_string()))
    );
    assert_eq!(
        resolve_name_checked("MyIndie.exe", "whatever", false, &table),
        Some(Some("My Indie".to_string()))
    );
}

#[test]
fn the_lower_cased_name_is_looked_up_as_it_stands() {
    assert!(is_ignored_name("explorer.exe"));
    assert!(!is_ignored_name("Explorer.exe"));
    assert!(!is_ignored_name("eldenring.exe"));

    let table = games();
    assert_eq!(find_game(&table, "eldenring.exe"), Some(1));
    assert_eq!(find_game(&table, "EldenRing.exe"), None);
    let twice = known_games(vec![
        ("a.exe".to_string(), "First".to_string()),
        ("A.EXE".to_string(), "Second".to_string()),
    ]);
    assert_eq!(find_game(&twice, "a.exe"), Some(1));

    assert_eq!(find_suffix("elden ring - steam").map(|k| TITLE_SUFFIXES[k]), Some(" - steam"));
    assert_eq!(find_suffix("game (64-bit)").map(|k| TITLE_SUFFIXES[k]), Some(" (64-bit)"));
    assert_eq!(find_suffix("Elden Ring - Steam"), None);
    assert_eq!(find_suffix("elden ring"), None);
}

#[test]
fn the_users_games_file_is_layered_over_the_built_in_list() {
    let built_in = vec![("cs2.exe".to_string(), "Counter-Strike 2".to_string())];
    let (table, unreadable) =
        game_table(built_in.clone(), Some(r#"{"MyIndie.exe": "My Indie", "CS2.exe": "CS2"}"#));
    assert!(!unreadable);
    assert_eq!(table.len(), 3);
    assert!(is_known_exe("myindie.exe", &table));
    assert_eq!(resolve_name_checked("cs2.exe", "", false, &table), Some(Some("CS2".to_string())));

    let (table, unreadable) = game_table(built_in.clone(), Some("not json"));
    assert!(unreadable);
    assert_eq!(table, vec![("cs2.exe".to_string(), "Counter-Strike 2".to_string())]);
    let (table, unreadable) = game_table(built_in.clone(), Some(r#"{"x.exe": 3}"#));
    assert!(unreadable);
    assert_eq!(table.len(), 1);
    let (table, unreadable) = game_table(built_in, None);
    assert!(!unreadable);
    assert_eq!(table.len(), 1);
}
