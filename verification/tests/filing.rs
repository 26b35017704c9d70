use std::path::{Path, PathBuf};

use clippiboy::filing::{
    destination, dir_for, folder_name, game_correction, inside, numbered_name, FAVORITES, RECORDINGS, SCREENSHOTS, VIDEOS,
};
use clippiboy::game::strip_invisibles;
use clippiboy::model::ClipKind;

#[test]
fn a_game_becomes_a_readable_folder() {
    assert_eq!(folder_name("Counter-Strike 2").as_deref(), Some("Counter-Strike 2"));
    assert_eq!(folder_name("Tom: The / Movie").as_deref(), Some("Tom The Movie"));
    assert_eq!(folder_name("  Bodycam  ").as_deref(), Some("Bodycam"));
}

const ARC_RAIDERS: [&str; 4] = [
    "A\u{200b}\u{200b}\u{200b}\u{200b}R\u{feff}C\u{200b}\u{200b}\u{2005}\u{feff}\u{200b}\u{200b}\u{feff}\u{200b}\u{200b}\u{feff}\u{feff}Raid\u{feff}\u{200b}\u{200b}e\u{200b}\u{200b}rs",
    "A\u{200b}\u{200b}\u{feff}R\u{200b}\u{200b}C\u{2005}\u{200b}\u{200b}\u{200b}R\u{200b}\u{200b}ai\u{200b}\u{200b}\u{200b}\u{200b}\u{200b}\u{200b}\u{200b}\u{200b}de\u{200b}\u{200b}rs",
    "A\u{feff}RC\u{2005}\u{200b}\u{200b}\u{200b}\u{200b}\u{feff}Ra\u{feff}\u{feff}\u{feff}\u{200b}\u{200b}i\u{200b}d\u{200b}\u{200b}e\u{200b}r\u{200b}\u{feff}\u{200b}\u{200b}s",
    "\u{200b}A\u{200b}\u{200b}\u{feff}\u{feff}\u{200b}RC\u{200b}\u{200b} \u{200b}R\u{200b}a\u{200b}\u{200b}i\u{200b}d\u{feff}er\u{200b}\u{200b}\u{200b}\u{200b}\u{feff}s",
];

#[test]
fn invisible_characters_do_not_make_a_second_folder() {
    for game in ARC_RAIDERS {
        assert_eq!(folder_name(game).as_deref(), Some("ARC Raiders"), "from {game:?}");
    }
}

#[test]
fn an_invisible_closes_up_instead_of_splitting_the_word() {
    assert_eq!(folder_name("Raid\u{200b}ers").as_deref(), Some("Raiders"));
    assert_eq!(folder_name("Raid/ers").as_deref(), Some("Raid ers"));
}

#[test]
fn a_name_of_nothing_but_invisibles_is_no_name() {
    assert_eq!(folder_name("\u{200b}\u{feff}\u{200b}"), None);
}

#[test]
fn the_four_categories_become_one() {
    let mut names: Vec<Option<String>> = Vec::new();
    let mut changed = 0;
    for game in ARC_RAIDERS.iter().copied().chain(["Bodycam"]) {
        match game_correction(game) {
            Some(target) => {
                changed += 1;
                names.push(target);
            }
            None => names.push(Some(game.to_string())),
        }
    }
    assert_eq!(changed, 4);
    names.sort();
    names.dedup();
    assert_eq!(names, vec![Some("ARC Raiders".to_string()), Some("Bodycam".to_string())]);
}

#[test]
fn a_second_run_changes_nothing() {
    for game in ARC_RAIDERS {
        let first = game_correction(game).expect("a sprinkled name is corrected");
        let fixed = first.expect("and keeps a name");
        assert_eq!(game_correction(&fixed), None, "the pass is not idempotent");
    }
}

#[test]
fn a_game_of_nothing_but_invisibles_becomes_no_game() {
    assert_eq!(game_correction("\u{200b}\u{feff}"), Some(None));
}

#[test]
fn windows_quirks_are_taken_care_of() {
    assert_eq!(folder_name("Portal 2.").as_deref(), Some("Portal 2"));
    assert_eq!(folder_name("CON").as_deref(), Some("_CON"));
    assert_eq!(folder_name("com1").as_deref(), Some("_com1"));
    assert_eq!(folder_name("   "), None);
    assert_eq!(folder_name("???"), None);
}

#[test]
fn the_favourite_folder_wins_over_the_game() {
    let root = Path::new("C:/clips");
    assert_eq!(
        PathBuf::from(dir_for("C:/clips", Some("Bodycam"), false, ClipKind::Clip)),
        root.join("Bodycam").join(VIDEOS),
    );
    assert_eq!(
        PathBuf::from(dir_for("C:/clips", Some("Bodycam"), true, ClipKind::Clip)),
        root.join(FAVORITES).join(VIDEOS),
    );
    assert_eq!(PathBuf::from(dir_for("C:/clips", None, false, ClipKind::Clip)), root.join(VIDEOS));
}

#[test]
fn the_kind_splits_the_game_folder() {
    let root = Path::new("C:/clips");
    assert_eq!(
        PathBuf::from(dir_for("C:/clips", Some("Bodycam"), false, ClipKind::Screenshot)),
        root.join("Bodycam").join(SCREENSHOTS),
    );
    assert_eq!(
        PathBuf::from(dir_for("C:/clips", None, true, ClipKind::Screenshot)),
        root.join(FAVORITES).join(SCREENSHOTS),
    );
    assert_eq!(
        PathBuf::from(dir_for("C:/clips", Some("Bodycam"), false, ClipKind::Recording)),
        root.join("Bodycam").join(RECORDINGS),
    );
    assert_eq!(
        PathBuf::from(dir_for("C:/clips", Some("Bodycam"), true, ClipKind::Recording)),
        root.join(FAVORITES).join(RECORDINGS),
    );
}

#[test]
fn only_files_in_the_clip_folder_are_moved() {
    let root = "C:/clips";
    assert!(inside(root, "C:/clips/a.mp4"));
    assert!(inside(root, "C:/clips/Videos/a.mp4"));
    assert!(inside(root, "C:/clips/Bodycam/Videos/a.mp4"));
    assert!(!inside(root, "C:/clips/Bodycam/Videos/old/a.mp4"));
    assert!(!inside(root, "D:/elsewhere/a.mp4"));
}

#[test]
fn a_clip_in_its_folder_stays_and_one_elsewhere_moves() {
    assert_eq!(destination("C:/clips", "C:/clips/Bodycam/Videos/a.mp4", Some("Bodycam"), false, ClipKind::Clip), None);
    assert_eq!(
        destination("C:/clips", "C:/clips/a.mp4", Some("Bodycam"), false, ClipKind::Clip).as_deref(),
        Some("C:/clips/Bodycam/Videos")
    );
    assert_eq!(destination("C:/clips", "D:/elsewhere/a.mp4", Some("Bodycam"), false, ClipKind::Clip), None);
    assert_eq!(inside("/clips/", "/clips//a.mp4"), true);
}

#[test]
fn a_taken_name_gets_a_number_behind_the_stem() {
    assert_eq!(numbered_name("Elden Ring 2024-05-01 20-15-00", Some("mp4"), 2), "Elden Ring 2024-05-01 20-15-00 (2).mp4");
    assert_eq!(numbered_name("notes", None, 17), "notes (17)");
    assert_eq!(numbered_name("archive.tar", Some("gz"), 999), "archive.tar (999).gz");
}

#[test]
fn invisibles_never_change_the_folder_and_names_are_single_spaced() {
    let game = "\u{200b}Half\u{feff}-Life:\t Alyx \u{200b} ";
    assert_eq!(folder_name(game), folder_name(&strip_invisibles(game)));
    let name = folder_name(game).expect("a usable name");
    assert_eq!(name, name.split_whitespace().collect::<Vec<_>>().join(" "));
    assert_eq!(name, "Half-Life Alyx");
}

#[test]
fn a_backslash_separates_parts_as_a_slash_does() {
    assert_eq!(dir_for("C:\\clips\\", Some("Bodycam"), false, ClipKind::Clip), "C:\\clips\\Bodycam/Videos");
    assert_eq!(dir_for("C:\\clips", None, true, ClipKind::Clip), "C:\\clips/Favorites/Videos");
    assert!(inside("C:\\clips", "C:\\clips\\Bodycam\\Videos\\a.mp4"));
    assert!(inside("C:/clips", "C:\\clips\\a.mp4"));
    assert!(!inside("C:\\clips", "C:\\clips\\Bodycam\\Videos\\old\\a.mp4"));
    assert_eq!(
        destination("C:\\clips", "C:\\clips\\Bodycam\\Videos\\a.mp4", Some("Bodycam"), false, ClipKind::Clip),
        None
    );
}
