use clippiboy::hotkeys::{check_hotkeys, hotkey_text, hotkeys_clash, registration_result, NO_HOTKEY, SHARED_HOTKEY};

#[test]
fn a_combination_is_taken_without_its_surrounding_space() {
    assert_eq!(hotkey_text("  Ctrl+Shift+S \t"), Ok("Ctrl+Shift+S".to_string()));
    assert_eq!(hotkey_text("   "), Err(NO_HOTKEY.to_string()));
    assert_eq!(hotkey_text(""), Err(NO_HOTKEY.to_string()));
}

#[test]
fn a_clash_is_found_in_any_pair_whatever_the_case() {
    assert!(hotkeys_clash("Ctrl+Shift+S", "Ctrl+Shift+B", "ctrl+shift+s"));
    assert!(hotkeys_clash("Ctrl+Shift+S", "CTRL+SHIFT+P", "Ctrl+Shift+P"));
    assert!(!hotkeys_clash("Ctrl+Shift+S", "Ctrl+Shift+B", "Ctrl+Shift+P"));
}

#[test]
fn the_three_hotkeys_are_checked_together() {
    assert_eq!(
        check_hotkeys(" Ctrl+Shift+S", "Ctrl+Shift+B ", "Ctrl+Shift+P"),
        Ok(("Ctrl+Shift+S".to_string(), "Ctrl+Shift+B".to_string(), "Ctrl+Shift+P".to_string()))
    );
    assert_eq!(check_hotkeys("Ctrl+Shift+S", "", "Ctrl+Shift+S"), Err(NO_HOTKEY.to_string()));
    assert_eq!(
        check_hotkeys("Ctrl+Shift+S", "Ctrl+Shift+B", "ctrl+shift+b"),
        Err(SHARED_HOTKEY.to_string())
    );
}

#[test]
fn combinations_another_program_holds_are_named_together() {
    assert_eq!(registration_result(&vec![]), Ok(()));
    assert_eq!(
        registration_result(&vec!["Ctrl+Shift+S".to_string()]),
        Err("Ctrl+Shift+S is already taken by another program.".to_string())
    );
    assert_eq!(
        registration_result(&vec!["Ctrl+Shift+S".to_string(), "Ctrl+Shift+B".to_string(), "F9".to_string()]),
        Err("Ctrl+Shift+S and Ctrl+Shift+B and F9 is already taken by another program.".to_string())
    );
}
