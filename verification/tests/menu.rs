use wlr_which_key::keys::Key;
use wlr_which_key::keys::ModifierState;
use wlr_which_key::keys::SingleKey;
use wlr_which_key::keys::KEYSYM_ESCAPE;
use wlr_which_key::menu::Action;
use wlr_which_key::menu::Entry;
use wlr_which_key::menu::Menu;
use wlr_which_key::menu::NavError;

fn chord(s: &str) -> Key {
    Key::from_single(SingleKey::from_str(s).unwrap())
}

fn cmd(key: &str, command: &str) -> Entry {
    Entry::Cmd {
        key: chord(key),
        cmd: String::from(command),
        desc: String::from(command),
        keep_open: false,
    }
}

fn no_mods() -> ModifierState {
    ModifierState { mod_ctrl: false, mod_alt: false, mod_mod4: false }
}

fn ctrl() -> ModifierState {
    ModifierState { mod_ctrl: true, mod_alt: false, mod_mod4: false }
}

/// Root: "p" -> submenu { "s" -> command "echo s" }, "c" -> command "echo c".
fn sample_menu() -> Menu {
    let sub = vec![cmd("s", "echo s")];
    let root = vec![
        Entry::Recursive { key: chord("p"), submenu: sub, desc: String::from("more") },
        cmd("c", "echo c"),
    ];
    Menu::new(root)
}

#[test]
fn first_of_two_overlapping_chords_wins() {
    let root = vec![cmd("a", "first"), cmd("a", "second")];
    let menu = Menu::new(root);
    match menu.get_action(no_mods(), 'a' as u32) {
        Some(Action::Exec { cmd, keep_open }) => {
            assert_eq!(cmd, "first");
            assert!(!keep_open);
        },
        other => panic!("expected the first command, got {:?}", other),
    }
}

#[test]
fn unmatched_press_is_ignored() {
    let menu = sample_menu();
    assert!(menu.get_action(no_mods(), 'z' as u32).is_none());
    // Same key under other modifiers is no match either.
    assert!(menu.get_action(ctrl(), 'c' as u32).is_none());
}

#[test]
fn escape_quits() {
    let menu = sample_menu();
    match menu.get_action(no_mods(), KEYSYM_ESCAPE) {
        Some(Action::Quit) => {},
        other => panic!("expected quit, got {:?}", other),
    }
}

#[test]
fn submenu_resolution_carries_the_page_path() {
    let menu = sample_menu();
    match menu.get_action(no_mods(), 'p' as u32) {
        Some(Action::Submenu { path }) => assert_eq!(path, vec![0]),
        other => panic!("expected a submenu, got {:?}", other),
    }
}

#[test]
fn navigate_to_trailing_command_fires_once() {
    let mut menu = sample_menu();
    let tokens = vec![String::from("p"), String::from("s")];
    match menu.navigate_to_sequence(&tokens) {
        Ok(Action::Exec { cmd, keep_open }) => {
            assert_eq!(cmd, "echo s");
            assert!(!keep_open);
        },
        other => panic!("expected the trailing command, got {:?}", other),
    }
    // The cursor is on the page that holds the final entry.
    assert_eq!(menu.current_entries().len(), 1);
}

#[test]
fn navigate_error_leaves_the_cursor_unmoved() {
    let mut menu = sample_menu();
    let tokens = vec![String::from("p"), String::from("x")];
    match menu.navigate_to_sequence(&tokens) {
        Err(NavError::InvalidKeySequence { token }) => assert_eq!(token, "x"),
        other => panic!("expected an invalid-sequence error, got {:?}", other),
    }
    // Still at the root page: both root entries are visible.
    assert_eq!(menu.current_entries().len(), 2);
}

#[test]
fn navigate_through_a_command_is_an_error() {
    let mut menu = sample_menu();
    let tokens = vec![String::from("c"), String::from("s")];
    match menu.navigate_to_sequence(&tokens) {
        Err(NavError::NotASubmenu { token }) => assert_eq!(token, "c"),
        other => panic!("expected a not-a-submenu error, got {:?}", other),
    }
    assert_eq!(menu.current_entries().len(), 2);
}

#[test]
fn navigate_bad_token_is_an_error() {
    let mut menu = sample_menu();
    let tokens = vec![String::from("nope")];
    match menu.navigate_to_sequence(&tokens) {
        Err(NavError::Parse { .. }) => {},
        other => panic!("expected a parse error, got {:?}", other),
    }
}

#[test]
fn navigate_empty_sequence_is_an_error() {
    let mut menu = sample_menu();
    let tokens: Vec<String> = Vec::new();
    match menu.navigate_to_sequence(&tokens) {
        Err(NavError::EmptySequence) => {},
        other => panic!("expected an empty-sequence error, got {:?}", other),
    }
}

#[test]
fn navigate_to_trailing_submenu_does_not_enter_it() {
    let mut menu = sample_menu();
    let tokens = vec![String::from("p")];
    match menu.navigate_to_sequence(&tokens) {
        Ok(Action::Submenu { path }) => assert_eq!(path, vec![0]),
        other => panic!("expected the submenu, got {:?}", other),
    }
    // The cursor stays on the page holding the submenu entry.
    assert_eq!(menu.current_entries().len(), 2);
}

#[test]
fn set_page_repoints_the_cursor() {
    let mut menu = sample_menu();
    assert!(menu.is_valid_path(&vec![0]));
    assert!(!menu.is_valid_path(&vec![1]));
    assert!(!menu.is_valid_path(&vec![2]));
    menu.set_page(vec![0]);
    assert_eq!(menu.current_entries().len(), 1);
}
