use wlr_which_key::keys::Key;
use wlr_which_key::keys::ModifierState;
use wlr_which_key::keys::ParseError;
use wlr_which_key::keys::SingleKey;

fn no_mods() -> ModifierState {
    ModifierState { mod_ctrl: false, mod_alt: false, mod_mod4: false }
}

fn ctrl() -> ModifierState {
    ModifierState { mod_ctrl: true, mod_alt: false, mod_mod4: false }
}

#[test]
fn parse_plain_letter() {
    let k = SingleKey::from_str("a").unwrap();
    assert_eq!(k.keysym, 'a' as u32);
    assert_eq!(k.modifiers, no_mods());
    assert_eq!(k.repr, "a");
}

#[test]
fn parse_then_match_exact_pair() {
    // A parsed chord matches exactly the pair it was parsed from, and no
    // other modifier set with the same key.
    let k = SingleKey::from_str("mod4+b").unwrap();
    let sym = k.keysym;
    let mods = k.modifiers;
    assert!(mods.mod_mod4 && !mods.mod_ctrl && !mods.mod_alt);
    let chord = Key::from_single(k);
    assert!(chord.matches(sym, mods));
    assert!(!chord.matches(sym, no_mods()));
    assert!(!chord.matches(sym, ctrl()));
}

#[test]
fn chord_tokens_parse_case_insensitively() {
    // "ctrl+a" and "Ctrl+A" parse to the same chord: modifier names are
    // ASCII case-insensitive and an ASCII capital base key folds to its
    // lower-case keysym.
    let a = SingleKey::from_str("ctrl+a").unwrap();
    let b = SingleKey::from_str("Ctrl+A").unwrap();
    assert_eq!(a.keysym, b.keysym);
    assert_eq!(a.keysym, 'a' as u32);
    assert_eq!(a.modifiers, b.modifiers);
    assert_eq!(a.modifiers, ctrl());
}

#[test]
fn capital_base_key_folds_to_lower_case() {
    let k = SingleKey::from_str("Z").unwrap();
    assert_eq!(k.keysym, 'z' as u32);
    assert_eq!(k.modifiers, no_mods());
    // The token string itself is kept as written.
    assert_eq!(k.repr, "Z");
}

#[test]
fn function_key_names_are_case_insensitive() {
    let a = SingleKey::from_str("ctrl+f7").unwrap();
    let b = SingleKey::from_str("Ctrl+F7").unwrap();
    assert_eq!(a.keysym, b.keysym);
    assert_eq!(a.modifiers, b.modifiers);
}

#[test]
fn alternatives_match_any_of() {
    let a = SingleKey::from_str("a").unwrap();
    let b = SingleKey::from_str("b").unwrap();
    let chord = Key::from_alternatives(vec![a, b]);
    assert!(chord.matches('b' as u32, no_mods()));
    assert!(chord.matches('a' as u32, no_mods()));
    assert!(!chord.matches('a' as u32, ctrl()));
    assert!(!chord.matches('c' as u32, no_mods()));
}

#[test]
fn plus_token_is_the_plus_key() {
    let k = SingleKey::from_str("+").unwrap();
    assert_eq!(k.keysym, '+' as u32);
    assert_eq!(k.modifiers, no_mods());
    assert_eq!(k.repr, "+");
}

#[test]
fn several_modifiers_accumulate() {
    let k = SingleKey::from_str("ctrl+alt+mod4+x").unwrap();
    assert_eq!(k.keysym, 'x' as u32);
    assert!(k.modifiers.mod_ctrl && k.modifiers.mod_alt && k.modifiers.mod_mod4);
}

#[test]
fn logo_is_mod4() {
    let a = SingleKey::from_str("logo+a").unwrap();
    let b = SingleKey::from_str("mod4+a").unwrap();
    assert_eq!(a.modifiers, b.modifiers);
    assert!(a.modifiers.mod_mod4);
}

#[test]
fn function_keys_map_to_the_f_row() {
    assert_eq!(SingleKey::from_str("F1").unwrap().keysym, 0xffbe);
    assert_eq!(SingleKey::from_str("f12").unwrap().keysym, 0xffbe + 11);
    assert_eq!(SingleKey::from_str("F24").unwrap().keysym, 0xffbe + 23);
}

#[test]
fn invalid_keys_are_rejected() {
    match SingleKey::from_str("abc") {
        Err(ParseError::InvalidKey { token }) => assert_eq!(token, "abc"),
        other => panic!("expected an invalid-key error, got {:?}", other),
    }
    match SingleKey::from_str("") {
        Err(ParseError::InvalidKey { token }) => assert_eq!(token, ""),
        other => panic!("expected an invalid-key error, got {:?}", other),
    }
    match SingleKey::from_str("ctrl+") {
        Err(ParseError::InvalidKey { token }) => assert_eq!(token, ""),
        other => panic!("expected an invalid-key error, got {:?}", other),
    }
    assert!(SingleKey::from_str("F25").is_err());
    assert!(SingleKey::from_str("F01").is_err());
    assert!(SingleKey::from_str("F0").is_err());
}

#[test]
fn unknown_modifiers_are_rejected() {
    match SingleKey::from_str("shift+a") {
        Err(ParseError::UnknownModifier { token }) => assert_eq!(token, "shift"),
        other => panic!("expected an unknown-modifier error, got {:?}", other),
    }
    match SingleKey::from_str("+a") {
        Err(ParseError::UnknownModifier { token }) => assert_eq!(token, ""),
        other => panic!("expected an unknown-modifier error, got {:?}", other),
    }
    // The base key is checked before the modifiers.
    match SingleKey::from_str("shift+") {
        Err(ParseError::InvalidKey { token }) => assert_eq!(token, ""),
        other => panic!("expected an invalid-key error, got {:?}", other),
    }
}

#[test]
fn display_joins_alternatives() {
    let a = SingleKey::from_str("ctrl+a").unwrap();
    let b = SingleKey::from_str("F2").unwrap();
    let chord = Key::from_alternatives(vec![a, b]);
    assert_eq!(chord.display_text(), "ctrl+a | F2");
    let c = SingleKey::from_str("x").unwrap();
    assert_eq!(Key::from_single(c).display_text(), "x");
}

#[test]
fn non_latin_characters_use_their_table_keysym() {
    // The escape control character maps into the 0xff00 row, and a
    // character outside the keysym table gets the Unicode offset: neither
    // keysym equals the character's own code point.
    let esc = SingleKey::from_str("\u{1b}").unwrap();
    assert_eq!(esc.keysym, 0xff1b);
    let smile = SingleKey::from_str("\u{1f600}").unwrap();
    assert_eq!(smile.keysym, 0x0101f600);
}

#[test]
fn char_keysym_follows_the_table() {
    // Printable Latin-1 characters are their own keysyms; others go
    // through the table.
    assert_eq!(wlr_which_key::keys::char_keysym('a'), 'a' as u32);
    assert_eq!(wlr_which_key::keys::char_keysym('+'), '+' as u32);
    assert_eq!(wlr_which_key::keys::char_keysym('\u{1b}'), 0xff1b);
}

#[test]
fn default_modifier_state_is_empty() {
    assert_eq!(ModifierState::default(), no_mods());
}
