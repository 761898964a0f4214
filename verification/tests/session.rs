use wlr_which_key::keys::Key;
use wlr_which_key::keys::ModifierState;
use wlr_which_key::keys::SingleKey;
use wlr_which_key::keys::KEYSYM_ESCAPE;
use wlr_which_key::menu::Entry;
use wlr_which_key::menu::Menu;
use wlr_which_key::session::Dispatch;
use wlr_which_key::session::Session;

fn chord(s: &str) -> Key {
    Key::from_single(SingleKey::from_str(s).unwrap())
}

fn cmd(key: &str, command: &str, keep_open: bool) -> Entry {
    Entry::Cmd {
        key: chord(key),
        cmd: String::from(command),
        desc: String::from(command),
        keep_open,
    }
}

/// Root: "p" -> submenu { "s" -> "echo s" }, "o" -> keep-open command,
/// "q" -> closing command.
fn sample_session(inhibit: bool) -> Session {
    let sub = vec![cmd("s", "echo s", false)];
    let root = vec![
        Entry::Recursive { key: chord("p"), submenu: sub, desc: String::from("more") },
        cmd("o", "echo o", true),
        cmd("q", "echo q", false),
    ];
    Session::new(Menu::new(root), inhibit, 200, 100)
}

#[test]
fn draw_is_gated_on_configure_and_damage() {
    let mut s = sample_session(false);
    // No paint before the first configure event.
    assert!(s.draw().is_none());
    s.configure(120, 60);
    // Configured and damaged: exactly one paint.
    let plan = s.draw().expect("first draw after configure must paint");
    assert_eq!(plan.buffer_width, 120);
    assert_eq!(plan.buffer_height, 60);
    assert_eq!(plan.stride, 480);
    // Damage is cleared: the second draw is a no-op.
    assert!(s.draw().is_none());
}

#[test]
fn scale_change_scales_the_buffer_and_damages() {
    let mut s = sample_session(false);
    s.configure(120, 60);
    let _ = s.draw();
    s.scale_factor_changed(2);
    let plan = s.draw().expect("a scale change must repaint");
    assert_eq!(plan.buffer_width, 240);
    assert_eq!(plan.buffer_height, 120);
    assert_eq!(plan.stride, 960);
    // The logical size is unchanged.
    assert_eq!(s.width, 120);
    assert_eq!(s.height, 60);
    // Repeating the current factor changes nothing: no repaint.
    s.scale_factor_changed(2);
    assert!(s.draw().is_none());
}

#[test]
fn any_positive_factor_is_adopted() {
    let mut s = sample_session(false);
    s.configure(120, 60);
    let _ = s.draw();
    s.scale_factor_changed(1000);
    assert_eq!(s.surface_scale, 1000);
    let plan = s.draw().expect("a scale change must repaint");
    assert_eq!(plan.buffer_width, 120_000);
    assert_eq!(plan.buffer_height, 60_000);
    assert_eq!(plan.stride, 480_000);
    // The largest factor whose stride fits the plan is adopted too.
    s.scale_factor_changed(0x4000_0000);
    assert_eq!(s.surface_scale, 0x4000_0000);
    let plan = s.draw().expect("a scale change must repaint");
    assert_eq!(plan.stride, 120 * 4 * 0x4000_0000u64);
}

#[test]
fn impossible_scale_factors_are_ignored() {
    let mut s = sample_session(false);
    s.configure(120, 60);
    let _ = s.draw();
    s.scale_factor_changed(0);
    s.scale_factor_changed(-3);
    s.scale_factor_changed(i32::MAX);
    assert_eq!(s.surface_scale, 1);
    assert!(s.draw().is_none());
}

#[test]
fn committing_a_submenu_resizes_and_damages() {
    let mut s = sample_session(false);
    s.configure(200, 100);
    let _ = s.draw();
    let path = match s.press_key('p' as u32) {
        Dispatch::EnterSubmenu { path } => path,
        other => panic!("expected a submenu dispatch, got {:?}", other),
    };
    assert_eq!(path, vec![0]);
    // The caller measures the new page and commits; the requested size is
    // exactly that measurement and the surface is damaged again.
    assert!(s.commit_submenu(path, 77, 33));
    assert_eq!(s.width, 77);
    assert_eq!(s.height, 33);
    assert!(s.damaged);
    assert!(s.draw().is_some());
    // An invalid path is refused and changes nothing.
    assert!(!s.commit_submenu(vec![5], 1, 1));
    assert_eq!(s.width, 77);
}

#[test]
fn exec_keep_open_leaves_the_exit_flag_clear() {
    let mut s = sample_session(false);
    match s.press_key('o' as u32) {
        Dispatch::Spawn { cmd } => assert_eq!(cmd, "echo o"),
        other => panic!("expected a spawn dispatch, got {:?}", other),
    }
    assert!(!s.exit);
    match s.press_key('q' as u32) {
        Dispatch::Spawn { cmd } => assert_eq!(cmd, "echo q"),
        other => panic!("expected a spawn dispatch, got {:?}", other),
    }
    assert!(s.exit);
}

#[test]
fn escape_sets_the_exit_flag() {
    let mut s = sample_session(false);
    match s.press_key(KEYSYM_ESCAPE) {
        Dispatch::Nothing => {},
        other => panic!("expected no dispatch, got {:?}", other),
    }
    assert!(s.exit);
}

#[test]
fn unmatched_key_changes_nothing() {
    let mut s = sample_session(false);
    match s.press_key('z' as u32) {
        Dispatch::Nothing => {},
        other => panic!("expected no dispatch, got {:?}", other),
    }
    assert!(!s.exit);
}

#[test]
fn modifiers_gate_the_following_press() {
    let sub = vec![cmd("s", "echo s", false)];
    let root = vec![Entry::Recursive {
        key: chord("ctrl+p"),
        submenu: sub,
        desc: String::from("more"),
    }];
    let mut s = Session::new(Menu::new(root), false, 10, 10);
    // Without Ctrl held the chord does not match.
    match s.press_key('p' as u32) {
        Dispatch::Nothing => {},
        other => panic!("expected no dispatch, got {:?}", other),
    }
    s.update_modifiers(ModifierState { mod_ctrl: true, mod_alt: false, mod_mod4: false });
    match s.press_key('p' as u32) {
        Dispatch::EnterSubmenu { path } => assert_eq!(path, vec![0]),
        other => panic!("expected a submenu dispatch, got {:?}", other),
    }
}

#[test]
fn removing_a_seat_releases_exactly_its_inhibitor() {
    let mut s = sample_session(true);
    assert!(s.new_seat(1));
    assert!(s.new_seat(2));
    // A seat already holding an inhibitor never acquires a second one.
    assert!(!s.new_seat(1));
    assert_eq!(s.inhibitor_seats, vec![1, 2]);
    assert!(s.remove_seat(1));
    assert_eq!(s.inhibitor_seats, vec![2]);
    // A seat holding no inhibitor releases none.
    assert!(!s.remove_seat(7));
    assert_eq!(s.inhibitor_seats, vec![2]);
}

#[test]
fn no_inhibitors_without_the_configuration_flag() {
    let mut s = sample_session(false);
    assert!(!s.new_seat(1));
    assert!(s.inhibitor_seats.is_empty());
}

#[test]
fn one_keyboard_handle_is_tracked() {
    let mut s = sample_session(false);
    assert!(!s.new_capability(false));
    assert!(s.new_capability(true));
    assert!(!s.new_capability(true));
    assert!(!s.remove_capability(false));
    assert!(s.remove_capability(true));
    assert!(!s.remove_capability(true));
}

#[test]
fn close_event_stops_the_loop() {
    let mut s = sample_session(false);
    assert!(!s.exit);
    s.closed();
    assert!(s.exit);
}
