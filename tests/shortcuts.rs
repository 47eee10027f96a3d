use noisette::{
    contains_key, shortcut_as_string, trim_quotes, DesktopShortcutListener, SerializableKeycode,
    ShortcutListener, ShortcutRecorder,
};

fn keys(names: &[&str]) -> Vec<SerializableKeycode> {
    names.iter().map(|n| SerializableKeycode(n.to_string())).collect()
}

#[test]
fn combination_text_joins_names() {
    assert_eq!(shortcut_as_string(&keys(&["LControl", "A"])), "LControl + A");
    assert_eq!(shortcut_as_string(&keys(&["F1"])), "F1");
    assert_eq!(shortcut_as_string(&keys(&[])), "");
    assert_eq!(shortcut_as_string(&keys(&["\"LShift\"", "B", "\"\""])), "LShift + B + ");
}

#[test]
fn quotes_are_trimmed_at_both_ends_only() {
    assert_eq!(trim_quotes("\"\"Key\"\""), "Key");
    assert_eq!(trim_quotes("Ke\"y"), "Ke\"y");
    assert_eq!(trim_quotes("\"\"\""), "");
    assert_eq!(trim_quotes(""), "");
    assert_eq!(trim_quotes("Space"), "Space");
}

#[test]
fn keys_compare_by_name() {
    assert_eq!(SerializableKeycode("A".to_string()), SerializableKeycode("A".to_string()));
    assert_ne!(SerializableKeycode("A".to_string()), SerializableKeycode("B".to_string()));
    let held = keys(&["LControl", "A"]);
    assert!(contains_key(&held, &SerializableKeycode("A".to_string())));
    assert!(!contains_key(&held, &SerializableKeycode("B".to_string())));
}

#[test]
fn combination_pressed_only_when_all_keys_held() {
    let mut l = DesktopShortcutListener::new();
    assert!(!l.is_pressed(&keys(&["A"])));
    l.update(keys(&["LControl", "A", "Space"]));
    assert!(l.is_pressed(&keys(&["LControl", "A"])));
    assert!(l.is_pressed(&keys(&["A", "LControl"])));
    assert!(!l.is_pressed(&keys(&["LControl", "B"])));
}

#[test]
fn empty_combination_never_matches() {
    let mut l = DesktopShortcutListener::new();
    assert!(!l.is_pressed(&keys(&[])));
    l.update(keys(&["A"]));
    assert!(!l.is_pressed(&keys(&[])));
}

#[test]
fn update_replaces_the_snapshot() {
    let mut l = DesktopShortcutListener::new();
    l.update(keys(&["LControl", "A"]));
    l.update(keys(&["B"]));
    assert_eq!(l.get_pressed_keys(), keys(&["B"]));
    assert!(!l.is_pressed(&keys(&["A"])));
    assert!(l.is_pressed(&keys(&["B"])));
    l.update(keys(&[]));
    assert!(l.get_pressed_keys().is_empty());
}

#[test]
fn recorder_labels() {
    let r = ShortcutRecorder::new(None, None, None, 0);
    assert_eq!(r.label(), "No Shortcut");
    let r = ShortcutRecorder::new(Some(keys(&["LControl", "A"])), Some(1), None, 0);
    assert_eq!(r.label(), "LControl + A");
    let r = ShortcutRecorder::new(Some(keys(&["LControl", "A"])), Some(0), None, 0);
    assert_eq!(r.label(), "Type a Shortcut...");
    let r = ShortcutRecorder::new(None, Some(0), Some(keys(&[])), 0);
    assert_eq!(r.label(), "Type a Shortcut...");
    let r = ShortcutRecorder::new(None, Some(0), Some(keys(&["LAlt", "X"])), 0);
    assert_eq!(r.label(), "LAlt + X");
}

#[test]
fn recorder_captures_on_release() {
    let mut r = ShortcutRecorder::new(Some(keys(&["F1"])), None, None, 3);
    r.click();
    assert!(r.is_listening());
    assert_eq!(r.listening_shortcut, Some(3));
    assert_eq!(r.last_pressed_keys, None);
    r.observe(keys(&[]));
    assert_eq!(r.last_pressed_keys, Some(keys(&[])));
    r.observe(keys(&["LControl"]));
    r.observe(keys(&["LControl", "A"]));
    assert_eq!(r.shortcut, Some(keys(&["F1"])));
    r.observe(keys(&["LControl"]));
    assert_eq!(r.shortcut, Some(keys(&["LControl", "A"])));
    assert_eq!(r.listening_shortcut, None);
    assert_eq!(r.last_pressed_keys, None);
    assert!(!r.is_listening());
}

#[test]
fn recorder_ignores_frames_of_other_rows() {
    let mut r = ShortcutRecorder::new(None, Some(1), Some(keys(&["A"])), 0);
    r.observe(keys(&[]));
    assert_eq!(r.shortcut, None);
    assert_eq!(r.listening_shortcut, Some(1));
    assert_eq!(r.last_pressed_keys, Some(keys(&["A"])));
}
