use swiftflow::keys::{
    key_event, KeyDispatch, map_key, modifier_mask, printable_text, request_ime_allowed, take_ime_allowed, ImeRequest,
    Key, Modifiers, NamedKey, SF_KEY_BACKSPACE, SF_KEY_DELETE, SF_KEY_DOWN, SF_KEY_END,
    SF_KEY_ENTER, SF_KEY_ESCAPE, SF_KEY_HOME, SF_KEY_LEFT, SF_KEY_OTHER, SF_KEY_PAGE_DOWN,
    SF_KEY_PAGE_UP, SF_KEY_RIGHT, SF_KEY_TAB, SF_KEY_UP, SF_MOD_ALT, SF_MOD_CONTROL, SF_MOD_SHIFT,
    SF_MOD_SUPER,
};

#[test]
fn editing_keys_map_to_their_codes() {
    assert_eq!(map_key(&Key::Named(NamedKey::Backspace)), SF_KEY_BACKSPACE);
    assert_eq!(map_key(&Key::Named(NamedKey::ArrowUp)), SF_KEY_UP);
    assert_eq!(map_key(&Key::Named(NamedKey::Enter)), SF_KEY_ENTER);
}

#[test]
fn text_input_editing_keys_map_to_their_codes() {
    assert_eq!(map_key(&Key::Named(NamedKey::Backspace)), SF_KEY_BACKSPACE);
    assert_eq!(map_key(&Key::Named(NamedKey::ArrowLeft)), SF_KEY_LEFT);
    assert_eq!(map_key(&Key::Named(NamedKey::PageDown)), SF_KEY_PAGE_DOWN);
    assert_eq!(map_key(&Key::Named(NamedKey::Escape)), SF_KEY_ESCAPE);
}

#[test]
fn printable_keys_are_not_reported() {
    assert_eq!(map_key(&Key::Character("z".to_string())), SF_KEY_OTHER);
    assert_eq!(map_key(&Key::Named(NamedKey::Space)), SF_KEY_OTHER);
}

#[test]
fn text_input_printable_keys_are_not_reported() {
    assert_eq!(map_key(&Key::Character("a".to_string())), SF_KEY_OTHER);
    assert_eq!(map_key(&Key::Character("é".to_string())), SF_KEY_OTHER);
    assert_eq!(map_key(&Key::Named(NamedKey::Space)), SF_KEY_OTHER);
    // Function and modifier keys are named keys the app does not act on.
    assert_eq!(map_key(&Key::Named(NamedKey::Other)), SF_KEY_OTHER);
    assert_eq!(map_key(&Key::Unidentified), SF_KEY_OTHER);
}

#[test]
fn every_editing_key_has_its_own_code() {
    let keys = [
        (NamedKey::Delete, SF_KEY_DELETE),
        (NamedKey::Tab, SF_KEY_TAB),
        (NamedKey::ArrowRight, SF_KEY_RIGHT),
        (NamedKey::ArrowDown, SF_KEY_DOWN),
        (NamedKey::Home, SF_KEY_HOME),
        (NamedKey::End, SF_KEY_END),
        (NamedKey::PageUp, SF_KEY_PAGE_UP),
    ];
    for (key, code) in keys {
        assert_eq!(map_key(&Key::Named(key)), code);
    }
}

#[test]
fn the_two_hosts_agree_on_every_code() {
    let table = [
        (SF_KEY_OTHER, 0),
        (SF_KEY_BACKSPACE, 1),
        (SF_KEY_DELETE, 2),
        (SF_KEY_ENTER, 3),
        (SF_KEY_TAB, 4),
        (SF_KEY_ESCAPE, 5),
        (SF_KEY_LEFT, 6),
        (SF_KEY_RIGHT, 7),
        (SF_KEY_UP, 8),
        (SF_KEY_DOWN, 9),
        (SF_KEY_HOME, 10),
        (SF_KEY_END, 11),
        (SF_KEY_PAGE_UP, 12),
        (SF_KEY_PAGE_DOWN, 13),
    ];
    for (actual, expected) in table {
        assert_eq!(actual, expected);
    }
    assert_eq!((SF_MOD_SHIFT, SF_MOD_CONTROL, SF_MOD_ALT, SF_MOD_SUPER), (1, 2, 4, 8));
}

#[test]
fn a_printable_key_carries_its_character() {
    assert_eq!(printable_text(SF_KEY_OTHER, Some("z")), Some("z"));
    assert_eq!(printable_text(SF_KEY_OTHER, Some(" ")), Some(" "));
    assert_eq!(printable_text(SF_KEY_OTHER, Some("é")), Some("é"));
}

#[test]
fn a_command_key_never_inserts_its_text() {
    assert_eq!(printable_text(SF_KEY_ENTER, Some("\r")), None);
    assert_eq!(printable_text(SF_KEY_TAB, Some("\t")), None);
    assert_eq!(printable_text(SF_KEY_BACKSPACE, Some("\u{8}")), None);
}

#[test]
fn control_characters_are_not_text() {
    assert_eq!(printable_text(SF_KEY_OTHER, Some("\u{1b}")), None);
    assert_eq!(printable_text(SF_KEY_OTHER, Some("\u{7f}")), None);
    assert_eq!(printable_text(SF_KEY_OTHER, Some("")), None);
    assert_eq!(printable_text(SF_KEY_OTHER, None), None);
    assert_eq!(printable_text(SF_KEY_OTHER, Some("a\u{85}")), None);
    assert_eq!(printable_text(SF_KEY_OTHER, Some("ab\u{a0}")), Some("ab\u{a0}"));
}

#[test]
fn modifiers_combine_as_a_bitmask() {
    assert_eq!(modifier_mask(Modifiers::default()), 0);
    assert_eq!(modifier_mask(Modifiers { shift: true, ..Modifiers::default() }), SF_MOD_SHIFT);
    assert_eq!(
        modifier_mask(Modifiers { shift: true, control: true, ..Modifiers::default() }),
        SF_MOD_SHIFT | SF_MOD_CONTROL
    );
    assert_eq!(
        modifier_mask(Modifiers { alt: true, super_key: true, ..Modifiers::default() }),
        SF_MOD_ALT | SF_MOD_SUPER
    );
}

#[test]
fn ime_allowed_is_reported_once_per_change() {
    let mut request = ImeRequest::default();
    let _ = take_ime_allowed(&mut request);
    request_ime_allowed(&mut request, true);
    assert_eq!(take_ime_allowed(&mut request), Some(true));
    assert_eq!(take_ime_allowed(&mut request), None);
}

#[test]
fn text_input_ime_allowed_is_reported_once_per_change() {
    let mut request = ImeRequest::default();
    let _ = take_ime_allowed(&mut request);
    assert_eq!(take_ime_allowed(&mut request), None);
    request_ime_allowed(&mut request, true);
    assert_eq!(take_ime_allowed(&mut request), Some(true));
    assert_eq!(take_ime_allowed(&mut request), None);
}

#[test]
fn the_last_request_before_the_host_looks_wins() {
    let mut request = ImeRequest::default();
    request_ime_allowed(&mut request, true);
    request_ime_allowed(&mut request, false);
    assert_eq!(take_ime_allowed(&mut request), Some(false));
}

#[test]
fn a_key_event_types_text_or_reports_a_key() {
    let shift = Modifiers { shift: true, ..Modifiers::default() };
    assert_eq!(
        key_event(SF_KEY_OTHER, true, false, true, Some("a"), shift),
        KeyDispatch { commit: Some("a"), key: None }
    );
    assert_eq!(
        key_event(SF_KEY_OTHER, true, false, false, Some("a"), shift),
        KeyDispatch { commit: None, key: None }
    );
    assert_eq!(
        key_event(SF_KEY_OTHER, false, false, true, Some("a"), shift),
        KeyDispatch { commit: None, key: None }
    );
    assert_eq!(
        key_event(SF_KEY_ENTER, true, true, true, Some("\r"), shift),
        KeyDispatch { commit: None, key: Some((SF_KEY_ENTER, SF_MOD_SHIFT, 1, 1)) }
    );
}
