use iterm2_rs::terminal::input::{
    translate_key_event, ElementState, Key, KeyEvent, ModifiersState, NamedKey,
};

/// Helper to build a pressed KeyEvent with a named key.
fn named_event(key: NamedKey) -> KeyEvent {
    KeyEvent { logical_key: Key::Named(key), state: ElementState::Pressed }
}

/// Helper to build a pressed KeyEvent with a character key.
fn char_event(c: &str) -> KeyEvent {
    KeyEvent { logical_key: Key::Character(c.to_string()), state: ElementState::Pressed }
}

fn no_mods() -> ModifiersState {
    ModifiersState::empty()
}

fn ctrl() -> ModifiersState {
    ModifiersState { control: true, ..ModifiersState::empty() }
}

fn shift() -> ModifiersState {
    ModifiersState { shift: true, ..ModifiersState::empty() }
}

fn alt() -> ModifiersState {
    ModifiersState { alt: true, ..ModifiersState::empty() }
}

// ── Basic keys ──

#[test]
fn enter_returns_cr() {
    let ev = named_event(NamedKey::Enter);
    assert_eq!(translate_key_event(&ev, &no_mods()), Some(vec![0x0D]));
}

#[test]
fn regular_character_a() {
    let ev = char_event("a");
    assert_eq!(translate_key_event(&ev, &no_mods()), Some(b"a".to_vec()));
}

#[test]
fn backspace_returns_del() {
    let ev = named_event(NamedKey::Backspace);
    assert_eq!(translate_key_event(&ev, &no_mods()), Some(vec![0x7F]));
}

#[test]
fn tab_returns_ht() {
    let ev = named_event(NamedKey::Tab);
    assert_eq!(translate_key_event(&ev, &no_mods()), Some(vec![0x09]));
}

#[test]
fn escape_key() {
    let ev = named_event(NamedKey::Escape);
    assert_eq!(translate_key_event(&ev, &no_mods()), Some(vec![0x1B]));
}

// ── Ctrl combos ──

#[test]
fn ctrl_c_returns_etx() {
    let ev = char_event("c");
    assert_eq!(translate_key_event(&ev, &ctrl()), Some(vec![0x03]));
}

#[test]
fn ctrl_d_returns_eot() {
    let ev = char_event("d");
    assert_eq!(translate_key_event(&ev, &ctrl()), Some(vec![0x04]));
}

#[test]
fn ctrl_bracket_returns_esc() {
    let ev = char_event("[");
    assert_eq!(translate_key_event(&ev, &ctrl()), Some(vec![0x1B]));
}

// ── Alt combos ──

#[test]
fn alt_a() {
    let ev = char_event("a");
    assert_eq!(translate_key_event(&ev, &alt()), Some(vec![0x1B, b'a']));
}

// ── Arrow keys ──

#[test]
fn arrow_up() {
    let ev = named_event(NamedKey::ArrowUp);
    assert_eq!(translate_key_event(&ev, &no_mods()), Some(b"\x1b[A".to_vec()));
}

#[test]
fn arrow_down() {
    let ev = named_event(NamedKey::ArrowDown);
    assert_eq!(translate_key_event(&ev, &no_mods()), Some(b"\x1b[B".to_vec()));
}

#[test]
fn arrow_right() {
    let ev = named_event(NamedKey::ArrowRight);
    assert_eq!(translate_key_event(&ev, &no_mods()), Some(b"\x1b[C".to_vec()));
}

#[test]
fn arrow_left() {
    let ev = named_event(NamedKey::ArrowLeft);
    assert_eq!(translate_key_event(&ev, &no_mods()), Some(b"\x1b[D".to_vec()));
}

// ── Modifier + Arrow ──

#[test]
fn shift_arrow_up() {
    let ev = named_event(NamedKey::ArrowUp);
    assert_eq!(translate_key_event(&ev, &shift()), Some(b"\x1b[1;2A".to_vec()));
}

#[test]
fn shift_arrow_down() {
    let ev = named_event(NamedKey::ArrowDown);
    assert_eq!(translate_key_event(&ev, &shift()), Some(b"\x1b[1;2B".to_vec()));
}

#[test]
fn ctrl_arrow_up() {
    let ev = named_event(NamedKey::ArrowUp);
    assert_eq!(translate_key_event(&ev, &ctrl()), Some(b"\x1b[1;5A".to_vec()));
}

#[test]
fn alt_arrow_up() {
    let ev = named_event(NamedKey::ArrowUp);
    assert_eq!(translate_key_event(&ev, &alt()), Some(b"\x1b[1;3A".to_vec()));
}

// ── Navigation keys ──

#[test]
fn home_key() {
    let ev = named_event(NamedKey::Home);
    assert_eq!(translate_key_event(&ev, &no_mods()), Some(b"\x1b[H".to_vec()));
}

#[test]
fn end_key() {
    let ev = named_event(NamedKey::End);
    assert_eq!(translate_key_event(&ev, &no_mods()), Some(b"\x1b[F".to_vec()));
}

#[test]
fn page_up() {
    let ev = named_event(NamedKey::PageUp);
    assert_eq!(translate_key_event(&ev, &no_mods()), Some(b"\x1b[5~".to_vec()));
}

#[test]
fn page_down() {
    let ev = named_event(NamedKey::PageDown);
    assert_eq!(translate_key_event(&ev, &no_mods()), Some(b"\x1b[6~".to_vec()));
}

#[test]
fn insert_key() {
    let ev = named_event(NamedKey::Insert);
    assert_eq!(translate_key_event(&ev, &no_mods()), Some(b"\x1b[2~".to_vec()));
}

#[test]
fn delete_key() {
    let ev = named_event(NamedKey::Delete);
    assert_eq!(translate_key_event(&ev, &no_mods()), Some(b"\x1b[3~".to_vec()));
}

// ── Function keys ──

#[test]
fn f1_key() {
    let ev = named_event(NamedKey::F1);
    assert_eq!(translate_key_event(&ev, &no_mods()), Some(b"\x1bOP".to_vec()));
}

#[test]
fn f5_key() {
    let ev = named_event(NamedKey::F5);
    assert_eq!(translate_key_event(&ev, &no_mods()), Some(b"\x1b[15~".to_vec()));
}

#[test]
fn f12_key() {
    let ev = named_event(NamedKey::F12);
    assert_eq!(translate_key_event(&ev, &no_mods()), Some(b"\x1b[24~".to_vec()));
}

// ── Key release ignored ──

#[test]
fn key_release_returns_none() {
    let mut ev = named_event(NamedKey::Enter);
    ev.state = ElementState::Released;
    assert_eq!(translate_key_event(&ev, &no_mods()), None);
}

// ── Further cases ──

#[test]
fn shift_tab_is_back_tab() {
    let ev = named_event(NamedKey::Tab);
    assert_eq!(translate_key_event(&ev, &shift()), Some(b"\x1b[Z".to_vec()));
}

#[test]
fn ctrl_shift_alt_modifier_sums() {
    let mods = ModifiersState { shift: true, control: true, alt: true, super_key: false };
    let ev = named_event(NamedKey::ArrowLeft);
    assert_eq!(translate_key_event(&ev, &mods), Some(b"\x1b[1;8D".to_vec()));
    let ev = named_event(NamedKey::PageDown);
    assert_eq!(translate_key_event(&ev, &mods), Some(b"\x1b[6;8~".to_vec()));
}

#[test]
fn modified_function_keys() {
    let ev = named_event(NamedKey::F2);
    assert_eq!(translate_key_event(&ev, &ctrl()), Some(b"\x1b[1;5Q".to_vec()));
    let ev = named_event(NamedKey::F11);
    assert_eq!(translate_key_event(&ev, &shift()), Some(b"\x1b[23;2~".to_vec()));
    let ev = named_event(NamedKey::F9);
    assert_eq!(translate_key_event(&ev, &no_mods()), Some(b"\x1b[20~".to_vec()));
}

#[test]
fn ctrl_alt_letter_and_uppercase() {
    let ev = char_event("Z");
    assert_eq!(translate_key_event(&ev, &ctrl()), Some(vec![26]));
    let mods = ModifiersState { control: true, alt: true, ..ModifiersState::empty() };
    let ev = char_event("a");
    assert_eq!(translate_key_event(&ev, &mods), Some(vec![0x1B, 1]));
}

#[test]
fn ctrl_with_non_letter_is_ignored() {
    assert_eq!(translate_key_event(&char_event("1"), &ctrl()), None);
    assert_eq!(translate_key_event(&char_event(""), &ctrl()), None);
}

#[test]
fn multibyte_character_passes_utf8() {
    let ev = char_event("é");
    assert_eq!(translate_key_event(&ev, &no_mods()), Some("é".as_bytes().to_vec()));
    assert_eq!(translate_key_event(&ev, &alt()), Some(vec![0x1B, 0xC3, 0xA9]));
}

#[test]
fn unhandled_keys_return_none() {
    assert_eq!(translate_key_event(&named_event(NamedKey::Other), &no_mods()), None);
    let ev = KeyEvent { logical_key: Key::Unidentified, state: ElementState::Pressed };
    assert_eq!(translate_key_event(&ev, &no_mods()), None);
}
