//! Keyboard input: the VT/ANSI escape sequences that key events stand for.
//!
//! A key event here holds, as plain values, what the encoding reads of a
//! windowing system's key event: whether the key went down, and which key it
//! is (a named key or the text of a character key).

use vstd::prelude::*;
use vstd::utf8::encode_utf8;

verus! {

/// Whether a key went down or came up.
#[derive(Debug, Clone, Copy, PartialEq, Eq, Structural)]
pub enum ElementState {
    Pressed,
    Released,
}

/// The named (special) keys that the encoding distinguishes.
#[derive(Debug, Clone, Copy, PartialEq, Eq, Structural)]
pub enum NamedKey {
    Enter,
    Backspace,
    Tab,
    Escape,
    ArrowUp,
    ArrowDown,
    ArrowLeft,
    ArrowRight,
    Home,
    End,
    Insert,
    Delete,
    PageUp,
    PageDown,
    F1,
    F2,
    F3,
    F4,
    F5,
    F6,
    F7,
    F8,
    F9,
    F10,
    F11,
    F12,
    /// Any other named key (space, media keys, lone modifiers, ...).
    Other,
}

/// The logical key of an event.
#[derive(Debug, Clone, PartialEq)]
pub enum Key {
    /// A special key.
    Named(NamedKey),
    /// A key that produces text.
    Character(String),
    /// A key the platform could not identify.
    Unidentified,
    /// A dead key, with the character it would combine into, if known.
    Dead(Option<char>),
}

/// A keyboard event.
#[derive(Debug, Clone, PartialEq)]
pub struct KeyEvent {
    pub logical_key: Key,
    pub state: ElementState,
}

/// Which modifier keys are held.
#[derive(Debug, Clone, Copy, PartialEq, Eq, Structural, Default)]
pub struct ModifiersState {
    pub shift: bool,
    pub control: bool,
    pub alt: bool,
    pub super_key: bool,
}

impl ModifiersState {
    /// No modifier held.
    pub fn empty() -> (m: Self)
        ensures
            !m.shift && !m.control && !m.alt && !m.super_key,
    {
        ModifiersState { shift: false, control: false, alt: false, super_key: false }
    }

    pub fn shift_key(&self) -> (b: bool)
        ensures
            b == self.shift,
    {
        self.shift
    }

    pub fn control_key(&self) -> (b: bool)
        ensures
            b == self.control,
    {
        self.control
    }

    pub fn alt_key(&self) -> (b: bool)
        ensures
            b == self.alt,
    {
        self.alt
    }
}

// ---------------------------------------------------------------------------
// The escape sequences, as mathematics
// ---------------------------------------------------------------------------

/// xterm modifier parameter: 1 = none, 2 = Shift, 3 = Alt, 5 = Ctrl, and
/// combinations are additive.
pub open spec fn modifier_value(shift: bool, alt: bool, ctrl: bool) -> u8 {
    (1 + (if shift { 1int } else { 0 }) + (if alt { 2int } else { 0 }) + (if ctrl {
        4int
    } else {
        0
    })) as u8
}

/// The ASCII digit of a value below ten.
pub open spec fn digit(v: u8) -> u8 {
    (48 + v) as u8
}

pub open spec fn esc() -> u8 {
    0x1b
}

/// `ESC [ <suffix>`, or `ESC [ 1 ; <m> <suffix>` when a modifier is held.
pub open spec fn csi_letter(m: u8, suffix: u8) -> Seq<u8> {
    if m > 1 {
        seq![esc(), 0x5b, 0x31, 0x3b, digit(m), suffix]
    } else {
        seq![esc(), 0x5b, suffix]
    }
}

/// `ESC [ <num> ~`, or `ESC [ <num> ; <m> ~` when a modifier is held; `num`
/// is given by its digits.
pub open spec fn csi_tilde(num: Seq<u8>, m: u8) -> Seq<u8> {
    if m > 1 {
        seq![esc(), 0x5b] + num + seq![0x3b, digit(m), 0x7e]
    } else {
        seq![esc(), 0x5b] + num + seq![0x7e]
    }
}

pub open spec fn arrow_letter(key: NamedKey) -> Option<u8> {
    match key {
        NamedKey::ArrowUp => Some(0x41u8),
        NamedKey::ArrowDown => Some(0x42u8),
        NamedKey::ArrowRight => Some(0x43u8),
        NamedKey::ArrowLeft => Some(0x44u8),
        _ => None,
    }
}

pub open spec fn home_end_letter(key: NamedKey) -> Option<u8> {
    match key {
        NamedKey::Home => Some(0x48u8),
        NamedKey::End => Some(0x46u8),
        _ => None,
    }
}

pub open spec fn tilde_number(key: NamedKey) -> Option<u8> {
    match key {
        NamedKey::Insert => Some(2u8),
        NamedKey::Delete => Some(3u8),
        NamedKey::PageUp => Some(5u8),
        NamedKey::PageDown => Some(6u8),
        _ => None,
    }
}

/// F1-F4: the final letter of their SS3 / CSI sequences.
pub open spec fn ss3_letter(key: NamedKey) -> Option<u8> {
    match key {
        NamedKey::F1 => Some(0x50u8),
        NamedKey::F2 => Some(0x51u8),
        NamedKey::F3 => Some(0x52u8),
        NamedKey::F4 => Some(0x53u8),
        _ => None,
    }
}

/// F5-F12: the two-digit number of their CSI sequences.
pub open spec fn function_number(key: NamedKey) -> Option<(u8, u8)> {
    match key {
        NamedKey::F5 => Some((1u8, 5u8)),
        NamedKey::F6 => Some((1u8, 7u8)),
        NamedKey::F7 => Some((1u8, 8u8)),
        NamedKey::F8 => Some((1u8, 9u8)),
        NamedKey::F9 => Some((2u8, 0u8)),
        NamedKey::F10 => Some((2u8, 1u8)),
        NamedKey::F11 => Some((2u8, 3u8)),
        NamedKey::F12 => Some((2u8, 4u8)),
        _ => None,
    }
}

/// The bytes for a function key.
pub open spec fn function_bytes(key: NamedKey, m: u8) -> Option<Seq<u8>> {
    match ss3_letter(key) {
        Some(l) => if m > 1 {
            Some(csi_letter(m, l))
        } else {
            Some(seq![esc(), 0x4f, l])
        },
        None => match function_number(key) {
            Some((a, b)) => Some(csi_tilde(seq![digit(a), digit(b)], m)),
            None => None,
        },
    }
}

/// The bytes for a named key.
pub open spec fn named_bytes(key: NamedKey, ctrl: bool, alt: bool, shift: bool) -> Option<Seq<u8>> {
    let m = modifier_value(shift, alt, ctrl);
    match key {
        NamedKey::Enter => Some(seq![0x0du8]),
        NamedKey::Backspace => Some(seq![0x7fu8]),
        NamedKey::Tab => if shift {
            Some(seq![esc(), 0x5b, 0x5a])
        } else {
            Some(seq![0x09u8])
        },
        NamedKey::Escape => Some(seq![esc()]),
        _ => match arrow_letter(key) {
            Some(l) => Some(csi_letter(m, l)),
            None => match home_end_letter(key) {
                Some(l) => Some(csi_letter(m, l)),
                None => match tilde_number(key) {
                    Some(n) => Some(csi_tilde(seq![digit(n)], m)),
                    None => function_bytes(key, m),
                },
            },
        },
    }
}

/// An ASCII letter.
pub open spec fn is_ascii_letter(c: char) -> bool {
    ('a' <= c <= 'z') || ('A' <= c <= 'Z')
}

/// The control byte of a letter: 1 for `a` / `A` up to 26 for `z` / `Z`.
pub open spec fn control_byte(c: char) -> u8 {
    if 'a' <= c <= 'z' {
        (c as u32 - 96) as u8
    } else {
        (c as u32 - 64) as u8
    }
}

/// The bytes for a character key with Ctrl held.
pub open spec fn ctrl_char_bytes(c: Seq<char>, alt: bool) -> Option<Seq<u8>> {
    if c == seq!['['] {
        Some(seq![esc()])
    } else if c.len() > 0 && is_ascii_letter(c[0]) {
        if alt {
            Some(seq![esc(), control_byte(c[0])])
        } else {
            Some(seq![control_byte(c[0])])
        }
    } else {
        None
    }
}

/// The bytes for a character key.
pub open spec fn char_bytes(c: Seq<char>, ctrl: bool, alt: bool) -> Option<Seq<u8>> {
    if ctrl {
        ctrl_char_bytes(c, alt)
    } else if alt {
        Some(seq![esc()] + encode_utf8(c))
    } else {
        Some(encode_utf8(c))
    }
}

/// The bytes to write to the terminal for a key event.
pub open spec fn key_event_bytes(event: KeyEvent, mods: ModifiersState) -> Option<Seq<u8>> {
    if event.state != ElementState::Pressed {
        None
    } else {
        match event.logical_key {
            Key::Named(k) => named_bytes(k, mods.control, mods.alt, mods.shift),
            Key::Character(c) => char_bytes(c@, mods.control, mods.alt),
            _ => None,
        }
    }
}

// ---------------------------------------------------------------------------
// Encoding key events
// ---------------------------------------------------------------------------

/// Turn a key event into the byte sequence that should be written to
/// the PTY. Returns `None` for events we don't handle (key releases, lone
/// modifier presses, etc.).
pub fn translate_key_event(event: &KeyEvent, modifiers: &ModifiersState) -> (r: Option<Vec<u8>>)
    ensures
        r matches Some(v) ==> key_event_bytes(*event, *modifiers) == Some(v@),
        r is None ==> key_event_bytes(*event, *modifiers) is None,
{
    // Only handle key presses.
    if event.state != ElementState::Pressed {
        return None;
    }
    let ctrl = modifiers.control_key();
    let alt = modifiers.alt_key();
    let shift = modifiers.shift_key();
    match &event.logical_key {
        Key::Named(named) => translate_named(*named, ctrl, alt, shift),
        Key::Character(c) => translate_character(c.as_str(), ctrl, alt),
        _ => None,
    }
}

/// `ESC [` followed by the given bytes.
fn csi(rest: &[u8]) -> (v: Vec<u8>)
    ensures
        v@ == seq![esc(), 0x5bu8] + rest@,
{
    let mut v: Vec<u8> = Vec::new();
    v.push(0x1b);
    v.push(0x5b);
    let mut i: usize = 0;
    while i < rest.len()
        invariant
            i <= rest@.len(),
            v@ == seq![esc(), 0x5bu8] + rest@.take(i as int),
        decreases rest.len() - i,
    {
        v.push(rest[i]);
        assert(rest@.take(i + 1) =~= rest@.take(i as int).push(rest@[i as int]));
        assert(v@ =~= seq![esc(), 0x5bu8] + rest@.take(i + 1));
        i += 1;
    }
    assert(rest@.take(i as int) =~= rest@);
    v
}

/// The CSI sequence ending in a letter, with the modifier if one is held.
fn csi_letter_exec(m: u8, suffix: u8) -> (v: Vec<u8>)
    requires
        m <= 9,
    ensures
        v@ == csi_letter(m, suffix),
{
    if m > 1 {
        let v = csi(&[0x31, 0x3b, 48 + m, suffix]);
        assert(v@ =~= csi_letter(m, suffix));
        v
    } else {
        let v = csi(&[suffix]);
        assert(v@ =~= csi_letter(m, suffix));
        v
    }
}

/// The CSI sequence ending in `~` for a one- or two-digit key number.
fn csi_tilde_exec(num: &[u8], m: u8) -> (v: Vec<u8>)
    requires
        m <= 9,
    ensures
        v@ == csi_tilde(num@, m),
{
    let mut v = csi(num);
    if m > 1 {
        v.push(0x3b);
        v.push(48 + m);
    }
    v.push(0x7e);
    assert(v@ =~= csi_tilde(num@, m));
    v
}

fn translate_named(key: NamedKey, ctrl: bool, alt: bool, shift: bool) -> (r: Option<Vec<u8>>)
    ensures
        r matches Some(v) ==> named_bytes(key, ctrl, alt, shift) == Some(v@),
        r is None ==> named_bytes(key, ctrl, alt, shift) is None,
{
    // Simple named keys (no modifier encoding).
    match key {
        NamedKey::Enter => {
            let v = vec![0x0d];
            assert(v@ =~= seq![0x0du8]);
            return Some(v);
        },
        NamedKey::Backspace => {
            let v = vec![0x7f];
            assert(v@ =~= seq![0x7fu8]);
            return Some(v);
        },
        NamedKey::Tab => {
            if shift {
                let v = vec![0x1b, 0x5b, 0x5a];
                assert(v@ =~= seq![esc(), 0x5b, 0x5a]);
                return Some(v);  // back-tab
            }
            let v = vec![0x09];
            assert(v@ =~= seq![0x09u8]);
            return Some(v);
        },
        NamedKey::Escape => {
            let v = vec![0x1b];
            assert(v@ =~= seq![esc()]);
            return Some(v);
        },
        _ => {},
    }
    // Arrow keys — support modifier encoding.
    if let Some(suffix) = arrow_suffix(key) {
        let mod_param = modifier_param(shift, alt, ctrl);
        return Some(csi_letter_exec(mod_param, suffix));
    }
    // Home / End — same modifier encoding pattern as arrows.
    if let Some(suffix) = home_end_suffix(key) {
        let mod_param = modifier_param(shift, alt, ctrl);
        return Some(csi_letter_exec(mod_param, suffix));
    }
    // Tilde-style keys: Insert, Delete, PageUp, PageDown.
    if let Some(num) = tilde_key_number(key) {
        let mod_param = modifier_param(shift, alt, ctrl);
        return Some(csi_tilde_exec(&[48 + num], mod_param));
    }
    // Function keys F1-F12.
    function_key(key, shift, alt, ctrl)
}

fn arrow_suffix(key: NamedKey) -> (r: Option<u8>)
    ensures
        r == arrow_letter(key),
{
    match key {
        NamedKey::ArrowUp => Some(0x41),
        NamedKey::ArrowDown => Some(0x42),
        NamedKey::ArrowRight => Some(0x43),
        NamedKey::ArrowLeft => Some(0x44),
        _ => None,
    }
}

fn home_end_suffix(key: NamedKey) -> (r: Option<u8>)
    ensures
        r == home_end_letter(key),
{
    match key {
        NamedKey::Home => Some(0x48),
        NamedKey::End => Some(0x46),
        _ => None,
    }
}

fn tilde_key_number(key: NamedKey) -> (r: Option<u8>)
    ensures
        r == tilde_number(key),
{
    match key {
        NamedKey::Insert => Some(2),
        NamedKey::Delete => Some(3),
        NamedKey::PageUp => Some(5),
        NamedKey::PageDown => Some(6),
        _ => None,
    }
}

/// xterm modifier parameter: 1 = none, 2 = Shift, 3 = Alt, 5 = Ctrl, and
/// combinations are additive (Shift+Ctrl = 6, etc.).
pub fn modifier_param(shift: bool, alt: bool, ctrl: bool) -> (m: u8)
    ensures
        m == modifier_value(shift, alt, ctrl),
        1 <= m <= 8,
{
    let mut m: u8 = 1;
    if shift {
        m += 1;
    }
    if alt {
        m += 2;
    }
    if ctrl {
        m += 4;
    }
    m
}

/// F1-F12 escape sequences (SS3 for F1-F4, CSI for F5-F12).
fn function_key(key: NamedKey, shift: bool, alt: bool, ctrl: bool) -> (r: Option<Vec<u8>>)
    ensures
        r matches Some(v) ==> function_bytes(key, modifier_value(shift, alt, ctrl)) == Some(v@),
        r is None ==> function_bytes(key, modifier_value(shift, alt, ctrl)) is None,
{
    // F1-F4 use SS3 encoding when unmodified, CSI with modifier otherwise.
    let mod_param = modifier_param(shift, alt, ctrl);
    let has_mod = mod_param > 1;
    let letter: Option<u8> = match key {
        NamedKey::F1 => Some(0x50),
        NamedKey::F2 => Some(0x51),
        NamedKey::F3 => Some(0x52),
        NamedKey::F4 => Some(0x53),
        _ => None,
    };
    if let Some(l) = letter {
        if has_mod {
            return Some(csi_letter_exec(mod_param, l));
        }
        let v = vec![0x1b, 0x4f, l];
        assert(v@ =~= seq![esc(), 0x4f, l]);
        return Some(v);
    }
    let number: Option<(u8, u8)> = match key {
        NamedKey::F5 => Some((1, 5)),
        NamedKey::F6 => Some((1, 7)),
        NamedKey::F7 => Some((1, 8)),
        NamedKey::F8 => Some((1, 9)),
        NamedKey::F9 => Some((2, 0)),
        NamedKey::F10 => Some((2, 1)),
        NamedKey::F11 => Some((2, 3)),
        NamedKey::F12 => Some((2, 4)),
        _ => None,
    };
    match number {
        Some((a, b)) => {
            let num = [48 + a, 48 + b];
            assert(num@ =~= seq![digit(a), digit(b)]);
            Some(csi_tilde_exec(&num, mod_param))
        },
        None => None,
    }
}

/// The UTF-8 bytes of a string, copied.
fn bytes_of(c: &str) -> (v: Vec<u8>)
    ensures
        v@ == encode_utf8(c@),
{
    let bytes = c.as_bytes();
    let mut v: Vec<u8> = Vec::new();
    let mut i: usize = 0;
    while i < bytes.len()
        invariant
            i <= bytes@.len(),
            v@ == bytes@.take(i as int),
        decreases bytes.len() - i,
    {
        v.push(bytes[i]);
        assert(bytes@.take(i + 1) =~= bytes@.take(i as int).push(bytes@[i as int]));
        i += 1;
    }
    assert(bytes@.take(i as int) =~= bytes@);
    v
}

/// The bytes for a character key.
pub fn translate_character(c: &str, ctrl: bool, alt: bool) -> (r: Option<Vec<u8>>)
    ensures
        r matches Some(v) ==> char_bytes(c@, ctrl, alt) == Some(v@),
        r is None ==> char_bytes(c@, ctrl, alt) is None,
{
    if ctrl {
        return translate_ctrl_character(c, alt);
    }
    let bytes = bytes_of(c);
    if alt {
        // Alt+key => ESC prefix followed by the character bytes.
        let mut out = vec![0x1b];
        let mut i: usize = 0;
        assert(out@ =~= seq![esc()] + bytes@.take(0));
        while i < bytes.len()
            invariant
                i <= bytes@.len(),
                out@ == seq![esc()] + bytes@.take(i as int),
            decreases bytes.len() - i,
        {
            out.push(bytes[i]);
            assert(bytes@.take(i + 1) =~= bytes@.take(i as int).push(bytes@[i as int]));
            assert(out@ =~= seq![esc()] + bytes@.take(i + 1));
            i += 1;
        }
        assert(bytes@.take(i as int) =~= bytes@);
        return Some(out);
    }
    // Plain character — return its UTF-8 bytes.
    Some(bytes)
}

/// The bytes for a character key pressed with Ctrl.
pub fn translate_ctrl_character(c: &str, alt: bool) -> (r: Option<Vec<u8>>)
    ensures
        r matches Some(v) ==> ctrl_char_bytes(c@, alt) == Some(v@),
        r is None ==> ctrl_char_bytes(c@, alt) is None,
{
    let chars = crate::text::chars_of(c);
    // Ctrl+[ => ESC
    if chars.len() == 1 && chars[0] == '[' {
        assert(chars@ =~= seq!['[']);
        let v = vec![0x1b];
        assert(v@ =~= seq![esc()]);
        return Some(v);
    }
    proof {
        if chars@ == seq!['['] {
            assert(chars@.len() == 1 && chars@[0] == '[');
        }
    }
    // Ctrl+letter => byte 1-26.
    if chars.len() == 0 {
        return None;
    }
    let first = chars[0];
    if ('a' <= first && first <= 'z') || ('A' <= first && first <= 'Z') {
        let byte: u8 = if 'a' <= first && first <= 'z' {
            (first as u32 - 96) as u8
        } else {
            (first as u32 - 64) as u8
        };
        if alt {
            let v = vec![0x1b, byte];
            assert(v@ =~= seq![esc(), control_byte(first)]);
            Some(v)
        } else {
            let v = vec![byte];
            assert(v@ =~= seq![control_byte(first)]);
            Some(v)
        }
    } else {
        None
    }
}

// ---------------------------------------------------------------------------
// Laws of the function keys
// ---------------------------------------------------------------------------

/// A press of a named key.
pub open spec fn press(k: NamedKey) -> KeyEvent {
    KeyEvent { logical_key: Key::Named(k), state: ElementState::Pressed }
}

/// No modifier held.
pub open spec fn no_modifiers() -> ModifiersState {
    ModifiersState { shift: false, control: false, alt: false, super_key: false }
}

/// F1 to F12.
pub open spec fn is_function_key(k: NamedKey) -> bool {
    matches!(k, NamedKey::F1 | NamedKey::F2 | NamedKey::F3 | NamedKey::F4 | NamedKey::F5 | NamedKey::F6 | NamedKey::F7 | NamedKey::F8 | NamedKey::F9 | NamedKey::F10 | NamedKey::F11 | NamedKey::F12)
}

/// The function key that a sequence a terminal receives stands for: the
/// final letter `P`-`S` of `ESC O <letter>` or `ESC [ 1 ; <m> <letter>`
/// names F1-F4, and the number of `ESC [ <number> ~` or
/// `ESC [ <number> ; <m> ~` names F5-F12 (15, 17, 18, 19, 20, 21, 23, 24).
pub open spec fn function_key_named(b: Seq<u8>) -> Option<NamedKey> {
    if b.len() < 3 || b[0] != 0x1b {
        None
    } else if b.last() == 0x7e && b.len() >= 5 && b[1] == 0x5b {
        let n = (b[2], b[3]);
        if n == (0x31u8, 0x35u8) {
            Some(NamedKey::F5)
        } else if n == (0x31u8, 0x37u8) {
            Some(NamedKey::F6)
        } else if n == (0x31u8, 0x38u8) {
            Some(NamedKey::F7)
        } else if n == (0x31u8, 0x39u8) {
            Some(NamedKey::F8)
        } else if n == (0x32u8, 0x30u8) {
            Some(NamedKey::F9)
        } else if n == (0x32u8, 0x31u8) {
            Some(NamedKey::F10)
        } else if n == (0x32u8, 0x33u8) {
            Some(NamedKey::F11)
        } else if n == (0x32u8, 0x34u8) {
            Some(NamedKey::F12)
        } else {
            None
        }
    } else if b.last() == 0x50 {
        Some(NamedKey::F1)
    } else if b.last() == 0x51 {
        Some(NamedKey::F2)
    } else if b.last() == 0x52 {
        Some(NamedKey::F3)
    } else if b.last() == 0x53 {
        Some(NamedKey::F4)
    } else {
        None
    }
}

/// Whatever modifiers are held, the sequence a function key writes names
/// that key and no other: distinct function keys write distinct sequences.
pub proof fn lemma_function_key_sequences_distinct(k1: NamedKey, k2: NamedKey, mods: ModifiersState)
    requires
        is_function_key(k1),
        is_function_key(k2),
    ensures
        key_event_bytes(press(k1), mods) matches Some(b) && function_key_named(b) == Some(k1),
        key_event_bytes(press(k1), mods) == key_event_bytes(press(k2), mods) ==> k1 == k2,
{
    lemma_function_key_named(k1, mods);
    lemma_function_key_named(k2, mods);
}

proof fn lemma_function_key_named(k: NamedKey, mods: ModifiersState)
    requires
        is_function_key(k),
    ensures
        key_event_bytes(press(k), mods) matches Some(b) && function_key_named(b) == Some(k),
{
    let m = modifier_value(mods.shift, mods.alt, mods.control);
    assert(1 <= m <= 8);
    let b = key_event_bytes(press(k), mods).unwrap();
    if ss3_letter(k) is Some {
        assert(b.last() == ss3_letter(k).unwrap());
    } else {
        let (x, y) = function_number(k).unwrap();
        assert(b[2] == digit(x) && b[3] == digit(y));
        assert(b.last() == 0x7e);
    }
}

/// Unmodified, F1-F4 write `ESC O P` to `ESC O S`, and F5-F12 write
/// `ESC [ 15 ~`, `17 ~`, `18 ~`, `19 ~`, `20 ~`, `21 ~`, `23 ~` and `24 ~`.
pub proof fn lemma_unmodified_function_keys(k: NamedKey)
    requires
        is_function_key(k),
    ensures
        key_event_bytes(press(k), no_modifiers()) == Some(
            match k {
                NamedKey::F1 => seq![0x1bu8, 0x4f, 0x50],
                NamedKey::F2 => seq![0x1bu8, 0x4f, 0x51],
                NamedKey::F3 => seq![0x1bu8, 0x4f, 0x52],
                NamedKey::F4 => seq![0x1bu8, 0x4f, 0x53],
                NamedKey::F5 => seq![0x1bu8, 0x5b, 0x31, 0x35, 0x7e],
                NamedKey::F6 => seq![0x1bu8, 0x5b, 0x31, 0x37, 0x7e],
                NamedKey::F7 => seq![0x1bu8, 0x5b, 0x31, 0x38, 0x7e],
                NamedKey::F8 => seq![0x1bu8, 0x5b, 0x31, 0x39, 0x7e],
                NamedKey::F9 => seq![0x1bu8, 0x5b, 0x32, 0x30, 0x7e],
                NamedKey::F10 => seq![0x1bu8, 0x5b, 0x32, 0x31, 0x7e],
                NamedKey::F11 => seq![0x1bu8, 0x5b, 0x32, 0x33, 0x7e],
                _ => seq![0x1bu8, 0x5b, 0x32, 0x34, 0x7e],
            },
        ),
{
    let b = key_event_bytes(press(k), no_modifiers()).unwrap();
    assert(modifier_value(false, false, false) == 1);
    if ss3_letter(k) is None {
        let (x, y) = function_number(k).unwrap();
        assert(b =~= seq![0x1bu8, 0x5b, digit(x), digit(y), 0x7e]);
    }
}

} // verus!
