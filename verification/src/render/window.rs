//! What the window does with a key press: tab shortcuts, scrollback
//! shortcuts, or bytes for the terminal.
//!
//! The window's event loop asks [`key_action`] what a key event means and
//! then carries the action out on its tabs, its view and its PTY.

use vstd::prelude::*;

use crate::render::menu::MenuAction;
use crate::terminal::input::{
    key_event_bytes, translate_key_event, ElementState, Key, KeyEvent, ModifiersState, NamedKey,
};
use crate::terminal::tab::{active_after_close, TabManager};

verus! {

/// Moving the view over the scrollback.
#[derive(Debug, Clone, Copy, PartialEq, Eq, Structural)]
pub enum ScrollAction {
    /// Scroll by this many lines (negative: back into the history).
    Lines(i32),
    /// Back to the bottom, where new output appears.
    Bottom,
}

/// What a key press asks of the window.
#[derive(Debug, Clone, PartialEq)]
pub enum KeyAction {
    /// A tab management shortcut.
    Tab(MenuAction),
    /// A scrollback shortcut.
    Scroll(ScrollAction),
    /// Bytes to write to the active terminal.
    Write(Vec<u8>),
    /// Nothing to do.
    Ignore,
}

/// The text of a character key is this letter in either case.
pub open spec fn is_letter_key(c: Seq<char>, lower: char, upper: char) -> bool {
    c == seq![lower] || c == seq![upper]
}

/// The tab shortcut a key event makes, if any: Ctrl+Shift+T opens a tab,
/// Ctrl+Shift+W closes the active one, Ctrl+Tab and Ctrl+Shift+Tab move to
/// the next and the previous tab.
pub open spec fn tab_shortcut_spec(event: KeyEvent, mods: ModifiersState) -> Option<MenuAction> {
    if event.state != ElementState::Pressed || !mods.control {
        None
    } else {
        match event.logical_key {
            Key::Character(c) => if mods.shift && is_letter_key(c@, 't', 'T') {
                Some(MenuAction::NewTab)
            } else if mods.shift && is_letter_key(c@, 'w', 'W') {
                Some(MenuAction::CloseTab)
            } else {
                None
            },
            Key::Named(NamedKey::Tab) => if mods.shift {
                Some(MenuAction::PrevTab)
            } else {
                Some(MenuAction::NextTab)
            },
            _ => None,
        }
    }
}

/// A page of scrollback: two lines less than the screen, at least one.
pub open spec fn page_size(rows: u16) -> i32 {
    if rows <= 2 {
        1
    } else {
        (rows - 2) as i32
    }
}

/// The scrollback shortcut a key event makes, if any: Shift+PageUp and
/// Shift+PageDown scroll a page, Shift+Home goes to the top of the history
/// and Shift+End back to the bottom.
pub open spec fn scroll_shortcut_spec(event: KeyEvent, mods: ModifiersState, rows: u16) -> Option<
    ScrollAction,
> {
    if event.state != ElementState::Pressed || !mods.shift {
        None
    } else {
        match event.logical_key {
            Key::Named(NamedKey::PageUp) => Some(ScrollAction::Lines((-page_size(rows)) as i32)),
            Key::Named(NamedKey::PageDown) => Some(ScrollAction::Lines(page_size(rows))),
            Key::Named(NamedKey::Home) => Some(ScrollAction::Lines((i32::MIN / 2) as i32)),
            Key::Named(NamedKey::End) => Some(ScrollAction::Bottom),
            _ => None,
        }
    }
}

/// Whether a character key's text is this letter in either case.
fn letter_key(c: &String, lower: char, upper: char) -> (b: bool)
    ensures
        b == is_letter_key(c@, lower, upper),
{
    let chars = crate::text::chars_of(c.as_str());
    let b = chars.len() == 1 && (chars[0] == lower || chars[0] == upper);
    proof {
        if is_letter_key(c@, lower, upper) {
            assert(seq![lower][0] == lower && seq![upper][0] == upper);
        }
        if b {
            assert(chars@ =~= seq![chars@[0]]);
        }
    }
    b
}

/// Check if a key event is a tab management shortcut.
pub fn tab_shortcut(event: &KeyEvent, modifiers: &ModifiersState) -> (r: Option<MenuAction>)
    ensures
        r == tab_shortcut_spec(*event, *modifiers),
{
    if event.state != ElementState::Pressed {
        return None;
    }
    let ctrl = modifiers.control_key();
    let shift = modifiers.shift_key();
    if !ctrl {
        return None;
    }
    match &event.logical_key {
        Key::Character(c) => {
            if shift && letter_key(c, 't', 'T') {
                Some(MenuAction::NewTab)
            } else if shift && letter_key(c, 'w', 'W') {
                Some(MenuAction::CloseTab)
            } else {
                None
            }
        },
        Key::Named(NamedKey::Tab) => {
            if shift {
                Some(MenuAction::PrevTab)
            } else {
                Some(MenuAction::NextTab)
            }
        },
        _ => None,
    }
}

/// Check if a key event is a scrollback shortcut (Shift + PageUp/Down/Home/End).
pub fn scroll_shortcut(event: &KeyEvent, modifiers: &ModifiersState, rows: u16) -> (r: Option<
    ScrollAction,
>)
    ensures
        r == scroll_shortcut_spec(*event, *modifiers, rows),
{
    if event.state != ElementState::Pressed || !modifiers.shift_key() {
        return None;
    }
    let page: i32 = if rows <= 2 {
        1
    } else {
        rows as i32 - 2
    };
    match &event.logical_key {
        Key::Named(NamedKey::PageUp) => Some(ScrollAction::Lines(-page)),
        Key::Named(NamedKey::PageDown) => Some(ScrollAction::Lines(page)),
        Key::Named(NamedKey::Home) => Some(ScrollAction::Lines(i32::MIN / 2)),
        Key::Named(NamedKey::End) => Some(ScrollAction::Bottom),
        _ => None,
    }
}

/// What a key press asks of the window: a tab shortcut first, then a
/// scrollback shortcut, otherwise the bytes the key stands for.
pub fn key_action(event: &KeyEvent, modifiers: &ModifiersState, rows: u16) -> (a: KeyAction)
    ensures
        tab_shortcut_spec(*event, *modifiers) matches Some(t) ==> a == KeyAction::Tab(t),
        tab_shortcut_spec(*event, *modifiers) is None ==> (scroll_shortcut_spec(
            *event,
            *modifiers,
            rows,
        ) matches Some(s) ==> a == KeyAction::Scroll(s)),
        tab_shortcut_spec(*event, *modifiers) is None && scroll_shortcut_spec(
            *event,
            *modifiers,
            rows,
        ) is None ==> match key_event_bytes(*event, *modifiers) {
            Some(b) => a matches KeyAction::Write(v) && v@ == b,
            None => a == KeyAction::Ignore,
        },
{
    if let Some(t) = tab_shortcut(event, modifiers) {
        return KeyAction::Tab(t);
    }
    if let Some(s) = scroll_shortcut(event, modifiers, rows) {
        return KeyAction::Scroll(s);
    }
    match translate_key_event(event, modifiers) {
        Some(bytes) => KeyAction::Write(bytes),
        None => KeyAction::Ignore,
    }
}

/// Close the active tab. Returns `false` when no tab is left, and the
/// window should close.
pub fn close_active_tab<S>(tabs: &mut TabManager<S>) -> (left: bool)
    requires
        old(tabs).wf(),
    ensures
        final(tabs).wf(),
        left == (final(tabs)@.tabs.len() > 0),
        old(tabs)@.active < old(tabs)@.tabs.len() ==> final(tabs)@.tabs == old(tabs)@.tabs.remove(
            old(tabs)@.active as int,
        ),
        old(tabs)@.tabs.len() == 0 ==> final(tabs)@ == old(tabs)@,
        final(tabs)@.active == active_after_close(
            old(tabs)@.active,
            old(tabs)@.active,
            old(tabs)@.tabs.len(),
        ),
{
    let index = tabs.active_index();
    tabs.close_tab(index)
}

/// What the window still has to do after a menu action has been applied
/// to its tabs.
#[derive(Debug, Clone, Copy, PartialEq, Eq, Structural)]
pub enum MenuEffect {
    /// Open a new tab (a new shell is needed for it).
    OpenTab,
    /// Paste the clipboard's text into the active terminal.
    Paste,
    /// Show the tab that is now active.
    Refresh,
    /// Close the window: no tab is left, or exit was asked for.
    Exit,
    /// Nothing to do.
    Nothing,
}

/// The active tab after moving to the next one among `len` tabs.
pub open spec fn next_active(active: usize, len: nat) -> usize {
    if len > 1 {
        ((active + 1) % (len as int)) as usize
    } else {
        active
    }
}

/// The active tab after moving to the previous one among `len` tabs.
pub open spec fn prev_active(active: usize, len: nat) -> usize {
    if len > 1 {
        if active == 0 {
            (len - 1) as usize
        } else {
            (active - 1) as usize
        }
    } else {
        active
    }
}

/// Carry out a menu action on the tabs and say what is left for the window
/// to do: closing the active tab exits when it was the last, switching tabs
/// shows the new active tab, and opening a tab, pasting and exiting are
/// left to the window; copying does nothing yet.
pub fn menu_step<S>(tabs: &mut TabManager<S>, action: MenuAction) -> (eff: MenuEffect)
    requires
        old(tabs).wf(),
    ensures
        final(tabs).wf(),
        final(tabs)@.next_id == old(tabs)@.next_id,
        match action {
            MenuAction::CloseTab => {
                &&& (old(tabs)@.active < old(tabs)@.tabs.len() ==> final(tabs)@.tabs == old(
                    tabs,
                )@.tabs.remove(old(tabs)@.active as int))
                &&& (old(tabs)@.tabs.len() == 0 ==> final(tabs)@ == old(tabs)@)
                &&& final(tabs)@.active == active_after_close(
                    old(tabs)@.active,
                    old(tabs)@.active,
                    old(tabs)@.tabs.len(),
                )
                &&& eff == (if final(tabs)@.tabs.len() > 0 {
                    MenuEffect::Refresh
                } else {
                    MenuEffect::Exit
                })
            },
            MenuAction::NextTab => {
                &&& final(tabs)@.tabs == old(tabs)@.tabs
                &&& final(tabs)@.active == next_active(old(tabs)@.active, old(tabs)@.tabs.len())
                &&& eff == MenuEffect::Refresh
            },
            MenuAction::PrevTab => {
                &&& final(tabs)@.tabs == old(tabs)@.tabs
                &&& final(tabs)@.active == prev_active(old(tabs)@.active, old(tabs)@.tabs.len())
                &&& eff == MenuEffect::Refresh
            },
            MenuAction::NewTab => final(tabs)@ == old(tabs)@ && eff == MenuEffect::OpenTab,
            MenuAction::Exit => final(tabs)@ == old(tabs)@ && eff == MenuEffect::Exit,
            MenuAction::Copy => final(tabs)@ == old(tabs)@ && eff == MenuEffect::Nothing,
            MenuAction::Paste => final(tabs)@ == old(tabs)@ && eff == MenuEffect::Paste,
        },
{
    match action {
        MenuAction::NewTab => MenuEffect::OpenTab,
        MenuAction::CloseTab => {
            let index = tabs.active_index();
            if tabs.close_tab(index) {
                MenuEffect::Refresh
            } else {
                MenuEffect::Exit
            }
        },
        MenuAction::Exit => MenuEffect::Exit,
        MenuAction::Copy => MenuEffect::Nothing,
        MenuAction::Paste => MenuEffect::Paste,
        MenuAction::NextTab => {
            tabs.next_tab();
            MenuEffect::Refresh
        },
        MenuAction::PrevTab => {
            tabs.prev_tab();
            MenuEffect::Refresh
        },
    }
}

} // verus!
