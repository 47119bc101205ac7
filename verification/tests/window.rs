use iterm2_rs::render::menu::{AppMenu, MenuAction};
use iterm2_rs::render::window::{close_active_tab, key_action, menu_step, KeyAction, MenuEffect, ScrollAction};
use iterm2_rs::terminal::input::{ElementState, Key, KeyEvent, ModifiersState, NamedKey};
use iterm2_rs::terminal::pty::select_shell;
use iterm2_rs::terminal::tab::TabManager;

fn menu() -> AppMenu {
    AppMenu::from_ids(
        "new".to_string(),
        "close".to_string(),
        "exit".to_string(),
        "copy".to_string(),
        "paste".to_string(),
        "next".to_string(),
        "prev".to_string(),
    )
}

#[test]
fn resolve_returns_none_for_unknown_id() {
    let menu = menu();
    assert!(menu.resolve("nonexistent").is_none());
}

#[test]
fn resolve_finds_each_item() {
    let menu = menu();
    assert_eq!(menu.resolve("new"), Some(MenuAction::NewTab));
    assert_eq!(menu.resolve("close"), Some(MenuAction::CloseTab));
    assert_eq!(menu.resolve("exit"), Some(MenuAction::Exit));
    assert_eq!(menu.resolve("copy"), Some(MenuAction::Copy));
    assert_eq!(menu.resolve("paste"), Some(MenuAction::Paste));
    assert_eq!(menu.resolve("next"), Some(MenuAction::NextTab));
    assert_eq!(menu.resolve("prev"), Some(MenuAction::PrevTab));
}

fn pressed(key: Key) -> KeyEvent {
    KeyEvent { logical_key: key, state: ElementState::Pressed }
}

fn mods(control: bool, shift: bool) -> ModifiersState {
    ModifiersState { control, shift, alt: false, super_key: false }
}

#[test]
fn tab_shortcuts() {
    let t = pressed(Key::Character("T".to_string()));
    assert_eq!(key_action(&t, &mods(true, true), 24), KeyAction::Tab(MenuAction::NewTab));
    let w = pressed(Key::Character("w".to_string()));
    assert_eq!(key_action(&w, &mods(true, true), 24), KeyAction::Tab(MenuAction::CloseTab));
    let tab = pressed(Key::Named(NamedKey::Tab));
    assert_eq!(key_action(&tab, &mods(true, false), 24), KeyAction::Tab(MenuAction::NextTab));
    assert_eq!(key_action(&tab, &mods(true, true), 24), KeyAction::Tab(MenuAction::PrevTab));
    // Without Shift, Ctrl+T is a control byte for the shell.
    assert_eq!(key_action(&t, &mods(true, false), 24), KeyAction::Write(vec![20]));
}

#[test]
fn scroll_shortcuts() {
    let up = pressed(Key::Named(NamedKey::PageUp));
    assert_eq!(key_action(&up, &mods(false, true), 24), KeyAction::Scroll(ScrollAction::Lines(-22)));
    let down = pressed(Key::Named(NamedKey::PageDown));
    assert_eq!(key_action(&down, &mods(false, true), 2), KeyAction::Scroll(ScrollAction::Lines(1)));
    let home = pressed(Key::Named(NamedKey::Home));
    assert_eq!(
        key_action(&home, &mods(false, true), 24),
        KeyAction::Scroll(ScrollAction::Lines(i32::MIN / 2))
    );
    let end = pressed(Key::Named(NamedKey::End));
    assert_eq!(key_action(&end, &mods(false, true), 24), KeyAction::Scroll(ScrollAction::Bottom));
    // Without Shift, PageUp goes to the shell.
    assert_eq!(key_action(&up, &mods(false, false), 24), KeyAction::Write(b"\x1b[5~".to_vec()));
    let released = KeyEvent { logical_key: Key::Named(NamedKey::End), state: ElementState::Released };
    assert_eq!(key_action(&released, &mods(false, true), 24), KeyAction::Ignore);
}

#[test]
fn closing_the_last_tab_reports_none_left() {
    let mut tabs: TabManager<()> = TabManager::new();
    tabs.new_tab::<()>(Ok(())).unwrap();
    tabs.new_tab::<()>(Ok(())).unwrap();
    assert!(close_active_tab(&mut tabs));
    assert_eq!(tabs.count(), 1);
    assert!(!close_active_tab(&mut tabs));
    assert_eq!(tabs.count(), 0);
}

#[test]
fn shell_selection_order() {
    let (shell, args) = select_shell(true, true, None);
    assert_eq!((shell.as_str(), args), ("pwsh.exe", vec!["-NoLogo".to_string()]));
    let (shell, args) = select_shell(false, true, Some("x".to_string()));
    assert_eq!((shell.as_str(), args), ("powershell.exe", vec!["-NoLogo".to_string()]));
    let (shell, args) = select_shell(false, false, Some("C:\\cmd.exe".to_string()));
    assert_eq!((shell.as_str(), args.len()), ("C:\\cmd.exe", 0));
    let (shell, _) = select_shell(false, false, None);
    assert_eq!(shell, "cmd.exe");
}

#[test]
fn menu_step_switches_and_closes_tabs() {
    let mut tabs: TabManager<()> = TabManager::new();
    assert_eq!(menu_step(&mut tabs, MenuAction::NewTab), MenuEffect::OpenTab);
    assert_eq!(tabs.count(), 0);
    tabs.new_tab::<()>(Ok(())).unwrap();
    tabs.new_tab::<()>(Ok(())).unwrap();
    tabs.new_tab::<()>(Ok(())).unwrap();
    assert_eq!(tabs.active_index(), 2);
    assert_eq!(menu_step(&mut tabs, MenuAction::NextTab), MenuEffect::Refresh);
    assert_eq!(tabs.active_index(), 0);
    assert_eq!(menu_step(&mut tabs, MenuAction::PrevTab), MenuEffect::Refresh);
    assert_eq!(tabs.active_index(), 2);
    assert_eq!(menu_step(&mut tabs, MenuAction::Copy), MenuEffect::Nothing);
    assert_eq!(menu_step(&mut tabs, MenuAction::Paste), MenuEffect::Paste);
    assert_eq!(tabs.count(), 3);
    assert_eq!(menu_step(&mut tabs, MenuAction::CloseTab), MenuEffect::Refresh);
    assert_eq!(tabs.count(), 2);
    assert_eq!(tabs.active_index(), 1);
    assert_eq!(menu_step(&mut tabs, MenuAction::CloseTab), MenuEffect::Refresh);
    assert_eq!(menu_step(&mut tabs, MenuAction::CloseTab), MenuEffect::Exit);
    assert_eq!(tabs.count(), 0);
    assert_eq!(menu_step(&mut tabs, MenuAction::Exit), MenuEffect::Exit);
}
