use iterm2_rs::terminal::tab::TabManager;

#[test]
fn new_manager_is_empty() {
    let mgr: TabManager<()> = TabManager::new();
    assert_eq!(mgr.count(), 0);
    assert_eq!(mgr.active_index(), 0);
    assert!(mgr.active().is_none());
}

#[test]
fn default_is_same_as_new() {
    let mgr: TabManager<()> = TabManager::default();
    assert_eq!(mgr.count(), 0);
}

#[test]
fn tab_titles_empty() {
    let mgr: TabManager<()> = TabManager::new();
    assert!(mgr.tab_titles().is_empty());
}

#[test]
fn close_tab_on_empty_returns_false() {
    let mut mgr: TabManager<()> = TabManager::new();
    assert!(!mgr.close_tab(0));
}

#[test]
fn close_tab_out_of_bounds_on_empty() {
    let mut mgr: TabManager<()> = TabManager::new();
    assert!(!mgr.close_tab(99));
}

#[test]
fn next_prev_on_empty_does_not_panic() {
    let mut mgr: TabManager<()> = TabManager::new();
    mgr.next_tab();
    mgr.prev_tab();
    mgr.switch_to(0);
    assert_eq!(mgr.active_index(), 0);
}

#[test]
fn new_tabs_are_titled_and_focused() {
    let mut mgr: TabManager<&str> = TabManager::new();
    assert_eq!(mgr.new_tab::<()>(Ok("first")), Ok(0));
    assert_eq!(mgr.new_tab::<()>(Ok("second")), Ok(1));
    assert_eq!(mgr.active_index(), 1);
    assert_eq!(mgr.tab_titles(), vec![(0, "Tab 1", false), (1, "Tab 2", true)]);
    assert_eq!(mgr.active().unwrap().session, "second");
}

#[test]
fn failed_start_uses_up_an_id() {
    let mut mgr: TabManager<u8> = TabManager::new();
    assert_eq!(mgr.new_tab(Ok(1)), Ok::<usize, &str>(0));
    assert_eq!(mgr.new_tab(Err("no shell")), Err("no shell"));
    assert_eq!(mgr.count(), 1);
    assert_eq!(mgr.new_tab::<&str>(Ok(3)), Ok(2));
    assert_eq!(mgr.tab_titles()[1].1, "Tab 3");
}

#[test]
fn next_and_prev_wrap_around() {
    let mut mgr: TabManager<()> = TabManager::new();
    for _ in 0..3 {
        mgr.new_tab::<()>(Ok(())).unwrap();
    }
    assert_eq!(mgr.active_index(), 2);
    mgr.next_tab();
    assert_eq!(mgr.active_index(), 0);
    mgr.prev_tab();
    assert_eq!(mgr.active_index(), 2);
    mgr.prev_tab();
    assert_eq!(mgr.active_index(), 1);
    mgr.switch_to(7);
    assert_eq!(mgr.active_index(), 1);
    mgr.switch_to(0);
    assert_eq!(mgr.active_index(), 0);
}

#[test]
fn closing_keeps_the_active_tab() {
    let mut mgr: TabManager<u32> = TabManager::new();
    for i in 0..4u32 {
        mgr.new_tab::<()>(Ok(i * 10)).unwrap();
    }
    mgr.switch_to(2);
    // Closing a tab before the active one shifts the index, not the tab.
    assert!(mgr.close_tab(0));
    assert_eq!(mgr.active_index(), 1);
    assert_eq!(mgr.active().unwrap().session, 20);
    // Closing the last tab while it is active focuses the new last one.
    mgr.switch_to(2);
    assert!(mgr.close_tab(2));
    assert_eq!(mgr.active_index(), 1);
    assert!(mgr.close_tab(0));
    assert!(!mgr.close_tab(0));
    assert_eq!(mgr.active_index(), 0);
    assert!(mgr.active().is_none());
}

#[test]
fn active_mut_and_get_mut_change_one_tab() {
    let mut mgr: TabManager<u32> = TabManager::new();
    mgr.new_tab::<()>(Ok(1)).unwrap();
    mgr.new_tab::<()>(Ok(2)).unwrap();
    mgr.active_mut().unwrap().session = 5;
    mgr.get_mut(0).unwrap().session = 7;
    assert!(mgr.get_mut(2).is_none());
    mgr.switch_to(0);
    assert_eq!(mgr.active().unwrap().session, 7);
    mgr.switch_to(1);
    assert_eq!(mgr.active().unwrap().session, 5);
}
