use iterm2_rs::tmux::events::TmuxEvent;
use iterm2_rs::tmux::session::{
    CommandType, PendingCommand, SessionManager, TmuxCommand, TmuxPane,
};

/// Helper: create a session manager that already has control mode active
/// and an active session.
fn setup_manager() -> SessionManager {
    let mut mgr = SessionManager::new();
    mgr.process_event(&TmuxEvent::ControlModeEntered);
    mgr.process_event(&TmuxEvent::SessionChanged {
        session_id: 0,
        name: "main".into(),
    });
    mgr
}

// -- command formatting -------------------------------------------------

#[test]
fn format_list_windows() {
    let s = SessionManager::format_command(&TmuxCommand::ListWindows);
    assert!(s.starts_with("list-windows"));
    assert!(s.contains("#{window_id}"));
}

#[test]
fn format_list_panes() {
    let s = SessionManager::format_command(&TmuxCommand::ListPanes { window_id: 3 });
    assert!(s.contains("-t @3"));
    assert!(s.contains("#{pane_id}"));
}

#[test]
fn format_list_sessions() {
    let s = SessionManager::format_command(&TmuxCommand::ListSessions);
    assert!(s.starts_with("list-sessions"));
}

#[test]
fn format_send_keys() {
    let s = SessionManager::format_command(&TmuxCommand::SendKeys {
        pane_id: 1,
        keys: "ls Enter".into(),
    });
    assert_eq!(s, "send-keys -t %1 ls Enter");
}

#[test]
fn format_resize_pane() {
    let s = SessionManager::format_command(&TmuxCommand::ResizePane {
        pane_id: 2,
        width: 120,
        height: 40,
    });
    assert_eq!(s, "resize-pane -t %2 -x 120 -y 40");
}

#[test]
fn format_refresh_client() {
    let s = SessionManager::format_command(&TmuxCommand::RefreshClient {
        width: 200,
        height: 50,
    });
    assert_eq!(s, "refresh-client -C 200,50");
}

#[test]
fn format_new_window_with_name() {
    let s = SessionManager::format_command(&TmuxCommand::NewWindow {
        name: Some("build".into()),
    });
    assert_eq!(s, "new-window -n 'build'");
}

#[test]
fn format_new_window_without_name() {
    let s = SessionManager::format_command(&TmuxCommand::NewWindow { name: None });
    assert_eq!(s, "new-window");
}

#[test]
fn format_kill_window() {
    let s = SessionManager::format_command(&TmuxCommand::KillWindow { window_id: 5 });
    assert_eq!(s, "kill-window -t @5");
}

#[test]
fn format_select_window() {
    let s = SessionManager::format_command(&TmuxCommand::SelectWindow { window_id: 2 });
    assert_eq!(s, "select-window -t @2");
}

#[test]
fn format_split_window() {
    let s = SessionManager::format_command(&TmuxCommand::SplitWindow {
        direction: 'v',
        pane_id: 0,
    });
    assert_eq!(s, "split-window -v -t %0");
}

// -- control mode tracking ----------------------------------------------

#[test]
fn control_mode_tracking() {
    let mut mgr = SessionManager::new();
    assert!(!mgr.is_active());

    mgr.process_event(&TmuxEvent::ControlModeEntered);
    assert!(mgr.is_active());

    mgr.process_event(&TmuxEvent::Exit);
    assert!(!mgr.is_active());
}

// -- session changed ----------------------------------------------------

#[test]
fn session_changed_creates_and_activates() {
    let mut mgr = SessionManager::new();
    mgr.process_event(&TmuxEvent::SessionChanged {
        session_id: 1,
        name: "dev".into(),
    });

    assert_eq!(mgr.active_session, Some(1));
    let s = mgr.active_session().expect("should have active session");
    assert_eq!(s.id, 1);
    assert_eq!(s.name, "dev");
}

#[test]
fn session_changed_updates_name() {
    let mut mgr = SessionManager::new();
    mgr.process_event(&TmuxEvent::SessionChanged {
        session_id: 1,
        name: "old".into(),
    });
    mgr.process_event(&TmuxEvent::SessionChanged {
        session_id: 1,
        name: "new".into(),
    });
    assert_eq!(mgr.active_session().unwrap().name, "new");
}

// -- window add / remove / rename ---------------------------------------

#[test]
fn window_add_and_find() {
    let mut mgr = setup_manager();
    mgr.process_event(&TmuxEvent::WindowAdd { window_id: 1 });

    let win = mgr.find_window(1).expect("window should exist");
    assert_eq!(win.id, 1);
}

#[test]
fn window_add_idempotent() {
    let mut mgr = setup_manager();
    mgr.process_event(&TmuxEvent::WindowAdd { window_id: 1 });
    mgr.process_event(&TmuxEvent::WindowAdd { window_id: 1 });

    let session = mgr.active_session().unwrap();
    assert_eq!(session.windows.len(), 1);
}

#[test]
fn window_close() {
    let mut mgr = setup_manager();
    mgr.process_event(&TmuxEvent::WindowAdd { window_id: 1 });
    mgr.process_event(&TmuxEvent::WindowClose { window_id: 1 });

    assert!(mgr.find_window(1).is_none());
}

#[test]
fn window_rename() {
    let mut mgr = setup_manager();
    mgr.process_event(&TmuxEvent::WindowAdd { window_id: 1 });
    mgr.process_event(&TmuxEvent::WindowRenamed {
        window_id: 1,
        name: "editor".into(),
    });

    assert_eq!(mgr.find_window(1).unwrap().name, "editor");
}

// -- layout change ------------------------------------------------------

#[test]
fn layout_change() {
    let mut mgr = setup_manager();
    mgr.process_event(&TmuxEvent::WindowAdd { window_id: 1 });
    mgr.process_event(&TmuxEvent::LayoutChange {
        window_id: 1,
        layout: "a]b0,120x40,0,0".into(),
    });

    assert_eq!(mgr.find_window(1).unwrap().layout, "a]b0,120x40,0,0");
}

// -- response handling --------------------------------------------------

#[test]
fn response_matches_pending_command() {
    let mut mgr = setup_manager();
    mgr.process_event(&TmuxEvent::WindowAdd { window_id: 0 });

    mgr.register_pending(PendingCommand {
        guard: "42".into(),
        command: "list-sessions".into(),
        callback_type: CommandType::ListSessions,
    });

    mgr.process_event(&TmuxEvent::Response {
        guard: "42".into(),
        lines: vec!["$5 work".into()],
    });

    // The list-sessions response should have added the session.
    assert!(mgr.sessions.iter().any(|s| s.id == 5 && s.name == "work"));
    // Pending command should be consumed.
    assert!(mgr.pending_commands.is_empty());
}

#[test]
fn find_pane_across_windows() {
    let mut mgr = setup_manager();
    mgr.process_event(&TmuxEvent::WindowAdd { window_id: 0 });

    // Manually inject a pane for the test.
    mgr.sessions[0]
        .windows[0]
        .panes
        .push(TmuxPane {
            id: 7,
            active: true,
            width: 80,
            height: 24,
        });

    let pane = mgr.find_pane(7).expect("pane should be found");
    assert_eq!(pane.width, 80);
    assert!(mgr.find_pane(999).is_none());
}

#[test]
fn find_window_searches_every_session_in_order() {
    let mut mgr = setup_manager();
    mgr.process_event(&TmuxEvent::WindowAdd { window_id: 1 });
    mgr.process_event(&TmuxEvent::SessionChanged { session_id: 5, name: "other".into() });
    mgr.process_event(&TmuxEvent::WindowAdd { window_id: 7 });
    mgr.process_event(&TmuxEvent::WindowAdd { window_id: 1 });
    mgr.process_event(&TmuxEvent::WindowRenamed { window_id: 1, name: "first".into() });
    assert_eq!(mgr.find_window(7).unwrap().id, 7);
    // The window renamed is the first one with the id: the one of session 0.
    assert_eq!(mgr.sessions[0].windows[0].name, "first");
    assert_eq!(mgr.sessions[1].windows[1].name, "");
    assert!(mgr.find_window(9).is_none());
}
