//! Events of the tmux control-mode protocol.

use vstd::prelude::*;

verus! {

/// Events parsed from tmux control mode protocol.
#[derive(Debug, Clone, PartialEq)]
pub enum TmuxEvent {
    /// DCS sequence detected — tmux control mode has started.
    ControlModeEntered,
    /// Pane output: %output %<pane_id> <data>
    Output { pane_id: u32, data: Vec<u8> },
    /// Window added: %window-add @<id>
    WindowAdd { window_id: u32 },
    /// Window closed: %window-close @<id>
    WindowClose { window_id: u32 },
    /// Window renamed: %window-renamed @<id> <name>
    WindowRenamed { window_id: u32, name: String },
    /// Layout changed: %layout-change @<id> <layout>
    LayoutChange { window_id: u32, layout: String },
    /// Session changed: %session-changed $<id> <name>
    SessionChanged { session_id: u32, name: String },
    /// Sessions changed notification (informational only).
    SessionsChanged,
    /// Response to a command: between %begin and %end
    Response { guard: String, lines: Vec<String> },
    /// tmux exiting control mode
    Exit,
}

/// The mathematical value of a [`TmuxEvent`]: strings as character sequences.
pub enum TmuxEventView {
    ControlModeEntered,
    Output { pane_id: u32, data: Seq<u8> },
    WindowAdd { window_id: u32 },
    WindowClose { window_id: u32 },
    WindowRenamed { window_id: u32, name: Seq<char> },
    LayoutChange { window_id: u32, layout: Seq<char> },
    SessionChanged { session_id: u32, name: Seq<char> },
    SessionsChanged,
    Response { guard: Seq<char>, lines: Seq<Seq<char>> },
    Exit,
}

/// The characters of each string in a sequence of strings.
pub open spec fn strings_view(v: Seq<String>) -> Seq<Seq<char>> {
    v.map_values(|s: String| s@)
}

impl View for TmuxEvent {
    type V = TmuxEventView;

    open spec fn view(&self) -> TmuxEventView {
        match self {
            TmuxEvent::ControlModeEntered => TmuxEventView::ControlModeEntered,
            TmuxEvent::Output { pane_id, data } => TmuxEventView::Output {
                pane_id: *pane_id,
                data: data@,
            },
            TmuxEvent::WindowAdd { window_id } => TmuxEventView::WindowAdd { window_id: *window_id },
            TmuxEvent::WindowClose { window_id } => TmuxEventView::WindowClose {
                window_id: *window_id,
            },
            TmuxEvent::WindowRenamed { window_id, name } => TmuxEventView::WindowRenamed {
                window_id: *window_id,
                name: name@,
            },
            TmuxEvent::LayoutChange { window_id, layout } => TmuxEventView::LayoutChange {
                window_id: *window_id,
                layout: layout@,
            },
            TmuxEvent::SessionChanged { session_id, name } => TmuxEventView::SessionChanged {
                session_id: *session_id,
                name: name@,
            },
            TmuxEvent::SessionsChanged => TmuxEventView::SessionsChanged,
            TmuxEvent::Response { guard, lines } => TmuxEventView::Response {
                guard: guard@,
                lines: strings_view(lines@),
            },
            TmuxEvent::Exit => TmuxEventView::Exit,
        }
    }
}

/// The value of each event in a sequence of events.
pub open spec fn events_view(v: Seq<TmuxEvent>) -> Seq<TmuxEventView> {
    v.map_values(|e: TmuxEvent| e@)
}

/// Pushing an event extends the viewed sequence by its value.
pub proof fn lemma_events_view_push(v: Seq<TmuxEvent>, e: TmuxEvent)
    ensures
        events_view(v.push(e)) == events_view(v).push(e@),
{
    assert(events_view(v.push(e)) =~= events_view(v).push(e@));
}

} // verus!
