//! Tmux session manager — maintains state about tmux windows, panes, and
//! sessions by processing [`TmuxEvent`]s from the control-mode parser.

use vstd::prelude::*;

use crate::text::{
    chars_of, chars_range, dec, find_char, find_char_from, lemma_find_char_from,
    is_ws, parse_unsigned, parse_unsigned_range, push_char, push_decimal, string_from_range,
    trim, trim_bounds,
};
use crate::tmux::events::{strings_view, TmuxEvent, TmuxEventView};

verus! {

// ---------------------------------------------------------------------------
// Data model
// ---------------------------------------------------------------------------

/// A single tmux pane (identified by `%<id>` in tmux protocol).
#[derive(Debug, Clone, Copy, PartialEq)]
pub struct TmuxPane {
    pub id: u32,
    pub active: bool,
    pub width: u16,
    pub height: u16,
}

/// A tmux window (identified by `@<id>` in tmux protocol).
#[derive(Debug, Clone, PartialEq)]
pub struct TmuxWindow {
    pub id: u32,
    pub name: String,
    pub layout: String,
    pub panes: Vec<TmuxPane>,
    pub active: bool,
}

/// A tmux session (identified by `$<id>` in tmux protocol).
#[derive(Debug, Clone, PartialEq)]
pub struct TmuxSession {
    pub id: u32,
    pub name: String,
    pub windows: Vec<TmuxWindow>,
}

/// The value of a [`TmuxWindow`].
pub struct TmuxWindowView {
    pub id: u32,
    pub name: Seq<char>,
    pub layout: Seq<char>,
    pub panes: Seq<TmuxPane>,
    pub active: bool,
}

/// The value of a [`TmuxSession`].
pub struct TmuxSessionView {
    pub id: u32,
    pub name: Seq<char>,
    pub windows: Seq<TmuxWindowView>,
}

impl View for TmuxWindow {
    type V = TmuxWindowView;

    open spec fn view(&self) -> TmuxWindowView {
        TmuxWindowView {
            id: self.id,
            name: self.name@,
            layout: self.layout@,
            panes: self.panes@,
            active: self.active,
        }
    }
}

pub open spec fn windows_view(v: Seq<TmuxWindow>) -> Seq<TmuxWindowView> {
    v.map_values(|w: TmuxWindow| w@)
}

impl View for TmuxSession {
    type V = TmuxSessionView;

    open spec fn view(&self) -> TmuxSessionView {
        TmuxSessionView { id: self.id, name: self.name@, windows: windows_view(self.windows@) }
    }
}

pub open spec fn sessions_view(v: Seq<TmuxSession>) -> Seq<TmuxSessionView> {
    v.map_values(|s: TmuxSession| s@)
}

// ---------------------------------------------------------------------------
// Commands
// ---------------------------------------------------------------------------

/// High-level commands that can be sent to tmux.
#[derive(Debug, Clone, PartialEq)]
pub enum TmuxCommand {
    ListWindows,
    ListPanes { window_id: u32 },
    ListSessions,
    NewWindow { name: Option<String> },
    KillWindow { window_id: u32 },
    SelectWindow { window_id: u32 },
    SendKeys { pane_id: u32, keys: String },
    ResizePane { pane_id: u32, width: u16, height: u16 },
    /// Split a window — `direction` is `'h'` (horizontal) or `'v'` (vertical).
    SplitWindow { direction: char, pane_id: u32 },
    RefreshClient { width: u16, height: u16 },
}

/// Discriminant for what kind of response we expect from a pending command.
#[derive(Debug, Clone, PartialEq)]
pub enum CommandType {
    ListWindows,
    ListPanes,
    ListSessions,
    SendKeys,
    ResizePane,
    Custom(String),
}

/// Tracks a command that was sent to tmux and is awaiting a response.
#[derive(Debug, Clone, PartialEq)]
pub struct PendingCommand {
    pub guard: String,
    pub command: String,
    pub callback_type: CommandType,
}

/// The value of a [`CommandType`].
pub enum CommandTypeView {
    ListWindows,
    ListPanes,
    ListSessions,
    SendKeys,
    ResizePane,
    Custom(Seq<char>),
}

/// The value of a [`PendingCommand`].
pub struct PendingCommandView {
    pub guard: Seq<char>,
    pub command: Seq<char>,
    pub callback_type: CommandTypeView,
}

impl View for CommandType {
    type V = CommandTypeView;

    open spec fn view(&self) -> CommandTypeView {
        match self {
            CommandType::ListWindows => CommandTypeView::ListWindows,
            CommandType::ListPanes => CommandTypeView::ListPanes,
            CommandType::ListSessions => CommandTypeView::ListSessions,
            CommandType::SendKeys => CommandTypeView::SendKeys,
            CommandType::ResizePane => CommandTypeView::ResizePane,
            CommandType::Custom(s) => CommandTypeView::Custom(s@),
        }
    }
}

impl View for PendingCommand {
    type V = PendingCommandView;

    open spec fn view(&self) -> PendingCommandView {
        PendingCommandView {
            guard: self.guard@,
            command: self.command@,
            callback_type: self.callback_type@,
        }
    }
}

pub open spec fn pendings_view(v: Seq<PendingCommand>) -> Seq<PendingCommandView> {
    v.map_values(|p: PendingCommand| p@)
}

/// The text of each command, as written to tmux's stdin (without newline).
pub open spec fn command_text(cmd: TmuxCommand) -> Seq<char> {
    match cmd {
        TmuxCommand::ListWindows => "list-windows -F '#{window_id} #{window_name} #{window_active} #{window_layout}'"@,
        TmuxCommand::ListPanes { window_id } => "list-panes -t @"@ + dec(window_id as nat)
            + " -F '#{pane_id} #{pane_width} #{pane_height} #{pane_active}'"@,
        TmuxCommand::ListSessions => "list-sessions -F '#{session_id} #{session_name}'"@,
        TmuxCommand::NewWindow { name } => match name {
            Some(n) => "new-window -n '"@ + n@ + "'"@,
            None => "new-window"@,
        },
        TmuxCommand::KillWindow { window_id } => "kill-window -t @"@ + dec(window_id as nat),
        TmuxCommand::SelectWindow { window_id } => "select-window -t @"@ + dec(window_id as nat),
        TmuxCommand::SendKeys { pane_id, keys } => "send-keys -t %"@ + dec(pane_id as nat) + " "@
            + keys@,
        TmuxCommand::ResizePane { pane_id, width, height } => "resize-pane -t %"@ + dec(
            pane_id as nat,
        ) + " -x "@ + dec(width as nat) + " -y "@ + dec(height as nat),
        TmuxCommand::SplitWindow { direction, pane_id } => "split-window -"@ + seq![direction]
            + " -t %"@ + dec(pane_id as nat),
        TmuxCommand::RefreshClient { width, height } => "refresh-client -C "@ + dec(width as nat)
            + ","@ + dec(height as nat),
    }
}

// ---------------------------------------------------------------------------
// Session manager
// ---------------------------------------------------------------------------
// ---------------------------------------------------------------------------
// Finding things, as mathematics
// ---------------------------------------------------------------------------

/// The first session at or after `k` with this id.
pub open spec fn session_index_from(ss: Seq<TmuxSessionView>, id: u32, k: int) -> Option<int>
    decreases ss.len() - k,
{
    if k < 0 || k >= ss.len() {
        None
    } else if ss[k].id == id {
        Some(k)
    } else {
        session_index_from(ss, id, k + 1)
    }
}

pub open spec fn session_index(ss: Seq<TmuxSessionView>, id: u32) -> Option<int> {
    session_index_from(ss, id, 0)
}

/// The first window at or after `k` with this id.
pub open spec fn window_index_from(ws: Seq<TmuxWindowView>, id: u32, k: int) -> Option<int>
    decreases ws.len() - k,
{
    if k < 0 || k >= ws.len() {
        None
    } else if ws[k].id == id {
        Some(k)
    } else {
        window_index_from(ws, id, k + 1)
    }
}

pub open spec fn window_index(ws: Seq<TmuxWindowView>, id: u32) -> Option<int> {
    window_index_from(ws, id, 0)
}

/// The first pane at or after `k` with this id.
pub open spec fn pane_index_from(ps: Seq<TmuxPane>, id: u32, k: int) -> Option<int>
    decreases ps.len() - k,
{
    if k < 0 || k >= ps.len() {
        None
    } else if ps[k].id == id {
        Some(k)
    } else {
        pane_index_from(ps, id, k + 1)
    }
}

pub open spec fn pane_index(ps: Seq<TmuxPane>, id: u32) -> Option<int> {
    pane_index_from(ps, id, 0)
}

/// The first window with this id, searching sessions in order from `k`:
/// (session index, window index).
pub open spec fn window_pos_from(ss: Seq<TmuxSessionView>, id: u32, k: int) -> Option<(int, int)>
    decreases ss.len() - k,
{
    if k < 0 || k >= ss.len() {
        None
    } else {
        match window_index(ss[k].windows, id) {
            Some(j) => Some((k, j)),
            None => window_pos_from(ss, id, k + 1),
        }
    }
}

pub open spec fn window_pos(ss: Seq<TmuxSessionView>, id: u32) -> Option<(int, int)> {
    window_pos_from(ss, id, 0)
}

/// The first pane with this id in windows from `k` on: (window, pane).
pub open spec fn pane_in_windows_from(ws: Seq<TmuxWindowView>, id: u32, k: int) -> Option<
    (int, int),
>
    decreases ws.len() - k,
{
    if k < 0 || k >= ws.len() {
        None
    } else {
        match pane_index(ws[k].panes, id) {
            Some(p) => Some((k, p)),
            None => pane_in_windows_from(ws, id, k + 1),
        }
    }
}

/// The first pane with this id, searching sessions and then windows in
/// order: (session, window, pane).
pub open spec fn pane_pos_from(ss: Seq<TmuxSessionView>, id: u32, k: int) -> Option<
    (int, int, int),
>
    decreases ss.len() - k,
{
    if k < 0 || k >= ss.len() {
        None
    } else {
        match pane_in_windows_from(ss[k].windows, id, 0) {
            Some((w, p)) => Some((k, w, p)),
            None => pane_pos_from(ss, id, k + 1),
        }
    }
}

pub open spec fn pane_pos(ss: Seq<TmuxSessionView>, id: u32) -> Option<(int, int, int)> {
    pane_pos_from(ss, id, 0)
}

/// The first pending command at or after `k` with this guard.
pub open spec fn pending_index_from(ps: Seq<PendingCommandView>, guard: Seq<char>, k: int) -> Option<
    int,
>
    decreases ps.len() - k,
{
    if k < 0 || k >= ps.len() {
        None
    } else if ps[k].guard == guard {
        Some(k)
    } else {
        pending_index_from(ps, guard, k + 1)
    }
}

/// The index of the active session, if there is one and it is known.
pub open spec fn active_index(m: SessionManagerView) -> Option<int> {
    match m.active_session {
        Some(id) => session_index(m.sessions, id),
        None => None,
    }
}

// ---------------------------------------------------------------------------
// Events, as mathematics
// ---------------------------------------------------------------------------

/// A freshly announced window: no name, layout or panes yet.
pub open spec fn new_window(id: u32) -> TmuxWindowView {
    TmuxWindowView { id, name: seq![], layout: seq![], panes: seq![], active: false }
}

pub open spec fn set_windows(s: TmuxSessionView, ws: Seq<TmuxWindowView>) -> TmuxSessionView {
    TmuxSessionView { id: s.id, name: s.name, windows: ws }
}

pub open spec fn set_panes(w: TmuxWindowView, ps: Seq<TmuxPane>) -> TmuxWindowView {
    TmuxWindowView { id: w.id, name: w.name, layout: w.layout, panes: ps, active: w.active }
}

pub open spec fn with_sessions(m: SessionManagerView, ss: Seq<TmuxSessionView>) -> SessionManagerView {
    SessionManagerView {
        sessions: ss,
        active_session: m.active_session,
        pending_commands: m.pending_commands,
        control_mode_active: m.control_mode_active,
    }
}

/// Replace window `w` of session `s`.
pub open spec fn update_window(ss: Seq<TmuxSessionView>, s: int, w: int, nw: TmuxWindowView) -> Seq<
    TmuxSessionView,
> {
    ss.update(s, set_windows(ss[s], ss[s].windows.update(w, nw)))
}

/// The windows other than those with this id, in order.
pub open spec fn without_window(ws: Seq<TmuxWindowView>, id: u32) -> Seq<TmuxWindowView>
    decreases ws.len(),
{
    if ws.len() == 0 {
        ws
    } else {
        let r = without_window(ws.drop_last(), id);
        if ws.last().id != id {
            r.push(ws.last())
        } else {
            r
        }
    }
}

/// Add a session with this id and name, or rename the first one with the id.
pub open spec fn upsert_session(ss: Seq<TmuxSessionView>, id: u32, name: Seq<char>) -> Seq<
    TmuxSessionView,
> {
    match session_index(ss, id) {
        None => ss.push(TmuxSessionView { id, name, windows: seq![] }),
        Some(i) => ss.update(i, TmuxSessionView { id: ss[i].id, name, windows: ss[i].windows }),
    }
}

/// The state after one event.
pub open spec fn apply_event(m: SessionManagerView, e: TmuxEventView) -> SessionManagerView {
    match e {
        TmuxEventView::ControlModeEntered => SessionManagerView {
            sessions: m.sessions,
            active_session: m.active_session,
            pending_commands: m.pending_commands,
            control_mode_active: true,
        },
        TmuxEventView::Exit => SessionManagerView {
            sessions: m.sessions,
            active_session: m.active_session,
            pending_commands: m.pending_commands,
            control_mode_active: false,
        },
        TmuxEventView::WindowAdd { window_id } => match active_index(m) {
            Some(i) => if window_index(m.sessions[i].windows, window_id) is None {
                with_sessions(
                    m,
                    m.sessions.update(
                        i,
                        set_windows(m.sessions[i], m.sessions[i].windows.push(new_window(window_id))),
                    ),
                )
            } else {
                m
            },
            None => m,
        },
        TmuxEventView::WindowClose { window_id } => match active_index(m) {
            Some(i) => with_sessions(
                m,
                m.sessions.update(
                    i,
                    set_windows(m.sessions[i], without_window(m.sessions[i].windows, window_id)),
                ),
            ),
            None => m,
        },
        TmuxEventView::WindowRenamed { window_id, name } => match window_pos(m.sessions, window_id) {
            Some((s, w)) => {
                let ow = m.sessions[s].windows[w];
                with_sessions(
                    m,
                    update_window(
                        m.sessions,
                        s,
                        w,
                        TmuxWindowView {
                            id: ow.id,
                            name,
                            layout: ow.layout,
                            panes: ow.panes,
                            active: ow.active,
                        },
                    ),
                )
            },
            None => m,
        },
        TmuxEventView::LayoutChange { window_id, layout } => match window_pos(m.sessions, window_id) {
            Some((s, w)) => {
                let ow = m.sessions[s].windows[w];
                with_sessions(
                    m,
                    update_window(
                        m.sessions,
                        s,
                        w,
                        TmuxWindowView {
                            id: ow.id,
                            name: ow.name,
                            layout,
                            panes: ow.panes,
                            active: ow.active,
                        },
                    ),
                )
            },
            None => m,
        },
        TmuxEventView::SessionChanged { session_id, name } => SessionManagerView {
            sessions: upsert_session(m.sessions, session_id, name),
            active_session: Some(session_id),
            pending_commands: m.pending_commands,
            control_mode_active: m.control_mode_active,
        },
        TmuxEventView::SessionsChanged => m,
        TmuxEventView::Output { .. } => m,
        TmuxEventView::Response { guard, lines } => match pending_index_from(
            m.pending_commands,
            guard,
            0,
        ) {
            Some(k) => handle_response(
                SessionManagerView {
                    sessions: m.sessions,
                    active_session: m.active_session,
                    pending_commands: m.pending_commands.remove(k),
                    control_mode_active: m.control_mode_active,
                },
                m.pending_commands[k].callback_type,
                lines,
            ),
            None => m,
        },
    }
}

// ---------------------------------------------------------------------------
// Responses, as mathematics
// ---------------------------------------------------------------------------

/// `splitn(4, ' ')` when it yields four parts.
pub open spec fn split4(t: Seq<char>) -> Option<(Seq<char>, Seq<char>, Seq<char>, Seq<char>)> {
    match find_char_from(t, ' ', 0) {
        None => None,
        Some(a) => match find_char_from(t, ' ', a + 1) {
            None => None,
            Some(b) => match find_char_from(t, ' ', b + 1) {
                None => None,
                Some(c) => Some(
                    (t.subrange(0, a), t.subrange(a + 1, b), t.subrange(b + 1, c), t.skip(c + 1)),
                ),
            },
        },
    }
}

/// `splitn(2, ' ')` when it yields two parts.
pub open spec fn split2(t: Seq<char>) -> Option<(Seq<char>, Seq<char>)> {
    match find_char_from(t, ' ', 0) {
        None => None,
        Some(a) => Some((t.take(a), t.skip(a + 1))),
    }
}

/// `p.strip_prefix(sigil)` parsed as a `u32`.
pub open spec fn prefixed_id(p: Seq<char>, sigil: char) -> Option<u32> {
    if p.len() > 0 && p[0] == sigil {
        match parse_unsigned(p.drop_first(), 0xffff_ffff) {
            Some(v) => Some(v as u32),
            None => None,
        }
    } else {
        None
    }
}

/// `p.parse::<u16>().unwrap_or(0)`.
pub open spec fn u16_or_zero(p: Seq<char>) -> u16 {
    match parse_unsigned(p, 0xffff) {
        Some(v) => v as u16,
        None => 0,
    }
}

/// The text `"1"`.
pub open spec fn one_text() -> Seq<char> {
    seq!['1']
}

/// One line of a `list-windows` response: `@<id> <name> <0|1> <layout>`.
pub open spec fn window_line(ws: Seq<TmuxWindowView>, line: Seq<char>) -> Seq<TmuxWindowView> {
    match split4(trim(line)) {
        None => ws,
        Some((p0, p1, p2, p3)) => match prefixed_id(p0, '@') {
            None => ws,
            Some(id) => match window_index(ws, id) {
                Some(j) => ws.update(
                    j,
                    TmuxWindowView {
                        id: ws[j].id,
                        name: p1,
                        layout: p3,
                        panes: ws[j].panes,
                        active: p2 == one_text(),
                    },
                ),
                None => ws.push(
                    TmuxWindowView { id, name: p1, layout: p3, panes: seq![], active: p2 == one_text() },
                ),
            },
        },
    }
}

pub open spec fn windows_after(ws: Seq<TmuxWindowView>, lines: Seq<Seq<char>>) -> Seq<TmuxWindowView>
    decreases lines.len(),
{
    if lines.len() == 0 {
        ws
    } else {
        window_line(windows_after(ws, lines.drop_last()), lines.last())
    }
}

/// One line of a `list-panes` response: `%<id> <width> <height> <0|1>`.
pub open spec fn pane_line(m: SessionManagerView, line: Seq<char>) -> SessionManagerView {
    match split4(trim(line)) {
        None => m,
        Some((p0, p1, p2, p3)) => match prefixed_id(p0, '%') {
            None => m,
            Some(id) => {
                let pane = TmuxPane {
                    id,
                    active: p3 == one_text(),
                    width: u16_or_zero(p1),
                    height: u16_or_zero(p2),
                };
                match pane_pos(m.sessions, id) {
                    Some((s, w, p)) => {
                        let ow = m.sessions[s].windows[w];
                        with_sessions(
                            m,
                            update_window(m.sessions, s, w, set_panes(ow, ow.panes.update(p, pane))),
                        )
                    },
                    None => match active_index(m) {
                        Some(i) => if m.sessions[i].windows.len() > 0 {
                            let ow = m.sessions[i].windows[0];
                            with_sessions(
                                m,
                                update_window(m.sessions, i, 0, set_panes(ow, ow.panes.push(pane))),
                            )
                        } else {
                            m
                        },
                        None => m,
                    },
                }
            },
        },
    }
}

pub open spec fn panes_after(m: SessionManagerView, lines: Seq<Seq<char>>) -> SessionManagerView
    decreases lines.len(),
{
    if lines.len() == 0 {
        m
    } else {
        pane_line(panes_after(m, lines.drop_last()), lines.last())
    }
}

/// One line of a `list-sessions` response: `$<id> <name>`.
pub open spec fn session_line(ss: Seq<TmuxSessionView>, line: Seq<char>) -> Seq<TmuxSessionView> {
    match split2(trim(line)) {
        None => ss,
        Some((p0, p1)) => match prefixed_id(p0, '$') {
            None => ss,
            Some(id) => upsert_session(ss, id, p1),
        },
    }
}

pub open spec fn sessions_after(ss: Seq<TmuxSessionView>, lines: Seq<Seq<char>>) -> Seq<
    TmuxSessionView,
>
    decreases lines.len(),
{
    if lines.len() == 0 {
        ss
    } else {
        session_line(sessions_after(ss, lines.drop_last()), lines.last())
    }
}

/// The state after the response to a command of this kind.
pub open spec fn handle_response(
    m: SessionManagerView,
    ct: CommandTypeView,
    lines: Seq<Seq<char>>,
) -> SessionManagerView {
    match ct {
        CommandTypeView::ListWindows => match active_index(m) {
            Some(i) => with_sessions(
                m,
                m.sessions.update(
                    i,
                    set_windows(m.sessions[i], windows_after(m.sessions[i].windows, lines)),
                ),
            ),
            None => m,
        },
        CommandTypeView::ListPanes => panes_after(m, lines),
        CommandTypeView::ListSessions => with_sessions(m, sessions_after(m.sessions, lines)),
        _ => m,
    }
}


/// Central state manager for a tmux control-mode connection.
///
/// Feed it [`TmuxEvent`]s (produced by [`crate::tmux::parser::TmuxParser`]) via
/// [`process_event`](SessionManager::process_event) to keep the model in sync
/// with the actual tmux server.
pub struct SessionManager {
    pub sessions: Vec<TmuxSession>,
    pub active_session: Option<u32>,
    pub pending_commands: Vec<PendingCommand>,
    pub control_mode_active: bool,
}

/// The value of a [`SessionManager`].
pub struct SessionManagerView {
    pub sessions: Seq<TmuxSessionView>,
    pub active_session: Option<u32>,
    pub pending_commands: Seq<PendingCommandView>,
    pub control_mode_active: bool,
}

impl View for SessionManager {
    type V = SessionManagerView;

    open spec fn view(&self) -> SessionManagerView {
        SessionManagerView {
            sessions: sessions_view(self.sessions@),
            active_session: self.active_session,
            pending_commands: pendings_view(self.pending_commands@),
            control_mode_active: self.control_mode_active,
        }
    }
}


// ---------------------------------------------------------------------------
// Helpers over vectors
// ---------------------------------------------------------------------------

/// Takes element `i` out of `v`, leaving `filler` in its place.
fn vec_take<T>(v: &mut Vec<T>, i: usize, filler: T) -> (r: T)
    requires
        i < old(v)@.len(),
    ensures
        r == old(v)@[i as int],
        final(v)@ == old(v)@.update(i as int, filler),
{
    let mut f = filler;
    v.set_and_swap(i, &mut f);
    f
}

proof fn lemma_update_twice<A>(s: Seq<A>, i: int, a: A, b: A)
    requires
        0 <= i < s.len(),
    ensures
        s.update(i, a).update(i, b) == s.update(i, b),
{
    assert(s.update(i, a).update(i, b) =~= s.update(i, b));
}

proof fn lemma_sessions_view_update(v: Seq<TmuxSession>, i: int, s: TmuxSession)
    requires
        0 <= i < v.len(),
    ensures
        sessions_view(v.update(i, s)) == sessions_view(v).update(i, s@),
{
    assert(sessions_view(v.update(i, s)) =~= sessions_view(v).update(i, s@));
}

proof fn lemma_sessions_view_push(v: Seq<TmuxSession>, s: TmuxSession)
    ensures
        sessions_view(v.push(s)) == sessions_view(v).push(s@),
{
    assert(sessions_view(v.push(s)) =~= sessions_view(v).push(s@));
}

proof fn lemma_windows_view_update(v: Seq<TmuxWindow>, i: int, w: TmuxWindow)
    requires
        0 <= i < v.len(),
    ensures
        windows_view(v.update(i, w)) == windows_view(v).update(i, w@),
{
    assert(windows_view(v.update(i, w)) =~= windows_view(v).update(i, w@));
}

proof fn lemma_windows_view_push(v: Seq<TmuxWindow>, w: TmuxWindow)
    ensures
        windows_view(v.push(w)) == windows_view(v).push(w@),
{
    assert(windows_view(v.push(w)) =~= windows_view(v).push(w@));
}

/// A session that holds nothing, used while one is taken out to be changed.
fn filler_session() -> (s: TmuxSession)
    ensures
        s@ == (TmuxSessionView { id: 0, name: seq![], windows: seq![] }),
{
    let s = TmuxSession { id: 0, name: String::new(), windows: Vec::new() };
    assert(s@.windows =~= Seq::<TmuxWindowView>::empty());
    s
}

/// A window that holds nothing, used while one is taken out to be changed.
fn filler_window() -> (w: TmuxWindow)
    ensures
        w@ == new_window(0),
{
    TmuxWindow { id: 0, name: String::new(), layout: String::new(), panes: Vec::new(), active: false }
}

// ---------------------------------------------------------------------------
// Finding things
// ---------------------------------------------------------------------------

fn find_session(sessions: &Vec<TmuxSession>, id: u32) -> (r: Option<usize>)
    ensures
        r matches Some(i) ==> i < sessions@.len() && session_index(sessions_view(sessions@), id)
            == Some(i as int),
        r is None ==> session_index(sessions_view(sessions@), id) is None,
{
    let ghost ss = sessions_view(sessions@);
    let mut i: usize = 0;
    while i < sessions.len()
        invariant
            i <= sessions@.len(),
            ss == sessions_view(sessions@),
            session_index(ss, id) == session_index_from(ss, id, i as int),
        decreases sessions.len() - i,
    {
        if sessions[i].id == id {
            return Some(i);
        }
        i += 1;
    }
    None
}

fn find_window_in(windows: &Vec<TmuxWindow>, id: u32) -> (r: Option<usize>)
    ensures
        r matches Some(i) ==> i < windows@.len() && window_index(windows_view(windows@), id) == Some(
            i as int,
        ),
        r is None ==> window_index(windows_view(windows@), id) is None,
{
    let ghost ws = windows_view(windows@);
    let mut i: usize = 0;
    while i < windows.len()
        invariant
            i <= windows@.len(),
            ws == windows_view(windows@),
            window_index(ws, id) == window_index_from(ws, id, i as int),
        decreases windows.len() - i,
    {
        if windows[i].id == id {
            return Some(i);
        }
        i += 1;
    }
    None
}

fn find_pane_in(panes: &Vec<TmuxPane>, id: u32) -> (r: Option<usize>)
    ensures
        r matches Some(i) ==> i < panes@.len() && pane_index(panes@, id) == Some(i as int),
        r is None ==> pane_index(panes@, id) is None,
{
    let mut i: usize = 0;
    while i < panes.len()
        invariant
            i <= panes@.len(),
            pane_index(panes@, id) == pane_index_from(panes@, id, i as int),
        decreases panes.len() - i,
    {
        if panes[i].id == id {
            return Some(i);
        }
        i += 1;
    }
    None
}

fn find_window_pos(sessions: &Vec<TmuxSession>, id: u32) -> (r: Option<(usize, usize)>)
    ensures
        r matches Some((s, w)) ==> s < sessions@.len() && w < sessions@[s as int].windows@.len()
            && window_pos(sessions_view(sessions@), id) == Some((s as int, w as int)),
        r is None ==> window_pos(sessions_view(sessions@), id) is None,
{
    let ghost ss = sessions_view(sessions@);
    let mut k: usize = 0;
    while k < sessions.len()
        invariant
            k <= sessions@.len(),
            ss == sessions_view(sessions@),
            window_pos(ss, id) == window_pos_from(ss, id, k as int),
        decreases sessions.len() - k,
    {
        match find_window_in(&sessions[k].windows, id) {
            Some(j) => {
                return Some((k, j));
            },
            None => {},
        }
        k += 1;
    }
    None
}

fn find_pane_pos(sessions: &Vec<TmuxSession>, id: u32) -> (r: Option<(usize, usize, usize)>)
    ensures
        r matches Some((s, w, p)) ==> s < sessions@.len() && w < sessions@[s as int].windows@.len()
            && p < sessions@[s as int].windows@[w as int].panes@.len() && pane_pos(
            sessions_view(sessions@),
            id,
        ) == Some((s as int, w as int, p as int)),
        r is None ==> pane_pos(sessions_view(sessions@), id) is None,
{
    let ghost ss = sessions_view(sessions@);
    let mut k: usize = 0;
    while k < sessions.len()
        invariant
            k <= sessions@.len(),
            ss == sessions_view(sessions@),
            pane_pos(ss, id) == pane_pos_from(ss, id, k as int),
        decreases sessions.len() - k,
    {
        let windows = &sessions[k].windows;
        let ghost ws = windows_view(windows@);
        assert(ws == ss[k as int].windows);
        let mut j: usize = 0;
        while j < windows.len()
            invariant
                k < sessions@.len(),
                ss == sessions_view(sessions@),
                pane_pos(ss, id) == pane_pos_from(ss, id, k as int),
                windows@ == sessions@[k as int].windows@,
                j <= windows@.len(),
                ws == windows_view(windows@),
                ws == ss[k as int].windows,
                pane_in_windows_from(ws, id, 0) == pane_in_windows_from(ws, id, j as int),
            decreases windows.len() - j,
        {
            match find_pane_in(&windows[j].panes, id) {
                Some(p) => {
                    return Some((k, j, p));
                },
                None => {},
            }
            j += 1;
        }
        k += 1;
    }
    None
}

fn find_pending(pending: &Vec<PendingCommand>, guard: &String) -> (r: Option<usize>)
    ensures
        r matches Some(i) ==> i < pending@.len() && pending_index_from(
            pendings_view(pending@),
            guard@,
            0,
        ) == Some(i as int),
        r is None ==> pending_index_from(pendings_view(pending@), guard@, 0) is None,
{
    let ghost ps = pendings_view(pending@);
    let mut i: usize = 0;
    while i < pending.len()
        invariant
            i <= pending@.len(),
            ps == pendings_view(pending@),
            pending_index_from(ps, guard@, 0) == pending_index_from(ps, guard@, i as int),
        decreases pending.len() - i,
    {
        if pending[i].guard == *guard {
            return Some(i);
        }
        i += 1;
    }
    None
}

// ---------------------------------------------------------------------------
// Parsing response lines
// ---------------------------------------------------------------------------

/// Positions of the first three spaces of `t`, as `splitn(4, ' ')` uses them.
fn split4_at(t: &Vec<char>) -> (r: Option<(usize, usize, usize)>)
    ensures
        r matches Some((a, b, c)) ==> a < b < c < t@.len() && split4(t@) == Some(
            (
                t@.subrange(0, a as int),
                t@.subrange(a + 1, b as int),
                t@.subrange(b + 1, c as int),
                t@.skip(c + 1),
            ),
        ),
        r is None ==> split4(t@) is None,
{
    proof {
        lemma_find_char_from(t@, ' ', 0);
    }
    let a = match find_char(t, ' ', 0) {
        Some(a) => a,
        None => {
            return None;
        },
    };
    proof {
        lemma_find_char_from(t@, ' ', a + 1);
    }
    let b = match find_char(t, ' ', a + 1) {
        Some(b) => b,
        None => {
            return None;
        },
    };
    proof {
        lemma_find_char_from(t@, ' ', b + 1);
    }
    let c = match find_char(t, ' ', b + 1) {
        Some(c) => c,
        None => {
            return None;
        },
    };
    Some((a, b, c))
}

/// `t[from..to]` stripped of a leading `sigil` and parsed as a `u32`.
fn prefixed_id_at(t: &Vec<char>, from: usize, to: usize, sigil: char) -> (r: Option<u32>)
    requires
        from <= to <= t@.len(),
    ensures
        r == prefixed_id(t@.subrange(from as int, to as int), sigil),
{
    let ghost p = t@.subrange(from as int, to as int);
    if from < to && t[from] == sigil {
        assert(p.drop_first() == t@.subrange(from + 1, to as int));
        match parse_unsigned_range(t, from + 1, to, 0xffff_ffff) {
            Some(v) => Some(v as u32),
            None => None,
        }
    } else {
        None
    }
}

/// The trimmed characters of a response line.
fn trimmed_chars(line: &String) -> (t: Vec<char>)
    ensures
        t@ == trim(line@),
{
    let chars = chars_of(line.as_str());
    let (a, b) = trim_bounds(&chars);
    chars_range(&chars, a, b)
}

/// Whether `t[from..to]` is the text `"1"`.
fn is_one(t: &Vec<char>, from: usize, to: usize) -> (b: bool)
    requires
        from <= to <= t@.len(),
    ensures
        b == (t@.subrange(from as int, to as int) == one_text()),
{
    if to - from == 1 && t[from] == '1' {
        assert(t@.subrange(from as int, to as int) =~= one_text());
        true
    } else {
        if to - from == 1 {
            assert(t@.subrange(from as int, to as int)[0] == t@[from as int]);
        } else {
            assert(t@.subrange(from as int, to as int).len() != one_text().len());
        }
        false
    }
}

/// Apply one `list-windows` line to the windows of a session.
fn apply_window_line(windows: &mut Vec<TmuxWindow>, line: &String)
    ensures
        windows_view(final(windows)@) == window_line(windows_view(old(windows)@), line@),
{
    let t = trimmed_chars(line);
    let (a, b, c) = match split4_at(&t) {
        Some(parts) => parts,
        None => {
            return;
        },
    };
    let id = match prefixed_id_at(&t, 0, a, '@') {
        Some(id) => id,
        None => {
            return;
        },
    };
    let name = string_from_range(&t, a + 1, b);
    let active = is_one(&t, b + 1, c);
    let layout = string_from_range(&t, c + 1, t.len());
    assert(t@.subrange(c + 1, t@.len() as int) == t@.skip(c + 1));
    match find_window_in(windows, id) {
        Some(j) => {
            let ghost before = windows@;
            let f = filler_window();
            let ghost fg = f;
            let mut w = vec_take(windows, j, f);
            w.name = name;
            w.active = active;
            w.layout = layout;
            windows.set(j, w);
            proof {
                lemma_update_twice(before, j as int, fg, w);
                lemma_windows_view_update(before, j as int, w);
            }
        },
        None => {
            let w = TmuxWindow { id, name, layout, panes: Vec::new(), active };
            proof {
                lemma_windows_view_push(windows@, w);
            }
            windows.push(w);
        },
    }
}

/// Apply one `list-sessions` line to the sessions.
fn apply_session_line(sessions: &mut Vec<TmuxSession>, line: &String)
    ensures
        sessions_view(final(sessions)@) == session_line(sessions_view(old(sessions)@), line@),
{
    let t = trimmed_chars(line);
    proof {
        lemma_find_char_from(t@, ' ', 0);
    }
    let a = match find_char(&t, ' ', 0) {
        Some(a) => a,
        None => {
            return;
        },
    };
    let id = match prefixed_id_at(&t, 0, a, '$') {
        Some(id) => id,
        None => {
            return;
        },
    };
    assert(t@.take(a as int) == t@.subrange(0, a as int));
    let name = string_from_range(&t, a + 1, t.len());
    assert(t@.subrange(a + 1, t@.len() as int) == t@.skip(a + 1));
    upsert_session_exec(sessions, id, name);
}

/// Add a session, or rename the first one with the id.
fn upsert_session_exec(sessions: &mut Vec<TmuxSession>, id: u32, name: String)
    ensures
        sessions_view(final(sessions)@) == upsert_session(sessions_view(old(sessions)@), id, name@),
{
    match find_session(sessions, id) {
        None => {
            let s = TmuxSession { id, name, windows: Vec::new() };
            proof {
                lemma_sessions_view_push(sessions@, s);
                assert(windows_view(s.windows@) =~= Seq::<TmuxWindowView>::empty());
            }
            sessions.push(s);
        },
        Some(i) => {
            let ghost before = sessions@;
            let f = filler_session();
            let ghost fg = f;
            let mut s = vec_take(sessions, i, f);
            s.name = name;
            sessions.set(i, s);
            proof {
                lemma_update_twice(before, i as int, fg, s);
                lemma_sessions_view_update(before, i as int, s);
            }
        },
    }
}

impl SessionManager {
    /// Create a new, empty session manager.
    pub fn new() -> (m: Self)
        ensures
            m@ == (SessionManagerView {
                sessions: seq![],
                active_session: None,
                pending_commands: seq![],
                control_mode_active: false,
            }),
    {
        let m = Self {
            sessions: Vec::new(),
            active_session: None,
            pending_commands: Vec::new(),
            control_mode_active: false,
        };
        assert(m@.sessions =~= Seq::<TmuxSessionView>::empty());
        assert(m@.pending_commands =~= Seq::<PendingCommandView>::empty());
        m
    }

    // -- queries ------------------------------------------------------------

    /// Whether the tmux connection is in control mode.
    pub fn is_active(&self) -> (b: bool)
        ensures
            b == self@.control_mode_active,
    {
        self.control_mode_active
    }

    fn active_index(&self) -> (r: Option<usize>)
        ensures
            r matches Some(i) ==> i < self.sessions@.len() && active_index(self@) == Some(i as int),
            r is None ==> active_index(self@) is None,
    {
        match self.active_session {
            Some(id) => find_session(&self.sessions, id),
            None => None,
        }
    }

    /// Return a reference to the currently active session, if any.
    pub fn active_session(&self) -> (r: Option<&TmuxSession>)
        ensures
            r matches Some(s) ==> active_index(self@) matches Some(i) && s@ == self@.sessions[i],
            r is None ==> active_index(self@) is None,
    {
        match self.active_index() {
            Some(i) => Some(&self.sessions[i]),
            None => None,
        }
    }

    /// Find a window by its id across all sessions.
    pub fn find_window(&self, window_id: u32) -> (r: Option<&TmuxWindow>)
        ensures
            r matches Some(w) ==> window_pos(self@.sessions, window_id) matches Some((s, j))
                && w@ == self@.sessions[s].windows[j],
            r is None ==> window_pos(self@.sessions, window_id) is None,
    {
        match find_window_pos(&self.sessions, window_id) {
            Some((s, w)) => Some(&self.sessions[s].windows[w]),
            None => None,
        }
    }

    /// Find a pane by its id across all sessions and windows.
    pub fn find_pane(&self, pane_id: u32) -> (r: Option<&TmuxPane>)
        ensures
            r matches Some(pane) ==> pane_pos(self@.sessions, pane_id) matches Some((s, w, p))
                && *pane == self@.sessions[s].windows[w].panes[p],
            r is None ==> pane_pos(self@.sessions, pane_id) is None,
    {
        match find_pane_pos(&self.sessions, pane_id) {
            Some((s, w, p)) => Some(&self.sessions[s].windows[w].panes[p]),
            None => None,
        }
    }

    /// Register a pending command so that the corresponding `Response` event
    /// can be matched back to it later.
    pub fn register_pending(&mut self, cmd: PendingCommand)
        ensures
            final(self)@ == (SessionManagerView {
                sessions: old(self)@.sessions,
                active_session: old(self)@.active_session,
                pending_commands: old(self)@.pending_commands.push(cmd@),
                control_mode_active: old(self)@.control_mode_active,
            }),
    {
        let ghost before = self.pending_commands@;
        self.pending_commands.push(cmd);
        assert(pendings_view(self.pending_commands@) =~= pendings_view(before).push(cmd@));
    }
}


proof fn lemma_update_window_twice(
    ss: Seq<TmuxSessionView>,
    si: int,
    wi: int,
    a: TmuxWindowView,
    b: TmuxWindowView,
)
    requires
        0 <= si < ss.len(),
        0 <= wi < ss[si].windows.len(),
    ensures
        update_window(update_window(ss, si, wi, a), si, wi, b) == update_window(ss, si, wi, b),
{
    let s1 = update_window(ss, si, wi, a);
    assert(s1[si].windows.update(wi, b) =~= ss[si].windows.update(wi, b));
    assert(update_window(s1, si, wi, b) =~= update_window(ss, si, wi, b));
}

impl SessionManager {
    /// Put `s` in place of session `i`, returning the session that was there.
    fn replace_session(&mut self, i: usize, s: TmuxSession) -> (old_s: TmuxSession)
        requires
            i < old(self).sessions@.len(),
        ensures
            old_s@ == old(self)@.sessions[i as int],
            final(self)@ == with_sessions(old(self)@, old(self)@.sessions.update(i as int, s@)),
            final(self).sessions@.len() == old(self).sessions@.len(),
    {
        let ghost before = self.sessions@;
        let old_s = vec_take(&mut self.sessions, i, s);
        proof {
            lemma_sessions_view_update(before, i as int, s);
        }
        old_s
    }

    /// Put `w` in place of window `wi` of session `si`, returning the window
    /// that was there.
    fn replace_window(&mut self, si: usize, wi: usize, w: TmuxWindow) -> (old_w: TmuxWindow)
        requires
            si < old(self).sessions@.len(),
            wi < old(self).sessions@[si as int].windows@.len(),
        ensures
            old_w@ == old(self)@.sessions[si as int].windows[wi as int],
            final(self)@ == with_sessions(
                old(self)@,
                update_window(old(self)@.sessions, si as int, wi as int, w@),
            ),
            final(self).sessions@.len() == old(self).sessions@.len(),
            final(self).sessions@[si as int].windows@.len() == old(self).sessions@[
                si as int
            ].windows@.len(),
    {
        let ghost before = self.sessions@;
        let f = filler_session();
        let ghost fg = f;
        let mut s = vec_take(&mut self.sessions, si, f);
        let ghost ws0 = s.windows@;
        let mut w2 = w;
        s.windows.set_and_swap(wi, &mut w2);
        proof {
            lemma_windows_view_update(ws0, wi as int, w);
        }
        self.sessions.set(si, s);
        proof {
            lemma_update_twice(before, si as int, fg, s);
            lemma_sessions_view_update(before, si as int, s);
        }
        w2
    }

    /// The active session, mutably.
    fn active_session_mut(&mut self) -> (r: Option<&mut TmuxSession>)
        ensures
            active_index(old(self)@) is None ==> r is None && final(self)@ == old(self)@,
            active_index(old(self)@) matches Some(i) ==> r is Some && (*r.unwrap())@ == old(
                self,
            )@.sessions[i] && final(self)@ == with_sessions(
                old(self)@,
                old(self)@.sessions.update(i, (*final(r.unwrap()))@),
            ),
    {
        match self.active_index() {
            Some(i) => {
                let ghost before = self.sessions@;
                proof {
                    assert forall|x: TmuxSession| #[trigger]
                        sessions_view(before.update(i as int, x)) == sessions_view(before).update(
                            i as int,
                            x@,
                        ) by {
                        lemma_sessions_view_update(before, i as int, x);
                    }
                }
                Some(&mut self.sessions[i])
            },
            None => None,
        }
    }

    /// The first window with this id, searching sessions in order, mutably.
    fn find_window_mut(&mut self, window_id: u32) -> (r: Option<&mut TmuxWindow>)
        ensures
            window_pos(old(self)@.sessions, window_id) is None ==> r is None && final(self)@ == old(
                self,
            )@,
            window_pos(old(self)@.sessions, window_id) matches Some((si, wi)) ==> r is Some && (
            *r.unwrap())@ == old(self)@.sessions[si].windows[wi] && final(self)@ == with_sessions(
                old(self)@,
                update_window(old(self)@.sessions, si, wi, (*final(r.unwrap()))@),
            ),
    {
        match find_window_pos(&self.sessions, window_id) {
            Some((si, wi)) => {
                let ghost before = self.sessions@;
                let ghost ws = before[si as int].windows@;
                proof {
                    assert forall|x: TmuxWindow| #[trigger] windows_view(ws.update(wi as int, x))
                        == windows_view(ws).update(wi as int, x@) by {
                        lemma_windows_view_update(ws, wi as int, x);
                    }
                    assert forall|x: TmuxSession| #[trigger]
                        sessions_view(before.update(si as int, x)) == sessions_view(before).update(
                            si as int,
                            x@,
                        ) by {
                        lemma_sessions_view_update(before, si as int, x);
                    }
                }
                let session = &mut self.sessions[si];
                Some(&mut session.windows[wi])
            },
            None => None,
        }
    }

    // -- event processing ---------------------------------------------------

    /// Update internal state in response to a [`TmuxEvent`].
    pub fn process_event(&mut self, event: &TmuxEvent)
        ensures
            final(self)@ == apply_event(old(self)@, event@),
    {
        let ghost m = self@;
        match event {
            TmuxEvent::ControlModeEntered => {
                self.control_mode_active = true;
            },
            TmuxEvent::Exit => {
                self.control_mode_active = false;
            },
            TmuxEvent::WindowAdd { window_id } => {
                if let Some(session) = self.active_session_mut() {
                    if find_window_in(&session.windows, *window_id).is_none() {
                        let w = TmuxWindow {
                            id: *window_id,
                            name: String::new(),
                            layout: String::new(),
                            panes: Vec::new(),
                            active: false,
                        };
                        proof {
                            lemma_windows_view_push(session.windows@, w);
                            assert(w@ == new_window(*window_id));
                        }
                        session.windows.push(w);
                    } else {
                        proof {
                            let i = active_index(m).unwrap();
                            lemma_session_index_found(m.sessions, m.active_session.unwrap(), 0);
                            assert(m.sessions.update(i, m.sessions[i]) =~= m.sessions);
                        }
                    }
                }
            },
            TmuxEvent::WindowClose { window_id } => {
                if let Some(session) = self.active_session_mut() {
                    let mut ws: Vec<TmuxWindow> = Vec::new();
                    std::mem::swap(&mut ws, &mut session.windows);
                    session.windows = without_window_exec(ws, *window_id);
                }
            },
            TmuxEvent::WindowRenamed { window_id, name } => {
                if let Some(window) = self.find_window_mut(*window_id) {
                    window.name = name.clone();
                }
            },
            TmuxEvent::LayoutChange { window_id, layout } => {
                if let Some(window) = self.find_window_mut(*window_id) {
                    window.layout = layout.clone();
                }
            },
            TmuxEvent::SessionChanged { session_id, name } => {
                upsert_session_exec(&mut self.sessions, *session_id, name.clone());
                self.active_session = Some(*session_id);
            },
            TmuxEvent::SessionsChanged => {},
            TmuxEvent::Output { .. } => {},
            TmuxEvent::Response { guard, lines } => {
                match find_pending(&self.pending_commands, guard) {
                    Some(k) => {
                        let ghost pv = pendings_view(self.pending_commands@);
                        let pending = self.pending_commands.remove(k);
                        proof {
                            assert(pendings_view(self.pending_commands@) =~= pv.remove(k as int));
                        }
                        self.handle_response(&pending.callback_type, lines);
                    },
                    None => {},
                }
            },
        }
    }

    /// Handle a matched response by parsing the output lines according to the
    /// command type and updating internal state.
    fn handle_response(&mut self, callback_type: &CommandType, lines: &Vec<String>)
        ensures
            final(self)@ == handle_response(old(self)@, callback_type@, strings_view(lines@)),
    {
        match callback_type {
            CommandType::ListWindows => self.parse_list_windows(lines),
            CommandType::ListPanes => self.parse_list_panes(lines),
            CommandType::ListSessions => self.parse_list_sessions(lines),
            CommandType::SendKeys | CommandType::ResizePane => {},
            CommandType::Custom(_) => {},
        }
    }

    /// Parse `list-windows` response lines.
    ///
    /// Expected format per line: `@<id> <name> <active:0|1> <layout>`
    fn parse_list_windows(&mut self, lines: &Vec<String>)
        ensures
            final(self)@ == handle_response(
                old(self)@,
                CommandTypeView::ListWindows,
                strings_view(lines@),
            ),
    {
        let ghost m = self@;
        let ghost l = strings_view(lines@);
        match self.active_index() {
            None => {},
            Some(i) => {
                let f = filler_session();
                let ghost fg = f;
                let mut s = self.replace_session(i, f);
                let ghost s0 = s@;
                let mut k: usize = 0;
                assert(l.take(0) =~= Seq::<Seq<char>>::empty());
                while k < lines.len()
                    invariant
                        k <= lines@.len(),
                        l == strings_view(lines@),
                        s@.id == s0.id,
                        s@.name == s0.name,
                        s@.windows == windows_after(s0.windows, l.take(k as int)),
                    decreases lines.len() - k,
                {
                    apply_window_line(&mut s.windows, &lines[k]);
                    assert(l.take(k + 1).drop_last() =~= l.take(k as int));
                    k += 1;
                }
                assert(l.take(lines@.len() as int) =~= l);
                self.replace_session(i, s);
                proof {
                    lemma_update_twice(m.sessions, i as int, fg@, s@);
                }
            },
        }
    }

    /// Apply one `list-panes` line.
    fn apply_pane_line(&mut self, line: &String)
        ensures
            final(self)@ == pane_line(old(self)@, line@),
    {
        let ghost m = self@;
        let t = trimmed_chars(line);
        let (a, b, c) = match split4_at(&t) {
            Some(parts) => parts,
            None => {
                return;
            },
        };
        let id = match prefixed_id_at(&t, 0, a, '%') {
            Some(id) => id,
            None => {
                return;
            },
        };
        let width: u16 = match parse_unsigned_range(&t, a + 1, b, 0xffff) {
            Some(v) => v as u16,
            None => 0,
        };
        let height: u16 = match parse_unsigned_range(&t, b + 1, c, 0xffff) {
            Some(v) => v as u16,
            None => 0,
        };
        assert(t@.subrange(c + 1, t@.len() as int) == t@.skip(c + 1));
        let active = is_one(&t, c + 1, t.len());
        let pane = TmuxPane { id, active, width, height };
        match find_pane_pos(&self.sessions, id) {
            Some((si, wi, p)) => {
                let f = filler_window();
                let ghost fg = f;
                let mut w = self.replace_window(si, wi, f);
                w.panes.set(p, pane);
                self.replace_window(si, wi, w);
                proof {
                    lemma_update_window_twice(m.sessions, si as int, wi as int, fg@, w@);
                }
            },
            None => match self.active_index() {
                Some(i) => {
                    if self.sessions[i].windows.len() > 0 {
                        let f = filler_window();
                        let ghost fg = f;
                        let mut w = self.replace_window(i, 0, f);
                        w.panes.push(pane);
                        self.replace_window(i, 0, w);
                        proof {
                            lemma_update_window_twice(m.sessions, i as int, 0, fg@, w@);
                        }
                    }
                },
                None => {},
            },
        }
    }

    /// Parse `list-panes` response lines.
    ///
    /// Expected format per line: `%<id> <width> <height> <active:0|1>`
    fn parse_list_panes(&mut self, lines: &Vec<String>)
        ensures
            final(self)@ == handle_response(
                old(self)@,
                CommandTypeView::ListPanes,
                strings_view(lines@),
            ),
    {
        let ghost m = self@;
        let ghost l = strings_view(lines@);
        let mut k: usize = 0;
        assert(l.take(0) =~= Seq::<Seq<char>>::empty());
        while k < lines.len()
            invariant
                k <= lines@.len(),
                l == strings_view(lines@),
                self@ == panes_after(m, l.take(k as int)),
            decreases lines.len() - k,
        {
            self.apply_pane_line(&lines[k]);
            assert(l.take(k + 1).drop_last() =~= l.take(k as int));
            k += 1;
        }
        assert(l.take(lines@.len() as int) =~= l);
    }

    /// Parse `list-sessions` response lines.
    ///
    /// Expected format per line: `$<id> <name>`
    fn parse_list_sessions(&mut self, lines: &Vec<String>)
        ensures
            final(self)@ == handle_response(
                old(self)@,
                CommandTypeView::ListSessions,
                strings_view(lines@),
            ),
    {
        let ghost m = self@;
        let ghost l = strings_view(lines@);
        let mut k: usize = 0;
        assert(l.take(0) =~= Seq::<Seq<char>>::empty());
        while k < lines.len()
            invariant
                k <= lines@.len(),
                l == strings_view(lines@),
                self@ == with_sessions(m, sessions_after(m.sessions, l.take(k as int))),
            decreases lines.len() - k,
        {
            apply_session_line(&mut self.sessions, &lines[k]);
            assert(l.take(k + 1).drop_last() =~= l.take(k as int));
            k += 1;
        }
        assert(l.take(lines@.len() as int) =~= l);
    }
}

/// The windows other than those with this id, in order (`retain`).
fn without_window_exec(ws: Vec<TmuxWindow>, id: u32) -> (r: Vec<TmuxWindow>)
    ensures
        windows_view(r@) == without_window(windows_view(ws@), id),
{
    let ghost orig = ws@;
    let mut ws = ws;
    let mut out: Vec<TmuxWindow> = Vec::new();
    let mut i: usize = 0;
    assert(windows_view(orig).take(0) =~= Seq::<TmuxWindowView>::empty());
    while i < ws.len()
        invariant
            i <= ws@.len(),
            ws@.len() == orig.len(),
            forall|k: int| i <= k < orig.len() ==> ws@[k] == orig[k],
            windows_view(out@) == without_window(windows_view(orig).take(i as int), id),
        decreases ws.len() - i,
    {
        let f = filler_window();
        let w = vec_take(&mut ws, i, f);
        let ghost wv = windows_view(orig);
        assert(wv.take(i + 1).drop_last() =~= wv.take(i as int));
        assert(wv.take(i + 1).last() == w@);
        if w.id != id {
            proof {
                lemma_windows_view_push(out@, w);
            }
            out.push(w);
        }
        i += 1;
    }
    assert(windows_view(orig).take(orig.len() as int) =~= windows_view(orig));
    out
}

impl SessionManager {
    /// Format a [`TmuxCommand`] into the string that should be written to
    /// tmux's stdin (without a trailing newline).
    pub fn format_command(cmd: &TmuxCommand) -> (s: String)
        ensures
            s@ == command_text(*cmd),
    {
        match cmd {
            TmuxCommand::ListWindows => String::from_str(
                "list-windows -F '#{window_id} #{window_name} #{window_active} #{window_layout}'",
            ),
            TmuxCommand::ListPanes { window_id } => {
                let mut s = String::from_str("list-panes -t @");
                push_decimal(&mut s, *window_id as u64);
                s.append(" -F '#{pane_id} #{pane_width} #{pane_height} #{pane_active}'");
                s
            },
            TmuxCommand::ListSessions => String::from_str(
                "list-sessions -F '#{session_id} #{session_name}'",
            ),
            TmuxCommand::NewWindow { name } => match name {
                Some(n) => {
                    let mut s = String::from_str("new-window -n '");
                    s.append(n.as_str());
                    s.append("'");
                    s
                },
                None => String::from_str("new-window"),
            },
            TmuxCommand::KillWindow { window_id } => {
                let mut s = String::from_str("kill-window -t @");
                push_decimal(&mut s, *window_id as u64);
                s
            },
            TmuxCommand::SelectWindow { window_id } => {
                let mut s = String::from_str("select-window -t @");
                push_decimal(&mut s, *window_id as u64);
                s
            },
            TmuxCommand::SendKeys { pane_id, keys } => {
                let mut s = String::from_str("send-keys -t %");
                push_decimal(&mut s, *pane_id as u64);
                s.append(" ");
                s.append(keys.as_str());
                s
            },
            TmuxCommand::ResizePane { pane_id, width, height } => {
                let mut s = String::from_str("resize-pane -t %");
                push_decimal(&mut s, *pane_id as u64);
                s.append(" -x ");
                push_decimal(&mut s, *width as u64);
                s.append(" -y ");
                push_decimal(&mut s, *height as u64);
                s
            },
            TmuxCommand::SplitWindow { direction, pane_id } => {
                let mut s = String::from_str("split-window -");
                push_char(&mut s, *direction);
                s.append(" -t %");
                push_decimal(&mut s, *pane_id as u64);
                s
            },
            TmuxCommand::RefreshClient { width, height } => {
                let mut s = String::from_str("refresh-client -C ");
                push_decimal(&mut s, *width as u64);
                s.append(",");
                push_decimal(&mut s, *height as u64);
                s
            },
        }
    }
}

impl Default for SessionManager {
    fn default() -> (m: Self)
        ensures
            m@ == (SessionManagerView {
                sessions: seq![],
                active_session: None,
                pending_commands: seq![],
                control_mode_active: false,
            }),
    {
        Self::new()
    }
}

// ---------------------------------------------------------------------------
// Laws
// ---------------------------------------------------------------------------

/// Replacing a session by one with the same id finds the same sessions.
proof fn lemma_session_index_update(
    ss: Seq<TmuxSessionView>,
    i: int,
    s: TmuxSessionView,
    id: u32,
    k: int,
)
    requires
        0 <= i < ss.len(),
        s.id == ss[i].id,
    ensures
        session_index_from(ss.update(i, s), id, k) == session_index_from(ss, id, k),
    decreases ss.len() - k,
{
    if 0 <= k < ss.len() && ss[k].id != id {
        lemma_session_index_update(ss, i, s, id, k + 1);
    }
}

/// A found session lies in range and has the id; none before it has.
proof fn lemma_session_index_found(ss: Seq<TmuxSessionView>, id: u32, k: int)
    requires
        0 <= k,
    ensures
        session_index_from(ss, id, k) matches Some(i) ==> k <= i < ss.len() && ss[i].id == id,
        session_index_from(ss, id, k) is None ==> forall|j: int| k <= j < ss.len() ==> ss[j].id != id,
    decreases ss.len() - k,
{
    if k < ss.len() && ss[k].id != id {
        lemma_session_index_found(ss, id, k + 1);
    }
}

/// A session appended when none had its id is the one found.
proof fn lemma_session_index_push(ss: Seq<TmuxSessionView>, s: TmuxSessionView, id: u32, k: int)
    requires
        0 <= k <= ss.len(),
        s.id == id,
        session_index_from(ss, id, k) is None,
    ensures
        session_index_from(ss.push(s), id, k) == Some(ss.len() as int),
    decreases ss.len() - k,
{
    if k < ss.len() {
        lemma_session_index_push(ss, s, id, k + 1);
    }
}

/// A window with the id, appended, is found.
proof fn lemma_window_index_push(ws: Seq<TmuxWindowView>, w: TmuxWindowView, id: u32, k: int)
    requires
        0 <= k <= ws.len(),
        w.id == id,
    ensures
        window_index_from(ws.push(w), id, k) is Some,
    decreases ws.len() - k,
{
    if k < ws.len() && ws[k].id != id {
        lemma_window_index_push(ws, w, id, k + 1);
    }
}

/// No window left by `without_window` has the id.
proof fn lemma_without_window_lacks(ws: Seq<TmuxWindowView>, id: u32)
    ensures
        forall|j: int|
            0 <= j < without_window(ws, id).len() ==> #[trigger] without_window(ws, id)[j].id != id,
    decreases ws.len(),
{
    if ws.len() > 0 {
        lemma_without_window_lacks(ws.drop_last(), id);
        let r = without_window(ws.drop_last(), id);
        if ws.last().id != id {
            assert forall|j: int| 0 <= j < r.push(ws.last()).len() implies #[trigger] r.push(
                ws.last(),
            )[j].id != id by {
                if j < r.len() {
                    assert(r.push(ws.last())[j] == r[j]);
                }
            }
        }
    }
}

proof fn lemma_window_index_absent(ws: Seq<TmuxWindowView>, id: u32, k: int)
    requires
        forall|j: int| 0 <= j < ws.len() ==> #[trigger] ws[j].id != id,
    ensures
        window_index_from(ws, id, k) is None,
    decreases ws.len() - k,
{
    if 0 <= k < ws.len() {
        lemma_window_index_absent(ws, id, k + 1);
    }
}

/// The first pending command with a guard is the one found.
proof fn lemma_pending_index_first(ps: Seq<PendingCommandView>, guard: Seq<char>, k: int, f: int)
    requires
        0 <= k <= f < ps.len(),
        ps[f].guard == guard,
        forall|j: int| 0 <= j < f ==> #[trigger] ps[j].guard != guard,
    ensures
        pending_index_from(ps, guard, k) == Some(f),
    decreases f - k,
{
    if k < f {
        lemma_pending_index_first(ps, guard, k + 1, f);
    }
}

/// Responses to `list-panes` leave everything but the sessions alone.
proof fn lemma_panes_after_keeps(m: SessionManagerView, lines: Seq<Seq<char>>)
    ensures
        panes_after(m, lines).pending_commands == m.pending_commands,
        panes_after(m, lines).active_session == m.active_session,
        panes_after(m, lines).control_mode_active == m.control_mode_active,
    decreases lines.len(),
{
    if lines.len() > 0 {
        lemma_panes_after_keeps(m, lines.drop_last());
    }
}

/// A window announced twice is added once.
pub proof fn lemma_window_add_idempotent(m: SessionManagerView, window_id: u32)
    ensures
        apply_event(
            apply_event(m, TmuxEventView::WindowAdd { window_id }),
            TmuxEventView::WindowAdd { window_id },
        ) == apply_event(m, TmuxEventView::WindowAdd { window_id }),
{
    let m1 = apply_event(m, TmuxEventView::WindowAdd { window_id });
    if let Some(aid) = m.active_session {
        lemma_session_index_found(m.sessions, aid, 0);
        if let Some(i) = active_index(m) {
            if window_index(m.sessions[i].windows, window_id) is None {
                let ns = set_windows(
                    m.sessions[i],
                    m.sessions[i].windows.push(new_window(window_id)),
                );
                lemma_session_index_update(m.sessions, i, ns, aid, 0);
                assert(active_index(m1) == Some(i));
                assert(m1.sessions[i] == ns);
                lemma_window_index_push(m.sessions[i].windows, new_window(window_id), window_id, 0);
            }
        }
    }
}

/// A session change makes that session the active one, known under its
/// new name.
pub proof fn lemma_session_changed_activates(m: SessionManagerView, session_id: u32, name: Seq<char>)
    ensures
        ({
            let m1 = apply_event(m, TmuxEventView::SessionChanged { session_id, name });
            &&& m1.active_session == Some(session_id)
            &&& active_index(m1) matches Some(i) && 0 <= i < m1.sessions.len()
                && m1.sessions[i].id == session_id && m1.sessions[i].name == name
        }),
{
    let ss = m.sessions;
    lemma_session_index_found(ss, session_id, 0);
    match session_index(ss, session_id) {
        None => {
            lemma_session_index_push(
                ss,
                TmuxSessionView { id: session_id, name, windows: seq![] },
                session_id,
                0,
            );
        },
        Some(i) => {
            let ns = TmuxSessionView { id: ss[i].id, name, windows: ss[i].windows };
            lemma_session_index_update(ss, i, ns, session_id, 0);
        },
    }
}

/// After a window closes, the active session holds no window with its id.
pub proof fn lemma_window_close_removes(m: SessionManagerView, window_id: u32)
    requires
        active_index(m) is Some,
    ensures
        ({
            let m1 = apply_event(m, TmuxEventView::WindowClose { window_id });
            &&& active_index(m1) == active_index(m)
            &&& window_index(m1.sessions[active_index(m1).unwrap()].windows, window_id) is None
        }),
{
    let aid = m.active_session.unwrap();
    let i = active_index(m).unwrap();
    lemma_session_index_found(m.sessions, aid, 0);
    let ws = without_window(m.sessions[i].windows, window_id);
    let ns = set_windows(m.sessions[i], ws);
    lemma_session_index_update(m.sessions, i, ns, aid, 0);
    lemma_without_window_lacks(m.sessions[i].windows, window_id);
    lemma_window_index_absent(ws, window_id, 0);
}

/// A response consumes the first pending command with its guard; one that
/// no pending command awaits changes nothing.
pub proof fn lemma_response_consumes_pending(
    m: SessionManagerView,
    guard: Seq<char>,
    lines: Seq<Seq<char>>,
    k: int,
)
    requires
        0 <= k < m.pending_commands.len(),
        m.pending_commands[k].guard == guard,
        forall|j: int| 0 <= j < k ==> #[trigger] m.pending_commands[j].guard != guard,
    ensures
        apply_event(m, TmuxEventView::Response { guard, lines }).pending_commands
            == m.pending_commands.remove(k),
{
    lemma_pending_index_first(m.pending_commands, guard, 0, k);
    let m0 = SessionManagerView {
        sessions: m.sessions,
        active_session: m.active_session,
        pending_commands: m.pending_commands.remove(k),
        control_mode_active: m.control_mode_active,
    };
    lemma_panes_after_keeps(m0, lines);
}

/// A response that no pending command awaits changes nothing.
pub proof fn lemma_unawaited_response_ignored(
    m: SessionManagerView,
    guard: Seq<char>,
    lines: Seq<Seq<char>>,
)
    requires
        forall|j: int|
            0 <= j < m.pending_commands.len() ==> #[trigger] m.pending_commands[j].guard != guard,
    ensures
        apply_event(m, TmuxEventView::Response { guard, lines }) == m,
{
    lemma_pending_index_none(m.pending_commands, guard, 0);
}

proof fn lemma_pending_index_none(ps: Seq<PendingCommandView>, guard: Seq<char>, k: int)
    requires
        forall|j: int| 0 <= j < ps.len() ==> #[trigger] ps[j].guard != guard,
    ensures
        pending_index_from(ps, guard, k) is None,
    decreases ps.len() - k,
{
    if 0 <= k < ps.len() {
        lemma_pending_index_none(ps, guard, k + 1);
    }
}

/// Entering control mode turns tracking on and an exit turns it off,
/// leaving the sessions as they were.
pub proof fn lemma_control_mode_tracking(m: SessionManagerView)
    ensures
        apply_event(m, TmuxEventView::ControlModeEntered).control_mode_active,
        !apply_event(m, TmuxEventView::Exit).control_mode_active,
        apply_event(m, TmuxEventView::ControlModeEntered).sessions == m.sessions,
        apply_event(m, TmuxEventView::Exit).sessions == m.sessions,
{
}


/// What searching windows from `k` finds: the first window at or after `k`
/// with the id, or none when no window from `k` on has it.
proof fn lemma_window_index_from_first(ws: Seq<TmuxWindowView>, id: u32, k: int)
    requires
        0 <= k,
    ensures
        window_index_from(ws, id, k) matches Some(j) ==> k <= j < ws.len() && ws[j].id == id
            && forall|q: int| k <= q < j ==> #[trigger] ws[q].id != id,
        window_index_from(ws, id, k) is None ==> forall|q: int|
            k <= q < ws.len() ==> #[trigger] ws[q].id != id,
    decreases ws.len() - k,
{
    if k < ws.len() && ws[k].id != id {
        lemma_window_index_from_first(ws, id, k + 1);
    }
}

/// What searching sessions from `k` finds: the first session at or after `k`
/// holding a window with the id, and the first such window in it.
proof fn lemma_window_pos_from_first(ss: Seq<TmuxSessionView>, id: u32, k: int)
    requires
        0 <= k,
    ensures
        window_pos_from(ss, id, k) matches Some((s, j)) ==> {
            &&& k <= s < ss.len()
            &&& 0 <= j < ss[s].windows.len()
            &&& ss[s].windows[j].id == id
            &&& forall|q: int| 0 <= q < j ==> #[trigger] ss[s].windows[q].id != id
            &&& forall|t: int, q: int|
                k <= t < s && 0 <= q < ss[t].windows.len() ==> #[trigger] ss[t].windows[q].id != id
        },
        window_pos_from(ss, id, k) is None ==> forall|t: int, q: int|
            k <= t < ss.len() && 0 <= q < ss[t].windows.len() ==> #[trigger] ss[t].windows[q].id
                != id,
    decreases ss.len() - k,
{
    if k < ss.len() {
        lemma_window_index_from_first(ss[k].windows, id, 0);
        if window_index(ss[k].windows, id) is None {
            lemma_window_pos_from_first(ss, id, k + 1);
        }
    }
}

/// Looking a window up by its id finds the first window with that id over
/// all sessions in order, and each session's windows in order; it finds
/// none exactly when no session holds a window with that id.
pub proof fn lemma_window_pos_is_first(ss: Seq<TmuxSessionView>, id: u32)
    ensures
        window_pos(ss, id) matches Some((s, j)) ==> {
            &&& 0 <= s < ss.len()
            &&& 0 <= j < ss[s].windows.len()
            &&& ss[s].windows[j].id == id
            &&& forall|q: int| 0 <= q < j ==> #[trigger] ss[s].windows[q].id != id
            &&& forall|t: int, q: int|
                0 <= t < s && 0 <= q < ss[t].windows.len() ==> #[trigger] ss[t].windows[q].id != id
        },
        window_pos(ss, id) is None <==> forall|t: int, q: int|
            0 <= t < ss.len() && 0 <= q < ss[t].windows.len() ==> #[trigger] ss[t].windows[q].id
                != id,
{
    lemma_window_pos_from_first(ss, id, 0);
}

// ---------------------------------------------------------------------------
// Distinct ids
// ---------------------------------------------------------------------------

/// Pane `p` of window `w` of session `s` exists.
pub open spec fn pane_at(ss: Seq<TmuxSessionView>, s: int, w: int, p: int) -> bool {
    0 <= s < ss.len() && 0 <= w < ss[s].windows.len() && 0 <= p < ss[s].windows[w].panes.len()
}

/// The id of pane `p` of window `w` of session `s`.
pub open spec fn pane_id_at(ss: Seq<TmuxSessionView>, s: int, w: int, p: int) -> u32 {
    ss[s].windows[w].panes[p].id
}

/// No two sessions share an id.
pub open spec fn sessions_distinct(ss: Seq<TmuxSessionView>) -> bool {
    forall|i: int, j: int| 0 <= i < j < ss.len() ==> #[trigger] ss[i].id != #[trigger] ss[j].id
}

/// No two windows of the list share an id.
pub open spec fn windows_distinct(ws: Seq<TmuxWindowView>) -> bool {
    forall|j: int, k: int| 0 <= j < k < ws.len() ==> #[trigger] ws[j].id != #[trigger] ws[k].id
}

/// No two panes, over all windows of all sessions, share an id.
pub open spec fn panes_distinct(ss: Seq<TmuxSessionView>) -> bool {
    forall|s1: int, w1: int, p1: int, s2: int, w2: int, p2: int|
        pane_at(ss, s1, w1, p1) && pane_at(ss, s2, w2, p2) && (s1 != s2 || w1 != w2 || p1 != p2)
            ==> #[trigger] pane_id_at(ss, s1, w1, p1) != #[trigger] pane_id_at(ss, s2, w2, p2)
}

/// Session ids are distinct, window ids are distinct within each session,
/// and pane ids are distinct across all windows of all sessions.
pub open spec fn ids_distinct(ss: Seq<TmuxSessionView>) -> bool {
    &&& sessions_distinct(ss)
    &&& forall|s: int| 0 <= s < ss.len() ==> windows_distinct(#[trigger] ss[s].windows)
    &&& panes_distinct(ss)
}

/// Panes that stay where they were, with their ids, stay distinct.
proof fn lemma_panes_keep(ss: Seq<TmuxSessionView>, ss2: Seq<TmuxSessionView>)
    requires
        panes_distinct(ss),
        forall|s: int, w: int, p: int|
            pane_at(ss2, s, w, p) ==> pane_at(ss, s, w, p) && #[trigger] pane_id_at(ss2, s, w, p)
                == pane_id_at(ss, s, w, p),
    ensures
        panes_distinct(ss2),
{
    assert forall|s1: int, w1: int, p1: int, s2: int, w2: int, p2: int|
        pane_at(ss2, s1, w1, p1) && pane_at(ss2, s2, w2, p2) && (s1 != s2 || w1 != w2 || p1 != p2)
            implies #[trigger] pane_id_at(ss2, s1, w1, p1) != #[trigger] pane_id_at(ss2, s2, w2, p2) by {
        assert(pane_id_at(ss2, s1, w1, p1) == pane_id_at(ss, s1, w1, p1));
        assert(pane_id_at(ss2, s2, w2, p2) == pane_id_at(ss, s2, w2, p2));
    }
}

/// Where window `j` of `without_window(ws, id)` stood in `ws`.
pub open spec fn kept_origin(ws: Seq<TmuxWindowView>, id: u32, j: int) -> int
    decreases ws.len(),
{
    if ws.len() == 0 {
        0
    } else if j < without_window(ws.drop_last(), id).len() {
        kept_origin(ws.drop_last(), id, j)
    } else {
        ws.len() - 1
    }
}

/// The windows left by `without_window` are windows of the list, in their
/// order.
proof fn lemma_kept_origin(ws: Seq<TmuxWindowView>, id: u32)
    ensures
        without_window(ws, id).len() <= ws.len(),
        forall|j: int|
            0 <= j < without_window(ws, id).len() ==> 0 <= #[trigger] kept_origin(ws, id, j) < ws.len()
                && without_window(ws, id)[j] == ws[kept_origin(ws, id, j)],
        forall|j: int, k: int|
            0 <= j < k < without_window(ws, id).len() ==> #[trigger] kept_origin(ws, id, j)
                < #[trigger] kept_origin(ws, id, k),
    decreases ws.len(),
{
    if ws.len() > 0 {
        let front = ws.drop_last();
        lemma_kept_origin(front, id);
        let r = without_window(front, id);
        let all = without_window(ws, id);
        assert forall|j: int| 0 <= j < all.len() implies 0 <= #[trigger] kept_origin(ws, id, j)
            < ws.len() && all[j] == ws[kept_origin(ws, id, j)] by {
            if j < r.len() {
                assert(kept_origin(ws, id, j) == kept_origin(front, id, j));
                assert(front[kept_origin(front, id, j)] == ws[kept_origin(front, id, j)]);
            }
        }
        assert forall|j: int, k: int| 0 <= j < k < all.len() implies #[trigger] kept_origin(ws, id, j)
            < #[trigger] kept_origin(ws, id, k) by {
            assert(kept_origin(ws, id, j) == kept_origin(front, id, j));
            assert(0 <= kept_origin(front, id, j) < front.len());
            if k < r.len() {
                assert(kept_origin(ws, id, k) == kept_origin(front, id, k));
                assert(kept_origin(front, id, j) < kept_origin(front, id, k));
            } else {
                assert(kept_origin(ws, id, k) == ws.len() - 1);
            }
        }
    }
}

/// Closing a window of a session keeps the ids distinct.
proof fn lemma_without_window_distinct(ss: Seq<TmuxSessionView>, i: int, id: u32)
    requires
        ids_distinct(ss),
        0 <= i < ss.len(),
    ensures
        ids_distinct(ss.update(i, set_windows(ss[i], without_window(ss[i].windows, id)))),
{
    let ws = ss[i].windows;
    let kept = without_window(ws, id);
    let ss2 = ss.update(i, set_windows(ss[i], kept));
    lemma_kept_origin(ws, id);
    assert forall|a: int, b: int| 0 <= a < b < ss2.len() implies #[trigger] ss2[a].id
        != #[trigger] ss2[b].id by {
        assert(ss2[a].id == ss[a].id && ss2[b].id == ss[b].id);
    }
    assert forall|t: int| 0 <= t < ss2.len() implies windows_distinct(#[trigger] ss2[t].windows) by {
        if t == i {
            assert(windows_distinct(ws));
            assert forall|j: int, k: int| 0 <= j < k < kept.len() implies #[trigger] kept[j].id
                != #[trigger] kept[k].id by {
                assert(kept_origin(ws, id, j) < kept_origin(ws, id, k));
                assert(ws[kept_origin(ws, id, j)].id != ws[kept_origin(ws, id, k)].id);
            }
        } else {
            assert(ss2[t] == ss[t]);
        }
    }
    assert forall|s1: int, w1: int, p1: int, s2: int, w2: int, p2: int|
        pane_at(ss2, s1, w1, p1) && pane_at(ss2, s2, w2, p2) && (s1 != s2 || w1 != w2 || p1 != p2)
            implies #[trigger] pane_id_at(ss2, s1, w1, p1) != #[trigger] pane_id_at(ss2, s2, w2, p2) by {
        let o1 = if s1 == i { kept_origin(ws, id, w1) } else { w1 };
        let o2 = if s2 == i { kept_origin(ws, id, w2) } else { w2 };
        if s1 == i {
            assert(ss2[s1].windows[w1] == ws[o1]);
        } else {
            assert(ss2[s1] == ss[s1]);
        }
        if s2 == i {
            assert(ss2[s2].windows[w2] == ws[o2]);
        } else {
            assert(ss2[s2] == ss[s2]);
        }
        assert(pane_at(ss, s1, o1, p1) && pane_at(ss, s2, o2, p2));
        assert(pane_id_at(ss2, s1, w1, p1) == pane_id_at(ss, s1, o1, p1));
        assert(pane_id_at(ss2, s2, w2, p2) == pane_id_at(ss, s2, o2, p2));
        if s1 == s2 && s1 == i && w1 != w2 {
            if w1 < w2 {
                assert(kept_origin(ws, id, w1) < kept_origin(ws, id, w2));
            } else {
                assert(kept_origin(ws, id, w2) < kept_origin(ws, id, w1));
            }
        }
    }
}

/// Replacing a window by one with the same id and panes of the same ids
/// keeps the ids distinct.
proof fn lemma_update_window_distinct(ss: Seq<TmuxSessionView>, s: int, w: int, nw: TmuxWindowView)
    requires
        ids_distinct(ss),
        0 <= s < ss.len(),
        0 <= w < ss[s].windows.len(),
        nw.id == ss[s].windows[w].id,
        nw.panes.len() == ss[s].windows[w].panes.len(),
        forall|p: int| 0 <= p < nw.panes.len() ==> #[trigger] nw.panes[p].id == ss[s].windows[w].panes[p].id,
    ensures
        ids_distinct(update_window(ss, s, w, nw)),
{
    let ss2 = update_window(ss, s, w, nw);
    assert forall|a: int, b: int| 0 <= a < b < ss2.len() implies #[trigger] ss2[a].id
        != #[trigger] ss2[b].id by {
        assert(ss2[a].id == ss[a].id && ss2[b].id == ss[b].id);
    }
    assert forall|t: int| 0 <= t < ss2.len() implies windows_distinct(#[trigger] ss2[t].windows) by {
        if t == s {
            let ws = ss[s].windows;
            let ws2 = ss2[t].windows;
            assert(windows_distinct(ws));
            assert forall|j: int, k: int| 0 <= j < k < ws2.len() implies #[trigger] ws2[j].id
                != #[trigger] ws2[k].id by {
                assert(ws2[j].id == ws[j].id && ws2[k].id == ws[k].id);
            }
        } else {
            assert(ss2[t] == ss[t]);
        }
    }
    assert forall|a: int, b: int, c: int| pane_at(ss2, a, b, c) implies pane_at(ss, a, b, c)
        && #[trigger] pane_id_at(ss2, a, b, c) == pane_id_at(ss, a, b, c) by {
        if a == s && b == w {
            assert(ss2[a].windows[b] == nw);
        } else if a == s {
            assert(ss2[a].windows[b] == ss[a].windows[b]);
        } else {
            assert(ss2[a] == ss[a]);
        }
    }
    lemma_panes_keep(ss, ss2);
}

/// Adding a window with no panes and an id that the session lacks keeps the
/// ids distinct.
proof fn lemma_push_window_distinct(ss: Seq<TmuxSessionView>, i: int, nw: TmuxWindowView)
    requires
        ids_distinct(ss),
        0 <= i < ss.len(),
        nw.panes.len() == 0,
        forall|j: int| 0 <= j < ss[i].windows.len() ==> #[trigger] ss[i].windows[j].id != nw.id,
    ensures
        ids_distinct(ss.update(i, set_windows(ss[i], ss[i].windows.push(nw)))),
{
    let ss2 = ss.update(i, set_windows(ss[i], ss[i].windows.push(nw)));
    assert forall|a: int, b: int| 0 <= a < b < ss2.len() implies #[trigger] ss2[a].id
        != #[trigger] ss2[b].id by {
        assert(ss2[a].id == ss[a].id && ss2[b].id == ss[b].id);
    }
    assert forall|t: int| 0 <= t < ss2.len() implies windows_distinct(#[trigger] ss2[t].windows) by {
        if t == i {
            let ws = ss[i].windows;
            let ws2 = ss2[t].windows;
            assert(windows_distinct(ws));
            assert forall|j: int, k: int| 0 <= j < k < ws2.len() implies #[trigger] ws2[j].id
                != #[trigger] ws2[k].id by {
                assert(ws2[j] == ws[j]);
                if k < ws.len() {
                    assert(ws2[k] == ws[k]);
                }
            }
        } else {
            assert(ss2[t] == ss[t]);
        }
    }
    assert forall|a: int, b: int, c: int| pane_at(ss2, a, b, c) implies pane_at(ss, a, b, c)
        && #[trigger] pane_id_at(ss2, a, b, c) == pane_id_at(ss, a, b, c) by {
        if a == i {
            assert(ss2[a].windows[b] == ss[a].windows[b]);
        } else {
            assert(ss2[a] == ss[a]);
        }
    }
    lemma_panes_keep(ss, ss2);
}

/// Adding or renaming a session keeps the ids distinct.
proof fn lemma_upsert_distinct(ss: Seq<TmuxSessionView>, id: u32, name: Seq<char>)
    requires
        ids_distinct(ss),
    ensures
        ids_distinct(upsert_session(ss, id, name)),
        upsert_session(ss, id, name).len() >= ss.len(),
        forall|t: int| 0 <= t < ss.len() ==> (#[trigger] upsert_session(ss, id, name)[t]).windows == ss[t].windows,
        forall|t: int|
            ss.len() <= t < upsert_session(ss, id, name).len() ==> (#[trigger] upsert_session(
                ss,
                id,
                name,
            )[t]).windows.len() == 0,
{
    lemma_session_index_found(ss, id, 0);
    let ss2 = upsert_session(ss, id, name);
    assert forall|a: int, b: int| 0 <= a < b < ss2.len() implies #[trigger] ss2[a].id
        != #[trigger] ss2[b].id by {
        if b < ss.len() {
            assert(ss2[a].id == ss[a].id && ss2[b].id == ss[b].id);
        } else {
            assert(ss2[a].id == ss[a].id);
        }
    }
    assert forall|t: int| 0 <= t < ss2.len() implies windows_distinct(#[trigger] ss2[t].windows) by {
        if t < ss.len() {
            assert(ss2[t].windows == ss[t].windows);
        } else {
            assert(ss2[t].windows.len() == 0);
        }
    }
    assert forall|a: int, b: int, c: int| pane_at(ss2, a, b, c) implies pane_at(ss, a, b, c)
        && #[trigger] pane_id_at(ss2, a, b, c) == pane_id_at(ss, a, b, c) by {
        assert(ss2[a].windows == ss[a].windows);
    }
    lemma_panes_keep(ss, ss2);
}

/// Responses to `list-sessions` keep the ids distinct, the windows of the
/// sessions there were, and add sessions without windows.
proof fn lemma_sessions_after_distinct(ss: Seq<TmuxSessionView>, lines: Seq<Seq<char>>)
    requires
        ids_distinct(ss),
    ensures
        ids_distinct(sessions_after(ss, lines)),
        sessions_after(ss, lines).len() >= ss.len(),
        forall|t: int| 0 <= t < ss.len() ==> (#[trigger] sessions_after(ss, lines)[t]).windows == ss[t].windows,
        forall|t: int|
            ss.len() <= t < sessions_after(ss, lines).len() ==> (#[trigger] sessions_after(
                ss,
                lines,
            )[t]).windows.len() == 0,
    decreases lines.len(),
{
    if lines.len() > 0 {
        lemma_sessions_after_distinct(ss, lines.drop_last());
        let r = sessions_after(ss, lines.drop_last());
        match split2(trim(lines.last())) {
            None => {},
            Some((p0, p1)) => match prefixed_id(p0, '$') {
                None => {},
                Some(id) => {
                    lemma_upsert_distinct(r, id, p1);
                    let r2 = upsert_session(r, id, p1);
                    assert(sessions_after(ss, lines) == r2);
                    assert forall|t: int| 0 <= t < ss.len() implies (#[trigger] r2[t]).windows
                        == ss[t].windows by {
                        assert(r2[t].windows == r[t].windows);
                    }
                    assert forall|t: int| ss.len() <= t < r2.len() implies (#[trigger] r2[t]).windows.len()
                        == 0 by {
                        if t < r.len() {
                            assert(r2[t].windows == r[t].windows);
                        }
                    }
                },
            },
        }
    }
}

/// Responses to `list-windows` keep the window ids of the list distinct,
/// the panes of the windows there were, and add windows without panes.
proof fn lemma_windows_after_distinct(ws: Seq<TmuxWindowView>, lines: Seq<Seq<char>>)
    requires
        windows_distinct(ws),
    ensures
        windows_distinct(windows_after(ws, lines)),
        windows_after(ws, lines).len() >= ws.len(),
        forall|j: int| 0 <= j < ws.len() ==> (#[trigger] windows_after(ws, lines)[j]).panes == ws[j].panes,
        forall|j: int|
            ws.len() <= j < windows_after(ws, lines).len() ==> (#[trigger] windows_after(
                ws,
                lines,
            )[j]).panes.len() == 0,
    decreases lines.len(),
{
    if lines.len() > 0 {
        lemma_windows_after_distinct(ws, lines.drop_last());
        let r = windows_after(ws, lines.drop_last());
        let r2 = windows_after(ws, lines);
        match split4(trim(lines.last())) {
            None => {},
            Some((p0, p1, p2, p3)) => match prefixed_id(p0, '@') {
                None => {},
                Some(id) => {
                    lemma_window_index_from_first(r, id, 0);
                    match window_index(r, id) {
                        Some(j) => {
                            assert forall|a: int, b: int| 0 <= a < b < r2.len() implies #[trigger] r2[a].id
                                != #[trigger] r2[b].id by {
                                assert(r2[a].id == r[a].id && r2[b].id == r[b].id);
                            }
                            assert forall|t: int| 0 <= t < r2.len() implies (#[trigger] r2[t]).panes
                                == r[t].panes by {}
                        },
                        None => {
                            assert forall|a: int, b: int| 0 <= a < b < r2.len() implies #[trigger] r2[a].id
                                != #[trigger] r2[b].id by {
                                assert(r2[a] == r[a]);
                                if b < r.len() {
                                    assert(r2[b] == r[b]);
                                }
                            }
                            assert forall|t: int| 0 <= t < r.len() implies (#[trigger] r2[t]).panes
                                == r[t].panes by {
                                assert(r2[t] == r[t]);
                            }
                        },
                    }
                    assert forall|t: int| 0 <= t < ws.len() implies (#[trigger] r2[t]).panes
                        == ws[t].panes by {
                        assert(r2[t].panes == r[t].panes);
                    }
                    assert forall|t: int| ws.len() <= t < r2.len() implies (#[trigger] r2[t]).panes.len()
                        == 0 by {
                        if t < r.len() {
                            assert(r2[t].panes == r[t].panes);
                        }
                    }
                },
            },
        }
    }
}

proof fn lemma_pane_index_from_first(ps: Seq<TmuxPane>, id: u32, k: int)
    requires
        0 <= k,
    ensures
        pane_index_from(ps, id, k) matches Some(p) ==> k <= p < ps.len() && ps[p].id == id,
        pane_index_from(ps, id, k) is None ==> forall|q: int| k <= q < ps.len() ==> #[trigger] ps[q].id != id,
    decreases ps.len() - k,
{
    if k < ps.len() && ps[k].id != id {
        lemma_pane_index_from_first(ps, id, k + 1);
    }
}

proof fn lemma_pane_in_windows_first(ws: Seq<TmuxWindowView>, id: u32, k: int)
    requires
        0 <= k,
    ensures
        pane_in_windows_from(ws, id, k) matches Some((w, p)) ==> k <= w < ws.len() && 0 <= p
            < ws[w].panes.len() && ws[w].panes[p].id == id,
        pane_in_windows_from(ws, id, k) is None ==> forall|w: int, p: int|
            k <= w < ws.len() && 0 <= p < ws[w].panes.len() ==> #[trigger] ws[w].panes[p].id != id,
    decreases ws.len() - k,
{
    if k < ws.len() {
        lemma_pane_index_from_first(ws[k].panes, id, 0);
        if pane_index(ws[k].panes, id) is None {
            lemma_pane_in_windows_first(ws, id, k + 1);
        }
    }
}

proof fn lemma_pane_pos_from_first(ss: Seq<TmuxSessionView>, id: u32, k: int)
    requires
        0 <= k,
    ensures
        pane_pos_from(ss, id, k) matches Some((s, w, p)) ==> k <= s && pane_at(ss, s, w, p)
            && pane_id_at(ss, s, w, p) == id,
        pane_pos_from(ss, id, k) is None ==> forall|s: int, w: int, p: int|
            k <= s && pane_at(ss, s, w, p) ==> #[trigger] pane_id_at(ss, s, w, p) != id,
    decreases ss.len() - k,
{
    if k < ss.len() {
        lemma_pane_in_windows_first(ss[k].windows, id, 0);
        if pane_in_windows_from(ss[k].windows, id, 0) is None {
            lemma_pane_pos_from_first(ss, id, k + 1);
            if pane_pos_from(ss, id, k + 1) is None {
                assert forall|s: int, w: int, p: int| k <= s && pane_at(ss, s, w, p) implies #[trigger] pane_id_at(
                    ss,
                    s,
                    w,
                    p,
                ) != id by {
                    if s == k {
                        assert(ss[k].windows[w].panes[p].id != id);
                    }
                }
            }
        }
    }
}

/// Adding a pane whose id no pane has, to the first window of a session,
/// keeps the ids distinct.
proof fn lemma_push_pane_distinct(ss: Seq<TmuxSessionView>, i: int, pane: TmuxPane)
    requires
        ids_distinct(ss),
        0 <= i < ss.len(),
        ss[i].windows.len() > 0,
        forall|s: int, w: int, p: int| pane_at(ss, s, w, p) ==> #[trigger] pane_id_at(ss, s, w, p) != pane.id,
    ensures
        ids_distinct(
            update_window(
                ss,
                i,
                0,
                set_panes(ss[i].windows[0], ss[i].windows[0].panes.push(pane)),
            ),
        ),
{
    let ow = ss[i].windows[0];
    let nw = set_panes(ow, ow.panes.push(pane));
    let ss2 = update_window(ss, i, 0, nw);
    let n = ow.panes.len() as int;
    assert forall|a: int, b: int| 0 <= a < b < ss2.len() implies #[trigger] ss2[a].id
        != #[trigger] ss2[b].id by {
        assert(ss2[a].id == ss[a].id && ss2[b].id == ss[b].id);
    }
    assert forall|t: int| 0 <= t < ss2.len() implies windows_distinct(#[trigger] ss2[t].windows) by {
        if t == i {
            let ws = ss[i].windows;
            let ws2 = ss2[t].windows;
            assert(windows_distinct(ws));
            assert forall|j: int, k: int| 0 <= j < k < ws2.len() implies #[trigger] ws2[j].id
                != #[trigger] ws2[k].id by {
                assert(ws2[j].id == ws[j].id && ws2[k].id == ws[k].id);
            }
        } else {
            assert(ss2[t] == ss[t]);
        }
    }
    // Every pane of the new sessions is an old one, or the new pane.
    assert forall|a: int, b: int, c: int| pane_at(ss2, a, b, c) implies (pane_at(ss, a, b, c)
        && #[trigger] pane_id_at(ss2, a, b, c) == pane_id_at(ss, a, b, c)) || (a == i && b == 0 && c == n
        && pane_id_at(ss2, a, b, c) == pane.id) by {
        if a == i && b == 0 {
            assert(ss2[a].windows[b] == nw);
        } else if a == i {
            assert(ss2[a].windows[b] == ss[a].windows[b]);
        } else {
            assert(ss2[a] == ss[a]);
        }
    }
    assert forall|s1: int, w1: int, p1: int, s2: int, w2: int, p2: int|
        pane_at(ss2, s1, w1, p1) && pane_at(ss2, s2, w2, p2) && (s1 != s2 || w1 != w2 || p1 != p2)
            implies #[trigger] pane_id_at(ss2, s1, w1, p1) != #[trigger] pane_id_at(ss2, s2, w2, p2) by {
        let new1 = s1 == i && w1 == 0 && p1 == n;
        let new2 = s2 == i && w2 == 0 && p2 == n;
        if !new1 {
            assert(pane_at(ss, s1, w1, p1) && pane_id_at(ss2, s1, w1, p1) == pane_id_at(ss, s1, w1, p1));
        }
        if !new2 {
            assert(pane_at(ss, s2, w2, p2) && pane_id_at(ss2, s2, w2, p2) == pane_id_at(ss, s2, w2, p2));
        }
    }
}

/// Responses to `list-panes` keep the ids distinct.
proof fn lemma_panes_after_distinct(m: SessionManagerView, lines: Seq<Seq<char>>)
    requires
        ids_distinct(m.sessions),
    ensures
        ids_distinct(panes_after(m, lines).sessions),
        panes_after(m, lines).active_session == m.active_session,
    decreases lines.len(),
{
    if lines.len() > 0 {
        lemma_panes_after_distinct(m, lines.drop_last());
        let r = panes_after(m, lines.drop_last());
        let ss = r.sessions;
        match split4(trim(lines.last())) {
            None => {},
            Some((p0, p1, p2, p3)) => match prefixed_id(p0, '%') {
                None => {},
                Some(id) => {
                    let pane = TmuxPane {
                        id,
                        active: p3 == one_text(),
                        width: u16_or_zero(p1),
                        height: u16_or_zero(p2),
                    };
                    lemma_pane_pos_from_first(ss, id, 0);
                    match pane_pos(ss, id) {
                        Some((s, w, p)) => {
                            let ow = ss[s].windows[w];
                            let nw = set_panes(ow, ow.panes.update(p, pane));
                            assert forall|q: int| 0 <= q < nw.panes.len() implies #[trigger] nw.panes[q].id
                                == ss[s].windows[w].panes[q].id by {}
                            lemma_update_window_distinct(ss, s, w, nw);
                        },
                        None => {
                            match r.active_session {
                                Some(aid) => {
                                    lemma_session_index_found(ss, aid, 0);
                                    match session_index(ss, aid) {
                                        Some(i) => if ss[i].windows.len() > 0 {
                                            lemma_push_pane_distinct(ss, i, pane);
                                        },
                                        None => {},
                                    }
                                },
                                None => {},
                            }
                        },
                    }
                },
            },
        }
    }
}

/// Whatever event comes, session ids stay distinct, window ids stay
/// distinct within each session, and pane ids stay distinct across all
/// windows of all sessions: each event adds only ids it did not find.
pub proof fn lemma_ids_stay_distinct(m: SessionManagerView, e: TmuxEventView)
    requires
        ids_distinct(m.sessions),
    ensures
        ids_distinct(apply_event(m, e).sessions),
{
    let ss = m.sessions;
    match e {
        TmuxEventView::WindowAdd { window_id } => {
            if let Some(aid) = m.active_session {
                lemma_session_index_found(ss, aid, 0);
                if let Some(i) = session_index(ss, aid) {
                    lemma_window_index_from_first(ss[i].windows, window_id, 0);
                    if window_index(ss[i].windows, window_id) is None {
                        lemma_push_window_distinct(ss, i, new_window(window_id));
                    }
                }
            }
        },
        TmuxEventView::WindowClose { window_id } => {
            if let Some(aid) = m.active_session {
                lemma_session_index_found(ss, aid, 0);
                if let Some(i) = session_index(ss, aid) {
                    lemma_without_window_distinct(ss, i, window_id);
                }
            }
        },
        TmuxEventView::WindowRenamed { window_id, name } => {
            lemma_window_pos_is_first(ss, window_id);
            if let Some((s, w)) = window_pos(ss, window_id) {
                let ow = ss[s].windows[w];
                lemma_update_window_distinct(
                    ss,
                    s,
                    w,
                    TmuxWindowView { id: ow.id, name, layout: ow.layout, panes: ow.panes, active: ow.active },
                );
            }
        },
        TmuxEventView::LayoutChange { window_id, layout } => {
            lemma_window_pos_is_first(ss, window_id);
            if let Some((s, w)) = window_pos(ss, window_id) {
                let ow = ss[s].windows[w];
                lemma_update_window_distinct(
                    ss,
                    s,
                    w,
                    TmuxWindowView { id: ow.id, name: ow.name, layout, panes: ow.panes, active: ow.active },
                );
            }
        },
        TmuxEventView::SessionChanged { session_id, name } => {
            lemma_upsert_distinct(ss, session_id, name);
        },
        TmuxEventView::Response { guard, lines } => {
            if let Some(k) = pending_index_from(m.pending_commands, guard, 0) {
                let m1 = SessionManagerView {
                    sessions: m.sessions,
                    active_session: m.active_session,
                    pending_commands: m.pending_commands.remove(k),
                    control_mode_active: m.control_mode_active,
                };
                match m.pending_commands[k].callback_type {
                    CommandTypeView::ListWindows => {
                        if let Some(aid) = m.active_session {
                            lemma_session_index_found(ss, aid, 0);
                            if let Some(i) = session_index(ss, aid) {
                                let ws = ss[i].windows;
                                lemma_windows_after_distinct(ws, lines);
                                let ws2 = windows_after(ws, lines);
                                let ss2 = ss.update(i, set_windows(ss[i], ws2));
                                assert forall|a: int, b: int| 0 <= a < b < ss2.len() implies #[trigger] ss2[a].id
                                    != #[trigger] ss2[b].id by {
                                    assert(ss2[a].id == ss[a].id && ss2[b].id == ss[b].id);
                                }
                                assert forall|t: int| 0 <= t < ss2.len() implies windows_distinct(
                                    #[trigger] ss2[t].windows,
                                ) by {
                                    if t != i {
                                        assert(ss2[t] == ss[t]);
                                    }
                                }
                                assert forall|a: int, b: int, c: int| pane_at(ss2, a, b, c) implies pane_at(
                                    ss,
                                    a,
                                    b,
                                    c,
                                ) && #[trigger] pane_id_at(ss2, a, b, c) == pane_id_at(ss, a, b, c) by {
                                    if a == i {
                                        if b >= ws.len() {
                                            assert(ws2[b].panes.len() == 0);
                                        }
                                        assert(ws2[b].panes == ws[b].panes);
                                    } else {
                                        assert(ss2[a] == ss[a]);
                                    }
                                }
                                lemma_panes_keep(ss, ss2);
                            }
                        }
                    },
                    CommandTypeView::ListPanes => {
                        lemma_panes_after_distinct(m1, lines);
                    },
                    CommandTypeView::ListSessions => {
                        lemma_sessions_after_distinct(ss, lines);
                    },
                    _ => {},
                }
            }
        },
        _ => {},
    }
}

// ---------------------------------------------------------------------------
// Pane lines
// ---------------------------------------------------------------------------

/// The text holds no whitespace.
pub open spec fn no_ws(t: Seq<char>) -> bool {
    forall|k: int| 0 <= k < t.len() ==> !is_ws(#[trigger] t[k])
}

/// The first `c` at or after `from` is at `k`.
proof fn lemma_find_char_at(s: Seq<char>, c: char, from: int, k: int)
    requires
        0 <= from <= k < s.len(),
        s[k] == c,
        forall|j: int| from <= j < k ==> s[j] != c,
    ensures
        find_char_from(s, c, from) == Some(k),
{
    lemma_find_char_from(s, c, from);
}

/// Four fields without whitespace, joined by single spaces, split back into
/// those four fields.
proof fn lemma_split4_fields(p0: Seq<char>, p1: Seq<char>, p2: Seq<char>, p3: Seq<char>)
    requires
        no_ws(p0),
        no_ws(p1),
        no_ws(p2),
        no_ws(p3),
        p0.len() > 0,
        p3.len() > 0,
    ensures
        ({
            let line = p0 + seq![' '] + p1 + seq![' '] + p2 + seq![' '] + p3;
            &&& trim(line) == line
            &&& split4(trim(line)) == Some((p0, p1, p2, p3))
        }),
{
    let line = p0 + seq![' '] + p1 + seq![' '] + p2 + seq![' '] + p3;
    let a = p0.len() as int;
    let b = a + 1 + p1.len();
    let c = b + 1 + p2.len();
    assert(is_ws(' '));
    assert(line[0] == p0[0]);
    assert(!is_ws(line[0]));
    assert(line[line.len() - 1] == p3[p3.len() - 1]);
    assert(!is_ws(line[line.len() - 1]));
    assert(crate::text::skip_ws_from(line, 0) == 0);
    assert(crate::text::trim_back_to(line, 0, line.len() as int) == line.len());
    assert(trim(line) =~= line);
    assert forall|j: int| 0 <= j < a implies line[j] != ' ' by {
        assert(line[j] == p0[j]);
    }
    lemma_find_char_at(line, ' ', 0, a);
    assert forall|j: int| a + 1 <= j < b implies line[j] != ' ' by {
        assert(line[j] == p1[j - a - 1]);
    }
    lemma_find_char_at(line, ' ', a + 1, b);
    assert forall|j: int| b + 1 <= j < c implies line[j] != ' ' by {
        assert(line[j] == p2[j - b - 1]);
    }
    lemma_find_char_at(line, ' ', b + 1, c);
    assert(line.subrange(0, a) =~= p0);
    assert(line.subrange(a + 1, b) =~= p1);
    assert(line.subrange(b + 1, c) =~= p2);
    assert(line.skip(c + 1) =~= p3);
}

/// A `list-panes` line `%<id> <width> <height> <active>` (fields without
/// whitespace, joined by single spaces) stores a pane with that id, whose
/// width is the value of the second field, whose height is the value of the
/// third, and which is active when the fourth is `1`. The pane goes where the
/// pane with that id already is, or else at the end of the first window of
/// the active session.
pub proof fn lemma_pane_line_fields(
    m: SessionManagerView,
    p0: Seq<char>,
    width: Seq<char>,
    height: Seq<char>,
    active: Seq<char>,
    id: u32,
)
    requires
        no_ws(p0),
        no_ws(width),
        no_ws(height),
        no_ws(active),
        active.len() > 0,
        p0.len() > 0 && p0[0] == '%' && parse_unsigned(p0.drop_first(), 0xffff_ffff) == Some(id as int),
    ensures
        ({
            let line = p0 + seq![' '] + width + seq![' '] + height + seq![' '] + active;
            let r = pane_line(m, line);
            let pane = TmuxPane {
                id,
                active: active == seq!['1'],
                width: u16_or_zero(width),
                height: u16_or_zero(height),
            };
            &&& pane_pos(m.sessions, id) matches Some((s, w, p)) ==> r.sessions[s].windows[w].panes[p]
                == pane
            &&& pane_pos(m.sessions, id) is None ==> match active_index(m) {
                Some(i) => m.sessions[i].windows.len() > 0 ==> r.sessions[i].windows[0].panes.last()
                    == pane,
                None => true,
            }
        }),
{
    lemma_split4_fields(p0, width, height, active);
    lemma_pane_pos_from_first(m.sessions, id, 0);
    if let Some(aid) = m.active_session {
        lemma_session_index_found(m.sessions, aid, 0);
    }
}

/// The response to `list-panes` for a single pane line sets that pane as
/// the line gives it: width from the second field, height from the third.
pub proof fn lemma_list_panes_response_fields(
    m: SessionManagerView,
    guard: Seq<char>,
    p0: Seq<char>,
    width: Seq<char>,
    height: Seq<char>,
    active: Seq<char>,
    id: u32,
)
    requires
        pending_index_from(m.pending_commands, guard, 0) matches Some(k)
            && m.pending_commands[k].callback_type == CommandTypeView::ListPanes,
        no_ws(p0),
        no_ws(width),
        no_ws(height),
        no_ws(active),
        active.len() > 0,
        p0.len() > 0 && p0[0] == '%' && parse_unsigned(p0.drop_first(), 0xffff_ffff) == Some(id as int),
    ensures
        ({
            let line = p0 + seq![' '] + width + seq![' '] + height + seq![' '] + active;
            let r = apply_event(m, TmuxEventView::Response { guard, lines: seq![line] });
            let pane = TmuxPane {
                id,
                active: active == seq!['1'],
                width: u16_or_zero(width),
                height: u16_or_zero(height),
            };
            &&& pane_pos(m.sessions, id) matches Some((s, w, p)) ==> r.sessions[s].windows[w].panes[p]
                == pane
            &&& pane_pos(m.sessions, id) is None ==> match active_index(m) {
                Some(i) => m.sessions[i].windows.len() > 0 ==> r.sessions[i].windows[0].panes.last()
                    == pane,
                None => true,
            }
        }),
{
    let k = pending_index_from(m.pending_commands, guard, 0).unwrap();
    let m1 = SessionManagerView {
        sessions: m.sessions,
        active_session: m.active_session,
        pending_commands: m.pending_commands.remove(k),
        control_mode_active: m.control_mode_active,
    };
    let line = p0 + seq![' '] + width + seq![' '] + height + seq![' '] + active;
    let lines = seq![line];
    assert(lines.drop_last() =~= Seq::<Seq<char>>::empty());
    assert(lines.last() == line);
    assert(panes_after(m1, lines.drop_last()) == m1);
    assert(panes_after(m1, lines) == pane_line(m1, line));
    lemma_pane_line_fields(m1, p0, width, height, active, id);
}

} // verus!
