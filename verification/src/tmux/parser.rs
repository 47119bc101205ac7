//! Parser for the tmux control mode protocol: turns the byte stream that
//! tmux writes in `-CC` mode into [`TmuxEvent`]s.

use vstd::prelude::*;
use vstd::utf8::{decode_utf8, encode_utf8, valid_utf8};

use crate::text::{
    chars_from, chars_of, find_char, find_char_from, lemma_find_char_skip, parse_unsigned,
    parse_unsigned_range, rest_equals, starts_with, starts_with_at, string_from_chars,
    string_from_range, trim, trim_bounds,
};
use crate::tmux::events::{
    events_view, lemma_events_view_push, strings_view, TmuxEvent, TmuxEventView,
};

verus! {

// ---------------------------------------------------------------------------
// Decoding the byte stream
// ---------------------------------------------------------------------------

/// The text that `String::from_utf8_lossy` makes of some bytes.
pub uninterp spec fn utf8_lossy(bytes: Seq<u8>) -> Seq<char>;

/// `String::from_utf8_lossy`: decodes UTF-8, replacing each invalid sequence
/// with U+FFFD. Its documentation promises that valid UTF-8 comes back as it
/// is; what it does with invalid input is left to the name `utf8_lossy`.
#[verifier::external_body]
fn decode_lossy(data: &[u8]) -> (s: String)
    ensures
        s@ == utf8_lossy(data@),
        valid_utf8(data@) ==> s@ == decode_utf8(data@),
{
    String::from_utf8_lossy(data).into_owned()
}

// ---------------------------------------------------------------------------
// The protocol, as mathematics
// ---------------------------------------------------------------------------

/// The DCS sequence with which tmux enters control mode.
pub open spec fn dcs_prefix() -> Seq<char> {
    seq!['\x1b', 'P', '1', '0', '0', '0', 'p']
}

pub open spec fn begin_prefix() -> Seq<char> {
    seq!['%', 'b', 'e', 'g', 'i', 'n', ' ']
}

pub open spec fn end_prefix() -> Seq<char> {
    seq!['%', 'e', 'n', 'd', ' ']
}

pub open spec fn error_prefix() -> Seq<char> {
    seq!['%', 'e', 'r', 'r', 'o', 'r', ' ']
}

pub open spec fn output_prefix() -> Seq<char> {
    seq!['%', 'o', 'u', 't', 'p', 'u', 't', ' ']
}

pub open spec fn window_add_prefix() -> Seq<char> {
    seq!['%', 'w', 'i', 'n', 'd', 'o', 'w', '-', 'a', 'd', 'd', ' ']
}

pub open spec fn window_close_prefix() -> Seq<char> {
    seq!['%', 'w', 'i', 'n', 'd', 'o', 'w', '-', 'c', 'l', 'o', 's', 'e', ' ']
}

pub open spec fn window_renamed_prefix() -> Seq<char> {
    seq!['%', 'w', 'i', 'n', 'd', 'o', 'w', '-', 'r', 'e', 'n', 'a', 'm', 'e', 'd', ' ']
}

pub open spec fn layout_change_prefix() -> Seq<char> {
    seq!['%', 'l', 'a', 'y', 'o', 'u', 't', '-', 'c', 'h', 'a', 'n', 'g', 'e', ' ']
}

pub open spec fn session_changed_prefix() -> Seq<char> {
    seq!['%', 's', 'e', 's', 's', 'i', 'o', 'n', '-', 'c', 'h', 'a', 'n', 'g', 'e', 'd', ' ']
}

pub open spec fn sessions_changed_line() -> Seq<char> {
    seq!['%', 's', 'e', 's', 's', 'i', 'o', 'n', 's', '-', 'c', 'h', 'a', 'n', 'g', 'e', 'd']
}

pub open spec fn exit_prefix() -> Seq<char> {
    seq!['%', 'e', 'x', 'i', 't']
}

/// An octal digit byte (`0` to `7`).
pub open spec fn is_octal_digit(b: u8) -> bool {
    48 <= b <= 55
}

/// The value of a `\NNN` escape in octal.
pub open spec fn escape_value(b1: u8, b2: u8, b3: u8) -> int {
    (b1 - 48) * 64 + (b2 - 48) * 8 + (b3 - 48)
}

/// A backslash followed by three octal digits whose value fits in a byte.
pub open spec fn is_escape_at_start(b: Seq<u8>) -> bool {
    &&& b.len() > 3
    &&& b[0] == 92
    &&& is_octal_digit(b[1])
    &&& is_octal_digit(b[2])
    &&& is_octal_digit(b[3])
    &&& escape_value(b[1], b[2], b[3]) <= 255
}

/// The bytes that `%output` data stands for: each `\NNN` escape is replaced by
/// the byte it encodes, every other byte is kept.
pub open spec fn unescape(b: Seq<u8>) -> Seq<u8>
    decreases b.len(),
{
    if b.len() == 0 {
        seq![]
    } else if is_escape_at_start(b) {
        seq![escape_value(b[1], b[2], b[3]) as u8] + unescape(b.skip(4))
    } else {
        seq![b[0]] + unescape(b.drop_first())
    }
}

/// `@<digits>` after trimming whitespace: the window id.
pub open spec fn window_id_spec(s: Seq<char>) -> Option<u32> {
    let t = trim(s);
    if t.len() > 0 && t[0] == '@' {
        match parse_unsigned(t.drop_first(), 0xffff_ffff) {
            Some(v) => Some(v as u32),
            None => None,
        }
    } else {
        None
    }
}

/// `<sigil><digits> <rest>`: the id and the rest of the text.
pub open spec fn id_and_rest_spec(s: Seq<char>, sigil: char) -> Option<(u32, Seq<char>)> {
    if s.len() > 0 && s[0] == sigil {
        let r = s.drop_first();
        match find_char_from(r, ' ', 0) {
            Some(p) => match parse_unsigned(r.take(p), 0xffff_ffff) {
                Some(v) => Some((v as u32, r.skip(p + 1))),
                None => None,
            },
            None => None,
        }
    } else {
        None
    }
}

/// The event that a notification line outside a response block announces.
pub open spec fn notification(line: Seq<char>) -> Option<TmuxEventView> {
    if starts_with(line, output_prefix()) {
        match id_and_rest_spec(line.skip(output_prefix().len() as int), '%') {
            Some((id, data)) => Some(
                TmuxEventView::Output { pane_id: id, data: unescape(encode_utf8(data)) },
            ),
            None => None,
        }
    } else if starts_with(line, window_add_prefix()) {
        match window_id_spec(line.skip(window_add_prefix().len() as int)) {
            Some(id) => Some(TmuxEventView::WindowAdd { window_id: id }),
            None => None,
        }
    } else if starts_with(line, window_close_prefix()) {
        match window_id_spec(line.skip(window_close_prefix().len() as int)) {
            Some(id) => Some(TmuxEventView::WindowClose { window_id: id }),
            None => None,
        }
    } else if starts_with(line, window_renamed_prefix()) {
        match id_and_rest_spec(line.skip(window_renamed_prefix().len() as int), '@') {
            Some((id, name)) => Some(TmuxEventView::WindowRenamed { window_id: id, name }),
            None => None,
        }
    } else if starts_with(line, layout_change_prefix()) {
        match id_and_rest_spec(line.skip(layout_change_prefix().len() as int), '@') {
            Some((id, layout)) => Some(TmuxEventView::LayoutChange { window_id: id, layout }),
            None => None,
        }
    } else if starts_with(line, session_changed_prefix()) {
        match id_and_rest_spec(line.skip(session_changed_prefix().len() as int), '$') {
            Some((id, name)) => Some(TmuxEventView::SessionChanged { session_id: id, name }),
            None => None,
        }
    } else if line == sessions_changed_line() {
        Some(TmuxEventView::SessionsChanged)
    } else if starts_with(line, exit_prefix()) {
        Some(TmuxEventView::Exit)
    } else {
        None
    }
}

/// Whether the parser is between lines or inside a `%begin`/`%end` block.
pub enum ParserStateView {
    Idle,
    InResponse { guard: Seq<char>, lines: Seq<Seq<char>> },
}

/// The state of a [`TmuxParser`]: its mode and the bytes of the partial line
/// it holds.
pub struct ParserView {
    pub state: ParserStateView,
    pub buffer: Seq<u8>,
}

/// Zero or one event.
pub open spec fn opt_events(o: Option<TmuxEventView>) -> Seq<TmuxEventView> {
    match o {
        Some(e) => seq![e],
        None => seq![],
    }
}

/// A line that closes the response block with this guard.
pub open spec fn closes_block(line: Seq<char>, guard: Seq<char>) -> bool {
    ||| starts_with(line, end_prefix()) && line.skip(end_prefix().len() as int) == guard
    ||| starts_with(line, error_prefix()) && line.skip(error_prefix().len() as int) == guard
}

/// One line that does not begin with the control-mode DCS.
pub open spec fn step_plain(st: ParserStateView, line: Seq<char>) -> (
    ParserStateView,
    Seq<TmuxEventView>,
) {
    match st {
        ParserStateView::InResponse { guard, lines } => if closes_block(line, guard) {
            (ParserStateView::Idle, seq![TmuxEventView::Response { guard, lines }])
        } else {
            (ParserStateView::InResponse { guard, lines: lines.push(line) }, seq![])
        },
        ParserStateView::Idle => if starts_with(line, begin_prefix()) {
            (
                ParserStateView::InResponse {
                    guard: line.skip(begin_prefix().len() as int),
                    lines: seq![],
                },
                seq![],
            )
        } else {
            (ParserStateView::Idle, opt_events(notification(line)))
        },
    }
}

/// One complete line: each leading DCS announces control mode, and what
/// follows it on the line is a line of its own.
pub open spec fn step_line(st: ParserStateView, line: Seq<char>) -> (
    ParserStateView,
    Seq<TmuxEventView>,
)
    decreases line.len(),
{
    if starts_with(line, dcs_prefix()) {
        let rest = line.skip(dcs_prefix().len() as int);
        if rest.len() == 0 {
            (st, seq![TmuxEventView::ControlModeEntered])
        } else {
            let (st2, ev) = step_line(st, rest);
            (st2, seq![TmuxEventView::ControlModeEntered] + ev)
        }
    } else {
        step_plain(st, line)
    }
}

/// A line without its trailing carriage return, if it has one.
pub open spec fn strip_cr(s: Seq<char>) -> Seq<char> {
    if s.len() > 0 && s.last() == '\r' {
        s.drop_last()
    } else {
        s
    }
}

/// The text of a line's bytes: decoded as UTF-8 when they are valid, as
/// `String::from_utf8_lossy` decodes them otherwise.
pub open spec fn line_text(bytes: Seq<u8>) -> Seq<char> {
    if valid_utf8(bytes) {
        decode_utf8(bytes)
    } else {
        utf8_lossy(bytes)
    }
}

/// One byte of input: a newline completes the buffered line, which is then
/// decoded as a whole; anything else is buffered. A character split across
/// two chunks of input is thus decoded once it is whole.
pub open spec fn feed_byte(m: ParserView, b: u8) -> (ParserView, Seq<TmuxEventView>) {
    if b == 10 {
        let (st, ev) = step_line(m.state, strip_cr(line_text(m.buffer)));
        (ParserView { state: st, buffer: seq![] }, ev)
    } else {
        (ParserView { state: m.state, buffer: m.buffer.push(b) }, seq![])
    }
}

/// A run of bytes: the state after it, and the events it completes, in order.
pub open spec fn feed_bytes(m: ParserView, data: Seq<u8>) -> (ParserView, Seq<TmuxEventView>)
    decreases data.len(),
{
    if data.len() == 0 {
        (m, seq![])
    } else {
        let (m1, e1) = feed_byte(m, data[0]);
        let (m2, e2) = feed_bytes(m1, data.drop_first());
        (m2, e1 + e2)
    }
}

// ---------------------------------------------------------------------------
// The parser
// ---------------------------------------------------------------------------

/// Parser state for the tmux control mode protocol.
pub struct TmuxParser {
    state: ParserState,
    line_buffer: Vec<u8>,
}

enum ParserState {
    /// Waiting for the next line.
    Idle,
    /// Inside a %begin/%end response block.
    InResponse { guard: Vec<char>, lines: Vec<String> },
}

impl ParserState {
    closed spec fn view(&self) -> ParserStateView {
        match self {
            ParserState::Idle => ParserStateView::Idle,
            ParserState::InResponse { guard, lines } => ParserStateView::InResponse {
                guard: guard@,
                lines: strings_view(lines@),
            },
        }
    }
}

impl View for TmuxParser {
    type V = ParserView;

    closed spec fn view(&self) -> ParserView {
        ParserView { state: self.state.view(), buffer: self.line_buffer@ }
    }
}

/// Unescape the bytes of tmux `%output` data.
fn unescape_bytes(bytes: &[u8]) -> (out: Vec<u8>)
    ensures
        out@ == unescape(bytes@),
{
    let mut out: Vec<u8> = Vec::new();
    let mut i: usize = 0;
    assert(bytes@.skip(0) == bytes@);
    while i < bytes.len()
        invariant
            i <= bytes@.len(),
            unescape(bytes@) == out@ + unescape(bytes@.skip(i as int)),
        decreases bytes.len() - i,
    {
        let ghost rest = bytes@.skip(i as int);
        if bytes[i] == 92 && bytes.len() - i > 3 {
            let d0 = bytes[i + 1];
            let d1 = bytes[i + 2];
            let d2 = bytes[i + 3];
            if 48 <= d0 && d0 <= 55 && 48 <= d1 && d1 <= 55 && 48 <= d2 && d2 <= 55 {
                let val: u16 = (d0 - 48) as u16 * 64 + (d1 - 48) as u16 * 8 + (d2 - 48) as u16;
                if val <= 255 {
                    assert(is_escape_at_start(rest));
                    assert(rest.skip(4) == bytes@.skip(i + 4));
                    out.push(val as u8);
                    i += 4;
                    continue;
                }
            }
        }
        assert(!is_escape_at_start(rest));
        assert(rest.drop_first() == bytes@.skip(i + 1));
        out.push(bytes[i]);
        i += 1;
    }
    assert(bytes@.skip(i as int) == Seq::<u8>::empty());
    out
}

/// Unescape tmux %output data.
///
/// tmux octal-escapes characters with value < 32 and backslash itself
/// as `\NNN` (three-digit octal).  Everything else is passed through
/// as-is (valid UTF-8 bytes).
pub fn unescape_output(data: &str) -> (out: Vec<u8>)
    ensures
        out@ == unescape(encode_utf8(data@)),
{
    unescape_bytes(data.as_bytes())
}

/// `<sigil><digits> <rest>` in `line[start..]`: the id and where the rest begins.
fn parse_id_and_rest(line: &Vec<char>, start: usize, sigil: char) -> (r: Option<(u32, usize)>)
    requires
        start <= line@.len(),
    ensures
        r matches Some((id, at)) ==> at <= line@.len() && id_and_rest_spec(
            line@.skip(start as int),
            sigil,
        ) == Some((id, line@.skip(at as int))),
        r is None ==> id_and_rest_spec(line@.skip(start as int), sigil) is None,
{
    let ghost s = line@.skip(start as int);
    if start >= line.len() || line[start] != sigil {
        return None;
    }
    let ghost r = s.drop_first();
    assert(r == line@.skip(start + 1));
    proof {
        lemma_find_char_skip(line@, ' ', start + 1, 0);
        crate::text::lemma_find_char_from(line@, ' ', start + 1);
    }
    match find_char(line, ' ', start + 1) {
        None => None,
        Some(sp) => {
            let p = sp - (start + 1);
            assert(r.take(p as int) == line@.subrange(start + 1, sp as int));
            match parse_unsigned_range(line, start + 1, sp, 0xffff_ffff) {
                None => None,
                Some(v) => {
                    assert(r.skip(p + 1) == line@.skip(sp + 1));
                    Some((v as u32, sp + 1))
                },
            }
        },
    }
}

/// `@<digits>` in `line[start..]` after trimming whitespace.
fn parse_window_id(line: &Vec<char>, start: usize) -> (r: Option<u32>)
    requires
        start <= line@.len(),
    ensures
        r == window_id_spec(line@.skip(start as int)),
{
    let rest = chars_from(line, start);
    let (a, b) = trim_bounds(&rest);
    if a < b && rest[a] == '@' {
        assert(trim(rest@).drop_first() == rest@.subrange(a + 1, b as int));
        match parse_unsigned_range(&rest, a + 1, b, 0xffff_ffff) {
            Some(v) => Some(v as u32),
            None => None,
        }
    } else {
        None
    }
}

/// `%<pane> <data>` in `line[start..]`, after `%output `: the pane's output.
fn parse_output(line: &Vec<char>, start: usize) -> (r: Option<TmuxEvent>)
    requires
        start <= line@.len(),
    ensures
        r matches Some(e) ==> (id_and_rest_spec(line@.skip(start as int), '%') matches Some(
            (id, data),
        ) && e@ == TmuxEventView::Output { pane_id: id, data: unescape(encode_utf8(data)) }),
        r is None ==> id_and_rest_spec(line@.skip(start as int), '%') is None,
{
    match parse_id_and_rest(line, start, '%') {
        Some((id, at)) => {
            let data_str = string_from_range(line, at, line.len());
            assert(line@.subrange(at as int, line@.len() as int) == line@.skip(at as int));
            let data = unescape_output(data_str.as_str());
            Some(TmuxEvent::Output { pane_id: id, data })
        },
        None => None,
    }
}

/// `$<session> <name>` in `line[start..]`, after `%session-changed `.
fn parse_session_changed(line: &Vec<char>, start: usize) -> (r: Option<TmuxEvent>)
    requires
        start <= line@.len(),
    ensures
        r matches Some(e) ==> (id_and_rest_spec(line@.skip(start as int), '$') matches Some(
            (id, name),
        ) && e@ == TmuxEventView::SessionChanged { session_id: id, name }),
        r is None ==> id_and_rest_spec(line@.skip(start as int), '$') is None,
{
    match parse_id_and_rest(line, start, '$') {
        Some((id, at)) => {
            let name = string_from_range(line, at, line.len());
            assert(line@.subrange(at as int, line@.len() as int) == line@.skip(at as int));
            Some(TmuxEvent::SessionChanged { session_id: id, name })
        },
        None => None,
    }
}

/// The event announced by the notification line `line[start..]`, if any.
fn parse_notification(line: &Vec<char>, start: usize) -> (r: Option<TmuxEvent>)
    requires
        start <= line@.len(),
    ensures
        r matches Some(e) ==> notification(line@.skip(start as int)) == Some(e@),
        r is None ==> notification(line@.skip(start as int)) is None,
{
    let ghost l = line@.skip(start as int);
    if starts_with_at(line, start, &['%', 'o', 'u', 't', 'p', 'u', 't', ' ']) {
        assert(l.skip(8) == line@.skip(start + 8));
        parse_output(line, start + 8)
    } else if starts_with_at(line, start, &['%', 'w', 'i', 'n', 'd', 'o', 'w', '-', 'a', 'd', 'd', ' ']) {
        assert(l.skip(12) == line@.skip(start + 12));
        match parse_window_id(line, start + 12) {
            Some(id) => Some(TmuxEvent::WindowAdd { window_id: id }),
            None => None,
        }
    } else if starts_with_at(
        line,
        start,
        &['%', 'w', 'i', 'n', 'd', 'o', 'w', '-', 'c', 'l', 'o', 's', 'e', ' '],
    ) {
        assert(l.skip(14) == line@.skip(start + 14));
        match parse_window_id(line, start + 14) {
            Some(id) => Some(TmuxEvent::WindowClose { window_id: id }),
            None => None,
        }
    } else if starts_with_at(
        line,
        start,
        &['%', 'w', 'i', 'n', 'd', 'o', 'w', '-', 'r', 'e', 'n', 'a', 'm', 'e', 'd', ' '],
    ) {
        assert(l.skip(16) == line@.skip(start + 16));
        match parse_id_and_rest(line, start + 16, '@') {
            Some((id, at)) => {
                let name = string_from_range(line, at, line.len());
                assert(line@.subrange(at as int, line@.len() as int) == line@.skip(at as int));
                Some(TmuxEvent::WindowRenamed { window_id: id, name })
            },
            None => None,
        }
    } else if starts_with_at(
        line,
        start,
        &['%', 'l', 'a', 'y', 'o', 'u', 't', '-', 'c', 'h', 'a', 'n', 'g', 'e', ' '],
    ) {
        assert(l.skip(15) == line@.skip(start + 15));
        match parse_id_and_rest(line, start + 15, '@') {
            Some((id, at)) => {
                let layout = string_from_range(line, at, line.len());
                assert(line@.subrange(at as int, line@.len() as int) == line@.skip(at as int));
                Some(TmuxEvent::LayoutChange { window_id: id, layout })
            },
            None => None,
        }
    } else if starts_with_at(
        line,
        start,
        &['%', 's', 'e', 's', 's', 'i', 'o', 'n', '-', 'c', 'h', 'a', 'n', 'g', 'e', 'd', ' '],
    ) {
        assert(l.skip(17) == line@.skip(start + 17));
        parse_session_changed(line, start + 17)
    } else if line.len() - start == 17 && starts_with_at(
        line,
        start,
        &['%', 's', 'e', 's', 's', 'i', 'o', 'n', 's', '-', 'c', 'h', 'a', 'n', 'g', 'e', 'd'],
    ) {
        assert(l == l.take(17));
        Some(TmuxEvent::SessionsChanged)
    } else if starts_with_at(line, start, &['%', 'e', 'x', 'i', 't']) {
        Some(TmuxEvent::Exit)
    } else {
        proof {
            if l == sessions_changed_line() {
                assert(l.take(17) =~= sessions_changed_line());
            }
        }
        None
    }
}

impl TmuxParser {
    pub fn new() -> (p: Self)
        ensures
            p@ == (ParserView { state: ParserStateView::Idle, buffer: seq![] }),
    {
        Self { state: ParserState::Idle, line_buffer: Vec::new() }
    }

    /// Feed raw bytes into the parser, returning any complete events.
    ///
    /// Data may arrive in arbitrary chunks; the parser buffers partial lines
    /// internally and only processes complete newline-terminated lines.
    pub fn feed(&mut self, data: &[u8]) -> (events: Vec<TmuxEvent>)
        ensures
            final(self)@ == feed_bytes(old(self)@, data@).0,
            events_view(events@) == feed_bytes(old(self)@, data@).1,
    {
        let mut events: Vec<TmuxEvent> = Vec::new();
        let ghost start = self@;
        let mut i: usize = 0;
        assert(data@.skip(0) == data@);
        assert(events_view(events@) == Seq::<TmuxEventView>::empty());
        while i < data.len()
            invariant
                i <= data@.len(),
                feed_bytes(start, data@).0 == feed_bytes(self@, data@.skip(i as int)).0,
                feed_bytes(start, data@).1 == events_view(events@) + feed_bytes(
                    self@,
                    data@.skip(i as int),
                ).1,
            decreases data.len() - i,
        {
            let ghost before = self@;
            let ghost ev_before = events_view(events@);
            let b = data[i];
            let ghost rest = data@.skip(i as int);
            assert(rest[0] == b);
            assert(rest.drop_first() == data@.skip(i + 1));
            if b == 10 {
                let mut line_bytes: Vec<u8> = Vec::new();
                std::mem::swap(&mut line_bytes, &mut self.line_buffer);
                assert(line_bytes@ == before.buffer);
                let text = decode_lossy(line_bytes.as_slice());
                let mut line = chars_of(text.as_str());
                assert(line@ == line_text(before.buffer));
                if line.len() > 0 && line[line.len() - 1] == '\r' {
                    line.pop();
                }
                assert(line@ == strip_cr(line_text(before.buffer)));
                assert(line@.skip(0) == line@);
                self.process_line(&line, 0, &mut events);
            } else {
                self.line_buffer.push(b);
            }
            assert(self@ == feed_byte(before, b).0);
            assert(events_view(events@) == ev_before + feed_byte(before, b).1);
            i += 1;
        }
        assert(data@.skip(i as int) == Seq::<u8>::empty());
        events
    }

    /// Process one complete line, starting at `start`.
    fn process_line(&mut self, line: &Vec<char>, start: usize, events: &mut Vec<TmuxEvent>)
        requires
            start <= line@.len(),
        ensures
            final(self)@.buffer == old(self)@.buffer,
            final(self)@.state == step_line(old(self)@.state, line@.skip(start as int)).0,
            events_view(final(events)@) == events_view(old(events)@) + step_line(
                old(self)@.state,
                line@.skip(start as int),
            ).1,
        decreases line@.len() - start,
    {
        let ghost l = line@.skip(start as int);
        if starts_with_at(line, start, &['\x1b', 'P', '1', '0', '0', '0', 'p']) {
            proof {
                lemma_events_view_push(events@, TmuxEvent::ControlModeEntered);
            }
            events.push(TmuxEvent::ControlModeEntered);
            assert(l.skip(7) == line@.skip(start + 7));
            if start + 7 < line.len() {
                self.process_line(line, start + 7, events);
            }
            return;
        }
        self.process_plain(line, start, events);
    }

    /// Process a line that does not begin with the control-mode DCS.
    fn process_plain(&mut self, line: &Vec<char>, start: usize, events: &mut Vec<TmuxEvent>)
        requires
            start <= line@.len(),
        ensures
            final(self)@.buffer == old(self)@.buffer,
            final(self)@.state == step_plain(old(self)@.state, line@.skip(start as int)).0,
            events_view(final(events)@) == events_view(old(events)@) + step_plain(
                old(self)@.state,
                line@.skip(start as int),
            ).1,
    {
        let ghost l = line@.skip(start as int);
        let mut st = ParserState::Idle;
        std::mem::swap(&mut st, &mut self.state);
        match st {
            ParserState::InResponse { guard, mut lines } => {
                let is_end = starts_with_at(line, start, &['%', 'e', 'n', 'd', ' ']);
                let closes_end = is_end && rest_equals(line, start + 5, &guard);
                let is_error = starts_with_at(line, start, &['%', 'e', 'r', 'r', 'o', 'r', ' ']);
                let closes_error = is_error && rest_equals(line, start + 7, &guard);
                proof {
                    if is_end {
                        assert(l.skip(5) == line@.skip(start + 5));
                    }
                    if is_error {
                        assert(l.skip(7) == line@.skip(start + 7));
                    }
                }
                if closes_end || closes_error {
                    let g = string_from_chars(&guard);
                    let ev = TmuxEvent::Response { guard: g, lines };
                    proof {
                        lemma_events_view_push(events@, ev);
                    }
                    events.push(ev);
                } else {
                    let text = string_from_range(line, start, line.len());
                    assert(line@.subrange(start as int, line@.len() as int) == l);
                    let ghost old_lines = strings_view(lines@);
                    lines.push(text);
                    assert(strings_view(lines@) =~= old_lines.push(l));
                    self.state = ParserState::InResponse { guard, lines };
                }
            },
            ParserState::Idle => {
                if starts_with_at(line, start, &['%', 'b', 'e', 'g', 'i', 'n', ' ']) {
                    let guard = chars_from(line, start + 7);
                    assert(l.skip(7) == line@.skip(start + 7));
                    self.state = ParserState::InResponse { guard, lines: Vec::new() };
                    assert(strings_view(Seq::<String>::empty()) =~= Seq::<Seq<char>>::empty());
                } else {
                    match parse_notification(line, start) {
                        Some(ev) => {
                            proof {
                                lemma_events_view_push(events@, ev);
                            }
                            events.push(ev);
                        },
                        None => {
                            assert(events_view(events@) + Seq::<TmuxEventView>::empty()
                                == events_view(events@));
                        },
                    }
                }
            },
        }
    }
}

impl Default for TmuxParser {
    fn default() -> (p: Self)
        ensures
            p@ == (ParserView { state: ParserStateView::Idle, buffer: seq![] }),
    {
        Self::new()
    }
}

// ---------------------------------------------------------------------------
// Laws
// ---------------------------------------------------------------------------

/// Data may arrive in arbitrary chunks: feeding two chunks one after the
/// other leaves the parser in the state, and yields the events, that feeding
/// them as one does. This holds of any bytes, a character split between the
/// chunks included.
pub proof fn lemma_feed_chunks(m: ParserView, a: Seq<u8>, b: Seq<u8>)
    ensures
        feed_bytes(m, a + b).0 == feed_bytes(feed_bytes(m, a).0, b).0,
        feed_bytes(m, a + b).1 == feed_bytes(m, a).1 + feed_bytes(feed_bytes(m, a).0, b).1,
    decreases a.len(),
{
    if a.len() == 0 {
        assert(a + b =~= b);
        assert(Seq::<TmuxEventView>::empty() + feed_bytes(m, b).1 =~= feed_bytes(m, b).1);
    } else {
        let m1 = feed_byte(m, a[0]).0;
        let e1 = feed_byte(m, a[0]).1;
        assert((a + b)[0] == a[0]);
        assert((a + b).drop_first() =~= a.drop_first() + b);
        lemma_feed_chunks(m1, a.drop_first(), b);
        let ma = feed_bytes(m1, a.drop_first());
        assert(e1 + (ma.1 + feed_bytes(ma.0, b).1) =~= (e1 + ma.1) + feed_bytes(ma.0, b).1);
    }
}

/// Bytes without a newline complete no line: they are only buffered, and the
/// parser's mode stays as it was.
pub proof fn lemma_partial_line_buffered(m: ParserView, data: Seq<u8>)
    requires
        !data.contains(10u8),
    ensures
        feed_bytes(m, data).0 == (ParserView { state: m.state, buffer: m.buffer + data }),
        feed_bytes(m, data).1 == Seq::<TmuxEventView>::empty(),
    decreases data.len(),
{
    if data.len() == 0 {
        assert(m.buffer + data =~= m.buffer);
    } else {
        assert(data[0] != 10u8) by {
            assert(data.contains(data[0]));
        }
        let m1 = ParserView { state: m.state, buffer: m.buffer.push(data[0]) };
        assert(!data.drop_first().contains(10u8)) by {
            if data.drop_first().contains(10u8) {
                let k = choose|k: int| 0 <= k < data.drop_first().len() && data.drop_first()[k] == 10u8;
                assert(data[k + 1] == 10u8);
            }
        }
        lemma_partial_line_buffered(m1, data.drop_first());
        assert(m1.buffer + data.drop_first() =~= m.buffer + data);
        assert(Seq::<TmuxEventView>::empty() + Seq::<TmuxEventView>::empty() =~= Seq::<
            TmuxEventView,
        >::empty());
    }
}

/// `%output` data without a backslash is passed through unchanged.
pub proof fn lemma_unescape_plain(b: Seq<u8>)
    requires
        !b.contains(92u8),
    ensures
        unescape(b) == b,
    decreases b.len(),
{
    if b.len() > 0 {
        assert(b.contains(b[0]));
        assert(!b.drop_first().contains(92u8)) by {
            if b.drop_first().contains(92u8) {
                let k = choose|k: int| 0 <= k < b.drop_first().len() && b.drop_first()[k] == 92u8;
                assert(b[k + 1] == 92u8);
            }
        }
        lemma_unescape_plain(b.drop_first());
        assert(seq![b[0]] + b.drop_first() =~= b);
    }
}

/// A line of ASCII text without a line break, fed with its newline to a
/// parser holding no partial line, is read as that line.
proof fn lemma_ascii_line_fed(st: ParserStateView, line: Seq<char>)
    requires
        vstd::utf8::is_ascii_chars(line),
        forall|k: int| 0 <= k < line.len() ==> #[trigger] line[k] != '\n',
    ensures
        feed_bytes(ParserView { state: st, buffer: seq![] }, encode_utf8(line).push(10u8)) == ({
            let (st2, ev) = step_line(st, strip_cr(line));
            (ParserView { state: st2, buffer: seq![] }, ev)
        }),
{
    let bytes = encode_utf8(line);
    vstd::utf8::is_ascii_chars_encode_utf8(line);
    assert(!bytes.contains(10u8)) by {
        if bytes.contains(10u8) {
            let k = choose|k: int| 0 <= k < bytes.len() && bytes[k] == 10u8;
            assert(line[k] as u8 == bytes[k]);
            assert(line[k] != '\n');
        }
    }
    let m = ParserView { state: st, buffer: seq![] };
    lemma_partial_line_buffered(m, bytes);
    assert(seq![] + bytes =~= bytes);
    let nl = seq![10u8];
    assert(bytes.push(10u8) =~= bytes + nl);
    lemma_feed_chunks(m, bytes, nl);
    let m1 = ParserView { state: st, buffer: bytes };
    vstd::utf8::encode_utf8_valid_utf8(line);
    vstd::utf8::encode_utf8_decode_utf8(line);
    assert(line_text(bytes) == line);
    assert(nl.drop_first() =~= Seq::<u8>::empty());
    assert(feed_bytes(feed_byte(m1, 10u8).0, Seq::<u8>::empty()) == (feed_byte(m1, 10u8).0, Seq::<
        TmuxEventView,
    >::empty()));
    assert(feed_bytes(m1, nl) == (feed_byte(m1, 10u8).0, feed_byte(m1, 10u8).1 + Seq::<
        TmuxEventView,
    >::empty()));
    assert(feed_byte(m1, 10u8).1 + Seq::<TmuxEventView>::empty() =~= feed_byte(m1, 10u8).1);
    assert(Seq::<TmuxEventView>::empty() + feed_byte(m1, 10u8).1 =~= feed_byte(m1, 10u8).1);
}

/// Inside a response block with guard `g`, the line `%end g` or the line
/// `%error g` closes the block: it yields exactly one response, carrying `g`
/// and the lines collected so far, and the parser is back between blocks, so
/// that whatever follows is read on its own (a notification is reported as
/// its own event).
pub proof fn lemma_end_or_error_closes_block(
    g: Seq<char>,
    ls: Seq<Seq<char>>,
    is_error: bool,
    more: Seq<u8>,
)
    requires
        vstd::utf8::is_ascii_chars(g),
        forall|k: int| 0 <= k < g.len() ==> #[trigger] g[k] != '\n' && g[k] != '\r',
    ensures
        ({
            let line = if is_error {
                seq!['%', 'e', 'r', 'r', 'o', 'r', ' '] + g
            } else {
                seq!['%', 'e', 'n', 'd', ' '] + g
            };
            let block = ParserView {
                state: ParserStateView::InResponse { guard: g, lines: ls },
                buffer: seq![],
            };
            let idle = ParserView { state: ParserStateView::Idle, buffer: seq![] };
            let r = feed_bytes(block, encode_utf8(line).push(10u8) + more);
            &&& feed_bytes(block, encode_utf8(line).push(10u8)) == (
                idle,
                seq![TmuxEventView::Response { guard: g, lines: ls }],
            )
            &&& r.0 == feed_bytes(idle, more).0
            &&& r.1 == seq![TmuxEventView::Response { guard: g, lines: ls }] + feed_bytes(idle, more).1
        }),
{
    let pre = if is_error {
        seq!['%', 'e', 'r', 'r', 'o', 'r', ' ']
    } else {
        seq!['%', 'e', 'n', 'd', ' ']
    };
    let line = pre + g;
    let st = ParserStateView::InResponse { guard: g, lines: ls };
    assert(vstd::utf8::is_ascii_chars(line)) by {
        assert forall|k: int| 0 <= k < line.len() implies '\0' <= #[trigger] line[k] <= '\u{7f}' by {
            if k >= pre.len() {
                assert(line[k] == g[k - pre.len()]);
            }
        }
    }
    assert forall|k: int| 0 <= k < line.len() implies #[trigger] line[k] != '\n' by {
        if k >= pre.len() {
            assert(line[k] == g[k - pre.len()]);
        }
    }
    lemma_ascii_line_fed(st, line);
    assert(line[line.len() - 1] != '\r') by {
        if g.len() > 0 {
            assert(line[line.len() - 1] == g[g.len() - 1]);
        }
    }
    assert(strip_cr(line) == line);
    assert(line[0] == '%');
    assert(!starts_with(line, dcs_prefix())) by {
        if starts_with(line, dcs_prefix()) {
            assert(line.take(7)[0] == dcs_prefix()[0]);
        }
    }
    if is_error {
        assert(line.take(7) =~= error_prefix());
        assert(line.skip(7) =~= g);
        assert(!starts_with(line, end_prefix())) by {
            if starts_with(line, end_prefix()) {
                assert(line.take(5)[2] == end_prefix()[2]);
            }
        }
    } else {
        assert(line.take(5) =~= end_prefix());
        assert(line.skip(5) =~= g);
    }
    let bytes = encode_utf8(line).push(10u8);
    lemma_feed_chunks(ParserView { state: st, buffer: seq![] }, bytes, more);
}

} // verus!
