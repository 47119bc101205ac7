//! Shell integration via OSC 133 (FinalTerm protocol).
//!
//! Detects semantic zones in terminal output by parsing OSC 133 escape sequences:
//! - `\x1b]133;A\x07` -- Prompt start
//! - `\x1b]133;B\x07` -- Command start (user pressed Enter)
//! - `\x1b]133;C\x07` -- Command output start
//! - `\x1b]133;D;{exit_code}\x07` -- Command end with exit code
//!
//! This allows the terminal to know where prompts, commands, and their output
//! begin and end, enabling features like prompt navigation and command history.

use vstd::prelude::*;
use vstd::utf8::{decode_utf8, valid_utf8};

use crate::text::{
    chars_from, chars_of, parse_i32_range, parse_i32_spec, starts_with, starts_with_at, trim,
    trim_bounds,
};

verus! {

/// Semantic zone within shell output.
#[derive(Debug, Clone, Copy, PartialEq, Eq, Structural)]
pub enum SemanticZone {
    /// Between A and B -- the shell prompt.
    Prompt,
    /// Between B and C -- the typed command.
    Command,
    /// Between C and D -- command output.
    Output,
    /// No active zone.
    NoZone,
}

/// A completed command record.
#[derive(Debug, Clone, Copy, PartialEq, Eq)]
pub struct CommandRecord {
    /// Line where the prompt was displayed.
    pub prompt_line: usize,
    /// Line where the command was typed.
    pub command_line: usize,
    /// Line where output began.
    pub output_start_line: usize,
    /// Line where output ended.
    pub output_end_line: usize,
    /// Exit code from the D sequence, if provided.
    pub exit_code: Option<i32>,
}

/// Events emitted by the OSC parser.
#[derive(Debug, Clone, PartialEq, Eq)]
pub enum ShellEvent {
    /// OSC 133;A -- prompt start.
    PromptStart,
    /// OSC 133;B -- command start.
    CommandStart,
    /// OSC 133;C -- output start.
    OutputStart,
    /// OSC 133;D -- command end, optionally with exit code.
    CommandEnd { exit_code: Option<i32> },
    /// Non-OSC passthrough data.
    Data(Vec<u8>),
}

/// The value of a [`ShellEvent`].
pub enum ShellEventView {
    PromptStart,
    CommandStart,
    OutputStart,
    CommandEnd { exit_code: Option<i32> },
    Data(Seq<u8>),
}

impl View for ShellEvent {
    type V = ShellEventView;

    open spec fn view(&self) -> ShellEventView {
        match self {
            ShellEvent::PromptStart => ShellEventView::PromptStart,
            ShellEvent::CommandStart => ShellEventView::CommandStart,
            ShellEvent::OutputStart => ShellEventView::OutputStart,
            ShellEvent::CommandEnd { exit_code } => ShellEventView::CommandEnd {
                exit_code: *exit_code,
            },
            ShellEvent::Data(d) => ShellEventView::Data(d@),
        }
    }
}

pub open spec fn shell_events_view(v: Seq<ShellEvent>) -> Seq<ShellEventView> {
    v.map_values(|e: ShellEvent| e@)
}

proof fn lemma_shell_events_push(v: Seq<ShellEvent>, e: ShellEvent)
    ensures
        shell_events_view(v.push(e)) == shell_events_view(v).push(e@),
{
    assert(shell_events_view(v.push(e)) =~= shell_events_view(v).push(e@));
}

// ---------------------------------------------------------------------------
// The OSC parser, as mathematics
// ---------------------------------------------------------------------------

/// Internal states for the OSC parser state machine.
#[derive(PartialEq, Eq, Structural)]
pub enum OscParseState {
    /// Normal data passthrough.
    Normal,
    /// Saw ESC (0x1B), waiting for next byte.
    Escape,
    /// Inside an OSC sequence (saw ESC ]), accumulating body.
    OscBody,
    /// Inside an OSC body, saw ESC -- waiting for backslash (ST terminator).
    OscBodyEscape,
}

/// The state of an [`OscParser`]: its mode, the OSC body read so far, and the
/// passthrough bytes not yet emitted.
pub struct OscView {
    pub state: OscParseState,
    pub buffer: Seq<u8>,
    pub data: Seq<u8>,
}

/// Passthrough bytes as an event, if there are any.
pub open spec fn flushed(data: Seq<u8>) -> Seq<ShellEventView> {
    if data.len() > 0 {
        seq![ShellEventView::Data(data)]
    } else {
        seq![]
    }
}

pub open spec fn osc_prefix() -> Seq<char> {
    seq!['1', '3', '3', ';']
}

/// The event that an OSC body stands for, if it is an OSC 133 sequence
/// that we recognize.
pub open spec fn osc_body_event(body: Seq<u8>) -> Option<ShellEventView> {
    if !valid_utf8(body) {
        None
    } else {
        let text = decode_utf8(body);
        if !starts_with(text, osc_prefix()) {
            None
        } else {
            let payload = text.skip(4);
            if payload == seq!['A'] {
                Some(ShellEventView::PromptStart)
            } else if payload == seq!['B'] {
                Some(ShellEventView::CommandStart)
            } else if payload == seq!['C'] {
                Some(ShellEventView::OutputStart)
            } else if payload == seq!['D'] {
                Some(ShellEventView::CommandEnd { exit_code: None })
            } else if starts_with(payload, seq!['D', ';']) {
                Some(ShellEventView::CommandEnd { exit_code: parse_i32_spec(trim(payload.skip(2))) })
            } else {
                None
            }
        }
    }
}

pub open spec fn opt_event(o: Option<ShellEventView>) -> Seq<ShellEventView> {
    match o {
        Some(e) => seq![e],
        None => seq![],
    }
}

/// One byte of input.
pub open spec fn osc_step(m: OscView, b: u8) -> (OscView, Seq<ShellEventView>) {
    match m.state {
        OscParseState::Normal => if b == 0x1b {
            (OscView { state: OscParseState::Escape, buffer: m.buffer, data: m.data }, seq![])
        } else {
            (OscView { state: OscParseState::Normal, buffer: m.buffer, data: m.data.push(b) }, seq![])
        },
        OscParseState::Escape => if b == 0x5d {
            (OscView { state: OscParseState::OscBody, buffer: seq![], data: seq![] }, flushed(m.data))
        } else if b == 0x1b {
            (
                OscView { state: OscParseState::Escape, buffer: m.buffer, data: m.data.push(0x1b) },
                seq![],
            )
        } else {
            (
                OscView {
                    state: OscParseState::Normal,
                    buffer: m.buffer,
                    data: m.data.push(0x1b).push(b),
                },
                seq![],
            )
        },
        OscParseState::OscBody => if b == 0x07 {
            (
                OscView { state: OscParseState::Normal, buffer: seq![], data: m.data },
                opt_event(osc_body_event(m.buffer)),
            )
        } else if b == 0x1b {
            (OscView { state: OscParseState::OscBodyEscape, buffer: m.buffer, data: m.data }, seq![])
        } else {
            (OscView { state: OscParseState::OscBody, buffer: m.buffer.push(b), data: m.data }, seq![])
        },
        OscParseState::OscBodyEscape => if b == 0x5c {
            (
                OscView { state: OscParseState::Normal, buffer: seq![], data: m.data },
                opt_event(osc_body_event(m.buffer)),
            )
        } else {
            (
                OscView {
                    state: OscParseState::OscBody,
                    buffer: m.buffer.push(0x1b).push(b),
                    data: m.data,
                },
                seq![],
            )
        },
    }
}

/// A run of bytes: the state after them and the events they complete.
pub open spec fn osc_run(m: OscView, bytes: Seq<u8>) -> (OscView, Seq<ShellEventView>)
    decreases bytes.len(),
{
    if bytes.len() == 0 {
        (m, seq![])
    } else {
        let (m1, e1) = osc_step(m, bytes[0]);
        let (m2, e2) = osc_run(m1, bytes.drop_first());
        (m2, e1 + e2)
    }
}

/// One call of `feed`: the bytes, then the passthrough data still held.
pub open spec fn osc_feed(m: OscView, bytes: Seq<u8>) -> (OscView, Seq<ShellEventView>) {
    let (m1, e1) = osc_run(m, bytes);
    (OscView { state: m1.state, buffer: m1.buffer, data: seq![] }, e1 + flushed(m1.data))
}

// ---------------------------------------------------------------------------
// Laws of the OSC parser
// ---------------------------------------------------------------------------

/// The events that are not passthrough data, in order.
pub open spec fn non_data(es: Seq<ShellEventView>) -> Seq<ShellEventView>
    decreases es.len(),
{
    if es.len() == 0 {
        seq![]
    } else {
        let r = non_data(es.drop_last());
        match es.last() {
            ShellEventView::Data(_) => r,
            e => r.push(e),
        }
    }
}

/// The passthrough bytes of the events, concatenated in order.
pub open spec fn data_bytes(es: Seq<ShellEventView>) -> Seq<u8>
    decreases es.len(),
{
    if es.len() == 0 {
        seq![]
    } else {
        let r = data_bytes(es.drop_last());
        match es.last() {
            ShellEventView::Data(d) => r + d,
            _ => r,
        }
    }
}

proof fn lemma_non_data_append(x: Seq<ShellEventView>, y: Seq<ShellEventView>)
    ensures
        non_data(x + y) == non_data(x) + non_data(y),
        data_bytes(x + y) == data_bytes(x) + data_bytes(y),
    decreases y.len(),
{
    if y.len() == 0 {
        assert(x + y =~= x);
        assert(non_data(x) + non_data(y) =~= non_data(x));
        assert(data_bytes(x) + data_bytes(y) =~= data_bytes(x));
    } else {
        assert((x + y).drop_last() =~= x + y.drop_last());
        assert((x + y).last() == y.last());
        lemma_non_data_append(x, y.drop_last());
        match y.last() {
            ShellEventView::Data(d) => {
                assert(data_bytes(x) + (data_bytes(y.drop_last()) + d) =~= (data_bytes(x)
                    + data_bytes(y.drop_last())) + d);
            },
            e => {
                assert(non_data(x) + non_data(y.drop_last()).push(e) =~= (non_data(x) + non_data(
                    y.drop_last(),
                )).push(e));
            },
        }
    }
}

proof fn lemma_flushed_parts(d: Seq<u8>)
    ensures
        non_data(flushed(d)) == Seq::<ShellEventView>::empty(),
        data_bytes(flushed(d)) == d,
{
    assert(non_data(Seq::<ShellEventView>::empty()) == Seq::<ShellEventView>::empty());
    assert(data_bytes(Seq::<ShellEventView>::empty()) == Seq::<u8>::empty());
    if d.len() > 0 {
        assert(flushed(d).drop_last() =~= Seq::<ShellEventView>::empty());
        assert(Seq::<u8>::empty() + d =~= d);
    } else {
        assert(d =~= Seq::<u8>::empty());
    }
}

proof fn lemma_body_event_parts(body: Seq<u8>)
    ensures
        non_data(opt_event(osc_body_event(body))) == opt_event(osc_body_event(body)),
        data_bytes(opt_event(osc_body_event(body))) == Seq::<u8>::empty(),
{
    assert(non_data(Seq::<ShellEventView>::empty()) == Seq::<ShellEventView>::empty());
    assert(data_bytes(Seq::<ShellEventView>::empty()) == Seq::<u8>::empty());
    if osc_body_event(body) is Some {
        let e = osc_body_event(body).unwrap();
        assert(!(e is Data));
        assert(opt_event(osc_body_event(body)).drop_last() =~= Seq::<ShellEventView>::empty());
        assert(Seq::<ShellEventView>::empty().push(osc_body_event(body).unwrap()) =~= opt_event(
            osc_body_event(body),
        ));
    }
}

/// Running bytes through two parsers that differ only in the passthrough
/// data they hold: the same mode and body after, the same shell events, and
/// the same passthrough bytes once the held prefix is counted.
proof fn lemma_osc_run_held_data(m: OscView, m2: OscView, p: Seq<u8>, bytes: Seq<u8>)
    requires
        m.state == m2.state,
        m.buffer == m2.buffer,
        m.data == p + m2.data,
    ensures
        osc_run(m, bytes).0.state == osc_run(m2, bytes).0.state,
        osc_run(m, bytes).0.buffer == osc_run(m2, bytes).0.buffer,
        non_data(osc_run(m, bytes).1) == non_data(osc_run(m2, bytes).1),
        data_bytes(osc_run(m, bytes).1) + osc_run(m, bytes).0.data == p + data_bytes(
            osc_run(m2, bytes).1,
        ) + osc_run(m2, bytes).0.data,
    decreases bytes.len(),
{
    if bytes.len() == 0 {
        assert(data_bytes(Seq::<ShellEventView>::empty()) + m.data =~= m.data);
        assert(p + data_bytes(Seq::<ShellEventView>::empty()) + m2.data =~= p + m2.data);
    } else {
        let b = bytes[0];
        let rest = bytes.drop_first();
        let s1 = osc_step(m, b);
        let s2 = osc_step(m2, b);
        let r1 = osc_run(s1.0, rest);
        let r2 = osc_run(s2.0, rest);
        lemma_non_data_append(s1.1, r1.1);
        lemma_non_data_append(s2.1, r2.1);
        if m.state == OscParseState::Escape && b == 0x5d {
            lemma_osc_run_held_data(s1.0, s2.0, seq![], rest);
            lemma_flushed_parts(m.data);
            lemma_flushed_parts(m2.data);
            assert(s1.0.data == Seq::<u8>::empty() + s2.0.data);
            assert(data_bytes(r1.1) + r1.0.data == data_bytes(r2.1) + r2.0.data);
            assert(m.data + data_bytes(r1.1) + r1.0.data =~= m.data + (data_bytes(r1.1)
                + r1.0.data));
            assert(p + (m2.data + data_bytes(r2.1)) + r2.0.data =~= (p + m2.data) + (data_bytes(
                r2.1,
            ) + r2.0.data));
        } else if (m.state == OscParseState::OscBody && b == 0x07) || (m.state
            == OscParseState::OscBodyEscape && b == 0x5c) {
            lemma_osc_run_held_data(s1.0, s2.0, p, rest);
            lemma_body_event_parts(m.buffer);
            assert(s1.1 == s2.1);
            assert(Seq::<u8>::empty() + data_bytes(r1.1) =~= data_bytes(r1.1));
            assert(Seq::<u8>::empty() + data_bytes(r2.1) =~= data_bytes(r2.1));
        } else {
            assert(s1.1 == Seq::<ShellEventView>::empty());
            assert(s2.1 == Seq::<ShellEventView>::empty());
            assert(s1.0.data =~= p + s2.0.data);
            lemma_osc_run_held_data(s1.0, s2.0, p, rest);
            assert(Seq::<ShellEventView>::empty() + r1.1 =~= r1.1);
            assert(Seq::<ShellEventView>::empty() + r2.1 =~= r2.1);
        }
    }
}

/// Running `a + b` is running `a`, then `b` from where `a` left off.
proof fn lemma_osc_run_append(m: OscView, a: Seq<u8>, b: Seq<u8>)
    ensures
        osc_run(m, a + b).0 == osc_run(osc_run(m, a).0, b).0,
        osc_run(m, a + b).1 == osc_run(m, a).1 + osc_run(osc_run(m, a).0, b).1,
    decreases a.len(),
{
    if a.len() == 0 {
        assert(a + b =~= b);
        assert(Seq::<ShellEventView>::empty() + osc_run(m, b).1 =~= osc_run(m, b).1);
    } else {
        let s = osc_step(m, a[0]);
        assert((a + b)[0] == a[0]);
        assert((a + b).drop_first() =~= a.drop_first() + b);
        lemma_osc_run_append(s.0, a.drop_first(), b);
        let ra = osc_run(s.0, a.drop_first());
        assert(s.1 + (ra.1 + osc_run(ra.0, b).1) =~= (s.1 + ra.1) + osc_run(ra.0, b).1);
    }
}

/// A sequence split across `feed` calls is reassembled: feeding `a` and then
/// `b` leaves the parser as feeding `a + b` at once does, with the same shell
/// events in the same order and the same passthrough bytes.
pub proof fn lemma_osc_feed_chunks(m: OscView, a: Seq<u8>, b: Seq<u8>)
    ensures
        osc_feed(osc_feed(m, a).0, b).0 == osc_feed(m, a + b).0,
        non_data(osc_feed(m, a).1 + osc_feed(osc_feed(m, a).0, b).1) == non_data(
            osc_feed(m, a + b).1,
        ),
        data_bytes(osc_feed(m, a).1 + osc_feed(osc_feed(m, a).0, b).1) == data_bytes(
            osc_feed(m, a + b).1,
        ),
{
    let ra = osc_run(m, a);
    let ma = ra.0;
    let ma0 = osc_feed(m, a).0;
    let rb = osc_run(ma, b);
    let rb0 = osc_run(ma0, b);
    lemma_osc_run_append(m, a, b);
    assert(ma.data == ma.data + ma0.data);
    lemma_osc_run_held_data(ma, ma0, ma.data, b);
    let e1 = osc_feed(m, a).1;
    let e2 = osc_feed(ma0, b).1;
    let e3 = osc_feed(m, a + b).1;
    assert(e1 == ra.1 + flushed(ma.data));
    assert(e2 == rb0.1 + flushed(rb0.0.data));
    assert(e3 == (ra.1 + rb.1) + flushed(rb.0.data));
    lemma_non_data_append(ra.1, flushed(ma.data));
    lemma_non_data_append(rb0.1, flushed(rb0.0.data));
    lemma_non_data_append(ra.1 + rb.1, flushed(rb.0.data));
    lemma_non_data_append(ra.1, rb.1);
    lemma_non_data_append(e1, e2);
    lemma_flushed_parts(ma.data);
    lemma_flushed_parts(rb0.0.data);
    lemma_flushed_parts(rb.0.data);
    assert(non_data(e1 + e2) =~= non_data(e3));
    let d1 = data_bytes(ra.1);
    assert(data_bytes(e1 + e2) == (d1 + ma.data) + (data_bytes(rb0.1) + rb0.0.data));
    assert(data_bytes(e3) == (d1 + data_bytes(rb.1)) + rb.0.data);
    assert(data_bytes(rb.1) + rb.0.data == ma.data + data_bytes(rb0.1) + rb0.0.data);
    assert((d1 + data_bytes(rb.1)) + rb.0.data =~= d1 + (data_bytes(rb.1) + rb.0.data));
    assert((d1 + ma.data) + (data_bytes(rb0.1) + rb0.0.data) =~= d1 + (ma.data + data_bytes(
        rb0.1,
    ) + rb0.0.data));
    assert(data_bytes(e1 + e2) =~= data_bytes(e3));
}

/// One event added to events whose adjacent data are joined: data right
/// after data joins it.
pub open spec fn merge_step(s: Seq<ShellEventView>, e: ShellEventView) -> Seq<ShellEventView> {
    match e {
        ShellEventView::Data(d) => if s.len() > 0 && s.last() is Data {
            s.update(s.len() - 1, ShellEventView::Data(s.last()->Data_0 + d))
        } else {
            s.push(e)
        },
        _ => s.push(e),
    }
}

/// The events `es` added one by one to `s`, joining adjacent data.
pub open spec fn merge_onto(s: Seq<ShellEventView>, es: Seq<ShellEventView>) -> Seq<ShellEventView>
    decreases es.len(),
{
    if es.len() == 0 {
        s
    } else {
        merge_step(merge_onto(s, es.drop_last()), es.last())
    }
}

/// The events with every run of adjacent data events joined into one.
pub open spec fn merge_data(es: Seq<ShellEventView>) -> Seq<ShellEventView> {
    merge_onto(seq![], es)
}

/// A parser state that a parser can be in: inside an OSC sequence no
/// passthrough data is held.
pub open spec fn osc_ok(m: OscView) -> bool {
    (m.state == OscParseState::OscBody || m.state == OscParseState::OscBodyEscape) ==> m.data.len()
        == 0
}

proof fn lemma_merge_onto_append(s: Seq<ShellEventView>, x: Seq<ShellEventView>, y: Seq<ShellEventView>)
    ensures
        merge_onto(s, x + y) == merge_onto(merge_onto(s, x), y),
    decreases y.len(),
{
    if y.len() == 0 {
        assert(x + y =~= x);
    } else {
        assert((x + y).drop_last() =~= x + y.drop_last());
        assert((x + y).last() == y.last());
        lemma_merge_onto_append(s, x, y.drop_last());
    }
}

proof fn lemma_merge_step_data_twice(t: Seq<ShellEventView>, d0: Seq<u8>, d: Seq<u8>)
    ensures
        merge_step(merge_step(t, ShellEventView::Data(d0)), ShellEventView::Data(d)) == merge_step(
            t,
            ShellEventView::Data(d0 + d),
        ),
{
    if t.len() > 0 && t.last() is Data {
        let e = t.last()->Data_0;
        assert(e + d0 + d =~= e + (d0 + d));
        assert(t.update(t.len() - 1, ShellEventView::Data(e + d0)).update(
            t.len() - 1,
            ShellEventView::Data(e + d0 + d),
        ) =~= t.update(t.len() - 1, ShellEventView::Data(e + (d0 + d))));
    } else {
        assert(t.push(ShellEventView::Data(d0)).update(t.len() as int, ShellEventView::Data(d0 + d))
            =~= t.push(ShellEventView::Data(d0 + d)));
    }
}

/// Joining adjacent data first, then continuing, is continuing.
proof fn lemma_merge_onto_merged(s: Seq<ShellEventView>, y: Seq<ShellEventView>)
    ensures
        merge_onto(s, y) == merge_onto(s, merge_data(y)),
    decreases y.len(),
{
    if y.len() > 0 {
        let y0 = y.drop_last();
        let z = y.last();
        lemma_merge_onto_merged(s, y0);
        let w = merge_data(y0);
        let sw = merge_step(w, z);
        assert(merge_data(y) == sw);
        // merge_onto(s, merge_step(w, z)) == merge_step(merge_onto(s, w), z)
        if z is Data && w.len() > 0 && w.last() is Data {
            let d = z->Data_0;
            let d0 = w.last()->Data_0;
            let w1 = w.drop_last();
            assert(w =~= w1.push(ShellEventView::Data(d0)));
            assert(sw =~= w1.push(ShellEventView::Data(d0 + d)));
            assert(merge_onto(s, w) == merge_step(merge_onto(s, w1), ShellEventView::Data(d0))) by {
                assert(w.drop_last() =~= w1);
            }
            assert(merge_onto(s, sw) == merge_step(merge_onto(s, w1), ShellEventView::Data(d0 + d)))
                by {
                assert(sw.drop_last() =~= w1);
            }
            lemma_merge_step_data_twice(merge_onto(s, w1), d0, d);
        } else {
            assert(sw == w.push(z));
            assert(sw.drop_last() =~= w);
        }
    }
}

/// Passthrough data held by a parser, and then the data reported after it,
/// join into the data that one parser holding both would report.
proof fn lemma_flushed_join(p: Seq<u8>, q: Seq<u8>, y: Seq<ShellEventView>)
    ensures
        merge_data(flushed(p) + (flushed(q) + y)) == merge_data(flushed(p + q) + y),
{
    assert(flushed(p) + (flushed(q) + y) =~= (flushed(p) + flushed(q)) + y);
    lemma_merge_onto_append(seq![], flushed(p) + flushed(q), y);
    lemma_merge_onto_append(seq![], flushed(p + q), y);
    let e = Seq::<ShellEventView>::empty();
    if p.len() == 0 {
        assert(p + q =~= q);
        assert(flushed(p) + flushed(q) =~= flushed(q));
    } else if q.len() == 0 {
        assert(p + q =~= p);
        assert(flushed(p) + flushed(q) =~= flushed(p));
    } else {
        let two = flushed(p) + flushed(q);
        assert(two.drop_last() =~= flushed(p));
        assert(flushed(p).drop_last() =~= e);
        assert(merge_onto(e, e) == e);
        assert(flushed(p).last() == ShellEventView::Data(p));
        assert(merge_step(e, ShellEventView::Data(p)) =~= seq![ShellEventView::Data(p)]);
        assert(merge_data(flushed(p)) =~= seq![ShellEventView::Data(p)]);
        assert(merge_data(two) =~= seq![ShellEventView::Data(p + q)]);
        assert(flushed(p + q).drop_last() =~= e);
        assert(flushed(p + q).last() == ShellEventView::Data(p + q));
        assert(merge_step(e, ShellEventView::Data(p + q)) =~= seq![ShellEventView::Data(p + q)]);
        assert(merge_data(flushed(p + q)) =~= seq![ShellEventView::Data(p + q)]);
    }
}

/// Inside an OSC sequence a parser holds no passthrough data, whatever
/// bytes it reads.
proof fn lemma_osc_run_ok(m: OscView, bytes: Seq<u8>)
    requires
        osc_ok(m),
    ensures
        osc_ok(osc_run(m, bytes).0),
    decreases bytes.len(),
{
    if bytes.len() > 0 {
        lemma_osc_run_ok(osc_step(m, bytes[0]).0, bytes.drop_first());
    }
}

/// Running bytes through a parser that holds `p` more passthrough data than
/// another: once the data still held is reported, the events are those of
/// the other parser after `p`, adjacent data joined.
proof fn lemma_osc_run_held_merged(m: OscView, m2: OscView, p: Seq<u8>, bytes: Seq<u8>)
    requires
        m.state == m2.state,
        m.buffer == m2.buffer,
        m.data == p + m2.data,
        (m.state == OscParseState::OscBody || m.state == OscParseState::OscBodyEscape) ==> p.len()
            == 0,
    ensures
        merge_data(osc_run(m, bytes).1 + flushed(osc_run(m, bytes).0.data)) == merge_data(
            flushed(p) + (osc_run(m2, bytes).1 + flushed(osc_run(m2, bytes).0.data)),
        ),
    decreases bytes.len(),
{
    let e = Seq::<ShellEventView>::empty();
    if p.len() == 0 {
        assert(m.data =~= m2.data);
        assert(m == m2);
        assert(flushed(p) + (osc_run(m2, bytes).1 + flushed(osc_run(m2, bytes).0.data)) =~= osc_run(
            m2,
            bytes,
        ).1 + flushed(osc_run(m2, bytes).0.data));
    } else if bytes.len() == 0 {
        lemma_flushed_join(p, m2.data, e);
        assert(osc_run(m, bytes).1 + flushed(m.data) =~= flushed(p + m2.data) + e);
        assert(osc_run(m2, bytes).1 + flushed(m2.data) =~= flushed(m2.data) + e);
    } else {
        let b = bytes[0];
        let rest = bytes.drop_first();
        let s1 = osc_step(m, b);
        let s2 = osc_step(m2, b);
        let r1 = osc_run(s1.0, rest);
        let r2 = osc_run(s2.0, rest);
        let x1 = r1.1 + flushed(r1.0.data);
        let x2 = r2.1 + flushed(r2.0.data);
        assert(osc_run(m, bytes).1 + flushed(osc_run(m, bytes).0.data) =~= s1.1 + x1);
        assert(osc_run(m2, bytes).1 + flushed(osc_run(m2, bytes).0.data) =~= s2.1 + x2);
        if m.state == OscParseState::Escape && b == 0x5d {
            assert(s1.0 == s2.0);
            assert(s1.1 == flushed(m.data) && s2.1 == flushed(m2.data));
            lemma_flushed_join(p, m2.data, x2);
        } else {
            assert(s1.1 == e && s2.1 == e);
            assert(s1.0.data =~= p + s2.0.data);
            lemma_osc_run_held_merged(s1.0, s2.0, p, rest);
            assert(e + x1 =~= x1);
            assert(e + x2 =~= x2);
        }
    }
}

/// A sequence split across `feed` calls is reassembled: feeding `a` and then
/// `b` leaves the parser as feeding `a + b` at once does, and gives the same
/// events once each run of adjacent data events is joined into one, so that
/// the passthrough data falls between the same events. Every parser's state
/// meets `osc_ok`, as the contract of [`OscParser::feed`] states.
pub proof fn lemma_osc_feed_chunks_merged(m: OscView, a: Seq<u8>, b: Seq<u8>)
    requires
        osc_ok(m),
    ensures
        osc_feed(osc_feed(m, a).0, b).0 == osc_feed(m, a + b).0,
        merge_data(osc_feed(m, a).1 + osc_feed(osc_feed(m, a).0, b).1) == merge_data(
            osc_feed(m, a + b).1,
        ),
{
    lemma_osc_feed_chunks(m, a, b);
    let ra = osc_run(m, a);
    let ma = ra.0;
    let ma0 = osc_feed(m, a).0;
    lemma_osc_run_ok(m, a);
    lemma_osc_run_append(m, a, b);
    assert(ma.data == ma.data + ma0.data);
    lemma_osc_run_held_merged(ma, ma0, ma.data, b);
    let rb = osc_run(ma, b);
    let rb0 = osc_run(ma0, b);
    let s1 = rb.1 + flushed(rb.0.data);
    let s2 = flushed(ma.data) + (rb0.1 + flushed(rb0.0.data));
    assert(osc_feed(m, a).1 + osc_feed(ma0, b).1 =~= ra.1 + s2);
    assert(osc_feed(m, a + b).1 =~= ra.1 + s1);
    lemma_merge_onto_append(seq![], ra.1, s2);
    lemma_merge_onto_append(seq![], ra.1, s1);
    lemma_merge_onto_merged(merge_data(ra.1), s1);
    lemma_merge_onto_merged(merge_data(ra.1), s2);
}

/// Bytes without an ESC, fed to a parser that is between sequences, pass
/// through whole as one data event, and the parser stays as it was.
pub proof fn lemma_plain_bytes_pass_through(m: OscView, bytes: Seq<u8>)
    requires
        m.state == OscParseState::Normal,
        m.data == Seq::<u8>::empty(),
        !bytes.contains(0x1bu8),
    ensures
        osc_feed(m, bytes).0 == m,
        osc_feed(m, bytes).1 == flushed(bytes),
{
    lemma_plain_run(m, bytes);
    assert(m.data + bytes =~= bytes);
    assert(Seq::<ShellEventView>::empty() + flushed(bytes) =~= flushed(bytes));
}

proof fn lemma_plain_run(m: OscView, bytes: Seq<u8>)
    requires
        m.state == OscParseState::Normal,
        !bytes.contains(0x1bu8),
    ensures
        osc_run(m, bytes).0 == (OscView { state: m.state, buffer: m.buffer, data: m.data + bytes }),
        osc_run(m, bytes).1 == Seq::<ShellEventView>::empty(),
    decreases bytes.len(),
{
    if bytes.len() == 0 {
        assert(m.data + bytes =~= m.data);
    } else {
        assert(bytes.contains(bytes[0]));
        assert(!bytes.drop_first().contains(0x1bu8)) by {
            if bytes.drop_first().contains(0x1bu8) {
                let k = choose|k: int|
                    0 <= k < bytes.drop_first().len() && bytes.drop_first()[k] == 0x1bu8;
                assert(bytes[k + 1] == 0x1bu8);
            }
        }
        let m1 = OscView { state: m.state, buffer: m.buffer, data: m.data.push(bytes[0]) };
        lemma_plain_run(m1, bytes.drop_first());
        assert(m1.data + bytes.drop_first() =~= m.data + bytes);
        assert(Seq::<ShellEventView>::empty() + Seq::<ShellEventView>::empty() =~= Seq::<
            ShellEventView,
        >::empty());
    }
}

/// Body bytes without ESC or BEL, read inside an OSC sequence, are kept in
/// the body and complete nothing.
proof fn lemma_body_run(m: OscView, bytes: Seq<u8>)
    requires
        m.state == OscParseState::OscBody,
        !bytes.contains(0x1bu8),
        !bytes.contains(0x07u8),
    ensures
        osc_run(m, bytes).0 == (OscView {
            state: OscParseState::OscBody,
            buffer: m.buffer + bytes,
            data: m.data,
        }),
        osc_run(m, bytes).1 == Seq::<ShellEventView>::empty(),
    decreases bytes.len(),
{
    if bytes.len() == 0 {
        assert(m.buffer + bytes =~= m.buffer);
    } else {
        assert(bytes.contains(bytes[0]));
        let rest = bytes.drop_first();
        assert(!rest.contains(0x1bu8) && !rest.contains(0x07u8)) by {
            if rest.contains(0x1bu8) {
                let k = choose|k: int| 0 <= k < rest.len() && rest[k] == 0x1bu8;
                assert(bytes[k + 1] == 0x1bu8);
            }
            if rest.contains(0x07u8) {
                let k = choose|k: int| 0 <= k < rest.len() && rest[k] == 0x07u8;
                assert(bytes[k + 1] == 0x07u8);
            }
        }
        let m1 = OscView {
            state: OscParseState::OscBody,
            buffer: m.buffer.push(bytes[0]),
            data: m.data,
        };
        lemma_body_run(m1, rest);
        assert(m1.buffer + rest =~= m.buffer + bytes);
        assert(Seq::<ShellEventView>::empty() + Seq::<ShellEventView>::empty() =~= Seq::<
            ShellEventView,
        >::empty());
    }
}

/// A fresh parser fed `a`, then `ESC ]`, an OSC body and BEL, then `c`
/// (`a`, the body and `c` holding no ESC, the body no BEL) reports `a` as
/// data if it is not empty, then the event the body stands for if it is an
/// OSC 133 sequence it recognizes (nothing otherwise: the sequence is not
/// passed through), then `c` as data if it is not empty, and is left fresh.
pub proof fn lemma_osc_sequence_in_data(a: Seq<u8>, body: Seq<u8>, c: Seq<u8>)
    requires
        !a.contains(0x1bu8),
        !body.contains(0x1bu8),
        !body.contains(0x07u8),
        !c.contains(0x1bu8),
    ensures
        ({
            let fresh = OscView { state: OscParseState::Normal, buffer: seq![], data: seq![] };
            let bytes = a + seq![0x1bu8, 0x5du8] + body + seq![0x07u8] + c;
            &&& osc_feed(fresh, bytes).0 == fresh
            &&& osc_feed(fresh, bytes).1 == flushed(a) + opt_event(osc_body_event(body))
                + flushed(c)
        }),
{
    let fresh = OscView { state: OscParseState::Normal, buffer: seq![], data: seq![] };
    let esc = seq![0x1bu8, 0x5du8];
    let bel = seq![0x07u8];
    let p1 = a + esc;
    let p2 = p1 + body;
    let p3 = p2 + bel;
    let bytes = p3 + c;
    // a
    lemma_plain_run(fresh, a);
    let ma = OscView { state: OscParseState::Normal, buffer: seq![], data: seq![] + a };
    assert(seq![] + a =~= a);
    // ESC ]
    let mb = OscView { state: OscParseState::OscBody, buffer: seq![], data: seq![] };
    let m_esc = OscView { state: OscParseState::Escape, buffer: seq![], data: a };
    let close = seq![0x5du8];
    assert(esc[0] == 0x1bu8);
    assert(esc.drop_first() =~= close);
    assert(close.drop_first() =~= Seq::<u8>::empty());
    assert(osc_run(mb, Seq::<u8>::empty()) == (mb, Seq::<ShellEventView>::empty()));
    assert(osc_run(m_esc, close) == (mb, flushed(a) + Seq::<ShellEventView>::empty()));
    assert(osc_run(ma, esc) == (mb, Seq::<ShellEventView>::empty() + (flushed(a)
        + Seq::<ShellEventView>::empty())));
    assert(Seq::<ShellEventView>::empty() + (flushed(a) + Seq::<ShellEventView>::empty())
        =~= flushed(a));
    lemma_osc_run_append(fresh, a, esc);
    assert(Seq::<ShellEventView>::empty() + flushed(a) =~= flushed(a));
    // body
    lemma_body_run(mb, body);
    lemma_osc_run_append(fresh, p1, body);
    assert(seq![] + body =~= body);
    let mc = OscView { state: OscParseState::OscBody, buffer: body, data: seq![] };
    assert(flushed(a) + Seq::<ShellEventView>::empty() =~= flushed(a));
    // BEL
    assert(bel[0] == 0x07u8);
    assert(bel.drop_first() =~= Seq::<u8>::empty());
    assert(osc_run(fresh, Seq::<u8>::empty()) == (fresh, Seq::<ShellEventView>::empty()));
    assert(osc_step(mc, 0x07u8) == (fresh, opt_event(osc_body_event(body))));
    assert(osc_run(mc, bel) == (fresh, opt_event(osc_body_event(body))
        + Seq::<ShellEventView>::empty()));
    assert(opt_event(osc_body_event(body)) + Seq::<ShellEventView>::empty() =~= opt_event(
        osc_body_event(body),
    ));
    lemma_osc_run_append(fresh, p2, bel);
    // c
    lemma_plain_run(fresh, c);
    assert(seq![] + c =~= c);
    lemma_osc_run_append(fresh, p3, c);
    let ev = flushed(a) + opt_event(osc_body_event(body));
    assert(ev + Seq::<ShellEventView>::empty() =~= ev);
}

// ---------------------------------------------------------------------------
// The OSC parser
// ---------------------------------------------------------------------------

/// `std::str::from_utf8`: the text of the bytes when they are valid UTF-8.
#[verifier::external_body]
fn utf8_text(bytes: &[u8]) -> (r: Option<&str>)
    ensures
        r is Some <==> valid_utf8(bytes@),
        r matches Some(s) ==> s@ == decode_utf8(bytes@),
{
    std::str::from_utf8(bytes).ok()
}

/// Parser that detects OSC 133 sequences in a byte stream.
///
/// Handles byte-at-a-time feeding so partial sequences that span multiple
/// `feed()` calls are correctly reassembled.
pub struct OscParser {
    state: OscParseState,
    buffer: Vec<u8>,
    /// Accumulates non-OSC data bytes to be emitted as `Data` events.
    data_buffer: Vec<u8>,
}

impl View for OscParser {
    type V = OscView;

    closed spec fn view(&self) -> OscView {
        OscView { state: self.state, buffer: self.buffer@, data: self.data_buffer@ }
    }
}

impl OscParser {
    /// Inside an OSC sequence the parser holds no passthrough data.
    #[verifier::type_invariant]
    spec fn holds_no_data_in_sequence(&self) -> bool {
        osc_ok(self@)
    }

    /// Create a new parser in the initial state.
    pub fn new() -> (p: Self)
        ensures
            p@ == (OscView { state: OscParseState::Normal, buffer: seq![], data: seq![] }),
    {
        Self { state: OscParseState::Normal, buffer: Vec::new(), data_buffer: Vec::new() }
    }

    /// Feed bytes into the parser, returning any events detected.
    ///
    /// OSC 133 sequences produce `ShellEvent` variants; all other bytes
    /// pass through as `ShellEvent::Data`.
    pub fn feed(&mut self, bytes: &[u8]) -> (events: Vec<ShellEvent>)
        ensures
            osc_ok(old(self)@),
            final(self)@ == osc_feed(old(self)@, bytes@).0,
            shell_events_view(events@) == osc_feed(old(self)@, bytes@).1,
    {
        proof {
            use_type_invariant(&*self);
        }
        let ghost start = self@;
        let mut events: Vec<ShellEvent> = Vec::new();
        let mut i: usize = 0;
        assert(bytes@.skip(0) == bytes@);
        assert(shell_events_view(events@) =~= Seq::<ShellEventView>::empty());
        while i < bytes.len()
            invariant
                i <= bytes@.len(),
                osc_run(start, bytes@).0 == osc_run(self@, bytes@.skip(i as int)).0,
                osc_run(start, bytes@).1 == shell_events_view(events@) + osc_run(
                    self@,
                    bytes@.skip(i as int),
                ).1,
            decreases bytes.len() - i,
        {
            let ghost before = self@;
            let ghost ev_before = shell_events_view(events@);
            let byte = bytes[i];
            assert(bytes@.skip(i as int)[0] == byte);
            assert(bytes@.skip(i as int).drop_first() == bytes@.skip(i + 1));
            self.step(byte, &mut events);
            assert(self@ == osc_step(before, byte).0);
            assert(shell_events_view(events@) == ev_before + osc_step(before, byte).1);
            i += 1;
        }
        assert(bytes@.skip(i as int) == Seq::<u8>::empty());
        // Flush any remaining data.
        self.flush_data(&mut events);
        events
    }

    /// One byte of input.
    fn step(&mut self, byte: u8, events: &mut Vec<ShellEvent>)
        ensures
            final(self)@ == osc_step(old(self)@, byte).0,
            shell_events_view(final(events)@) == shell_events_view(old(events)@) + osc_step(
                old(self)@,
                byte,
            ).1,
    {
        proof {
            use_type_invariant(&*self);
        }
        let ghost ev0 = shell_events_view(events@);
        assert(ev0 + Seq::<ShellEventView>::empty() == ev0);
        match self.state {
            OscParseState::Normal => {
                if byte == 0x1b {
                    // ESC -- might be start of an OSC sequence.
                    self.state = OscParseState::Escape;
                } else {
                    self.push_data(byte);
                }
            },
            OscParseState::Escape => {
                if byte == 0x5d {
                    // ESC ] -- this is an OSC introducer.
                    // Flush any pending data before starting OSC.
                    self.flush_data(events);
                    self.state = OscParseState::OscBody;
                    self.buffer = Vec::new();
                } else if byte == 0x1b {
                    // Another ESC -- the previous ESC was not part of an OSC.
                    self.push_data(0x1b);
                } else {
                    // Not an OSC sequence. Emit the ESC and this byte as data.
                    self.push_data(0x1b);
                    self.push_data(byte);
                    self.state = OscParseState::Normal;
                }
            },
            OscParseState::OscBody => {
                if byte == 0x07 {
                    // BEL terminates the OSC sequence.
                    self.finish_osc(events);
                } else if byte == 0x1b {
                    // Might be start of ST (ESC \).
                    self.state = OscParseState::OscBodyEscape;
                } else {
                    self.push_body(byte);
                }
            },
            OscParseState::OscBodyEscape => {
                if byte == 0x5c {
                    // ST (ESC \) terminates the OSC sequence.
                    self.finish_osc(events);
                } else {
                    // Not ST. The ESC was part of the body.
                    self.push_body(0x1b);
                    self.push_body(byte);
                    self.state = OscParseState::OscBody;
                }
            },
        }
    }

    /// One byte of passthrough data, outside an OSC sequence.
    fn push_data(&mut self, b: u8)
        requires
            old(self)@.state == OscParseState::Normal || old(self)@.state == OscParseState::Escape,
        ensures
            final(self)@ == (OscView { data: old(self)@.data.push(b), ..old(self)@ }),
    {
        let mut d: Vec<u8> = Vec::new();
        std::mem::swap(&mut d, &mut self.data_buffer);
        d.push(b);
        self.data_buffer = d;
    }

    /// One byte of the OSC body read so far.
    fn push_body(&mut self, b: u8)
        ensures
            final(self)@ == (OscView { buffer: old(self)@.buffer.push(b), ..old(self)@ }),
    {
        proof {
            use_type_invariant(&*self);
        }
        let mut d: Vec<u8> = Vec::new();
        std::mem::swap(&mut d, &mut self.buffer);
        d.push(b);
        self.buffer = d;
    }

    /// End of an OSC sequence: emit its event, if any, and return to normal.
    fn finish_osc(&mut self, events: &mut Vec<ShellEvent>)
        ensures
            final(self)@ == (OscView {
                state: OscParseState::Normal,
                buffer: seq![],
                data: old(self)@.data,
            }),
            shell_events_view(final(events)@) == shell_events_view(old(events)@) + opt_event(
                osc_body_event(old(self)@.buffer),
            ),
    {
        proof {
            use_type_invariant(&*self);
        }
        match self.parse_osc_body() {
            Some(event) => {
                proof {
                    lemma_shell_events_push(events@, event);
                }
                events.push(event);
            },
            None => {
                assert(shell_events_view(events@) + Seq::<ShellEventView>::empty()
                    == shell_events_view(events@));
            },
        }
        self.buffer = Vec::new();
        self.state = OscParseState::Normal;
    }

    /// Flush accumulated non-OSC data bytes as a `Data` event.
    fn flush_data(&mut self, events: &mut Vec<ShellEvent>)
        ensures
            final(self)@ == (OscView {
                state: old(self)@.state,
                buffer: old(self)@.buffer,
                data: seq![],
            }),
            shell_events_view(final(events)@) == shell_events_view(old(events)@) + flushed(
                old(self)@.data,
            ),
    {
        if self.data_buffer.len() > 0 {
            let mut data: Vec<u8> = Vec::new();
            std::mem::swap(&mut data, &mut self.data_buffer);
            let ev = ShellEvent::Data(data);
            proof {
                lemma_shell_events_push(events@, ev);
            }
            events.push(ev);
        } else {
            assert(shell_events_view(events@) + Seq::<ShellEventView>::empty()
                == shell_events_view(events@));
            assert(self.data_buffer@ =~= Seq::<u8>::empty());
        }
    }

    /// Try to parse the accumulated OSC body as an OSC 133 sequence.
    /// Returns `None` if this is not an OSC 133 sequence we recognize.
    fn parse_osc_body(&self) -> (r: Option<ShellEvent>)
        ensures
            r matches Some(e) ==> osc_body_event(self@.buffer) == Some(e@),
            r is None ==> osc_body_event(self@.buffer) is None,
    {
        let body = match utf8_text(self.buffer.as_slice()) {
            Some(b) => b,
            None => {
                return None;
            },
        };
        let text = chars_of(body);
        if !starts_with_at(&text, 0, &['1', '3', '3', ';']) {
            assert(text@.skip(0) == text@);
            return None;
        }
        assert(text@.skip(0) == text@);
        let payload = chars_from(&text, 4);
        let ghost p = payload@;
        if payload.len() == 1 && payload[0] == 'A' {
            assert(p =~= seq!['A']);
            Some(ShellEvent::PromptStart)
        } else if payload.len() == 1 && payload[0] == 'B' {
            assert(p =~= seq!['B']);
            assert(p != seq!['A']);
            Some(ShellEvent::CommandStart)
        } else if payload.len() == 1 && payload[0] == 'C' {
            assert(p =~= seq!['C']);
            assert(p != seq!['A'] && p != seq!['B']);
            Some(ShellEvent::OutputStart)
        } else if payload.len() == 1 && payload[0] == 'D' {
            assert(p =~= seq!['D']);
            assert(p != seq!['A'] && p != seq!['B'] && p != seq!['C']);
            Some(ShellEvent::CommandEnd { exit_code: None })
        } else {
            proof {
                if p.len() == 1 {
                    assert(p != seq!['A'] && p != seq!['B'] && p != seq!['C'] && p != seq!['D']) by {
                        assert(seq!['A'][0] == 'A');
                        assert(seq!['B'][0] == 'B');
                        assert(seq!['C'][0] == 'C');
                        assert(seq!['D'][0] == 'D');
                    }
                } else {
                    assert(seq!['A'].len() == 1);
                }
            }
            if starts_with_at(&payload, 0, &['D', ';']) {
                assert(payload@.skip(0) == payload@);
                let code_chars = chars_from(&payload, 2);
                let (a, b) = trim_bounds(&code_chars);
                let exit_code = parse_i32_range(&code_chars, a, b);
                Some(ShellEvent::CommandEnd { exit_code })
            } else {
                assert(payload@.skip(0) == payload@);
                None
            }
        }
    }
}

impl Default for OscParser {
    fn default() -> (p: Self)
        ensures
            p@ == (OscView { state: OscParseState::Normal, buffer: seq![], data: seq![] }),
    {
        Self::new()
    }
}

// ---------------------------------------------------------------------------
// Shell integration state
// ---------------------------------------------------------------------------

/// The state of a [`ShellIntegration`].
pub struct ShellIntegrationView {
    pub current_zone: SemanticZone,
    pub prompt_line: Option<usize>,
    pub command_start_line: Option<usize>,
    pub output_start_line: Option<usize>,
    pub history: Seq<CommandRecord>,
}

/// The state after one shell event seen at `line`.
pub open spec fn apply_shell_event(
    s: ShellIntegrationView,
    e: ShellEventView,
    line: usize,
) -> ShellIntegrationView {
    match e {
        ShellEventView::PromptStart => ShellIntegrationView {
            current_zone: SemanticZone::Prompt,
            prompt_line: Some(line),
            command_start_line: None,
            output_start_line: None,
            history: s.history,
        },
        ShellEventView::CommandStart => ShellIntegrationView {
            current_zone: SemanticZone::Command,
            command_start_line: Some(line),
            ..s
        },
        ShellEventView::OutputStart => ShellIntegrationView {
            current_zone: SemanticZone::Output,
            output_start_line: Some(line),
            ..s
        },
        ShellEventView::CommandEnd { exit_code } => ShellIntegrationView {
            current_zone: SemanticZone::NoZone,
            prompt_line: None,
            command_start_line: None,
            output_start_line: None,
            history: match (s.prompt_line, s.command_start_line, s.output_start_line) {
                (Some(p), Some(c), Some(o)) => s.history.push(
                    CommandRecord {
                        prompt_line: p,
                        command_line: c,
                        output_start_line: o,
                        output_end_line: line,
                        exit_code,
                    },
                ),
                _ => s.history,
            },
        },
        ShellEventView::Data(_) => s,
    }
}

/// Tracks shell integration state by processing `ShellEvent`s.
pub struct ShellIntegration {
    current_zone: SemanticZone,
    prompt_line: Option<usize>,
    command_start_line: Option<usize>,
    output_start_line: Option<usize>,
    history: Vec<CommandRecord>,
}

impl View for ShellIntegration {
    type V = ShellIntegrationView;

    closed spec fn view(&self) -> ShellIntegrationView {
        ShellIntegrationView {
            current_zone: self.current_zone,
            prompt_line: self.prompt_line,
            command_start_line: self.command_start_line,
            output_start_line: self.output_start_line,
            history: self.history@,
        }
    }
}

impl ShellIntegration {
    /// Create a new instance with no active zone.
    pub fn new() -> (si: Self)
        ensures
            si@ == (ShellIntegrationView {
                current_zone: SemanticZone::NoZone,
                prompt_line: None,
                command_start_line: None,
                output_start_line: None,
                history: seq![],
            }),
    {
        Self {
            current_zone: SemanticZone::NoZone,
            prompt_line: None,
            command_start_line: None,
            output_start_line: None,
            history: Vec::new(),
        }
    }

    /// Update internal state based on a shell event.
    pub fn handle_event(&mut self, event: &ShellEvent, current_line: usize)
        ensures
            final(self)@ == apply_shell_event(old(self)@, event@, current_line),
    {
        match event {
            ShellEvent::PromptStart => {
                self.current_zone = SemanticZone::Prompt;
                self.prompt_line = Some(current_line);
                self.command_start_line = None;
                self.output_start_line = None;
            },
            ShellEvent::CommandStart => {
                self.current_zone = SemanticZone::Command;
                self.command_start_line = Some(current_line);
            },
            ShellEvent::OutputStart => {
                self.current_zone = SemanticZone::Output;
                self.output_start_line = Some(current_line);
            },
            ShellEvent::CommandEnd { exit_code } => {
                if let (Some(prompt_line), Some(command_line), Some(output_start)) = (
                    self.prompt_line,
                    self.command_start_line,
                    self.output_start_line,
                ) {
                    self.history.push(
                        CommandRecord {
                            prompt_line,
                            command_line,
                            output_start_line: output_start,
                            output_end_line: current_line,
                            exit_code: *exit_code,
                        },
                    );
                }
                self.current_zone = SemanticZone::NoZone;
                self.prompt_line = None;
                self.command_start_line = None;
                self.output_start_line = None;
            },
            ShellEvent::Data(_) => {
                // Data events don't change zone state.
            },
        }
    }

    /// The current semantic zone.
    pub fn current_zone(&self) -> (z: &SemanticZone)
        ensures
            *z == self@.current_zone,
    {
        &self.current_zone
    }

    /// All completed command records.
    pub fn history(&self) -> (h: &[CommandRecord])
        ensures
            h@ == self@.history,
    {
        self.history.as_slice()
    }

    /// The most recently completed command, if any.
    pub fn last_command(&self) -> (r: Option<&CommandRecord>)
        ensures
            r matches Some(c) ==> self@.history.len() > 0 && *c == self@.history.last(),
            r is None ==> self@.history.len() == 0,
    {
        if self.history.len() > 0 {
            Some(&self.history[self.history.len() - 1])
        } else {
            None
        }
    }

    /// Return the prompt line of the command record before the most recent one
    /// that has a prompt_line less than the current prompt_line (or output_end_line
    /// if no current prompt). Useful for "jump to previous prompt" navigation.
    pub fn navigate_to_prev_prompt(&self) -> (r: Option<usize>)
        ensures
            r == (if self@.history.len() < 2 {
                None
            } else {
                Some(self@.history[self@.history.len() - 2].prompt_line)
            }),
    {
        if self.history.len() < 2 {
            return None;
        }
        // The last entry in history is the most recent completed command.
        // The second-to-last is the "previous" one.
        let idx = self.history.len() - 2;
        Some(self.history[idx].prompt_line)
    }

    /// Return the prompt line of the next prompt after the oldest completed
    /// command. If we only have one command in history and a current prompt
    /// is active, return that prompt line.
    pub fn navigate_to_next_prompt(&self) -> (r: Option<usize>)
        ensures
            r == (if self@.history.len() >= 2 {
                Some(self@.history[1].prompt_line)
            } else if self@.current_zone == SemanticZone::Prompt || self@.current_zone
                == SemanticZone::Command {
                self@.prompt_line
            } else {
                None
            }),
    {
        if self.history.len() >= 2 {
            // The prompt that followed the oldest completed command.
            return Some(self.history[1].prompt_line);
        }
        // If there is a current prompt active, navigate to it.
        if self.current_zone == SemanticZone::Prompt || self.current_zone == SemanticZone::Command {
            return self.prompt_line;
        }
        None
    }
}

impl Default for ShellIntegration {
    fn default() -> (si: Self)
        ensures
            si@ == (ShellIntegrationView {
                current_zone: SemanticZone::NoZone,
                prompt_line: None,
                command_start_line: None,
                output_start_line: None,
                history: seq![],
            }),
    {
        Self::new()
    }
}

// ---------------------------------------------------------------------------
// Laws of shell integration
// ---------------------------------------------------------------------------

/// A full prompt / command / output / end cycle records exactly one command,
/// with the lines at which each mark was seen and the exit code, and leaves
/// no zone active.
pub proof fn lemma_command_cycle_recorded(
    s: ShellIntegrationView,
    prompt: usize,
    command: usize,
    output: usize,
    end: usize,
    exit_code: Option<i32>,
)
    ensures
        ({
            let s1 = apply_shell_event(s, ShellEventView::PromptStart, prompt);
            let s2 = apply_shell_event(s1, ShellEventView::CommandStart, command);
            let s3 = apply_shell_event(s2, ShellEventView::OutputStart, output);
            let s4 = apply_shell_event(s3, ShellEventView::CommandEnd { exit_code }, end);
            &&& s4.history == s.history.push(
                CommandRecord {
                    prompt_line: prompt,
                    command_line: command,
                    output_start_line: output,
                    output_end_line: end,
                    exit_code,
                },
            )
            &&& s4.current_zone == SemanticZone::NoZone
            &&& s4.prompt_line is None
            &&& s4.command_start_line is None
            &&& s4.output_start_line is None
        }),
{
}

/// A command end that does not close a full prompt / command / output cycle
/// records nothing, and every command end leaves no zone active.
pub proof fn lemma_incomplete_cycle_not_recorded(
    s: ShellIntegrationView,
    end: usize,
    exit_code: Option<i32>,
)
    requires
        s.prompt_line is None || s.command_start_line is None || s.output_start_line is None,
    ensures
        apply_shell_event(s, ShellEventView::CommandEnd { exit_code }, end).history == s.history,
        apply_shell_event(s, ShellEventView::CommandEnd { exit_code }, end).current_zone
            == SemanticZone::NoZone,
{
}

/// Passthrough data never changes the shell integration state.
pub proof fn lemma_data_leaves_state(s: ShellIntegrationView, d: Seq<u8>, line: usize)
    ensures
        apply_shell_event(s, ShellEventView::Data(d), line) == s,
{
}

/// Completed commands are only ever added: every event keeps the history
/// recorded so far as a prefix.
pub proof fn lemma_history_only_grows(s: ShellIntegrationView, e: ShellEventView, line: usize)
    ensures
        apply_shell_event(s, e, line).history.len() >= s.history.len(),
        apply_shell_event(s, e, line).history.take(s.history.len() as int) == s.history,
{
    let h = apply_shell_event(s, e, line).history;
    assert(h.take(s.history.len() as int) =~= s.history);
}

/// The state after handling each event of `es`, with its line, in order.
pub open spec fn handle_all(s: ShellIntegrationView, es: Seq<(ShellEventView, usize)>) -> ShellIntegrationView
    decreases es.len(),
{
    if es.len() == 0 {
        s
    } else {
        apply_shell_event(handle_all(s, es.drop_last()), es.last().0, es.last().1)
    }
}

/// The line of the latest prompt start among `es` since the latest command
/// end, or the one `s` remembers when `es` holds neither.
pub open spec fn latest_prompt(s: ShellIntegrationView, es: Seq<(ShellEventView, usize)>) -> Option<usize>
    decreases es.len(),
{
    if es.len() == 0 {
        s.prompt_line
    } else {
        match es.last().0 {
            ShellEventView::PromptStart => Some(es.last().1),
            ShellEventView::CommandEnd { .. } => None,
            _ => latest_prompt(s, es.drop_last()),
        }
    }
}

/// The line of the latest command start among `es` since the latest prompt
/// start or command end, or the one `s` remembers when `es` holds none.
pub open spec fn latest_command(s: ShellIntegrationView, es: Seq<(ShellEventView, usize)>) -> Option<usize>
    decreases es.len(),
{
    if es.len() == 0 {
        s.command_start_line
    } else {
        match es.last().0 {
            ShellEventView::CommandStart => Some(es.last().1),
            ShellEventView::PromptStart => None,
            ShellEventView::CommandEnd { .. } => None,
            _ => latest_command(s, es.drop_last()),
        }
    }
}

/// The line of the latest output start among `es` since the latest prompt
/// start or command end, or the one `s` remembers when `es` holds none.
pub open spec fn latest_output(s: ShellIntegrationView, es: Seq<(ShellEventView, usize)>) -> Option<usize>
    decreases es.len(),
{
    if es.len() == 0 {
        s.output_start_line
    } else {
        match es.last().0 {
            ShellEventView::OutputStart => Some(es.last().1),
            ShellEventView::PromptStart => None,
            ShellEventView::CommandEnd { .. } => None,
            _ => latest_output(s, es.drop_last()),
        }
    }
}

/// After any events from any state, the remembered lines are those of the
/// latest marks that no later event has reset (from a new tracker: of the
/// events themselves).
pub proof fn lemma_marks_after_events(s: ShellIntegrationView, es: Seq<(ShellEventView, usize)>)
    ensures
        handle_all(s, es).prompt_line == latest_prompt(s, es),
        handle_all(s, es).command_start_line == latest_command(s, es),
        handle_all(s, es).output_start_line == latest_output(s, es),
    decreases es.len(),
{
    if es.len() > 0 {
        lemma_marks_after_events(s, es.drop_last());
    }
}

/// How the history grows: from any state `s`, after any events `es`, one
/// more event keeps the history so far as a prefix and adds at most one
/// record. It adds one exactly when the event is a command end and, since
/// the latest command end, a prompt start was seen and, after the latest
/// prompt start, a command start and an output start (marks from before
/// `es` count as `s` remembers them; from a new tracker there are none);
/// the record holds the lines of those latest marks, the command end's line
/// and its exit code.
pub proof fn lemma_history_growth(
    s: ShellIntegrationView,
    es: Seq<(ShellEventView, usize)>,
    e: ShellEventView,
    line: usize,
)
    ensures
        ({
            let h0 = handle_all(s, es).history;
            let h1 = apply_shell_event(handle_all(s, es), e, line).history;
            &&& h1.take(h0.len() as int) == h0
            &&& h1.len() <= h0.len() + 1
            &&& (h1.len() == h0.len() + 1 <==> (e is CommandEnd && latest_prompt(s, es) is Some
                && latest_command(s, es) is Some && latest_output(s, es) is Some))
            &&& (h1.len() == h0.len() + 1 ==> h1.last() == CommandRecord {
                prompt_line: latest_prompt(s, es).unwrap(),
                command_line: latest_command(s, es).unwrap(),
                output_start_line: latest_output(s, es).unwrap(),
                output_end_line: line,
                exit_code: e->exit_code,
            })
        }),
{
    lemma_marks_after_events(s, es);
    lemma_history_only_grows(handle_all(s, es), e, line);
}

} // verus!
