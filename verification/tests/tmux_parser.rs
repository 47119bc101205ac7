use iterm2_rs::tmux::events::TmuxEvent;
use iterm2_rs::tmux::parser::{unescape_output, TmuxParser};
#[test]
fn test_parse_window_add() {
    let mut parser = TmuxParser::new();
    let events = parser.feed(b"%window-add @0\n");
    assert_eq!(events.len(), 1);
    assert_eq!(events[0], TmuxEvent::WindowAdd { window_id: 0 });

    let events = parser.feed(b"%window-add @42\n");
    assert_eq!(events.len(), 1);
    assert_eq!(events[0], TmuxEvent::WindowAdd { window_id: 42 });
}

#[test]
fn test_parse_window_close() {
    let mut parser = TmuxParser::new();
    let events = parser.feed(b"%window-close @3\n");
    assert_eq!(events.len(), 1);
    assert_eq!(events[0], TmuxEvent::WindowClose { window_id: 3 });
}

#[test]
fn test_parse_window_renamed() {
    let mut parser = TmuxParser::new();
    let events = parser.feed(b"%window-renamed @1 my-window\n");
    assert_eq!(events.len(), 1);
    assert_eq!(
        events[0],
        TmuxEvent::WindowRenamed {
            window_id: 1,
            name: "my-window".to_string(),
        }
    );
}

#[test]
fn test_parse_session_changed() {
    let mut parser = TmuxParser::new();
    let events = parser.feed(b"%session-changed $0 0\n");
    assert_eq!(events.len(), 1);
    assert_eq!(
        events[0],
        TmuxEvent::SessionChanged {
            session_id: 0,
            name: "0".to_string(),
        }
    );

    let events = parser.feed(b"%session-changed $5 my-session\n");
    assert_eq!(events.len(), 1);
    assert_eq!(
        events[0],
        TmuxEvent::SessionChanged {
            session_id: 5,
            name: "my-session".to_string(),
        }
    );
}

#[test]
fn test_parse_output() {
    let mut parser = TmuxParser::new();
    let events = parser.feed(b"%output %0 hello world\n");
    assert_eq!(events.len(), 1);
    match &events[0] {
        TmuxEvent::Output { pane_id, data } => {
            assert_eq!(*pane_id, 0);
            assert_eq!(data, b"hello world");
        }
        other => panic!("expected Output, got {:?}", other),
    }
}

#[test]
fn test_parse_output_with_escapes() {
    let mut parser = TmuxParser::new();
    // Simulate %output with octal-escaped ESC (\033) and newline (\012).
    let events = parser.feed(b"%output %0 \\033[?2004h\\012\n");
    assert_eq!(events.len(), 1);
    match &events[0] {
        TmuxEvent::Output { pane_id, data } => {
            assert_eq!(*pane_id, 0);
            assert_eq!(data[0], 0x1b); // ESC
            assert_eq!(&data[1..7], b"[?2004");
            assert_eq!(data[7], b'h');
            assert_eq!(data[8], 0x0a); // newline
        }
        other => panic!("expected Output, got {:?}", other),
    }
}

#[test]
fn test_parse_response_block() {
    let mut parser = TmuxParser::new();
    let input = b"%begin 1771657050 270 1\n\
        0: bash* (1 panes) [80x24] [layout b25d,80x24,0,0,0] @0 (active)\n\
        %end 1771657050 270 1\n";
    let events = parser.feed(input);
    assert_eq!(events.len(), 1);
    match &events[0] {
        TmuxEvent::Response { guard, lines } => {
            assert_eq!(guard, "1771657050 270 1");
            assert_eq!(lines.len(), 1);
            assert!(lines[0].contains("bash*"));
        }
        other => panic!("expected Response, got {:?}", other),
    }
}

#[test]
fn test_parse_empty_response_block() {
    let mut parser = TmuxParser::new();
    let input = b"%begin 1771657050 264 0\n%end 1771657050 264 0\n";
    let events = parser.feed(input);
    assert_eq!(events.len(), 1);
    match &events[0] {
        TmuxEvent::Response { guard, lines } => {
            assert_eq!(guard, "1771657050 264 0");
            assert!(lines.is_empty());
        }
        other => panic!("expected Response, got {:?}", other),
    }
}

#[test]
fn test_partial_line_buffering() {
    let mut parser = TmuxParser::new();

    // Send partial line — no events yet.
    let events = parser.feed(b"%window-");
    assert!(events.is_empty());

    // Complete the line.
    let events = parser.feed(b"add @7\n");
    assert_eq!(events.len(), 1);
    assert_eq!(events[0], TmuxEvent::WindowAdd { window_id: 7 });
}

#[test]
fn test_partial_line_buffering_response() {
    let mut parser = TmuxParser::new();

    // Feed %begin in two chunks.
    let events = parser.feed(b"%begin 123");
    assert!(events.is_empty());
    let events = parser.feed(b" 456 0\nline one\n");
    assert!(events.is_empty()); // still in response

    // Feed %end in one chunk.
    let events = parser.feed(b"%end 123 456 0\n");
    assert_eq!(events.len(), 1);
    match &events[0] {
        TmuxEvent::Response { guard, lines } => {
            assert_eq!(guard, "123 456 0");
            assert_eq!(lines, &["line one"]);
        }
        other => panic!("expected Response, got {:?}", other),
    }
}

#[test]
fn test_unescape_output() {
    // Plain ASCII passes through.
    assert_eq!(unescape_output("hello"), b"hello");

    // Octal-escaped ESC.
    assert_eq!(unescape_output("\\033"), vec![0x1b]);

    // Octal-escaped backslash: \134 = 92 = '\\'.
    assert_eq!(unescape_output("\\134"), vec![b'\\']);

    // Mixed content.
    let result = unescape_output("A\\033[0mB");
    assert_eq!(result, vec![b'A', 0x1b, b'[', b'0', b'm', b'B']);

    // Backslash not followed by three digits passes through.
    assert_eq!(unescape_output("\\xy"), b"\\xy");
}

#[test]
fn test_control_mode_entry() {
    let mut parser = TmuxParser::new();
    let events = parser.feed(b"\x1bP1000p\n");
    assert_eq!(events.len(), 1);
    assert_eq!(events[0], TmuxEvent::ControlModeEntered);
}

#[test]
fn test_control_mode_entry_with_following_content() {
    let mut parser = TmuxParser::new();
    // DCS line followed by notifications.
    let events = parser.feed(
        b"\x1bP1000p\n%begin 1771657050 264 0\n%end 1771657050 264 0\n%window-add @0\n",
    );
    assert_eq!(events.len(), 3);
    assert_eq!(events[0], TmuxEvent::ControlModeEntered);
    match &events[1] {
        TmuxEvent::Response { guard, lines } => {
            assert_eq!(guard, "1771657050 264 0");
            assert!(lines.is_empty());
        }
        other => panic!("expected Response, got {:?}", other),
    }
    assert_eq!(events[2], TmuxEvent::WindowAdd { window_id: 0 });
}

#[test]
fn test_sessions_changed() {
    let mut parser = TmuxParser::new();
    let events = parser.feed(b"%sessions-changed\n");
    assert_eq!(events.len(), 1);
    assert_eq!(events[0], TmuxEvent::SessionsChanged);
}

#[test]
fn test_exit() {
    let mut parser = TmuxParser::new();
    let events = parser.feed(b"%exit\n");
    assert_eq!(events.len(), 1);
    assert_eq!(events[0], TmuxEvent::Exit);
}

#[test]
fn test_layout_change() {
    let mut parser = TmuxParser::new();
    let events = parser.feed(b"%layout-change @0 b25d,80x24,0,0,0\n");
    assert_eq!(events.len(), 1);
    assert_eq!(
        events[0],
        TmuxEvent::LayoutChange {
            window_id: 0,
            layout: "b25d,80x24,0,0,0".to_string(),
        }
    );
}

#[test]
fn test_multiple_events_in_one_feed() {
    let mut parser = TmuxParser::new();
    let events = parser.feed(b"%window-add @0\n%sessions-changed\n%session-changed $0 0\n");
    assert_eq!(events.len(), 3);
    assert_eq!(events[0], TmuxEvent::WindowAdd { window_id: 0 });
    assert_eq!(events[1], TmuxEvent::SessionsChanged);
    assert_eq!(
        events[2],
        TmuxEvent::SessionChanged {
            session_id: 0,
            name: "0".to_string(),
        }
    );
}

/// Test with realistic protocol output from the spike test.
#[test]
fn test_full_spike_output() {
    let mut parser = TmuxParser::new();

    let input = b"\x1bP1000p\n\
        %begin 1771657050 264 0\n\
        %end 1771657050 264 0\n\
        %window-add @0\n\
        %sessions-changed\n\
        %session-changed $0 0\n\
        %begin 1771657050 270 1\n\
        0: bash* (1 panes) [80x24] [layout b25d,80x24,0,0,0] @0 (active)\n\
        %end 1771657050 270 1\n\
        %output %0 \\033[?2004h\\033[01;32mfranc@Bahnhof\\033[00m:\\033[01;34m/mnt/c/Users/franc\\033[00m$\n";

    let events = parser.feed(input);
    assert_eq!(events.len(), 7);

    assert_eq!(events[0], TmuxEvent::ControlModeEntered);

    // Empty response block.
    match &events[1] {
        TmuxEvent::Response { guard, lines } => {
            assert_eq!(guard, "1771657050 264 0");
            assert!(lines.is_empty());
        }
        other => panic!("expected Response, got {:?}", other),
    }

    assert_eq!(events[2], TmuxEvent::WindowAdd { window_id: 0 });
    assert_eq!(events[3], TmuxEvent::SessionsChanged);
    assert_eq!(
        events[4],
        TmuxEvent::SessionChanged {
            session_id: 0,
            name: "0".to_string(),
        }
    );

    // Response with one line of session listing.
    match &events[5] {
        TmuxEvent::Response { guard, lines } => {
            assert_eq!(guard, "1771657050 270 1");
            assert_eq!(lines.len(), 1);
            assert!(lines[0].starts_with("0: bash*"));
        }
        other => panic!("expected Response, got {:?}", other),
    }

    // Output event with unescaped data.
    match &events[6] {
        TmuxEvent::Output { pane_id, data } => {
            assert_eq!(*pane_id, 0);
            // Should start with ESC[?2004h
            assert_eq!(data[0], 0x1b);
            assert_eq!(&data[1..8], b"[?2004h");
        }
        other => panic!("expected Output, got {:?}", other),
    }
}

#[test]
fn byte_by_byte_feeding_matches_one_feed() {
    let data: &[u8] = b"\x1bP1000p%begin 1 2 1\r\nline\r\n%end 1 2 1\r\n%output %3 h\\012i\n%window-add @7\n%exit\n";
    let mut whole = TmuxParser::new();
    let all = whole.feed(data);
    let mut split = TmuxParser::new();
    let mut pieces = Vec::new();
    for b in data {
        pieces.extend(split.feed(&[*b]));
    }
    assert_eq!(all, pieces);
    assert_eq!(all.len(), 5);
    assert_eq!(all[2], TmuxEvent::Output { pane_id: 3, data: b"h\ni".to_vec() });
}

#[test]
fn malformed_notifications_yield_nothing() {
    let mut parser = TmuxParser::new();
    let events = parser.feed(b"%window-add 7\n%output %x data\n%layout-change @1\n%unknown\n");
    assert!(events.is_empty());
}

#[test]
fn escapes_above_a_byte_pass_through() {
    assert_eq!(unescape_output("\\400\\101\\"), b"\\400A\\".to_vec());
}

#[test]
fn invalid_utf8_becomes_replacement_characters() {
    let mut parser = TmuxParser::new();
    let events = parser.feed(b"%window-renamed @4 a\xffb\n");
    assert_eq!(
        events,
        vec![TmuxEvent::WindowRenamed { window_id: 4, name: "a\u{FFFD}b".to_string() }]
    );
}

#[test]
fn non_octal_digits_after_a_backslash_pass_through() {
    assert_eq!(unescape_output("\\089"), b"\\089".to_vec());
    assert_eq!(unescape_output("\\18x\\101"), b"\\18xA".to_vec());
}

#[test]
fn a_character_split_across_feeds_is_kept_whole() {
    let mut parser = TmuxParser::new();
    let first = parser.feed(b"%window-renamed @2 caf\xc3");
    assert!(first.is_empty());
    let second = parser.feed(b"\xa9\n");
    assert_eq!(
        second,
        vec![TmuxEvent::WindowRenamed { window_id: 2, name: "café".to_string() }]
    );
}
