use iterm2_rs::terminal::shell_integration::{OscParser, SemanticZone, ShellEvent, ShellIntegration};

// ---------------------------------------------------------------
// OscParser tests
// ---------------------------------------------------------------

#[test]
fn parse_prompt_start() {
    let mut parser = OscParser::new();
    let events = parser.feed(b"\x1b]133;A\x07");
    assert_eq!(events, vec![ShellEvent::PromptStart]);
}

#[test]
fn parse_command_start() {
    let mut parser = OscParser::new();
    let events = parser.feed(b"\x1b]133;B\x07");
    assert_eq!(events, vec![ShellEvent::CommandStart]);
}

#[test]
fn parse_output_start() {
    let mut parser = OscParser::new();
    let events = parser.feed(b"\x1b]133;C\x07");
    assert_eq!(events, vec![ShellEvent::OutputStart]);
}

#[test]
fn parse_command_end_with_exit_code() {
    let mut parser = OscParser::new();
    let events = parser.feed(b"\x1b]133;D;0\x07");
    assert_eq!(
        events,
        vec![ShellEvent::CommandEnd {
            exit_code: Some(0)
        }]
    );
}

#[test]
fn parse_command_end_without_exit_code() {
    let mut parser = OscParser::new();
    let events = parser.feed(b"\x1b]133;D\x07");
    assert_eq!(
        events,
        vec![ShellEvent::CommandEnd { exit_code: None }]
    );
}

#[test]
fn parse_command_end_nonzero_exit_code() {
    let mut parser = OscParser::new();
    let events = parser.feed(b"\x1b]133;D;127\x07");
    assert_eq!(
        events,
        vec![ShellEvent::CommandEnd {
            exit_code: Some(127)
        }]
    );
}

#[test]
fn parse_st_terminator() {
    let mut parser = OscParser::new();
    let events = parser.feed(b"\x1b]133;A\x1b\\");
    assert_eq!(events, vec![ShellEvent::PromptStart]);
}

#[test]
fn non_osc_data_passthrough() {
    let mut parser = OscParser::new();
    let events = parser.feed(b"hello world");
    assert_eq!(events, vec![ShellEvent::Data(b"hello world".to_vec())]);
}

#[test]
fn data_before_and_after_osc() {
    let mut parser = OscParser::new();
    let events = parser.feed(b"before\x1b]133;A\x07after");
    assert_eq!(
        events,
        vec![
            ShellEvent::Data(b"before".to_vec()),
            ShellEvent::PromptStart,
            ShellEvent::Data(b"after".to_vec()),
        ]
    );
}

#[test]
fn split_across_feeds() {
    let mut parser = OscParser::new();

    // Split the sequence "\x1b]133;A\x07" across three feed calls.
    let e1 = parser.feed(b"\x1b");
    assert_eq!(e1, vec![]);

    let e2 = parser.feed(b"]133;");
    assert_eq!(e2, vec![]);

    let e3 = parser.feed(b"A\x07");
    assert_eq!(e3, vec![ShellEvent::PromptStart]);
}

#[test]
fn split_across_feeds_mid_body() {
    let mut parser = OscParser::new();

    let e1 = parser.feed(b"\x1b]133");
    assert_eq!(e1, vec![]);

    let e2 = parser.feed(b";D;42\x07");
    assert_eq!(
        e2,
        vec![ShellEvent::CommandEnd {
            exit_code: Some(42)
        }]
    );
}

#[test]
fn split_st_terminator_across_feeds() {
    let mut parser = OscParser::new();

    let e1 = parser.feed(b"\x1b]133;B\x1b");
    assert_eq!(e1, vec![]);

    let e2 = parser.feed(b"\\");
    assert_eq!(e2, vec![ShellEvent::CommandStart]);
}

#[test]
fn non_133_osc_ignored() {
    let mut parser = OscParser::new();
    // OSC 0 (set window title) should not produce a ShellEvent variant.
    let events = parser.feed(b"\x1b]0;My Title\x07");
    assert_eq!(events, vec![]);
}

#[test]
fn full_sequence_a_b_c_d() {
    let mut parser = OscParser::new();
    let input = b"\x1b]133;A\x07$ \x1b]133;B\x07ls\n\x1b]133;C\x07file1 file2\n\x1b]133;D;0\x07";
    let events = parser.feed(input);
    assert_eq!(
        events,
        vec![
            ShellEvent::PromptStart,
            ShellEvent::Data(b"$ ".to_vec()),
            ShellEvent::CommandStart,
            ShellEvent::Data(b"ls\n".to_vec()),
            ShellEvent::OutputStart,
            ShellEvent::Data(b"file1 file2\n".to_vec()),
            ShellEvent::CommandEnd {
                exit_code: Some(0)
            },
        ]
    );
}

#[test]
fn incomplete_sequence_no_spurious_events() {
    let mut parser = OscParser::new();
    // Feed an incomplete OSC -- no terminator.
    let events = parser.feed(b"\x1b]133;A");
    // Should produce no events (data is buffered in the OSC body).
    assert_eq!(events, vec![]);
}

#[test]
fn bare_esc_not_followed_by_bracket() {
    let mut parser = OscParser::new();
    // ESC followed by a normal character (e.g., ESC [ for CSI).
    let events = parser.feed(b"\x1b[31mred\x1b[0m");
    // All bytes should pass through as data.
    assert_eq!(
        events,
        vec![ShellEvent::Data(b"\x1b[31mred\x1b[0m".to_vec())]
    );
}

#[test]
fn consecutive_esc_bytes() {
    let mut parser = OscParser::new();
    let events = parser.feed(b"\x1b\x1b]133;A\x07");
    // First ESC is not followed by ], so emitted as data.
    // Second ESC ] starts the OSC.
    assert_eq!(
        events,
        vec![
            ShellEvent::Data(vec![0x1B]),
            ShellEvent::PromptStart,
        ]
    );
}

// ---------------------------------------------------------------
// ShellIntegration tests
// ---------------------------------------------------------------

#[test]
fn initial_zone_is_none() {
    let si = ShellIntegration::new();
    assert_eq!(*si.current_zone(), SemanticZone::NoZone);
    assert!(si.history().is_empty());
    assert!(si.last_command().is_none());
}

#[test]
fn zone_transitions() {
    let mut si = ShellIntegration::new();

    si.handle_event(&ShellEvent::PromptStart, 0);
    assert_eq!(*si.current_zone(), SemanticZone::Prompt);

    si.handle_event(&ShellEvent::CommandStart, 0);
    assert_eq!(*si.current_zone(), SemanticZone::Command);

    si.handle_event(&ShellEvent::OutputStart, 1);
    assert_eq!(*si.current_zone(), SemanticZone::Output);

    si.handle_event(
        &ShellEvent::CommandEnd {
            exit_code: Some(0),
        },
        5,
    );
    assert_eq!(*si.current_zone(), SemanticZone::NoZone);
}

#[test]
fn history_records_command() {
    let mut si = ShellIntegration::new();

    si.handle_event(&ShellEvent::PromptStart, 10);
    si.handle_event(&ShellEvent::CommandStart, 10);
    si.handle_event(&ShellEvent::OutputStart, 11);
    si.handle_event(
        &ShellEvent::CommandEnd {
            exit_code: Some(0),
        },
        20,
    );

    assert_eq!(si.history().len(), 1);
    let rec = &si.history()[0];
    assert_eq!(rec.prompt_line, 10);
    assert_eq!(rec.command_line, 10);
    assert_eq!(rec.output_start_line, 11);
    assert_eq!(rec.output_end_line, 20);
    assert_eq!(rec.exit_code, Some(0));
}

#[test]
fn last_command_returns_most_recent() {
    let mut si = ShellIntegration::new();

    // First command.
    si.handle_event(&ShellEvent::PromptStart, 0);
    si.handle_event(&ShellEvent::CommandStart, 0);
    si.handle_event(&ShellEvent::OutputStart, 1);
    si.handle_event(
        &ShellEvent::CommandEnd {
            exit_code: Some(0),
        },
        5,
    );

    // Second command.
    si.handle_event(&ShellEvent::PromptStart, 6);
    si.handle_event(&ShellEvent::CommandStart, 6);
    si.handle_event(&ShellEvent::OutputStart, 7);
    si.handle_event(
        &ShellEvent::CommandEnd {
            exit_code: Some(1),
        },
        10,
    );

    let last = si.last_command().unwrap();
    assert_eq!(last.exit_code, Some(1));
    assert_eq!(last.prompt_line, 6);
}

#[test]
fn navigate_prev_prompt() {
    let mut si = ShellIntegration::new();

    // Command 1 at line 0.
    si.handle_event(&ShellEvent::PromptStart, 0);
    si.handle_event(&ShellEvent::CommandStart, 0);
    si.handle_event(&ShellEvent::OutputStart, 1);
    si.handle_event(&ShellEvent::CommandEnd { exit_code: Some(0) }, 5);

    // Command 2 at line 6.
    si.handle_event(&ShellEvent::PromptStart, 6);
    si.handle_event(&ShellEvent::CommandStart, 6);
    si.handle_event(&ShellEvent::OutputStart, 7);
    si.handle_event(&ShellEvent::CommandEnd { exit_code: Some(0) }, 10);

    // Previous prompt should be command 1's prompt line.
    assert_eq!(si.navigate_to_prev_prompt(), Some(0));
}

#[test]
fn navigate_prev_prompt_not_enough_history() {
    let mut si = ShellIntegration::new();

    // Only one command.
    si.handle_event(&ShellEvent::PromptStart, 0);
    si.handle_event(&ShellEvent::CommandStart, 0);
    si.handle_event(&ShellEvent::OutputStart, 1);
    si.handle_event(&ShellEvent::CommandEnd { exit_code: Some(0) }, 5);

    assert_eq!(si.navigate_to_prev_prompt(), None);
}

#[test]
fn navigate_next_prompt() {
    let mut si = ShellIntegration::new();

    // Command 1.
    si.handle_event(&ShellEvent::PromptStart, 0);
    si.handle_event(&ShellEvent::CommandStart, 0);
    si.handle_event(&ShellEvent::OutputStart, 1);
    si.handle_event(&ShellEvent::CommandEnd { exit_code: Some(0) }, 5);

    // Command 2.
    si.handle_event(&ShellEvent::PromptStart, 6);
    si.handle_event(&ShellEvent::CommandStart, 6);
    si.handle_event(&ShellEvent::OutputStart, 7);
    si.handle_event(&ShellEvent::CommandEnd { exit_code: Some(0) }, 10);

    assert_eq!(si.navigate_to_next_prompt(), Some(6));
}

#[test]
fn navigate_next_prompt_to_active() {
    let mut si = ShellIntegration::new();

    // One completed command.
    si.handle_event(&ShellEvent::PromptStart, 0);
    si.handle_event(&ShellEvent::CommandStart, 0);
    si.handle_event(&ShellEvent::OutputStart, 1);
    si.handle_event(&ShellEvent::CommandEnd { exit_code: Some(0) }, 5);

    // New prompt is active but not yet completed.
    si.handle_event(&ShellEvent::PromptStart, 6);

    assert_eq!(si.navigate_to_next_prompt(), Some(6));
}

#[test]
fn data_events_do_not_change_zone() {
    let mut si = ShellIntegration::new();

    si.handle_event(&ShellEvent::PromptStart, 0);
    assert_eq!(*si.current_zone(), SemanticZone::Prompt);

    si.handle_event(&ShellEvent::Data(b"$ ".to_vec()), 0);
    assert_eq!(*si.current_zone(), SemanticZone::Prompt);
}

#[test]
fn command_end_without_full_sequence_does_not_record() {
    let mut si = ShellIntegration::new();

    // D without prior A/B/C should not create a record.
    si.handle_event(&ShellEvent::CommandEnd { exit_code: Some(0) }, 5);
    assert!(si.history().is_empty());
}

#[test]
fn integration_parser_and_state() {
    let mut parser = OscParser::new();
    let mut si = ShellIntegration::new();
    let mut line = 0usize;

    let input = b"\x1b]133;A\x07$ \x1b]133;B\x07ls\n\x1b]133;C\x07file1\nfile2\n\x1b]133;D;0\x07";
    let events = parser.feed(input);

    for event in &events {
        si.handle_event(event, line);
        // Advance line on newlines in data.
        if let ShellEvent::Data(data) = event {
            line += data.iter().filter(|&&b| b == b'\n').count();
        }
    }

    assert_eq!(si.history().len(), 1);
    let rec = si.last_command().unwrap();
    assert_eq!(rec.exit_code, Some(0));
    assert_eq!(*si.current_zone(), SemanticZone::NoZone);
}

#[test]
fn byte_by_byte_feeding_keeps_events_and_data() {
    let data: &[u8] = b"ab\x1b]133;A\x07$ \x1b]133;D;2\x1b\\cd\x1bx";
    let mut whole = OscParser::new();
    let all = whole.feed(data);
    let mut split = OscParser::new();
    let mut pieces = Vec::new();
    for b in data {
        pieces.extend(split.feed(&[*b]));
    }
    let marks = |evs: &[ShellEvent]| -> Vec<ShellEvent> {
        evs.iter().filter(|e| !matches!(e, ShellEvent::Data(_))).cloned().collect()
    };
    let bytes = |evs: &[ShellEvent]| -> Vec<u8> {
        evs.iter()
            .flat_map(|e| match e {
                ShellEvent::Data(d) => d.clone(),
                _ => Vec::new(),
            })
            .collect()
    };
    assert_eq!(marks(&all), marks(&pieces));
    assert_eq!(bytes(&all), bytes(&pieces));
    assert_eq!(bytes(&all), b"ab$ cd\x1bx".to_vec());
    assert_eq!(
        marks(&all),
        vec![ShellEvent::PromptStart, ShellEvent::CommandEnd { exit_code: Some(2) }]
    );
}

#[test]
fn navigate_next_prompt_goes_to_the_prompt_after_the_oldest_command() {
    let mut si = ShellIntegration::new();
    for (p, o, e) in [(0usize, 1usize, 5usize), (6, 7, 11), (12, 13, 17)] {
        si.handle_event(&ShellEvent::PromptStart, p);
        si.handle_event(&ShellEvent::CommandStart, p);
        si.handle_event(&ShellEvent::OutputStart, o);
        si.handle_event(&ShellEvent::CommandEnd { exit_code: Some(0) }, e);
    }
    assert_eq!(si.navigate_to_next_prompt(), Some(6));
}

/// Joins each run of adjacent data events into one.
fn merged(events: Vec<ShellEvent>) -> Vec<ShellEvent> {
    let mut out: Vec<ShellEvent> = Vec::new();
    for e in events {
        match (out.last_mut(), e) {
            (Some(ShellEvent::Data(d0)), ShellEvent::Data(d)) => d0.extend_from_slice(&d),
            (_, e) => out.push(e),
        }
    }
    out
}

#[test]
fn data_split_across_feeds_falls_between_the_same_events() {
    let stream: &[u8] = b"ab\x1b]0;title\x07cd\x1b]133;A\x07ef\x1b\x1bg";
    for cut in 0..=stream.len() {
        let mut whole = OscParser::new();
        let all = whole.feed(stream);
        let mut split = OscParser::new();
        let mut parts = split.feed(&stream[..cut]);
        parts.extend(split.feed(&stream[cut..]));
        assert_eq!(merged(parts), merged(all), "cut at {cut}");
    }
}

#[test]
fn an_unrecognized_osc_sequence_is_dropped() {
    let mut parser = OscParser::new();
    let events = parser.feed(b"x\x1b]0;My Title\x07y");
    assert_eq!(
        events,
        vec![ShellEvent::Data(b"x".to_vec()), ShellEvent::Data(b"y".to_vec())]
    );
}
