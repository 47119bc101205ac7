use iterm2_rs::render::grid::StyledCell;
use iterm2_rs::render::spans::{styled_spans, TextSpan};

fn cell(c: char, fg: (u8, u8, u8), bold: bool) -> StyledCell {
    StyledCell { c, fg, bold, italic: false, underline: false, strikethrough: false }
}

fn span(text: &str, color: (u8, u8, u8), bold: bool) -> TextSpan {
    TextSpan { text: text.to_string(), color, bold, italic: false }
}

const RED: (u8, u8, u8) = (200, 0, 0);
const BLUE: (u8, u8, u8) = (0, 0, 200);
const DEFAULT: (u8, u8, u8) = (9, 9, 9);

#[test]
fn runs_merge_blanks_trim_and_rows_split() {
    let rows = vec![
        vec![
            cell('a', RED, false),
            cell('b', RED, false),
            cell('c', BLUE, true),
            cell(' ', RED, false),
            cell(' ', RED, false),
        ],
        vec![],
        vec![cell(' ', RED, false), cell(' ', BLUE, false)],
        vec![cell('x', DEFAULT, false)],
    ];
    let spans = styled_spans(&rows, DEFAULT);
    assert_eq!(
        spans,
        vec![
            span("ab", RED, false),
            span("c", BLUE, true),
            span("\n", DEFAULT, false),
            span("\n", DEFAULT, false),
            span("\n", DEFAULT, false),
            span("x", DEFAULT, false),
        ]
    );
}

#[test]
fn inner_blanks_stay_and_style_changes_split_runs() {
    let rows = vec![vec![
        cell('a', RED, false),
        cell(' ', RED, false),
        cell('b', RED, false),
        cell('b', RED, true),
        cell('c', RED, true),
    ]];
    let spans = styled_spans(&rows, DEFAULT);
    assert_eq!(spans, vec![span("a b", RED, false), span("bc", RED, true)]);
}

#[test]
fn no_rows_give_no_spans() {
    let rows: Vec<Vec<StyledCell>> = Vec::new();
    assert!(styled_spans(&rows, DEFAULT).is_empty());
}
