use alacritty_terminal::event::{Event, EventListener};
use alacritty_terminal::grid::Dimensions;
use alacritty_terminal::index::{Column, Line};
use alacritty_terminal::term::Config;
use alacritty_terminal::vte::ansi::Processor;
use alacritty_terminal::Term;
use iterm2_rs::terminal::search::{GridText, SearchMatch, SearchState};

/// Minimal event listener used for testing.
#[derive(Clone, Debug)]
struct TestEventProxy;

impl EventListener for TestEventProxy {
    fn send_event(&self, _event: Event) {}
}

struct TestSize {
    cols: usize,
    rows: usize,
}

impl Dimensions for TestSize {
    fn total_lines(&self) -> usize {
        self.rows
    }
    fn screen_lines(&self) -> usize {
        self.rows
    }
    fn columns(&self) -> usize {
        self.cols
    }
}

/// Helper: create a term, feed it some bytes, and read its grid the way
/// search reads it.
fn make_term(cols: u16, rows: u16, input: &[u8]) -> GridText {
    let size = TestSize { cols: cols as usize, rows: rows as usize };
    let config = Config::default();
    let mut term = Term::new(config, &size, TestEventProxy);
    let mut proc: Processor = Processor::new();
    proc.advance(&mut term, input);
    let grid = term.grid();
    let mut lines = Vec::new();
    let mut line = grid.topmost_line().0;
    while line <= grid.bottommost_line().0 {
        let mut text = String::new();
        for col in 0..grid.columns() {
            text.push(grid[Line(line)][Column(col)].c);
        }
        lines.push(text);
        line += 1;
    }
    GridText { topmost_line: grid.topmost_line().0, lines }
}

#[test]
fn empty_query_returns_no_matches() {
    let term = make_term(80, 24, b"hello world");
    let mut state = SearchState::new();
    let matches = state.search(&term, "");
    assert!(matches.is_empty());
    assert!(state.current_match.is_none());
}

#[test]
fn query_not_found_returns_no_matches() {
    let term = make_term(80, 24, b"hello world");
    let mut state = SearchState::new();
    let matches = state.search(&term, "foobar");
    assert!(matches.is_empty());
    assert!(state.current_match.is_none());
}

#[test]
fn basic_string_matching() {
    let term = make_term(80, 24, b"hello world");
    let mut state = SearchState::new();
    let matches = state.search(&term, "hello");
    assert_eq!(matches.len(), 1);
    assert_eq!(matches[0].start_col, 0);
    assert_eq!(matches[0].end_col, 5);
}

#[test]
fn case_insensitive_search() {
    let term = make_term(80, 24, b"Hello World");
    let mut state = SearchState::new();

    let matches = state.search(&term, "hello");
    assert_eq!(matches.len(), 1);
    assert_eq!(matches[0].start_col, 0);

    let matches = state.search(&term, "WORLD");
    assert_eq!(matches.len(), 1);
    assert_eq!(matches[0].start_col, 6);
}

#[test]
fn multiple_matches_on_same_line() {
    let term = make_term(80, 24, b"abcabc");
    let mut state = SearchState::new();
    let matches = state.search(&term, "abc");
    assert_eq!(matches.len(), 2);
    assert_eq!(matches[0].start_col, 0);
    assert_eq!(matches[0].end_col, 3);
    assert_eq!(matches[1].start_col, 3);
    assert_eq!(matches[1].end_col, 6);
}

#[test]
fn next_match_cycles_forward() {
    let term = make_term(80, 24, b"aaa");
    let mut state = SearchState::new();
    state.search(&term, "a");
    assert_eq!(state.matches.len(), 3);

    assert_eq!(state.current_match, Some(0));
    state.next_match();
    assert_eq!(state.current_match, Some(1));
    state.next_match();
    assert_eq!(state.current_match, Some(2));
    // Wraps around.
    state.next_match();
    assert_eq!(state.current_match, Some(0));
}

#[test]
fn prev_match_cycles_backward() {
    let term = make_term(80, 24, b"aaa");
    let mut state = SearchState::new();
    state.search(&term, "a");
    assert_eq!(state.matches.len(), 3);

    assert_eq!(state.current_match, Some(0));
    // Wraps to end.
    state.prev_match();
    assert_eq!(state.current_match, Some(2));
    state.prev_match();
    assert_eq!(state.current_match, Some(1));
    state.prev_match();
    assert_eq!(state.current_match, Some(0));
}

#[test]
fn current_returns_highlighted_match() {
    let term = make_term(80, 24, b"hello world");
    let mut state = SearchState::new();
    state.search(&term, "world");
    let current = state.current().expect("should have a current match");
    assert_eq!(current.start_col, 6);
    assert_eq!(current.end_col, 11);
}

#[test]
fn clear_resets_everything() {
    let term = make_term(80, 24, b"hello");
    let mut state = SearchState::new();
    state.search(&term, "hello");
    assert!(!state.matches.is_empty());

    state.clear();
    assert!(state.query.is_empty());
    assert!(state.matches.is_empty());
    assert!(state.current_match.is_none());
}

// ---------------------------------------------------------------------------
// Further cases, on grids given directly
// ---------------------------------------------------------------------------

fn grid(top: i32, lines: &[&str]) -> GridText {
    GridText { topmost_line: top, lines: lines.iter().map(|l| l.to_string()).collect() }
}

#[test]
fn matches_carry_their_line_including_scrollback() {
    let g = grid(-2, &["foo bar", "nothing", "Foo FOO"]);
    let mut state = SearchState::new();
    let matches = state.search(&g, "foo");
    assert_eq!(
        matches,
        vec![
            SearchMatch { line: -2, start_col: 0, end_col: 3 },
            SearchMatch { line: 0, start_col: 0, end_col: 3 },
            SearchMatch { line: 0, start_col: 4, end_col: 7 },
        ]
    );
    assert_eq!(state.query, "foo");
    assert_eq!(state.current_match, Some(0));
}

#[test]
fn matches_do_not_overlap() {
    let g = grid(0, &["aaaa"]);
    let mut state = SearchState::new();
    let matches = state.search(&g, "aa");
    assert_eq!(matches.len(), 2);
    assert_eq!(matches[1], SearchMatch { line: 0, start_col: 2, end_col: 4 });
}

#[test]
fn prev_after_next_returns_to_the_same_match() {
    let g = grid(0, &["x x x x"]);
    let mut state = SearchState::new();
    state.search(&g, "x");
    state.next_match();
    state.next_match();
    assert_eq!(state.current_match, Some(2));
    state.next_match();
    state.prev_match();
    assert_eq!(state.current_match, Some(2));
}

#[test]
fn navigation_without_matches_keeps_state() {
    let mut state = SearchState::new();
    state.next_match();
    state.prev_match();
    assert!(state.current_match.is_none());
    assert!(state.current().is_none());
}

#[test]
fn matches_are_reported_in_columns_after_a_multibyte_cell() {
    let term = make_term(80, 24, "é hello".as_bytes());
    let mut state = SearchState::new();
    let matches = state.search(&term, "hello");
    assert_eq!(matches, vec![SearchMatch { line: 0, start_col: 2, end_col: 7 }]);
}

#[test]
fn a_cell_that_lowercases_to_several_characters_is_one_column() {
    // 'İ' lowercases to "i̇" (two characters, three bytes) but fills one cell.
    let g = grid(0, &["xİİx"]);
    let mut state = SearchState::new();
    let matches = state.search(&g, "İ");
    assert_eq!(
        matches,
        vec![
            SearchMatch { line: 0, start_col: 1, end_col: 2 },
            SearchMatch { line: 0, start_col: 2, end_col: 3 },
        ]
    );
    let xs = state.search(&g, "X");
    assert_eq!(
        xs,
        vec![
            SearchMatch { line: 0, start_col: 0, end_col: 1 },
            SearchMatch { line: 0, start_col: 3, end_col: 4 },
        ]
    );
}

#[test]
fn a_match_may_span_cells_with_multibyte_characters() {
    let g = grid(-1, &["aÉé b", "zz"]);
    let mut state = SearchState::new();
    let matches = state.search(&g, "ÉÉ");
    assert_eq!(matches, vec![SearchMatch { line: -1, start_col: 1, end_col: 3 }]);
}

#[test]
fn lines_and_query_are_lowercased_as_a_whole() {
    // A capital sigma that ends a word lowercases to the final form 'ς'.
    let g = grid(0, &["x ΟΔΟΣ y"]);
    let mut state = SearchState::new();
    assert_eq!(
        state.search(&g, "ΟΔΟΣ"),
        vec![SearchMatch { line: 0, start_col: 2, end_col: 6 }]
    );
    assert_eq!(state.search(&g, "ς"), vec![SearchMatch { line: 0, start_col: 5, end_col: 6 }]);
    assert!(state.search(&g, "οδοσ").is_empty());
}
