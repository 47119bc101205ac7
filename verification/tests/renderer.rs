use alacritty_terminal::event::{Event, EventListener};
use alacritty_terminal::grid::Dimensions;
use alacritty_terminal::term::cell::Flags;
use alacritty_terminal::term::Config;
use alacritty_terminal::vte::ansi as vt;
use alacritty_terminal::vte::ansi::Processor;
use alacritty_terminal::Term;
use iterm2_rs::render::colors::{
    indexed_color_to_rgb, is_default_bg, named_color_to_rgb, resolve_color, Color, NamedColor, Rgb,
};
use iterm2_rs::render::config::parse_hex_rgb;
use iterm2_rs::render::grid::{
    extract_grid, extract_grid_text, CursorShape, RenderCell, RenderCursor, ScreenContent,
};

// ---------------------------------------------------------------------------
// A terminal to extract from
// ---------------------------------------------------------------------------

#[derive(Clone, Debug)]
struct TestEventProxy;

impl EventListener for TestEventProxy {
    fn send_event(&self, _event: Event) {}
}

struct TestSize {
    cols: usize,
    rows: usize,
}

impl Dimensions for TestSize {
    fn total_lines(&self) -> usize {
        self.rows
    }
    fn screen_lines(&self) -> usize {
        self.rows
    }
    fn columns(&self) -> usize {
        self.cols
    }
}

struct Backend {
    term: Term<TestEventProxy>,
    processor: Processor,
}

impl Backend {
    fn new(cols: u16, rows: u16) -> Self {
        let size = TestSize { cols: cols as usize, rows: rows as usize };
        Backend { term: Term::new(Config::default(), &size, TestEventProxy), processor: Processor::new() }
    }

    fn process_bytes(&mut self, bytes: &[u8]) {
        self.processor.advance(&mut self.term, bytes);
    }
}

fn named(n: vt::NamedColor) -> NamedColor {
    match n {
        vt::NamedColor::Black => NamedColor::Black,
        vt::NamedColor::Red => NamedColor::Red,
        vt::NamedColor::Green => NamedColor::Green,
        vt::NamedColor::Yellow => NamedColor::Yellow,
        vt::NamedColor::Blue => NamedColor::Blue,
        vt::NamedColor::Magenta => NamedColor::Magenta,
        vt::NamedColor::Cyan => NamedColor::Cyan,
        vt::NamedColor::White => NamedColor::White,
        vt::NamedColor::BrightBlack => NamedColor::BrightBlack,
        vt::NamedColor::BrightRed => NamedColor::BrightRed,
        vt::NamedColor::BrightGreen => NamedColor::BrightGreen,
        vt::NamedColor::BrightYellow => NamedColor::BrightYellow,
        vt::NamedColor::BrightBlue => NamedColor::BrightBlue,
        vt::NamedColor::BrightMagenta => NamedColor::BrightMagenta,
        vt::NamedColor::BrightCyan => NamedColor::BrightCyan,
        vt::NamedColor::BrightWhite => NamedColor::BrightWhite,
        vt::NamedColor::Foreground => NamedColor::Foreground,
        vt::NamedColor::Background => NamedColor::Background,
        vt::NamedColor::Cursor => NamedColor::Cursor,
        vt::NamedColor::DimBlack => NamedColor::DimBlack,
        vt::NamedColor::DimRed => NamedColor::DimRed,
        vt::NamedColor::DimGreen => NamedColor::DimGreen,
        vt::NamedColor::DimYellow => NamedColor::DimYellow,
        vt::NamedColor::DimBlue => NamedColor::DimBlue,
        vt::NamedColor::DimMagenta => NamedColor::DimMagenta,
        vt::NamedColor::DimCyan => NamedColor::DimCyan,
        vt::NamedColor::DimWhite => NamedColor::DimWhite,
        vt::NamedColor::BrightForeground => NamedColor::BrightForeground,
        vt::NamedColor::DimForeground => NamedColor::DimForeground,
    }
}

fn color(c: &vt::Color) -> Color {
    match c {
        vt::Color::Named(n) => Color::Named(named(*n)),
        vt::Color::Spec(rgb) => Color::Spec(Rgb { r: rgb.r, g: rgb.g, b: rgb.b }),
        vt::Color::Indexed(i) => Color::Indexed(*i),
    }
}

/// What the terminal displays, as the library reads it.
fn screen(backend: &Backend) -> ScreenContent {
    let content = backend.term.renderable_content();
    let shape = match content.cursor.shape {
        vt::CursorShape::Block => CursorShape::Block,
        vt::CursorShape::HollowBlock => CursorShape::HollowBlock,
        vt::CursorShape::Underline => CursorShape::Underline,
        vt::CursorShape::Beam => CursorShape::Beam,
        vt::CursorShape::Hidden => CursorShape::Hidden,
    };
    let cursor = RenderCursor {
        line: content.cursor.point.line.0,
        col: content.cursor.point.column.0,
        shape,
    };
    let cells = content
        .display_iter
        .map(|indexed| RenderCell {
            line: indexed.point.line.0,
            col: indexed.point.column.0,
            c: indexed.cell.c,
            fg: color(&indexed.cell.fg),
            bg: color(&indexed.cell.bg),
            bold: indexed.cell.flags.contains(Flags::BOLD),
            italic: indexed.cell.flags.contains(Flags::ITALIC),
            underline: indexed.cell.flags.contains(Flags::UNDERLINE),
            strikethrough: indexed.cell.flags.contains(Flags::STRIKEOUT),
        })
        .collect();
    ScreenContent {
        cols: backend.term.columns() as u16 as usize,
        rows: backend.term.screen_lines() as u16 as usize,
        cursor,
        cells,
    }
}

// ---------------------------------------------------------------------------
// Colors
// ---------------------------------------------------------------------------

#[test]
fn named_foreground_resolves_to_catppuccin_text() {
    let (r, g, b) = named_color_to_rgb(&NamedColor::Foreground);
    assert_eq!((r, g, b), (0xcd, 0xd6, 0xf4));
}

#[test]
fn indexed_0_through_15_match_named() {
    assert_eq!(indexed_color_to_rgb(0), named_color_to_rgb(&NamedColor::Black));
    assert_eq!(indexed_color_to_rgb(9), named_color_to_rgb(&NamedColor::BrightRed));
    assert_eq!(indexed_color_to_rgb(15), named_color_to_rgb(&NamedColor::BrightWhite));
}

#[test]
fn indexed_color_cube_origin() {
    assert_eq!(indexed_color_to_rgb(16), (0, 0, 0));
}

#[test]
fn indexed_color_cube_max() {
    assert_eq!(indexed_color_to_rgb(231), (255, 255, 255));
}

#[test]
fn indexed_grayscale_first() {
    assert_eq!(indexed_color_to_rgb(232), (8, 8, 8));
}

#[test]
fn indexed_grayscale_last() {
    assert_eq!(indexed_color_to_rgb(255), (238, 238, 238));
}

#[test]
fn resolve_spec_color() {
    let color = Color::Spec(Rgb { r: 100, g: 200, b: 50 });
    assert_eq!(resolve_color(&color), (100, 200, 50));
}

#[test]
fn resolve_named_color() {
    let color = Color::Named(NamedColor::Red);
    assert_eq!(resolve_color(&color), (0xf3, 0x8b, 0xa8));
}

#[test]
fn resolve_indexed_color() {
    let color = Color::Indexed(1);
    assert_eq!(resolve_color(&color), named_color_to_rgb(&NamedColor::Red));
}

#[test]
fn default_bg_is_detected() {
    assert!(is_default_bg(&Color::Named(NamedColor::Background)));
    assert!(!is_default_bg(&Color::Named(NamedColor::Red)));
}

#[test]
fn cursor_shape_equality() {
    assert_eq!(CursorShape::Hidden, CursorShape::Hidden);
    assert_ne!(CursorShape::Block, CursorShape::Hidden);
}

#[test]
fn color_cube_inner_entry() {
    // 16 + 36 * 1 + 6 * 2 + 3 = 67: levels 95, 135, 175.
    assert_eq!(indexed_color_to_rgb(67), (95, 135, 175));
}

#[test]
fn default_bg_spec_and_indexed_black() {
    assert!(is_default_bg(&Color::Spec(Rgb { r: 0x1e, g: 0x1e, b: 0x2e })));
    assert!(!is_default_bg(&Color::Spec(Rgb { r: 0x1e, g: 0x1e, b: 0x2f })));
    assert!(!is_default_bg(&Color::Indexed(0)));
}

// ---------------------------------------------------------------------------
// Grid extraction
// ---------------------------------------------------------------------------

#[test]
fn extract_grid_empty_terminal_has_space_cells() {
    let backend = Backend::new(10, 3);
    let grid = extract_grid(&screen(&backend));

    assert_eq!(grid.styled_lines.len(), 3);
    for row in &grid.styled_lines {
        assert_eq!(row.len(), 10);
        for cell in row {
            assert_eq!(cell.c, ' ');
        }
    }
}

#[test]
fn extract_grid_text_empty_terminal_returns_empty_strings() {
    let backend = Backend::new(10, 3);
    let lines = extract_grid_text(&screen(&backend));

    assert_eq!(lines.len(), 3);
    for line in &lines {
        assert!(line.is_empty(), "Expected empty string, got: {:?}", line);
    }
}

#[test]
fn extract_grid_after_simple_text() {
    let mut backend = Backend::new(20, 3);
    backend.process_bytes(b"hello");

    let grid = extract_grid(&screen(&backend));
    let first_row = &grid.styled_lines[0];
    let text: String = first_row.iter().take(5).map(|c| c.c).collect();
    assert_eq!(text, "hello");
}

#[test]
fn extract_grid_text_trims_trailing_spaces() {
    let mut backend = Backend::new(20, 3);
    backend.process_bytes(b"hi");

    let lines = extract_grid_text(&screen(&backend));
    assert_eq!(lines[0], "hi");
}

#[test]
fn extract_grid_control_chars_do_not_advance_cursor() {
    let mut backend = Backend::new(20, 3);
    // Control chars like SOH (\x01) are consumed by the VT parser without
    // advancing the cursor. So 'b' ends up at column 1, not column 2.
    backend.process_bytes(b"a\x01b");

    let grid = extract_grid(&screen(&backend));
    let first_row = &grid.styled_lines[0];
    assert_eq!(first_row[0].c, 'a');
    assert_eq!(first_row[1].c, 'b');
}

#[test]
fn extract_grid_has_cursor_info() {
    let backend = Backend::new(10, 3);
    let grid = extract_grid(&screen(&backend));

    // Fresh terminal should have a cursor at (0, 0).
    assert!(grid.cursor.is_some());
    let cursor = grid.cursor.unwrap();
    assert_eq!(cursor.line, 0);
    assert_eq!(cursor.col, 0);
}

#[test]
fn extract_grid_bg_rects_empty_for_default_bg() {
    let backend = Backend::new(10, 3);
    let grid = extract_grid(&screen(&backend));

    // No colored backgrounds on a fresh terminal.
    assert!(grid.bg_rects.is_empty());
}

fn cell(line: i32, col: usize, c: char, bg: Color) -> RenderCell {
    RenderCell {
        line,
        col,
        c,
        fg: Color::Named(NamedColor::Foreground),
        bg,
        bold: false,
        italic: false,
        underline: false,
        strikethrough: false,
    }
}

#[test]
fn bg_runs_are_batched_per_line() {
    let red = Color::Named(NamedColor::Red);
    let blue = Color::Spec(Rgb { r: 1, g: 2, b: 3 });
    let bg = Color::Named(NamedColor::Background);
    let cells = vec![
        cell(0, 0, 'a', red),
        cell(0, 1, 'b', red),
        cell(0, 2, 'c', blue),
        cell(0, 3, 'd', bg),
        cell(0, 4, 'e', red),
        cell(1, 0, 'f', blue),
        cell(1, 1, 'g', blue),
        // Outside the grid: ignored.
        cell(-1, 0, 'h', red),
        cell(0, 9, 'i', red),
    ];
    let content = ScreenContent {
        cols: 5,
        rows: 2,
        cursor: RenderCursor { line: 0, col: 0, shape: CursorShape::Hidden },
        cells,
    };
    let grid = extract_grid(&content);
    let rects: Vec<(usize, usize, usize, (u8, u8, u8))> =
        grid.bg_rects.iter().map(|r| (r.col, r.line, r.width, r.color)).collect();
    assert_eq!(
        rects,
        vec![
            (0, 0, 2, (0xf3, 0x8b, 0xa8)),
            (2, 0, 1, (1, 2, 3)),
            (4, 0, 1, (0xf3, 0x8b, 0xa8)),
            (0, 1, 2, (1, 2, 3)),
        ]
    );
    assert!(grid.cursor.is_none());
    assert_eq!(grid.styled_lines[0][0].fg, (0xcd, 0xd6, 0xf4));
    assert_eq!(grid.styled_lines[1][1].c, 'g');
}

#[test]
fn styled_cells_keep_attributes_and_skip_controls() {
    let mut bold = cell(0, 0, 'x', Color::Named(NamedColor::Background));
    bold.bold = true;
    bold.fg = Color::Indexed(232);
    let nul = cell(0, 1, '\0', Color::Named(NamedColor::Background));
    let ctl = cell(0, 2, '\u{85}', Color::Named(NamedColor::Background));
    let content = ScreenContent {
        cols: 3,
        rows: 1,
        cursor: RenderCursor { line: -1, col: 0, shape: CursorShape::Beam },
        cells: vec![bold, nul, ctl],
    };
    let grid = extract_grid(&content);
    assert!(grid.styled_lines[0][0].bold);
    assert_eq!(grid.styled_lines[0][0].fg, (8, 8, 8));
    assert_eq!(grid.styled_lines[0][1].c, ' ');
    assert_eq!(grid.styled_lines[0][2].c, ' ');
    assert!(grid.cursor.is_none());
    assert_eq!(extract_grid_text(&content), vec!["x".to_string()]);
}

// ---------------------------------------------------------------------------
// Hex colors
// ---------------------------------------------------------------------------

fn from_hex(hex: &str) -> Option<(f64, f64, f64)> {
    parse_hex_rgb(hex).map(|(r, g, b)| (r as f64 / 255.0, g as f64 / 255.0, b as f64 / 255.0))
}

#[test]
fn parse_hex_with_hash() {
    let c = from_hex("#1e1e2e").unwrap();
    assert!((c.0 - 30.0 / 255.0).abs() < 1e-6);
    assert!((c.1 - 30.0 / 255.0).abs() < 1e-6);
    assert!((c.2 - 46.0 / 255.0).abs() < 1e-6);
}

#[test]
fn parse_hex_without_hash() {
    let c = from_hex("cdd6f4").unwrap();
    assert!((c.0 - 205.0 / 255.0).abs() < 1e-6);
    assert!((c.1 - 214.0 / 255.0).abs() < 1e-6);
    assert!((c.2 - 244.0 / 255.0).abs() < 1e-6);
}

#[test]
fn parse_hex_invalid() {
    assert!(from_hex("zzzzzz").is_none());
    assert!(from_hex("#12345").is_none());
    assert!(from_hex("").is_none());
}

#[test]
fn to_rgb_u8_roundtrip() {
    let c = from_hex("#cdd6f4").unwrap();
    let (r, g, b) = (
        (c.0 * 255.0).round() as u8,
        (c.1 * 255.0).round() as u8,
        (c.2 * 255.0).round() as u8,
    );
    assert_eq!(r, 205);
    assert_eq!(g, 214);
    assert_eq!(b, 244);
}

#[test]
fn hex_digits_in_both_cases_and_no_sign() {
    assert_eq!(parse_hex_rgb("#FfA009"), Some((0xff, 0xa0, 9)));
    assert_eq!(parse_hex_rgb("#FfA0+9"), None);
    assert_eq!(parse_hex_rgb("+f+f+f"), None);
    assert_eq!(parse_hex_rgb("-10000"), None);
    assert_eq!(parse_hex_rgb("##00000"), None);
}

#[test]
fn six_bytes_with_a_multibyte_character_are_no_color() {
    assert_eq!(parse_hex_rgb("aé123"), None);
    assert_eq!(parse_hex_rgb("12aé1"), None);
    assert_eq!(parse_hex_rgb("é1234"), None);
    assert_eq!(parse_hex_rgb("a€bc"), None);
    assert_eq!(parse_hex_rgb("#a€bc"), None);
}
