//! The application's configuration, as the rest of the program reads it.
//!
//! Reading the file and parsing its TOML is the program's business; the
//! library holds the values. Sizes and opacities, which the file gives as
//! floating-point numbers, are held as the bits of an `f32`
//! (`f32::to_bits`), so that a value passes through unchanged.

use vstd::prelude::*;

use crate::profiles::{profiles_view, Profile, ProfileView};

verus! {

/// Font settings.
pub struct FontConfig {
    pub family: String,
    /// The font size in points, as the bits of an `f32`.
    pub size_bits: u32,
}

/// Window settings.
#[derive(Debug, Clone, Copy, PartialEq, Eq, Structural)]
pub struct WindowConfig {
    pub width: u32,
    pub height: u32,
    /// The opacity (0 transparent, 1 opaque), as the bits of an `f32`.
    pub opacity_bits: u32,
}

/// Terminal settings.
pub struct TerminalConfig {
    pub shell: Option<String>,
    pub scrollback: usize,
    pub cols: u16,
    pub rows: u16,
}

/// Color settings, as `#rrggbb` texts.
pub struct ColorConfig {
    pub background: String,
    pub foreground: String,
}

/// The value of a [`FontConfig`].
pub struct FontConfigView {
    pub family: Seq<char>,
    pub size_bits: u32,
}

/// The value of a [`TerminalConfig`].
pub struct TerminalConfigView {
    pub shell: Option<Seq<char>>,
    pub scrollback: usize,
    pub cols: u16,
    pub rows: u16,
}

/// The value of a [`ColorConfig`].
pub struct ColorConfigView {
    pub background: Seq<char>,
    pub foreground: Seq<char>,
}

impl View for FontConfig {
    type V = FontConfigView;

    open spec fn view(&self) -> FontConfigView {
        FontConfigView { family: self.family@, size_bits: self.size_bits }
    }
}

impl View for TerminalConfig {
    type V = TerminalConfigView;

    open spec fn view(&self) -> TerminalConfigView {
        TerminalConfigView {
            shell: match self.shell {
                Some(s) => Some(s@),
                None => None,
            },
            scrollback: self.scrollback,
            cols: self.cols,
            rows: self.rows,
        }
    }
}

impl View for ColorConfig {
    type V = ColorConfigView;

    open spec fn view(&self) -> ColorConfigView {
        ColorConfigView { background: self.background@, foreground: self.foreground@ }
    }
}

/// 14.0 as the bits of an `f32`.
pub const DEFAULT_FONT_SIZE_BITS: u32 = 0x4160_0000;

/// 1.0 as the bits of an `f32`.
pub const OPAQUE_BITS: u32 = 0x3f80_0000;

impl Clone for FontConfig {
    fn clone(&self) -> (r: Self)
        ensures
            r@ == self@,
    {
        FontConfig { family: self.family.clone(), size_bits: self.size_bits }
    }
}

impl Clone for TerminalConfig {
    fn clone(&self) -> (r: Self)
        ensures
            r@ == self@,
    {
        let shell = match &self.shell {
            Some(s) => Some(s.clone()),
            None => None,
        };
        TerminalConfig { shell, scrollback: self.scrollback, cols: self.cols, rows: self.rows }
    }
}

impl Clone for ColorConfig {
    fn clone(&self) -> (r: Self)
        ensures
            r@ == self@,
    {
        ColorConfig { background: self.background.clone(), foreground: self.foreground.clone() }
    }
}

impl Default for FontConfig {
    fn default() -> (c: Self)
        ensures
            c@ == (FontConfigView { family: "Cascadia Code"@, size_bits: DEFAULT_FONT_SIZE_BITS }),
    {
        FontConfig { family: String::from_str("Cascadia Code"), size_bits: DEFAULT_FONT_SIZE_BITS }
    }
}

impl Default for WindowConfig {
    fn default() -> (c: Self)
        ensures
            c == (WindowConfig { width: 800, height: 600, opacity_bits: OPAQUE_BITS }),
    {
        WindowConfig { width: 800, height: 600, opacity_bits: OPAQUE_BITS }
    }
}

impl Default for TerminalConfig {
    fn default() -> (c: Self)
        ensures
            c@ == (TerminalConfigView { shell: None, scrollback: 10_000, cols: 80, rows: 24 }),
    {
        TerminalConfig { shell: None, scrollback: 10_000, cols: 80, rows: 24 }
    }
}

impl Default for ColorConfig {
    fn default() -> (c: Self)
        ensures
            c@ == (ColorConfigView { background: "#1e1e2e"@, foreground: "#cdd6f4"@ }),
    {
        ColorConfig {
            background: String::from_str("#1e1e2e"),
            foreground: String::from_str("#cdd6f4"),
        }
    }
}

/// The whole configuration.
pub struct Config {
    pub font: FontConfig,
    pub window: WindowConfig,
    pub terminal: TerminalConfig,
    pub colors: ColorConfig,
    pub profiles: Vec<Profile>,
}

/// The value of a [`Config`].
pub struct ConfigView {
    pub font: FontConfigView,
    pub window: WindowConfig,
    pub terminal: TerminalConfigView,
    pub colors: ColorConfigView,
    pub profiles: Seq<ProfileView>,
}

impl View for Config {
    type V = ConfigView;

    open spec fn view(&self) -> ConfigView {
        ConfigView {
            font: self.font@,
            window: self.window,
            terminal: self.terminal@,
            colors: self.colors@,
            profiles: profiles_view(self.profiles@),
        }
    }
}

impl Default for Config {
    fn default() -> (c: Self)
        ensures
            c@.font == (FontConfigView { family: "Cascadia Code"@, size_bits: DEFAULT_FONT_SIZE_BITS }),
            c@.window == (WindowConfig { width: 800, height: 600, opacity_bits: OPAQUE_BITS }),
            c@.terminal == (TerminalConfigView {
                shell: None,
                scrollback: 10_000,
                cols: 80,
                rows: 24,
            }),
            c@.colors == (ColorConfigView { background: "#1e1e2e"@, foreground: "#cdd6f4"@ }),
            c@.profiles == Seq::<ProfileView>::empty(),
    {
        let c = Config {
            font: FontConfig::default(),
            window: WindowConfig::default(),
            terminal: TerminalConfig::default(),
            colors: ColorConfig::default(),
            profiles: Vec::new(),
        };
        assert(c@.profiles =~= Seq::<ProfileView>::empty());
        c
    }
}

} // verus!
