//! Swappable visual themes.
//!
//! A [`Theme`] is a single data object: colors, chrome metrics, and padding.
//! Swap the theme → new look. Built-ins live in [`Theme::builtin`].

use vstd::prelude::*;

use crate::schema::{clone_strings, uniform_padding, ColorsConfig, F32Bits, Padding};
use crate::text::{ascii_lower_seq, chars_of, lower_chars, owned, string_of};

verus! {

/// Abstract value of a [`ColorsConfig`].
pub struct ColorsView {
    pub foreground: Seq<char>,
    pub background: Seq<char>,
    pub cursor: Seq<char>,
    pub selection_fg: Seq<char>,
    pub selection_bg: Seq<char>,
    pub ansi: Seq<Seq<char>>,
    pub brights: Seq<Seq<char>>,
    pub split: Seq<char>,
}

pub open spec fn colors_view(c: &ColorsConfig) -> ColorsView {
    ColorsView {
        foreground: c.foreground@,
        background: c.background@,
        cursor: c.cursor@,
        selection_fg: c.selection_fg@,
        selection_bg: c.selection_bg@,
        ansi: c.ansi.deep_view(),
        brights: c.brights.deep_view(),
        split: c.split@,
    }
}

/// The default (graphite) palette.
pub open spec fn default_colors() -> ColorsView {
    ColorsView {
        foreground: "#a5a7aa"@,
        background: "#25282e"@,
        cursor: "#a5a6aa"@,
        selection_fg: "#000000"@,
        selection_bg: "#7d7d7d"@,
        ansi: seq![
            "#2e3239"@,
            "#be861b"@,
            "#2289b4"@,
            "#d1b06e"@,
            "#7d8fa4"@,
            "#a25795"@,
            "#5abfd5"@,
            "#a5a6aa"@,
        ],
        brights: seq![
            "#2e3239"@,
            "#bd851b"@,
            "#2289b4"@,
            "#d0af6e"@,
            "#7d8fa4"@,
            "#a25794"@,
            "#4ea7bb"@,
            "#a5a6aa"@,
        ],
        split: "#a5a7aa"@,
    }
}

/// The midnight palette.
pub open spec fn midnight_colors() -> ColorsView {
    ColorsView {
        foreground: "#c8ccd4"@,
        background: "#0f1115"@,
        cursor: "#c8ccd4"@,
        selection_fg: "#0f1115"@,
        selection_bg: "#3d4f65"@,
        ansi: seq![
            "#1a1d23"@,
            "#e06c75"@,
            "#98c379"@,
            "#e5c07b"@,
            "#61afef"@,
            "#c678dd"@,
            "#56b6c2"@,
            "#c8ccd4"@,
        ],
        brights: seq![
            "#4b5263"@,
            "#e06c75"@,
            "#98c379"@,
            "#e5c07b"@,
            "#61afef"@,
            "#c678dd"@,
            "#56b6c2"@,
            "#ffffff"@,
        ],
        split: "#2a2f3a"@,
    }
}

/// Complete visual theme for NeuTerm chrome + terminal colors.
#[derive(Debug)]
pub struct Theme {
    pub name: String,
    pub colors: ColorsConfig,
    /// Padding between the pane focus border and the cell grid.
    pub window_padding: Padding,
    /// Margin around the pane chrome (outside the focus border).
    /// Top is usually `0` so the tab bar sits flush on the content frame.
    pub pane_inset: Padding,
    pub tabs: TabChrome,
    pub panes: PaneChrome,
}

/// Abstract value of a [`Theme`].
pub struct ThemeView {
    pub name: Seq<char>,
    pub colors: ColorsView,
    pub window_padding: Padding,
    pub pane_inset: Padding,
    pub tabs: TabChromeView,
    pub panes: PaneChromeView,
}

impl View for Theme {
    type V = ThemeView;

    open spec fn view(&self) -> ThemeView {
        ThemeView {
            name: self.name@,
            colors: self.colors@,
            window_padding: self.window_padding,
            pane_inset: self.pane_inset,
            tabs: self.tabs@,
            panes: self.panes@,
        }
    }
}

/// Inset of both built-in themes: flush under the tab bar.
pub open spec fn builtin_inset() -> Padding {
    Padding { left: 4, right: 4, top: 0, bottom: 4 }
}

/// The graphite theme.
pub open spec fn graphite_theme() -> ThemeView {
    ThemeView {
        name: "graphite"@,
        colors: default_colors(),
        window_padding: uniform_padding(8),
        pane_inset: builtin_inset(),
        tabs: graphite_tabs(),
        panes: PaneChromeView { inactive_dim: F32Bits(0x3e19999a), focus_border: "#a5a6aa"@ },
    }
}

/// The midnight theme.
pub open spec fn midnight_theme() -> ThemeView {
    ThemeView {
        name: "midnight"@,
        colors: midnight_colors(),
        window_padding: uniform_padding(10),
        pane_inset: builtin_inset(),
        tabs: TabChromeView {
            bar_background: "#0b0d10"@,
            active_background: "#1a1f2a"@,
            inactive_background: "#0b0d10"@,
            active_foreground: "#c8ccd4"@,
            inactive_foreground: "#6b7280"@,
            separator_color: "#2a2f3a"@,
            separator_height: 1,
            bar_padding: uniform_padding(6),
            tab_padding: uniform_padding(6),
            gap: 6,
        },
        panes: PaneChromeView { inactive_dim: F32Bits(0x3e3851ec), focus_border: "#61afef"@ },
    }
}

/// The built-in theme named `name` (ASCII case-insensitive); unknown names
/// get graphite under their lower-cased name.
pub open spec fn builtin_theme(name: Seq<char>) -> ThemeView {
    let l = ascii_lower_seq(name);
    if l == "graphite"@ || l == "default"@ {
        graphite_theme()
    } else if l == "midnight"@ {
        midnight_theme()
    } else {
        ThemeView { name: l, ..graphite_theme() }
    }
}

/// The theme a theme setting stands for.
pub open spec fn resolve_theme(spec: ThemeSpec) -> ThemeView {
    match spec {
        ThemeSpec::Name(n) => builtin_theme(n@),
        ThemeSpec::Full(t) => t@,
    }
}

impl Clone for Theme {
    fn clone(&self) -> (t: Self)
        ensures
            t@ == self@,
    {
        Theme {
            name: self.name.clone(),
            colors: self.colors.clone(),
            window_padding: self.window_padding.clone(),
            pane_inset: self.pane_inset.clone(),
            tabs: self.tabs.clone(),
            panes: self.panes.clone(),
        }
    }
}

impl Default for Theme {
    fn default() -> (t: Self)
        ensures
            t@ == graphite_theme(),
    {
        Self::graphite()
    }
}

/// Equality of character vectors.
fn seq_is(a: &Vec<char>, lit: &str) -> (r: bool)
    ensures
        r == (a@ == lit@),
{
    let b = chars_of(lit);
    crate::schema::chars_eq(a.as_slice(), b.as_slice())
}

impl Theme {
    /// Built-in themes. Unknown names fall back to graphite.
    pub fn builtin(name: &str) -> (t: Self)
        ensures
            t@ == builtin_theme(name@),
    {
        let lower = lower_chars(chars_of(name).as_slice());
        if seq_is(&lower, "graphite") || seq_is(&lower, "default") {
            Self::graphite()
        } else if seq_is(&lower, "midnight") {
            Self::midnight()
        } else {
            let mut t = Self::graphite();
            t.name = string_of(lower.as_slice());
            t
        }
    }

    /// Resolve from config theme block: start from builtin name, apply overrides.
    pub fn resolve(spec: &ThemeSpec) -> (t: Self)
        ensures
            t@ == resolve_theme(*spec),
    {
        match spec {
            ThemeSpec::Name(name) => Self::builtin(name.as_str()),
            ThemeSpec::Full(theme) => {
                let mut base = Self::builtin(theme.name.as_str());
                // Full theme replaces fields that were present via serde defaults
                // on nested structs.
                base.name = theme.name.clone();
                base.colors = theme.colors.clone();
                base.window_padding = theme.window_padding.clone();
                base.pane_inset = theme.pane_inset.clone();
                base.tabs = theme.tabs.clone();
                base.panes = theme.panes.clone();
                base
            },
        }
    }

    pub fn graphite() -> (t: Self)
        ensures
            t@ == graphite_theme(),
    {
        Theme {
            name: owned("graphite"),
            colors: ColorsConfig::default(),
            window_padding: Padding::uniform(8),
            // Flush under the tab bar; even inset on the other three sides.
            pane_inset: Padding { left: 4, right: 4, top: 0, bottom: 4 },
            tabs: TabChrome::graphite(),
            panes: PaneChrome::default(),
        }
    }

    pub fn midnight() -> (t: Self)
        ensures
            t@ == midnight_theme(),
    {
        let ansi = vec![
            owned("#1a1d23"),
            owned("#e06c75"),
            owned("#98c379"),
            owned("#e5c07b"),
            owned("#61afef"),
            owned("#c678dd"),
            owned("#56b6c2"),
            owned("#c8ccd4"),
        ];
        let brights = vec![
            owned("#4b5263"),
            owned("#e06c75"),
            owned("#98c379"),
            owned("#e5c07b"),
            owned("#61afef"),
            owned("#c678dd"),
            owned("#56b6c2"),
            owned("#ffffff"),
        ];
        let t = Theme {
            name: owned("midnight"),
            colors: ColorsConfig {
                foreground: owned("#c8ccd4"),
                background: owned("#0f1115"),
                cursor: owned("#c8ccd4"),
                selection_fg: owned("#0f1115"),
                selection_bg: owned("#3d4f65"),
                ansi,
                brights,
                split: owned("#2a2f3a"),
            },
            window_padding: Padding::uniform(10),
            pane_inset: Padding { left: 4, right: 4, top: 0, bottom: 4 },
            tabs: TabChrome {
                bar_background: owned("#0b0d10"),
                active_background: owned("#1a1f2a"),
                inactive_background: owned("#0b0d10"),
                active_foreground: owned("#c8ccd4"),
                inactive_foreground: owned("#6b7280"),
                separator_color: owned("#2a2f3a"),
                separator_height: 1,
                bar_padding: Padding::uniform(6),
                tab_padding: Padding::uniform(6),
                gap: 6,
            },
            panes: PaneChrome { inactive_dim: F32Bits(0x3e3851ec), focus_border: owned("#61afef") },
        };
        proof {
            assert(t.colors.ansi.deep_view() =~= midnight_colors().ansi);
            assert(t.colors.brights.deep_view() =~= midnight_colors().brights);
        }
        t
    }
}

/// Config form: either a builtin name (`theme: graphite`) or a full object.
#[derive(Debug)]
pub enum ThemeSpec {
    Name(String),
    Full(Theme),
}

impl Default for ThemeSpec {
    fn default() -> (s: Self)
        ensures
            s matches ThemeSpec::Name(n) && n@ == "graphite"@,
    {
        ThemeSpec::Name(owned("graphite"))
    }
}

/// Tab bar chrome metrics and colors.
#[derive(Debug)]
pub struct TabChrome {
    pub bar_background: String,
    pub active_background: String,
    pub inactive_background: String,
    pub active_foreground: String,
    pub inactive_foreground: String,
    pub separator_color: String,
    pub separator_height: u32,
    /// Padding around the row of tabs inside the bar.
    pub bar_padding: Padding,
    /// Padding inside each tab chip (and matching + button).
    pub tab_padding: Padding,
    /// Horizontal gap between tab chips / + button.
    pub gap: u32,
}

/// Abstract value of a [`TabChrome`].
pub struct TabChromeView {
    pub bar_background: Seq<char>,
    pub active_background: Seq<char>,
    pub inactive_background: Seq<char>,
    pub active_foreground: Seq<char>,
    pub inactive_foreground: Seq<char>,
    pub separator_color: Seq<char>,
    pub separator_height: u32,
    pub bar_padding: Padding,
    pub tab_padding: Padding,
    pub gap: u32,
}

impl View for TabChrome {
    type V = TabChromeView;

    open spec fn view(&self) -> TabChromeView {
        TabChromeView {
            bar_background: self.bar_background@,
            active_background: self.active_background@,
            inactive_background: self.inactive_background@,
            active_foreground: self.active_foreground@,
            inactive_foreground: self.inactive_foreground@,
            separator_color: self.separator_color@,
            separator_height: self.separator_height,
            bar_padding: self.bar_padding,
            tab_padding: self.tab_padding,
            gap: self.gap,
        }
    }
}

/// Graphite tab chrome.
pub open spec fn graphite_tabs() -> TabChromeView {
    TabChromeView {
        bar_background: "#1c1f24"@,
        active_background: "#2e3239"@,
        inactive_background: "#1c1f24"@,
        active_foreground: "#a5a7aa"@,
        inactive_foreground: "#6a6e76"@,
        separator_color: "#3a3f48"@,
        separator_height: 1,
        bar_padding: uniform_padding(6),
        tab_padding: uniform_padding(6),
        gap: 6,
    }
}

impl Clone for TabChrome {
    fn clone(&self) -> (t: Self)
        ensures
            t@ == self@,
    {
        TabChrome {
            bar_background: self.bar_background.clone(),
            active_background: self.active_background.clone(),
            inactive_background: self.inactive_background.clone(),
            active_foreground: self.active_foreground.clone(),
            inactive_foreground: self.inactive_foreground.clone(),
            separator_color: self.separator_color.clone(),
            separator_height: self.separator_height,
            bar_padding: self.bar_padding.clone(),
            tab_padding: self.tab_padding.clone(),
            gap: self.gap,
        }
    }
}

impl Default for TabChrome {
    fn default() -> (t: Self)
        ensures
            t@ == graphite_tabs(),
    {
        Self::graphite()
    }
}

impl TabChrome {
    pub fn graphite() -> (t: Self)
        ensures
            t@ == graphite_tabs(),
    {
        TabChrome {
            bar_background: owned("#1c1f24"),
            active_background: owned("#2e3239"),
            inactive_background: owned("#1c1f24"),
            active_foreground: owned("#a5a7aa"),
            inactive_foreground: owned("#6a6e76"),
            separator_color: owned("#3a3f48"),
            separator_height: 1,
            // Even outer padding around the tab row.
            bar_padding: Padding::uniform(6),
            // Even inner padding around tab label / + glyph.
            tab_padding: Padding::uniform(6),
            gap: 6,
        }
    }

    /// Height of a tab chip / + button.
    pub open spec fn tab_height_spec(self, cell_h: u32) -> int {
        cell_h + self.tab_padding.top + self.tab_padding.bottom
    }

    /// Total tab bar height for a given cell height.
    pub open spec fn bar_height_spec(self, cell_h: u32) -> int {
        self.bar_padding.top + self.tab_height_spec(cell_h) + self.bar_padding.bottom
            + self.separator_height
    }

    /// Total tab bar height for a given cell height.
    pub fn bar_height(&self, cell_h: u32) -> (h: u32)
        requires
            self.bar_height_spec(cell_h) <= u32::MAX,
        ensures
            h == self.bar_height_spec(cell_h),
    {
        let tab_h = cell_h + self.tab_padding.top + self.tab_padding.bottom;
        self.bar_padding.top + tab_h + self.bar_padding.bottom + self.separator_height
    }

    /// Height of a tab chip / + button.
    pub fn tab_height(&self, cell_h: u32) -> (h: u32)
        requires
            self.tab_height_spec(cell_h) <= u32::MAX,
        ensures
            h == self.tab_height_spec(cell_h),
    {
        cell_h + self.tab_padding.top + self.tab_padding.bottom
    }
}

#[derive(Debug)]
pub struct PaneChrome {
    pub inactive_dim: F32Bits,
    pub focus_border: String,
}

/// Abstract value of a [`PaneChrome`].
pub struct PaneChromeView {
    pub inactive_dim: F32Bits,
    pub focus_border: Seq<char>,
}

impl View for PaneChrome {
    type V = PaneChromeView;

    open spec fn view(&self) -> PaneChromeView {
        PaneChromeView { inactive_dim: self.inactive_dim, focus_border: self.focus_border@ }
    }
}

impl Clone for PaneChrome {
    fn clone(&self) -> (p: Self)
        ensures
            p@ == self@,
    {
        PaneChrome { inactive_dim: self.inactive_dim, focus_border: self.focus_border.clone() }
    }
}

impl Default for PaneChrome {
    fn default() -> (p: Self)
        ensures
            p@ == graphite_theme().panes,
    {
        PaneChrome { inactive_dim: F32Bits(0x3e19999a), focus_border: owned("#a5a6aa") }
    }
}

impl Padding {
    pub fn uniform(v: u32) -> (p: Self)
        ensures
            p == uniform_padding(v),
    {
        Padding { left: v, right: v, top: v, bottom: v }
    }
}

} // verus!
