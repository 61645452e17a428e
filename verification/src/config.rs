//! Validation and derived values of a loaded [`Config`].

use vstd::prelude::*;

use crate::schema::{ColorsConfig, Config, ScrollbackLines, TriggerStyle};
use crate::text::{
    chars_of, decimal_chars, owned, push_decimal_chars, string_of, trim_end_char,
    trim_end_char_exec,
};
use crate::theme::{resolve_theme, ColorsView, PaneChromeView, Theme, ThemeSpec, ThemeView};
use crate::triggers::{hex_color, parse_hex_color};

verus! {

/// Errors loading or validating configuration.
#[derive(Debug)]
pub enum ConfigError {
    /// The file could not be read.
    Io { path: String, source: String },
    /// The file is not valid YAML for the schema.
    Parse { path: String, source: String },
    /// A setting is out of range.
    Validate(String),
}

/// The YAML shipped as the default configuration.
pub const BUNDLED_DEFAULT_YAML: &'static str = "# NeuTerm configuration

window:
  initial_cols: 120
  initial_rows: 40
  # padding in pixels
  padding:
    left: 8
    right: 8
    top: 8
    bottom: 8

font:
  family: \"JetBrains Mono\"
  size: 14.0
  # optional: weight, ligatures
  ligatures: false

colors:
  foreground: \"#a5a7aa\"
  background: \"#25282e\"
  cursor: \"#a5a6aa\"
  selection_fg: \"#000000\"
  selection_bg: \"#7d7d7d\"
  ansi:
    - \"#2e3239\"  # black
    - \"#be861b\"  # red
    - \"#2289b4\"  # green
    - \"#d1b06e\"  # yellow
    - \"#7d8fa4\"  # blue
    - \"#a25795\"  # magenta
    - \"#5abfd5\"  # cyan
    - \"#a5a6aa\"  # white
  brights:
    - \"#2e3239\"
    - \"#bd851b\"
    - \"#2289b4\"
    - \"#d0af6e\"
    - \"#7d8fa4\"
    - \"#a25794\"
    - \"#4ea7bb\"
    - \"#a5a6aa\"
  split: \"#a5a7aa\"

background:
  # solid color always available via colors.background
  image: null            # path string, or null
  # overlay color drawn over image (darken/lighten)
  overlay_color: \"#25282e\"
  overlay_opacity: 0.90  # 0.0–1.0; higher = more color, less image
  # filter applied to the image layer
  filter:
    brightness: 1.0      # 0.0–2.0
    blur: 0.0            # px, 0 = off
    saturation: 1.0

scrollback:
  # integer lines, or \"unlimited\"
  lines: 200000

bell:
  # visual | audible | both | pulse | none
  mode: visual
  # pulse = soft glow on active pane (preferred \"less jarring\" option)
  # visual = brief screen/pane flash
  audible: false

term:
  # TERM value for child processes
  program: \"xterm-256color\"
  shell: null            # null = platform default login shell
  cwd: null              # null = cwd of NeuTerm process

tabs:
  show_bar: true
  hide_if_only_one: false
  # auto = process title; pinned custom title wins when set
  default_title_mode: process

panes:
  inactive_dim: 0.15     # darken inactive panes slightly (0–1)

keybindings:
  # Platform modifier: Super on macOS (Cmd), Super/Win on Linux/Windows
  # Users may override any binding here.
  bindings: []           # empty = use built-in defaults

triggers:
  enabled: true
  rules: []

plugins:
  enabled: true
  # directories searched for plugin manifests / code
  dirs: []

ai:
  enabled: false
  ollama:
    host: \"127.0.0.1\"
    port: 11434
    # full base URL override; if set, host/port ignored
    base_url: null
    model: \"llama3.2\"
    timeout_ms: 60000
  command_help:
    shortcut: \"default\"  # use built-in Super+;
    # system prompt override (optional)
    system_prompt: null
  chat:
    # open chat pane action uses default keybinding
    title: \"AI Chat\"

performance:
  # auto | gpu | cpu
  renderer: auto
  vsync: true
";

/// The shipped default configuration file.
pub fn bundled_default_yaml() -> (s: &'static str)
    ensures
        s@ == BUNDLED_DEFAULT_YAML@,
{
    BUNDLED_DEFAULT_YAML
}

/// The message of the first setting that is out of range, if any.
pub open spec fn validation_error(c: Config) -> Option<Seq<char>> {
    if c.window.initial_cols < 1 || c.window.initial_rows < 1 {
        Some("window.initial_cols and initial_rows must be >= 1"@)
    } else if c.font.size.le_zero() {
        Some("font.size must be > 0"@)
    } else if c.ai.ollama.port == Some(0u16) {
        Some("ai.ollama.port must be 1–65535"@)
    } else if c.scrollback.lines == ScrollbackLines::Limited(0) {
        Some("scrollback.lines must be > 0 or \"unlimited\""@)
    } else if c.background.filter.blur.lt_zero() {
        Some("background.filter.blur must be >= 0"@)
    } else if !config_colors_ok(c) {
        Some("color strings must be #RRGGBB or #RRGGBBAA"@)
    } else {
        None
    }
}

/// `s` is a `#RRGGBB` or `#RRGGBBAA` color.
pub open spec fn is_color(s: Seq<char>) -> bool {
    hex_color(s) is Some
}

/// Every string of `v` is a color.
pub open spec fn all_colors(v: Seq<Seq<char>>) -> bool {
    forall|i: int| 0 <= i < v.len() ==> is_color(#[trigger] v[i])
}

/// Every string of a palette is a color.
pub open spec fn palette_ok(c: ColorsView) -> bool {
    &&& is_color(c.foreground)
    &&& is_color(c.background)
    &&& is_color(c.cursor)
    &&& is_color(c.selection_fg)
    &&& is_color(c.selection_bg)
    &&& all_colors(c.ansi)
    &&& all_colors(c.brights)
    &&& is_color(c.split)
}

/// Every color string of a theme is a color.
pub open spec fn theme_colors_ok(t: ThemeView) -> bool {
    &&& palette_ok(t.colors)
    &&& is_color(t.tabs.bar_background)
    &&& is_color(t.tabs.active_background)
    &&& is_color(t.tabs.inactive_background)
    &&& is_color(t.tabs.active_foreground)
    &&& is_color(t.tabs.inactive_foreground)
    &&& is_color(t.tabs.separator_color)
    &&& is_color(t.panes.focus_border)
}

/// The colors a trigger style sets are colors.
pub open spec fn style_colors_ok(s: TriggerStyle) -> bool {
    &&& s.foreground matches Some(f) ==> is_color(f@)
    &&& s.background matches Some(b) ==> is_color(b@)
}

/// Every color string of a configuration is a `#RRGGBB` or `#RRGGBBAA` color.
pub open spec fn config_colors_ok(c: Config) -> bool {
    &&& c.colors matches Some(p) ==> palette_ok(p@)
    &&& is_color(c.background.overlay_color@)
    &&& c.theme matches ThemeSpec::Full(t) ==> theme_colors_ok(t@)
    &&& forall|i: int|
        0 <= i < c.triggers.rules@.len() ==> style_colors_ok(#[trigger] c.triggers.rules@[i].style)
}

/// The theme a configuration resolves to: a full theme object as it stands;
/// a builtin name gives the builtin, with each of the top-level colors,
/// window padding and inactive dim that the configuration sets in place of
/// the builtin's.
pub open spec fn resolved_theme_of(c: Config) -> ThemeView {
    let t = resolve_theme(c.theme);
    if c.theme is Name {
        ThemeView {
            colors: match c.colors {
                Some(p) => p@,
                None => t.colors,
            },
            window_padding: match c.window.padding {
                Some(p) => p,
                None => t.window_padding,
            },
            panes: PaneChromeView {
                inactive_dim: match c.panes.inactive_dim {
                    Some(d) => d,
                    None => t.panes.inactive_dim,
                },
                ..t.panes
            },
            ..t
        }
    } else {
        t
    }
}

fn is_color_exec(s: &String) -> (b: bool)
    ensures
        b == is_color(s@),
{
    parse_hex_color(s.as_str()).is_some()
}

fn all_colors_exec(v: &Vec<String>) -> (b: bool)
    ensures
        b == all_colors(v.deep_view()),
{
    let mut i: usize = 0;
    while i < v.len()
        invariant
            i <= v@.len(),
            forall|k: int| 0 <= k < i ==> is_color(#[trigger] v.deep_view()[k]),
        decreases v@.len() - i,
    {
        if !is_color_exec(&v[i]) {
            proof {
                assert(v.deep_view()[i as int] == v@[i as int]@);
            }
            return false;
        }
        i = i + 1;
    }
    true
}

fn palette_ok_exec(c: &ColorsConfig) -> (b: bool)
    ensures
        b == palette_ok(c@),
{
    is_color_exec(&c.foreground) && is_color_exec(&c.background) && is_color_exec(&c.cursor)
        && is_color_exec(&c.selection_fg) && is_color_exec(&c.selection_bg) && all_colors_exec(
        &c.ansi,
    ) && all_colors_exec(&c.brights) && is_color_exec(&c.split)
}

fn theme_colors_ok_exec(t: &Theme) -> (b: bool)
    ensures
        b == theme_colors_ok(t@),
{
    palette_ok_exec(&t.colors) && is_color_exec(&t.tabs.bar_background) && is_color_exec(
        &t.tabs.active_background,
    ) && is_color_exec(&t.tabs.inactive_background) && is_color_exec(&t.tabs.active_foreground)
        && is_color_exec(&t.tabs.inactive_foreground) && is_color_exec(&t.tabs.separator_color)
        && is_color_exec(&t.panes.focus_border)
}

fn style_colors_ok_exec(s: &TriggerStyle) -> (b: bool)
    ensures
        b == style_colors_ok(*s),
{
    let fg_ok = match &s.foreground {
        Some(f) => is_color_exec(f),
        None => true,
    };
    let bg_ok = match &s.background {
        Some(c) => is_color_exec(c),
        None => true,
    };
    fg_ok && bg_ok
}

fn config_colors_ok_exec(c: &Config) -> (b: bool)
    ensures
        b == config_colors_ok(*c),
{
    let top = match &c.colors {
        Some(p) => palette_ok_exec(p),
        None => true,
    };
    if !top || !is_color_exec(&c.background.overlay_color) {
        return false;
    }
    let theme_ok = match &c.theme {
        ThemeSpec::Full(t) => theme_colors_ok_exec(t),
        ThemeSpec::Name(_) => true,
    };
    if !theme_ok {
        return false;
    }
    let rules = &c.triggers.rules;
    let mut i: usize = 0;
    while i < rules.len()
        invariant
            i <= rules@.len(),
            rules == &c.triggers.rules,
            forall|k: int| 0 <= k < i ==> style_colors_ok(#[trigger] rules@[k].style),
        decreases rules@.len() - i,
    {
        if !style_colors_ok_exec(&rules[i].style) {
            return false;
        }
        i = i + 1;
    }
    true
}

/// The Ollama base URL a configuration resolves to.
pub open spec fn ollama_base_url_of(c: Config) -> Seq<char> {
    match c.ai.ollama.base_url {
        Some(u) => trim_end_char(u@, '/'),
        None => {
            let host = match c.ai.ollama.host {
                Some(h) => h@,
                None => "127.0.0.1"@,
            };
            let port: u16 = match c.ai.ollama.port {
                Some(p) => p,
                None => 11434,
            };
            "http://"@ + host + ":"@ + decimal_chars(port as nat)
        },
    }
}

impl Config {
    /// Check the settings that must be in range.
    pub fn validate(&mut self) -> (r: Result<(), ConfigError>)
        ensures
            *final(self) == *old(self),
            match r {
                Ok(()) => validation_error(*old(self)) is None,
                Err(ConfigError::Validate(m)) => validation_error(*old(self)) == Some(m@),
                Err(_) => false,
            },
    {
        if self.window.initial_cols < 1 || self.window.initial_rows < 1 {
            return Err(ConfigError::Validate(owned("window.initial_cols and initial_rows must be >= 1")));
        }
        if self.font.size.le_zero_exec() {
            return Err(ConfigError::Validate(owned("font.size must be > 0")));
        }
        if let Some(port) = self.ai.ollama.port {
            if port == 0 {
                return Err(ConfigError::Validate(owned("ai.ollama.port must be 1–65535")));
            }
        }
        match &self.scrollback.lines {
            ScrollbackLines::Limited(n) => {
                if *n == 0 {
                    return Err(
                        ConfigError::Validate(
                            owned("scrollback.lines must be > 0 or \"unlimited\""),
                        ),
                    );
                }
            },
            _ => {},
        }
        if self.background.filter.blur.lt_zero_exec() {
            return Err(ConfigError::Validate(owned("background.filter.blur must be >= 0")));
        }
        if !config_colors_ok_exec(self) {
            return Err(ConfigError::Validate(owned("color strings must be #RRGGBB or #RRGGBBAA")));
        }
        Ok(())
    }

    /// Take `loaded` in place of this configuration if it is valid; else
    /// keep this one, the last good configuration, and give the error.
    pub fn replace_if_valid(&mut self, loaded: Config) -> (r: Result<(), ConfigError>)
        ensures
            r is Ok <==> validation_error(loaded) is None,
            r is Ok ==> *final(self) == loaded,
            r is Err ==> *final(self) == *old(self),
            match r {
                Ok(()) => true,
                Err(ConfigError::Validate(m)) => validation_error(loaded) == Some(m@),
                Err(_) => false,
            },
    {
        let mut loaded = loaded;
        match loaded.validate() {
            Ok(()) => {
                *self = loaded;
                Ok(())
            },
            Err(e) => Err(e),
        }
    }

    /// Resolved visual theme: a builtin name with the top-level colors,
    /// padding and inactive dim that are set laid over it, or a fully
    /// inlined theme object.
    pub fn resolved_theme(&self) -> (t: Theme)
        ensures
            t@ == resolved_theme_of(*self),
    {
        let mut theme = Theme::resolve(&self.theme);
        if let ThemeSpec::Name(_) = &self.theme {
            // Legacy / simple configs: the top-level keys that are set override the builtin.
            if let Some(colors) = &self.colors {
                theme.colors = colors.clone();
            }
            if let Some(padding) = &self.window.padding {
                theme.window_padding = padding.clone();
            }
            if let Some(dim) = self.panes.inactive_dim {
                theme.panes.inactive_dim = dim;
            }
        }
        theme
    }

    /// Resolved Ollama base URL without trailing slash.
    pub fn ollama_base_url(&self) -> (u: String)
        ensures
            u@ == ollama_base_url_of(*self),
    {
        if let Some(url) = &self.ai.ollama.base_url {
            let trimmed = trim_end_char_exec(chars_of(url.as_str()).as_slice(), '/');
            return string_of(trimmed.as_slice());
        }
        let mut out = chars_of("http://");
        match &self.ai.ollama.host {
            Some(h) => {
                let mut hc = chars_of(h.as_str());
                out.append(&mut hc);
            },
            None => {
                let mut hc = chars_of("127.0.0.1");
                out.append(&mut hc);
            },
        }
        out.push(':');
        let port: u16 = match self.ai.ollama.port {
            Some(p) => p,
            None => 11434,
        };
        let ghost before = out@;
        push_decimal_chars(&mut out, port as u64);
        proof {
            reveal_strlit(":");
            assert(":"@ =~= seq![':']);
        }
        string_of(out.as_slice())
    }
}

/// Where the user configuration lives: the path given by the environment
/// override if any, else `neuterm/config.yaml` under the platform's
/// configuration directory (given as that file's path), else `config.yaml`.
pub fn config_path_from(env_override: Option<String>, config_dir_file: Option<String>) -> (p: String)
    ensures
        p@ == (match (env_override, config_dir_file) {
            (Some(e), _) => e@,
            (None, Some(d)) => d@,
            (None, None) => "config.yaml"@,
        }),
{
    if let Some(p) = env_override {
        return p;
    }
    if let Some(d) = config_dir_file {
        return d;
    }
    owned("config.yaml")
}

} // verus!
