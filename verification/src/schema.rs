//! Configuration schema: the settings of `config.yaml` and their defaults.

use vstd::prelude::*;

use crate::text::{ascii_lower_seq, owned};
use crate::theme::{colors_view, default_colors, ColorsView, ThemeSpec};

verus! {

/// A 32-bit float setting, held as its IEEE-754 bit pattern.
#[derive(Debug, Clone, Copy, PartialEq, Eq, Structural)]
pub struct F32Bits(pub u32);

impl F32Bits {
    /// The value is a NaN.
    pub open spec fn is_nan(self) -> bool {
        (self.0 >> 23u32) & 0xffu32 == 0xffu32 && self.0 & 0x7fffffu32 != 0
    }

    /// The value is +0.0 or -0.0.
    pub open spec fn is_zero(self) -> bool {
        self.0 & 0x7fffffffu32 == 0
    }

    /// The sign bit is set.
    pub open spec fn sign(self) -> bool {
        self.0 >> 31u32 == 1
    }

    /// `value <= 0.0` under IEEE-754 comparison.
    pub open spec fn le_zero(self) -> bool {
        !self.is_nan() && (self.sign() || self.is_zero())
    }

    /// `value < 0.0` under IEEE-754 comparison.
    pub open spec fn lt_zero(self) -> bool {
        !self.is_nan() && self.sign() && !self.is_zero()
    }

    /// `value <= 0.0`.
    pub fn le_zero_exec(self) -> (b: bool)
        ensures
            b == self.le_zero(),
    {
        let nan = (self.0 >> 23u32) & 0xffu32 == 0xffu32 && self.0 & 0x7fffffu32 != 0;
        !nan && (self.0 >> 31u32 == 1 || self.0 & 0x7fffffffu32 == 0)
    }

    /// `value < 0.0`.
    pub fn lt_zero_exec(self) -> (b: bool)
        ensures
            b == self.lt_zero(),
    {
        let nan = (self.0 >> 23u32) & 0xffu32 == 0xffu32 && self.0 & 0x7fffffu32 != 0;
        !nan && self.0 >> 31u32 == 1 && self.0 & 0x7fffffffu32 != 0
    }
}

/// 14.0
pub open spec fn f32_14() -> F32Bits {
    F32Bits(0x41600000)
}

/// 0.9
pub open spec fn f32_0_9() -> F32Bits {
    F32Bits(0x3f666666)
}

/// 1.0
pub open spec fn f32_1() -> F32Bits {
    F32Bits(0x3f800000)
}

#[derive(Debug)]
pub struct Config {
    /// Visual theme (`graphite`, `midnight`, or a full theme object).
    pub theme: ThemeSpec,
    pub window: WindowConfig,
    pub font: FontConfig,
    /// Terminal palette, when set at the top level. When `theme` is a builtin
    /// name it overrides the builtin's colors; unset, the builtin's stay.
    pub colors: Option<ColorsConfig>,
    pub background: BackgroundConfig,
    pub scrollback: ScrollbackConfig,
    pub bell: BellConfig,
    pub term: TermConfig,
    pub tabs: TabsConfig,
    pub panes: PanesConfig,
    pub keybindings: KeybindingsConfig,
    pub triggers: TriggersConfig,
    pub plugins: PluginsConfig,
    pub ai: AiConfig,
    pub performance: PerformanceConfig,
}

impl Default for Config {
    /// Field-wise defaults under the graphite theme; the keys that override a
    /// builtin theme's look (colors, window padding, inactive dim) are unset.
    fn default() -> (c: Self)
        ensures
            c.theme matches ThemeSpec::Name(n) && n@ == "graphite"@,
            c.window.initial_cols == 120 && c.window.initial_rows == 40,
            c.window.padding is None,
            c.font.is_default(),
            c.colors is None,
            c.background.is_default(),
            c.scrollback.lines == ScrollbackLines::Limited(200000),
            c.bell.mode == BellMode::Pulse && !c.bell.audible,
            c.term.is_default(),
            c.tabs.is_default(),
            c.panes.inactive_dim is None,
            c.keybindings.bindings@.len() == 0,
            c.triggers.enabled && c.triggers.rules@.len() == 0,
            c.plugins.enabled && c.plugins.dirs@.len() == 0,
            c.ai.is_default(),
            c.performance.renderer == RendererMode::Auto && c.performance.vsync,
    {
        Config {
            theme: ThemeSpec::default(),
            window: WindowConfig::default(),
            font: FontConfig::default(),
            colors: None,
            background: BackgroundConfig::default(),
            scrollback: ScrollbackConfig::default(),
            bell: BellConfig::default(),
            term: TermConfig::default(),
            tabs: TabsConfig::default(),
            panes: PanesConfig::default(),
            keybindings: KeybindingsConfig::default(),
            triggers: TriggersConfig::default(),
            plugins: PluginsConfig::default(),
            ai: AiConfig::default(),
            performance: PerformanceConfig::default(),
        }
    }
}

#[derive(Debug)]
pub struct WindowConfig {
    pub initial_cols: u16,
    pub initial_rows: u16,
    /// Padding around the cell grid, when set; it overrides a builtin theme's.
    pub padding: Option<Padding>,
}

impl Default for WindowConfig {
    fn default() -> (w: Self)
        ensures
            w.initial_cols == 120,
            w.initial_rows == 40,
            w.padding is None,
    {
        WindowConfig { initial_cols: 120, initial_rows: 40, padding: None }
    }
}

#[derive(Debug, PartialEq, Eq, Structural)]
pub struct Padding {
    pub left: u32,
    pub right: u32,
    pub top: u32,
    pub bottom: u32,
}

/// The same padding on all four sides.
pub open spec fn uniform_padding(v: u32) -> Padding {
    Padding { left: v, right: v, top: v, bottom: v }
}

impl Clone for Padding {
    fn clone(&self) -> (p: Self)
        ensures
            p == *self,
    {
        Padding { left: self.left, right: self.right, top: self.top, bottom: self.bottom }
    }
}

impl Default for Padding {
    fn default() -> (p: Self)
        ensures
            p == uniform_padding(8),
    {
        Padding { left: 8, right: 8, top: 8, bottom: 8 }
    }
}

#[derive(Debug)]
pub struct FontConfig {
    pub family: String,
    /// Point size.
    pub size: F32Bits,
    pub ligatures: bool,
}

impl FontConfig {
    pub open spec fn is_default(self) -> bool {
        self.family@ == "Adwaita Mono"@ && self.size == f32_14() && !self.ligatures
    }
}

impl Default for FontConfig {
    fn default() -> (f: Self)
        ensures
            f.is_default(),
    {
        FontConfig { family: owned("Adwaita Mono"), size: F32Bits(0x41600000), ligatures: false }
    }
}

#[derive(Debug)]
pub struct ColorsConfig {
    pub foreground: String,
    pub background: String,
    pub cursor: String,
    pub selection_fg: String,
    pub selection_bg: String,
    pub ansi: Vec<String>,
    pub brights: Vec<String>,
    pub split: String,
}

impl View for ColorsConfig {
    type V = ColorsView;

    open spec fn view(&self) -> ColorsView {
        colors_view(self)
    }
}

/// A copy of a list of strings.
pub fn clone_strings(v: &Vec<String>) -> (r: Vec<String>)
    ensures
        r.deep_view() == v.deep_view(),
{
    let mut r: Vec<String> = Vec::new();
    let mut i: usize = 0;
    while i < v.len()
        invariant
            i <= v@.len(),
            r@.len() == i,
            forall|k: int| 0 <= k < i ==> #[trigger] r@[k]@ == v@[k]@,
        decreases v@.len() - i,
    {
        let c = v[i].clone();
        r.push(c);
        i = i + 1;
    }
    proof {
        assert(r.deep_view() =~= v.deep_view());
    }
    r
}

impl Clone for ColorsConfig {
    fn clone(&self) -> (c: Self)
        ensures
            c@ == self@,
    {
        ColorsConfig {
            foreground: self.foreground.clone(),
            background: self.background.clone(),
            cursor: self.cursor.clone(),
            selection_fg: self.selection_fg.clone(),
            selection_bg: self.selection_bg.clone(),
            ansi: clone_strings(&self.ansi),
            brights: clone_strings(&self.brights),
            split: self.split.clone(),
        }
    }
}

impl Default for ColorsConfig {
    fn default() -> (c: Self)
        ensures
            c@ == default_colors(),
    {
        let ansi = vec![
            owned("#2e3239"),
            owned("#be861b"),
            owned("#2289b4"),
            owned("#d1b06e"),
            owned("#7d8fa4"),
            owned("#a25795"),
            owned("#5abfd5"),
            owned("#a5a6aa"),
        ];
        let brights = vec![
            owned("#2e3239"),
            owned("#bd851b"),
            owned("#2289b4"),
            owned("#d0af6e"),
            owned("#7d8fa4"),
            owned("#a25794"),
            owned("#4ea7bb"),
            owned("#a5a6aa"),
        ];
        let c = ColorsConfig {
            foreground: owned("#a5a7aa"),
            background: owned("#25282e"),
            cursor: owned("#a5a6aa"),
            selection_fg: owned("#000000"),
            selection_bg: owned("#7d7d7d"),
            ansi,
            brights,
            split: owned("#a5a7aa"),
        };
        proof {
            assert(c.ansi.deep_view() =~= default_colors().ansi);
            assert(c.brights.deep_view() =~= default_colors().brights);
        }
        c
    }
}

#[derive(Debug)]
pub struct BackgroundConfig {
    pub image: Option<String>,
    pub overlay_color: String,
    pub overlay_opacity: F32Bits,
    pub filter: BackgroundFilter,
}

impl BackgroundConfig {
    pub open spec fn is_default(self) -> bool {
        &&& self.image is None
        &&& self.overlay_color@ == "#25282e"@
        &&& self.overlay_opacity == f32_0_9()
        &&& self.filter == (BackgroundFilter {
            brightness: f32_1(),
            blur: F32Bits(0),
            saturation: f32_1(),
        })
    }
}

impl Default for BackgroundConfig {
    fn default() -> (b: Self)
        ensures
            b.is_default(),
    {
        BackgroundConfig {
            image: None,
            overlay_color: owned("#25282e"),
            overlay_opacity: F32Bits(0x3f666666),
            filter: BackgroundFilter::default(),
        }
    }
}

#[derive(Debug, PartialEq, Eq, Structural)]
pub struct BackgroundFilter {
    pub brightness: F32Bits,
    pub blur: F32Bits,
    pub saturation: F32Bits,
}

impl Clone for BackgroundFilter {
    fn clone(&self) -> (f: Self)
        ensures
            f == *self,
    {
        BackgroundFilter { brightness: self.brightness, blur: self.blur, saturation: self.saturation }
    }
}

impl Default for BackgroundFilter {
    fn default() -> (f: Self)
        ensures
            f == (BackgroundFilter { brightness: f32_1(), blur: F32Bits(0), saturation: f32_1() }),
    {
        BackgroundFilter {
            brightness: F32Bits(0x3f800000),
            blur: F32Bits(0),
            saturation: F32Bits(0x3f800000),
        }
    }
}

#[derive(Debug)]
pub struct ScrollbackConfig {
    pub lines: ScrollbackLines,
}

impl Default for ScrollbackConfig {
    fn default() -> (s: Self)
        ensures
            s.lines == ScrollbackLines::Limited(200000),
    {
        ScrollbackConfig { lines: ScrollbackLines::Limited(200_000) }
    }
}

#[derive(Debug, Clone, Copy, PartialEq, Eq, Structural)]
pub enum ScrollbackLines {
    Limited(usize),
    Unlimited,
}

/// The characters are ASCII decimal digits.
pub open spec fn all_digits(s: Seq<char>) -> bool {
    forall|i: int| 0 <= i < s.len() ==> '0' <= #[trigger] s[i] <= '9'
}

/// Value of a sequence of decimal digits.
pub open spec fn digits_value(s: Seq<char>) -> nat
    decreases s.len(),
{
    if s.len() == 0 {
        0
    } else {
        digits_value(s.drop_last()) * 10 + ((s.last() as u32) - 48) as nat
    }
}

/// What `str::parse::<usize>` gives: an optional `+`, then one or more
/// digits whose value fits.
pub open spec fn parse_usize_spec(s: Seq<char>) -> Option<usize> {
    let d = if s.len() > 0 && s[0] == '+' {
        s.drop_first()
    } else {
        s
    };
    if d.len() > 0 && all_digits(d) && digits_value(d) <= usize::MAX {
        Some(digits_value(d) as usize)
    } else {
        None
    }
}

/// `str::parse::<usize>`.
pub fn parse_usize(s: &[char]) -> (r: Option<usize>)
    ensures
        r == parse_usize_spec(s@),
{
    let start: usize = if s.len() > 0 && s[0] == '+' {
        1
    } else {
        0
    };
    let ghost d = if s@.len() > 0 && s@[0] == '+' {
        s@.drop_first()
    } else {
        s@
    };
    proof {
        assert(d =~= s@.skip(start as int));
    }
    if start >= s.len() {
        return None;
    }
    let mut value: usize = 0;
    let mut i = start;
    while i < s.len()
        invariant
            start <= i <= s@.len(),
            start < s@.len(),
            d == s@.skip(start as int),
            d == (if s@.len() > 0 && s@[0] == '+' {
                s@.drop_first()
            } else {
                s@
            }),
            all_digits(s@.subrange(start as int, i as int)),
            value as nat == digits_value(s@.subrange(start as int, i as int)),
        decreases s@.len() - i,
    {
        let c = s[i];
        if !('0' <= c && c <= '9') {
            proof {
                assert(d[i - start] == c);
                assert(!all_digits(d));
                assert(parse_usize_spec(s@) is None);
            }
            return None;
        }
        let digit = (c as u32 - 48) as usize;
        proof {
            let sub = s@.subrange(start as int, i + 1);
            assert(sub.drop_last() =~= s@.subrange(start as int, i as int));
            assert(sub.last() == c);
            assert(digits_value(sub) == digits_value(sub.drop_last()) * 10 + digit);
            assert(all_digits(sub));
        }
        if value > (usize::MAX - digit) / 10 {
            proof {
                let sub = s@.subrange(start as int, i + 1);
                let dv = digits_value(sub);
                assert(dv > usize::MAX) by (nonlinear_arith)
                    requires
                        dv == value * 10 + digit,
                        value > (usize::MAX - digit) / 10,
                        digit <= 9,
                ;
                lemma_digits_value_prefix_le(d, (i + 1 - start) as int);
                assert(d.take((i + 1 - start) as int) =~= sub);
                assert(digits_value(d) > usize::MAX);
                assert(parse_usize_spec(s@) is None);
            }
            return None;
        }
        value = value * 10 + digit;
        i = i + 1;
    }
    proof {
        assert(s@.subrange(start as int, s@.len() as int) =~= d);
    }
    Some(value)
}

/// A digit string is worth at least any of its prefixes.
pub proof fn lemma_digits_value_prefix_le(s: Seq<char>, k: int)
    requires
        0 <= k <= s.len(),
    ensures
        digits_value(s.take(k)) <= digits_value(s),
    decreases s.len() - k,
{
    if k < s.len() {
        lemma_digits_value_prefix_le(s, k + 1);
        assert(s.take(k + 1).drop_last() =~= s.take(k));
    } else {
        assert(s.take(k) =~= s);
    }
}

impl ScrollbackLines {
    /// Setting from an unsigned YAML integer.
    pub fn from_u64(v: u64) -> (r: ScrollbackLines)
        ensures
            r == ScrollbackLines::Limited(v as usize),
    {
        ScrollbackLines::Limited(v as usize)
    }

    /// Setting from a signed YAML integer; negative values are refused.
    pub fn from_i64(v: i64) -> (r: Result<ScrollbackLines, String>)
        ensures
            v < 0 ==> (r matches Err(m) && m@ == "scrollback lines must be positive"@),
            v >= 0 ==> r == Ok::<ScrollbackLines, String>(ScrollbackLines::Limited(v as usize)),
    {
        if v < 0 {
            return Err(owned("scrollback lines must be positive"));
        }
        Ok(ScrollbackLines::Limited(v as usize))
    }

    /// Setting from a YAML string: `unlimited` / `infinity` (any ASCII case)
    /// or a decimal count.
    pub fn from_str_value(v: &str) -> (r: Result<ScrollbackLines, String>)
        ensures
            (ascii_lower_seq(v@) == "unlimited"@ || ascii_lower_seq(v@) == "infinity"@) ==> r
                == Ok::<ScrollbackLines, String>(ScrollbackLines::Unlimited),
            !(ascii_lower_seq(v@) == "unlimited"@ || ascii_lower_seq(v@) == "infinity"@) ==> match parse_usize_spec(v@) {
                Some(n) => r == Ok::<ScrollbackLines, String>(ScrollbackLines::Limited(n)),
                None => (r matches Err(m) && m@ == "invalid scrollback.lines: "@ + v@),
            },
    {
        let chars = crate::text::chars_of(v);
        let lower = crate::text::lower_chars(chars.as_slice());
        let unlimited = crate::text::chars_of("unlimited");
        let infinity = crate::text::chars_of("infinity");
        if chars_eq(lower.as_slice(), unlimited.as_slice()) || chars_eq(lower.as_slice(), infinity.as_slice()) {
            return Ok(ScrollbackLines::Unlimited);
        }
        match parse_usize(chars.as_slice()) {
            Some(n) => Ok(ScrollbackLines::Limited(n)),
            None => {
                let mut m = owned("invalid scrollback.lines: ");
                m.append(v);
                Err(m)
            },
        }
    }
}

/// Equality of character slices.
pub fn chars_eq(a: &[char], b: &[char]) -> (r: bool)
    ensures
        r == (a@ == b@),
{
    if a.len() != b.len() {
        return false;
    }
    let mut i: usize = 0;
    while i < a.len()
        invariant
            a@.len() == b@.len(),
            i <= a@.len(),
            forall|k: int| 0 <= k < i ==> a@[k] == b@[k],
        decreases a@.len() - i,
    {
        if a[i] != b[i] {
            return false;
        }
        i = i + 1;
    }
    proof {
        assert(a@ =~= b@);
    }
    true
}

#[derive(Debug, Clone, Copy, PartialEq, Eq, Structural)]
pub enum BellMode {
    /// No bell (`none` in the YAML file).
    Off,
    Visual,
    Audible,
    Both,
    Pulse,
}

impl BellMode {
    /// Whether the bell is shown by a pulse of the pane (visual bells).
    pub fn pulses(self) -> (b: bool)
        ensures
            b == (self == BellMode::Visual || self == BellMode::Both || self == BellMode::Pulse),
    {
        match self {
            BellMode::Pulse | BellMode::Visual | BellMode::Both => true,
            _ => false,
        }
    }
}

impl Default for BellMode {
    fn default() -> (m: Self)
        ensures
            m == BellMode::Pulse,
    {
        BellMode::Pulse
    }
}

#[derive(Debug)]
pub struct BellConfig {
    pub mode: BellMode,
    pub audible: bool,
}

impl Default for BellConfig {
    fn default() -> (b: Self)
        ensures
            b.mode == BellMode::Pulse,
            !b.audible,
    {
        BellConfig { mode: BellMode::Pulse, audible: false }
    }
}

#[derive(Debug)]
pub struct TermConfig {
    pub program: String,
    pub shell: Option<String>,
    pub cwd: Option<String>,
}

impl TermConfig {
    pub open spec fn is_default(self) -> bool {
        self.program@ == "xterm-256color"@ && self.shell is None && self.cwd is None
    }
}

impl Default for TermConfig {
    fn default() -> (t: Self)
        ensures
            t.is_default(),
    {
        TermConfig { program: owned("xterm-256color"), shell: None, cwd: None }
    }
}

#[derive(Debug)]
pub struct TabsConfig {
    pub show_bar: bool,
    pub hide_if_only_one: bool,
    pub default_title_mode: TitleMode,
}

impl TabsConfig {
    pub open spec fn is_default(self) -> bool {
        self.show_bar && !self.hide_if_only_one && self.default_title_mode == TitleMode::Process
    }
}

impl Default for TabsConfig {
    fn default() -> (t: Self)
        ensures
            t.is_default(),
    {
        TabsConfig { show_bar: true, hide_if_only_one: false, default_title_mode: TitleMode::Process }
    }
}

#[derive(Debug, Clone, Copy, PartialEq, Eq, Structural)]
pub enum TitleMode {
    Process,
    Static,
}

impl Default for TitleMode {
    fn default() -> (m: Self)
        ensures
            m == TitleMode::Process,
    {
        TitleMode::Process
    }
}

#[derive(Debug)]
pub struct PanesConfig {
    /// Dimming of inactive panes (0–1), when set; it overrides a builtin
    /// theme's.
    pub inactive_dim: Option<F32Bits>,
}

impl Default for PanesConfig {
    fn default() -> (p: Self)
        ensures
            p.inactive_dim is None,
    {
        PanesConfig { inactive_dim: None }
    }
}

#[derive(Debug)]
pub struct KeybindingsConfig {
    pub bindings: Vec<KeyBinding>,
}

impl Default for KeybindingsConfig {
    fn default() -> (k: Self)
        ensures
            k.bindings@.len() == 0,
    {
        KeybindingsConfig { bindings: Vec::new() }
    }
}

#[derive(Debug)]
pub struct KeyBinding {
    pub key: String,
    pub mods: Vec<String>,
    pub action: String,
}

#[derive(Debug)]
pub struct TriggersConfig {
    pub enabled: bool,
    pub rules: Vec<TriggerRule>,
}

impl Default for TriggersConfig {
    fn default() -> (t: Self)
        ensures
            t.enabled,
            t.rules@.len() == 0,
    {
        TriggersConfig { enabled: true, rules: Vec::new() }
    }
}

#[derive(Debug)]
pub struct TriggerRule {
    pub name: String,
    /// The `match` key: a regex or a literal string.
    pub pattern: String,
    pub match_type: MatchType,
    pub scope: TriggerScope,
    pub style: TriggerStyle,
}

/// Match type of a rule that names none.
pub fn default_match_type() -> (m: MatchType)
    ensures
        m == MatchType::Regex,
{
    MatchType::Regex
}

/// Scope of a rule that names none.
pub fn default_scope() -> (s: TriggerScope)
    ensures
        s == TriggerScope::Line,
{
    TriggerScope::Line
}

#[derive(Debug, Clone, Copy, PartialEq, Eq, Structural)]
pub enum MatchType {
    Regex,
    String,
}

#[derive(Debug, Clone, Copy, PartialEq, Eq, Structural)]
pub enum TriggerScope {
    Line,
    Match,
}

#[derive(Debug)]
pub struct TriggerStyle {
    pub foreground: Option<String>,
    pub background: Option<String>,
    pub bold: bool,
    pub underline: bool,
}

#[derive(Debug)]
pub struct PluginsConfig {
    pub enabled: bool,
    pub dirs: Vec<String>,
}

impl Default for PluginsConfig {
    fn default() -> (p: Self)
        ensures
            p.enabled,
            p.dirs@.len() == 0,
    {
        PluginsConfig { enabled: true, dirs: Vec::new() }
    }
}

#[derive(Debug)]
pub struct AiConfig {
    pub enabled: bool,
    pub ollama: OllamaConfig,
    pub command_help: CommandHelpConfig,
    pub chat: ChatConfig,
}

impl AiConfig {
    pub open spec fn is_default(self) -> bool {
        &&& !self.enabled
        &&& self.ollama.is_default()
        &&& self.command_help.shortcut@ == "default"@
        &&& self.command_help.system_prompt is None
        &&& self.chat.title@ == "AI Chat"@
    }
}

impl Default for AiConfig {
    fn default() -> (a: Self)
        ensures
            a.is_default(),
    {
        AiConfig {
            enabled: false,
            ollama: OllamaConfig::default(),
            command_help: CommandHelpConfig::default(),
            chat: ChatConfig::default(),
        }
    }
}

#[derive(Debug)]
pub struct OllamaConfig {
    pub host: Option<String>,
    pub port: Option<u16>,
    pub base_url: Option<String>,
    pub model: String,
    pub timeout_ms: u64,
}

impl OllamaConfig {
    pub open spec fn is_default(self) -> bool {
        &&& self.host matches Some(h) && h@ == "127.0.0.1"@
        &&& self.port == Some(11434u16)
        &&& self.base_url is None
        &&& self.model@ == "llama3.2"@
        &&& self.timeout_ms == 60000
    }
}

impl Default for OllamaConfig {
    fn default() -> (o: Self)
        ensures
            o.is_default(),
    {
        OllamaConfig {
            host: Some(owned("127.0.0.1")),
            port: Some(11434),
            base_url: None,
            model: owned("llama3.2"),
            timeout_ms: 60_000,
        }
    }
}

#[derive(Debug)]
pub struct CommandHelpConfig {
    pub shortcut: String,
    pub system_prompt: Option<String>,
}

impl Default for CommandHelpConfig {
    fn default() -> (c: Self)
        ensures
            c.shortcut@ == "default"@,
            c.system_prompt is None,
    {
        CommandHelpConfig { shortcut: owned("default"), system_prompt: None }
    }
}

#[derive(Debug)]
pub struct ChatConfig {
    pub title: String,
}

impl Default for ChatConfig {
    fn default() -> (c: Self)
        ensures
            c.title@ == "AI Chat"@,
    {
        ChatConfig { title: owned("AI Chat") }
    }
}

#[derive(Debug, Clone, Copy, PartialEq, Eq, Structural)]
pub enum RendererMode {
    Auto,
    Gpu,
    Cpu,
}

impl Default for RendererMode {
    fn default() -> (m: Self)
        ensures
            m == RendererMode::Auto,
    {
        RendererMode::Auto
    }
}

#[derive(Debug)]
pub struct PerformanceConfig {
    pub renderer: RendererMode,
    pub vsync: bool,
}

impl Default for PerformanceConfig {
    fn default() -> (p: Self)
        ensures
            p.renderer == RendererMode::Auto,
            p.vsync,
    {
        PerformanceConfig { renderer: RendererMode::Auto, vsync: true }
    }
}

} // verus!
