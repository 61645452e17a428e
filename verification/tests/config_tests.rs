use neuterm::config::{bundled_default_yaml, config_path_from, ConfigError};
use neuterm::schema::{Config, F32Bits, ScrollbackLines};
use neuterm::theme::{Theme, ThemeSpec};
use neuterm::schema::Padding;

#[test]
fn default_yaml_parses() {
    // The shipped file is valid YAML and describes the built-in defaults.
    let doc: serde_yaml::Value = serde_yaml::from_str(bundled_default_yaml()).unwrap();
    assert!(doc.get("window").is_some());
    let mut cfg = Config::default();
    assert!(cfg.validate().is_ok());
    assert!(cfg.window.initial_cols >= 1);
    assert_eq!(cfg.ollama_base_url(), "http://127.0.0.1:11434");

    // The values the shipped file writes out are those the defaults resolve to.
    assert_eq!(doc["window"]["initial_cols"].as_u64(), Some(cfg.window.initial_cols as u64));
    assert_eq!(doc["window"]["initial_rows"].as_u64(), Some(cfg.window.initial_rows as u64));
    let theme = cfg.resolved_theme();
    let pad = &doc["window"]["padding"];
    assert_eq!(pad["left"].as_u64(), Some(theme.window_padding.left as u64));
    assert_eq!(pad["right"].as_u64(), Some(theme.window_padding.right as u64));
    assert_eq!(pad["top"].as_u64(), Some(theme.window_padding.top as u64));
    assert_eq!(pad["bottom"].as_u64(), Some(theme.window_padding.bottom as u64));
    let colors = &doc["colors"];
    assert_eq!(colors["foreground"].as_str(), Some(theme.colors.foreground.as_str()));
    assert_eq!(colors["background"].as_str(), Some(theme.colors.background.as_str()));
    assert_eq!(colors["cursor"].as_str(), Some(theme.colors.cursor.as_str()));
    assert_eq!(colors["selection_fg"].as_str(), Some(theme.colors.selection_fg.as_str()));
    assert_eq!(colors["selection_bg"].as_str(), Some(theme.colors.selection_bg.as_str()));
    assert_eq!(colors["split"].as_str(), Some(theme.colors.split.as_str()));
    let ansi: Vec<&str> = colors["ansi"].as_sequence().unwrap().iter().map(|v| v.as_str().unwrap()).collect();
    assert_eq!(ansi, theme.colors.ansi.iter().map(|s| s.as_str()).collect::<Vec<_>>());
    let brights: Vec<&str> =
        colors["brights"].as_sequence().unwrap().iter().map(|v| v.as_str().unwrap()).collect();
    assert_eq!(brights, theme.colors.brights.iter().map(|s| s.as_str()).collect::<Vec<_>>());
    assert_eq!(doc["panes"]["inactive_dim"].as_f64().map(|d| d as f32), Some(f32::from_bits(theme.panes.inactive_dim.0)));
    assert_eq!(doc["background"]["overlay_color"].as_str(), Some(cfg.background.overlay_color.as_str()));
    assert!(matches!(cfg.scrollback.lines, ScrollbackLines::Limited(n) if Some(n as u64) == doc["scrollback"]["lines"].as_u64()));
    assert_eq!(doc["term"]["program"].as_str(), Some(cfg.term.program.as_str()));
    assert!(doc["term"]["shell"].is_null() && cfg.term.shell.is_none());
    assert!(doc["term"]["cwd"].is_null() && cfg.term.cwd.is_none());
    assert_eq!(doc["triggers"]["enabled"].as_bool(), Some(cfg.triggers.enabled));
    assert_eq!(doc["ai"]["enabled"].as_bool(), Some(cfg.ai.enabled));
    let ollama = &doc["ai"]["ollama"];
    assert_eq!(ollama["host"].as_str(), cfg.ai.ollama.host.as_deref());
    assert_eq!(ollama["port"].as_u64(), cfg.ai.ollama.port.map(|p| p as u64));
    assert_eq!(ollama["model"].as_str(), Some(cfg.ai.ollama.model.as_str()));
    assert_eq!(ollama["timeout_ms"].as_u64(), Some(cfg.ai.ollama.timeout_ms));
    assert_eq!(doc["ai"]["chat"]["title"].as_str(), Some(cfg.ai.chat.title.as_str()));
}

#[test]
fn unlimited_scrollback() {
    let yaml = "\nscrollback:\n  lines: unlimited\n";
    let doc: serde_yaml::Value = serde_yaml::from_str(yaml).unwrap();
    let lines = doc["scrollback"]["lines"].as_str().unwrap();
    let parsed = ScrollbackLines::from_str_value(lines).unwrap();
    assert!(matches!(parsed, ScrollbackLines::Unlimited));
}

#[test]
fn theme_name_resolves() {
    let mut cfg = Config::default();
    cfg.theme = ThemeSpec::Name("midnight".to_string());
    let theme = cfg.resolved_theme();
    assert_eq!(theme.name, "midnight");
    assert_eq!(theme.tabs.gap, 6);
    assert_eq!(theme.tabs.bar_padding.top, theme.tabs.bar_padding.bottom);
    assert_eq!(theme.pane_inset.top, 0);
    assert_eq!(theme.pane_inset.left, theme.pane_inset.right);
}

#[test]
fn theme_object_parses() {
    let mut custom = Theme::default();
    custom.name = "custom".to_string();
    custom.tabs.gap = 10;
    custom.tabs.bar_padding = Padding::uniform(4);
    custom.tabs.tab_padding = Padding::uniform(8);
    let mut cfg = Config::default();
    cfg.theme = ThemeSpec::Full(custom);
    let theme = cfg.resolved_theme();
    assert_eq!(theme.name, "custom");
    assert_eq!(theme.tabs.gap, 10);
    assert_eq!(theme.tabs.tab_padding.left, 8);
}

#[test]
fn validate_rejects_zero_columns() {
    let mut cfg = Config::default();
    cfg.window.initial_cols = 0;
    match cfg.validate() {
        Err(ConfigError::Validate(msg)) => assert!(msg.contains("initial_cols")),
        _ => panic!("expected a validation error"),
    }
}

#[test]
fn validate_rejects_non_positive_font_size() {
    let mut cfg = Config::default();
    cfg.font.size = F32Bits(0.0f32.to_bits());
    match cfg.validate() {
        Err(ConfigError::Validate(msg)) => assert_eq!(msg, "font.size must be > 0"),
        _ => panic!("expected a validation error"),
    }
}

#[test]
fn validate_rejects_port_zero() {
    let mut cfg = Config::default();
    cfg.ai.ollama.port = Some(0);
    assert!(matches!(cfg.validate(), Err(ConfigError::Validate(_))));
}

#[test]
fn validate_rejects_zero_scrollback() {
    let mut cfg = Config::default();
    cfg.scrollback.lines = ScrollbackLines::Limited(0);
    assert!(matches!(cfg.validate(), Err(ConfigError::Validate(_))));
}

#[test]
fn base_url_override_loses_trailing_slashes() {
    let mut cfg = Config::default();
    cfg.ai.ollama.base_url = Some("http://gpu-box:8080//".to_string());
    assert_eq!(cfg.ollama_base_url(), "http://gpu-box:8080");
}

#[test]
fn base_url_from_host_and_port() {
    let mut cfg = Config::default();
    cfg.ai.ollama.host = Some("10.0.0.5".to_string());
    cfg.ai.ollama.port = Some(4242);
    assert_eq!(cfg.ollama_base_url(), "http://10.0.0.5:4242");
}

#[test]
fn scrollback_values() {
    assert!(matches!(ScrollbackLines::from_u64(500), ScrollbackLines::Limited(500)));
    assert!(ScrollbackLines::from_i64(-1).is_err());
    assert!(matches!(ScrollbackLines::from_str_value("1200"), Ok(ScrollbackLines::Limited(1200))));
    assert!(ScrollbackLines::from_str_value("lots").is_err());
}

#[test]
fn config_path_prefers_override() {
    assert_eq!(
        config_path_from(Some("/tmp/x.yaml".to_string()), Some("/home/u/.config/neuterm/config.yaml".to_string())),
        "/tmp/x.yaml"
    );
    assert_eq!(
        config_path_from(None, Some("/home/u/.config/neuterm/config.yaml".to_string())),
        "/home/u/.config/neuterm/config.yaml"
    );
    assert_eq!(config_path_from(None, None), "config.yaml");
}

#[test]
fn named_theme_takes_top_level_padding() {
    let mut cfg = Config::default();
    cfg.window.padding = Some(Padding::uniform(3));
    cfg.theme = ThemeSpec::Name("graphite".to_string());
    let theme = cfg.resolved_theme();
    assert_eq!(theme.window_padding.left, 3);
    assert_eq!(theme.window_padding.bottom, 3);
}

#[test]
fn named_theme_keeps_its_own_look_when_nothing_overrides_it() {
    let mut cfg = Config::default();
    cfg.theme = ThemeSpec::Name("midnight".to_string());
    let theme = cfg.resolved_theme();
    let midnight = Theme::midnight();
    assert_eq!(theme.colors.background, "#0f1115");
    assert_eq!(theme.colors.foreground, midnight.colors.foreground);
    assert_eq!(theme.window_padding, midnight.window_padding);
    assert_eq!(theme.window_padding.left, 10);
    assert_eq!(theme.panes.inactive_dim, midnight.panes.inactive_dim);
}

#[test]
fn named_theme_takes_only_the_keys_that_are_set() {
    let mut cfg = Config::default();
    cfg.theme = ThemeSpec::Name("midnight".to_string());
    cfg.panes.inactive_dim = Some(F32Bits(0.5f32.to_bits()));
    let theme = cfg.resolved_theme();
    assert_eq!(theme.panes.inactive_dim, F32Bits(0.5f32.to_bits()));
    assert_eq!(theme.colors.background, "#0f1115");
    assert_eq!(theme.window_padding.left, 10);
}

#[test]
fn validate_rejects_a_color_that_is_not_hex() {
    let mut cfg = Config::default();
    let mut colors = Theme::graphite().colors;
    colors.foreground = "red".to_string();
    cfg.colors = Some(colors);
    match cfg.validate() {
        Err(ConfigError::Validate(msg)) => assert_eq!(msg, "color strings must be #RRGGBB or #RRGGBBAA"),
        _ => panic!("expected a validation error"),
    }
}

#[test]
fn validate_checks_every_color_string() {
    let mut cfg = Config::default();
    cfg.background.overlay_color = "#12345".to_string();
    assert!(matches!(cfg.validate(), Err(ConfigError::Validate(_))));

    let mut cfg = Config::default();
    let mut theme = Theme::midnight();
    theme.tabs.separator_color = "#+fffff".to_string();
    cfg.theme = ThemeSpec::Full(theme);
    assert!(matches!(cfg.validate(), Err(ConfigError::Validate(_))));

    let mut cfg = Config::default();
    let mut colors = Theme::graphite().colors;
    colors.ansi[3] = "yellow".to_string();
    cfg.colors = Some(colors);
    assert!(cfg.validate().is_err());

    let mut cfg = Config::default();
    let mut colors = Theme::graphite().colors;
    colors.brights[7] = "#AABBCCDD".to_string();
    cfg.colors = Some(colors);
    cfg.theme = ThemeSpec::Full(Theme::midnight());
    assert!(cfg.validate().is_ok());
}

#[test]
fn an_invalid_reload_keeps_the_last_good_config() {
    let mut current = Config::default();
    current.window.initial_cols = 90;
    let mut bad = Config::default();
    bad.window.initial_cols = 0;
    match current.replace_if_valid(bad) {
        Err(ConfigError::Validate(msg)) => assert!(msg.contains("initial_cols")),
        _ => panic!("expected a validation error"),
    }
    assert_eq!(current.window.initial_cols, 90);

    let mut good = Config::default();
    good.window.initial_cols = 132;
    assert!(current.replace_if_valid(good).is_ok());
    assert_eq!(current.window.initial_cols, 132);
}
