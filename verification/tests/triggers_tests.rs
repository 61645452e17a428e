use neuterm::schema::{MatchType, TriggerRule, TriggerScope, TriggerStyle, TriggersConfig};
use neuterm::triggers::{parse_hex_color, TriggerEngine};

fn rule(pattern: &str, match_type: MatchType, scope: TriggerScope) -> TriggerRule {
    TriggerRule {
        name: "prod".into(),
        pattern: pattern.into(),
        match_type,
        scope,
        style: TriggerStyle {
            foreground: Some("#ffffff".into()),
            background: Some("#c0392b".into()),
            bold: false,
            underline: false,
        },
    }
}

#[test]
fn production_line_highlight() {
    let cfg = TriggersConfig {
        enabled: true,
        rules: vec![rule(r"(?i)\b(production|prod|prd|critical)\b", MatchType::Regex, TriggerScope::Line)],
    };
    let engine = TriggerEngine::from_config(&cfg);
    let decs = engine.decorations_for_line("deploying to production now");
    assert_eq!(decs.len(), 1);
    assert_eq!(decs[0].start, 0);
    assert!(decs[0].style.background.is_some());
}

#[test]
fn line_scope_covers_whole_line() {
    let cfg = TriggersConfig { enabled: true, rules: vec![rule("prod", MatchType::Regex, TriggerScope::Line)] };
    let engine = TriggerEngine::from_config(&cfg);
    let decs = engine.decorations_for_line("prod é");
    assert_eq!(decs.len(), 1);
    assert_eq!((decs[0].start, decs[0].end), (0, 6));
}

#[test]
fn regex_match_spans_count_characters() {
    let cfg = TriggersConfig { enabled: true, rules: vec![rule("ab", MatchType::Regex, TriggerScope::Match)] };
    let engine = TriggerEngine::from_config(&cfg);
    let decs = engine.decorations_for_line("éab xab");
    assert_eq!(decs.len(), 2);
    assert_eq!((decs[0].start, decs[0].end), (1, 3));
    assert_eq!((decs[1].start, decs[1].end), (5, 7));
}

#[test]
fn literal_matches_do_not_overlap() {
    let cfg = TriggersConfig { enabled: true, rules: vec![rule("aa", MatchType::String, TriggerScope::Match)] };
    let engine = TriggerEngine::from_config(&cfg);
    let decs = engine.decorations_for_line("aaaaa");
    assert_eq!(decs.len(), 2);
    assert_eq!((decs[0].start, decs[0].end), (0, 2));
    assert_eq!((decs[1].start, decs[1].end), (2, 4));
}

#[test]
fn invalid_regex_rules_are_skipped() {
    let cfg = TriggersConfig {
        enabled: true,
        rules: vec![rule("(unclosed", MatchType::Regex, TriggerScope::Line), rule("ok", MatchType::String, TriggerScope::Line)],
    };
    let engine = TriggerEngine::from_config(&cfg);
    let decs = engine.decorations_for_line("(unclosed ok");
    assert_eq!(decs.len(), 1);
}

#[test]
fn disabled_engine_decorates_nothing() {
    let cfg = TriggersConfig { enabled: true, rules: vec![rule("x", MatchType::String, TriggerScope::Line)] };
    let mut engine = TriggerEngine::from_config(&cfg);
    engine.set_enabled(false);
    assert!(engine.decorations_for_line("xxx").is_empty());
}

#[test]
fn empty_literal_match_rule_marks_nothing() {
    let cfg = TriggersConfig {
        enabled: true,
        rules: vec![
            rule("", MatchType::String, TriggerScope::Match),
            rule("b", MatchType::String, TriggerScope::Match),
        ],
    };
    let engine = TriggerEngine::from_config(&cfg);
    let decs = engine.decorations_for_line("ab");
    assert_eq!(decs.len(), 1);
    assert_eq!((decs[0].start, decs[0].end), (1, 2));
    // Line scope still styles the whole line: the empty literal occurs in it.
    let cfg = TriggersConfig { enabled: true, rules: vec![rule("", MatchType::String, TriggerScope::Line)] };
    let engine = TriggerEngine::from_config(&cfg);
    assert_eq!(engine.decorations_for_line("ab").len(), 1);
}

#[test]
fn hex_colors() {
    let c = parse_hex_color("  ##c0392b ").unwrap();
    assert_eq!((c.r, c.g, c.b, c.a), (0xc0, 0x39, 0x2b, 255));
    let c = parse_hex_color("#11223344").unwrap();
    assert_eq!((c.r, c.g, c.b, c.a), (0x11, 0x22, 0x33, 0x44));
    assert!(parse_hex_color("#12345").is_none());
    assert!(parse_hex_color("#zzzzzz").is_none());
}

#[test]
fn hex_colors_take_digits_only() {
    assert!(parse_hex_color("#+fffff").is_none());
    assert!(parse_hex_color("#+fffffff").is_none());
    assert!(parse_hex_color("#-fffff").is_none());
    assert!(parse_hex_color("#ff ff ff").is_none());
    assert!(parse_hex_color("#FfFfFf").is_some());
}
