use devcap::config::{effective_settings, Cli, DevcapConfig};
use devcap::period::Period;
use devcap::report::Depth;

fn bare_cli() -> Cli {
    Cli {
        period: None,
        path: None,
        json: false,
        no_color: false,
        interactive: false,
        depth: Depth::Commits,
        author: None,
        show_origin: false,
        copy: false,
    }
}

#[test]
fn default_config_is_all_none() {
    let cfg = DevcapConfig::default();
    assert!(cfg.path.is_none());
    assert!(cfg.author.is_none());
    assert!(cfg.period.is_none());
    assert!(cfg.show_origin.is_none());
    assert!(cfg.color.is_none());
}

#[test]
fn settings_fall_back_to_defaults() {
    let s = effective_settings(&bare_cli(), &DevcapConfig::default(), None, false);
    assert!(matches!(s.period, Period::Today));
    assert_eq!(s.path, ".");
    assert!(s.author.is_none());
    assert!(!s.show_origin);
    assert!(!s.use_color);
}

#[test]
fn command_line_wins_over_config() {
    let mut cli = bare_cli();
    cli.period = Some(Period::Days(3));
    cli.path = Some("/work".to_string());
    cli.author = Some("Ada".to_string());
    let cfg = DevcapConfig {
        path: Some("/cfg".to_string()),
        author: Some("Bob".to_string()),
        period: Some("week".to_string()),
        show_origin: Some(true),
        color: None,
    };
    let s = effective_settings(&cli, &cfg, Some("Fallback".to_string()), true);
    assert!(matches!(s.period, Period::Days(3)));
    assert_eq!(s.path, "/work");
    assert_eq!(s.author.as_deref(), Some("Ada"));
    assert!(s.show_origin);
}

#[test]
fn config_period_is_parsed() {
    let cfg = DevcapConfig {
        path: None,
        author: None,
        period: Some("24h".to_string()),
        show_origin: None,
        color: None,
    };
    let s = effective_settings(&bare_cli(), &cfg, None, false);
    assert!(matches!(s.period, Period::Hours(24)));
}

#[test]
fn unparseable_config_period_falls_back_to_today() {
    let cfg = DevcapConfig {
        path: None,
        author: None,
        period: Some("sometime".to_string()),
        show_origin: None,
        color: None,
    };
    let s = effective_settings(&bare_cli(), &cfg, None, false);
    assert!(matches!(s.period, Period::Today));
}

#[test]
fn json_output_disables_color() {
    let mut cli = bare_cli();
    cli.json = true;
    let cfg = DevcapConfig {
        path: None,
        author: None,
        period: None,
        show_origin: None,
        color: Some(true),
    };
    let s = effective_settings(&cli, &cfg, None, true);
    assert!(!s.use_color);
}

#[test]
fn config_color_wins_over_terminal_detection() {
    let cfg = DevcapConfig {
        path: None,
        author: None,
        period: None,
        show_origin: None,
        color: Some(false),
    };
    let s = effective_settings(&bare_cli(), &cfg, None, true);
    assert!(!s.use_color);
}

#[test]
fn author_falls_back_to_detected_name() {
    let s = effective_settings(
        &bare_cli(),
        &DevcapConfig::default(),
        Some("From Git".to_string()),
        false,
    );
    assert_eq!(s.author.as_deref(), Some("From Git"));
}
