use gruth::config::{
    checked_parse_color, checked_resolve_theme, color_cuts_char, parse_color, resolve_theme,
    theme_config_parsable, Config, Theme, ThemeColor, ThemeConfig,
};

fn empty_theme_config() -> ThemeConfig {
    ThemeConfig {
        accent: None,
        border: None,
        clean: None,
        dirty: None,
        error: None,
        ahead: None,
        behind: None,
        stale: None,
        selected_bg: None,
    }
}

#[test]
fn parse_named_colors_case_insensitive() {
    assert_eq!(parse_color("red"), Some(ThemeColor::Red));
    assert_eq!(parse_color("CYAN"), Some(ThemeColor::Cyan));
    assert_eq!(parse_color("dark_gray"), Some(ThemeColor::DarkGray));
    assert_eq!(parse_color("DarkGray"), Some(ThemeColor::DarkGray));
    assert_eq!(parse_color("light_magenta"), Some(ThemeColor::LightMagenta));
    assert_eq!(parse_color("lightcyan"), Some(ThemeColor::LightCyan));
    assert_eq!(parse_color("gray"), Some(ThemeColor::Gray));
    assert_eq!(parse_color("white"), Some(ThemeColor::White));
}

#[test]
fn parse_hex_color() {
    assert_eq!(parse_color("#B43C3C"), Some(ThemeColor::Rgb(180, 60, 60)));
    assert_eq!(parse_color("#1e1e32"), Some(ThemeColor::Rgb(30, 30, 50)));
    assert_eq!(parse_color("#000000"), Some(ThemeColor::Rgb(0, 0, 0)));
}

#[test]
fn parse_hex_rejects_sign() {
    assert_eq!(parse_color("#+f+f+f"), None);
    assert_eq!(parse_color("#+1+2+3"), None);
    assert_eq!(parse_color("#0f0f0f"), Some(ThemeColor::Rgb(15, 15, 15)));
}

#[test]
fn parse_invalid_colors() {
    assert_eq!(parse_color("purple"), None);
    assert_eq!(parse_color("#12345"), None);
    assert_eq!(parse_color("#1234567"), None);
    assert_eq!(parse_color("123456"), None);
    assert_eq!(parse_color("#GG0000"), None);
    assert_eq!(parse_color(""), None);
}

#[test]
fn default_theme_values() {
    let t = Theme::default();
    assert_eq!(t.accent, ThemeColor::Cyan);
    assert_eq!(t.border, ThemeColor::DarkGray);
    assert_eq!(t.clean, ThemeColor::Green);
    assert_eq!(t.dirty, ThemeColor::Yellow);
    assert_eq!(t.error, ThemeColor::Red);
    assert_eq!(t.ahead, ThemeColor::Cyan);
    assert_eq!(t.behind, ThemeColor::Magenta);
    assert_eq!(t.stale, ThemeColor::Rgb(180, 60, 60));
    assert_eq!(t.selected_bg, ThemeColor::Rgb(30, 30, 50));
    assert_eq!(t.dim, ThemeColor::DarkGray);
}

#[test]
fn presets_names_in_order() {
    let presets = Theme::presets();
    let names: Vec<&str> = presets.iter().map(|p| p.name).collect();
    assert_eq!(
        names,
        vec!["Default", "Dracula", "Nord", "Monokai", "Solarized", "Gruvbox", "Tokyo Night", "Matrix"]
    );
    assert_eq!(presets[0].theme, Theme::default());
    assert_eq!(presets[1].theme.accent, ThemeColor::Rgb(189, 147, 249));
    assert_eq!(presets[2].theme.clean, ThemeColor::Rgb(163, 190, 140));
    assert_eq!(presets[7].theme.ahead, ThemeColor::Rgb(0, 255, 100));
}

#[test]
fn from_config_overrides() {
    let mut tc = empty_theme_config();
    tc.accent = Some("magenta".to_string());
    tc.border = Some("#102030".to_string());
    tc.stale = Some("not-a-colour".to_string());
    let t = Theme::from_config(Some(&tc));
    assert_eq!(t.accent, ThemeColor::Magenta);
    assert_eq!(t.ahead, ThemeColor::Magenta);
    assert_eq!(t.border, ThemeColor::Rgb(16, 32, 48));
    assert_eq!(t.dim, ThemeColor::Rgb(16, 32, 48));
    assert_eq!(t.stale, ThemeColor::Rgb(180, 60, 60));
    tc.ahead = Some("blue".to_string());
    let t2 = Theme::from_config(Some(&tc));
    assert_eq!(t2.accent, ThemeColor::Magenta);
    assert_eq!(t2.ahead, ThemeColor::Blue);
    assert_eq!(Theme::from_config(None), Theme::default());
}

#[test]
fn resolve_theme_order() {
    let mut config = Config::default();
    assert_eq!(resolve_theme(&config, None), Theme::default());
    let nord = resolve_theme(&config, Some("Nord".to_string()));
    assert_eq!(nord, Theme::presets()[2].theme);
    assert_eq!(resolve_theme(&config, Some("nord".to_string())), Theme::default());
    let mut tc = empty_theme_config();
    tc.clean = Some("white".to_string());
    config.theme = Some(tc);
    let t = resolve_theme(&config, Some("Nord".to_string()));
    assert_eq!(t.clean, ThemeColor::White);
    assert_eq!(t.accent, ThemeColor::Cyan);
}

#[test]
fn config_default_is_empty() {
    let c = Config::default();
    assert!(c.interval.is_none());
    assert!(c.depth.is_none());
    assert!(c.theme.is_none());
    assert!(c.excluded_paths.is_none());
}

#[test]
fn colour_that_would_cut_a_character() {
    assert!(color_cuts_char("#aéaaa"));
    assert!(!color_cuts_char("#éaaaa"));
    assert!(!color_cuts_char("#B43C3C"));
    assert!(!color_cuts_char("red"));
    assert_eq!(checked_parse_color("#aéaaa"), None);
    assert_eq!(checked_parse_color("#éaaaa"), Some(None));
    assert_eq!(checked_parse_color("#0a0b0c"), Some(Some(ThemeColor::Rgb(10, 11, 12))));
    let mut tc = empty_theme_config();
    assert!(theme_config_parsable(&tc));
    tc.error = Some("#aéaaa".to_string());
    assert!(!theme_config_parsable(&tc));
    let mut config = Config::default();
    assert_eq!(checked_resolve_theme(&config, Some("Matrix".to_string())), Some(Theme::presets()[7].theme));
    config.theme = Some(tc);
    assert_eq!(checked_resolve_theme(&config, None), None);
}
