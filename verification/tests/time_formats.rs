use oyo_core::time_format::{absolute_text, custom_format_syntax, FormatSyntax, TimeConfig, TimeFormatter, TimeMode};

fn formatter(mode: TimeMode, format: &str) -> TimeFormatter {
    TimeFormatter::new(&TimeConfig { mode, format: format.to_string() })
}

#[test]
fn relative_mode_says_how_long_ago() {
    let f = formatter(TimeMode::Relative, "");
    assert_eq!(f.format(Some(0), 3 * 86_400), "3 days ago");
    assert_eq!(f.format(Some(0), 400 * 86_400), "1 year ago");
    assert_eq!(f.format(None, 0), "Unknown");
}

#[test]
fn absolute_mode_uses_the_default_format() {
    let f = formatter(TimeMode::Absolute, "%Y");
    assert_eq!(f.format(Some(0), 0), "1970-01-01 00:00");
    assert_eq!(f.format(Some(1_546_300_800 + 3_660), 0), "2019-01-01 01:01");
    assert_eq!(f.format(None, 0), "Unknown");
}

#[test]
fn absolute_mode_is_unknown_out_of_range() {
    let f = formatter(TimeMode::Absolute, "");
    assert_eq!(f.format(Some(i64::MAX), 0), "Unknown");
}

#[test]
fn custom_mode_uses_either_syntax() {
    assert_eq!(formatter(TimeMode::Custom, "%Y/%m").format(Some(0), 0), "1970/01");
    assert_eq!(formatter(TimeMode::Custom, " [year] ").format(Some(0), 0), "1970");
}

#[test]
fn custom_mode_without_a_format_falls_back() {
    assert_eq!(formatter(TimeMode::Custom, "   ").format(Some(0), 0), "1970-01-01 00:00");
    assert_eq!(formatter(TimeMode::Custom, "[nonsense").format(Some(0), 0), "1970-01-01 00:00");
}

#[test]
fn format_syntax_of_custom_formats() {
    assert_eq!(custom_format_syntax("  "), None);
    assert_eq!(custom_format_syntax("%H:%M"), Some(FormatSyntax::Strftime));
    assert_eq!(custom_format_syntax("[hour]"), Some(FormatSyntax::Description));
}

#[test]
fn failed_formatting_reads_unknown() {
    assert_eq!(absolute_text(None), "Unknown");
    assert_eq!(absolute_text(Some("12:00".to_string())), "12:00");
}

#[test]
fn absolute_mode_reaches_the_last_moment_of_year_9999() {
    let f = formatter(TimeMode::Absolute, "");
    assert_eq!(f.format(Some(253_402_300_799), 0), "9999-12-31 23:59");
    assert_eq!(f.format(Some(253_402_300_800), 0), "Unknown");
}
