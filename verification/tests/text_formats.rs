use oyo_core::cli::{detect_input_kind, input_positions, InputKind};
use oyo_core::blame::{
    blame_line, format_blame_github_text, format_blame_hint_text, short_commit, truncate_with_ellipsis, BlameInfo,
};
use oyo_core::multi::{format_ref, shorten_hash};
use oyo_core::theme::{
    is_explicit_variant, is_light_mode, named_theme_variants, normalize_theme_key, parse_view_mode,
    strip_variant_suffix,
};
use oyo_core::display::ViewMode;
use oyo_core::time_format::format_relative_age;

fn info(author: &str, commit: &str, summary: &str, uncommitted: bool) -> BlameInfo {
    BlameInfo {
        author: author.to_string(),
        commit: commit.to_string(),
        uncommitted,
        author_time: Some(0),
        summary: summary.to_string(),
    }
}

#[test]
fn relative_age_boundaries() {
    let day = 86_400;
    assert_eq!(format_relative_age(0, 0), "today");
    assert_eq!(format_relative_age(100, 0), "today");
    assert_eq!(format_relative_age(0, day - 1), "today");
    assert_eq!(format_relative_age(0, day), "1 day ago");
    assert_eq!(format_relative_age(0, 2 * day), "2 days ago");
    assert_eq!(format_relative_age(0, 29 * day), "29 days ago");
    assert_eq!(format_relative_age(0, 30 * day), "1 month ago");
    assert_eq!(format_relative_age(0, 64 * day), "2 months ago");
    assert_eq!(format_relative_age(0, 365 * day), "1 year ago");
    assert_eq!(format_relative_age(0, 800 * day), "2 years ago");
    assert_eq!(format_relative_age(i64::MIN, i64::MAX), "292471208677 years ago");
}

#[test]
fn short_commit_and_hash() {
    assert_eq!(short_commit("0123456789abcdef"), "01234567");
    assert_eq!(short_commit("abc"), "abc");
    assert_eq!(shorten_hash("0123456789abcdef"), "0123456");
    assert_eq!(shorten_hash("abc"), "abc");
    assert_eq!(format_ref("HEAD"), "HEAD");
    assert_eq!(format_ref("INDEX"), "STAGED");
    assert_eq!(format_ref("deadbeefcafe"), "deadbee");
}

#[test]
fn truncation_with_ellipsis() {
    assert_eq!(truncate_with_ellipsis("hello world", 0), "hello world");
    assert_eq!(truncate_with_ellipsis("hello", 5), "hello");
    assert_eq!(truncate_with_ellipsis("hello world", 8), "hello…");
    assert_eq!(truncate_with_ellipsis("hello world", 2), "…");
}

#[test]
fn blame_texts() {
    let i = info("Ada", "0123456789abcdef", "Fix bug", false);
    assert_eq!(format_blame_github_text(&i, None, "2 days ago"), "Ada, 2 days ago 01234567 Fix bug");
    assert_eq!(format_blame_github_text(&i, Some("Ada"), "today"), "You, today 01234567 Fix bug");
    assert_eq!(format_blame_github_text(&i, Some(""), "today"), "Ada, today 01234567 Fix bug");
    let bare = info("Bob", "abc", "", false);
    assert_eq!(format_blame_github_text(&bare, Some("Ada"), "today"), "Bob, today abc");
    let un = info("Not Committed Yet", "0000000000", "", true);
    assert_eq!(format_blame_github_text(&un, None, "today"), "Uncommitted");
    assert_eq!(format_blame_hint_text(&un, None, "today", 4), "Uncommitted");
    let long = info("Ada", "0123456789", "A rather long summary", false);
    assert_eq!(format_blame_hint_text(&long, None, "today", 10), "Ada, today 01234567 A rathe…");
    assert_eq!(format_blame_hint_text(&bare, None, "today", 10), "Bob, today abc");
}

#[test]
fn blame_line_picks_first_entry() {
    let entries = vec![(3, info("A", "1", "", false)), (5, info("B", "2", "", false)), (5, info("C", "3", "", false))];
    assert_eq!(blame_line(entries.clone(), 5).unwrap().author, "B");
    assert!(blame_line(entries, 4).is_none());
}

#[test]
fn theme_names() {
    assert_eq!(parse_view_mode(Some("single")), Some(ViewMode::SinglePane));
    assert_eq!(parse_view_mode(Some("sbs")), Some(ViewMode::Split));
    assert_eq!(parse_view_mode(Some("evo")), Some(ViewMode::Evolution));
    assert_eq!(parse_view_mode(Some("Split")), None);
    assert_eq!(parse_view_mode(None), None);
    assert!(is_light_mode(Some("LiGhT")));
    assert!(!is_light_mode(Some("dark")));
    assert!(!is_light_mode(None));
    assert_eq!(normalize_theme_key("Tokyo-Night_2!"), "tokyonight2");
    assert!(is_explicit_variant("nord.tmTheme"));
    assert!(is_explicit_variant("Nord-LIGHT"));
    assert!(!is_explicit_variant("nord"));
    assert_eq!(strip_variant_suffix("Nord_Dark"), Some("Nord".to_string()));
    assert_eq!(strip_variant_suffix("nord"), None);
    assert_eq!(
        named_theme_variants("TokyoNight", true),
        vec!["tokyonight-day", "TokyoNight-light", "TokyoNight_light", "TokyoNight.light"]
    );
    assert_eq!(named_theme_variants("nord", false), vec!["nord-dark", "nord_dark", "nord.dark"]);
}

#[test]
fn input_kinds() {
    assert_eq!(detect_input_kind(7), InputKind::GitExternal);
    assert_eq!(detect_input_kind(2), InputKind::TwoPaths);
    assert_eq!(detect_input_kind(0), InputKind::GitUncommitted);
    assert_eq!(detect_input_kind(3), InputKind::Unrecognized);
    assert_eq!(input_positions(InputKind::GitExternal), Some((0, 1, 4)));
    assert_eq!(input_positions(InputKind::Unrecognized), None);
}
