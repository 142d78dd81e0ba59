//! Moments as shown: how long ago, in words, or a date and time written
//! in a format.

use crate::foreign::{
    datetime_from_unix, description_parses, format_datetime, formatted_moment, parse_format_description,
    parse_strftime_format, push_str, str_trim, strftime_parses, trim_spec,
};
use crate::text::{decimal, decimal_spec, to_owned_string};
use time::format_description::OwnedFormatItem;
use time::OffsetDateTime;
use vstd::prelude::*;

verus! {

/// Seconds in a day.
pub const SECS_PER_DAY: i64 = 86_400;

/// `"{n} {unit}s ago"`, or `"1 {unit} ago"` for one.
pub open spec fn ago_spec(n: nat, unit: Seq<char>) -> Seq<char> {
    if n == 1 {
        "1 "@ + unit + " ago"@
    } else {
        decimal_spec(n) + " "@ + unit + "s ago"@
    }
}

/// The age of `epoch` at `now` (in seconds, at most `i64::MAX`) in
/// words: `"today"` under a day (or in the future), then whole days under 30 days, whole months of 30 days under
/// 365 days, then whole years of 365 days.
pub open spec fn relative_age_spec(epoch: i64, now: i64) -> Seq<char> {
    let age = if now - epoch > i64::MAX {
        i64::MAX as int
    } else {
        now - epoch
    };
    if age < SECS_PER_DAY {
        "today"@
    } else {
        let days = (age / SECS_PER_DAY as int) as nat;
        if days < 30 {
            ago_spec(days, "day"@)
        } else if days < 365 {
            ago_spec((days / 30) as nat, "month"@)
        } else {
            ago_spec((days / 365) as nat, "year"@)
        }
    }
}

fn ago(n: u64, unit: &str) -> (s: String)
    ensures
        s@ == ago_spec(n as nat, unit@),
{
    let mut s = String::new();
    if n == 1 {
        push_str(&mut s, "1 ");
        push_str(&mut s, unit);
        push_str(&mut s, " ago");
    } else {
        let d = decimal(n);
        push_str(&mut s, d.as_str());
        push_str(&mut s, " ");
        push_str(&mut s, unit);
        push_str(&mut s, "s ago");
    }
    assert(s@ =~= ago_spec(n as nat, unit@));
    s
}

/// The age of `epoch` at `now` in words (see `relative_age_spec`).
pub fn format_relative_age(epoch: i64, now: i64) -> (s: String)
    ensures
        s@ == relative_age_spec(epoch, now),
{
    let wide: i128 = (now as i128) - (epoch as i128);
    if wide < SECS_PER_DAY as i128 {
        let mut s = String::new();
        push_str(&mut s, "today");
        assert(s@ =~= "today"@);
        return s;
    }
    let age_secs: i64 = if wide > i64::MAX as i128 {
        i64::MAX
    } else {
        wide as i64
    };
    let age_days = (age_secs / SECS_PER_DAY) as u64;
    if age_days < 30 {
        return ago(age_days, "day");
    }
    if age_days < 365 {
        return ago(age_days / 30, "month");
    }
    ago(age_days / 365, "year")
}

/// How moments are shown.
#[derive(Debug, Clone, Copy, PartialEq, Eq, Structural)]
pub enum TimeMode {
    /// How long ago, in words.
    Relative,
    /// The date and time in the default format.
    Absolute,
    /// The date and time in the configured format.
    Custom,
}

/// The configuration of how moments are shown.
#[derive(Debug, Clone)]
pub struct TimeConfig {
    pub mode: TimeMode,
    /// The format of the custom mode: `strftime` syntax when it holds a
    /// `%`, else the `time` crate's own syntax.
    pub format: String,
}

/// The syntax a custom format is written in.
#[derive(Debug, Clone, Copy, PartialEq, Eq, Structural)]
pub enum FormatSyntax {
    Strftime,
    Description,
}

/// The syntax of a custom format once trimmed: none for an empty one,
/// `strftime` for one with a `%`, else the `time` crate's own.
pub open spec fn format_syntax_spec(format: Seq<char>) -> Option<FormatSyntax> {
    let t = trim_spec(format);
    if t.len() == 0 {
        None
    } else if t.contains('%') {
        Some(FormatSyntax::Strftime)
    } else {
        Some(FormatSyntax::Description)
    }
}

/// Whether a text holds a `%`.
fn has_percent(s: &str) -> (b: bool)
    ensures
        b == s@.contains('%'),
{
    let n = s.unicode_len();
    let mut i: usize = 0;
    while i < n
        invariant
            n == s@.len(),
            i <= n,
            forall|k: int| 0 <= k < i ==> s@[k] != '%',
        decreases n - i,
    {
        if s.get_char(i) == '%' {
            assert(s@[i as int] == '%');
            return true;
        }
        i = i + 1;
    }
    false
}

/// The syntax of a custom format (see `format_syntax_spec`).
pub fn custom_format_syntax(format: &str) -> (r: Option<FormatSyntax>)
    ensures
        r == format_syntax_spec(format@),
{
    let trimmed = str_trim(format);
    if trimmed.unicode_len() == 0 {
        None
    } else if has_percent(trimmed) {
        Some(FormatSyntax::Strftime)
    } else {
        Some(FormatSyntax::Description)
    }
}

/// A date-time format parsed from a text, kept with the text and its
/// syntax.
pub struct ParsedFormat {
    pub(crate) syntax: FormatSyntax,
    pub(crate) text: String,
    pub(crate) item: OwnedFormatItem,
}

impl View for ParsedFormat {
    type V = (FormatSyntax, Seq<char>);

    closed spec fn view(&self) -> (FormatSyntax, Seq<char>) {
        (self.syntax, self.text@)
    }
}

/// A UTC moment, kept with its seconds since 1970-01-01.
pub struct Moment {
    pub(crate) epoch: i64,
    pub(crate) moment: OffsetDateTime,
}

impl View for Moment {
    type V = i64;

    closed spec fn view(&self) -> i64 {
        self.epoch
    }
}

/// Whether the `time` crate has the UTC moment `epoch` seconds after
/// 1970-01-01 (years -9999 to 9999).
pub open spec fn moment_exists(epoch: i64) -> bool {
    -377_705_116_800 <= epoch <= 253_402_300_799
}

/// The UTC moment `epoch` written in a format, where the moment exists
/// and the format can write it.
pub open spec fn moment_text(epoch: i64, format: (FormatSyntax, Seq<char>)) -> Option<Seq<char>> {
    if moment_exists(epoch) { formatted_moment(epoch, format) } else { None }
}

/// A custom format as parsed, once trimmed: its syntax and text, where it
/// is not empty and parses in its syntax.
pub open spec fn custom_format_spec(format: Seq<char>) -> Option<(FormatSyntax, Seq<char>)> {
    let t = trim_spec(format);
    match format_syntax_spec(format) {
        None => None,
        Some(FormatSyntax::Strftime) => if strftime_parses(t) { Some((FormatSyntax::Strftime, t)) } else { None },
        Some(FormatSyntax::Description) => if description_parses(t) { Some((FormatSyntax::Description, t)) } else { None },
    }
}

/// The text of the default format in the crate's own syntax.
pub open spec fn default_description() -> Seq<char> {
    "[year]-[month]-[day] [hour]:[minute]"@
}

/// The text of the default format in `strftime` syntax.
pub open spec fn default_strftime() -> Seq<char> {
    "%Y-%m-%d %H:%M"@
}

/// The default format as parsed: in the crate's syntax, else (where that
/// does not parse) the same in `strftime` syntax.
pub open spec fn default_format_spec() -> Option<(FormatSyntax, Seq<char>)> {
    if description_parses(default_description()) {
        Some((FormatSyntax::Description, default_description()))
    } else if strftime_parses(default_strftime()) {
        Some((FormatSyntax::Strftime, default_strftime()))
    } else {
        None
    }
}

/// A parsed format as plain values.
pub open spec fn format_view(f: Option<ParsedFormat>) -> Option<(FormatSyntax, Seq<char>)> {
    match f {
        Some(p) => Some(p@),
        None => None,
    }
}

/// A text as plain values.
pub open spec fn text_view(t: Option<String>) -> Option<Seq<char>> {
    match t {
        Some(s) => Some(s@),
        None => None,
    }
}

/// A custom format parsed in its syntax, once trimmed (see
/// `custom_format_spec`); `None` for an empty format and for one that does
/// not parse.
fn parse_format(format: &str) -> (r: Option<ParsedFormat>)
    ensures
        format_view(r) == custom_format_spec(format@),
{
    let trimmed = str_trim(format);
    match custom_format_syntax(format) {
        None => None,
        Some(FormatSyntax::Strftime) => parse_strftime_format(trimmed),
        Some(FormatSyntax::Description) => parse_format_description(trimmed),
    }
}

/// A formatted moment, or `Unknown` where formatting failed.
pub fn absolute_text(formatted: Option<String>) -> (r: String)
    ensures
        r@ == (match formatted {
            Some(t) => t@,
            None => "Unknown"@,
        }),
{
    match formatted {
        Some(t) => t,
        None => {
            proof {
                reveal_strlit("Unknown");
            }
            to_owned_string("Unknown")
        },
    }
}

/// How a moment is shown by a formatter holding a default and a custom
/// format (as plain values): `Unknown` without a moment; how long ago at
/// `now` in the relative mode; else the moment written in the custom
/// format (custom mode, when it has one) or the default one, `Unknown`
/// where that fails.
pub open spec fn shown_moment(
    mode: TimeMode,
    absolute: Option<(FormatSyntax, Seq<char>)>,
    custom: Option<(FormatSyntax, Seq<char>)>,
    epoch: Option<i64>,
    now: i64,
) -> Seq<char> {
    match epoch {
        None => "Unknown"@,
        Some(e) => if mode == TimeMode::Relative {
            relative_age_spec(e, now)
        } else {
            let format = if mode == TimeMode::Custom && custom is Some { custom } else { absolute };
            let written = match format {
                Some(f) => moment_text(e, f),
                None => None,
            };
            match written {
                Some(t) => t,
                None => "Unknown"@,
            }
        },
    }
}

/// Shows moments as configured.
pub struct TimeFormatter {
    mode: TimeMode,
    /// The default format, `[year]-[month]-[day] [hour]:[minute]`.
    absolute_format: Option<ParsedFormat>,
    /// The configured format of the custom mode.
    custom_format: Option<ParsedFormat>,
}

impl TimeFormatter {
    /// The mode the formatter shows moments in.
    pub closed spec fn time_mode(&self) -> TimeMode {
        self.mode
    }

    /// The default format the formatter holds, as plain values.
    pub closed spec fn absolute_view(&self) -> Option<(FormatSyntax, Seq<char>)> {
        format_view(self.absolute_format)
    }

    /// The custom format the formatter holds, as plain values.
    pub closed spec fn custom_view(&self) -> Option<(FormatSyntax, Seq<char>)> {
        format_view(self.custom_format)
    }

    /// Whether the formatter holds a custom format.
    pub open spec fn has_custom_format(&self) -> bool {
        self.custom_view() is Some
    }

    /// A formatter for a configuration: the configured mode; the default
    /// format (in the crate's syntax, else the same in `strftime`
    /// syntax); and, in the custom mode, the configured format parsed (none
    /// when it is empty once trimmed or does not parse).
    pub fn new(config: &TimeConfig) -> (r: Self)
        ensures
            r.time_mode() == config.mode,
            r.absolute_view() == default_format_spec(),
            r.custom_view() == (if config.mode == TimeMode::Custom { custom_format_spec(config.format@) } else { None }),
    {
        let absolute_format = match parse_format_description("[year]-[month]-[day] [hour]:[minute]") {
            Some(f) => Some(f),
            None => parse_strftime_format("%Y-%m-%d %H:%M"),
        };
        let custom_format = match config.mode {
            TimeMode::Custom => parse_format(config.format.as_str()),
            _ => None,
        };
        TimeFormatter { mode: config.mode, absolute_format, custom_format }
    }

    /// A moment as shown (see `shown_moment`).
    pub fn format(&self, epoch: Option<i64>, now: i64) -> (r: String)
        ensures
            r@ == shown_moment(self.time_mode(), self.absolute_view(), self.custom_view(), epoch, now),
    {
        let e = match epoch {
            Some(e) => e,
            None => return absolute_text(None),
        };
        match self.mode {
            TimeMode::Relative => format_relative_age(e, now),
            TimeMode::Absolute => absolute_text(Self::format_absolute(e, &self.absolute_format)),
            TimeMode::Custom => match &self.custom_format {
                Some(f) => absolute_text(Self::format_in(e, f)),
                None => absolute_text(Self::format_absolute(e, &self.absolute_format)),
            },
        }
    }

    /// The moment written in the format, if it has one (see `moment_text`).
    fn format_absolute(epoch: i64, format: &Option<ParsedFormat>) -> (r: Option<String>)
        ensures
            text_view(r) == (match format_view(*format) {
                Some(f) => moment_text(epoch, f),
                None => None,
            }),
    {
        match format {
            Some(f) => Self::format_in(epoch, f),
            None => None,
        }
    }

    /// The UTC moment `epoch` written in a format, where both succeed (see
    /// `moment_text`).
    fn format_in(epoch: i64, format: &ParsedFormat) -> (r: Option<String>)
        ensures
            text_view(r) == moment_text(epoch, format@),
    {
        match datetime_from_unix(epoch) {
            Some(moment) => format_datetime(&moment, format),
            None => None,
        }
    }
}

} // verus!
