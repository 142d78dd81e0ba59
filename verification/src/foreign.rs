//! Calls into the standard library and into outside crates, each with the
//! contract that the rest of the library relies on.

use imara_diff::{Algorithm, Diff, InternedInput};
use std::collections::HashMap;
use rustc_hash::{FxBuildHasher, FxHashMap, FxHashSet};
use regex::Regex;
use time::format_description::OwnedFormatItem;
use time::OffsetDateTime;
use crate::time_format::{FormatSyntax, Moment, ParsedFormat};
use vstd::prelude::*;

verus! {

/// The hash builder of `rustc_hash`'s maps and sets.
#[verifier::external_type_specification]
#[verifier::external_body]
pub struct ExFxBuildHasher(FxBuildHasher);

/// A compiled regular expression of the `regex` crate.
#[verifier::external_type_specification]
#[verifier::external_body]
pub struct ExRegex(Regex);

/// A parsed date-time format of the `time` crate.
#[verifier::external_type_specification]
#[verifier::external_body]
pub struct ExOwnedFormatItem(OwnedFormatItem);

/// A date and time with a UTC offset, of the `time` crate.
#[verifier::external_type_specification]
#[verifier::external_body]
pub struct ExOffsetDateTime(OffsetDateTime);

// ---------------------------------------------------------------------
// Text
// ---------------------------------------------------------------------

/// Index of the first `'\n'` at or after `i`, or the length of `s`.
pub open spec fn line_end(s: Seq<char>, i: int) -> int
    decreases s.len() - i,
{
    if i >= s.len() {
        s.len() as int
    } else if s[i] == '\n' {
        i
    } else {
        line_end(s, i + 1)
    }
}

/// The end of a line lies between its start and the end of the text.
pub proof fn lemma_line_end_bounds(s: Seq<char>, i: int)
    requires
        0 <= i <= s.len(),
    ensures
        i <= line_end(s, i) <= s.len(),
    decreases s.len() - i,
{
    if i < s.len() && s[i] != '\n' {
        lemma_line_end_bounds(s, i + 1);
    }
}

/// The lines of `s` from position `i`, as `str::lines` yields them: split at
/// `'\n'`, a `'\r'` just before a `'\n'` dropped, no empty line after a
/// final `'\n'`.
pub open spec fn lines_from(s: Seq<char>, i: int) -> Seq<Seq<char>>
    decreases s.len() + 1 - i,
    via lines_from_decreases
{
    if i < 0 || i >= s.len() {
        Seq::empty()
    } else {
        let j = line_end(s, i);
        let raw = s.subrange(i, j);
        let line = if j < s.len() && raw.len() > 0 && raw.last() == '\r' {
            raw.drop_last()
        } else {
            raw
        };
        seq![line] + lines_from(s, j + 1)
    }
}

#[via_fn]
proof fn lines_from_decreases(s: Seq<char>, i: int) {
    if 0 <= i < s.len() {
        lemma_line_end_bounds(s, i);
    }
}

/// The lines of a text.
pub open spec fn text_lines(s: Seq<char>) -> Seq<Seq<char>> {
    lines_from(s, 0)
}

/// `str::lines`, collected. The result's views are the lines of `s`; there
/// are no more lines than characters.
#[verifier::external_body]
pub(crate) fn str_lines(s: &str) -> (r: Vec<&str>)
    ensures
        r@.map_values(|l: &str| l@) == text_lines(s@),
        r@.len() <= s@.len(),
{
    s.lines().collect()
}

/// `String::push`: appends one character.
#[verifier::external_body]
pub(crate) fn push_char(s: &mut String, c: char)
    ensures
        final(s)@ == old(s)@.push(c),
{
    s.push(c);
}

/// Appends a string slice (vstd's `String::append`).
pub(crate) fn push_str(s: &mut String, t: &str)
    ensures
        final(s)@ == old(s)@ + t@,
{
    s.append(t);
}

/// Whether a text has no characters (`str::is_empty`, as vstd specifies
/// it).
pub(crate) fn str_is_empty(s: &str) -> (b: bool)
    ensures
        b == (s@.len() == 0),
{
    s.is_empty()
}

/// A character with the ASCII capitals `A` to `Z` made small; every other
/// character as it is.
pub open spec fn ascii_lower(c: char) -> char {
    if 0x41 <= (c as u32) <= 0x5A {
        ((c as u32) + 0x20) as char
    } else {
        c
    }
}

/// `str::to_ascii_lowercase`: the text with `A` to `Z` mapped to `a` to
/// `z`, other characters unchanged.
#[verifier::external_body]
pub(crate) fn str_to_ascii_lowercase(s: &str) -> (r: String)
    ensures
        r@ == s@.map_values(|c: char| ascii_lower(c)),
{
    s.to_ascii_lowercase()
}

/// Whether `needle` occurs in `hay` as a run of consecutive characters.
pub open spec fn contains_text(hay: Seq<char>, needle: Seq<char>) -> bool {
    exists|i: int| 0 <= i && i + needle.len() <= hay.len() && #[trigger] hay.subrange(i, i + needle.len()) == needle
}

/// `str::contains` with a string pattern: whether the pattern occurs in
/// the text.
#[verifier::external_body]
pub(crate) fn str_contains(hay: &str, needle: &str) -> (b: bool)
    ensures
        b == contains_text(hay@, needle@),
{
    hay.contains(needle)
}

/// The Unicode lowercase of a text (`str::to_lowercase`): each character
/// mapped by the Unicode `Lowercase` mapping, a function of the text
/// alone; its tables are not written out here.
pub uninterp spec fn unicode_lowercase(s: Seq<char>) -> Seq<char>;

/// `str::to_lowercase`: the text in Unicode lowercase.
#[verifier::external_body]
pub(crate) fn str_to_lowercase(s: &str) -> (r: String)
    ensures
        r@ == unicode_lowercase(s@),
{
    s.to_lowercase()
}

/// The value of the key whose text is `key` in a map keyed by strings, if
/// there is one (keys of a map are distinct texts).
pub open spec fn value_for_text(m: Map<String, String>, key: Seq<char>) -> Option<Seq<char>> {
    if exists|k: String| #[trigger] m.contains_key(k) && k@ == key {
        Some(m[choose|k: String| #[trigger] m.contains_key(k) && k@ == key]@)
    } else {
        None
    }
}

/// `HashMap::get` with a `&str` key on a map keyed by `String`: the value
/// of the key equal to the text, if any.
#[verifier::external_body]
pub(crate) fn string_map_get<'a>(m: &'a HashMap<String, String>, key: &str) -> (r: Option<&'a String>)
    ensures
        match r {
            Some(v) => value_for_text(m@, key@) == Some(v@),
            None => value_for_text(m@, key@) is None,
        },
{
    m.get(key)
}

/// `s` without its leading and trailing characters that have the Unicode
/// `White_Space` property.
pub open spec fn trim_spec(s: Seq<char>) -> Seq<char> {
    trim_end_spec(trim_start_spec(s))
}

/// `s` without its leading whitespace.
pub open spec fn trim_start_spec(s: Seq<char>) -> Seq<char>
    decreases s.len(),
{
    if s.len() > 0 && unicode_whitespace(s[0]) {
        trim_start_spec(s.drop_first())
    } else {
        s
    }
}

/// `s` without its trailing whitespace.
pub open spec fn trim_end_spec(s: Seq<char>) -> Seq<char>
    decreases s.len(),
{
    if s.len() > 0 && unicode_whitespace(s.last()) {
        trim_end_spec(s.drop_last())
    } else {
        s
    }
}

/// `str::trim`: removes leading and trailing whitespace, whitespace being
/// the Unicode `White_Space` property (as for `char::is_whitespace`).
#[verifier::external_body]
pub(crate) fn str_trim(s: &str) -> (r: &str)
    ensures
        r@ == trim_spec(s@),
{
    s.trim()
}

/// Whether `char::is_alphanumeric` holds of a character (a Unicode
/// property).
pub uninterp spec fn unicode_alphanumeric(c: char) -> bool;

/// An ASCII letter or digit.
pub open spec fn ascii_alphanumeric(c: char) -> bool {
    let u = c as u32;
    (0x30 <= u <= 0x39) || (0x41 <= u <= 0x5A) || (0x61 <= u <= 0x7A)
}

/// Whether a character has the Unicode `White_Space` property (the code
/// points that Unicode's `PropList.txt` lists for it), as
/// `char::is_whitespace` tests: tab, line feed, vertical tab, form feed,
/// carriage return, space, next line, no-break space, ogham space mark,
/// the spaces from en quad to hair space, line and paragraph separators,
/// narrow no-break space, medium mathematical space and ideographic space.
pub open spec fn unicode_whitespace(c: char) -> bool {
    let u = c as u32;
    ||| 0x09 <= u <= 0x0D
    ||| u == 0x20
    ||| u == 0x85
    ||| u == 0xA0
    ||| u == 0x1680
    ||| 0x2000 <= u <= 0x200A
    ||| u == 0x2028
    ||| u == 0x2029
    ||| u == 0x202F
    ||| u == 0x205F
    ||| u == 0x3000
}

/// `char::is_alphanumeric`: the alphabetic and numeric Unicode
/// properties. Among ASCII characters these are exactly the letters and
/// digits (what the documentation of `is_alphabetic` and `is_numeric`
/// lists); beyond ASCII the result is named only.
#[verifier::external_body]
pub(crate) fn char_is_alphanumeric(c: char) -> (b: bool)
    ensures
        b == unicode_alphanumeric(c),
        (c as u32) < 0x80 ==> (b <==> ascii_alphanumeric(c)),
{
    c.is_alphanumeric()
}

/// Whether a character is whitespace (see `unicode_whitespace`).
pub(crate) fn char_is_whitespace(c: char) -> (b: bool)
    ensures
        b == unicode_whitespace(c),
{
    let u = c as u32;
    (0x09 <= u && u <= 0x0D) || u == 0x20 || u == 0x85 || u == 0xA0 || u == 0x1680 || (0x2000 <= u && u <= 0x200A)
        || u == 0x2028 || u == 0x2029 || u == 0x202F || u == 0x205F || u == 0x3000
}

// ---------------------------------------------------------------------
// rustc_hash collections of indices
// ---------------------------------------------------------------------

/// `HashMap::with_capacity_and_hasher` with `rustc_hash`'s hasher: an
/// empty map.
#[verifier::external_body]
pub(crate) fn fx_map_with_capacity(capacity: usize) -> (r: FxHashMap<usize, usize>)
    ensures
        r@.is_empty(),
{
    FxHashMap::with_capacity_and_hasher(capacity, Default::default())
}

/// `HashMap::insert` on a map keyed by `usize` with `rustc_hash`'s
/// hasher: the key now maps to the value, the other keys are unchanged.
#[verifier::external_body]
pub(crate) fn fx_map_insert(m: &mut FxHashMap<usize, usize>, k: usize, v: usize)
    ensures
        final(m)@ == old(m)@.insert(k, v),
{
    m.insert(k, v);
}

/// `HashMap::get` on a map keyed by `usize` with `rustc_hash`'s hasher,
/// with the value copied out.
#[verifier::external_body]
pub(crate) fn fx_map_get(m: &FxHashMap<usize, usize>, k: usize) -> (r: Option<usize>)
    ensures
        r == (if m@.contains_key(k) { Some(m@[k]) } else { None::<usize> }),
{
    m.get(&k).copied()
}

/// `HashSet::insert` on a set of `usize` with `rustc_hash`'s hasher:
/// returns whether the value was absent.
#[verifier::external_body]
pub(crate) fn fx_set_insert(s: &mut FxHashSet<usize>, k: usize) -> (fresh: bool)
    ensures
        final(s)@ == old(s)@.insert(k),
        fresh == !old(s)@.contains(k),
{
    s.insert(k)
}

/// `HashSet::contains` on a set of `usize` with `rustc_hash`'s hasher.
#[verifier::external_body]
pub(crate) fn fx_set_contains(s: &FxHashSet<usize>, k: usize) -> (b: bool)
    ensures
        b == s@.contains(k),
{
    s.contains(&k)
}

/// `HashSet::remove` on a set of `usize` with `rustc_hash`'s hasher.
#[verifier::external_body]
pub(crate) fn fx_set_remove(s: &mut FxHashSet<usize>, k: usize)
    ensures
        final(s)@ == old(s)@.remove(k),
{
    s.remove(&k);
}

// ---------------------------------------------------------------------
// imara_diff
// ---------------------------------------------------------------------

/// The hunks, as `(before.start, before.end, after.start, after.end)`,
/// that `imara_diff`'s histogram algorithm finds between the lines of two
/// texts.
pub uninterp spec fn line_diff_hunks(old: Seq<char>, new: Seq<char>) -> Seq<(usize, usize, usize, usize)>;

/// The hunks that `imara_diff`'s histogram algorithm finds between two
/// token sequences.
pub uninterp spec fn token_diff_hunks(old: Seq<Seq<char>>, new: Seq<Seq<char>>) -> Seq<(usize, usize, usize, usize)>;

/// Hunks that lie in order inside sequences of `n_old` and `n_new` tokens,
/// each one starting at or after the end of the one before.
pub open spec fn hunks_in_order(h: Seq<(usize, usize, usize, usize)>, n_old: nat, n_new: nat) -> bool {
    &&& forall|k: int|
        0 <= k < h.len() ==> {
            &&& (#[trigger] h[k]).0 <= h[k].1 <= n_old
            &&& h[k].2 <= h[k].3 <= n_new
        }
    &&& forall|k: int| 0 < k < h.len() ==> (#[trigger] h[k]).0 >= h[k - 1].1 && h[k].2 >= h[k - 1].3
}

/// The unchanged tokens (lines, for a line diff) pair up one to one:
/// before each hunk as many tokens since the previous hunk on both sides,
/// and after the last hunk (or in all, without hunks) as many tokens on
/// both sides.
pub open spec fn gaps_match(h: Seq<(usize, usize, usize, usize)>, n_old: nat, n_new: nat) -> bool {
    &&& forall|k: int| 0 <= k < h.len() ==> (#[trigger] h[k]).0 - (if k == 0 { 0 } else { h[k - 1].1 as int }) == h[k].2 - (
        if k == 0 { 0 } else { h[k - 1].3 as int })
    &&& if h.len() == 0 { n_old == n_new } else { n_old - h.last().1 == n_new - h.last().3 }
}

/// Where the `k`-th stretch of unchanged tokens starts on the old side:
/// at the start, or where hunk `k - 1` ends.
pub open spec fn gap_start_old(h: Seq<(usize, usize, usize, usize)>, k: int) -> int {
    if k <= 0 { 0 } else { h[k - 1].1 as int }
}

/// Where the `k`-th stretch of unchanged tokens starts on the new side.
pub open spec fn gap_start_new(h: Seq<(usize, usize, usize, usize)>, k: int) -> int {
    if k <= 0 { 0 } else { h[k - 1].3 as int }
}

/// Where the `k`-th stretch of unchanged tokens ends on the old side: where
/// hunk `k` starts, or at the end of the `n_old` tokens after the last hunk.
pub open spec fn gap_end_old(h: Seq<(usize, usize, usize, usize)>, k: int, n_old: int) -> int {
    if k < h.len() { h[k].0 as int } else { n_old }
}

/// The unchanged tokens of the `k`-th stretch are equal pair by pair on the
/// two sides.
pub open spec fn gap_pairs<T>(h: Seq<(usize, usize, usize, usize)>, a: Seq<T>, b: Seq<T>, k: int) -> bool {
    forall|i: int|
        gap_start_old(h, k) <= i < gap_end_old(h, k, a.len() as int) ==> #[trigger] a[i] == b[gap_start_new(h, k) + (i
            - gap_start_old(h, k))]
}

/// Every token that no hunk covers on the old side equals its partner on
/// the new side: the stretches before, between and after the hunks pair up
/// token by token.
pub open spec fn unchanged_pair_up<T>(h: Seq<(usize, usize, usize, usize)>, a: Seq<T>, b: Seq<T>) -> bool {
    forall|k: int| 0 <= k <= h.len() ==> #[trigger] gap_pairs(h, a, b, k)
}

/// A line diff of two texts with `imara_diff` (`InternedInput::new`,
/// `Diff::compute` with the histogram algorithm, `Diff::hunks`). The
/// result is the named hunks; they lie in order within the lines of the
/// texts (imara's line tokens are the text's lines with their line
/// endings, one token per line); equal texts give no hunk. `Diff::compute`
/// asserts that each side has fewer than `i32::MAX` tokens, which the
/// bound on the lengths ensures. The unchanged lines pair up (see
/// `gaps_match`): the histogram algorithm keeps a common run of equal
/// length on both sides at each split and marks the rest, and
/// `Diff::hunks` walks both sides' unmarked lines together; the unmarked
/// lines so paired are equal tokens (common prefix and suffix, and the
/// common runs that the algorithm keeps), so equal lines once their line
/// endings are taken off (`unchanged_pair_up`). Texts that differ differ in
/// some token, since the tokens laid end to end are the text, so they get
/// at least one hunk; and no hunk is empty on both sides (`HunkIter`
/// yields a hunk only where it removed or added a token). Which lines the algorithm matches is not stated
/// beyond this.
#[verifier::external_body]
pub(crate) fn histogram_line_hunks(old: &str, new: &str) -> (r: Vec<(usize, usize, usize, usize)>)
    requires
        old@.len() < 0x7fff_0000,
        new@.len() < 0x7fff_0000,
    ensures
        r@ == line_diff_hunks(old@, new@),
        hunks_in_order(r@, text_lines(old@).len(), text_lines(new@).len()),
        gaps_match(r@, text_lines(old@).len(), text_lines(new@).len()),
        unchanged_pair_up(r@, text_lines(old@), text_lines(new@)),
        forall|k: int| 0 <= k < r@.len() ==> (#[trigger] r@[k]).0 < r@[k].1 || r@[k].2 < r@[k].3,
        old@ == new@ <==> r@.len() == 0,
{
    let input = InternedInput::new(old, new);
    let diff = Diff::compute(Algorithm::Histogram, &input);
    diff.hunks().map(
        |h| (h.before.start as usize, h.before.end as usize, h.after.start as usize, h.after.end as usize),
    ).collect()
}

/// A token diff of two token sequences with `imara_diff`
/// (`InternedInput` filled from the tokens, `Diff::compute` with the
/// histogram algorithm, `Diff::hunks`). The result is the named hunks; they
/// lie in order within the token sequences; the unchanged tokens pair up
/// as in the line diff, and are equal pair by pair (equal strings intern to
/// the same token); sequences differ exactly when there is a hunk.
#[verifier::external_body]
pub(crate) fn histogram_token_hunks(old: &Vec<String>, new: &Vec<String>) -> (r: Vec<(usize, usize, usize, usize)>)
    requires
        old@.len() < 0x7fff_0000,
        new@.len() < 0x7fff_0000,
    ensures
        r@ == token_diff_hunks(old.deep_view(), new.deep_view()),
        hunks_in_order(r@, old@.len(), new@.len()),
        gaps_match(r@, old@.len(), new@.len()),
        unchanged_pair_up(r@, old.deep_view(), new.deep_view()),
        old.deep_view() == new.deep_view() <==> r@.len() == 0,
{
    let mut input: InternedInput<&str> = InternedInput::default();
    input.update_before(old.iter().map(|s| s.as_str()));
    input.update_after(new.iter().map(|s| s.as_str()));
    let diff = Diff::compute(Algorithm::Histogram, &input);
    diff.hunks().map(
        |h| (h.before.start as usize, h.before.end as usize, h.after.start as usize, h.after.end as usize),
    ).collect()
}

// ---------------------------------------------------------------------
// Date and time formats
// ---------------------------------------------------------------------

/// Whether a text parses as a format description in the `time` crate's
/// own syntax (version 2): a function of the text alone.
pub uninterp spec fn description_parses(s: Seq<char>) -> bool;

/// Whether a text parses as a `strftime` format of the `time` crate: a
/// function of the text alone.
pub uninterp spec fn strftime_parses(s: Seq<char>) -> bool;

/// What the `time` crate writes for the UTC moment `epoch` seconds after
/// 1970-01-01 in the format parsed from a text in a syntax; `None` where
/// the format asks for what the moment lacks. A function of the moment
/// and the format's text alone.
pub uninterp spec fn formatted_moment(epoch: i64, format: (FormatSyntax, Seq<char>)) -> Option<Seq<char>>;

/// `time::format_description::parse_owned::<2>`: a format description in
/// the crate's own syntax, kept with its text; `None` where it does not
/// parse.
#[verifier::external_body]
pub(crate) fn parse_format_description(s: &str) -> (r: Option<ParsedFormat>)
    ensures
        r is Some == description_parses(s@),
        r matches Some(p) ==> p@ == (FormatSyntax::Description, s@),
{
    match time::format_description::parse_owned::<2>(s) {
        Ok(item) => Some(ParsedFormat { syntax: FormatSyntax::Description, text: s.to_string(), item }),
        Err(_) => None,
    }
}

/// `time::format_description::parse_strftime_owned`: a format in
/// `strftime` syntax, kept with its text; `None` where it does not parse.
#[verifier::external_body]
pub(crate) fn parse_strftime_format(s: &str) -> (r: Option<ParsedFormat>)
    ensures
        r is Some == strftime_parses(s@),
        r matches Some(p) ==> p@ == (FormatSyntax::Strftime, s@),
{
    match time::format_description::parse_strftime_owned(s) {
        Ok(item) => Some(ParsedFormat { syntax: FormatSyntax::Strftime, text: s.to_string(), item }),
        Err(_) => None,
    }
}

/// `OffsetDateTime::from_unix_timestamp`: the UTC moment `epoch` seconds
/// after 1970-01-01, kept with `epoch`. It exists exactly for the moments
/// from -9999-01-01 00:00:00 to 9999-12-31 23:59:59 (`Date::MIN` and
/// `Date::MAX` without the crate's `large-dates` feature, which is not
/// enabled here).
#[verifier::external_body]
pub(crate) fn datetime_from_unix(epoch: i64) -> (r: Option<Moment>)
    ensures
        r is Some <==> -377_705_116_800 <= epoch <= 253_402_300_799,
        r matches Some(m) ==> m@ == epoch,
{
    match OffsetDateTime::from_unix_timestamp(epoch) {
        Ok(moment) => Some(Moment { epoch, moment }),
        Err(_) => None,
    }
}

/// `OffsetDateTime::format`: a moment written in a format (see
/// `formatted_moment`).
#[verifier::external_body]
pub(crate) fn format_datetime(moment: &Moment, format: &ParsedFormat) -> (r: Option<String>)
    ensures
        match r {
            Some(t) => formatted_moment(moment@, format@) == Some(t@),
            None => formatted_moment(moment@, format@) is None,
        },
{
    moment.moment.format(&format.item).ok()
}

// ---------------------------------------------------------------------
// Regular expressions
// ---------------------------------------------------------------------

/// Whether a pattern compiles as a case-insensitive regular expression of
/// the `regex` crate (valid syntax, within the default size limits): a
/// function of the pattern alone.
pub uninterp spec fn ci_pattern_compiles(pattern: Seq<char>) -> bool;

/// Whether the case-insensitive regular expression of a pattern matches
/// somewhere in a text: a function of the two alone.
pub uninterp spec fn ci_pattern_matches(pattern: Seq<char>, text: Seq<char>) -> bool;

/// A meta character of the `regex` syntax (`regex_syntax::is_meta_character`):
/// one of `\ . + * ? ( ) | [ ] { } ^ $ # & - ~`.
pub open spec fn regex_meta(c: char) -> bool {
    ||| c == '\\'
    ||| c == '.'
    ||| c == '+'
    ||| c == '*'
    ||| c == '?'
    ||| c == '('
    ||| c == ')'
    ||| c == '|'
    ||| c == '['
    ||| c == ']'
    ||| c == '{'
    ||| c == '}'
    ||| c == '^'
    ||| c == '$'
    ||| c == '#'
    ||| c == '&'
    ||| c == '-'
    ||| c == '~'
}

/// The text with a backslash before every meta character, as
/// `regex::escape` (`regex_syntax::escape_into`) writes it.
pub open spec fn regex_escaped(s: Seq<char>) -> Seq<char>
    decreases s.len(),
{
    if s.len() == 0 {
        Seq::empty()
    } else {
        regex_escaped(s.drop_last()) + if regex_meta(s.last()) {
            seq!['\\', s.last()]
        } else {
            seq![s.last()]
        }
    }
}

/// Escapes the meta characters of a text, so that it matches itself
/// literally (see `regex_escaped`).
pub(crate) fn regex_escape(s: &str) -> (r: String)
    ensures
        r@ == regex_escaped(s@),
{
    broadcast use vstd::string::group_string_axioms;

    let mut out = String::new();
    assert(s@.take(0) =~= Seq::<char>::empty());
    for c in it: s.chars()
        invariant
            it.seq() == s@,
            out@ == regex_escaped(s@.take(it.index() as int)),
    {
        let ghost before = s@.take(it.index() as int);
        assert(s@.take(it.index() + 1).drop_last() =~= before);
        assert(s@.take(it.index() + 1).last() == c);
        let meta = c == '\\' || c == '.' || c == '+' || c == '*' || c == '?' || c == '(' || c == ')' || c == '|' || c
            == '[' || c == ']' || c == '{' || c == '}' || c == '^' || c == '$' || c == '#' || c == '&' || c == '-' || c
            == '~';
        if meta {
            push_char(&mut out, '\\');
        }
        push_char(&mut out, c);
        assert(out@ =~= regex_escaped(s@.take(it.index() + 1)));
    }
    assert(s@.take(s@.len() as int) =~= s@);
    out
}

/// `RegexBuilder::new(pattern).case_insensitive(true).build()`: the
/// compiled pattern, kept with its text; `None` where it does not compile.
#[verifier::external_body]
pub(crate) fn compile_ci_pattern(pattern: String) -> (r: Option<crate::search::SearchQuery>)
    ensures
        r is Some == ci_pattern_compiles(pattern@),
        r matches Some(q) ==> q.pattern@ == pattern@,
{
    match regex::RegexBuilder::new(&pattern).case_insensitive(true).build() {
        Ok(regex) => Some(crate::search::SearchQuery { pattern, regex }),
        Err(_) => None,
    }
}

/// `Regex::is_match` on a query's compiled pattern: whether it matches
/// somewhere in the text.
#[verifier::external_body]
pub(crate) fn query_is_match(q: &crate::search::SearchQuery, text: &str) -> (b: bool)
    ensures
        b == ci_pattern_matches(q.pattern@, text@),
{
    q.regex.is_match(text)
}

} // verus!
