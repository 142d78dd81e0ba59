//! Names from the configuration: view modes, the theme mode, and syntax
//! theme names with their light and dark variants.

use crate::display::ViewMode;
use crate::foreign::{push_char, push_str};
use crate::text::{
    ascii_lower, eq_ignore_ascii_case, lower_seq, lowercase_chars, str_equals, to_ascii_lower, to_owned_string,
    vec_ends_with,
};
use vstd::prelude::*;

verus! {

/// The view mode a configuration name stands for.
pub open spec fn view_mode_spec(s: Seq<char>) -> Option<ViewMode> {
    if s == "single"@ {
        Some(ViewMode::SinglePane)
    } else if s == "split"@ || s == "sbs"@ {
        Some(ViewMode::Split)
    } else if s == "evolution"@ || s == "evo"@ {
        Some(ViewMode::Evolution)
    } else {
        None
    }
}

/// The view mode of a configured name (`"single"`, `"split"`/`"sbs"`,
/// `"evolution"`/`"evo"`), if any.
pub fn parse_view_mode(view_mode: Option<&str>) -> (r: Option<ViewMode>)
    ensures
        r == (match view_mode {
            Some(s) => view_mode_spec(s@),
            None => None,
        }),
{
    match view_mode {
        Some(s) => {
            if str_equals(s, "single") {
                Some(ViewMode::SinglePane)
            } else if str_equals(s, "split") || str_equals(s, "sbs") {
                Some(ViewMode::Split)
            } else if str_equals(s, "evolution") || str_equals(s, "evo") {
                Some(ViewMode::Evolution)
            } else {
                None
            }
        },
        None => None,
    }
}

/// Whether the configured theme mode is light (`"light"` in any ASCII
/// case).
pub fn is_light_mode(mode: Option<&str>) -> (b: bool)
    ensures
        b == (match mode {
            Some(m) => lower_seq(m@) == lower_seq("light"@),
            None => false,
        }),
{
    match mode {
        Some(m) => eq_ignore_ascii_case(m, "light"),
        None => false,
    }
}

/// Whether a character is an ASCII letter or digit.
pub open spec fn ascii_alnum(c: char) -> bool {
    ('a' <= c <= 'z') || ('A' <= c <= 'Z') || ('0' <= c <= '9')
}

/// The key a theme name is looked up by: its ASCII letters and digits, in
/// lowercase.
pub open spec fn theme_key_spec(s: Seq<char>) -> Seq<char>
    decreases s.len(),
{
    if s.len() == 0 {
        Seq::empty()
    } else {
        let prev = theme_key_spec(s.drop_last());
        if ascii_alnum(s.last()) {
            prev.push(ascii_lower(s.last()))
        } else {
            prev
        }
    }
}

/// The lookup key of a theme name (see `theme_key_spec`).
pub fn normalize_theme_key(value: &str) -> (r: String)
    ensures
        r@ == theme_key_spec(value@),
{
    let n = value.unicode_len();
    let mut out = String::new();
    let mut i: usize = 0;
    while i < n
        invariant
            n == value@.len(),
            i <= n,
            out@ == theme_key_spec(value@.take(i as int)),
        decreases n - i,
    {
        let c = value.get_char(i);
        assert(value@.take(i + 1).drop_last() =~= value@.take(i as int));
        if ('a' <= c && c <= 'z') || ('A' <= c && c <= 'Z') || ('0' <= c && c <= '9') {
            push_char(&mut out, to_ascii_lower(c));
        }
        i = i + 1;
    }
    assert(value@.take(n as int) =~= value@);
    out
}

/// The variant suffixes, in the order they are tried.
pub open spec fn variant_suffixes() -> Seq<Seq<char>> {
    seq!["-light"@, "_light"@, ".light"@, "-dark"@, "_dark"@, ".dark"@]
}

/// Whether `s` (in ASCII lowercase) ends with `suffix`.
pub open spec fn lower_ends_with(s: Seq<char>, suffix: Seq<char>) -> bool {
    suffix.len() <= s.len() && lower_seq(s).subrange(s.len() - suffix.len(), s.len() as int) == suffix
}

/// Whether `s` ends with `suffix`.
pub open spec fn ends_with(s: Seq<char>, suffix: Seq<char>) -> bool {
    suffix.len() <= s.len() && s.subrange(s.len() - suffix.len(), s.len() as int) == suffix
}

/// Whether a theme name picks a variant itself: a `.tmTheme` file, or a
/// name ending in a light or dark suffix (any ASCII case).
pub open spec fn explicit_variant_spec(name: Seq<char>) -> bool {
    ends_with(name, ".tmTheme"@) || exists|k: int| 0 <= k < 6 && lower_ends_with(name, #[trigger] variant_suffixes()[k])
}

/// The first variant suffix that `name` ends with (ASCII case ignored).
pub open spec fn first_suffix(name: Seq<char>, k: int) -> Option<int>
    decreases 6 - k,
{
    if k >= 6 || k < 0 {
        None
    } else if lower_ends_with(name, variant_suffixes()[k]) {
        Some(k)
    } else {
        first_suffix(name, k + 1)
    }
}

fn suffix_at(k: usize) -> (s: &'static str)
    requires
        k < 6,
    ensures
        s@ == variant_suffixes()[k as int],
{
    if k == 0 {
        "-light"
    } else if k == 1 {
        "_light"
    } else if k == 2 {
        ".light"
    } else if k == 3 {
        "-dark"
    } else if k == 4 {
        "_dark"
    } else {
        ".dark"
    }
}

/// The first variant suffix the name ends with, by index.
fn find_suffix(name: &str) -> (r: Option<usize>)
    ensures
        match r {
            Some(k) => first_suffix(name@, 0) == Some(k as int),
            None => first_suffix(name@, 0) is None,
        },
{
    let lower = lowercase_chars(name);
    let mut k: usize = 0;
    while k < 6
        invariant
            lower@ == lower_seq(name@),
            k <= 6,
            first_suffix(name@, 0) == first_suffix(name@, k as int),
        decreases 6 - k,
    {
        let suffix = suffix_at(k);
        if vec_ends_with(&lower, suffix) {
            return Some(k);
        }
        k = k + 1;
    }
    None
}

proof fn lemma_first_suffix(name: Seq<char>, k: int)
    requires
        0 <= k <= 6,
    ensures
        first_suffix(name, k) is None <==> forall|j: int| k <= j < 6 ==> !lower_ends_with(name, variant_suffixes()[j]),
    decreases 6 - k,
{
    if k < 6 {
        lemma_first_suffix(name, k + 1);
    }
}

/// Whether a theme name picks a variant itself (see
/// `explicit_variant_spec`).
pub fn is_explicit_variant(name: &str) -> (b: bool)
    ensures
        b == explicit_variant_spec(name@),
{
    let chars = name_chars(name);
    if vec_ends_with(&chars, ".tmTheme") {
        return true;
    }
    let found = find_suffix(name);
    proof {
        lemma_first_suffix(name@, 0);
        lemma_first_suffix_hit(name@, 0);
        if found is Some {
            let k = found->0 as int;
            assert(lower_ends_with(name@, variant_suffixes()[k]));
        }
    }
    found.is_some()
}

/// The characters of a string slice.
fn name_chars(s: &str) -> (r: Vec<char>)
    ensures
        r@ == s@,
{
    let n = s.unicode_len();
    let mut out: Vec<char> = Vec::new();
    let mut i: usize = 0;
    while i < n
        invariant
            n == s@.len(),
            i <= n,
            out@ == s@.take(i as int),
        decreases n - i,
    {
        out.push(s.get_char(i));
        assert(out@ =~= s@.take(i + 1));
        i = i + 1;
    }
    assert(s@.take(n as int) =~= s@);
    out
}

/// A theme file stem without its variant suffix (the first that matches,
/// ASCII case ignored), if it has one.
pub fn strip_variant_suffix(stem: &str) -> (r: Option<String>)
    ensures
        match first_suffix(stem@, 0) {
            Some(k) => r is Some && r->0@ == stem@.subrange(0, stem@.len() - variant_suffixes()[k].len()),
            None => r is None,
        },
{
    match find_suffix(stem) {
        Some(k) => {
            proof {
                lemma_first_suffix_hit(stem@, 0);
            }
            let suffix = suffix_at(k);
            let m = suffix.unicode_len();
            let n = stem.unicode_len();
            Some(to_owned_string(stem.substring_char(0, n - m)))
        },
        None => None,
    }
}

proof fn lemma_first_suffix_hit(name: Seq<char>, k: int)
    requires
        0 <= k <= 6,
    ensures
        first_suffix(name, k) matches Some(j) ==> k <= j < 6 && lower_ends_with(name, variant_suffixes()[j]),
    decreases 6 - k,
{
    if k < 6 {
        lemma_first_suffix_hit(name, k + 1);
    }
}

/// The names tried for the light (or dark) variant of a theme name:
/// `name` with `-light`, `_light` and `.light` (or the dark suffixes); for
/// light, the known light flavours of `catppuccin`, `rosepine` and
/// `tokyonight` (any ASCII case) come first.
pub open spec fn named_variants_spec(name: Seq<char>, light: bool) -> Seq<Seq<char>> {
    if light {
        let lower = lower_seq(name);
        let special: Seq<Seq<char>> = if lower == "catppuccin"@ {
            seq!["catppuccin-latte"@]
        } else if lower == "rosepine"@ {
            seq!["rosepine-dawn"@]
        } else if lower == "tokyonight"@ {
            seq!["tokyonight-day"@]
        } else {
            Seq::empty()
        };
        special + seq![name + "-light"@, name + "_light"@, name + ".light"@]
    } else {
        seq![name + "-dark"@, name + "_dark"@, name + ".dark"@]
    }
}

fn with_suffix(name: &str, suffix: &str) -> (r: String)
    ensures
        r@ == name@ + suffix@,
{
    let mut r = to_owned_string(name);
    push_str(&mut r, suffix);
    r
}

fn lower_equals(lower: &Vec<char>, word: &str) -> (b: bool)
    ensures
        b == (lower@ == word@),
{
    let n = word.unicode_len();
    if lower.len() != n {
        return false;
    }
    let mut i: usize = 0;
    while i < n
        invariant
            n == word@.len(),
            n == lower@.len(),
            i <= n,
            forall|k: int| 0 <= k < i ==> lower@[k] == word@[k],
        decreases n - i,
    {
        if lower[i] != word.get_char(i) {
            return false;
        }
        i = i + 1;
    }
    assert(lower@ =~= word@);
    true
}

/// The names tried for the light or dark variant of a theme name (see
/// `named_variants_spec`).
pub fn named_theme_variants(name: &str, light: bool) -> (r: Vec<String>)
    ensures
        r@.map_values(|s: String| s@) == named_variants_spec(name@, light),
{
    let mut variants: Vec<String> = Vec::new();
    if light {
        let lower = lowercase_chars(name);
        if lower_equals(&lower, "catppuccin") {
            variants.push(to_owned_string("catppuccin-latte"));
        } else if lower_equals(&lower, "rosepine") {
            variants.push(to_owned_string("rosepine-dawn"));
        } else if lower_equals(&lower, "tokyonight") {
            variants.push(to_owned_string("tokyonight-day"));
        }
        variants.push(with_suffix(name, "-light"));
        variants.push(with_suffix(name, "_light"));
        variants.push(with_suffix(name, ".light"));
    } else {
        variants.push(with_suffix(name, "-dark"));
        variants.push(with_suffix(name, "_dark"));
        variants.push(with_suffix(name, ".dark"));
    }
    assert(variants@.map_values(|s: String| s@) =~= named_variants_spec(name@, light));
    variants
}

} // verus!
