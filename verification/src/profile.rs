//! Helpers of the profile summary tool: which functions count as idle, how
//! a thread is picked from the command line, how metrics are labelled and
//! how functions are grouped by module.

use crate::foreign::{ascii_lower, contains_text, push_char, str_contains, str_to_ascii_lowercase};
use crate::text::to_owned_string;
use vstd::prelude::*;

verus! {

/// What a profile knows of a function: its name, the resource (library or
/// file) it comes from, and the label it is shown with.
pub struct FunctionInfo {
    pub name: String,
    pub resource: Option<String>,
    pub label: String,
}

/// Classifies functions as idle by case-insensitive label patterns.
pub struct IdleClassifier {
    patterns: Vec<String>,
}

/// A text in ASCII lowercase.
pub open spec fn ascii_lowercase(s: Seq<char>) -> Seq<char> {
    s.map_values(|c: char| ascii_lower(c))
}

impl IdleClassifier {
    /// The patterns, as kept.
    pub closed spec fn pattern_views(&self) -> Seq<Seq<char>> {
        self.patterns@.map_values(|p: String| p@)
    }

    /// A classifier for the patterns, kept in ASCII lowercase.
    pub fn new(patterns: Vec<String>) -> (r: Self)
        ensures
            r.pattern_views() == patterns@.map_values(|p: String| ascii_lowercase(p@)),
    {
        let mut out: Vec<String> = Vec::new();
        let mut i: usize = 0;
        while i < patterns.len()
            invariant
                i <= patterns@.len(),
                out@.len() == i,
                forall|k: int| 0 <= k < i ==> (#[trigger] out@[k])@ == ascii_lowercase(patterns@[k]@),
            decreases patterns@.len() - i,
        {
            let low = str_to_ascii_lowercase(patterns[i].as_str());
            out.push(low);
            i = i + 1;
        }
        let r = IdleClassifier { patterns: out };
        assert(r.pattern_views() =~= patterns@.map_values(|p: String| ascii_lowercase(p@)));
        r
    }

    /// Whether the function's label, in ASCII lowercase, contains one of
    /// the patterns.
    pub fn is_idle(&self, info: &FunctionInfo) -> (b: bool)
        ensures
            b == exists|k: int|
                0 <= k < self.pattern_views().len() && contains_text(
                    ascii_lowercase(info.label@),
                    #[trigger] self.pattern_views()[k],
                ),
    {
        let label = str_to_ascii_lowercase(info.label.as_str());
        let mut i: usize = 0;
        while i < self.patterns.len()
            invariant
                i <= self.patterns@.len(),
                label@ == ascii_lowercase(info.label@),
                forall|k: int| 0 <= k < i ==> !contains_text(label@, #[trigger] self.pattern_views()[k]),
            decreases self.patterns@.len() - i,
        {
            assert(self.pattern_views()[i as int] == self.patterns@[i as int]@);
            if str_contains(label.as_str(), self.patterns[i].as_str()) {
                return true;
            }
            i = i + 1;
        }
        false
    }
}

/// How a thread is picked: by its index, or by its name.
#[derive(Debug, Clone, PartialEq, Eq)]
pub enum ThreadSelector {
    Index(usize),
    Name(String),
}

/// An ASCII decimal digit.
pub open spec fn is_digit(c: char) -> bool {
    0x30 <= (c as u32) <= 0x39
}

/// Every character is an ASCII decimal digit.
pub open spec fn all_digits(s: Seq<char>) -> bool {
    forall|i: int| 0 <= i < s.len() ==> is_digit(#[trigger] s[i])
}

/// The number that decimal digits write.
pub open spec fn digits_value(s: Seq<char>) -> nat
    decreases s.len(),
{
    if s.len() == 0 {
        0
    } else {
        digits_value(s.drop_last()) * 10 + ((s.last() as u32) - 0x30) as nat
    }
}

/// The index that a selector names: a nonempty run of digits whose number
/// fits in a `usize`.
pub open spec fn selector_index(s: Seq<char>) -> Option<usize> {
    if s.len() > 0 && all_digits(s) && digits_value(s) <= usize::MAX {
        Some(digits_value(s) as usize)
    } else {
        None
    }
}

/// Parses a thread selector: an index when the text is a number that fits
/// (see `selector_index`), else a name.
pub fn parse_thread_selector(value: &str) -> (r: ThreadSelector)
    ensures
        match r {
            ThreadSelector::Index(n) => selector_index(value@) == Some(n),
            ThreadSelector::Name(t) => selector_index(value@) is None && t@ == value@,
        },
{
    broadcast use vstd::string::group_string_axioms;

    let mut acc: usize = 0;
    let mut fits = true;
    assert(value@.take(0) =~= Seq::<char>::empty());
    for c in it: value.chars()
        invariant
            it.seq() == value@,
            all_digits(value@.take(it.index() as int)),
            fits ==> acc == digits_value(value@.take(it.index() as int)),
            !fits ==> digits_value(value@.take(it.index() as int)) > usize::MAX,
    {
        let ghost before = value@.take(it.index() as int);
        let ghost after = value@.take(it.index() + 1);
        assert(after.drop_last() =~= before);
        assert(after.last() == c);
        let u = c as u32;
        if !(0x30 <= u && u <= 0x39) {
            assert(value@[it.index() as int] == c);
            assert(!all_digits(value@));
            return ThreadSelector::Name(to_owned_string(value));
        }
        assert forall|i: int| 0 <= i < after.len() implies is_digit(#[trigger] after[i]) by {
            if i < before.len() {
                assert(after[i] == before[i]);
            }
        }
        let d = (u - 0x30) as usize;
        assert(digits_value(after) == digits_value(before) * 10 + d);
        if fits {
            match acc.checked_mul(10) {
                Some(m) => match m.checked_add(d) {
                    Some(v) => {
                        acc = v;
                    },
                    None => {
                        fits = false;
                    },
                },
                None => {
                    fits = false;
                },
            }
        }
    }
    assert(value@.take(value@.len() as int) =~= value@);
    if value.unicode_len() == 0 || !fits {
        ThreadSelector::Name(to_owned_string(value))
    } else {
        ThreadSelector::Index(acc)
    }
}

/// What a profile's samples are counted in.
#[derive(Clone, Copy, Debug, PartialEq, Eq, Structural)]
pub enum MetricKind {
    Samples,
    Weight,
    Time,
}

/// The name of a metric.
pub open spec fn metric_label_spec(kind: MetricKind) -> Seq<char> {
    match kind {
        MetricKind::Samples => "samples"@,
        MetricKind::Weight => "weight"@,
        MetricKind::Time => "time"@,
    }
}

/// The name of a metric (see `metric_label_spec`).
pub fn metric_label(kind: MetricKind) -> (r: &'static str)
    ensures
        r@ == metric_label_spec(kind),
{
    match kind {
        MetricKind::Samples => "samples",
        MetricKind::Weight => "weight",
        MetricKind::Time => "time",
    }
}

/// Where the first `::` at or after position `i` starts, if anywhere.
pub open spec fn sep_from(s: Seq<char>, i: int) -> Option<int>
    decreases s.len() - i,
{
    if i < 0 || i + 1 >= s.len() {
        None
    } else if s[i] == ':' && s[i + 1] == ':' {
        Some(i)
    } else {
        sep_from(s, i + 1)
    }
}

/// The module a function belongs to: for a path, its first two segments
/// (split at `::`); else the resource it comes from; else its name.
pub open spec fn module_key_spec(name: Seq<char>, resource: Option<Seq<char>>) -> Seq<char> {
    match sep_from(name, 0) {
        Some(i) => name.take(i) + seq![':', ':'] + match sep_from(name, i + 2) {
            Some(j) => name.subrange(i + 2, j),
            None => name.skip(i + 2),
        },
        None => match resource {
            Some(r) => r,
            None => name,
        },
    }
}

/// The first `::` at or after `from`.
fn find_sep(v: &Vec<char>, from: usize) -> (r: Option<usize>)
    ensures
        match r {
            Some(j) => sep_from(v@, from as int) == Some(j as int),
            None => sep_from(v@, from as int) is None,
        },
{
    let mut i = from;
    while i < v.len() && i + 1 < v.len()
        invariant
            from <= i,
            sep_from(v@, from as int) == sep_from(v@, i as int),
        decreases v@.len() - i,
    {
        if v[i] == ':' && v[i + 1] == ':' {
            return Some(i);
        }
        i = i + 1;
    }
    None
}

/// Appends the characters `a..b` of `v`.
fn push_range(out: &mut String, v: &Vec<char>, a: usize, b: usize)
    requires
        a <= b <= v@.len(),
    ensures
        final(out)@ == old(out)@ + v@.subrange(a as int, b as int),
{
    let mut i = a;
    assert(v@.subrange(a as int, a as int) =~= Seq::<char>::empty());
    assert(out@ =~= old(out)@ + v@.subrange(a as int, a as int));
    while i < b
        invariant
            a <= i <= b <= v@.len(),
            out@ == old(out)@ + v@.subrange(a as int, i as int),
        decreases b - i,
    {
        push_char(out, v[i]);
        assert(out@ =~= old(out)@ + v@.subrange(a as int, i + 1));
        i = i + 1;
    }
}

/// The module key of a function (see `module_key_spec`).
pub fn module_key(info: &FunctionInfo) -> (r: String)
    ensures
        r@ == module_key_spec(
            info.name@,
            match &info.resource {
                Some(t) => Some(t@),
                None => None,
            },
        ),
{
    broadcast use vstd::string::group_string_axioms;

    let mut v: Vec<char> = Vec::new();
    assert(info.name@.take(0) =~= Seq::<char>::empty());
    for c in it: info.name.chars()
        invariant
            it.seq() == info.name@,
            v@ == info.name@.take(it.index() as int),
    {
        v.push(c);
        assert(v@ =~= info.name@.take(it.index() + 1));
    }
    assert(info.name@.take(info.name@.len() as int) =~= info.name@);
    match find_sep(&v, 0) {
        Some(i) => {
            proof {
                lemma_sep_bounds(v@, 0);
            }
            let mut out = String::new();
            push_range(&mut out, &v, 0, i);
            push_char(&mut out, ':');
            push_char(&mut out, ':');
            let end = match find_sep(&v, i + 2) {
                Some(j) => j,
                None => v.len(),
            };
            proof {
                if let Some(j) = sep_from(v@, i + 2) {
                    lemma_sep_bounds(v@, i + 2);
                }
            }
            push_range(&mut out, &v, i + 2, end);
            assert(v@.take(i as int) =~= v@.subrange(0, i as int));
            assert(v@.skip(i + 2) =~= v@.subrange(i + 2, v@.len() as int));
            assert(out@ =~= module_key_spec(
                info.name@,
                match &info.resource {
                    Some(t) => Some(t@),
                    None => None,
                },
            ));
            out
        },
        None => match &info.resource {
            Some(t) => to_owned_string(t.as_str()),
            None => to_owned_string(info.name.as_str()),
        },
    }
}

/// A `::` found from position `i` lies at or after `i`, with room for both
/// colons.
proof fn lemma_sep_bounds(s: Seq<char>, i: int)
    requires
        0 <= i,
    ensures
        match sep_from(s, i) {
            Some(j) => i <= j && j + 1 < s.len(),
            None => true,
        },
    decreases s.len() - i,
{
    if i + 1 < s.len() && !(s[i] == ':' && s[i + 1] == ':') {
        lemma_sep_bounds(s, i + 1);
    }
}

} // verus!
