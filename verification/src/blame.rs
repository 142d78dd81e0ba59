//! Who last changed a line: blame records and how they are shown.

use crate::foreign::{char_is_whitespace, push_char, push_str, str_lines, text_lines, unicode_whitespace};
use crate::prefetch::BlameSide;
use crate::step::{LineKind, ViewLine};
use crate::text::{str_equals, to_owned_string};
use vstd::prelude::*;
use vstd::string::StringSliceAdditionalSpecFns;
use vstd::utf8::{decode_utf8, encode_utf8, is_char_boundary};

verus! {

/// The blame of one line.
#[derive(Debug, Clone)]
pub struct BlameInfo {
    pub author: String,
    pub commit: String,
    /// Whether the line is not committed yet.
    pub uncommitted: bool,
    /// Author time, in seconds since the epoch.
    pub author_time: Option<i64>,
    pub summary: String,
}

/// A blame record as plain values.
pub struct BlameView {
    pub author: Seq<char>,
    pub commit: Seq<char>,
    pub uncommitted: bool,
    pub author_time: Option<i64>,
    pub summary: Seq<char>,
}

impl View for BlameInfo {
    type V = BlameView;

    open spec fn view(&self) -> BlameView {
        BlameView {
            author: self.author@,
            commit: self.commit@,
            uncommitted: self.uncommitted,
            author_time: self.author_time,
            summary: self.summary@,
        }
    }
}

/// The first 8 bytes of a commit id, or the whole id when shorter.
pub open spec fn short_commit_spec(commit: Seq<char>) -> Seq<char> {
    if encode_utf8(commit).len() > 8 {
        decode_utf8(encode_utf8(commit).subrange(0, 8))
    } else {
        commit
    }
}

/// A commit id cut to 8 bytes (the cut falls on a character boundary).
pub fn short_commit(commit: &str) -> (r: String)
    requires
        encode_utf8(commit@).len() > 8 ==> is_char_boundary(encode_utf8(commit@), 8),
    ensures
        r@ == short_commit_spec(commit@),
{
    assert(commit.spec_bytes() == encode_utf8(commit@));
    if commit.as_bytes().len() > 8 {
        let (head, _) = commit.split_at(8);
        proof {
            assert(head.spec_bytes() == encode_utf8(head@));
            vstd::utf8::encode_utf8_decode_utf8(head@);
        }
        to_owned_string(head)
    } else {
        to_owned_string(commit)
    }
}

/// A text cut to `max_len` bytes: unchanged when it fits (or with no
/// limit), else its first `max_len - 3` bytes and an ellipsis.
pub open spec fn truncate_spec(text: Seq<char>, max_len: usize) -> Seq<char> {
    let b = encode_utf8(text);
    if max_len == 0 || b.len() <= max_len {
        text
    } else {
        decode_utf8(b.subrange(0, if max_len >= 3 { max_len - 3 } else { 0 })) + "…"@
    }
}

/// A text cut to `max_len` bytes with an ellipsis (see `truncate_spec`;
/// the cut falls on a character boundary).
pub fn truncate_with_ellipsis(text: &str, max_len: usize) -> (r: String)
    requires
        max_len > 0 && encode_utf8(text@).len() > max_len ==> is_char_boundary(
            encode_utf8(text@),
            if max_len >= 3 { max_len - 3 } else { 0 },
        ),
    ensures
        r@ == truncate_spec(text@, max_len),
{
    assert(text.spec_bytes() == encode_utf8(text@));
    if max_len == 0 || text.as_bytes().len() <= max_len {
        return to_owned_string(text);
    }
    let suffix_len = max_len.saturating_sub(3);
    let (head, _) = text.split_at(suffix_len);
    proof {
        assert(head.spec_bytes() == encode_utf8(head@));
        vstd::utf8::encode_utf8_decode_utf8(head@);
    }
    let mut r = to_owned_string(head);
    push_str(&mut r, "…");
    r
}

/// The author as shown: "You" for the current git user.
pub open spec fn shown_author(info: BlameView, git_user: Option<Seq<char>>) -> Seq<char> {
    match git_user {
        Some(u) => if u.len() > 0 && info.author == u {
            "You"@
        } else {
            info.author
        },
        None => info.author,
    }
}

/// `"{author}, {time} {short commit}"`, then `" {summary}"` when there is
/// one; `"Uncommitted"` for an uncommitted line.
pub open spec fn github_text_spec(info: BlameView, git_user: Option<Seq<char>>, time_text: Seq<char>) -> Seq<char> {
    if info.uncommitted {
        "Uncommitted"@
    } else {
        let head = shown_author(info, git_user) + ", "@ + time_text + " "@ + short_commit_spec(info.commit);
        if info.summary.len() == 0 {
            head
        } else {
            head + " "@ + info.summary
        }
    }
}

/// The same with the summary cut to `max_summary_len` bytes (see
/// `truncate_spec`).
pub open spec fn hint_text_spec(
    info: BlameView,
    git_user: Option<Seq<char>>,
    time_text: Seq<char>,
    max_summary_len: usize,
) -> Seq<char> {
    if info.uncommitted {
        "Uncommitted"@
    } else {
        let head = shown_author(info, git_user) + ", "@ + time_text + " "@ + short_commit_spec(info.commit);
        if info.summary.len() == 0 {
            head
        } else {
            head + " "@ + truncate_spec(info.summary, max_summary_len)
        }
    }
}

/// The view of an optional string slice.
pub open spec fn opt_str(s: Option<&str>) -> Option<Seq<char>> {
    match s {
        Some(t) => Some(t@),
        None => None,
    }
}

/// The commit ids this module cuts can be cut at 8 bytes.
pub open spec fn commit_cuttable(commit: Seq<char>) -> bool {
    encode_utf8(commit).len() > 8 ==> is_char_boundary(encode_utf8(commit), 8)
}

fn author_head(info: &BlameInfo, git_user: Option<&str>, time_text: &str) -> (r: String)
    requires
        commit_cuttable(info.commit@),
    ensures
        r@ == shown_author(info@, opt_str(git_user)) + ", "@ + time_text@ + " "@ + short_commit_spec(info.commit@),
{
    let you = match git_user {
        Some(user) => !user.is_empty() && str_equals(info.author.as_str(), user),
        None => false,
    };
    let mut r = String::new();
    if you {
        push_str(&mut r, "You");
    } else {
        push_str(&mut r, info.author.as_str());
    }
    push_str(&mut r, ", ");
    push_str(&mut r, time_text);
    push_str(&mut r, " ");
    let short = short_commit(info.commit.as_str());
    push_str(&mut r, short.as_str());
    assert(r@ =~= shown_author(info@, opt_str(git_user)) + ", "@ + time_text@ + " "@ + short_commit_spec(info.commit@));
    r
}

/// The blame of a line as text (see `github_text_spec`).
pub fn format_blame_github_text(info: &BlameInfo, git_user: Option<&str>, time_text: &str) -> (r: String)
    requires
        commit_cuttable(info.commit@),
    ensures
        r@ == github_text_spec(info@, opt_str(git_user), time_text@),
{
    if info.uncommitted {
        let r = to_owned_string("Uncommitted");
        return r;
    }
    let mut r = author_head(info, git_user, time_text);
    if !info.summary.as_str().is_empty() {
        push_str(&mut r, " ");
        push_str(&mut r, info.summary.as_str());
    }
    r
}

/// The blame of a line as a hint, the summary cut (see `hint_text_spec`).
pub fn format_blame_hint_text(info: &BlameInfo, git_user: Option<&str>, time_text: &str, max_summary_len: usize) -> (r:
    String)
    requires
        commit_cuttable(info.commit@),
        max_summary_len > 0 && encode_utf8(info.summary@).len() > max_summary_len ==> is_char_boundary(
            encode_utf8(info.summary@),
            if max_summary_len >= 3 { max_summary_len - 3 } else { 0 },
        ),
    ensures
        r@ == hint_text_spec(info@, opt_str(git_user), time_text@, max_summary_len),
{
    if info.uncommitted {
        return to_owned_string("Uncommitted");
    }
    let mut r = author_head(info, git_user, time_text);
    if info.summary.as_str().is_empty() {
        return r;
    }
    let summary = truncate_with_ellipsis(info.summary.as_str(), max_summary_len);
    push_str(&mut r, " ");
    push_str(&mut r, summary.as_str());
    r
}

/// Entry `i` is the first entry for the line.
pub open spec fn first_entry_for(es: Seq<(usize, BlameInfo)>, line: usize, i: int) -> bool {
    &&& 0 <= i < es.len()
    &&& es[i].0 == line
    &&& forall|j: int| 0 <= j < i ==> es[j].0 != line
}

/// The blame of a given line among blame entries (the first entry for
/// it).
pub fn blame_line(entries: Vec<(usize, BlameInfo)>, line: usize) -> (r: Option<BlameInfo>)
    ensures
        match r {
            Some(info) => exists|i: int| #[trigger] first_entry_for(entries@, line, i) && entries@[i].1@ == info@,
            None => forall|i: int| 0 <= i < entries@.len() ==> entries@[i].0 != line,
        },
{
    let ghost orig = entries@;
    let mut es = entries;
    let mut i: usize = 0;
    while i < es.len()
        invariant
            es@ == orig,
            orig == entries@,
            i <= orig.len(),
            forall|j: int| 0 <= j < i ==> orig[j].0 != line,
        decreases orig.len() - i,
    {
        if es[i].0 == line {
            let (_, info) = es.remove(i);
            assert(orig[i as int].1 == info);
            assert(first_entry_for(orig, line, i as int));
            return Some(info);
        }
        i = i + 1;
    }
    None
}

// ---------------------------------------------------------------------
// `git blame --line-porcelain` output
// ---------------------------------------------------------------------

/// The whitespace-separated words of the first `n` characters, and the
/// word being read.
pub open spec fn words_fold(s: Seq<char>, n: int) -> (Seq<Seq<char>>, Seq<char>)
    decreases n,
{
    if n <= 0 {
        (Seq::empty(), Seq::empty())
    } else {
        let (ws, cur) = words_fold(s, n - 1);
        if unicode_whitespace(s[n - 1]) {
            if cur.len() > 0 {
                (ws.push(cur), Seq::empty())
            } else {
                (ws, cur)
            }
        } else {
            (ws, cur.push(s[n - 1]))
        }
    }
}

/// The whitespace-separated words of a text (as `str::split_whitespace`
/// yields them).
pub open spec fn words(s: Seq<char>) -> Seq<Seq<char>> {
    let (ws, cur) = words_fold(s, s.len() as int);
    if cur.len() > 0 {
        ws.push(cur)
    } else {
        ws
    }
}

/// The value of a decimal digit character.
pub open spec fn digit_value(c: char) -> int {
    (c as u32) - ('0' as u32)
}

/// Whether every character is a decimal digit.
pub open spec fn all_digits(t: Seq<char>) -> bool {
    forall|i: int| 0 <= i < t.len() ==> '0' <= #[trigger] t[i] <= '9'
}

/// The value of a string of decimal digits.
pub open spec fn digits_value(t: Seq<char>) -> int
    decreases t.len(),
{
    if t.len() == 0 {
        0
    } else {
        digits_value(t.drop_last()) * 10 + digit_value(t.last())
    }
}

/// A `usize` as `str::parse` reads it: an optional `'+'`, then one or more
/// digits, the value fitting.
pub open spec fn parse_usize_spec(t: Seq<char>) -> Option<usize> {
    let d = if t.len() > 0 && t[0] == '+' { t.drop_first() } else { t };
    if d.len() > 0 && all_digits(d) && digits_value(d) <= usize::MAX {
        Some(digits_value(d) as usize)
    } else {
        None
    }
}

/// An `i64` as `str::parse` reads it: an optional sign, then one or more
/// digits, the value fitting.
pub open spec fn parse_i64_spec(t: Seq<char>) -> Option<i64> {
    let neg = t.len() > 0 && t[0] == '-';
    let d = if t.len() > 0 && (t[0] == '+' || t[0] == '-') { t.drop_first() } else { t };
    if d.len() > 0 && all_digits(d) {
        let v = if neg { -digits_value(d) } else { digits_value(d) };
        if i64::MIN <= v <= i64::MAX {
            Some(v as i64)
        } else {
            None
        }
    } else {
        None
    }
}

/// `s` starts with `p`.
pub open spec fn starts_with(s: Seq<char>, p: Seq<char>) -> bool {
    p.len() <= s.len() && s.subrange(0, p.len() as int) == p
}

/// The state of the reader between lines.
pub struct PorcelainState {
    pub commit: Option<Seq<char>>,
    pub author: Seq<char>,
    pub author_time: Option<i64>,
    pub summary: Seq<char>,
    pub line: usize,
    pub remaining: usize,
    pub entries: Seq<(usize, BlameView)>,
}

/// Whether a commit id is all zeros (the id of uncommitted lines).
pub open spec fn all_zero(c: Seq<char>) -> bool {
    forall|i: int| 0 <= i < c.len() ==> c[i] == '0'
}

/// Reading one line: a tab-led content line records an entry for the
/// current line of the current group; outside a group, a header
/// `commit orig final size` starts one; inside, `author `, `author-time `
/// and `summary ` lines fill it in.
pub open spec fn porcelain_step(st: PorcelainState, l: Seq<char>) -> PorcelainState {
    if l.len() > 0 && l[0] == '\t' {
        if st.remaining == 0 {
            st
        } else {
            let commit = match st.commit {
                Some(c) => c,
                None => Seq::empty(),
            };
            let info = BlameView {
                author: st.author,
                commit,
                uncommitted: all_zero(commit) || st.author == "Not Committed Yet"@,
                author_time: st.author_time,
                summary: st.summary,
            };
            let remaining = (st.remaining - 1) as usize;
            let st1 = PorcelainState {
                entries: st.entries.push((st.line, info)),
                line: if st.line < usize::MAX { (st.line + 1) as usize } else { st.line },
                remaining,
                ..st
            };
            if remaining == 0 {
                PorcelainState { commit: None, author: Seq::empty(), author_time: None, ..st1 }
            } else {
                st1
            }
        }
    } else if st.commit is None {
        let ws = words(l);
        if ws.len() >= 4 && parse_usize_spec(ws[2]) is Some && parse_usize_spec(ws[3]) is Some {
            let size = parse_usize_spec(ws[3])->0;
            PorcelainState {
                commit: Some(ws[0]),
                author: Seq::empty(),
                author_time: None,
                summary: Seq::empty(),
                line: parse_usize_spec(ws[2])->0,
                remaining: if size >= 1 { size } else { 1 },
                ..st
            }
        } else {
            st
        }
    } else if starts_with(l, "author "@) {
        PorcelainState { author: l.subrange(7, l.len() as int), ..st }
    } else if starts_with(l, "author-time "@) {
        PorcelainState {
            author_time: parse_i64_spec(crate::foreign::trim_spec(l.subrange(12, l.len() as int))),
            ..st
        }
    } else if starts_with(l, "summary "@) {
        PorcelainState { summary: l.subrange(8, l.len() as int), ..st }
    } else {
        st
    }
}

/// Reading the first `n` lines.
pub open spec fn porcelain_fold(lines: Seq<Seq<char>>, n: int) -> PorcelainState
    decreases n,
{
    if n <= 0 {
        PorcelainState {
            commit: None,
            author: Seq::empty(),
            author_time: None,
            summary: Seq::empty(),
            line: 0,
            remaining: 0,
            entries: Seq::empty(),
        }
    } else {
        porcelain_step(porcelain_fold(lines, n - 1), lines[n - 1])
    }
}

/// The blame entries (line number and record) that a `git blame
/// --line-porcelain` output describes.
pub open spec fn porcelain_entries(out: Seq<char>) -> Seq<(usize, BlameView)> {
    let lines = text_lines(out);
    porcelain_fold(lines, lines.len() as int).entries
}

/// The first four whitespace-separated words of a line (fewer when it has
/// fewer).
fn first_words(line: &str) -> (r: Vec<String>)
    ensures
        r@.map_values(|w: String| w@) == (if words(line@).len() <= 4 {
            words(line@)
        } else {
            words(line@).take(4)
        }),
{
    let n = line.unicode_len();
    let mut ws: Vec<String> = Vec::new();
    let mut cur = String::new();
    let mut i: usize = 0;
    while i < n
        invariant
            n == line@.len(),
            i <= n,
            ws@.map_values(|w: String| w@) == words_fold(line@, i as int).0,
            cur@ == words_fold(line@, i as int).1,
        decreases n - i,
    {
        let c = line.get_char(i);
        if char_is_whitespace(c) {
            if !cur.as_str().is_empty() {
                let ghost before = ws@.map_values(|w: String| w@);
                let w = cur;
                ws.push(w);
                cur = String::new();
                assert(ws@.map_values(|w: String| w@) =~= before.push(ws@.last()@));
            }
        } else {
            push_char(&mut cur, c);
        }
        i = i + 1;
    }
    if !cur.as_str().is_empty() {
        let ghost before = ws@.map_values(|w: String| w@);
        ws.push(cur);
        assert(ws@.map_values(|w: String| w@) =~= before.push(ws@.last()@));
    }
    if ws.len() > 4 {
        ws.truncate(4);
        assert(ws@.map_values(|w: String| w@) =~= words(line@).take(4));
    }
    ws
}

/// Reads a `usize` (see `parse_usize_spec`).
pub(crate) fn parse_usize(t: &str) -> (r: Option<usize>)
    ensures
        r == parse_usize_spec(t@),
{
    let n = t.unicode_len();
    let start: usize = if n > 0 && t.get_char(0) == '+' {
        1
    } else {
        0
    };
    let ghost d = if n > 0 && t@[0] == '+' { t@.drop_first() } else { t@ };
    assert(d =~= t@.subrange(start as int, n as int));
    if start >= n {
        return None;
    }
    let mut v: usize = 0;
    let mut i: usize = start;
    while i < n
        invariant
            n == t@.len(),
            start <= i <= n,
            d == t@.subrange(start as int, n as int),
            d == (if t@.len() > 0 && t@[0] == '+' { t@.drop_first() } else { t@ }),
            start < n,
            all_digits(t@.subrange(start as int, i as int)),
            v == digits_value(t@.subrange(start as int, i as int)),
        decreases n - i,
    {
        let c = t.get_char(i);
        assert(t@.subrange(start as int, i + 1).drop_last() =~= t@.subrange(start as int, i as int));
        if c < '0' || c > '9' {
            assert(!all_digits(d)) by {
                assert(d[i - start] == c);
            }
            return None;
        }
        let dv = (c as u32 - '0' as u32) as usize;
        if v > (usize::MAX - dv) / 10 {
            proof {
                assert(d.subrange(0, i - start + 1) =~= t@.subrange(start as int, i + 1));
                assert(digits_value(t@.subrange(start as int, i + 1)) == v * 10 + dv);
                if all_digits(d) {
                    lemma_digits_grow(d, i - start + 1);
                }
            }
            return None;
        }
        v = v * 10 + dv;
        i = i + 1;
    }
    Some(v)
}

/// The value of digits only grows with more digits.
proof fn lemma_digits_grow(d: Seq<char>, k: int)
    requires
        0 <= k <= d.len(),
        all_digits(d),
    ensures
        digits_value(d.subrange(0, k)) <= digits_value(d),
        0 <= digits_value(d.subrange(0, k)),
    decreases d.len(),
{
    if k < d.len() {
        assert(d.drop_last().subrange(0, k) =~= d.subrange(0, k));
        lemma_digits_grow(d.drop_last(), k);
    } else {
        assert(d.subrange(0, k) =~= d);
    }
    lemma_digits_nonneg(d);
}

proof fn lemma_digits_nonneg(d: Seq<char>)
    requires
        all_digits(d),
    ensures
        digits_value(d) >= 0,
    decreases d.len(),
{
    if d.len() > 0 {
        lemma_digits_nonneg(d.drop_last());
    }
}

/// Reads an `i64` (see `parse_i64_spec`).
fn parse_i64(t: &str) -> (r: Option<i64>)
    ensures
        r == parse_i64_spec(t@),
{
    let n = t.unicode_len();
    let neg = n > 0 && t.get_char(0) == '-';
    let start: usize = if n > 0 && (t.get_char(0) == '+' || t.get_char(0) == '-') {
        1
    } else {
        0
    };
    let ghost d = if t@.len() > 0 && (t@[0] == '+' || t@[0] == '-') { t@.drop_first() } else { t@ };
    assert(d =~= t@.subrange(start as int, n as int));
    if start >= n {
        return None;
    }
    let limit: u64 = if neg {
        0x8000_0000_0000_0000
    } else {
        0x7fff_ffff_ffff_ffff
    };
    let mut v: u64 = 0;
    let mut i: usize = start;
    while i < n
        invariant
            n == t@.len(),
            start <= i <= n,
            start < n,
            d == t@.subrange(start as int, n as int),
            d == (if t@.len() > 0 && (t@[0] == '+' || t@[0] == '-') { t@.drop_first() } else { t@ }),
            neg == (t@.len() > 0 && t@[0] == '-'),
            limit == (if neg { 0x8000_0000_0000_0000u64 } else { 0x7fff_ffff_ffff_ffffu64 }),
            all_digits(t@.subrange(start as int, i as int)),
            v == digits_value(t@.subrange(start as int, i as int)),
            v <= limit,
        decreases n - i,
    {
        let c = t.get_char(i);
        assert(t@.subrange(start as int, i + 1).drop_last() =~= t@.subrange(start as int, i as int));
        if c < '0' || c > '9' {
            assert(!all_digits(d)) by {
                assert(d[i - start] == c);
            }
            return None;
        }
        let dv = (c as u32 - '0' as u32) as u64;
        if v > (limit - dv) / 10 {
            proof {
                assert(d.subrange(0, i - start + 1) =~= t@.subrange(start as int, i + 1));
                assert(digits_value(t@.subrange(start as int, i + 1)) == v * 10 + dv);
                if all_digits(d) {
                    lemma_digits_grow(d, i - start + 1);
                }
            }
            return None;
        }
        v = v * 10 + dv;
        i = i + 1;
    }
    assert(t@.subrange(start as int, n as int) =~= d);
    if neg {
        if v == 0x8000_0000_0000_0000 {
            Some(i64::MIN)
        } else {
            Some(-(v as i64))
        }
    } else {
        Some(v as i64)
    }
}

/// Whether `s` starts with `p`.
fn starts_with_str(s: &str, p: &str) -> (b: bool)
    ensures
        b == starts_with(s@, p@),
{
    let m = p.unicode_len();
    let n = s.unicode_len();
    if m > n {
        return false;
    }
    let mut i: usize = 0;
    while i < m
        invariant
            m == p@.len(),
            n == s@.len(),
            m <= n,
            i <= m,
            forall|k: int| 0 <= k < i ==> s@[k] == p@[k],
        decreases m - i,
    {
        if s.get_char(i) != p.get_char(i) {
            assert(s@.subrange(0, m as int)[i as int] != p@[i as int]);
            return false;
        }
        i = i + 1;
    }
    assert(s@.subrange(0, m as int) =~= p@);
    true
}

/// Whether every character is `'0'`.
fn is_all_zero(c: &str) -> (b: bool)
    ensures
        b == all_zero(c@),
{
    let n = c.unicode_len();
    let mut i: usize = 0;
    while i < n
        invariant
            n == c@.len(),
            i <= n,
            forall|k: int| 0 <= k < i ==> c@[k] == '0',
        decreases n - i,
    {
        if c.get_char(i) != '0' {
            return false;
        }
        i = i + 1;
    }
    true
}

/// The view of the reader's state.
pub open spec fn porcelain_view(
    commit: Option<String>,
    author: String,
    author_time: Option<i64>,
    summary: String,
    line: usize,
    remaining: usize,
    entries: Seq<(usize, BlameInfo)>,
) -> PorcelainState {
    PorcelainState {
        commit: match commit {
            Some(c) => Some(c@),
            None => None,
        },
        author: author@,
        author_time,
        summary: summary@,
        line,
        remaining,
        entries: entries.map_values(|e: (usize, BlameInfo)| (e.0, e.1@)),
    }
}

/// The blame entries of a `git blame --line-porcelain` output (see
/// `porcelain_step`).
pub fn parse_blame_porcelain(stdout: &str) -> (r: Vec<(usize, BlameInfo)>)
    ensures
        r@.map_values(|e: (usize, BlameInfo)| (e.0, e.1@)) == porcelain_entries(stdout@),
{
    let lines = str_lines(stdout);
    let ghost lv = lines@.map_values(|l: &str| l@);
    let mut commit: Option<String> = None;
    let mut author = String::new();
    let mut author_time: Option<i64> = None;
    let mut summary = String::new();
    let mut line_no: usize = 0;
    let mut remaining: usize = 0;
    let mut entries: Vec<(usize, BlameInfo)> = Vec::new();
    let mut k: usize = 0;
    assert(entries@.map_values(|e: (usize, BlameInfo)| (e.0, e.1@)) =~= Seq::<(usize, BlameView)>::empty());
    assert(porcelain_view(commit, author, author_time, summary, line_no, remaining, entries@) =~= porcelain_fold(lv, 0));
    while k < lines.len()
        invariant
            lv == lines@.map_values(|l: &str| l@),
            lv == text_lines(stdout@),
            k <= lines@.len(),
            porcelain_view(commit, author, author_time, summary, line_no, remaining, entries@) == porcelain_fold(lv, k as int),
        decreases lines@.len() - k,
    {
        let l = lines[k];
        assert(l@ == lv[k as int]);
        let n = l.unicode_len();
        let ghost before = porcelain_fold(lv, k as int);
        if n > 0 && l.get_char(0) == '\t' {
            if remaining != 0 {
                let c = match &commit {
                    Some(c) => c.clone(),
                    None => String::new(),
                };
                let uncommitted = is_all_zero(c.as_str()) || str_equals(author.as_str(), "Not Committed Yet");
                let info = BlameInfo {
                    author: author.clone(),
                    commit: c,
                    uncommitted,
                    author_time,
                    summary: summary.clone(),
                };
                let ghost es = entries@;
                entries.push((line_no, info));
                assert(entries@.map_values(|e: (usize, BlameInfo)| (e.0, e.1@)) =~= es.map_values(
                    |e: (usize, BlameInfo)| (e.0, e.1@),
                ).push((entries@.last().0, entries@.last().1@)));
                line_no = line_no.saturating_add(1);
                remaining = remaining - 1;
                if remaining == 0 {
                    commit = None;
                    author = String::new();
                    author_time = None;
                }
            }
        } else if commit.is_none() {
            let ws = first_words(l);
            proof {
                let wv = ws@.map_values(|w: String| w@);
                if ws@.len() == 4 {
                    assert(wv[0] == ws@[0]@ && wv[2] == ws@[2]@ && wv[3] == ws@[3]@);
                    assert(words(l@).len() >= 4);
                }
                if words(l@).len() >= 4 {
                    assert(wv.len() == 4);
                }
            }
            if ws.len() >= 4 {
                match (parse_usize(ws[2].as_str()), parse_usize(ws[3].as_str())) {
                    (Some(final_line), Some(group_size)) => {
                        commit = Some(ws[0].clone());
                        author = String::new();
                        author_time = None;
                        summary = String::new();
                        line_no = final_line;
                        remaining = if group_size >= 1 {
                            group_size
                        } else {
                            1
                        };
                    },
                    _ => {},
                }
            }
        } else if starts_with_str(l, "author ") {
            proof {
                reveal_strlit("author ");
            }
            author = to_owned_string(l.substring_char(7, n));
        } else if starts_with_str(l, "author-time ") {
            proof {
                reveal_strlit("author-time ");
            }
            author_time = parse_i64(crate::foreign::str_trim(l.substring_char(12, n)));
        } else if starts_with_str(l, "summary ") {
            proof {
                reveal_strlit("summary ");
            }
            summary = to_owned_string(l.substring_char(8, n));
        }
        assert(porcelain_view(commit, author, author_time, summary, line_no, remaining, entries@) =~= porcelain_step(
            before,
            lv[k as int],
        ));
        k = k + 1;
    }
    entries
}


/// Where a view line's blame is looked up, and at which line: a line
/// with only an old number on the old side; else deleted lines on the
/// old side, inserted and modified lines on the new side, and context
/// lines of a change on the old side when they have an old number; other
/// context lines on the new side.
pub open spec fn blame_key_spec(kind: LineKind, old_line: Option<usize>, new_line: Option<usize>, has_changes: bool) -> Option<(BlameSide, usize)> {
    match new_line {
        None => match old_line {
            Some(o) => Some((BlameSide::Old, o)),
            None => None,
        },
        Some(n) => match kind {
            LineKind::Deleted | LineKind::PendingDelete => match old_line {
                Some(o) => Some((BlameSide::Old, o)),
                None => None,
            },
            LineKind::Context => if has_changes && old_line is Some {
                Some((BlameSide::Old, old_line->0))
            } else {
                Some((BlameSide::New, n))
            },
            _ => Some((BlameSide::New, n)),
        },
    }
}

/// Where a view line's blame is looked up (see `blame_key_spec`).
pub fn blame_key_for_line(line: &ViewLine) -> (r: Option<(BlameSide, usize)>)
    ensures
        r == blame_key_spec(line.kind, line.old_line, line.new_line, line.has_changes),
{
    let n = match line.new_line {
        None => {
            return match line.old_line {
                Some(o) => Some((BlameSide::Old, o)),
                None => None,
            };
        },
        Some(n) => n,
    };
    match line.kind {
        LineKind::Deleted | LineKind::PendingDelete => match line.old_line {
            Some(o) => Some((BlameSide::Old, o)),
            None => None,
        },
        LineKind::Context => {
            if line.has_changes {
                if let Some(o) = line.old_line {
                    return Some((BlameSide::Old, o));
                }
            }
            Some((BlameSide::New, n))
        },
        _ => Some((BlameSide::New, n)),
    }
}

/// Whether a line is shown as uncommitted without asking git: when the
/// new side is not committed (the work tree or the index) and the line is
/// changed.
pub fn should_force_uncommitted_blame(new_side_uncommitted: bool, kind: LineKind) -> (b: bool)
    ensures
        b == (new_side_uncommitted && kind != LineKind::Context),
{
    new_side_uncommitted && !matches!(kind, LineKind::Context)
}

/// The range of author times seen, widened to take in `ts` (just `ts`
/// when none was seen).
pub fn widen_time_range(range: Option<(i64, i64)>, ts: i64) -> (r: (i64, i64))
    ensures
        r == (match range {
            Some((lo, hi)) => (if ts < lo { ts } else { lo }, if ts > hi { ts } else { hi }),
            None => (ts, ts),
        }),
{
    match range {
        Some((lo, hi)) => (if ts < lo {
            ts
        } else {
            lo
        }, if ts > hi {
            ts
        } else {
            hi
        }),
        None => (ts, ts),
    }
}

/// How a blame is shown beside a line: the key that groups lines of one
/// commit, the text, the author time and whether it is uncommitted.
#[derive(Debug, Clone)]
pub struct BlameDisplay {
    pub group_key: String,
    pub text: String,
    pub author_time: Option<i64>,
    pub uncommitted: bool,
}

/// The display of an uncommitted line.
pub fn blame_uncommitted_display() -> (d: BlameDisplay)
    ensures
        d.group_key@ == "uncommitted"@,
        d.text@ == "Uncommitted"@,
        d.author_time is None,
        d.uncommitted,
{
    BlameDisplay {
        group_key: to_owned_string("uncommitted"),
        text: to_owned_string("Uncommitted"),
        author_time: None,
        uncommitted: true,
    }
}

/// The display of a blame record, with its time already written as
/// `time_text`: grouped by commit (uncommitted lines together), the text
/// "Uncommitted" or the record as text (see `github_text_spec`).
pub fn blame_display_from_info(info: &BlameInfo, git_user: Option<&str>, time_text: &str) -> (d: BlameDisplay)
    requires
        !info.uncommitted ==> commit_cuttable(info.commit@),
    ensures
        d.group_key@ == (if info.uncommitted { "uncommitted"@ } else { info.commit@ }),
        d.text@ == (if info.uncommitted { "Uncommitted"@ } else { github_text_spec(info@, opt_str(git_user), time_text@) }),
        d.author_time == info.author_time,
        d.uncommitted == info.uncommitted,
{
    if info.uncommitted {
        return BlameDisplay {
            group_key: to_owned_string("uncommitted"),
            text: to_owned_string("Uncommitted"),
            author_time: info.author_time,
            uncommitted: true,
        };
    }
    let mut group_key = String::new();
    push_str(&mut group_key, info.commit.as_str());
    BlameDisplay {
        group_key,
        text: format_blame_github_text(info, git_user, time_text),
        author_time: info.author_time,
        uncommitted: false,
    }
}

} // verus!
