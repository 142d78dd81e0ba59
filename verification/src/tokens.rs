//! Splitting a line into tokens for word-level diffs.

use crate::foreign::{char_is_alphanumeric, char_is_whitespace, push_char, unicode_alphanumeric, unicode_whitespace};
use vstd::prelude::*;

verus! {

/// A character that belongs to an identifier.
pub open spec fn is_word_char(c: char) -> bool {
    unicode_alphanumeric(c) || c == '_'
}

/// Whether every character of `s` is whitespace.
pub open spec fn all_whitespace(s: Seq<char>) -> bool {
    forall|i: int| 0 <= i < s.len() ==> unicode_whitespace(#[trigger] s[i])
}

/// The state of the tokenizer: the tokens so far, the token being built,
/// and whether that token is a word.
pub struct TokState {
    pub tokens: Seq<Seq<char>>,
    pub buf: Seq<char>,
    pub in_word: bool,
}

/// Ends the token being built, if there is one.
pub open spec fn flush_buf(st: TokState) -> TokState {
    if st.buf.len() > 0 {
        TokState { tokens: st.tokens.push(st.buf), buf: Seq::empty(), in_word: st.in_word }
    } else {
        st
    }
}

/// The tokenizer's step on one character: words (alphanumerics and `_`)
/// are kept together, runs of whitespace are kept together, every other
/// character is a token of its own.
pub open spec fn tok_step(st: TokState, ch: char) -> TokState {
    if is_word_char(ch) {
        let st1 = if !st.in_word {
            let s = flush_buf(st);
            TokState { in_word: true, ..s }
        } else {
            st
        };
        TokState { buf: st1.buf.push(ch), ..st1 }
    } else {
        let st1 = if st.in_word {
            let s = flush_buf(st);
            TokState { in_word: false, ..s }
        } else {
            st
        };
        if unicode_whitespace(ch) {
            let st2 = if st1.buf.len() > 0 && !all_whitespace(st1.buf) {
                flush_buf(st1)
            } else {
                st1
            };
            TokState { buf: st2.buf.push(ch), ..st2 }
        } else {
            let st2 = flush_buf(st1);
            TokState { tokens: st2.tokens.push(seq![ch]), ..st2 }
        }
    }
}

/// The tokenizer's state after reading `line`.
pub open spec fn tok_fold(line: Seq<char>) -> TokState
    decreases line.len(),
{
    if line.len() == 0 {
        TokState { tokens: Seq::empty(), buf: Seq::empty(), in_word: false }
    } else {
        tok_step(tok_fold(line.drop_last()), line.last())
    }
}

/// The tokens of a line.
pub open spec fn tokenize_spec(line: Seq<char>) -> Seq<Seq<char>> {
    flush_buf(tok_fold(line)).tokens
}

/// Whether every token is non-empty.
pub open spec fn tokens_nonempty(tokens: Seq<Seq<char>>) -> bool {
    forall|i: int| 0 <= i < tokens.len() ==> (#[trigger] tokens[i]).len() > 0
}

proof fn lemma_tok_fold(line: Seq<char>)
    ensures
        tok_fold(line).tokens.flatten() + tok_fold(line).buf == line,
        tokens_nonempty(tok_fold(line).tokens),
    decreases line.len(),
{
    broadcast use Seq::lemma_flatten_push;

    if line.len() > 0 {
        let prev = line.drop_last();
        lemma_tok_fold(prev);
        let st = tok_fold(prev);
        assert(line =~= prev.push(line.last()));
        let ch = line.last();
        let s = flush_buf(st);
        assert(s.tokens.flatten() + s.buf =~= prev);
        assert(tokens_nonempty(s.tokens));
        let t = flush_buf(TokState { in_word: !st.in_word, ..st });
        assert(t.tokens.flatten() + t.buf =~= prev);
        assert(tokens_nonempty(t.tokens));
        if !is_word_char(ch) && unicode_whitespace(ch) {
            let st1 = if st.in_word { TokState { in_word: false, ..flush_buf(st) } } else { st };
            let f = flush_buf(st1);
            assert(f.tokens.flatten() + f.buf =~= prev);
            assert(tokens_nonempty(f.tokens));
        }
        if !is_word_char(ch) && !unicode_whitespace(ch) {
            let st1 = if st.in_word { TokState { in_word: false, ..flush_buf(st) } } else { st };
            let f = flush_buf(st1);
            assert(f.tokens.flatten() + f.buf =~= prev);
            assert(f.tokens.push(seq![ch]).flatten() =~= f.tokens.flatten() + seq![ch]);
            assert(tokens_nonempty(f.tokens.push(seq![ch])));
        }
    }
}

/// The tokens of a line, concatenated, give back the line, and none of
/// them is empty.
pub proof fn lemma_tokenize_partitions(line: Seq<char>)
    ensures
        tokenize_spec(line).flatten() == line,
        tokens_nonempty(tokenize_spec(line)),
        tokenize_spec(line).len() <= line.len(),
{
    broadcast use Seq::lemma_flatten_push;

    lemma_tok_fold(line);
    let st = tok_fold(line);
    assert(tokenize_spec(line).flatten() =~= line);
    lemma_nonempty_count(tokenize_spec(line));
}

/// Non-empty pieces are no more than the characters they hold.
pub proof fn lemma_nonempty_count(tokens: Seq<Seq<char>>)
    requires
        tokens_nonempty(tokens),
    ensures
        tokens.len() <= tokens.flatten().len(),
    decreases tokens.len(),
{
    if tokens.len() > 0 {
        assert(tokens_nonempty(tokens.drop_first()));
        lemma_nonempty_count(tokens.drop_first());
        assert(tokens[0].len() > 0);
    }
}

/// Whether every character of `s` is whitespace (`chars().all(is_whitespace)`).
fn str_all_whitespace(s: &str) -> (b: bool)
    ensures
        b == all_whitespace(s@),
{
    broadcast use vstd::string::group_string_axioms;

    let mut idx: usize = 0;
    for ch in it: s.chars()
        invariant
            it.seq() == s@,
            forall|i: int| 0 <= i < it.index() ==> unicode_whitespace(#[trigger] s@[i]),
    {
        if !char_is_whitespace(ch) {
            assert(!unicode_whitespace(s@[it.index() as int]));
            return false;
        }
    }
    true
}

/// Tokenizes code for word-level diffing: identifiers stay whole, runs of
/// whitespace stay together, and each other character is its own token.
pub fn tokenize_code(line: &str) -> (tokens: Vec<String>)
    ensures
        tokens.deep_view() == tokenize_spec(line@),
{
    broadcast use vstd::string::group_string_axioms;

    let mut tokens: Vec<String> = Vec::new();
    let mut buf = String::new();
    let mut in_word = false;
    assert(line@.take(0) =~= Seq::<char>::empty());
    assert(tokens.deep_view() =~= Seq::<Seq<char>>::empty());
    for ch in it: line.chars()
        invariant
            it.seq() == line@,
            tok_fold(line@.take(it.index() as int)) == (TokState {
                tokens: tokens.deep_view(),
                buf: buf@,
                in_word,
            }),
    {
        let ghost before = line@.take(it.index() as int);
        assert(line@.take(it.index() + 1).drop_last() =~= before);
        let is_word = char_is_alphanumeric(ch) || ch == '_';
        if is_word {
            if !in_word {
                if !buf.as_str().is_empty() {
                    tokens.push(buf);
                    buf = String::new();
                }
                in_word = true;
            }
            push_char(&mut buf, ch);
        } else {
            if in_word {
                if !buf.as_str().is_empty() {
                    tokens.push(buf);
                    buf = String::new();
                }
                in_word = false;
            }
            if char_is_whitespace(ch) {
                if !buf.as_str().is_empty() && !str_all_whitespace(buf.as_str()) {
                    tokens.push(buf);
                    buf = String::new();
                }
                push_char(&mut buf, ch);
            } else {
                if !buf.as_str().is_empty() {
                    tokens.push(buf);
                    buf = String::new();
                }
                let mut single = String::new();
                push_char(&mut single, ch);
                tokens.push(single);
            }
        }
        assert(tokens.deep_view() =~= tok_step(tok_fold(before), ch).tokens);
    }
    assert(line@.take(line@.len() as int) =~= line@);
    if !buf.as_str().is_empty() {
        tokens.push(buf);
    }
    assert(tokens.deep_view() =~= tokenize_spec(line@));
    tokens
}


/// A token made of word characters.
pub open spec fn word_token(t: Seq<char>) -> bool {
    t.len() > 0 && forall|i: int| 0 <= i < t.len() ==> is_word_char(#[trigger] t[i])
}

/// A token made of whitespace (that is not a word character).
pub open spec fn space_token(t: Seq<char>) -> bool {
    t.len() > 0 && forall|i: int| 0 <= i < t.len() ==> !is_word_char(#[trigger] t[i]) && unicode_whitespace(t[i])
}

/// A token of one character that is neither a word character nor
/// whitespace.
pub open spec fn other_token(t: Seq<char>) -> bool {
    t.len() == 1 && !is_word_char(t[0]) && !unicode_whitespace(t[0])
}

/// Whether two tokens could have been one run.
pub open spec fn same_run(a: Seq<char>, b: Seq<char>) -> bool {
    (word_token(a) && word_token(b)) || (space_token(a) && space_token(b))
}

/// Every token is a word, a run of whitespace, or one other character, and
/// no two neighbours are runs of the same kind: the runs are maximal.
pub open spec fn maximal_runs(ts: Seq<Seq<char>>) -> bool {
    &&& forall|i: int| 0 <= i < ts.len() ==> word_token(#[trigger] ts[i]) || space_token(ts[i]) || other_token(ts[i])
    &&& forall|i: int| 0 <= i < ts.len() - 1 ==> !same_run(#[trigger] ts[i], ts[i + 1])
}

/// What the tokenizer keeps true as it reads.
spec fn tok_inv(st: TokState) -> bool {
    &&& maximal_runs(st.tokens)
    &&& st.in_word ==> word_token(st.buf)
    &&& !st.in_word && st.buf.len() > 0 ==> space_token(st.buf)
    &&& st.buf.len() > 0 && st.tokens.len() > 0 ==> !same_run(st.tokens.last(), st.buf)
    &&& st.buf.len() == 0 && st.tokens.len() > 0 ==> other_token(st.tokens.last())
}

proof fn lemma_push_run(ts: Seq<Seq<char>>, t: Seq<char>)
    requires
        maximal_runs(ts),
        word_token(t) || space_token(t) || other_token(t),
        ts.len() > 0 ==> !same_run(ts.last(), t),
    ensures
        maximal_runs(ts.push(t)),
{
    let u = ts.push(t);
    assert forall|i: int| 0 <= i < u.len() implies word_token(#[trigger] u[i]) || space_token(u[i]) || other_token(u[i]) by {
        if i < ts.len() {
            assert(u[i] == ts[i]);
        }
    }
    assert forall|i: int| 0 <= i < u.len() - 1 implies !same_run(#[trigger] u[i], u[i + 1]) by {
        if i + 1 < ts.len() {
            assert(u[i] == ts[i] && u[i + 1] == ts[i + 1]);
        } else {
            assert(u[i] == ts.last());
        }
    }
}

proof fn lemma_flush_keeps(st: TokState)
    requires
        tok_inv(st),
    ensures
        maximal_runs(flush_buf(st).tokens),
        flush_buf(st).buf.len() == 0,
        flush_buf(st).tokens.len() > 0 && st.buf.len() > 0 ==> flush_buf(st).tokens.last() == st.buf,
        st.buf.len() == 0 ==> flush_buf(st) == st,
{
    if st.buf.len() > 0 {
        lemma_push_run(st.tokens, st.buf);
    }
}

proof fn lemma_kinds(t: Seq<char>)
    ensures
        space_token(t) ==> !word_token(t),
        word_token(t) ==> !space_token(t),
        other_token(t) ==> !word_token(t) && !space_token(t),
{
    if t.len() > 0 {
        let c = t[0];
    }
}

proof fn lemma_single(ch: char)
    ensures
        is_word_char(ch) ==> word_token(seq![ch]) && !space_token(seq![ch]),
        !is_word_char(ch) && unicode_whitespace(ch) ==> space_token(seq![ch]) && !word_token(seq![ch]),
        !is_word_char(ch) && !unicode_whitespace(ch) ==> other_token(seq![ch]) && !word_token(seq![ch]) && !space_token(seq![ch]),
{
    assert(seq![ch][0] == ch);
}

proof fn lemma_tok_step_inv(st: TokState, ch: char)
    requires
        tok_inv(st),
    ensures
        tok_inv(tok_step(st, ch)),
{
    let f = flush_buf(st);
    lemma_flush_keeps(st);
    lemma_single(ch);
    lemma_kinds(st.buf);
    if st.tokens.len() > 0 {
        lemma_kinds(st.tokens.last());
    }
    lemma_kinds(st.buf.push(ch));
    if is_word_char(ch) {
        if !st.in_word {
            let s1 = TokState { in_word: true, ..f };
            let r = TokState { buf: s1.buf.push(ch), ..s1 };
            assert(r.buf =~= seq![ch]);
            assert(word_token(r.buf));
            if r.tokens.len() > 0 {
                if st.buf.len() > 0 {
                    assert(space_token(st.buf));
                } else {
                    assert(other_token(r.tokens.last()));
                }
            }
            assert(tok_step(st, ch) == r);
        } else {
            let r = TokState { buf: st.buf.push(ch), ..st };
            assert(word_token(r.buf)) by {
                assert forall|i: int| 0 <= i < r.buf.len() implies is_word_char(#[trigger] r.buf[i]) by {
                    if i < st.buf.len() {
                        assert(r.buf[i] == st.buf[i]);
                    }
                }
            }
            assert(tok_step(st, ch) == r);
        }
    } else {
        let s1 = if st.in_word { TokState { in_word: false, ..f } } else { st };
        assert(tok_inv(s1) || (st.in_word && maximal_runs(s1.tokens) && s1.buf.len() == 0 && s1.tokens.last() == st.buf));
        if unicode_whitespace(ch) {
            if st.in_word {
                let r = TokState { buf: s1.buf.push(ch), ..s1 };
                assert(r.buf =~= seq![ch]);
                assert(space_token(r.buf));
                assert(word_token(r.tokens.last()));
                assert(tok_step(st, ch) == r);
            } else {
                if st.buf.len() > 0 {
                    assert(all_whitespace(st.buf)) by {
                        assert forall|i: int| 0 <= i < st.buf.len() implies unicode_whitespace(#[trigger] st.buf[i]) by {
                            assert(space_token(st.buf));
                        }
                    }
                }
                let r = TokState { buf: st.buf.push(ch), ..st };
                assert(space_token(r.buf)) by {
                    assert forall|i: int| 0 <= i < r.buf.len() implies !is_word_char(#[trigger] r.buf[i]) && unicode_whitespace(r.buf[i]) by {
                        if i < st.buf.len() {
                            assert(r.buf[i] == st.buf[i]);
                        }
                    }
                }
                if r.tokens.len() > 0 && st.buf.len() == 0 {
                    assert(other_token(r.tokens.last()));
                }
                assert(tok_step(st, ch) == r);
            }
        } else {
            let f1 = flush_buf(s1);
            if st.in_word {
                assert(f1 == s1);
                lemma_push_run(s1.tokens, seq![ch]);
            } else {
                lemma_push_run(f.tokens, seq![ch]);
            }
            let r = TokState { tokens: f1.tokens.push(seq![ch]), ..f1 };
            assert(other_token(seq![ch]));
            assert(r.tokens.last() == seq![ch]);
            assert(tok_step(st, ch) == r);
        }
    }
}

proof fn lemma_tok_fold_inv(line: Seq<char>)
    ensures
        tok_inv(tok_fold(line)),
    decreases line.len(),
{
    if line.len() == 0 {
        assert(maximal_runs(tok_fold(line).tokens));
    } else {
        lemma_tok_fold_inv(line.drop_last());
        lemma_tok_step_inv(tok_fold(line.drop_last()), line.last());
    }
}

/// The tokens of any line are maximal runs: each is a word, a run of
/// whitespace or one other character, and no two neighbours are words or
/// both whitespace.
pub proof fn law_tokens_are_maximal_runs(line: Seq<char>)
    ensures
        maximal_runs(tokenize_spec(line)),
{
    lemma_tok_fold_inv(line);
    lemma_flush_keeps(tok_fold(line));
}

} // verus!
