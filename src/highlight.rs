//! Which parts of a line a syntax highlighter styles, and how.

use vstd::prelude::*;
use crate::lexer::{
    denotes, is_meta, is_reserved, is_single, is_word_text, lemma_lexed_texts, lex, lexemes,
    spans_of, token_texts, tokens_match, Token,
};

verus! {

/// The style a span of a line gets.
#[derive(PartialEq, Eq, Structural, Clone, Copy, Debug)]
pub enum Role {
    /// The word in command position.
    Command,
    /// A reserved word.
    Reserved,
    /// A word that starts with a quote.
    Quoted,
}

/// After this token the next word is in command position.
pub open spec fn sets_command(t: Seq<char>) -> bool {
    ||| t == seq!['i', 'f']
    ||| t == seq!['t', 'h', 'e', 'n']
    ||| t == seq!['e', 'l', 's', 'e']
    ||| t == seq!['e', 'l', 'i', 'f']
    ||| t == seq!['d', 'o']
    ||| t == seq!['c', 'a', 's', 'e']
    ||| (t.len() > 0 && is_meta(t[0]) && !is_single(t, '(') && !is_single(t, ')') && !is_single(t, '{')
        && !is_single(t, '}'))
}

pub open spec fn is_reserved_text(t: Seq<char>) -> bool {
    t.len() > 0 && !is_meta(t[0]) && is_reserved(t)
}

pub open spec fn starts_with_quote(t: Seq<char>) -> bool {
    t.len() > 0 && (t[0] == '\'' || t[0] == '"')
}

/// The styles for the tokens from `i` on, in the order they are applied;
/// `cmd` says whether the next word is in command position.
pub open spec fn roles_from(ts: Seq<Seq<char>>, sp: Seq<(int, int)>, i: int, cmd: bool) -> Seq<
    (int, int, Role),
>
    decreases ts.len() - i,
{
    if i < 0 || i >= ts.len() {
        Seq::empty()
    } else {
        let t = ts[i];
        let (a, b) = sp[i];
        let word = is_word_text(t);
        let first = if word && cmd {
            seq![(a, b, Role::Command)]
        } else {
            Seq::empty()
        };
        let second = if is_reserved_text(t) {
            seq![(a, b, Role::Reserved)]
        } else {
            Seq::empty()
        };
        let third = if word && starts_with_quote(t) {
            seq![(a, b, Role::Quoted)]
        } else {
            Seq::empty()
        };
        let next = if word {
            false
        } else if sets_command(t) {
            true
        } else {
            cmd
        };
        first + second + third + roles_from(ts, sp, i + 1, next)
    }
}

/// The styles of a line, in the order they are applied.
pub open spec fn line_roles(s: Seq<char>) -> Seq<(int, int, Role)> {
    roles_from(token_texts(s), lexemes(s), 0, true)
}

pub open spec fn spans3(v: Seq<(usize, usize, Role)>) -> Seq<(int, int, Role)> {
    v.map_values(|x: (usize, usize, Role)| (x.0 as int, x.1 as int, x.2))
}

fn quoted_word(w: &String) -> (r: bool)
    ensures
        r == starts_with_quote(w@),
{
    let s = w.as_str();
    if s.unicode_len() == 0 {
        return false;
    }
    let c = s.get_char(0);
    c == '\'' || c == '"'
}

/// Marks the spans of a line that a highlighter styles: the first word and
/// each word after a separator or an opening keyword as the command, the
/// reserved words, and the words that start with a quote. Spans are in
/// character positions, listed in the order the styles are applied.
pub fn highlight_spans(line: &str) -> (r: Vec<(usize, usize, Role)>)
    ensures
        spans3(r@) == line_roles(line@),
{
    let toks = lex(line);
    let ghost s = line@;
    let ghost ts = token_texts(s);
    let ghost sp = lexemes(s);
    proof {
        lemma_lexed_texts(s, toks@);
        assert(spans_of(toks@).len() == toks@.len());
    }
    let mut out: Vec<(usize, usize, Role)> = Vec::new();
    let mut cmd = true;
    let mut k: usize = 0;
    while k < toks.len()
        invariant
            s == line@,
            ts == token_texts(s),
            sp == lexemes(s),
            tokens_match(toks@, ts),
            spans_of(toks@) == sp,
            k <= toks@.len(),
            line_roles(s) == spans3(out@) + roles_from(ts, sp, k as int, cmd),
        decreases toks@.len() - k,
    {
        let ghost before = out@;
        let ghost cmd0 = cmd;
        let ghost t = ts[k as int];
        assert(denotes(toks@[k as int].1, t));
        assert(spans_of(toks@)[k as int] == sp[k as int]);
        let a = toks[k].0;
        let b = toks[k].2;
        match &toks[k].1 {
            Token::WORD(w) => {
                if cmd {
                    out.push((a, b, Role::Command));
                }
                if quoted_word(w) {
                    out.push((a, b, Role::Quoted));
                }
                cmd = false;
            },
            Token::IF | Token::THEN | Token::ELSE | Token::ELIF | Token::DO | Token::CASE => {
                out.push((a, b, Role::Reserved));
                cmd = true;
            },
            Token::FI | Token::DONE | Token::ESAC | Token::WHILE | Token::UNTIL | Token::FOR
            | Token::IN => {
                out.push((a, b, Role::Reserved));
            },
            Token::LPAREN | Token::RPAREN | Token::LBRACE | Token::RBRACE => {},
            _ => {
                cmd = true;
            },
        }
        assert(spans3(out@) + roles_from(ts, sp, k + 1, cmd) =~= spans3(before) + roles_from(
            ts,
            sp,
            k as int,
            cmd0,
        ));
        k = k + 1;
    }
    assert(spans3(out@) + roles_from(ts, sp, k as int, cmd) =~= spans3(out@));
    out
}

} // verus!
