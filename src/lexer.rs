//! Splits a command line into tokens with their character positions.

use vstd::prelude::*;
use vstd::string::*;

verus! {

/// A lexical token of the command language.
#[allow(non_camel_case_types)]
pub enum Token {
    IF,
    THEN,
    ELSE,
    ELIF,
    FI,
    DO,
    DONE,
    CASE,
    ESAC,
    WHILE,
    UNTIL,
    FOR,
    IN,
    AND_IF,
    OR_IF,
    SEMI,
    DSEMI,
    AMP,
    PIPE,
    LPAREN,
    RPAREN,
    LBRACE,
    RBRACE,
    /// A word, with any quote or backslash characters it holds.
    WORD(String),
}

/// Where the scan of a word stands with respect to quoting.
#[derive(PartialEq, Eq, Structural, Clone, Copy)]
pub enum Quote {
    Plain,
    Single,
    Double,
}

pub open spec fn is_blank(c: char) -> bool {
    c == ' ' || c == '\t' || c == '\n' || c == '\r'
}

/// The characters that end an unquoted word and form operators.
pub open spec fn is_meta(c: char) -> bool {
    c == '|' || c == '&' || c == ';' || c == '(' || c == ')' || c == '{' || c == '}'
}

/// Length of the operator that starts at `i`: two for `&&`, `||` and `;;`.
pub open spec fn op_len(s: Seq<char>, i: int) -> int {
    if i + 1 < s.len() && s[i + 1] == s[i] && (s[i] == '&' || s[i] == '|' || s[i] == ';') {
        2
    } else {
        1
    }
}

/// Where a word that is being scanned from `i` in quote state `q` ends.
/// Quotes and backslashes protect blanks and operator characters; an
/// unterminated quote runs to the end of the line.
pub open spec fn word_end(s: Seq<char>, i: int, q: Quote) -> int
    decreases s.len() - i,
{
    if i < 0 || i >= s.len() {
        s.len() as int
    } else {
        let c = s[i];
        match q {
            Quote::Plain => {
                if is_blank(c) || is_meta(c) {
                    i
                } else if c == '\'' {
                    word_end(s, i + 1, Quote::Single)
                } else if c == '"' {
                    word_end(s, i + 1, Quote::Double)
                } else if c == '\\' {
                    if i + 1 < s.len() {
                        word_end(s, i + 2, Quote::Plain)
                    } else {
                        s.len() as int
                    }
                } else {
                    word_end(s, i + 1, Quote::Plain)
                }
            },
            Quote::Single => {
                if c == '\'' {
                    word_end(s, i + 1, Quote::Plain)
                } else {
                    word_end(s, i + 1, Quote::Single)
                }
            },
            Quote::Double => {
                if c == '"' {
                    word_end(s, i + 1, Quote::Plain)
                } else if c == '\\' {
                    if i + 1 < s.len() {
                        word_end(s, i + 2, Quote::Double)
                    } else {
                        s.len() as int
                    }
                } else {
                    word_end(s, i + 1, Quote::Double)
                }
            },
        }
    }
}

/// The spans `(start, end)` of the tokens of `s` from position `i` on.
pub open spec fn lex_from(s: Seq<char>, i: int) -> Seq<(int, int)>
    decreases s.len() - i,
{
    if i < 0 || i >= s.len() {
        Seq::empty()
    } else if is_blank(s[i]) {
        lex_from(s, i + 1)
    } else if is_meta(s[i]) {
        seq![(i, i + op_len(s, i))] + lex_from(s, i + op_len(s, i))
    } else {
        let j = word_end(s, i, Quote::Plain);
        if j <= i || j > s.len() {
            Seq::empty()
        } else {
            seq![(i, j)] + lex_from(s, j)
        }
    }
}

/// The spans of all tokens of a line, in order.
pub open spec fn lexemes(s: Seq<char>) -> Seq<(int, int)> {
    lex_from(s, 0)
}

pub open spec fn is_reserved(t: Seq<char>) -> bool {
    t == seq!['i', 'f']
        || t == seq!['t', 'h', 'e', 'n']
        || t == seq!['e', 'l', 's', 'e']
        || t == seq!['e', 'l', 'i', 'f']
        || t == seq!['f', 'i']
        || t == seq!['d', 'o']
        || t == seq!['d', 'o', 'n', 'e']
        || t == seq!['c', 'a', 's', 'e']
        || t == seq!['e', 's', 'a', 'c']
        || t == seq!['w', 'h', 'i', 'l', 'e']
        || t == seq!['u', 'n', 't', 'i', 'l']
        || t == seq!['f', 'o', 'r']
        || t == seq!['i', 'n']
}

/// A word token's text: it starts with no operator character and is no reserved word.
pub open spec fn is_word_text(t: Seq<char>) -> bool {
    t.len() > 0 && !is_meta(t[0]) && !is_reserved(t)
}

/// `t` is the token that the lexeme `text` stands for.
pub open spec fn denotes(t: Token, text: Seq<char>) -> bool {
    match t {
        Token::IF => text == seq!['i', 'f'],
        Token::THEN => text == seq!['t', 'h', 'e', 'n'],
        Token::ELSE => text == seq!['e', 'l', 's', 'e'],
        Token::ELIF => text == seq!['e', 'l', 'i', 'f'],
        Token::FI => text == seq!['f', 'i'],
        Token::DO => text == seq!['d', 'o'],
        Token::DONE => text == seq!['d', 'o', 'n', 'e'],
        Token::CASE => text == seq!['c', 'a', 's', 'e'],
        Token::ESAC => text == seq!['e', 's', 'a', 'c'],
        Token::WHILE => text == seq!['w', 'h', 'i', 'l', 'e'],
        Token::UNTIL => text == seq!['u', 'n', 't', 'i', 'l'],
        Token::FOR => text == seq!['f', 'o', 'r'],
        Token::IN => text == seq!['i', 'n'],
        Token::AND_IF => text == seq!['&', '&'],
        Token::OR_IF => text == seq!['|', '|'],
        Token::SEMI => text == seq![';'],
        Token::DSEMI => text == seq![';', ';'],
        Token::AMP => text == seq!['&'],
        Token::PIPE => text == seq!['|'],
        Token::LPAREN => text == seq!['('],
        Token::RPAREN => text == seq![')'],
        Token::LBRACE => text == seq!['{'],
        Token::RBRACE => text == seq!['}'],
        Token::WORD(w) => w@ == text && is_word_text(text),
    }
}

pub open spec fn spans_of(toks: Seq<(usize, Token, usize)>) -> Seq<(int, int)> {
    toks.map_values(|t: (usize, Token, usize)| (t.0 as int, t.2 as int))
}

/// `toks` is the token sequence of the line `s`: the spans of `lexemes(s)`,
/// each with the token its text stands for.
pub open spec fn lexed(s: Seq<char>, toks: Seq<(usize, Token, usize)>) -> bool {
    &&& spans_of(toks) == lexemes(s)
    &&& forall|k: int|
        0 <= k < toks.len() ==> #[trigger] denotes(toks[k].1, s.subrange(
            toks[k].0 as int,
            toks[k].2 as int,
        ))
}

/// The texts of the tokens of a line, in order.
pub open spec fn token_texts(s: Seq<char>) -> Seq<Seq<char>> {
    lexemes(s).map_values(|p: (int, int)| s.subrange(p.0, p.1))
}

/// `t` is the one character `c`.
pub open spec fn is_single(t: Seq<char>, c: char) -> bool {
    t.len() == 1 && t[0] == c
}

/// The tokens `toks` stand for the texts `ts`, one for one.
pub open spec fn tokens_match(toks: Seq<(usize, Token, usize)>, ts: Seq<Seq<char>>) -> bool {
    &&& toks.len() == ts.len()
    &&& forall|k: int| 0 <= k < toks.len() ==> #[trigger] denotes(toks[k].1, ts[k])
}

/// The tokens of a line stand for the texts of its lexemes.
pub proof fn lemma_lexed_texts(s: Seq<char>, toks: Seq<(usize, Token, usize)>)
    requires
        lexed(s, toks),
    ensures
        tokens_match(toks, token_texts(s)),
{
    let ts = token_texts(s);
    assert(spans_of(toks).len() == toks.len());
    assert forall|k: int| 0 <= k < toks.len() implies #[trigger] denotes(toks[k].1, ts[k]) by {
        assert(spans_of(toks)[k] == lexemes(s)[k]);
        assert(ts[k] == s.subrange(toks[k].0 as int, toks[k].2 as int));
    }
}

fn blank(c: char) -> (r: bool)
    ensures
        r == is_blank(c),
{
    c == ' ' || c == '\t' || c == '\n' || c == '\r'
}

fn meta(c: char) -> (r: bool)
    ensures
        r == is_meta(c),
{
    c == '|' || c == '&' || c == ';' || c == '(' || c == ')' || c == '{' || c == '}'
}

fn same_text(w: &String, lit: &str) -> (r: bool)
    ensures
        r == (w@ == lit@),
{
    let l = String::from_str(lit);
    w.eq(&l)
}

/// The reserved words, as written in the source, are the character sequences above.
proof fn lemma_reserved_literals()
    ensures
        "if"@ == seq!['i', 'f'],
        "then"@ == seq!['t', 'h', 'e', 'n'],
        "else"@ == seq!['e', 'l', 's', 'e'],
        "elif"@ == seq!['e', 'l', 'i', 'f'],
        "fi"@ == seq!['f', 'i'],
        "do"@ == seq!['d', 'o'],
        "done"@ == seq!['d', 'o', 'n', 'e'],
        "case"@ == seq!['c', 'a', 's', 'e'],
        "esac"@ == seq!['e', 's', 'a', 'c'],
        "while"@ == seq!['w', 'h', 'i', 'l', 'e'],
        "until"@ == seq!['u', 'n', 't', 'i', 'l'],
        "for"@ == seq!['f', 'o', 'r'],
        "in"@ == seq!['i', 'n'],
{
    reveal_strlit("if");
    assert("if"@ =~= seq!['i', 'f']);
    reveal_strlit("then");
    assert("then"@ =~= seq!['t', 'h', 'e', 'n']);
    reveal_strlit("else");
    assert("else"@ =~= seq!['e', 'l', 's', 'e']);
    reveal_strlit("elif");
    assert("elif"@ =~= seq!['e', 'l', 'i', 'f']);
    reveal_strlit("fi");
    assert("fi"@ =~= seq!['f', 'i']);
    reveal_strlit("do");
    assert("do"@ =~= seq!['d', 'o']);
    reveal_strlit("done");
    assert("done"@ =~= seq!['d', 'o', 'n', 'e']);
    reveal_strlit("case");
    assert("case"@ =~= seq!['c', 'a', 's', 'e']);
    reveal_strlit("esac");
    assert("esac"@ =~= seq!['e', 's', 'a', 'c']);
    reveal_strlit("while");
    assert("while"@ =~= seq!['w', 'h', 'i', 'l', 'e']);
    reveal_strlit("until");
    assert("until"@ =~= seq!['u', 'n', 't', 'i', 'l']);
    reveal_strlit("for");
    assert("for"@ =~= seq!['f', 'o', 'r']);
    reveal_strlit("in");
    assert("in"@ =~= seq!['i', 'n']);
}

/// The token for a word lexeme: a reserved word, or a plain word.
fn word_token(w: String) -> (t: Token)
    requires
        w@.len() > 0,
        !is_meta(w@[0]),
    ensures
        denotes(t, w@),
{
    proof {
        lemma_reserved_literals();
    }
    if same_text(&w, "if") {
        Token::IF
    } else if same_text(&w, "then") {
        Token::THEN
    } else if same_text(&w, "else") {
        Token::ELSE
    } else if same_text(&w, "elif") {
        Token::ELIF
    } else if same_text(&w, "fi") {
        Token::FI
    } else if same_text(&w, "do") {
        Token::DO
    } else if same_text(&w, "done") {
        Token::DONE
    } else if same_text(&w, "case") {
        Token::CASE
    } else if same_text(&w, "esac") {
        Token::ESAC
    } else if same_text(&w, "while") {
        Token::WHILE
    } else if same_text(&w, "until") {
        Token::UNTIL
    } else if same_text(&w, "for") {
        Token::FOR
    } else if same_text(&w, "in") {
        Token::IN
    } else {
        Token::WORD(w)
    }
}

/// The operator token at `i` and the position after it.
fn operator_at(s: &str, n: usize, i: usize) -> (r: (Token, usize))
    requires
        n == s@.len(),
        i < n,
        is_meta(s@[i as int]),
    ensures
        r.1 == i + op_len(s@, i as int),
        denotes(r.0, s@.subrange(i as int, r.1 as int)),
{
    let c = s.get_char(i);
    if n - i > 1 {
        let d = s.get_char(i + 1);
        if c == d && (c == '&' || c == '|' || c == ';') {
            assert(s@.subrange(i as int, i + 2) =~= seq![c, d]);
            if c == '&' {
                return (Token::AND_IF, i + 2);
            } else if c == '|' {
                return (Token::OR_IF, i + 2);
            } else {
                return (Token::DSEMI, i + 2);
            }
        }
    }
    assert(s@.subrange(i as int, i + 1) =~= seq![c]);
    let t = if c == '|' {
        Token::PIPE
    } else if c == '&' {
        Token::AMP
    } else if c == ';' {
        Token::SEMI
    } else if c == '(' {
        Token::LPAREN
    } else if c == ')' {
        Token::RPAREN
    } else if c == '{' {
        Token::LBRACE
    } else {
        Token::RBRACE
    };
    (t, i + 1)
}

/// Finds the end of the word that starts at `start`.
fn scan_word(s: &str, n: usize, start: usize) -> (j: usize)
    requires
        n == s@.len(),
        start < n,
        !is_blank(s@[start as int]),
        !is_meta(s@[start as int]),
    ensures
        j as int == word_end(s@, start as int, Quote::Plain),
        start < j <= n,
{
    let mut i = start;
    let mut q = Quote::Plain;
    while i < n
        invariant
            n == s@.len(),
            start <= i <= n,
            word_end(s@, i as int, q) == word_end(s@, start as int, Quote::Plain),
            i == start ==> q == Quote::Plain,
            !is_blank(s@[start as int]),
            !is_meta(s@[start as int]),
        decreases n - i,
    {
        let c = s.get_char(i);
        match q {
            Quote::Plain => {
                if blank(c) || meta(c) {
                    return i;
                } else if c == '\'' {
                    q = Quote::Single;
                    i = i + 1;
                } else if c == '"' {
                    q = Quote::Double;
                    i = i + 1;
                } else if c == '\\' {
                    if n - i > 1 {
                        i = i + 2;
                    } else {
                        return n;
                    }
                } else {
                    i = i + 1;
                }
            },
            Quote::Single => {
                if c == '\'' {
                    q = Quote::Plain;
                }
                i = i + 1;
            },
            Quote::Double => {
                if c == '"' {
                    q = Quote::Plain;
                    i = i + 1;
                } else if c == '\\' {
                    if n - i > 1 {
                        i = i + 2;
                    } else {
                        return n;
                    }
                } else {
                    i = i + 1;
                }
            },
        }
    }
    i
}

/// Splits a line into tokens, each with the character positions where it
/// starts and ends. Lexing never fails: an unterminated quote makes a word
/// that runs to the end of the line.
pub fn lex(s: &str) -> (r: Vec<(usize, Token, usize)>)
    ensures
        lexed(s@, r@),
{
    let n = s.unicode_len();
    let mut out: Vec<(usize, Token, usize)> = Vec::new();
    let mut i: usize = 0;
    while i < n
        invariant
            n == s@.len(),
            i <= n,
            lexemes(s@) == spans_of(out@) + lex_from(s@, i as int),
            forall|k: int|
                0 <= k < out@.len() ==> #[trigger] denotes(out@[k].1, s@.subrange(
                    out@[k].0 as int,
                    out@[k].2 as int,
                )),
        decreases n - i,
    {
        let c = s.get_char(i);
        if blank(c) {
            i = i + 1;
        } else {
            let ghost before = out@;
            let (t, j) = if meta(c) {
                operator_at(s, n, i)
            } else {
                let j = scan_word(s, n, i);
                let w = String::from_str(s.substring_char(i, j));
                assert(w@[0] == s@[i as int]);
                (word_token(w), j)
            };
            out.push((i, t, j));
            assert(spans_of(out@) =~= spans_of(before).push((i as int, j as int)));
            assert(lex_from(s@, i as int) =~= seq![(i as int, j as int)] + lex_from(s@, j as int));
            assert(spans_of(out@) + lex_from(s@, j as int) =~= spans_of(before) + lex_from(
                s@,
                i as int,
            ));
            i = j;
        }
    }
    assert(spans_of(out@) + lex_from(s@, i as int) =~= spans_of(out@));
    out
}

} // verus!
