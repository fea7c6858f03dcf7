//! The grammar of a command line, and a parser that follows it.
//!
//! ```text
//! list     := ε | pipeline | pipeline '&' list?
//! pipeline := simple | pipeline '|' simple
//! simple   := assignment* word+
//! ```
//! Pipelines nest to the left: `a | b | c` is `Pipeline(Pipeline(a, b), c)`.
//! Lists nest to the right: `a & b & c` is `AsyncList(a, AsyncList(b, c))`.

use vstd::prelude::*;
use vstd::string::*;
use crate::ast::{Assign, Command, SCommand, command_view, assigns_view, strings_view, is_stage_tree, well_formed};
use crate::lexer::{lex, denotes, is_single, is_word_text, lemma_lexed_texts, token_texts, tokens_match, Token};

verus! {

/// A token sequence that does not follow the grammar.
pub struct ParseError {
    pub message: String,
}

pub open spec fn is_name_char(c: char) -> bool {
    ('a' <= c <= 'z') || ('A' <= c <= 'Z') || ('0' <= c <= '9') || c == '_'
}

/// Position of the first `=` of `w` at or after `i`, or `w.len()`.
pub open spec fn eq_from(w: Seq<char>, i: int) -> int
    decreases w.len() - i,
{
    if i < 0 || i >= w.len() {
        w.len() as int
    } else if w[i] == '=' {
        i
    } else {
        eq_from(w, i + 1)
    }
}

/// A variable name: letters, digits and `_`, not starting with a digit.
pub open spec fn is_name(n: Seq<char>) -> bool {
    &&& n.len() > 0
    &&& !('0' <= n[0] <= '9')
    &&& forall|i: int| 0 <= i < n.len() ==> #[trigger] is_name_char(n[i])
}

/// A word of the form `name=value`.
pub open spec fn is_assignment(w: Seq<char>) -> bool {
    let p = eq_from(w, 0);
    p < w.len() && is_name(w.take(p))
}

pub open spec fn split_assign(w: Seq<char>) -> (Seq<char>, Seq<char>) {
    let p = eq_from(w, 0);
    (w.take(p), w.skip(p + 1))
}

/// Number of assignments that lead `ts[i..hi]`.
pub open spec fn assign_count(ts: Seq<Seq<char>>, i: int, hi: int) -> nat
    decreases hi - i,
{
    if 0 <= i < hi && i < ts.len() && is_assignment(ts[i]) {
        1 + assign_count(ts, i + 1, hi)
    } else {
        0
    }
}

pub open spec fn all_words(ts: Seq<Seq<char>>, lo: int, hi: int) -> bool {
    forall|i: int| lo <= i < hi ==> #[trigger] is_word_text(ts[i])
}

/// A simple command over the token texts `ts[lo..hi]`.
pub open spec fn simple_of(ts: Seq<Seq<char>>, lo: int, hi: int) -> Option<SCommand> {
    let na = assign_count(ts, lo, hi);
    if 0 <= lo < hi <= ts.len() && all_words(ts, lo, hi) && lo + na < hi {
        Some(
            SCommand::Simple {
                assigns: ts.subrange(lo, lo + na).map_values(|w: Seq<char>| split_assign(w)),
                args: ts.subrange(lo + na, hi),
            },
        )
    } else {
        None
    }
}

/// Position of the last `|` in `ts[lo..j]`, or `lo - 1`.
pub open spec fn last_pipe(ts: Seq<Seq<char>>, lo: int, j: int) -> int
    decreases j - lo,
{
    if j <= lo {
        lo - 1
    } else if is_single(ts[j - 1], '|') {
        j - 1
    } else {
        last_pipe(ts, lo, j - 1)
    }
}

/// Position of the first `&` in `ts[i..hi]`, or `hi`.
pub open spec fn first_amp(ts: Seq<Seq<char>>, i: int, hi: int) -> int
    decreases hi - i,
{
    if i >= hi {
        hi
    } else if is_single(ts[i], '&') {
        i
    } else {
        first_amp(ts, i + 1, hi)
    }
}

/// A pipeline over `ts[lo..hi]`, split at its last `|`.
pub open spec fn pipeline_of(ts: Seq<Seq<char>>, lo: int, hi: int) -> Option<SCommand>
    decreases hi - lo,
{
    let k = last_pipe(ts, lo, hi);
    if k < lo || k >= hi {
        simple_of(ts, lo, hi)
    } else {
        match (pipeline_of(ts, lo, k), simple_of(ts, k + 1, hi)) {
            (Some(a), Some(b)) => Some(SCommand::Pipeline(Box::new(a), Box::new(b))),
            _ => None,
        }
    }
}

/// A list over `ts[lo..hi]`, split at its first `&`.
pub open spec fn list_of(ts: Seq<Seq<char>>, lo: int, hi: int) -> Option<SCommand>
    decreases hi - lo,
{
    if lo >= hi {
        Some(SCommand::Empty)
    } else {
        let k = first_amp(ts, lo, hi);
        if k < lo || k >= hi {
            pipeline_of(ts, lo, hi)
        } else {
            match pipeline_of(ts, lo, k) {
                None => None,
                Some(a) => if k + 1 >= hi {
                    Some(SCommand::AsyncList(Box::new(a), None))
                } else {
                    match list_of(ts, k + 1, hi) {
                        Some(b) => Some(SCommand::AsyncList(Box::new(a), Some(Box::new(b)))),
                        None => None,
                    }
                },
            }
        }
    }
}

/// The command that a line of token texts stands for, if it follows the grammar.
pub open spec fn parse_texts(ts: Seq<Seq<char>>) -> Option<SCommand> {
    list_of(ts, 0, ts.len() as int)
}

proof fn lemma_simple_well_formed(ts: Seq<Seq<char>>, lo: int, hi: int)
    ensures
        simple_of(ts, lo, hi) matches Some(c) ==> c is Simple && well_formed(c),
{
}

/// A pipeline that the grammar gives is a simple command or a pipeline,
/// and well formed.
pub proof fn lemma_pipeline_well_formed(ts: Seq<Seq<char>>, lo: int, hi: int)
    ensures
        pipeline_of(ts, lo, hi) matches Some(c) ==> is_stage_tree(c) && well_formed(c),
    decreases hi - lo,
{
    let k = last_pipe(ts, lo, hi);
    if k < lo || k >= hi {
        lemma_simple_well_formed(ts, lo, hi);
    } else {
        lemma_pipeline_well_formed(ts, lo, k);
        lemma_simple_well_formed(ts, k + 1, hi);
    }
}

proof fn lemma_list_well_formed(ts: Seq<Seq<char>>, lo: int, hi: int)
    ensures
        list_of(ts, lo, hi) matches Some(c) ==> well_formed(c),
    decreases hi - lo,
{
    if lo < hi {
        let k = first_amp(ts, lo, hi);
        if k < lo || k >= hi {
            lemma_pipeline_well_formed(ts, lo, hi);
        } else {
            lemma_pipeline_well_formed(ts, lo, k);
            if k + 1 < hi {
                lemma_list_well_formed(ts, k + 1, hi);
            }
        }
    }
}

proof fn lemma_no_amp(ts: Seq<Seq<char>>, i: int, hi: int)
    requires
        forall|j: int| i <= j < hi ==> !is_single(#[trigger] ts[j], '&'),
    ensures
        first_amp(ts, i, hi) == hi,
    decreases hi - i,
{
    if i < hi {
        lemma_no_amp(ts, i + 1, hi);
    }
}

/// A line without `&` parses, if at all, as a pipeline: a simple command or
/// a pipeline of them.
pub proof fn lemma_line_without_amp_is_pipeline(ts: Seq<Seq<char>>)
    requires
        ts.len() > 0,
        forall|j: int| 0 <= j < ts.len() ==> !is_single(#[trigger] ts[j], '&'),
    ensures
        parse_texts(ts) == pipeline_of(ts, 0, ts.len() as int),
        parse_texts(ts) matches Some(c) ==> is_stage_tree(c) && well_formed(c),
{
    lemma_no_amp(ts, 0, ts.len() as int);
    lemma_pipeline_well_formed(ts, 0, ts.len() as int);
}

/// Every command that the grammar gives is well formed: its simple commands
/// have a word each, and its pipelines join simple commands or pipelines.
pub proof fn lemma_parse_well_formed(ts: Seq<Seq<char>>)
    ensures
        parse_texts(ts) matches Some(c) ==> well_formed(c),
{
    lemma_list_well_formed(ts, 0, ts.len() as int);
}

/// A line of one word that is no assignment is one simple command with
/// that word as its program and no arguments.
pub proof fn lemma_single_word(ts: Seq<Seq<char>>)
    requires
        ts.len() == 1,
        is_word_text(ts[0]),
        !is_assignment(ts[0]),
    ensures
        parse_texts(ts) == Some(SCommand::Simple { assigns: Seq::empty(), args: ts }),
{
    assert(first_amp(ts, 1, 1) == 1);
    assert(last_pipe(ts, 0, 0) == -1);
    assert(!is_single(ts[0], '&'));
    assert(!is_single(ts[0], '|'));
    assert(assign_count(ts, 0, 1) == 0);
    assert(ts.subrange(0, 0).map_values(|w: Seq<char>| split_assign(w)) =~= Seq::empty());
    assert(ts.subrange(0, 1) =~= ts);
}

fn name_char(c: char) -> (r: bool)
    ensures
        r == is_name_char(c),
{
    ('a' <= c && c <= 'z') || ('A' <= c && c <= 'Z') || ('0' <= c && c <= '9') || c == '_'
}

/// Splits `w` into an assignment, if it is one.
fn assignment_of(w: &String) -> (r: Option<Assign>)
    ensures
        r is Some <==> is_assignment(w@),
        r matches Some(a) ==> (a.var@, a.val@) == split_assign(w@),
{
    let s = w.as_str();
    let n = s.unicode_len();
    let mut p: usize = 0;
    while p < n && s.get_char(p) != '='
        invariant
            p <= n == w@.len(),
            s@ == w@,
            eq_from(w@, 0) == eq_from(w@, p as int),
        decreases n - p,
    {
        p = p + 1;
    }
    if p == n {
        return None;
    }
    assert(eq_from(w@, p as int) == p);
    if p == 0 {
        assert(w@.take(0).len() == 0);
        return None;
    }
    let first = s.get_char(0);
    if '0' <= first && first <= '9' {
        assert(w@.take(p as int)[0] == first);
        assert(!is_name(w@.take(p as int)));
        return None;
    }
    let mut i: usize = 0;
    while i < p
        invariant
            i <= p < n == w@.len(),
            s@ == w@,
            eq_from(w@, 0) == p,
            forall|j: int| 0 <= j < i ==> #[trigger] is_name_char(w@[j]),
        decreases p - i,
    {
        if !name_char(s.get_char(i)) {
            assert(w@.take(p as int)[i as int] == w@[i as int]);
            return None;
        }
        i = i + 1;
    }
    assert forall|j: int| 0 <= j < p implies #[trigger] is_name_char(w@.take(p as int)[j]) by {
        assert(w@.take(p as int)[j] == w@[j]);
    }
    let var = String::from_str(s.substring_char(0, p));
    let val = String::from_str(s.substring_char(p + 1, n));
    assert(var@ =~= w@.take(p as int));
    assert(val@ =~= w@.skip(p + 1));
    Some(Assign { var, val })
}

fn simple_at(
    toks: &Vec<(usize, Token, usize)>,
    Ghost(ts): Ghost<Seq<Seq<char>>>,
    lo: usize,
    hi: usize,
) -> (r: Option<Command>)
    requires
        tokens_match(toks@, ts),
        lo <= hi <= ts.len(),
    ensures
        r is Some <==> simple_of(ts, lo as int, hi as int) is Some,
        r matches Some(c) ==> simple_of(ts, lo as int, hi as int) == Some(command_view(c)),
{
    if lo >= hi {
        return None;
    }
    let mut i = lo;
    while i < hi
        invariant
            tokens_match(toks@, ts),
            lo <= i <= hi <= ts.len(),
            all_words(ts, lo as int, i as int),
        decreases hi - i,
    {
        assert(denotes(toks@[i as int].1, ts[i as int]));
        match &toks[i].1 {
            Token::WORD(_) => {},
            _ => {
                assert(!is_word_text(ts[i as int]));
                return None;
            },
        }
        i = i + 1;
    }
    let mut assigns: Vec<Assign> = Vec::new();
    let mut i = lo;
    while i < hi
        invariant
            tokens_match(toks@, ts),
            lo <= i <= hi <= ts.len(),
            all_words(ts, lo as int, hi as int),
            assign_count(ts, lo as int, hi as int) == (i - lo) + assign_count(ts, i as int, hi as int),
            assigns_view(assigns@) == ts.subrange(lo as int, i as int).map_values(
                |w: Seq<char>| split_assign(w),
            ),
        ensures
            lo <= i <= hi,
            assign_count(ts, lo as int, hi as int) == (i - lo) + assign_count(ts, i as int, hi as int),
            assigns_view(assigns@) == ts.subrange(lo as int, i as int).map_values(
                |w: Seq<char>| split_assign(w),
            ),
            assign_count(ts, i as int, hi as int) == 0,
        decreases hi - i,
    {
        assert(denotes(toks@[i as int].1, ts[i as int]));
        assert(is_word_text(ts[i as int]));
        if let Token::WORD(w) = &toks[i].1 {
            match assignment_of(w) {
                Some(a) => {
                    let ghost before = assigns@;
                    assigns.push(a);
                    assert(assigns_view(assigns@) =~= assigns_view(before).push(split_assign(ts[i as int])));
                    assert(ts.subrange(lo as int, i + 1) =~= ts.subrange(lo as int, i as int).push(ts[i as int]));
                    assert(ts.subrange(lo as int, i + 1).map_values(|w: Seq<char>| split_assign(w))
                        =~= ts.subrange(lo as int, i as int).map_values(|w: Seq<char>| split_assign(w)).push(split_assign(ts[i as int])));
                    i = i + 1;
                },
                None => {
                    break;
                },
            }
        } else {
            break;
        }
    }
    if i == hi {
        return None;
    }
    let na = i;
    let mut args: Vec<String> = Vec::new();
    while i < hi
        invariant
            tokens_match(toks@, ts),
            lo <= na <= i <= hi <= ts.len(),
            all_words(ts, lo as int, hi as int),
            strings_view(args@) == ts.subrange(na as int, i as int),
        decreases hi - i,
    {
        assert(denotes(toks@[i as int].1, ts[i as int]));
        assert(is_word_text(ts[i as int]));
        if let Token::WORD(w) = &toks[i].1 {
            let ghost before = args@;
            args.push(w.clone());
            assert(strings_view(args@) =~= strings_view(before).push(ts[i as int]));
            assert(ts.subrange(na as int, i + 1) =~= ts.subrange(na as int, i as int).push(ts[i as int]));
        }
        i = i + 1;
    }
    assert(assign_count(ts, lo as int, hi as int) == na - lo);
    assert(all_words(ts, lo as int, hi as int));
    let r = Command::Simple { assigns, args };
    assert(command_view(r) == SCommand::Simple { assigns: assigns_view(assigns@), args: strings_view(args@) });
    assert(ts.subrange(na as int, hi as int) == strings_view(args@));
    Some(r)
}

fn is_pipe(toks: &Vec<(usize, Token, usize)>, Ghost(ts): Ghost<Seq<Seq<char>>>, k: usize) -> (r: bool)
    requires
        tokens_match(toks@, ts),
        k < ts.len(),
    ensures
        r == is_single(ts[k as int], '|'),
{
    assert(denotes(toks@[k as int].1, ts[k as int]));
    match &toks[k].1 {
        Token::PIPE => true,
        _ => false,
    }
}

fn is_amp(toks: &Vec<(usize, Token, usize)>, Ghost(ts): Ghost<Seq<Seq<char>>>, k: usize) -> (r: bool)
    requires
        tokens_match(toks@, ts),
        k < ts.len(),
    ensures
        r == is_single(ts[k as int], '&'),
{
    assert(denotes(toks@[k as int].1, ts[k as int]));
    match &toks[k].1 {
        Token::AMP => true,
        _ => false,
    }
}

fn pipeline_at(
    toks: &Vec<(usize, Token, usize)>,
    Ghost(ts): Ghost<Seq<Seq<char>>>,
    lo: usize,
    hi: usize,
) -> (r: Option<Command>)
    requires
        tokens_match(toks@, ts),
        lo <= hi <= ts.len(),
    ensures
        r is Some <==> pipeline_of(ts, lo as int, hi as int) is Some,
        r matches Some(c) ==> pipeline_of(ts, lo as int, hi as int) == Some(command_view(c)),
    decreases hi - lo,
{
    let mut j = hi;
    while j > lo && !is_pipe(toks, Ghost(ts), j - 1)
        invariant
            tokens_match(toks@, ts),
            lo <= j <= hi <= ts.len(),
            last_pipe(ts, lo as int, hi as int) == last_pipe(ts, lo as int, j as int),
        decreases j,
    {
        j = j - 1;
    }
    if j == lo {
        return simple_at(toks, Ghost(ts), lo, hi);
    }
    let k = j - 1;
    match pipeline_at(toks, Ghost(ts), lo, k) {
        Some(a) => match simple_at(toks, Ghost(ts), k + 1, hi) {
            Some(b) => Some(Command::Pipeline(Box::new(a), Box::new(b))),
            None => None,
        },
        None => None,
    }
}

fn list_at(
    toks: &Vec<(usize, Token, usize)>,
    Ghost(ts): Ghost<Seq<Seq<char>>>,
    lo: usize,
    hi: usize,
) -> (r: Option<Command>)
    requires
        tokens_match(toks@, ts),
        lo <= hi <= ts.len(),
    ensures
        r is Some <==> list_of(ts, lo as int, hi as int) is Some,
        r matches Some(c) ==> list_of(ts, lo as int, hi as int) == Some(command_view(c)),
    decreases hi - lo,
{
    if lo >= hi {
        return Some(Command::Empty);
    }
    let mut k = lo;
    while k < hi && !is_amp(toks, Ghost(ts), k)
        invariant
            tokens_match(toks@, ts),
            lo <= k <= hi <= ts.len(),
            first_amp(ts, lo as int, hi as int) == first_amp(ts, k as int, hi as int),
        decreases hi - k,
    {
        k = k + 1;
    }
    if k == hi {
        return pipeline_at(toks, Ghost(ts), lo, hi);
    }
    match pipeline_at(toks, Ghost(ts), lo, k) {
        None => None,
        Some(a) => {
            if k + 1 >= hi {
                Some(Command::AsyncList(Box::new(a), None))
            } else {
                match list_at(toks, Ghost(ts), k + 1, hi) {
                    Some(b) => Some(Command::AsyncList(Box::new(a), Some(Box::new(b)))),
                    None => None,
                }
            }
        },
    }
}

/// Parses a command line. Succeeds exactly when the tokens of the line
/// follow the grammar, with the command that the grammar gives them.
pub fn parse(line: &str) -> (r: Result<Command, ParseError>)
    ensures
        r is Ok <==> parse_texts(token_texts(line@)) is Some,
        r matches Ok(c) ==> parse_texts(token_texts(line@)) == Some(command_view(c)),
{
    let toks = lex(line);
    let ghost ts = token_texts(line@);
    proof {
        lemma_lexed_texts(line@, toks@);
    }
    match list_at(&toks, Ghost(ts), 0, toks.len()) {
        Some(c) => Ok(c),
        None => Err(ParseError { message: String::from_str("syntax error") }),
    }
}

} // verus!
