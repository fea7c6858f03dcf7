//! The language front end: deciding whether a line is complete, and the
//! errors that evaluating a line can give.

use vstd::prelude::*;
use vstd::string::*;
use crate::ast::command_view;
use crate::eval::{eval_command, evaluation, jobs_view, stages_view, Plan};
use crate::jobs::JobError;
use crate::parser::{lemma_parse_well_formed, parse, parse_texts, ParseError};
use crate::lexer::{lex, denotes, is_single, is_word_text, lemma_lexed_texts, token_texts, tokens_match, Token};

verus! {

/// Exit status reported when the program of a command cannot be found.
pub const NOT_FOUND_STATUS: i32 = 127;

/// Exit status reported when a line fails for any other reason.
pub const FAILURE_STATUS: i32 = 1;

/// What can go wrong while a line is parsed, evaluated and run.
pub enum PosixError {
    /// A redirection could not be opened or bound.
    Redirect(String),
    /// The command-not-found hook failed.
    Hook,
    /// The line does not follow the grammar.
    Parse(ParseError),
    /// Spawning or wiring the processes failed for a reason other than a
    /// missing program.
    Eval(String),
    /// The named program could not be found.
    CommandNotFound(String),
    /// The job table or terminal control failed.
    Job(JobError),
}

/// The shell command language, as the shell runtime sees it.
pub struct PosixLang {}

/// How a line ended: the exit status to report, and whether the
/// command-not-found hook is to run.
pub struct LineOutcome {
    pub status: i32,
    pub run_hook: bool,
}

impl PosixLang {
    pub fn new() -> (r: PosixLang) {
        PosixLang {}
    }

    /// The name under which the runtime selects this language.
    pub fn name(&self) -> (r: String)
        ensures
            r@ == "posix"@,
    {
        String::from_str("posix")
    }

    /// Decides whether more input should be read before `command` is evaluated.
    pub fn needs_line_check(&self, command: &str) -> (r: bool)
        ensures
            r == line_incomplete(command@),
    {
        is_line_incomplete(command)
    }
}

/// Parses a line and evaluates its command tree: a parse error when the
/// line does not follow the grammar, otherwise the processes that the tree
/// evaluates to, with the shell's own standard input and output.
pub fn evaluate_line(line: &str) -> (r: Result<Plan, PosixError>)
    ensures
        parse_texts(token_texts(line@)) is None <==> r matches Err(PosixError::Parse(_)),
        parse_texts(token_texts(line@)) is None ==> r is Err,
        parse_texts(token_texts(line@)) matches Some(c) ==> (r matches Ok(p) && (
            jobs_view(p.background@),
            stages_view(p.processes@),
        ) == evaluation(c, None, None)),
{
    match parse(line) {
        Ok(cmd) => {
            proof {
                lemma_parse_well_formed(token_texts(line@));
            }
            Ok(eval_command(&cmd, None, None))
        },
        Err(e) => Err(PosixError::Parse(e)),
    }
}

/// The error for a process that could not be spawned: `CommandNotFound`
/// when its program was not found, otherwise an evaluation error.
pub fn spawn_error(program: &String, not_found: bool, message: String) -> (r: PosixError)
    ensures
        not_found ==> (r matches PosixError::CommandNotFound(p) && p@ == program@),
        !not_found ==> (r matches PosixError::Eval(m) && m@ == message@),
{
    if not_found {
        PosixError::CommandNotFound(program.clone())
    } else {
        PosixError::Eval(message)
    }
}

/// How a line ends, given the exit status of its foreground job or the
/// error that stopped it: a missing program runs the hook and reports 127;
/// any other error reports a failure; otherwise the job's own status.
pub fn settle(result: &Result<i32, PosixError>) -> (r: LineOutcome)
    ensures
        result matches Ok(s) ==> r.status == s && !r.run_hook,
        result matches Err(PosixError::CommandNotFound(_)) ==> r.status == NOT_FOUND_STATUS
            && r.run_hook,
        result matches Err(e) ==> (!(e is CommandNotFound) ==> r.status == FAILURE_STATUS
            && !r.run_hook),
{
    match result {
        Ok(s) => LineOutcome { status: *s, run_hook: false },
        Err(PosixError::CommandNotFound(_)) => LineOutcome { status: NOT_FOUND_STATUS, run_hook: true },
        Err(_) => LineOutcome { status: FAILURE_STATUS, run_hook: false },
    }
}

/// Number of backslashes that end the prefix `s[0..n]`.
pub open spec fn backslash_run(s: Seq<char>, n: int) -> nat
    decreases n,
{
    if n <= 0 || n > s.len() || s[n - 1] != '\\' {
        0
    } else {
        1 + backslash_run(s, n - 1)
    }
}

/// The line ends in a backslash that no other backslash escapes.
pub open spec fn ends_with_continuation(s: Seq<char>) -> bool {
    backslash_run(s, s.len() as int) % 2 == 1
}

/// Follows the brackets of `ts[i..]`, starting from the open brackets
/// `open` (`true` for a parenthesis, `false` for a brace). `None` when a
/// closing bracket meets an open bracket of the other kind; otherwise the
/// brackets left open at the end. A closing bracket with none open is passed over.
pub open spec fn bracket_scan(ts: Seq<Seq<char>>, i: int, open: Seq<bool>) -> Option<Seq<bool>>
    decreases ts.len() - i,
{
    if i < 0 || i >= ts.len() {
        Some(open)
    } else {
        let t = ts[i];
        if is_single(t, '(') {
            bracket_scan(ts, i + 1, open.push(true))
        } else if is_single(t, '{') {
            bracket_scan(ts, i + 1, open.push(false))
        } else if is_single(t, ')') || is_single(t, '}') {
            if open.len() == 0 {
                bracket_scan(ts, i + 1, open)
            } else if open.last() == is_single(t, ')') {
                bracket_scan(ts, i + 1, open.drop_last())
            } else {
                None
            }
        } else {
            bracket_scan(ts, i + 1, open)
        }
    }
}

/// The last word among `ts[0..n]`.
pub open spec fn last_word(ts: Seq<Seq<char>>, n: int) -> Option<Seq<char>>
    decreases n,
{
    if n <= 0 || n > ts.len() {
        None
    } else if is_word_text(ts[n - 1]) {
        Some(ts[n - 1])
    } else {
        last_word(ts, n - 1)
    }
}

/// A word that opens a quote and does not close it with the same character.
pub open spec fn opens_quote(w: Seq<char>) -> bool {
    &&& w.len() > 0
    &&& (w[0] == '\'' || w[0] == '"')
    &&& (w.len() == 1 || w.last() != w[0])
}

/// More input is needed before the line can be evaluated: it ends in a
/// continuation backslash; or its brackets match so far and some are left
/// open; or they match and its last word opens a quote that it does not close.
pub open spec fn line_incomplete(s: Seq<char>) -> bool {
    if ends_with_continuation(s) {
        true
    } else {
        let ts = token_texts(s);
        match bracket_scan(ts, 0, Seq::empty()) {
            None => false,
            Some(open) => open.len() > 0 || match last_word(ts, ts.len() as int) {
                Some(w) => opens_quote(w),
                None => false,
            },
        }
    }
}

/// Whether a line is incomplete depends on its text alone: the same text
/// checked twice gives the same answer.
pub proof fn lemma_line_check_deterministic(a: Seq<char>, b: Seq<char>)
    requires
        a == b,
    ensures
        line_incomplete(a) == line_incomplete(b),
{
}

fn ends_with_continuation_exec(line: &str, n: usize) -> (r: bool)
    requires
        n == line@.len(),
    ensures
        r == ends_with_continuation(line@),
{
    let mut k: usize = 0;
    while k < n && line.get_char(n - 1 - k) == '\\'
        invariant
            n == line@.len(),
            k <= n,
            backslash_run(line@, n as int) == k + backslash_run(line@, n - k),
        decreases n - k,
    {
        k = k + 1;
    }
    k % 2 == 1
}

fn opens_quote_exec(w: &String) -> (r: bool)
    ensures
        r == opens_quote(w@),
{
    let s = w.as_str();
    let n = s.unicode_len();
    if n == 0 {
        return false;
    }
    let first = s.get_char(0);
    if first != '\'' && first != '"' {
        return false;
    }
    n == 1 || s.get_char(n - 1) != first
}

/// Decides whether more input should be read before `line` is evaluated.
pub fn is_line_incomplete(line: &str) -> (r: bool)
    ensures
        r == line_incomplete(line@),
{
    let n = line.unicode_len();
    if ends_with_continuation_exec(line, n) {
        return true;
    }
    let toks = lex(line);
    let ghost s = line@;
    let ghost ts = token_texts(s);
    proof {
        lemma_lexed_texts(s, toks@);
    }
    let mut open: Vec<bool> = Vec::new();
    let mut k: usize = 0;
    while k < toks.len()
        invariant
            s == line@,
            tokens_match(toks@, ts),
            ts == token_texts(s),
            k <= toks@.len(),
            !ends_with_continuation(s),
            bracket_scan(ts, 0, Seq::empty()) == bracket_scan(ts, k as int, open@),
        decreases toks@.len() - k,
    {
        assert(denotes(toks@[k as int].1, ts[k as int]));
        match &toks[k].1 {
            Token::LPAREN => {
                open.push(true);
            },
            Token::LBRACE => {
                open.push(false);
            },
            Token::RPAREN => {
                if open.len() > 0 {
                    if open[open.len() - 1] {
                        open.pop();
                    } else {
                        return false;
                    }
                }
            },
            Token::RBRACE => {
                if open.len() > 0 {
                    if !open[open.len() - 1] {
                        open.pop();
                    } else {
                        return false;
                    }
                }
            },
            _ => {},
        }
        k = k + 1;
    }
    if open.len() > 0 {
        return true;
    }
    assert(open@ =~= Seq::<bool>::empty());
    let mut m: usize = toks.len();
    while m > 0
        invariant
            s == line@,
            tokens_match(toks@, ts),
            m <= toks@.len(),
            ts == token_texts(s),
            !ends_with_continuation(s),
            bracket_scan(ts, 0, Seq::empty()) == Some(Seq::<bool>::empty()),
            last_word(ts, ts.len() as int) == last_word(ts, m as int),
        decreases m,
    {
        assert(denotes(toks@[m - 1].1, ts[m - 1]));
        if let Token::WORD(w) = &toks[m - 1].1 {
            assert(last_word(ts, m as int) == Some(ts[m - 1]));
            return opens_quote_exec(w);
        }
        m = m - 1;
    }
    false
}

} // verus!
