use tgs_lexer::highlight::{highlight_spans, Role};
use tgs_lexer::lang::{is_line_incomplete, PosixLang};
use tgs_lexer::lexer::{lex, Token};

fn words(line: &str) -> Vec<String> {
    lex(line)
        .into_iter()
        .map(|(_, t, _)| match t {
            Token::WORD(w) => w,
            Token::PIPE => "|".to_string(),
            Token::AMP => "&".to_string(),
            Token::AND_IF => "&&".to_string(),
            Token::OR_IF => "||".to_string(),
            Token::SEMI => ";".to_string(),
            Token::DSEMI => ";;".to_string(),
            Token::LPAREN => "(".to_string(),
            Token::RPAREN => ")".to_string(),
            Token::LBRACE => "{".to_string(),
            Token::RBRACE => "}".to_string(),
            Token::IF => "<if>".to_string(),
            Token::FI => "<fi>".to_string(),
            _ => "<reserved>".to_string(),
        })
        .collect()
}

#[test]
fn lex_splits_on_blanks_and_operators() {
    assert_eq!(words("ls -l|wc&&x||y;z;;"), vec!["ls", "-l", "|", "wc", "&&", "x", "||", "y", ";", "z", ";;"]);
}

#[test]
fn lex_keeps_quotes_in_words() {
    assert_eq!(words("echo 'a b' \"c|d\" e\\ f"), vec!["echo", "'a b'", "\"c|d\"", "e\\ f"]);
}

#[test]
fn lex_reserved_only_when_plain() {
    assert_eq!(words("if 'if' fi"), vec!["<if>", "'if'", "<fi>"]);
}

#[test]
fn lex_positions_are_character_offsets() {
    let toks = lex("ab  | cd");
    let spans: Vec<(usize, usize)> = toks.iter().map(|(s, _, e)| (*s, *e)).collect();
    assert_eq!(spans, vec![(0, 2), (4, 5), (6, 8)]);
}

#[test]
fn lex_unterminated_quote_runs_to_end() {
    assert_eq!(words("echo 'hello | x"), vec!["echo", "'hello | x"]);
}

#[test]
fn lex_empty_line_has_no_tokens() {
    assert!(lex("").is_empty());
    assert!(lex("  \t ").is_empty());
}

#[test]
fn incomplete_unterminated_single_quote() {
    assert!(is_line_incomplete("echo 'hello"));
}

#[test]
fn incomplete_plain_line_is_complete() {
    assert!(!is_line_incomplete("echo hello"));
}

#[test]
fn incomplete_open_paren() {
    assert!(is_line_incomplete("echo (a"));
}

#[test]
fn incomplete_trailing_backslash() {
    assert!(is_line_incomplete("echo \\"));
}

#[test]
fn incomplete_escaped_backslash_is_complete() {
    assert!(!is_line_incomplete("echo \\\\"));
}

#[test]
fn incomplete_mismatched_bracket_is_left_to_parser() {
    assert!(!is_line_incomplete("echo { a )"));
    assert!(!is_line_incomplete("echo ( a }"));
    assert!(is_line_incomplete("echo ( 'a }"));
}

#[test]
fn incomplete_matched_brackets_are_complete() {
    assert!(!is_line_incomplete("{ echo ( a ) }"));
    assert!(is_line_incomplete("{ echo ( a )"));
}

#[test]
fn incomplete_quotes() {
    assert!(is_line_incomplete("echo \""));
    assert!(is_line_incomplete("echo \"abc'"));
    assert!(!is_line_incomplete("echo \"abc\""));
    assert!(!is_line_incomplete("echo 'a'"));
    assert!(is_line_incomplete("echo 'a' 'b"));
}

#[test]
fn incomplete_is_the_same_twice() {
    for line in ["echo 'hello", "echo hello", "echo (a", "echo \\", "", "a | b &"] {
        assert_eq!(is_line_incomplete(line), is_line_incomplete(line));
    }
}

#[test]
fn lang_name_and_line_check() {
    let lang = PosixLang::new();
    assert_eq!(lang.name(), "posix");
    assert!(lang.needs_line_check("echo 'x"));
    assert!(!lang.needs_line_check("echo x"));
}

#[test]
fn highlight_roles_follow_command_position() {
    let spans = highlight_spans("if ls 'x' | grep a; fi");
    assert_eq!(
        spans,
        vec![
            (0, 2, Role::Reserved),
            (3, 5, Role::Command),
            (6, 9, Role::Quoted),
            (12, 16, Role::Command),
            (20, 22, Role::Reserved),
        ]
    );
}

#[test]
fn highlight_quoted_command_gets_both_styles() {
    assert_eq!(highlight_spans("\"a b\" c"), vec![(0, 5, Role::Command), (0, 5, Role::Quoted)]);
}
