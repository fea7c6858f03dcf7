use tgs_lexer::ast::Command;
use tgs_lexer::parser::parse;

fn args_of(c: &Command) -> Vec<String> {
    match c {
        Command::Simple { args, .. } => args.clone(),
        _ => panic!("not a simple command"),
    }
}

#[test]
fn parse_blank_line_is_empty() {
    assert!(matches!(parse("").ok().unwrap(), Command::Empty));
    assert!(matches!(parse("   ").ok().unwrap(), Command::Empty));
}

#[test]
fn parse_simple_command() {
    let c = parse("ls -l /tmp").ok().unwrap();
    assert_eq!(args_of(&c), vec!["ls", "-l", "/tmp"]);
}

#[test]
fn parse_assignments_before_words() {
    match parse("A=1 B_2=x=y env C=3").ok().unwrap() {
        Command::Simple { assigns, args } => {
            let a: Vec<(String, String)> = assigns.iter().map(|a| (a.var.clone(), a.val.clone())).collect();
            assert_eq!(a, vec![("A".to_string(), "1".to_string()), ("B_2".to_string(), "x=y".to_string())]);
            assert_eq!(args, vec!["env", "C=3"]);
        }
        _ => panic!("not a simple command"),
    }
}

#[test]
fn parse_non_name_assignment_is_a_word() {
    let c = parse("1A=x =y").ok().unwrap();
    assert_eq!(args_of(&c), vec!["1A=x", "=y"]);
}

#[test]
fn parse_only_assignments_is_an_error() {
    assert!(parse("A=1").is_err());
}

#[test]
fn parse_pipeline_nests_left() {
    match parse("a | b | c").ok().unwrap() {
        Command::Pipeline(left, right) => {
            assert_eq!(args_of(&right), vec!["c"]);
            match *left {
                Command::Pipeline(a, b) => {
                    assert_eq!(args_of(&a), vec!["a"]);
                    assert_eq!(args_of(&b), vec!["b"]);
                }
                _ => panic!("left side is not a pipeline"),
            }
        }
        _ => panic!("not a pipeline"),
    }
}

#[test]
fn parse_async_list_nests_right() {
    match parse("a & b &").ok().unwrap() {
        Command::AsyncList(a, Some(rest)) => {
            assert_eq!(args_of(&a), vec!["a"]);
            match *rest {
                Command::AsyncList(b, None) => assert_eq!(args_of(&b), vec!["b"]),
                _ => panic!("rest is not a list"),
            }
        }
        _ => panic!("not a list"),
    }
}

#[test]
fn parse_errors() {
    for line in ["| a", "a |", "a | | b", "& a", "a ; b", "a && b", "if a", "(a)", "echo done"] {
        assert!(parse(line).is_err(), "{}", line);
    }
}

#[test]
fn parse_quoted_reserved_word_is_a_word() {
    let c = parse("echo 'if' \"a|b\"").ok().unwrap();
    assert_eq!(args_of(&c), vec!["echo", "'if'", "\"a|b\""]);
}
