use rust_shell::shell::{prepare_line, LineOutcome};
use rust_shell::state::history_store::{self, HistoryStore};
use rust_shell::syntax::parser::Parser;
use rust_shell::syntax::redirection::RedirectionMode;
use rust_shell::syntax::scanner::lexer::{Lexer, QuoteKind};
use rust_shell::syntax::scanner::token::TokenType;

fn lex(line: &str) -> Vec<(TokenType, String)> {
    Lexer::new(line.to_string())
        .scan_tokens()
        .into_iter()
        .map(|t| (t.token_type, t.lexeme))
        .collect()
}

fn words(line: &str) -> Vec<String> {
    lex(line)
        .into_iter()
        .filter(|(t, _)| *t == TokenType::Word)
        .map(|(_, w)| w)
        .collect()
}

#[test]
fn splits_words_on_blanks_and_ends_with_eof() {
    assert_eq!(
        lex("echo  hello\tworld"),
        vec![
            (TokenType::Word, "echo".to_string()),
            (TokenType::Word, "hello".to_string()),
            (TokenType::Word, "world".to_string()),
            (TokenType::Eof, String::new()),
        ]
    );
    assert_eq!(lex(""), vec![(TokenType::Eof, String::new())]);
}

#[test]
fn quotes_and_escapes_shape_words() {
    assert_eq!(words(r#"echo 'a  b' "c\"d\\e\n" f\ g"#), vec!["echo", "a  b", "c\"d\\e\\n", "f g"]);
    assert_eq!(words(r#"x'y'"z"w"#), vec!["xyzw"]);
}

#[test]
fn scans_operators() {
    let kinds: Vec<TokenType> = lex("ls 1>out 2>>err >>all < in ; a | b & && c 2> e")
        .into_iter()
        .map(|(t, _)| t)
        .collect();
    assert_eq!(
        kinds,
        vec![
            TokenType::Word,
            TokenType::RedirectOut,
            TokenType::Word,
            TokenType::RedirectStdErrAppend,
            TokenType::Word,
            TokenType::RedirectAppend,
            TokenType::Word,
            TokenType::RedirectIn,
            TokenType::Word,
            TokenType::Semicolon,
            TokenType::Word,
            TokenType::Pipe,
            TokenType::Word,
            TokenType::Ampersand,
            TokenType::And,
            TokenType::Word,
            TokenType::RedirectStdErr,
            TokenType::Word,
            TokenType::Eof,
        ]
    );
    assert_eq!(words("a&&b 12>x"), vec!["a&&b", "12", "x"]);
}

#[test]
fn reports_unterminated_quotes() {
    let (tokens, open) = Lexer::new("echo 'abc".to_string()).scan();
    assert_eq!(open, vec![QuoteKind::Single]);
    assert_eq!(tokens[1].lexeme, "abc");
    let (_, open) = Lexer::new("echo \"x".to_string()).scan();
    assert_eq!(open, vec![QuoteKind::Double]);
    assert_eq!(QuoteKind::Double.message(), "Unterminated double quote");
}

#[test]
fn parses_pipelines_with_redirections() {
    let mut parser = Parser::new(Lexer::new("echo hi > out 2>> err | wc -l &".to_string()).scan_tokens());
    assert!(parser.is_parsable());
    let pipeline = parser.parse().unwrap().unwrap();
    assert!(pipeline.is_background);
    assert_eq!(pipeline.commands.len(), 2);
    let first = &pipeline.commands[0];
    assert_eq!(first.name, "echo");
    assert_eq!(first.arguments, vec!["hi"]);
    let out = first.stdout_redirection.as_ref().unwrap();
    assert_eq!((out.mode, out.file_path.as_str()), (RedirectionMode::Overwrite, "out"));
    let err = first.stderr_redirection.as_ref().unwrap();
    assert_eq!((err.mode, err.file_path.as_str()), (RedirectionMode::Append, "err"));
    assert_eq!(pipeline.commands[1].name, "wc");
    assert_eq!(pipeline.commands[1].arguments, vec!["-l"]);
}

#[test]
fn rejects_ampersand_before_the_end() {
    let mut parser = Parser::new(Lexer::new("sleep 1 & echo b".to_string()).scan_tokens());
    let error = parser.parse().unwrap_err();
    assert_eq!(
        error.message(),
        "Error parsing command: Syntax error: '&' must be at the end of the command"
    );
}

#[test]
fn blank_line_parses_to_nothing() {
    let mut parser = Parser::new(Lexer::new("   ".to_string()).scan_tokens());
    assert!(parser.parse().unwrap().is_none());
}

#[test]
fn prepare_line_records_history_and_flags_unparsable_lines() {
    let mut history = HistoryStore::new();
    let (open, outcome) = prepare_line("| ls".to_string(), &mut history);
    assert!(open.is_empty());
    assert!(matches!(outcome, LineOutcome::Unparsable));
    let (_, outcome) = prepare_line("ls -la".to_string(), &mut history);
    match outcome {
        LineOutcome::Run(pipeline) => assert_eq!(pipeline.commands[0].name, "ls"),
        _ => panic!("expected a pipeline"),
    }
    assert_eq!(history_store::get_all(&history), vec!["| ls", "ls -la"]);
}

#[test]
fn a_space_splits_scanning() {
    let a = "echo x>out 2>";
    let b = "err | cat &";
    let mut expected = lex(a);
    expected.pop();
    expected.extend(lex(b));
    assert_eq!(lex(&format!("{} {}", a, b)), expected);
}
