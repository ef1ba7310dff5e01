use giulia::ast::{Expr, Literal, Stmt};
use giulia::lexer::lex;
use giulia::parser::{parse, ParseError, Parser};
use giulia::token::{keyword_token, same_token, token_debug, LexError, Token};

fn kinds(source: &str) -> Vec<Token> {
    lex(source).expect("lex should succeed").into_iter().map(|st| st.token).collect()
}

fn first_error(source: &str) -> String {
    let tokens = lex(source).expect("lex should succeed");
    let errors = parse(tokens).expect_err("parse should fail");
    errors[0].message()
}

// ─── lexer ──────────────────────────────────────────────────────

#[test]
fn token_list_ends_with_one_eof_at_the_end_of_input() {
    let toks = lex("let x").unwrap();
    assert_eq!(toks.len(), 3);
    let last = &toks[2];
    assert_eq!(last.token, Token::Eof);
    assert_eq!((last.span.start, last.span.end), (5, 5));
    assert_eq!((last.line, last.column), (1, 6));
    assert_eq!(kinds(""), vec![Token::Eof]);
}

#[test]
fn newlines_are_tokens_and_restart_columns() {
    let toks = lex("a\n  b").unwrap();
    assert_eq!(toks[1].token, Token::Newline);
    assert_eq!(toks[2].token, Token::Identifier("b".into()));
    assert_eq!((toks[2].line, toks[2].column), (2, 3));
    assert_eq!((toks[2].span.start, toks[2].span.end), (4, 5));
}

#[test]
fn comments_keep_the_positions_of_what_follows() {
    let toks = lex("let /: c :/ x").unwrap();
    assert_eq!(toks[1].token, Token::Identifier("x".into()));
    assert_eq!((toks[1].span.start, toks[1].span.end), (12, 13));
    assert_eq!(toks[1].column, 13);
    let toks = lex("a /: one\ntwo :/ b").unwrap();
    assert_eq!(toks[1].token, Token::Newline);
    assert_eq!(toks[2].token, Token::Identifier("b".into()));
    assert_eq!((toks[2].line, toks[2].column), (2, 8));
    assert_eq!(kinds("x /: to the end"), vec![Token::Identifier("x".into()), Token::Eof]);
}

#[test]
fn policy_keywords_arrow_and_delimiters() {
    assert_eq!(
        kinds("on_error event_policy ai_policy -> ( ) [ ] { } , . : + - * / %"),
        vec![
            Token::OnError,
            Token::EventPolicy,
            Token::AiPolicy,
            Token::Arrow,
            Token::LParen,
            Token::RParen,
            Token::LBracket,
            Token::RBracket,
            Token::LBrace,
            Token::RBrace,
            Token::Comma,
            Token::Dot,
            Token::Colon,
            Token::Plus,
            Token::Minus,
            Token::Star,
            Token::Slash,
            Token::Percent,
            Token::Eof,
        ]
    );
}

#[test]
fn literals_and_word_tokens() {
    assert_eq!(
        kinds("true false null \"a b\" 7 2.5 3e2"),
        vec![
            Token::True,
            Token::False,
            Token::Null,
            Token::StringLit("a b".into()),
            Token::Integer(7),
            Token::Float("2.5".into()),
            Token::Scientific("3e2".into()),
            Token::Eof,
        ]
    );
}

#[test]
fn every_bad_character_is_reported_with_its_place() {
    let errs = lex("@a\n #").unwrap_err();
    assert_eq!(errs.len(), 2);
    assert_eq!(errs[0], LexError::UnexpectedCharacter { character: '@', line: 1, column: 1 });
    assert_eq!(errs[1], LexError::UnexpectedCharacter { character: '#', line: 2, column: 2 });
    assert_eq!(errs[1].message(), "Unexpected character '#' at line 2, column 2");
}

#[test]
fn lex_error_texts() {
    assert_eq!(
        LexError::UnterminatedString { line: 3, column: 4 }.message(),
        "String not terminated at line 3, column 4"
    );
    assert_eq!(
        LexError::UnterminatedComment { line: 1, column: 2 }.message(),
        "Comentario multilinha não terminado na linha 1, coluna 2"
    );
}

#[test]
fn keywords_and_token_texts() {
    assert_eq!(keyword_token(&"agent".to_string()), Some(Token::Agent));
    assert_eq!(keyword_token(&"high".to_string()), Some(Token::PriorityHigh));
    assert_eq!(keyword_token(&"agents".to_string()), None);
    assert!(same_token(&Token::Integer(3), &Token::Integer(3)));
    assert!(!same_token(&Token::Integer(3), &Token::Float("3".into())));
    assert_eq!(token_debug(&Token::Let), "Let");
    assert_eq!(token_debug(&Token::Integer(-42)), "Integer(-42)");
    assert_eq!(token_debug(&Token::Identifier("x".into())), "Identifier(\"x\")");
    assert_eq!(token_debug(&Token::StringLit("a\"b".into())), "StringLit(\"a\\\"b\")");
    assert_eq!(token_debug(&Token::Float("3.14".into())), "Float(3.14)");
}

// ─── parser ─────────────────────────────────────────────────────

#[test]
fn unexpected_token_message_quotes_both_sides() {
    assert_eq!(
        first_error("agent main {\n    start {}\n}\n"),
        "Unexpected token: expected \"use, on, fn, channel, on_error, event_policy, ou }\", found \"Start\" at line 2, column 5"
    );
}

#[test]
fn missing_parameter_name_is_reported() {
    let errors = parse(lex("fn invalid_syntax(").unwrap()).unwrap_err();
    assert_eq!(errors.len(), 1);
    assert_eq!(errors[0].message(), "Expected identifier in parâmetro at line 1, column 19");
}

#[test]
fn invalid_assignment_target_is_reported() {
    let errors = parse(lex("agent main { on start { 1 = 2 } }").unwrap()).unwrap_err();
    assert!(matches!(errors[0], ParseError::InvalidAssignmentTarget { line: 1, column: 31 }));
    assert_eq!(errors[0].message(), "Invalid assignment target on row 1, column 31");
}

#[test]
fn errors_in_several_declarations_are_all_reported() {
    let errors = parse(lex("fn a(\nfn b(\n").unwrap()).unwrap_err();
    assert_eq!(errors.len(), 2);
    assert_eq!(errors[0].message(), "Expected identifier in parâmetro at line 1, column 6");
    assert_eq!(errors[1].message(), "Expected identifier in parâmetro at line 2, column 6");
}

#[test]
fn top_level_functions_and_lets() {
    let program = parse(lex("fn f() { }\nlet x = 1\n").unwrap()).unwrap();
    assert_eq!(program.stmts.len(), 2);
    assert!(matches!(&program.stmts[0], Stmt::FnDecl(f) if f.name == "f"));
    assert!(matches!(&program.stmts[1], Stmt::LetStmt(l) if l.name == "x"));
}

#[test]
fn empty_input_is_an_empty_program() {
    let program = parse(lex("").unwrap()).unwrap();
    assert!(program.stmts.is_empty());
    let program = parse(Vec::new()).unwrap();
    assert!(program.stmts.is_empty());
}

#[test]
fn send_written_with_topic_after_the_parenthesis() {
    let program = parse(lex("agent a { on start { send(\"b\"), \"t\", 1 } }").unwrap()).unwrap();
    match &program.stmts[0] {
        Stmt::AgentDecl(agent) => match &agent.handlers[0].body.stmts[0] {
            Stmt::SendStmt(s) => {
                assert_eq!(s.target_agent, "b");
                assert_eq!(s.topic.as_deref(), Some("t"));
                assert!(matches!(s.payload, Expr::Literal(Literal::Int(1), _)));
            }
            _ => panic!("expected SendStmt"),
        },
        _ => panic!("expected AgentDecl"),
    }
}

#[test]
fn parser_reads_a_whole_program() {
    let mut p = Parser::new(lex("agent a { }\nlet y = (1 + 2) * x[0]\n").unwrap());
    let program = p.parse_program().unwrap();
    assert_eq!(program.stmts.len(), 2);
    match &program.stmts[1] {
        Stmt::LetStmt(l) => match &l.value {
            Expr::BinOp { left, right, .. } => {
                assert!(matches!(**left, Expr::BinOp { .. }));
                assert!(matches!(**right, Expr::Index { .. }));
            }
            _ => panic!("expected BinOp"),
        },
        _ => panic!("expected LetStmt"),
    }
}

#[test]
fn expression_spans_are_those_of_their_operator_or_first_token() {
    let program = parse(lex("let v = 10 - 4\n").unwrap()).unwrap();
    match &program.stmts[0] {
        Stmt::LetStmt(l) => {
            let s = l.value.span();
            assert_eq!((s.start, s.end), (11, 12));
            assert_eq!((l.span.start, l.span.end), (0, 3));
        }
        _ => panic!("expected LetStmt"),
    }
}

#[test]
fn every_token_stands_where_line_col_places_its_offset() {
    let source = "agent main {\n  // a comment\n  on start {\n    let x = 1 + 2\n    /* two\n lines */ print(x)\n  }\n}\n";
    let toks = lex(source).unwrap();
    assert!(toks.len() > 10);
    for t in &toks {
        assert_eq!(giulia::interp::line_col(source, t.span.start), (t.line, t.column));
    }
    let print = toks.iter().find(|t| matches!(&t.token, Token::Identifier(n) if n == "print")).unwrap();
    assert_eq!((print.line, print.column), (6, 11));
    let eof = toks.last().unwrap();
    assert_eq!((eof.span.start, eof.line, eof.column), (source.len(), 9, 1));
}

fn agent_version(source: &str) -> Option<u64> {
    let program = parse(lex(source).unwrap()).unwrap();
    match &program.stmts[0] {
        Stmt::AgentDecl(agent) => agent.version,
        _ => panic!("expected AgentDecl"),
    }
}

#[test]
fn agent_version_written_as_one_word() {
    assert_eq!(agent_version("agent home v2 { }"), Some(2));
    assert_eq!(agent_version("agent home v10 {\n}\n"), Some(10));
    assert_eq!(agent_version("agent home v007 { }"), Some(7));
    assert_eq!(agent_version("agent home v18446744073709551615 { }"), Some(u64::MAX));
}

#[test]
fn agent_version_written_as_two_words_and_absent() {
    assert_eq!(agent_version("agent home v 3 { }"), Some(3));
    assert_eq!(agent_version("agent home { }"), None);
}

#[test]
fn agent_version_word_that_is_not_a_version() {
    for source in ["agent home vx { }", "agent home v2a { }", "agent home v18446744073709551616 { }", "agent home w2 { }"] {
        let errors = parse(lex(source).unwrap()).expect_err("parse should fail");
        assert!(!errors.is_empty());
    }
}
