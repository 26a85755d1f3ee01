use lol_lint::ast::{Expression, Statement};
use lol_lint::lexer::Lexer;
use lol_lint::linter::Linter;
use lol_lint::parser::{parse, ParseError, Parser};
use lol_lint::types::{Token, TokenKind};

fn lex(src: &str) -> Vec<Token> {
    let mut lexer = Lexer::new(src.to_string());
    lexer.tokenize()
}

fn parse_src(src: &str) -> Result<lol_lint::ast::Program, ParseError> {
    let mut parser = Parser::new(lex(src));
    parser.parse_program()
}

fn lint_src(src: &str) -> Linter {
    let program = parse_src(src).expect("program should parse");
    Linter::lint(&program)
}

fn significant_texts(tokens: &[Token]) -> Vec<String> {
    let mut out = Vec::new();
    for t in tokens {
        match &t.kind {
            TokenKind::Keyword(s)
            | TokenKind::Identifier(s)
            | TokenKind::Number(s)
            | TokenKind::StringLiteral(s) => out.push(s.clone()),
            TokenKind::Comment(_) | TokenKind::Newline => {}
        }
    }
    out
}

#[test]
fn well_scoped_program_has_no_errors() {
    let l = lint_src("HAI 1.2\nI HAS A X ITZ 1\nI HAS A Y\nY R SUM OF X AN 2\nVISIBLE X Y\nKTHXBYE\n");
    assert!(l.errors.is_empty());
    assert!(!l.has_errors());
}

#[test]
fn redeclaration_reports_one_error() {
    let l = lint_src("HAI 1.2\nI HAS A X\nI HAS A X\nVISIBLE X\nKTHXBYE\n");
    assert_eq!(l.errors.len(), 1);
    assert!(l.errors[0].contains("declared twice"));
    assert!(l.errors[0].contains("X"));
    assert_eq!(l.errors[0], "error: variable 'X' declared twice (line 3, column 1)");
    assert!(l.has_errors());
}

#[test]
fn initialised_and_read_variable_is_clean() {
    let l = lint_src("HAI 1.2\nI HAS A X ITZ 5\nVISIBLE X\nKTHXBYE\n");
    assert!(l.errors.is_empty());
    assert!(!l.warnings.iter().any(|w| w.contains("never used")));
}

#[test]
fn unused_variable_gets_one_warning() {
    let l = lint_src("HAI 1.2\nI HAS A X\nKTHXBYE\n");
    assert!(l.errors.is_empty());
    assert_eq!(l.warnings, vec!["warning: variable 'X' declared but never used".to_string()]);
}

#[test]
fn unused_warnings_follow_declaration_order() {
    let l = lint_src("HAI 1.2\nI HAS A B\nI HAS A C\nKTHXBYE\n");
    assert_eq!(
        l.warnings,
        vec![
            "warning: variable 'B' declared but never used".to_string(),
            "warning: variable 'C' declared but never used".to_string(),
        ]
    );
}

#[test]
fn both_saem_equal_numbers_always_true() {
    let l = lint_src("HAI 1.2\nBOTH SAEM 5 AN 5\nKTHXBYE\n");
    assert_eq!(l.warnings, vec!["warning: BOTH SAEM 5 AN 5 is always true (line 2, column 1)".to_string()]);
}

#[test]
fn both_saem_different_numbers_always_false() {
    let l = lint_src("HAI 1.2\nBOTH SAEM 5 AN 6\nKTHXBYE\n");
    assert_eq!(l.warnings, vec!["warning: BOTH SAEM 5 AN 6 is always false (line 2, column 1)".to_string()]);
}

#[test]
fn diffrint_equal_numbers_always_false() {
    let l = lint_src("HAI 1.2\nDIFFRINT 5 AN 5\nKTHXBYE\n");
    assert_eq!(l.warnings, vec!["warning: DIFFRINT 5 AN 5 is always false (line 2, column 1)".to_string()]);
}

#[test]
fn diffrint_different_numbers_always_true() {
    let l = lint_src("HAI 1.2\nDIFFRINT 5 AN 6\nKTHXBYE\n");
    assert_eq!(l.warnings, vec!["warning: DIFFRINT 5 AN 6 is always true (line 2, column 1)".to_string()]);
}

#[test]
fn both_saem_strings_are_quoted() {
    let l = lint_src("HAI 1.2\nBOTH SAEM \"a\" AN \"b\"\nKTHXBYE\n");
    assert_eq!(
        l.warnings,
        vec!["warning: BOTH SAEM \"a\" AN \"b\" is always false (line 2, column 1)".to_string()]
    );
}

#[test]
fn both_saem_win_win_always_true() {
    let l = lint_src("HAI 1.2\nBOTH SAEM WIN AN WIN\nKTHXBYE\n");
    assert_eq!(l.errors.len(), 2);
    assert_eq!(l.warnings, vec!["warning: BOTH SAEM WIN AN WIN is always true (line 2, column 1)".to_string()]);
}

#[test]
fn diffrint_strings_and_constants_are_folded() {
    let l = lint_src("HAI 1.2\nDIFFRINT \"a\" AN \"a\"\nDIFFRINT FAIL AN FAIL\nKTHXBYE\n");
    assert_eq!(
        l.warnings,
        vec![
            "warning: DIFFRINT \"a\" AN \"a\" is always false (line 2, column 1)".to_string(),
            "warning: DIFFRINT FAIL AN FAIL is always false (line 3, column 1)".to_string(),
        ]
    );
}

#[test]
fn tldr_followed_by_digit_does_not_close() {
    let tokens = lex("OBTW x TLDR5 y TLDR Z");
    assert_eq!(tokens[0].kind, TokenKind::Comment(" x TLDR5 y ".to_string()));
    assert_eq!(tokens[1].kind, TokenKind::Identifier("Z".to_string()));
}

#[test]
fn mixed_operands_are_not_folded() {
    let l = lint_src("HAI 1.2\nBOTH SAEM 5 AN \"5\"\nDIFFRINT \"a\" AN 1\nBOTH SAEM WIN AN FAIL\nKTHXBYE\n");
    assert!(l.warnings.is_empty());
}

#[test]
fn empty_conditional_warns_twice_in_order() {
    let l = lint_src("HAI 1.2\nO RLY?\nYA RLY\nOIC\nKTHXBYE\n");
    assert_eq!(
        l.warnings,
        vec![
            "warning: YA RLY block is empty (line 2, column 1)".to_string(),
            "warning: O RLY? without NO WAI branch (line 2, column 1)".to_string(),
        ]
    );
}

#[test]
fn conditional_with_else_branch() {
    let program = parse_src("HAI 1.2\nI HAS A X\nO RLY?\n\nYA RLY\nVISIBLE X\nNO WAI\nX R 2\nOIC\nKTHXBYE\n").unwrap();
    assert_eq!(program.body.statements.len(), 2);
    match &program.body.statements[1] {
        Statement::ORly { ya_rly, no_wai, .. } => {
            assert_eq!(ya_rly.statements.len(), 1);
            assert_eq!(no_wai.as_ref().unwrap().statements.len(), 1);
        }
        _ => panic!("expected a conditional"),
    }
    let l = Linter::lint(&program);
    assert!(l.errors.is_empty());
    assert!(l.warnings.is_empty());
}

#[test]
fn empty_loop_warns() {
    let l = lint_src("HAI 1.2\nIM IN YR LOOP\nIM OUTTA YR LOOP\nKTHXBYE\n");
    assert_eq!(l.warnings, vec!["warning: empty loop body (line 2, column 1)".to_string()]);
}

#[test]
fn loop_without_closer_runs_to_end_of_input() {
    let mut parser = Parser::new(lex("HAI 1.2\nIM IN YR LOOP\nVISIBLE 1\n"));
    let r = parser.parse_program();
    let e = r.unwrap_err();
    assert!(e.message.contains("KTHXBYE"));
}

#[test]
fn minimal_program_parses_and_is_clean() {
    let program = parse_src("HAI 1.2\nKTHXBYE").unwrap();
    assert_eq!(program.version, "1.2");
    assert!(program.body.statements.is_empty());
    let l = Linter::lint(&program);
    assert!(l.errors.is_empty());
    assert!(l.warnings.is_empty());
}

#[test]
fn version_defaults_when_absent() {
    let program = parse_src("HAI\nKTHXBYE").unwrap();
    assert_eq!(program.version, "1.2");
    let program = parse_src("HAI 1.3\nKTHXBYE").unwrap();
    assert_eq!(program.version, "1.3");
}

#[test]
fn missing_kthxbye_fails_at_end_of_input() {
    let r = parse_src("HAI 1.2\nI HAS A X ITZ 1\nVISIBLE X\n");
    let e = r.unwrap_err();
    assert_eq!(e.message, "Expected 'KTHXBYE' at end of program (at end of file)");
    assert_eq!((e.line, e.column), (0, 0));
}

#[test]
fn missing_hai_fails() {
    let e = parse_src("VISIBLE 1\nKTHXBYE").unwrap_err();
    assert_eq!(e.message, "Expected 'HAI', but found Keyword(\"VISIBLE\")");
    assert_eq!((e.line, e.column), (1, 1));
}

#[test]
fn declaration_needs_identifier() {
    let e = parse_src("HAI 1.2\nI HAS A 5\nKTHXBYE").unwrap_err();
    assert_eq!(e.message, "Expected identifier after I HAS A");
    assert_eq!((e.line, e.column), (2, 9));
}

#[test]
fn expression_must_end_its_line() {
    let e = parse_src("HAI 1.2\nI HAS A X ITZ 1 2\nKTHXBYE").unwrap_err();
    assert_eq!(e.message, "Expected newline after expression, found Number(\"2\")");
    assert_eq!((e.line, e.column), (2, 17));
}

#[test]
fn conditional_needs_oic() {
    let e = parse_src("HAI 1.2\nO RLY?\nYA RLY\nVISIBLE 1\nKTHXBYE").unwrap_err();
    assert_eq!(e.message, "Expected 'OIC', but reached end of file (at end of file)");
}

#[test]
fn conditional_needs_ya_rly() {
    let e = parse_src("HAI 1.2\nO RLY?\nVISIBLE 1\nOIC\nKTHXBYE").unwrap_err();
    assert_eq!(e.message, "Expected YA RLY after O RLY?");
    assert_eq!((e.line, e.column), (3, 1));
}

#[test]
fn operator_needs_of() {
    let e = parse_src("HAI 1.2\nSUM 1 AN 2\nKTHXBYE").unwrap_err();
    assert_eq!(e.message, "Expected 'OF', but found Number(\"1\")");
    assert_eq!((e.line, e.column), (2, 5));
}

#[test]
fn bad_token_in_expression() {
    let e = parse_src("HAI 1.2\nVISIBLE HAS\nKTHXBYE").unwrap_err();
    assert_eq!(e.message, "Unexpected token in expression: Keyword(\"HAS\")");
}

#[test]
fn unknown_statement_tokens_are_skipped() {
    let program = parse_src("HAI 1.2\nGIMMEH X\n5\nKTHXBYE").unwrap();
    assert!(program.body.statements.is_empty());
}

#[test]
fn nested_expression_tree() {
    let program = parse_src("HAI 1.2\nI HAS A X ITZ SUM OF PRODUKT OF 2 AN 3 AN 4\nVISIBLE X \"s\"\nKTHXBYE").unwrap();
    match &program.body.statements[0] {
        Statement::Declaration { name, value: Some(Expression::Sum { left, right, .. }), .. } => {
            assert_eq!(name, "X");
            assert!(matches!(**left, Expression::Produkt { .. }));
            assert!(matches!(&**right, Expression::Number(n, _) if n == "4"));
        }
        _ => panic!("expected a declaration with a sum"),
    }
    match &program.body.statements[1] {
        Statement::Visible { expressions, .. } => assert_eq!(expressions.len(), 2),
        _ => panic!("expected VISIBLE"),
    }
}

#[test]
fn parse_function_matches_parser() {
    let program = parse(lex("HAI 1.2\nKTHXBYE")).unwrap();
    assert_eq!(program.version, "1.2");
}

#[test]
fn undeclared_use_and_assignment_errors() {
    let l = lint_src("HAI 1.2\nVISIBLE Y\nZ R 1\nKTHXBYE");
    assert_eq!(
        l.errors,
        vec![
            "error: use of undeclared variable 'Y' (line 2, column 9)".to_string(),
            "error: assignment to undeclared variable 'Z' (line 3, column 1)".to_string(),
        ]
    );
}

#[test]
fn expression_statement_reads_variables() {
    let l = lint_src("HAI 1.2\nI HAS A X\nSUM OF X AN 1\nKTHXBYE");
    assert!(l.errors.is_empty());
    assert!(l.warnings.is_empty());
}

#[test]
fn significant_lexemes_in_source_order() {
    let tokens = lex("HAI 1.2\nI HAS A X ITZ \"hi there\" BTW note\nKTHXBYE");
    assert_eq!(
        significant_texts(&tokens),
        vec!["HAI", "1.2", "I", "HAS", "A", "X", "ITZ", "hi there", "KTHXBYE"]
    );
}

#[test]
fn newline_token_takes_position_after_break() {
    let tokens = lex("C\nB");
    assert_eq!(tokens.len(), 3);
    assert_eq!(tokens[0], Token::new(TokenKind::Identifier("C".to_string()), 1, 1));
    assert_eq!(tokens[1], Token::new(TokenKind::Newline, 2, 1));
    assert_eq!(tokens[2], Token::new(TokenKind::Identifier("B".to_string()), 2, 1));
}

#[test]
fn keywords_and_identifiers() {
    let tokens = lex("O RLY? OUTTA x1 rly");
    assert_eq!(tokens[0].kind, TokenKind::Keyword("O".to_string()));
    assert_eq!(tokens[1].kind, TokenKind::Keyword("RLY?".to_string()));
    assert_eq!(tokens[2].kind, TokenKind::Identifier("OUTTA".to_string()));
    assert_eq!(tokens[3].kind, TokenKind::Identifier("x1".to_string()));
    assert_eq!(tokens[4].kind, TokenKind::Identifier("rly".to_string()));
    assert!(Token::is_keyword("TLDR"));
    assert!(!Token::is_keyword("OUTTA"));
}

#[test]
fn single_line_comment_case_insensitive() {
    let tokens = lex("btw hello\nBTWX");
    assert_eq!(tokens[0], Token::new(TokenKind::Comment(" hello".to_string()), 1, 1));
    assert_eq!(tokens[1].kind, TokenKind::Newline);
    assert_eq!(tokens[2].kind, TokenKind::Identifier("BTWX".to_string()));
}

#[test]
fn multi_line_comment_tracks_lines() {
    let tokens = lex("OBTW a\nb tldr X");
    assert_eq!(tokens[0], Token::new(TokenKind::Comment(" a\nb ".to_string()), 1, 1));
    assert_eq!(tokens[1], Token::new(TokenKind::Identifier("X".to_string()), 2, 8));
    assert_eq!(tokens.len(), 2);
}

#[test]
fn unterminated_multi_line_comment_runs_to_end() {
    let tokens = lex("OBTW never closed\nI HAS A");
    assert_eq!(tokens.len(), 1);
    assert_eq!(tokens[0].kind, TokenKind::Comment(" never closed\nI HAS A".to_string()));
}

#[test]
fn unterminated_string_runs_to_end() {
    let tokens = lex("\"abc\ndef");
    assert_eq!(tokens, vec![Token::new(TokenKind::StringLiteral("abc\ndef".to_string()), 1, 1)]);
}

#[test]
fn numbers_keep_their_text_and_unknown_chars_vanish() {
    let tokens = lex("1.2.3 + ,x");
    assert_eq!(tokens[0].kind, TokenKind::Number("1.2.3".to_string()));
    assert_eq!(tokens[1], Token::new(TokenKind::Identifier("x".to_string()), 1, 10));
    assert_eq!(tokens.len(), 2);
}

#[test]
fn non_ascii_source_is_read_by_characters() {
    let tokens = lex("\u{e9}\u{e9} \"\u{e9}t\u{e9}\" X");
    assert_eq!(tokens[0], Token::new(TokenKind::StringLiteral("\u{e9}t\u{e9}".to_string()), 1, 4));
    assert_eq!(tokens[1], Token::new(TokenKind::Identifier("X".to_string()), 1, 10));
}

#[test]
fn empty_source_has_no_tokens() {
    assert!(lex("").is_empty());
}

#[test]
fn comment_after_visible_expression_fails() {
    let e = parse_src("HAI 1.2\nVISIBLE 1 BTW hi\nKTHXBYE").unwrap_err();
    assert_eq!(e.message, "Unexpected token after expression in VISIBLE: Comment(\" hi\")");
    assert_eq!((e.line, e.column), (2, 11));
}

#[test]
fn statement_level_failures_name_the_token_found() {
    let mut p = Parser::new(lex("HAI\nI HAS A X ITZ 5 6\nKTHXBYE"));
    let e = p.parse_program().unwrap_err();
    assert_eq!(e.message, "Expected newline after expression, found Number(\"6\")");
    assert_eq!((e.line, e.column), (2, 17));
}

#[test]
fn expression_at_end_of_input_fails() {
    let e = parse_src("HAI 1.2\nVISIBLE").unwrap_err();
    assert_eq!(e.message, "unexpected EOF in expression");
    assert_eq!((e.line, e.column), (0, 0));
}

#[test]
fn token_kinds_are_described() {
    assert_eq!(TokenKind::Number("1".to_string()).describe(), "Number(\"1\")");
    assert_eq!(TokenKind::Keyword("OF".to_string()).describe(), "Keyword(\"OF\")");
    assert_eq!(TokenKind::Identifier("X".to_string()).describe(), "Identifier(\"X\")");
    assert_eq!(TokenKind::StringLiteral("s".to_string()).describe(), "StringLiteral(\"s\")");
    assert_eq!(TokenKind::Comment("c".to_string()).describe(), "Comment(\"c\")");
    assert_eq!(TokenKind::Newline.describe(), "Newline");
}

#[test]
fn lexemes_concatenate_to_source_without_quotes_and_spaces() {
    let src = "HAI 1.2\nI HAS A X ITZ \"a b\"\nVISIBLE X 3\nKTHXBYE";
    let joined: String = significant_texts(&lex(src)).concat();
    assert_eq!(joined, "HAI1.2IHASAXITZa bVISIBLEX3KTHXBYE");
}

#[test]
fn descriptions_match_debug_formatting() {
    let kinds = vec![
        TokenKind::Number("1".to_string()),
        TokenKind::Comment(" a\"b\\c\nd\t".to_string()),
        TokenKind::StringLiteral("\u{7}x'y".to_string()),
        TokenKind::Newline,
    ];
    for k in &kinds {
        assert_eq!(k.describe(), format!("{:?}", k));
    }
    assert_eq!(
        TokenKind::Comment("a\"b\n".to_string()).describe(),
        "Comment(\"a\\\"b\\n\")"
    );
    assert_eq!(TokenKind::Number("1".to_string()).describe_with("[q]"), "Number([q])");
    assert_eq!(TokenKind::Newline.name(), "Newline");
}

#[test]
fn bare_expression_must_end_its_line() {
    let e = parse_src("HAI 1.2\nSUM OF 1 AN 2 3\nKTHXBYE").unwrap_err();
    assert_eq!(e.message, "Expected newline after expression statement, found Number(\"3\")");
    assert_eq!((e.line, e.column), (2, 15));
}

#[test]
fn ya_needs_rly() {
    let e = parse_src("HAI 1.2\nO RLY?\nYA 1\nOIC\nKTHXBYE").unwrap_err();
    assert_eq!(e.message, "Expected RLY after YA");
    assert_eq!((e.line, e.column), (3, 1));
}

#[test]
fn comments_may_precede_ya_rly() {
    let program = parse_src("HAI 1.2\nO RLY? BTW check\nOBTW more TLDR\nYA RLY\nVISIBLE 1\nNO WAI\nVISIBLE 2\nOIC\nKTHXBYE").unwrap();
    assert_eq!(program.body.statements.len(), 1);
}

#[test]
fn missing_keyword_at_end_of_input() {
    let e = parse_src("").unwrap_err();
    assert_eq!(e.message, "Expected 'HAI', but reached end of file (at end of file)");
    assert_eq!((e.line, e.column), (0, 0));
}

#[test]
fn lexer_exposes_its_cursor() {
    let mut lexer = Lexer::new("A1\nB".to_string());
    assert_eq!((lexer.position(), lexer.line(), lexer.column()), (0, 1, 1));
    let _ = lexer.tokenize();
    assert_eq!(lexer.source(), "A1\nB");
    assert_eq!((lexer.position(), lexer.line(), lexer.column()), (4, 2, 2));
}

#[test]
fn trees_clone_to_equal_trees() {
    let program = parse_src("HAI 1.2\nI HAS A X ITZ SUM OF 1 AN X\nO RLY?\nYA RLY\nVISIBLE X \"s\"\nOIC\nIM IN YR LOOP\nX R 2\nIM OUTTA YR LOOP\nKTHXBYE").unwrap();
    let copy = program.clone();
    assert_eq!(copy, program);
}
