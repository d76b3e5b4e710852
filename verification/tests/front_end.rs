use expr_front::expression::Expression;
use expr_front::parser::{Parser, ParserError};
use expr_front::expression::Path;
use expr_front::token::{
    Comment, Keyword, Literal, NumberLiteral, Operator, Punctuation, TokenType,
};
use expr_front::tokenizer::{Tokenizer, TokenizerError};
use expr_front::{DiagnosticLevel, DiagnosticType, Source};

fn tokens_of(text: &str) -> Vec<Result<expr_front::token::Token, TokenizerError>> {
    let source = Source::new("test", text);
    let mut tk = Tokenizer::new(source);
    let mut out = Vec::new();
    while let Some(item) = tk.next_token() {
        out.push(item);
    }
    out
}

fn parse(text: &str) -> Result<Expression, ParserError> {
    let source = Source::new("test", text);
    let tk = Tokenizer::new(source);
    let mut parser = Parser::new(tk);
    parser.expr()
}

fn rendered(text: &str) -> String {
    parse(text).expect("parse failed").render()
}

#[test]
fn integer_literal_base10_with_separators() {
    let ts = tokens_of("1_234_567");
    assert_eq!(ts.len(), 1);
    let t = ts[0].as_ref().unwrap();
    match t.ty() {
        TokenType::Literal(Literal::Number(NumberLiteral::Integer(v))) => {
            assert_eq!(*v, 1234567)
        }
        other => panic!("not an integer literal: {other:?}"),
    }
}

#[test]
fn integer_literal_plain() {
    let ts = tokens_of("42");
    let t = ts[0].as_ref().unwrap();
    match t.ty() {
        TokenType::Literal(Literal::Number(NumberLiteral::Integer(v))) => assert_eq!(*v, 42),
        other => panic!("not an integer literal: {other:?}"),
    }
}

#[test]
fn real_literal_keeps_fraction_digits() {
    let ts = tokens_of("3.14");
    let t = ts[0].as_ref().unwrap();
    match t.ty() {
        TokenType::Literal(Literal::Number(NumberLiteral::Real(r))) => {
            assert_eq!(r.int_part, 3);
            assert_eq!(r.frac_digits, vec![1, 4]);
        }
        other => panic!("not a real literal: {other:?}"),
    }
}

#[test]
fn real_literal_with_separators() {
    let ts = tokens_of("1_000.2_5");
    let t = ts[0].as_ref().unwrap();
    match t.ty() {
        TokenType::Literal(Literal::Number(NumberLiteral::Real(r))) => {
            assert_eq!(r.int_part, 1000);
            assert_eq!(r.frac_digits, vec![2, 5]);
        }
        other => panic!("not a real literal: {other:?}"),
    }
}

#[test]
fn balanced_nested_comment_single_token_no_diagnostics() {
    let source = Source::new("test", "/* a /* nested */ b */");
    let mut tk = Tokenizer::new(source);
    tk.emit_comments = true;
    let first = tk.next_token();
    match first {
        Some(Ok(t)) => {
            assert!(matches!(t.ty(), TokenType::Comment(Comment::MultiLine)));
            assert_eq!(t.position().absolute_position(), 0);
            let text: String = t.text().iter().collect();
            assert_eq!(text, "/* a /* nested */ b */");
        }
        other => panic!("expected a comment token, got {other:?}"),
    }
    assert!(tk.next_token().is_none());
    assert_eq!(tk.diagnostics().len(), 0);
}

#[test]
fn balanced_comment_suppressed_by_default() {
    let source = Source::new("test", "/* a /* nested */ b */");
    let mut tk = Tokenizer::new(source);
    assert!(tk.next_token().is_none());
    assert_eq!(tk.diagnostics().len(), 0);
}

#[test]
fn unclosed_comment_yields_one_diagnostic_and_no_error() {
    let source = Source::new("test", "/* never closed");
    let mut tk = Tokenizer::new(source);
    assert!(tk.next_token().is_none());
    assert_eq!(tk.diagnostics().len(), 1);
    let d = &tk.diagnostics()[0];
    assert!(matches!(d.ty(), DiagnosticType::UnclosedMultilineComment));
    assert!(matches!(d.ty().level(), DiagnosticLevel::Info));
    assert_eq!(d.position().absolute_position(), 0);
    assert_eq!(d.position().line(), 1);
}

#[test]
fn unclosed_comment_token_still_produced_when_emitted() {
    let source = Source::new("test", "/* open");
    let mut tk = Tokenizer::new(source);
    tk.emit_comments = true;
    match tk.next_token() {
        Some(Ok(t)) => assert!(matches!(t.ty(), TokenType::Comment(Comment::MultiLine))),
        other => panic!("expected a comment token, got {other:?}"),
    }
    assert_eq!(tk.diagnostics().len(), 1);
}

#[test]
fn unterminated_string_fails() {
    let ts = tokens_of("\"abc");
    assert!(matches!(ts[0], Err(TokenizerError::UnfinishedString)));
}

#[test]
fn unterminated_char_fails() {
    let ts = tokens_of("'a");
    assert!(matches!(ts[0], Err(TokenizerError::UnfinishedChar)));
}

#[test]
fn string_escapes_translate() {
    let ts = tokens_of("\"a\\nb\\tc\\\\d\"");
    let t = ts[0].as_ref().unwrap();
    match t.ty() {
        TokenType::Literal(Literal::String(v)) => {
            let s: String = v.iter().collect();
            assert_eq!(s, "a\nb\tc\\d");
        }
        other => panic!("not a string literal: {other:?}"),
    }
}

#[test]
fn char_literal_simple_and_escaped() {
    let ts = tokens_of("'x'");
    match ts[0].as_ref().unwrap().ty() {
        TokenType::Literal(Literal::Char(c)) => assert_eq!(*c, 'x'),
        other => panic!("not a char literal: {other:?}"),
    }
    let ts = tokens_of("'\\''");
    match ts[0].as_ref().unwrap().ty() {
        TokenType::Literal(Literal::Char(c)) => assert_eq!(*c, '\''),
        other => panic!("not a char literal: {other:?}"),
    }
}

#[test]
fn unexpected_character_fails() {
    let ts = tokens_of("`");
    assert!(matches!(ts[0], Err(TokenizerError::Unexpected('`'))));
}

#[test]
fn keyword_underscore_and_identifier() {
    let ts = tokens_of("_ _x");
    assert!(matches!(
        ts[0].as_ref().unwrap().ty(),
        TokenType::Keyword(Keyword::Underscore)
    ));
    assert!(matches!(ts[1].as_ref().unwrap().ty(), TokenType::Identifier));
}

#[test]
fn scope_separator_lexes_as_one_token() {
    let ts = tokens_of("::");
    assert!(matches!(
        ts[0].as_ref().unwrap().ty(),
        TokenType::Punctuation(Punctuation::DoubleColon)
    ));
}

#[test]
fn greedy_operator_match() {
    let ts = tokens_of("**= << >>= .. ...");
    assert!(matches!(
        ts[0].as_ref().unwrap().ty(),
        TokenType::Operator(Operator::DoubleStarEquals)
    ));
    assert!(matches!(
        ts[1].as_ref().unwrap().ty(),
        TokenType::Operator(Operator::LeftShift)
    ));
    assert!(matches!(
        ts[2].as_ref().unwrap().ty(),
        TokenType::Operator(Operator::RightShiftEquals)
    ));
    assert!(matches!(
        ts[3].as_ref().unwrap().ty(),
        TokenType::Punctuation(Punctuation::DoubleDot)
    ));
    assert!(matches!(
        ts[4].as_ref().unwrap().ty(),
        TokenType::Punctuation(Punctuation::TripleDot)
    ));
}

#[test]
fn positions_track_lines_and_columns() {
    let ts = tokens_of("a\nbb cc");
    let a = ts[0].as_ref().unwrap();
    assert_eq!(a.position().absolute_position(), 0);
    assert_eq!(a.position().line(), 1);
    assert_eq!(a.position().column(), 1);
    let bb = ts[1].as_ref().unwrap();
    assert_eq!(bb.position().absolute_position(), 2);
    assert_eq!(bb.position().line(), 2);
    assert_eq!(bb.position().column(), 1);
    let cc = ts[2].as_ref().unwrap();
    assert_eq!(cc.position().line(), 2);
    assert_eq!(cc.position().column(), 4);
}

#[test]
fn whitespace_emitted_on_request() {
    let source = Source::new("test", "a b");
    let mut tk = Tokenizer::new(source);
    tk.emit_whitespace = true;
    let t1 = tk.next_token().unwrap().unwrap();
    assert!(matches!(t1.ty(), TokenType::Identifier));
    let t2 = tk.next_token().unwrap().unwrap();
    assert!(matches!(t2.ty(), TokenType::Whitespace));
}

#[test]
fn precedence_star_over_plus() {
    assert_eq!(rendered("1 + 2 * 3"), "(1 + (2 * 3))");
}

#[test]
fn parentheses_override_precedence() {
    assert_eq!(rendered("(1 + 2) * 3"), "((1 + 2) * 3)");
}

#[test]
fn path_call_with_arguments() {
    let e = parse("a::b::c(1, 2)").unwrap();
    match &e {
        Expression::Call {
            function,
            arguments,
        } => {
            let head: String = function.head.iter().collect();
            assert_eq!(head, "a");
            let tail: Vec<String> = function
                .tail
                .as_ref()
                .unwrap()
                .iter()
                .map(|s| s.iter().collect())
                .collect();
            assert_eq!(tail, vec!["b".to_string(), "c".to_string()]);
            assert_eq!(arguments.len(), 2);
        }
        other => panic!("expected a call, got {other:?}"),
    }
    assert_eq!(e.render(), "(a::b::c(1, 2))");
}

#[test]
fn index_expression() {
    let e = parse("a[0]").unwrap();
    match &e {
        Expression::Index { expr, with } => {
            assert!(matches!(**expr, Expression::Name(_)));
            assert!(matches!(**with, Expression::Lit { .. }));
        }
        other => panic!("expected an index, got {other:?}"),
    }
    assert_eq!(e.render(), "(a[0])");
}

#[test]
fn prefix_minus_binds_tighter_than_plus() {
    assert_eq!(rendered("-1 + 2"), "((-1) + 2)");
}

#[test]
fn postfix_bang() {
    assert_eq!(rendered("x! + 1"), "((x!) + 1)");
}

#[test]
fn round_trip_structure_preserved() {
    for text in [
        "1 + 2 * 3",
        "(1 + 2) * 3",
        "a::b::c(1, 2)",
        "a[0]",
        "-1 + 2",
        "f(g(1), h::i(2, 3)[4])",
        "1 / 2 - 3",
    ] {
        let first = parse(text).unwrap();
        let second = parse(&first.render()).unwrap();
        assert_eq!(first, second, "round trip changed {text}");
    }
}

#[test]
fn empty_input_is_unexpected_end() {
    assert!(matches!(parse(""), Err(ParserError::UnexpectedEnd)));
}

#[test]
fn stray_right_paren_is_unexpected() {
    match parse(")") {
        Err(ParserError::Unexpected { expected, .. }) => {
            assert_eq!(expected, "a literal or an identifier")
        }
        other => panic!("expected a parse error, got {other:?}"),
    }
}

#[test]
fn missing_right_paren_is_unexpected() {
    match parse("(1 + 2") {
        Err(ParserError::Unexpected { found, expected }) => {
            assert!(found.is_none());
            assert_eq!(expected, "a matching right parenthesis");
        }
        other => panic!("expected a parse error, got {other:?}"),
    }
}

#[test]
fn missing_right_square_is_unexpected() {
    match parse("a[1") {
        Err(ParserError::Unexpected { found, expected }) => {
            assert!(found.is_none());
            assert_eq!(expected, "a matching right square bracket");
        }
        other => panic!("expected a parse error, got {other:?}"),
    }
}

#[test]
fn undefined_infix_precedence_is_an_error() {
    match parse("1 == 2") {
        Err(ParserError::Unexpected { expected, .. }) => {
            assert_eq!(expected, "an operator with a defined binding power")
        }
        other => panic!("expected a parse error, got {other:?}"),
    }
}

#[test]
fn dangling_scope_separator_is_an_error() {
    match parse("a::") {
        Err(ParserError::Unexpected { expected, .. }) => {
            assert_eq!(expected, "an identifier after the scope separator")
        }
        other => panic!("expected a parse error, got {other:?}"),
    }
}

#[test]
fn lexical_error_propagates_through_parser() {
    assert!(matches!(
        parse("1 + \"abc"),
        Err(ParserError::Tokenizer(TokenizerError::UnfinishedString))
    ));
}

#[test]
fn comments_are_skipped_inside_expressions() {
    assert_eq!(rendered("1 + /* comment */ 2"), "(1 + 2)");
    assert_eq!(rendered("1 + // rest\n2"), "(1 + 2)");
}

#[test]
fn hand_built_expression_renders() {
    let call = Expression::Call {
        function: Path::new("f".chars().collect(), None),
        arguments: vec![
            Expression::Lit {
                value: Literal::Number(NumberLiteral::Integer(7)),
            },
            Expression::Name(Path::new("x".chars().collect(), None)),
        ],
    };
    assert_eq!(call.render(), "(f(7, x))");
    let empty_call = Expression::Call {
        function: Path::new("g".chars().collect(), None),
        arguments: vec![],
    };
    assert_eq!(empty_call.render(), "(g())");
}

#[test]
fn literal_rendering_forms() {
    let ts = tokens_of("\"hi\" 'c' 2.50");
    let mut lits = Vec::new();
    for t in &ts {
        if let TokenType::Literal(l) = t.as_ref().unwrap().ty() {
            lits.push(Expression::Lit { value: l.clone() });
        }
    }
    assert_eq!(lits[0].render(), "\"hi\"");
    assert_eq!(lits[1].render(), "'c'");
    assert_eq!(lits[2].render(), "2.50");
}

#[test]
fn source_accessors() {
    let s = Source::new("name.txt", "1 + 2");
    assert_eq!(s.name(), "name.txt");
    assert_eq!(s.text(), "1 + 2");
}

#[test]
fn diagnostics_accumulate_in_scan_order() {
    let source = Source::new("test", "1 /* one /* \n 2 ");
    let tk = Tokenizer::new(source);
    let mut parser = Parser::new(tk);
    let e = parser.expr().unwrap();
    assert_eq!(e.render(), "1");
    // pulling further tokens runs into the unclosed comment
    assert!(matches!(parser.expr(), Err(ParserError::UnexpectedEnd)));
    assert_eq!(parser.diagnostics().len(), 1);
    assert_eq!(parser.diagnostics()[0].position().absolute_position(), 2);
}
