use rlisp::lexer::{Token, TokenInfo, tokenify};
use rlisp::ast::{ASTNode, ASTValue};
use rlisp::parser::{ParseError, equals, expr, id, match_next, number, parse, string};
use rlisp::types::Literal;

fn kinds(toks: &[TokenInfo]) -> Vec<Token> {
    toks.iter().map(|t| t.token).collect()
}

fn ast_eq(a: &ASTNode, b: &ASTNode) -> bool {
    match (a, b) {
        (ASTNode::Expression(x), ASTNode::Expression(y)) => {
            x.len() == y.len() && x.iter().zip(y.iter()).all(|(p, q)| ast_eq(p, q))
        },
        (ASTNode::Equals(n1, v1), ASTNode::Equals(n2, v2)) => n1 == n2 && val_eq(v1, v2),
        (ASTNode::Number(x), ASTNode::Number(y)) => x == y,
        (ASTNode::String(x), ASTNode::String(y)) => x == y,
        (ASTNode::Id(x), ASTNode::Id(y)) => x == y,
        (ASTNode::Literal(x), ASTNode::Literal(y)) => x == y,
        _ => false,
    }
}

fn val_eq(a: &ASTValue, b: &ASTValue) -> bool {
    match (a, b) {
        (ASTValue::Expression(x), ASTValue::Expression(y)) => {
            x.len() == y.len() && x.iter().zip(y.iter()).all(|(p, q)| ast_eq(p, q))
        },
        (ASTValue::Number(x), ASTValue::Number(y)) => x == y,
        (ASTValue::String(x), ASTValue::String(y)) => x == y,
        (ASTValue::Id(x), ASTValue::Id(y)) => x == y,
        (ASTValue::Literal(x), ASTValue::Literal(y)) => x == y,
        _ => false,
    }
}

#[test]
fn tokenize_simple_call() {
    let toks = tokenify("(print (+ 1 2))");
    assert_eq!(
        kinds(&toks),
        vec![
            Token::Open,
            Token::Id,
            Token::Sep,
            Token::Open,
            Token::Id,
            Token::Sep,
            Token::Number,
            Token::Sep,
            Token::Number,
            Token::Close,
            Token::Close,
        ]
    );
    assert_eq!(toks[1].string, "print");
    assert_eq!(toks[4].string, "+");
    assert_eq!(toks[6].string, "1");
}

#[test]
fn tokenize_round_trip_reproduces_source() {
    // Re-concatenating all token slices in order gives back the source,
    // whitespace runs included.
    let cases = [
        "(print (+ 1 2))",
        "  ( = x \t 2 ) \n (y)",
        "\"a b\" 'c d' nil nile 1.5 .5 3. +12 +12ab -5 . = ( ) #",
        "(print \"unterminated",
        "",
        "\n\n\n",
    ];
    for src in cases {
        let toks = tokenify(src);
        let rebuilt: String = toks.iter().map(|t| t.string.as_str()).collect::<Vec<_>>().join("");
        assert_eq!(rebuilt, src);
    }
}

#[test]
fn tokenize_number_and_identifier_priority() {
    let toks = tokenify("1.5 .5 3. +12 +12ab -5 nil nile");
    let filtered: Vec<(Token, String)> = toks
        .iter()
        .filter(|t| t.token != Token::Sep)
        .map(|t| (t.token, t.string.clone()))
        .collect();
    assert_eq!(
        filtered,
        vec![
            (Token::Number, "1.5".to_string()),
            (Token::Number, ".5".to_string()),
            (Token::Number, "3".to_string()),
            (Token::Dot, ".".to_string()),
            (Token::Number, "+12".to_string()),
            (Token::Id, "+12ab".to_string()),
            (Token::Number, "-5".to_string()),
            (Token::Nil, "nil".to_string()),
            (Token::Id, "nile".to_string()),
        ]
    );
}

#[test]
fn tokenize_strings_and_errors() {
    let toks = tokenify("\"a ) b\"\n'c'\n\"open");
    assert_eq!(toks[0].token, Token::String);
    assert_eq!(toks[0].string, "\"a ) b\"");
    assert_eq!(toks[2].token, Token::String);
    assert_eq!(toks[2].string, "'c'");
    // An unterminated quote is a one-character lex-error token.
    assert_eq!(toks[4].token, Token::Error);
    assert_eq!(toks[4].string, "\"");
    assert_eq!(toks[5].token, Token::Id);
    assert_eq!(toks[5].string, "open");
    // A string is a maximal span: it reaches the last matching quote
    // character on its line.
    let greedy = tokenify("\"a\" z \"b\"");
    assert_eq!(greedy[0].token, Token::String);
    assert_eq!(greedy[0].string, "\"a\" z \"b\"");
}

#[test]
fn tokenize_line_numbers_start_at_one_and_grow() {
    let toks = tokenify("(a\nb\n\nc)");
    assert_eq!(toks[0].line, 1); // (
    assert_eq!(toks[1].line, 1); // a
    assert_eq!(toks[2].line, 1); // separator containing the newline starts on line 1
    assert_eq!(toks[3].line, 2); // b
    assert_eq!(toks[5].line, 4); // c
    let lines: Vec<u32> = toks.iter().map(|t| t.line).collect();
    let mut sorted = lines.clone();
    sorted.sort();
    assert_eq!(lines, sorted); // non-decreasing across the stream
}

#[test]
fn token_label_matches_kind() {
    assert_eq!(Token::Open.label(), "(");
    assert_eq!(Token::Error.label(), "ERROR");
    assert_eq!(Token::Nil.label(), "literal");
}

#[test]
fn parse_simple_call() {
    let ast = parse(tokenify("(print (+ 1 2))")).unwrap();
    assert_eq!(ast.len(), 1);
    match &ast[0] {
        ASTNode::Expression(items) => {
            assert_eq!(items.len(), 2);
            assert!(matches!(&items[0], ASTNode::Id(s) if s == "print"));
            match &items[1] {
                ASTNode::Expression(inner) => {
                    assert!(matches!(&inner[0], ASTNode::Id(s) if s == "+"));
                    assert!(matches!(&inner[1], ASTNode::Number(s) if s == "1"));
                    assert!(matches!(&inner[2], ASTNode::Number(s) if s == "2"));
                },
                _ => panic!("expected nested expression"),
            }
        },
        _ => panic!("expected expression"),
    }
}

#[test]
fn parse_full_program_keeps_all_forms() {
    let ast = parse(tokenify("(a) (b) (c)")).unwrap();
    assert_eq!(ast.len(), 3);
    let ast2 = parse(tokenify("")).unwrap();
    assert_eq!(ast2.len(), 0);
}

#[test]
fn parse_is_deterministic() {
    let src = "(= x (+ 1 'two')) (print x) (nil)";
    let a = parse(tokenify(src)).unwrap();
    let b = parse(tokenify(src)).unwrap();
    assert_eq!(a.len(), b.len());
    assert!(a.iter().zip(b.iter()).all(|(p, q)| ast_eq(p, q)));
}

#[test]
fn parse_assignment_binds_identifier_text() {
    let ast = parse(tokenify("(= x 2)")).unwrap();
    match &ast[0] {
        ASTNode::Expression(items) => match &items[0] {
            ASTNode::Equals(name, value) => {
                assert_eq!(name, "x");
                assert!(matches!(value, ASTValue::Number(s) if s == "2"));
            },
            _ => panic!("expected assignment"),
        },
        _ => panic!("expected expression"),
    }
}

#[test]
fn parse_assignment_value_forms() {
    let ast = parse(tokenify("(= a (f 1)) (= b 'txt') (= c d) (= e nil)")).unwrap();
    match &ast[0] {
        ASTNode::Expression(items) => match &items[0] {
            ASTNode::Equals(name, ASTValue::Expression(call)) => {
                assert_eq!(name, "a");
                assert!(matches!(&call[0], ASTNode::Id(s) if s == "f"));
            },
            _ => panic!("expected expression rhs"),
        },
        _ => panic!(),
    }
    match &ast[1] {
        ASTNode::Expression(items) => {
            assert!(matches!(&items[0], ASTNode::Equals(n, ASTValue::String(s)) if n == "b" && s == "txt"))
        },
        _ => panic!(),
    }
    match &ast[2] {
        ASTNode::Expression(items) => {
            assert!(matches!(&items[0], ASTNode::Equals(n, ASTValue::Id(s)) if n == "c" && s == "d"))
        },
        _ => panic!(),
    }
    match &ast[3] {
        ASTNode::Expression(items) => {
            assert!(
                matches!(&items[0], ASTNode::Equals(n, ASTValue::Literal(Literal::Nil)) if n == "e")
            )
        },
        _ => panic!(),
    }
}

#[test]
fn parse_missing_close_reports_open_paren_line() {
    // The unmatched `(` is on line 1.
    match parse(tokenify("(print \"x\"")) {
        Err(ParseError::MissingClose(line)) => assert_eq!(line, 1),
        _ => panic!("expected missing close"),
    }
    // Complete form on line 1, unmatched `(` on line 2.
    match parse(tokenify("(a)\n(b (c)")) {
        Err(ParseError::MissingClose(line)) => assert_eq!(line, 2),
        _ => panic!("expected missing close"),
    }
    // The innermost unmatched `(` is reported: here the nested one on line 3.
    match parse(tokenify("(a\n b\n (c")) {
        Err(ParseError::MissingClose(line)) => assert_eq!(line, 3),
        _ => panic!("expected missing close"),
    }
}

#[test]
fn parse_unexpected_close() {
    match parse(tokenify(") (a)")) {
        Err(ParseError::UnexpectedClose(tok)) => {
            assert_eq!(tok.token, Token::Close);
            assert_eq!(tok.line, 1);
        },
        _ => panic!("expected unexpected close"),
    }
}

#[test]
fn parse_dot_and_lex_error_are_unimplemented_syntax() {
    assert!(matches!(
        parse(tokenify("(a . b)")),
        Err(ParseError::UnimplementedSyntax(_))
    ));
    assert!(matches!(
        parse(tokenify("(a # b)")),
        Err(ParseError::UnimplementedSyntax(_))
    ));
}

#[test]
fn parse_invalid_assignment_values() {
    // The left-hand side must be an identifier.
    assert!(matches!(
        parse(tokenify("(= 5 2)")),
        Err(ParseError::InvalidAssignmentValue(_))
    ));
    // A right-hand side that is itself an assignment is rejected.
    assert!(matches!(
        parse(tokenify("(= x = y 2)")),
        Err(ParseError::InvalidAssignmentValue(_))
    ));
}

#[test]
fn parser_helpers_consume_one_token() {
    let toks = tokenify("x 'ab' 7");
    let (n0, i0) = id(&toks, 0);
    assert!(matches!(n0, ASTNode::Id(s) if s == "x"));
    assert_eq!(i0, 1);
    let (n1, i1) = string(&toks, 2);
    assert!(matches!(n1, ASTNode::String(s) if s == "ab"));
    assert_eq!(i1, 3);
    let (n2, i2) = number(&toks, 4);
    assert!(matches!(n2, ASTNode::Number(s) if s == "7"));
    assert_eq!(i2, 5);
}

#[test]
fn match_next_skips_separators_and_dispatches() {
    let toks = tokenify("  nil");
    let (node, next) = match_next(&toks, 0, 1).unwrap();
    assert!(matches!(node, ASTNode::Literal(Literal::Nil)));
    assert_eq!(next, 2);
}

#[test]
fn expr_parses_nested_form() {
    let toks = tokenify("(a (b) c)");
    let (node, next) = expr(&toks, 0).unwrap();
    match node {
        ASTNode::Expression(items) => assert_eq!(items.len(), 3),
        _ => panic!("expected expression"),
    }
    assert_eq!(next, toks.len());
}

#[test]
fn equals_parses_assignment_at_position() {
    let toks = tokenify("= y 3");
    let (node, _) = equals(&toks, 0, 1).unwrap();
    match node {
        ASTNode::Equals(name, ASTValue::Number(v)) => {
            assert_eq!(name, "y");
            assert_eq!(v, "3");
        },
        _ => panic!("expected assignment"),
    }
}
