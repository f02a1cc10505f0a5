use monkey::ast::{
    Expression, ExpressionStatement, Ident, Infix, InfixOperator, IntegerLiteral, Let, Operator,
    Precedence, Prefix, Program, Return, Statement,
};
use monkey::diagnostic::Diagnostic;
use monkey::grammar::{InfixParser, PrefixParser};
use monkey::lexer::{Lexer, Token, TokenKind};
use monkey::parser::{parse, token_precedence, Parser};

fn name(text: &str) -> Expression {
    Expression::Ident(Ident { value: text.to_string() })
}

fn number(value: u64) -> Expression {
    Expression::IntegerLiteral(IntegerLiteral { value })
}

fn prefix(operator: Operator, right: Expression) -> Expression {
    Expression::Prefix(Prefix { operator, right: Box::new(right) })
}

fn infix(left: Expression, operator: InfixOperator, right: Expression) -> Expression {
    Expression::Infix(Infix { operator, left: Box::new(left), right: Box::new(right) })
}

fn expression_statement(value: Expression) -> Statement {
    Statement::ExpressionStatement(ExpressionStatement { value })
}

fn let_statement(name: &str, value: Expression) -> Statement {
    Statement::Let(Let { name: Ident { value: name.to_string() }, value })
}

fn return_statement(value: Expression) -> Statement {
    Statement::Return(Return { value })
}

fn clean(input: &str) -> Vec<Statement> {
    let (program, diagnostics) = parse(input.to_string());
    assert_eq!(diagnostics, vec![], "diagnostics for {input:?}");
    program.statements
}

#[test]
fn test_let_statements() {
    let input = "\r\n            let x = 5;\r\n            let y = 10;\r\n    \r\n            let foobar = 838383;\r\n        ";

    let identifiers = vec!["x", "y", "foobar"];

    let mut p = Parser::new(Lexer::new(input.into()));
    let program = p.parse_program().expect("parser should produce valid ast");

    assert_eq!(program.statements.len(), 3);

    for (i, stmt) in program.statements.iter().enumerate() {
        println!("{stmt:?}");

        let Statement::Let(s) = stmt else {
            panic!("expected let statement. Found {stmt:?}");
        };
        assert_eq!(s.name.value, identifiers[i]);
    }
}

#[test]
fn test_return_statements() {
    let input = "\r\n            return 5;\r\n            return 10;\r\n            return 993322;\r\n        ";

    let mut p = Parser::new(Lexer::new(input.into()));
    let program = p.parse_program().expect("parser should produce valid ast.");

    assert_eq!(program.statements.len(), 3);

    for stmt in program.statements.iter() {
        println!("{stmt:?}");

        let Statement::Return(_) = stmt else {
            panic!("expected return statement. Found {stmt:?}");
        };
    }
}

#[test]
fn test_identifier_expressions() {
    let input = "\r\n            foobar;\r\n            input\r\n        ";

    let identifiers = vec!["foobar", "input"];

    let mut _l = Lexer::new(input.into());
    let mut _p = Parser::new(_l);
    let program = _p.parse_program().expect("parser should produce valid ast");

    assert_eq!(program.statements.len(), identifiers.len());

    for (i, stmt) in program.statements.iter().enumerate() {
        println!("{stmt:?}");

        let Statement::ExpressionStatement(s) = stmt else {
            panic!("expected expression statement. Found {stmt:?}");
        };

        let Expression::Ident(ref x) = s.value else {
            panic!("expected identifier. found {s:?}");
        };

        assert_eq!(x.value, identifiers[i]);
    }
}

#[test]
fn test_integer_literal_expressions() {
    let input = "\r\n            65;\r\n            4\r\n            75;\r\n        ";

    let numbers = vec![65, 4, 75];

    let mut p = Parser::new(Lexer::new(input.into()));
    let program = p.parse_program().expect("parser should produce valid ast");

    assert_eq!(program.statements.len(), numbers.len());

    for (i, stmt) in program.statements.iter().enumerate() {
        println!("{stmt:?}");

        let Statement::ExpressionStatement(s) = stmt else {
            panic!("expected expression statement. Found {stmt:?}");
        };

        let Expression::IntegerLiteral(ref x) = s.value else {
            panic!("expected integer literal. found {s:?}");
        };

        assert_eq!(x.value, numbers[i]);
    }
}

#[test]
fn let_statements_carry_their_values() {
    let (program, diagnostics) = parse("let x = 5; let y = 10; let foobar = 838383;".to_string());
    assert_eq!(diagnostics, vec![]);
    assert_eq!(
        program,
        Program {
            statements: vec![
                let_statement("x", number(5)),
                let_statement("y", number(10)),
                let_statement("foobar", number(838383)),
            ],
        }
    );
}

#[test]
fn return_statements_carry_their_values() {
    assert_eq!(
        clean("return 5; return 10; return 993322;"),
        vec![
            return_statement(number(5)),
            return_statement(number(10)),
            return_statement(number(993322)),
        ]
    );
}

#[test]
fn trailing_semicolon_is_optional() {
    assert_eq!(
        clean("foobar; input"),
        vec![expression_statement(name("foobar")), expression_statement(name("input"))]
    );
    assert_eq!(clean("let x = 5"), vec![let_statement("x", number(5))]);
    assert_eq!(clean("return x"), vec![return_statement(name("x"))]);
}

#[test]
fn prefix_binds_tighter_than_plus() {
    assert_eq!(
        clean("!a + b"),
        vec![expression_statement(infix(
            prefix(Operator::Bang, name("a")),
            InfixOperator::Plus,
            name("b"),
        ))]
    );
}

#[test]
fn prefix_operators_nest() {
    assert_eq!(
        clean("!-a;"),
        vec![expression_statement(prefix(
            Operator::Bang,
            prefix(Operator::Minus, name("a")),
        ))]
    );
    assert_eq!(
        clean("-5"),
        vec![expression_statement(prefix(Operator::Minus, number(5)))]
    );
}

#[test]
fn product_binds_tighter_than_sum() {
    assert_eq!(
        clean("a + b * c"),
        vec![expression_statement(infix(
            name("a"),
            InfixOperator::Plus,
            infix(name("b"), InfixOperator::Asterisk, name("c")),
        ))]
    );
    assert_eq!(
        clean("a * b + c"),
        vec![expression_statement(infix(
            infix(name("a"), InfixOperator::Asterisk, name("b")),
            InfixOperator::Plus,
            name("c"),
        ))]
    );
}

#[test]
fn operators_of_one_level_group_to_the_left() {
    assert_eq!(
        clean("a - b - c"),
        vec![expression_statement(infix(
            infix(name("a"), InfixOperator::Minus, name("b")),
            InfixOperator::Minus,
            name("c"),
        ))]
    );
    assert_eq!(
        clean("a / b * c"),
        vec![expression_statement(infix(
            infix(name("a"), InfixOperator::Slash, name("b")),
            InfixOperator::Asterisk,
            name("c"),
        ))]
    );
}

#[test]
fn comparison_and_equality_levels() {
    assert_eq!(
        clean("1 + 2 < 3 == 4 > 5 != 6"),
        vec![expression_statement(infix(
            infix(
                infix(infix(number(1), InfixOperator::Plus, number(2)), InfixOperator::Lt, number(3)),
                InfixOperator::Eq,
                infix(number(4), InfixOperator::Gt, number(5)),
            ),
            InfixOperator::NotEq,
            number(6),
        ))]
    );
}

#[test]
fn minus_is_prefix_after_an_operator() {
    assert_eq!(
        clean("a * -b"),
        vec![expression_statement(infix(
            name("a"),
            InfixOperator::Asterisk,
            prefix(Operator::Minus, name("b")),
        ))]
    );
}

#[test]
fn let_value_may_be_any_expression() {
    assert_eq!(
        clean("let total = price * 2 + 1;"),
        vec![let_statement(
            "total",
            infix(
                infix(name("price"), InfixOperator::Asterisk, number(2)),
                InfixOperator::Plus,
                number(1),
            ),
        )]
    );
}

#[test]
fn malformed_let_names_expected_and_actual() {
    let (program, diagnostics) = parse("let = 5;".to_string());
    for statement in program.statements.iter() {
        assert!(!matches!(statement, Statement::Let(_)));
    }
    assert!(!diagnostics.is_empty());
    assert_eq!(
        diagnostics[0],
        Diagnostic::UnexpectedToken { expected: TokenKind::Ident, actual: Token::Assign }
    );
    assert_eq!(diagnostics[0].message(), "expected next token to be IDENT, got = instead");
}

#[test]
fn failed_statement_is_skipped_and_parsing_goes_on() {
    let (program, diagnostics) = parse("let = 5;".to_string());
    assert_eq!(program.statements, vec![expression_statement(number(5))]);
    assert_eq!(
        diagnostics,
        vec![
            Diagnostic::UnexpectedToken { expected: TokenKind::Ident, actual: Token::Assign },
            Diagnostic::NoPrefixParser { kind: TokenKind::Assign },
        ]
    );
}

#[test]
fn let_without_assign() {
    let (program, diagnostics) = parse("let x 5;".to_string());
    assert_eq!(program.statements, vec![expression_statement(number(5))]);
    assert_eq!(
        diagnostics,
        vec![Diagnostic::UnexpectedToken {
            expected: TokenKind::Assign,
            actual: Token::Int("5".into()),
        }]
    );
    assert_eq!(diagnostics[0].message(), "expected next token to be =, got 5 instead");
}

#[test]
fn let_at_the_end_of_input() {
    let (program, diagnostics) = parse("let".to_string());
    assert_eq!(program.statements, vec![]);
    assert_eq!(
        diagnostics,
        vec![Diagnostic::UnexpectedToken { expected: TokenKind::Ident, actual: Token::Eof }]
    );
    assert_eq!(diagnostics[0].message(), "expected next token to be IDENT, got EOF instead");
}

#[test]
fn token_that_starts_no_expression() {
    let (program, diagnostics) = parse(")".to_string());
    assert_eq!(program.statements, vec![]);
    assert_eq!(diagnostics, vec![Diagnostic::NoPrefixParser { kind: TokenKind::Rparen }]);
    assert_eq!(diagnostics[0].message(), "no prefix parse function for ) found");
}

#[test]
fn missing_operand_is_reported() {
    let (program, diagnostics) = parse("a +".to_string());
    assert_eq!(program.statements, vec![]);
    assert_eq!(diagnostics, vec![Diagnostic::NoPrefixParser { kind: TokenKind::Eof }]);
    assert_eq!(diagnostics[0].message(), "no prefix parse function for EOF found");

    let (program, diagnostics) = parse("return;".to_string());
    assert_eq!(program.statements, vec![]);
    assert_eq!(diagnostics, vec![Diagnostic::NoPrefixParser { kind: TokenKind::Semicolon }]);
}

#[test]
fn illegal_token_fails_only_when_an_expression_starts_with_it() {
    let (program, diagnostics) = parse("@".to_string());
    assert_eq!(program.statements, vec![]);
    assert_eq!(diagnostics, vec![Diagnostic::NoPrefixParser { kind: TokenKind::Illegal }]);
    assert_eq!(diagnostics[0].message(), "no prefix parse function for ILLEGAL found");
}

#[test]
fn integer_that_does_not_fit_is_a_diagnostic() {
    let (program, diagnostics) = parse("18446744073709551616; 7".to_string());
    assert_eq!(program.statements, vec![expression_statement(number(7))]);
    assert_eq!(
        diagnostics,
        vec![
            Diagnostic::InvalidInteger { text: "18446744073709551616".into() },
            Diagnostic::NoPrefixParser { kind: TokenKind::Semicolon },
        ]
    );
    assert_eq!(
        diagnostics[0].message(),
        "could not parse 18446744073709551616 as integer"
    );
}

#[test]
fn largest_integer_is_accepted() {
    assert_eq!(
        clean("18446744073709551615"),
        vec![expression_statement(number(u64::MAX))]
    );
}

#[test]
fn opening_parenthesis_continues_no_expression() {
    let (program, diagnostics) = parse("add(1)".to_string());
    assert_eq!(
        program.statements,
        vec![expression_statement(name("add")), expression_statement(number(1))]
    );
    assert_eq!(
        diagnostics,
        vec![
            Diagnostic::NoPrefixParser { kind: TokenKind::Lparen },
            Diagnostic::NoPrefixParser { kind: TokenKind::Rparen },
        ]
    );
}

#[test]
fn empty_source_is_an_empty_program() {
    assert_eq!(clean(""), vec![]);
    assert_eq!(clean("  \n "), vec![]);
}

#[test]
fn lone_semicolons_are_reported() {
    let (program, diagnostics) = parse(";".to_string());
    assert_eq!(program.statements, vec![]);
    assert_eq!(diagnostics, vec![Diagnostic::NoPrefixParser { kind: TokenKind::Semicolon }]);
}

#[test]
fn nothing_is_parsed_after_a_zero_byte() {
    let (program, diagnostics) = parse("1 + \0 2".to_string());
    assert_eq!(program.statements, vec![]);
    assert_eq!(diagnostics, vec![Diagnostic::NoPrefixParser { kind: TokenKind::Eof }]);

    let (program, diagnostics) = parse("return\0 7".to_string());
    assert_eq!(program.statements, vec![]);
    assert_eq!(diagnostics, vec![Diagnostic::NoPrefixParser { kind: TokenKind::Eof }]);
}

#[test]
fn parsing_stops_at_the_first_end_marker_between_statements() {
    let (program, diagnostics) = parse("a; \0 b".to_string());
    assert_eq!(program.statements, vec![expression_statement(name("a"))]);
    assert_eq!(diagnostics, vec![]);
}

#[test]
fn parser_errors_accumulate_in_order() {
    let mut parser = Parser::new(Lexer::new("let 1; let y 2; )".into()));
    assert!(parser.errors().is_empty());
    let program = parser.parse_program().unwrap();
    assert_eq!(
        program.statements,
        vec![expression_statement(number(1)), expression_statement(number(2))]
    );
    assert_eq!(
        parser.errors(),
        &vec![
            Diagnostic::UnexpectedToken {
                expected: TokenKind::Ident,
                actual: Token::Int("1".into()),
            },
            Diagnostic::UnexpectedToken {
                expected: TokenKind::Assign,
                actual: Token::Int("2".into()),
            },
            Diagnostic::NoPrefixParser { kind: TokenKind::Rparen },
        ]
    );
    assert_eq!(parser.into_errors().len(), 3);
}

#[test]
fn parse_program_twice_adds_nothing() {
    let mut parser = Parser::new(Lexer::new("a; b".into()));
    assert_eq!(parser.parse_program().unwrap().statements.len(), 2);
    assert_eq!(parser.parse_program().unwrap().statements.len(), 0);
    assert!(parser.errors().is_empty());
}

#[test]
fn parser_starts_where_the_lexer_stands() {
    let mut lexer = Lexer::new("let x = 5; y".into());
    for _ in 0..5 {
        lexer.next();
    }
    let mut parser = Parser::new(lexer);
    let program = parser.parse_program().unwrap();
    assert_eq!(program.statements, vec![expression_statement(name("y"))]);
}

#[test]
fn registered_prefix_parser_is_used() {
    let mut parser = Parser::new(Lexer::new("+a".into()));
    parser.register_prefix(TokenKind::Plus, PrefixParser::Operator(Operator::Minus));
    let program = parser.parse_program().unwrap();
    assert_eq!(
        program.statements,
        vec![expression_statement(prefix(Operator::Minus, name("a")))]
    );
    assert!(parser.errors().is_empty());
}

#[test]
fn registered_prefix_parser_replaces_the_old_one() {
    let mut parser = Parser::new(Lexer::new("7".into()));
    parser.register_prefix(TokenKind::Int, PrefixParser::Identifier);
    let program = parser.parse_program().unwrap();
    assert_eq!(program.statements, vec![expression_statement(name("7"))]);
}

#[test]
fn identifier_read_as_integer_is_a_diagnostic() {
    let mut parser = Parser::new(Lexer::new("abc".into()));
    parser.register_prefix(TokenKind::Ident, PrefixParser::IntegerLiteral);
    let program = parser.parse_program().unwrap();
    assert_eq!(program.statements, vec![]);
    assert_eq!(parser.errors(), &vec![Diagnostic::InvalidInteger { text: "abc".into() }]);
}

#[test]
fn registered_infix_parser_is_used() {
    let mut parser = Parser::new(Lexer::new("a + b".into()));
    parser.register_infix(TokenKind::Plus, InfixParser::Binary(InfixOperator::Minus));
    let program = parser.parse_program().unwrap();
    assert_eq!(
        program.statements,
        vec![expression_statement(infix(name("a"), InfixOperator::Minus, name("b")))]
    );
}

#[test]
fn infix_parser_for_kind_without_precedence_is_never_reached() {
    let mut parser = Parser::new(Lexer::new("a , b".into()));
    parser.register_infix(TokenKind::Comma, InfixParser::Binary(InfixOperator::Plus));
    let program = parser.parse_program().unwrap();
    assert_eq!(program.statements, vec![expression_statement(name("a")), expression_statement(name("b"))]);
    assert_eq!(parser.errors(), &vec![Diagnostic::NoPrefixParser { kind: TokenKind::Comma }]);
}

#[test]
fn end_marker_never_starts_an_expression() {
    let mut parser = Parser::new(Lexer::new("-".into()));
    parser.register_prefix(TokenKind::Eof, PrefixParser::Identifier);
    let program = parser.parse_program().unwrap();
    assert_eq!(program.statements, vec![]);
    assert_eq!(parser.errors(), &vec![Diagnostic::NoPrefixParser { kind: TokenKind::Eof }]);
}

#[test]
fn precedence_levels_are_totally_ordered() {
    let levels = [
        Precedence::Lowest,
        Precedence::Equals,
        Precedence::LessGreater,
        Precedence::Sum,
        Precedence::Product,
        Precedence::Prefix,
        Precedence::Call,
    ];
    for (i, a) in levels.iter().enumerate() {
        assert_eq!(a.rank() as usize, i + 1);
        for (j, b) in levels.iter().enumerate() {
            assert_eq!(a.below(*b), i < j);
        }
    }
}

#[test]
fn precedence_table() {
    assert_eq!(token_precedence(TokenKind::Eq), Precedence::Equals);
    assert_eq!(token_precedence(TokenKind::NotEq), Precedence::Equals);
    assert_eq!(token_precedence(TokenKind::Lt), Precedence::LessGreater);
    assert_eq!(token_precedence(TokenKind::Gt), Precedence::LessGreater);
    assert_eq!(token_precedence(TokenKind::Plus), Precedence::Sum);
    assert_eq!(token_precedence(TokenKind::Minus), Precedence::Sum);
    assert_eq!(token_precedence(TokenKind::Asterisk), Precedence::Product);
    assert_eq!(token_precedence(TokenKind::Slash), Precedence::Product);
    assert_eq!(token_precedence(TokenKind::Lparen), Precedence::Call);
    assert_eq!(token_precedence(TokenKind::Semicolon), Precedence::Lowest);
    assert_eq!(token_precedence(TokenKind::Ident), Precedence::Lowest);
    assert_eq!(token_precedence(TokenKind::Bang), Precedence::Lowest);
    assert_eq!(token_precedence(TokenKind::Eof), Precedence::Lowest);
}
