//! What parsing means: the statements and diagnostics that a token stream
//! denotes, as mathematical functions over the stream.
//!
//! A position in the stream plays the part of the parser's current token;
//! every result says how many tokens the parse moved forward from the
//! position it started at.

use vstd::prelude::*;
use crate::ast::{ExpressionView, InfixOperator, Operator, Precedence, StatementView};
use crate::diagnostic::DiagnosticView;
use crate::numeral::numeral_u64;
use crate::token::{TokenKind, TokenView};

verus! {

/// How an expression that starts with a given token kind is parsed.
#[derive(Debug, PartialEq, Eq, Clone, Copy, Structural)]
pub enum PrefixParser {
    /// The token names a variable.
    Identifier,
    /// The token's text is a decimal numeral.
    IntegerLiteral,
    /// The token is a prefix operator; its operand follows.
    Operator(Operator),
}

/// How an expression is continued by a token of a given kind.
#[derive(Debug, PartialEq, Eq, Clone, Copy, Structural)]
pub enum InfixParser {
    /// The token is a binary operator; its right operand follows.
    Binary(InfixOperator),
}

/// The dispatch tables of the expression parser.
pub struct Grammar {
    pub prefix: Map<TokenKind, PrefixParser>,
    pub infix: Map<TokenKind, InfixParser>,
}

impl Grammar {
    /// The prefix parser for a token kind. The end marker never starts an
    /// expression, whatever the table holds for it.
    pub open spec fn prefix_for(self, kind: TokenKind) -> Option<PrefixParser> {
        if kind != TokenKind::Eof && self.prefix.contains_key(kind) {
            Some(self.prefix[kind])
        } else {
            None
        }
    }

    /// The infix parser for a token kind.
    pub open spec fn infix_for(self, kind: TokenKind) -> Option<InfixParser> {
        if self.infix.contains_key(kind) {
            Some(self.infix[kind])
        } else {
            None
        }
    }

    /// The tables of the language: identifiers, integer literals, the two
    /// prefix operators and the eight binary operators.
    pub open spec fn standard() -> Grammar {
        Grammar {
            prefix: Map::empty().insert(TokenKind::Int, PrefixParser::IntegerLiteral).insert(
                TokenKind::Ident,
                PrefixParser::Identifier,
            ).insert(TokenKind::Bang, PrefixParser::Operator(Operator::Bang)).insert(
                TokenKind::Minus,
                PrefixParser::Operator(Operator::Minus),
            ),
            infix: Map::empty().insert(
                TokenKind::Plus,
                InfixParser::Binary(InfixOperator::Plus),
            ).insert(TokenKind::Minus, InfixParser::Binary(InfixOperator::Minus)).insert(
                TokenKind::Asterisk,
                InfixParser::Binary(InfixOperator::Asterisk),
            ).insert(TokenKind::Slash, InfixParser::Binary(InfixOperator::Slash)).insert(
                TokenKind::Lt,
                InfixParser::Binary(InfixOperator::Lt),
            ).insert(TokenKind::Gt, InfixParser::Binary(InfixOperator::Gt)).insert(
                TokenKind::Eq,
                InfixParser::Binary(InfixOperator::Eq),
            ).insert(TokenKind::NotEq, InfixParser::Binary(InfixOperator::NotEq)),
        }
    }
}

/// The precedence bound to a token kind: that of the binary operator it
/// spells, `Call` for an opening parenthesis, `Lowest` for every other kind.
pub open spec fn precedence_of(kind: TokenKind) -> Precedence {
    match kind {
        TokenKind::Eq => Precedence::Equals,
        TokenKind::NotEq => Precedence::Equals,
        TokenKind::Lt => Precedence::LessGreater,
        TokenKind::Gt => Precedence::LessGreater,
        TokenKind::Plus => Precedence::Sum,
        TokenKind::Minus => Precedence::Sum,
        TokenKind::Slash => Precedence::Product,
        TokenKind::Asterisk => Precedence::Product,
        TokenKind::Lparen => Precedence::Call,
        _ => Precedence::Lowest,
    }
}

/// The token at position `at` of a stream; past its end, the end marker.
pub open spec fn nth_token(tokens: Seq<TokenView>, at: nat) -> TokenView {
    if at < tokens.len() {
        tokens[at as int]
    } else {
        TokenView::eof()
    }
}

/// The number of tokens from position `at` to the end of the stream.
pub open spec fn tokens_left(tokens: Seq<TokenView>, at: nat) -> nat {
    if at < tokens.len() {
        (tokens.len() - at) as nat
    } else {
        0
    }
}

/// The outcome of a parse: the node it built, if it could build one, how
/// many tokens it moved forward, and the diagnostics it recorded.
pub struct Parsed<T> {
    pub node: Option<T>,
    pub advanced: nat,
    pub errors: Seq<DiagnosticView>,
}

/// The outcome of parsing a whole program.
pub struct ParsedProgram {
    pub statements: Seq<StatementView>,
    pub advanced: nat,
    pub errors: Seq<DiagnosticView>,
}

/// 1 if a semicolon follows position `at`, 0 otherwise: the number of
/// tokens an optional statement terminator takes.
pub open spec fn optional_semicolon(tokens: Seq<TokenView>, at: nat) -> nat {
    if nth_token(tokens, at + 1).kind == TokenKind::Semicolon {
        1
    } else {
        0
    }
}

/// The expression that starts at position `at`, read as far as operators
/// binding tighter than `min` reach. On success the parse ends on the last
/// token of the expression.
pub open spec fn parse_expression(
    g: Grammar,
    tokens: Seq<TokenView>,
    at: nat,
    min: Precedence,
) -> Parsed<ExpressionView>
    decreases tokens_left(tokens, at), 2nat,
{
    let current = nth_token(tokens, at);
    match g.prefix_for(current.kind) {
        None => Parsed {
            node: None,
            advanced: 0,
            errors: seq![DiagnosticView::NoPrefixParser { kind: current.kind }],
        },
        Some(parser) => {
            let first = parse_prefix(g, tokens, at, parser);
            match first.node {
                None => first,
                Some(left) => {
                    let rest = parse_infix_chain(g, tokens, at + first.advanced, left, min);
                    Parsed {
                        node: rest.node,
                        advanced: first.advanced + rest.advanced,
                        errors: first.errors + rest.errors,
                    }
                },
            }
        },
    }
}

/// The expression that the token at position `at` starts, as the given
/// prefix parser reads it. The token is not the end marker.
pub open spec fn parse_prefix(
    g: Grammar,
    tokens: Seq<TokenView>,
    at: nat,
    parser: PrefixParser,
) -> Parsed<ExpressionView>
    decreases tokens_left(tokens, at), 1nat,
    when nth_token(tokens, at).kind != TokenKind::Eof
{
    let current = nth_token(tokens, at);
    match parser {
        PrefixParser::Identifier => Parsed {
            node: Some(ExpressionView::Ident { name: current.text }),
            advanced: 0,
            errors: Seq::empty(),
        },
        PrefixParser::IntegerLiteral => match numeral_u64(current.text) {
            Some(value) => Parsed {
                node: Some(ExpressionView::IntegerLiteral { value }),
                advanced: 0,
                errors: Seq::empty(),
            },
            None => Parsed {
                node: None,
                advanced: 0,
                errors: seq![DiagnosticView::InvalidInteger { text: current.text }],
            },
        },
        PrefixParser::Operator(operator) => {
            let operand = parse_expression(g, tokens, at + 1, Precedence::Prefix);
            Parsed {
                node: match operand.node {
                    Some(right) => Some(ExpressionView::Prefix { operator, right: Box::new(right) }),
                    None => None,
                },
                advanced: 1 + operand.advanced,
                errors: operand.errors,
            }
        },
    }
}

/// The expression that results from continuing `left`, which ends at
/// position `at`, with every binary operator that follows and binds tighter
/// than `min`.
pub open spec fn parse_infix_chain(
    g: Grammar,
    tokens: Seq<TokenView>,
    at: nat,
    left: ExpressionView,
    min: Precedence,
) -> Parsed<ExpressionView>
    decreases tokens_left(tokens, at), 0nat,
{
    let peek = nth_token(tokens, at + 1);
    if peek.kind != TokenKind::Semicolon && peek.kind != TokenKind::Eof && min.below(
        precedence_of(peek.kind),
    ) {
        match g.infix_for(peek.kind) {
            None => Parsed { node: Some(left), advanced: 0, errors: Seq::empty() },
            Some(parser) => {
                let step = parse_infix(g, tokens, at + 1, parser, left);
                match step.node {
                    None => Parsed {
                        node: None,
                        advanced: 1 + step.advanced,
                        errors: step.errors,
                    },
                    Some(joined) => {
                        let rest = parse_infix_chain(
                            g,
                            tokens,
                            at + 1 + step.advanced,
                            joined,
                            min,
                        );
                        Parsed {
                            node: rest.node,
                            advanced: 1 + step.advanced + rest.advanced,
                            errors: step.errors + rest.errors,
                        }
                    },
                }
            },
        }
    } else {
        Parsed { node: Some(left), advanced: 0, errors: Seq::empty() }
    }
}

/// The expression that joins `left` with what follows the operator at
/// position `at`, as the given infix parser reads it. The right operand is
/// read at the operator's own precedence, so operators of one level group
/// to the left. The operator token is not the end marker.
pub open spec fn parse_infix(
    g: Grammar,
    tokens: Seq<TokenView>,
    at: nat,
    parser: InfixParser,
    left: ExpressionView,
) -> Parsed<ExpressionView>
    decreases tokens_left(tokens, at), 1nat,
    when nth_token(tokens, at).kind != TokenKind::Eof
{
    match parser {
        InfixParser::Binary(operator) => {
            let operand = parse_expression(
                g,
                tokens,
                at + 1,
                precedence_of(nth_token(tokens, at).kind),
            );
            Parsed {
                node: match operand.node {
                    Some(right) => Some(
                        ExpressionView::Infix {
                            operator,
                            left: Box::new(left),
                            right: Box::new(right),
                        },
                    ),
                    None => None,
                },
                advanced: 1 + operand.advanced,
                errors: operand.errors,
            }
        },
    }
}

/// The statement `let name = value`, with `let` at position `at`. An
/// identifier and `=` must follow; a semicolon after the value is taken if
/// it is there.
pub open spec fn parse_let_statement(g: Grammar, tokens: Seq<TokenView>, at: nat) -> Parsed<
    StatementView,
> {
    let name = nth_token(tokens, at + 1);
    let assign = nth_token(tokens, at + 2);
    if name.kind != TokenKind::Ident {
        Parsed {
            node: None,
            advanced: 0,
            errors: seq![
                DiagnosticView::UnexpectedToken { expected: TokenKind::Ident, actual: name },
            ],
        }
    } else if assign.kind != TokenKind::Assign {
        Parsed {
            node: None,
            advanced: 1,
            errors: seq![
                DiagnosticView::UnexpectedToken { expected: TokenKind::Assign, actual: assign },
            ],
        }
    } else {
        let value = parse_expression(g, tokens, at + 3, Precedence::Lowest);
        match value.node {
            None => Parsed { node: None, advanced: 3 + value.advanced, errors: value.errors },
            Some(expression) => Parsed {
                node: Some(StatementView::Let { name: name.text, value: expression }),
                advanced: 3 + value.advanced + optional_semicolon(
                    tokens,
                    at + 3 + value.advanced,
                ),
                errors: value.errors,
            },
        }
    }
}

/// The statement `return value`, with `return` at position `at`.
pub open spec fn parse_return_statement(g: Grammar, tokens: Seq<TokenView>, at: nat) -> Parsed<
    StatementView,
> {
    let value = parse_expression(g, tokens, at + 1, Precedence::Lowest);
    match value.node {
        None => Parsed { node: None, advanced: 1 + value.advanced, errors: value.errors },
        Some(expression) => Parsed {
            node: Some(StatementView::Return { value: expression }),
            advanced: 1 + value.advanced + optional_semicolon(tokens, at + 1 + value.advanced),
            errors: value.errors,
        },
    }
}

/// The expression at position `at`, standing as a statement.
pub open spec fn parse_expression_statement(
    g: Grammar,
    tokens: Seq<TokenView>,
    at: nat,
) -> Parsed<StatementView> {
    let value = parse_expression(g, tokens, at, Precedence::Lowest);
    match value.node {
        None => Parsed { node: None, advanced: value.advanced, errors: value.errors },
        Some(expression) => Parsed {
            node: Some(StatementView::ExpressionStatement { value: expression }),
            advanced: value.advanced + optional_semicolon(tokens, at + value.advanced),
            errors: value.errors,
        },
    }
}

/// The statement at position `at`: the kind of the token there selects
/// which statement is read.
pub open spec fn parse_statement(g: Grammar, tokens: Seq<TokenView>, at: nat) -> Parsed<
    StatementView,
> {
    match nth_token(tokens, at).kind {
        TokenKind::Let => parse_let_statement(g, tokens, at),
        TokenKind::Return => parse_return_statement(g, tokens, at),
        _ => parse_expression_statement(g, tokens, at),
    }
}

/// The program from position `at` to the first end marker that stands
/// where a statement would start. Each statement that was built is kept, in
/// order; after each attempt, built or not, one more token is passed.
pub open spec fn parse_program(g: Grammar, tokens: Seq<TokenView>, at: nat) -> ParsedProgram
    decreases tokens_left(tokens, at),
{
    if nth_token(tokens, at).kind == TokenKind::Eof {
        ParsedProgram { statements: Seq::empty(), advanced: 0, errors: Seq::empty() }
    } else {
        let first = parse_statement(g, tokens, at);
        let rest = parse_program(g, tokens, at + first.advanced + 1);
        ParsedProgram {
            statements: match first.node {
                Some(statement) => seq![statement] + rest.statements,
                None => rest.statements,
            },
            advanced: first.advanced + 1 + rest.advanced,
            errors: first.errors + rest.errors,
        }
    }
}

} // verus!
