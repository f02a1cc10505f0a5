//! Theorems about what the grammar assigns to a token stream.

use vstd::prelude::*;
use crate::ast::{ExpressionView, InfixOperator, Operator, Precedence};
use crate::numeral::numeral_u64;
use crate::grammar::{
    nth_token, parse_expression, parse_expression_statement, parse_infix,
    parse_infix_chain, parse_let_statement, parse_prefix, parse_program, parse_return_statement,
    parse_statement, precedence_of, tokens_left, Grammar, InfixParser, Parsed, PrefixParser,
};
use crate::token::{TokenKind, TokenView};

verus! {

impl<T> Parsed<T> {
    /// True when the outcome either built its node and recorded nothing,
    /// or built none and recorded exactly one diagnostic.
    pub open spec fn accounted(self) -> bool {
        if self.node is Some {
            self.errors.len() == 0
        } else {
            self.errors.len() == 1
        }
    }
}

/// Failures are values: an expression parse that builds its node records
/// no diagnostic, and one that builds none records exactly one.
pub proof fn lemma_expression_accounted(
    g: Grammar,
    tokens: Seq<TokenView>,
    at: nat,
    min: Precedence,
)
    ensures
        parse_expression(g, tokens, at, min).accounted(),
    decreases tokens_left(tokens, at), 2nat,
{
    let current = nth_token(tokens, at);
    match g.prefix_for(current.kind) {
        None => {},
        Some(parser) => {
            lemma_prefix_accounted(g, tokens, at, parser);
            let first = parse_prefix(g, tokens, at, parser);
            match first.node {
                None => {},
                Some(left) => {
                    lemma_chain_accounted(g, tokens, at + first.advanced, left, min);
                },
            }
        },
    }
}

/// The same, for the expression a prefix parser reads.
pub proof fn lemma_prefix_accounted(
    g: Grammar,
    tokens: Seq<TokenView>,
    at: nat,
    parser: PrefixParser,
)
    requires
        nth_token(tokens, at).kind != TokenKind::Eof,
    ensures
        parse_prefix(g, tokens, at, parser).accounted(),
    decreases tokens_left(tokens, at), 1nat,
{
    match parser {
        PrefixParser::Operator(_) => {
            lemma_expression_accounted(g, tokens, at + 1, Precedence::Prefix);
        },
        _ => {},
    }
}

/// The same, for the continuation of an expression by binary operators.
pub proof fn lemma_chain_accounted(
    g: Grammar,
    tokens: Seq<TokenView>,
    at: nat,
    left: ExpressionView,
    min: Precedence,
)
    ensures
        parse_infix_chain(g, tokens, at, left, min).accounted(),
    decreases tokens_left(tokens, at), 0nat,
{
    let peek = nth_token(tokens, at + 1);
    if peek.kind != TokenKind::Semicolon && peek.kind != TokenKind::Eof && min.below(
        precedence_of(peek.kind),
    ) {
        match g.infix_for(peek.kind) {
            None => {},
            Some(parser) => {
                lemma_infix_accounted(g, tokens, at + 1, parser, left);
                let step = parse_infix(g, tokens, at + 1, parser, left);
                match step.node {
                    None => {},
                    Some(joined) => {
                        lemma_chain_accounted(g, tokens, at + 1 + step.advanced, joined, min);
                    },
                }
            },
        }
    }
}

/// The same, for the expression an infix parser builds.
pub proof fn lemma_infix_accounted(
    g: Grammar,
    tokens: Seq<TokenView>,
    at: nat,
    parser: InfixParser,
    left: ExpressionView,
)
    requires
        nth_token(tokens, at).kind != TokenKind::Eof,
    ensures
        parse_infix(g, tokens, at, parser, left).accounted(),
    decreases tokens_left(tokens, at), 1nat,
{
    match parser {
        InfixParser::Binary(_) => {
            lemma_expression_accounted(
                g,
                tokens,
                at + 1,
                precedence_of(nth_token(tokens, at).kind),
            );
        },
    }
}

/// Failures are values at the statement level too: a statement that is
/// built leaves no diagnostic, one that is given up leaves exactly one.
pub proof fn lemma_statement_accounted(g: Grammar, tokens: Seq<TokenView>, at: nat)
    ensures
        parse_statement(g, tokens, at).accounted(),
        parse_let_statement(g, tokens, at).accounted(),
        parse_return_statement(g, tokens, at).accounted(),
        parse_expression_statement(g, tokens, at).accounted(),
{
    lemma_expression_accounted(g, tokens, at, Precedence::Lowest);
    lemma_expression_accounted(g, tokens, at + 1, Precedence::Lowest);
    lemma_expression_accounted(g, tokens, at + 3, Precedence::Lowest);
}

/// A program is parsed up to an end marker: the position the parse ends on
/// holds the end marker.
pub proof fn lemma_program_ends_on_end_marker(g: Grammar, tokens: Seq<TokenView>, at: nat)
    ensures
        nth_token(tokens, at + parse_program(g, tokens, at).advanced).kind == TokenKind::Eof,
    decreases tokens_left(tokens, at),
{
    if nth_token(tokens, at).kind != TokenKind::Eof {
        let first = parse_statement(g, tokens, at);
        lemma_program_ends_on_end_marker(g, tokens, at + first.advanced + 1);
    }
}

/// A clean parse is a complete one: when a program is parsed without a
/// diagnostic, every statement attempt on the way built its statement.
pub proof fn lemma_clean_program_is_complete(g: Grammar, tokens: Seq<TokenView>, at: nat)
    requires
        parse_program(g, tokens, at).errors.len() == 0,
        nth_token(tokens, at).kind != TokenKind::Eof,
    ensures
        parse_statement(g, tokens, at).node is Some,
        parse_program(g, tokens, at).statements.first() == parse_statement(g, tokens, at).node->0,
        parse_program(g, tokens, at + parse_statement(g, tokens, at).advanced + 1).errors.len()
            == 0,
{
    lemma_statement_accounted(g, tokens, at);
}

/// The precedence level of a binary operator.
pub open spec fn operator_level(operator: InfixOperator) -> Precedence {
    match operator {
        InfixOperator::Eq => Precedence::Equals,
        InfixOperator::NotEq => Precedence::Equals,
        InfixOperator::Lt => Precedence::LessGreater,
        InfixOperator::Gt => Precedence::LessGreater,
        InfixOperator::Plus => Precedence::Sum,
        InfixOperator::Minus => Precedence::Sum,
        InfixOperator::Asterisk => Precedence::Product,
        InfixOperator::Slash => Precedence::Product,
    }
}

/// How tightly the root of a tree holds together: the rank of its operator
/// for a binary expression, above every rank for any other expression.
pub open spec fn binding(expression: ExpressionView) -> int {
    match expression {
        ExpressionView::Infix { operator, .. } => operator_level(operator).rank() as int,
        _ => 8,
    }
}

/// True when a tree groups its operators by precedence: the left operand of
/// a binary operator binds at least as tightly as the operator, its right
/// operand binds strictly tighter, and the operand of a prefix operator is
/// no binary expression.
pub open spec fn grouped_by_precedence(expression: ExpressionView) -> bool
    decreases expression,
{
    match expression {
        ExpressionView::Ident { .. } => true,
        ExpressionView::IntegerLiteral { .. } => true,
        ExpressionView::Prefix { right, .. } => grouped_by_precedence(*right) && binding(*right)
            == 8,
        ExpressionView::Infix { operator, left, right } => {
            &&& grouped_by_precedence(*left)
            &&& grouped_by_precedence(*right)
            &&& binding(*left) >= operator_level(operator).rank()
            &&& binding(*right) > operator_level(operator).rank()
        },
    }
}

/// True when a binary operator that binds tighter than `min` follows
/// position `at`, so that an expression ending there goes on.
pub open spec fn continues(g: Grammar, tokens: Seq<TokenView>, at: nat, min: Precedence) -> bool {
    let peek = nth_token(tokens, at + 1);
    &&& peek.kind != TokenKind::Semicolon
    &&& peek.kind != TokenKind::Eof
    &&& min.below(precedence_of(peek.kind))
    &&& g.infix_for(peek.kind) is Some
}

/// True when every binary operator that could follow position `at` binds
/// no tighter than the root of `left`.
pub open spec fn may_extend(tokens: Seq<TokenView>, at: nat, left: ExpressionView) -> bool {
    Grammar::standard().infix_for(nth_token(tokens, at + 1).kind) is Some ==> precedence_of(
        nth_token(tokens, at + 1).kind,
    ).rank() <= binding(left)
}

/// What the standard tables hold: the parser of every binary operator
/// token builds an operator of the token's own precedence.
pub proof fn lemma_standard_infix_levels(kind: TokenKind)
    ensures
        Grammar::standard().infix_for(kind) matches Some(InfixParser::Binary(operator))
            ==> operator_level(operator) == precedence_of(kind),
        kind == TokenKind::Lparen ==> Grammar::standard().infix_for(kind) is None,
{
}

/// Precedence correctness: with the tables of the language, an expression
/// read at level `min` groups its operators by precedence, its root binds
/// tighter than `min`, and it is maximal: no operator that binds tighter
/// than `min` follows it.
pub proof fn lemma_expression_shape(tokens: Seq<TokenView>, at: nat, min: Precedence)
    ensures
        parse_expression(Grammar::standard(), tokens, at, min).node matches Some(expression) ==> {
            &&& grouped_by_precedence(expression)
            &&& binding(expression) > min.rank()
            &&& !continues(
                Grammar::standard(),
                tokens,
                at + parse_expression(Grammar::standard(), tokens, at, min).advanced,
                min,
            )
        },
    decreases tokens_left(tokens, at), 2nat,
{
    let g = Grammar::standard();
    let current = nth_token(tokens, at);
    match g.prefix_for(current.kind) {
        None => {},
        Some(parser) => {
            lemma_prefix_shape(tokens, at, parser);
            let first = parse_prefix(g, tokens, at, parser);
            match first.node {
                None => {},
                Some(left) => {
                    lemma_chain_shape(tokens, at + first.advanced, left, min);
                },
            }
        },
    }
}

/// What a prefix parser reads is grouped by precedence and is no binary
/// expression: a prefix operator binds tighter than every binary one.
pub proof fn lemma_prefix_shape(tokens: Seq<TokenView>, at: nat, parser: PrefixParser)
    requires
        nth_token(tokens, at).kind != TokenKind::Eof,
    ensures
        parse_prefix(Grammar::standard(), tokens, at, parser).node matches Some(expression) ==> {
            &&& grouped_by_precedence(expression)
            &&& binding(expression) == 8
        },
    decreases tokens_left(tokens, at), 1nat,
{
    match parser {
        PrefixParser::Operator(_) => {
            lemma_expression_shape(tokens, at + 1, Precedence::Prefix);
        },
        _ => {},
    }
}

/// Continuing a well-grouped expression keeps it well grouped, provided no
/// operator that follows binds tighter than its root.
pub proof fn lemma_chain_shape(
    tokens: Seq<TokenView>,
    at: nat,
    left: ExpressionView,
    min: Precedence,
)
    requires
        grouped_by_precedence(left),
        binding(left) > min.rank(),
        may_extend(tokens, at, left),
    ensures
        parse_infix_chain(Grammar::standard(), tokens, at, left, min).node matches Some(
            expression,
        ) ==> {
            &&& grouped_by_precedence(expression)
            &&& binding(expression) > min.rank()
            &&& !continues(
                Grammar::standard(),
                tokens,
                at + parse_infix_chain(Grammar::standard(), tokens, at, left, min).advanced,
                min,
            )
        },
    decreases tokens_left(tokens, at), 0nat,
{
    let g = Grammar::standard();
    let peek = nth_token(tokens, at + 1);
    if peek.kind != TokenKind::Semicolon && peek.kind != TokenKind::Eof && min.below(
        precedence_of(peek.kind),
    ) {
        match g.infix_for(peek.kind) {
            None => {},
            Some(parser) => {
                let level = precedence_of(peek.kind);
                lemma_standard_infix_levels(peek.kind);
                lemma_expression_shape(tokens, at + 2, level);
                let step = parse_infix(g, tokens, at + 1, parser, left);
                match step.node {
                    None => {},
                    Some(joined) => {
                        let end = at + 1 + step.advanced;
                        lemma_standard_infix_levels(nth_token(tokens, end + 1).kind);
                        assert(binding(joined) == level.rank());
                        assert(grouped_by_precedence(joined));
                        assert(may_extend(tokens, end, joined));
                        lemma_chain_shape(tokens, end, joined, min);
                    },
                }
            },
        }
    }
}

/// What one token stands for in a tree: a name, a number, or itself.
pub enum Symbol {
    Name(Seq<char>),
    Number(u64),
    Mark(TokenKind),
}

/// What a token stands for in a tree. An integer token that denotes no
/// 64-bit value stands for no number in particular.
pub open spec fn symbol_of(token: TokenView) -> Symbol {
    match token.kind {
        TokenKind::Ident => Symbol::Name(token.text),
        TokenKind::Int => Symbol::Number(numeral_u64(token.text)->0),
        kind => Symbol::Mark(kind),
    }
}

/// What the `count` tokens from position `from` on stand for.
pub open spec fn symbols(tokens: Seq<TokenView>, from: nat, count: nat) -> Seq<Symbol> {
    Seq::new(count, |i: int| symbol_of(nth_token(tokens, (from + i) as nat)))
}

/// The token a prefix operator is written with.
pub open spec fn prefix_token(operator: Operator) -> TokenKind {
    match operator {
        Operator::Bang => TokenKind::Bang,
        Operator::Minus => TokenKind::Minus,
    }
}

/// The token a binary operator is written with.
pub open spec fn infix_token(operator: InfixOperator) -> TokenKind {
    match operator {
        InfixOperator::Plus => TokenKind::Plus,
        InfixOperator::Minus => TokenKind::Minus,
        InfixOperator::Asterisk => TokenKind::Asterisk,
        InfixOperator::Slash => TokenKind::Slash,
        InfixOperator::Lt => TokenKind::Lt,
        InfixOperator::Gt => TokenKind::Gt,
        InfixOperator::Eq => TokenKind::Eq,
        InfixOperator::NotEq => TokenKind::NotEq,
    }
}

/// A tree written out in source order: each operand and operator where it
/// stands, a binary operator between its operands.
pub open spec fn written(expression: ExpressionView) -> Seq<Symbol>
    decreases expression,
{
    match expression {
        ExpressionView::Ident { name } => seq![Symbol::Name(name)],
        ExpressionView::IntegerLiteral { value } => seq![Symbol::Number(value)],
        ExpressionView::Prefix { operator, right } => seq![Symbol::Mark(prefix_token(operator))]
            + written(*right),
        ExpressionView::Infix { operator, left, right } => written(*left) + seq![
            Symbol::Mark(infix_token(operator)),
        ] + written(*right),
    }
}

/// What the standard tables hold: every parser is registered for the token
/// its expression is written with.
pub proof fn lemma_standard_tables(kind: TokenKind)
    ensures
        Grammar::standard().prefix_for(kind) == match kind {
            TokenKind::Ident => Some(PrefixParser::Identifier),
            TokenKind::Int => Some(PrefixParser::IntegerLiteral),
            TokenKind::Bang => Some(PrefixParser::Operator(Operator::Bang)),
            TokenKind::Minus => Some(PrefixParser::Operator(Operator::Minus)),
            _ => None,
        },
        Grammar::standard().infix_for(kind) matches Some(InfixParser::Binary(operator))
            ==> infix_token(operator) == kind,
{
}

/// Faithfulness: with the tables of the language, the tree an expression
/// parse builds is written with exactly the tokens the parse went over, in
/// their order. No token is dropped, none is added, none changes place.
pub proof fn lemma_expression_written(tokens: Seq<TokenView>, at: nat, min: Precedence)
    ensures
        parse_expression(Grammar::standard(), tokens, at, min).node matches Some(expression)
            ==> written(expression) == symbols(
            tokens,
            at,
            parse_expression(Grammar::standard(), tokens, at, min).advanced + 1,
        ),
    decreases tokens_left(tokens, at), 2nat,
{
    let g = Grammar::standard();
    let current = nth_token(tokens, at);
    match g.prefix_for(current.kind) {
        None => {},
        Some(parser) => {
            lemma_prefix_written(tokens, at, parser);
            let first = parse_prefix(g, tokens, at, parser);
            match first.node {
                None => {},
                Some(left) => {
                    lemma_chain_written(tokens, at, at + first.advanced, left, min);
                },
            }
        },
    }
}

/// The same, for the expression the standard prefix parser of the token at
/// position `at` reads.
pub proof fn lemma_prefix_written(tokens: Seq<TokenView>, at: nat, parser: PrefixParser)
    requires
        Grammar::standard().prefix_for(nth_token(tokens, at).kind) == Some(parser),
    ensures
        parse_prefix(Grammar::standard(), tokens, at, parser).node matches Some(expression)
            ==> written(expression) == symbols(
            tokens,
            at,
            parse_prefix(Grammar::standard(), tokens, at, parser).advanced + 1,
        ),
    decreases tokens_left(tokens, at), 1nat,
{
    let g = Grammar::standard();
    let current = nth_token(tokens, at);
    lemma_standard_tables(current.kind);
    match parser {
        PrefixParser::Operator(operator) => {
            lemma_expression_written(tokens, at + 1, Precedence::Prefix);
            let operand = parse_expression(g, tokens, at + 1, Precedence::Prefix);
            if operand.node is Some {
                assert(seq![symbol_of(current)] + symbols(tokens, at + 1, operand.advanced + 1)
                    =~= symbols(tokens, at, operand.advanced + 2));
            }
        },
        PrefixParser::Identifier => {
            assert(seq![symbol_of(current)] =~= symbols(tokens, at, 1));
        },
        PrefixParser::IntegerLiteral => {
            assert(seq![symbol_of(current)] =~= symbols(tokens, at, 1));
        },
    }
}

/// The same, for the continuation of an expression that starts at position
/// `start` and ends at position `at`.
pub proof fn lemma_chain_written(
    tokens: Seq<TokenView>,
    start: nat,
    at: nat,
    left: ExpressionView,
    min: Precedence,
)
    requires
        start <= at,
        written(left) == symbols(tokens, start, (at - start + 1) as nat),
    ensures
        parse_infix_chain(Grammar::standard(), tokens, at, left, min).node matches Some(
            expression,
        ) ==> written(expression) == symbols(
            tokens,
            start,
            (at - start + 1 + parse_infix_chain(
                Grammar::standard(),
                tokens,
                at,
                left,
                min,
            ).advanced) as nat,
        ),
    decreases tokens_left(tokens, at), 0nat,
{
    let g = Grammar::standard();
    let peek = nth_token(tokens, at + 1);
    if peek.kind != TokenKind::Semicolon && peek.kind != TokenKind::Eof && min.below(
        precedence_of(peek.kind),
    ) {
        match g.infix_for(peek.kind) {
            None => {},
            Some(parser) => {
                let level = precedence_of(peek.kind);
                lemma_standard_tables(peek.kind);
                lemma_expression_written(tokens, at + 2, level);
                let operand = parse_expression(g, tokens, at + 2, level);
                let step = parse_infix(g, tokens, at + 1, parser, left);
                match step.node {
                    None => {},
                    Some(joined) => {
                        let end = at + 1 + step.advanced;
                        assert(symbols(tokens, start, (at - start + 1) as nat) + seq![
                            symbol_of(peek),
                        ] + symbols(tokens, at + 2, operand.advanced + 1) =~= symbols(
                            tokens,
                            start,
                            (end - start + 1) as nat,
                        ));
                        lemma_chain_written(tokens, start, end, joined, min);
                    },
                }
            },
        }
    }
}

} // verus!
