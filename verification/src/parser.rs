//! The Pratt parser: pulls tokens from the tokenizer with one token of
//! lookahead and builds the syntax tree that the grammar assigns to the
//! token stream, recording a diagnostic for every construct it has to give
//! up on.

use std::collections::HashMap;
use vstd::prelude::*;
use vstd::utf8::encode_utf8;
use crate::ast::{
    Expression, ExpressionStatement, Ident, Infix, InfixOperator,
    IntegerLiteral, Let, Operator, Precedence, Prefix, Program, Return, Statement,
    StatementView,
};
use crate::diagnostic::{Diagnostic, DiagnosticView};
use crate::grammar;
use crate::grammar::{
    nth_token, precedence_of, tokens_left, Grammar, InfixParser, ParsedProgram, PrefixParser,
};
use crate::lexer::{lemma_tokens_from_step, tokens_from, Lexer};
use crate::numeral::parse_u64;
use crate::token::{Token, TokenKind, TokenView};

verus! {

/// The precedence bound to a token kind.
pub fn token_precedence(kind: TokenKind) -> (level: Precedence)
    ensures
        level == precedence_of(kind),
{
    match kind {
        TokenKind::Eq => Precedence::Equals,
        TokenKind::NotEq => Precedence::Equals,
        TokenKind::Lt => Precedence::LessGreater,
        TokenKind::Gt => Precedence::LessGreater,
        TokenKind::Plus => Precedence::Sum,
        TokenKind::Minus => Precedence::Sum,
        TokenKind::Slash => Precedence::Product,
        TokenKind::Asterisk => Precedence::Product,
        TokenKind::Lparen => Precedence::Call,
        _ => Precedence::Lowest,
    }
}

/// True when `result` is absent exactly when `node` is, and otherwise has
/// `node`'s content as its view.
pub open spec fn same_node<T: View>(result: Option<T>, node: Option<T::V>) -> bool {
    match result {
        Some(value) => node == Some(value@),
        None => node is None,
    }
}

/// What the tokenizer still has to yield once a parser stands at position
/// `at - 2` of the stream: the stream from `at` on, or the closing end
/// marker alone when `at` is past it.
pub open spec fn stream_tail(tokens: Seq<TokenView>, at: nat) -> Seq<TokenView> {
    if at < tokens.len() {
        tokens.skip(at as int)
    } else {
        seq![TokenView::eof()]
    }
}

/// What a source text parses to with the tables of the language.
pub open spec fn parse_source(source: Seq<u8>) -> ParsedProgram {
    grammar::parse_program(Grammar::standard(), tokens_from(source, 0), 0)
}

/// Distinct token kinds have distinct indices.
pub proof fn lemma_index_is_injective(a: TokenKind, b: TokenKind)
    ensures
        a.index() == b.index() <==> a == b,
{
}

/// Two end-marker sentinels in front of a token stream: the padded stream
/// is longer than two, ends with the end marker as the stream does, holds
/// the sentinels at its first two positions, and is the stream again from
/// its third position on.
pub proof fn lemma_padded_stream(source: Seq<u8>, pos: int)
    requires
        0 <= pos <= source.len(),
    ensures
        ({
            let stream = tokens_from(source, pos);
            let padded = seq![TokenView::eof(), TokenView::eof()] + stream;
            &&& stream.len() >= 1
            &&& padded.len() == stream.len() + 2
            &&& padded.last() == TokenView::eof()
            &&& nth_token(padded, 0) == TokenView::eof()
            &&& nth_token(padded, 1) == TokenView::eof()
            &&& stream_tail(padded, 2) == stream
        }),
{
    let stream = tokens_from(source, pos);
    let padded = seq![TokenView::eof(), TokenView::eof()] + stream;
    lemma_tokens_from_step(source, pos);
    assert(padded.len() == stream.len() + 2);
    assert(padded[0] == TokenView::eof());
    assert(padded[1] == TokenView::eof());
    assert(padded.last() == stream.last());
    assert(padded.skip(2) =~= stream);
}

/// A parser over a tokenizer. It holds the token being interpreted and the
/// one after it, the dispatch tables of the expression parser, and the
/// diagnostics recorded so far.
pub struct Parser {
    lexer: Lexer,
    peek_token: Token,
    current_token: Token,
    infix_parsers: HashMap<u8, InfixParser>,
    prefix_parsers: HashMap<u8, PrefixParser>,
    errors: Vec<Diagnostic>,
    tokens: Ghost<Seq<TokenView>>,
    cursor: Ghost<nat>,
}

impl Parser {
    /// The token stream the parser reads: everything the tokenizer had to
    /// yield when the parser was made.
    pub closed spec fn tokens(&self) -> Seq<TokenView> {
        self.tokens@
    }

    /// The position in the stream of the token being interpreted.
    pub closed spec fn cursor(&self) -> nat {
        self.cursor@
    }

    /// The dispatch tables as a grammar.
    pub closed spec fn grammar(&self) -> Grammar {
        Grammar {
            prefix: Map::new(
                |kind: TokenKind| self.prefix_parsers@.contains_key(kind.index()),
                |kind: TokenKind| self.prefix_parsers@[kind.index()],
            ),
            infix: Map::new(
                |kind: TokenKind| self.infix_parsers@.contains_key(kind.index()),
                |kind: TokenKind| self.infix_parsers@[kind.index()],
            ),
        }
    }

    /// The diagnostics recorded so far, oldest first.
    pub closed spec fn diagnostics(&self) -> Seq<DiagnosticView> {
        self.errors@.map_values(|d: Diagnostic| d@)
    }

    /// The parser invariant: the two buffered tokens are the tokens at the
    /// cursor and after it, and the tokenizer is about to yield the one
    /// after those.
    pub closed spec fn wf(&self) -> bool {
        &&& self.lexer.wf()
        &&& self.tokens@.len() >= 1
        &&& self.tokens@.last() == TokenView::eof()
        &&& self.current_token@ == nth_token(self.tokens@, self.cursor@)
        &&& self.peek_token@ == nth_token(self.tokens@, self.cursor@ + 1)
        &&& self.lexer.upcoming() == stream_tail(self.tokens@, self.cursor@ + 2)
    }

    /// True when this parser is `before` moved `advanced` tokens forward
    /// with `errors` added to its diagnostics, and nothing else changed.
    pub open spec fn follows(
        &self,
        before: Parser,
        advanced: nat,
        errors: Seq<DiagnosticView>,
    ) -> bool {
        &&& self.wf()
        &&& self.tokens() == before.tokens()
        &&& self.grammar() == before.grammar()
        &&& self.cursor() == before.cursor() + advanced
        &&& self.diagnostics() == before.diagnostics() + errors
    }

    /// A parser over everything `l` has still to yield, with the tables of
    /// the language and both lookahead slots filled.
    pub fn new(l: Lexer) -> (p: Parser)
        requires
            l.wf(),
        ensures
            p.wf(),
            p.tokens() == l.upcoming(),
            p.cursor() == 0,
            p.grammar() == Grammar::standard(),
            p.diagnostics() == Seq::<DiagnosticView>::empty(),
    {
        let mut p = Parser::unfilled(l);

        p.register_prefix(TokenKind::Int, PrefixParser::IntegerLiteral);
        p.register_prefix(TokenKind::Ident, PrefixParser::Identifier);
        p.register_prefix(TokenKind::Bang, PrefixParser::Operator(Operator::Bang));
        p.register_prefix(TokenKind::Minus, PrefixParser::Operator(Operator::Minus));
        p.register_infix(TokenKind::Plus, InfixParser::Binary(InfixOperator::Plus));
        p.register_infix(TokenKind::Minus, InfixParser::Binary(InfixOperator::Minus));
        p.register_infix(TokenKind::Asterisk, InfixParser::Binary(InfixOperator::Asterisk));
        p.register_infix(TokenKind::Slash, InfixParser::Binary(InfixOperator::Slash));
        p.register_infix(TokenKind::Lt, InfixParser::Binary(InfixOperator::Lt));
        p.register_infix(TokenKind::Gt, InfixParser::Binary(InfixOperator::Gt));
        p.register_infix(TokenKind::Eq, InfixParser::Binary(InfixOperator::Eq));
        p.register_infix(TokenKind::NotEq, InfixParser::Binary(InfixOperator::NotEq));

        p.next_token();
        p.next_token();
        p.drop_sentinels(Ghost(l.upcoming()));
        p
    }

    /// A parser whose two lookahead slots hold end-marker sentinels, placed
    /// in front of everything `l` has still to yield, and whose tables are
    /// empty.
    fn unfilled(l: Lexer) -> (p: Parser)
        requires
            l.wf(),
        ensures
            p.wf(),
            p.tokens() == seq![TokenView::eof(), TokenView::eof()] + l.upcoming(),
            p.cursor() == 0,
            p.grammar() == (Grammar { prefix: Map::empty(), infix: Map::empty() }),
            p.diagnostics() == Seq::<DiagnosticView>::empty(),
    {
        let ghost stream = l.upcoming();
        let ghost padded = seq![TokenView::eof(), TokenView::eof()] + stream;
        proof {
            l.lemma_cursor_in_bounds();
            lemma_padded_stream(l.source(), l.cursor());
        }
        let infix_parsers: HashMap<u8, InfixParser> = HashMap::new();
        let prefix_parsers: HashMap<u8, PrefixParser> = HashMap::new();
        let errors: Vec<Diagnostic> = Vec::new();
        assert(infix_parsers@ == Map::<u8, InfixParser>::empty());
        assert(prefix_parsers@ == Map::<u8, PrefixParser>::empty());
        assert(errors@.len() == 0);
        let p = Parser {
            lexer: l,
            peek_token: Token::Eof,
            current_token: Token::Eof,
            infix_parsers,
            prefix_parsers,
            errors,
            tokens: Ghost(padded),
            cursor: Ghost(0),
        };
        assert(p.diagnostics() =~= Seq::<DiagnosticView>::empty());
        assert(p.grammar().prefix =~= Map::<TokenKind, PrefixParser>::empty()) by {
            assert forall|kind: TokenKind| !p.grammar().prefix.contains_key(kind) by {
                assert(!p.prefix_parsers@.contains_key(kind.index()));
            }
        }
        assert(p.grammar().infix =~= Map::<TokenKind, InfixParser>::empty()) by {
            assert forall|kind: TokenKind| !p.grammar().infix.contains_key(kind) by {
                assert(!p.infix_parsers@.contains_key(kind.index()));
            }
        }
        assert(p.wf()) by {
            assert(p.lexer.wf());
            assert(p.tokens@ == padded);
            assert(p.cursor@ == 0);
            assert(p.current_token@ == TokenView::eof());
            assert(p.peek_token@ == TokenView::eof());
            assert(nth_token(padded, 0) == TokenView::eof());
            assert(nth_token(padded, 1) == TokenView::eof());
            assert(stream_tail(padded, 2) == stream);
            assert(p.lexer.upcoming() == stream);
        }
        p
    }

    /// Forgets the two sentinels in front of the stream once the parser has
    /// moved past them: the stream becomes `stream` and the cursor its
    /// start. Only the bookkeeping of the contracts changes.
    fn drop_sentinels(&mut self, Ghost(stream): Ghost<Seq<TokenView>>)
        requires
            old(self).wf(),
            old(self).tokens() == seq![TokenView::eof(), TokenView::eof()] + stream,
            old(self).cursor() == 2,
            stream.len() >= 1,
        ensures
            final(self).wf(),
            final(self).tokens() == stream,
            final(self).cursor() == 0,
            final(self).grammar() == old(self).grammar(),
            final(self).diagnostics() == old(self).diagnostics(),
    {
        let ghost padded = self.tokens@;
        proof {
            assert(padded.last() == stream.last());
            assert(nth_token(padded, 2) == nth_token(stream, 0));
            assert(nth_token(padded, 3) == nth_token(stream, 1));
            assert(stream_tail(padded, 4) =~= stream_tail(stream, 2));
        }
        self.tokens = Ghost(stream);
        self.cursor = Ghost(0);
    }

    /// The diagnostics recorded so far, oldest first.
    pub fn errors(&self) -> (errors: &Vec<Diagnostic>)
        ensures
            errors@.map_values(|d: Diagnostic| d@) == self.diagnostics(),
    {
        &self.errors
    }

    /// Gives up the parser for the diagnostics it recorded.
    pub fn into_errors(self) -> (errors: Vec<Diagnostic>)
        ensures
            errors@.map_values(|d: Diagnostic| d@) == self.diagnostics(),
    {
        self.errors
    }

    /// Parses statements until the end marker stands where a statement
    /// would start. Statements that could not be built are left out and
    /// leave their diagnostics behind; the result is never `None`.
    pub fn parse_program(&mut self) -> (program: Option<Program>)
        requires
            old(self).wf(),
        ensures
            final(self).follows(
                *old(self),
                grammar::parse_program(
                    old(self).grammar(),
                    old(self).tokens(),
                    old(self).cursor(),
                ).advanced,
                grammar::parse_program(
                    old(self).grammar(),
                    old(self).tokens(),
                    old(self).cursor(),
                ).errors,
            ),
            program is Some,
            program->0@ == grammar::parse_program(
                old(self).grammar(),
                old(self).tokens(),
                old(self).cursor(),
            ).statements,
            nth_token(final(self).tokens(), final(self).cursor()).kind == TokenKind::Eof,
    {
        let mut statements: Vec<Statement> = Vec::new();
        let ghost g = self.grammar();
        let ghost tokens = self.tokens();
        let ghost start = self.cursor();
        let ghost whole = grammar::parse_program(g, tokens, start);
        assert(statements@.map_values(|s: Statement| s@) =~= Seq::<
            StatementView,
        >::empty());
        while !self.is_token(TokenKind::Eof)
            invariant
                self.wf(),
                self.tokens() == tokens,
                self.grammar() == g,
                self.cursor() >= start,
                whole == grammar::parse_program(g, tokens, start),
                old(self).tokens() == tokens,
                old(self).grammar() == g,
                old(self).cursor() == start,
                statements@.map_values(|s: Statement| s@) + grammar::parse_program(
                    g,
                    tokens,
                    self.cursor(),
                ).statements == whole.statements,
                (self.cursor() - start) + grammar::parse_program(
                    g,
                    tokens,
                    self.cursor(),
                ).advanced == whole.advanced,
                self.diagnostics() + grammar::parse_program(g, tokens, self.cursor()).errors
                    == old(self).diagnostics() + whole.errors,
            decreases tokens_left(tokens, self.cursor()),
        {
            let ghost at = self.cursor();
            let ghost done = statements@.map_values(|s: Statement| s@);
            let ghost seen = self.diagnostics();
            let ghost first = grammar::parse_statement(g, tokens, at);
            let ghost rest = grammar::parse_program(g, tokens, at + first.advanced + 1);
            match self.parse_statement() {
                Some(statement) => {
                    statements.push(statement);
                    assert(statements@.map_values(|s: Statement| s@) =~= done + seq![
                        first.node->0,
                    ]);
                    assert(done + (seq![first.node->0] + rest.statements) =~= (done + seq![
                        first.node->0,
                    ]) + rest.statements);
                },
                None => {},
            }
            self.next_token();
            assert(seen + (first.errors + rest.errors) =~= (seen + first.errors) + rest.errors);
        }
        assert(self.diagnostics() + Seq::<DiagnosticView>::empty() =~= self.diagnostics());
        assert(statements@.map_values(|s: Statement| s@) + Seq::<
            StatementView,
        >::empty() =~= statements@.map_values(|s: Statement| s@));
        Some(Program { statements })
    }

    /// Parses the statement that starts at the current token.
    fn parse_statement(&mut self) -> (statement: Option<Statement>)
        requires
            old(self).wf(),
        ensures
            final(self).follows(
                *old(self),
                grammar::parse_statement(
                    old(self).grammar(),
                    old(self).tokens(),
                    old(self).cursor(),
                ).advanced,
                grammar::parse_statement(
                    old(self).grammar(),
                    old(self).tokens(),
                    old(self).cursor(),
                ).errors,
            ),
            same_node(
                statement,
                grammar::parse_statement(
                    old(self).grammar(),
                    old(self).tokens(),
                    old(self).cursor(),
                ).node,
            ),
    {
        match self.current_token {
            Token::Let => {
                match self.parse_let_statement() {
                    Some(x) => Some(Statement::Let(x)),
                    None => None,
                }
            },
            Token::Return => {
                match self.parse_return_statement() {
                    Some(x) => Some(Statement::Return(x)),
                    None => None,
                }
            },
            _ => {
                match self.parse_expression_statement() {
                    Some(x) => Some(Statement::ExpressionStatement(x)),
                    None => None,
                }
            },
        }
    }

    /// Parses `let name = value`, with `let` as the current token.
    fn parse_let_statement(&mut self) -> (statement: Option<Let>)
        requires
            old(self).wf(),
        ensures
            final(self).follows(
                *old(self),
                grammar::parse_let_statement(
                    old(self).grammar(),
                    old(self).tokens(),
                    old(self).cursor(),
                ).advanced,
                grammar::parse_let_statement(
                    old(self).grammar(),
                    old(self).tokens(),
                    old(self).cursor(),
                ).errors,
            ),
            match statement {
                Some(s) => grammar::parse_let_statement(
                    old(self).grammar(),
                    old(self).tokens(),
                    old(self).cursor(),
                ).node == Some(Statement::Let(s)@),
                None => grammar::parse_let_statement(
                    old(self).grammar(),
                    old(self).tokens(),
                    old(self).cursor(),
                ).node is None,
            },
    {
        let ghost seen = self.diagnostics();
        if !self.expect(TokenKind::Ident) {
            return None;
        }
        let name = Ident { value: self.current_token.to_string() };

        if !self.expect(TokenKind::Assign) {
            assert(seen + Seq::<DiagnosticView>::empty() =~= seen);
            return None;
        }
        self.next_token();

        let value = match self.parse_expression(Precedence::Lowest) {
            Some(value) => value,
            None => {
                assert(seen + Seq::<DiagnosticView>::empty() =~= seen);
                return None;
            },
        };

        if self.is_peek_token(TokenKind::Semicolon) {
            self.next_token();
        }
        assert(seen + Seq::<DiagnosticView>::empty() =~= seen);
        Some(Let { name, value })
    }

    /// Parses `return value`, with `return` as the current token.
    fn parse_return_statement(&mut self) -> (statement: Option<Return>)
        requires
            old(self).wf(),
        ensures
            final(self).follows(
                *old(self),
                grammar::parse_return_statement(
                    old(self).grammar(),
                    old(self).tokens(),
                    old(self).cursor(),
                ).advanced,
                grammar::parse_return_statement(
                    old(self).grammar(),
                    old(self).tokens(),
                    old(self).cursor(),
                ).errors,
            ),
            match statement {
                Some(s) => grammar::parse_return_statement(
                    old(self).grammar(),
                    old(self).tokens(),
                    old(self).cursor(),
                ).node == Some(Statement::Return(s)@),
                None => grammar::parse_return_statement(
                    old(self).grammar(),
                    old(self).tokens(),
                    old(self).cursor(),
                ).node is None,
            },
    {
        let ghost seen = self.diagnostics();
        self.next_token();
        assert(seen + Seq::<DiagnosticView>::empty() =~= seen);

        let value = match self.parse_expression(Precedence::Lowest) {
            Some(value) => value,
            None => {
                return None;
            },
        };

        if self.is_peek_token(TokenKind::Semicolon) {
            self.next_token();
        }
        Some(Return { value })
    }

    /// Parses the expression at the current token as a statement.
    fn parse_expression_statement(&mut self) -> (statement: Option<ExpressionStatement>)
        requires
            old(self).wf(),
        ensures
            final(self).follows(
                *old(self),
                grammar::parse_expression_statement(
                    old(self).grammar(),
                    old(self).tokens(),
                    old(self).cursor(),
                ).advanced,
                grammar::parse_expression_statement(
                    old(self).grammar(),
                    old(self).tokens(),
                    old(self).cursor(),
                ).errors,
            ),
            match statement {
                Some(s) => grammar::parse_expression_statement(
                    old(self).grammar(),
                    old(self).tokens(),
                    old(self).cursor(),
                ).node == Some(Statement::ExpressionStatement(s)@),
                None => grammar::parse_expression_statement(
                    old(self).grammar(),
                    old(self).tokens(),
                    old(self).cursor(),
                ).node is None,
            },
    {
        let value = match self.parse_expression(Precedence::Lowest) {
            Some(value) => value,
            None => {
                return None;
            },
        };

        if self.is_peek_token(TokenKind::Semicolon) {
            self.next_token();
        }
        Some(ExpressionStatement { value })
    }

    /// Parses the expression that starts at the current token, as far as
    /// operators binding tighter than `p` reach.
    fn parse_expression(&mut self, p: Precedence) -> (expression: Option<Expression>)
        requires
            old(self).wf(),
        ensures
            final(self).follows(
                *old(self),
                grammar::parse_expression(
                    old(self).grammar(),
                    old(self).tokens(),
                    old(self).cursor(),
                    p,
                ).advanced,
                grammar::parse_expression(
                    old(self).grammar(),
                    old(self).tokens(),
                    old(self).cursor(),
                    p,
                ).errors,
            ),
            same_node(
                expression,
                grammar::parse_expression(
                    old(self).grammar(),
                    old(self).tokens(),
                    old(self).cursor(),
                    p,
                ).node,
            ),
        decreases tokens_left(old(self).tokens(), old(self).cursor()), 2nat,
    {
        let ghost g = self.grammar();
        let ghost tokens = self.tokens();
        let ghost start = self.cursor();
        let ghost seen = self.diagnostics();
        let ghost whole = grammar::parse_expression(g, tokens, start, p);

        let kind = self.current_token.kind();
        let parser = match self.prefix_parser(kind) {
            Some(parser) => parser,
            None => {
                self.record(Diagnostic::NoPrefixParser { kind });
                return None;
            },
        };
        let ghost first = grammar::parse_prefix(g, tokens, start, parser);
        let mut left = match self.parse_prefix(parser) {
            Some(left) => left,
            None => {
                return None;
            },
        };
        assert(seen + (first.errors + Seq::<DiagnosticView>::empty()) =~= seen + first.errors);

        while !self.is_peek_token(TokenKind::Semicolon) && !self.is_peek_token(TokenKind::Eof)
            && p.below(token_precedence(self.peek_token.kind()))
            invariant
                self.wf(),
                self.tokens() == tokens,
                self.grammar() == g,
                self.cursor() >= start,
                old(self).tokens() == tokens,
                old(self).grammar() == g,
                old(self).cursor() == start,
                old(self).diagnostics() == seen,
                whole == grammar::parse_expression(g, tokens, start, p),
                whole.node == grammar::parse_infix_chain(g, tokens, self.cursor(), left@, p).node,
                whole.advanced == (self.cursor() - start) + grammar::parse_infix_chain(
                    g,
                    tokens,
                    self.cursor(),
                    left@,
                    p,
                ).advanced,
                seen + whole.errors == self.diagnostics() + grammar::parse_infix_chain(
                    g,
                    tokens,
                    self.cursor(),
                    left@,
                    p,
                ).errors,
                tokens_left(tokens, self.cursor()) <= tokens_left(tokens, start),
            decreases tokens_left(tokens, self.cursor()),
        {
            let ghost at = self.cursor();
            let ghost so_far = self.diagnostics();
            let parser = match self.infix_parser(self.peek_token.kind()) {
                Some(parser) => parser,
                None => {
                    assert(so_far + Seq::<DiagnosticView>::empty() =~= so_far);
                    return Some(left);
                },
            };
            let ghost step = grammar::parse_infix(g, tokens, at + 1, parser, left@);
            self.next_token();
            assert(so_far + Seq::<DiagnosticView>::empty() =~= so_far);
            left = match self.parse_infix(parser, left) {
                Some(joined) => joined,
                None => {
                    return None;
                },
            };
            proof {
                let rest = grammar::parse_infix_chain(g, tokens, self.cursor(), left@, p);
                assert(so_far + (step.errors + rest.errors) =~= (so_far + step.errors)
                    + rest.errors);
            }
        }
        assert(self.diagnostics() + Seq::<DiagnosticView>::empty() =~= self.diagnostics());
        Some(left)
    }

    /// Parses the expression the current token starts, as `parser` reads
    /// it.
    fn parse_prefix(&mut self, parser: PrefixParser) -> (expression: Option<Expression>)
        requires
            old(self).wf(),
            nth_token(old(self).tokens(), old(self).cursor()).kind != TokenKind::Eof,
        ensures
            final(self).follows(
                *old(self),
                grammar::parse_prefix(
                    old(self).grammar(),
                    old(self).tokens(),
                    old(self).cursor(),
                    parser,
                ).advanced,
                grammar::parse_prefix(
                    old(self).grammar(),
                    old(self).tokens(),
                    old(self).cursor(),
                    parser,
                ).errors,
            ),
            same_node(
                expression,
                grammar::parse_prefix(
                    old(self).grammar(),
                    old(self).tokens(),
                    old(self).cursor(),
                    parser,
                ).node,
            ),
        decreases tokens_left(old(self).tokens(), old(self).cursor()), 1nat,
    {
        let ghost seen = self.diagnostics();
        assert(seen + Seq::<DiagnosticView>::empty() =~= seen);
        match parser {
            PrefixParser::Identifier => Some(self.parse_identifier()),
            PrefixParser::IntegerLiteral => self.parse_integer_literal(),
            PrefixParser::Operator(operator) => {
                self.next_token();
                match self.parse_expression(Precedence::Prefix) {
                    Some(right) => Some(
                        Expression::Prefix(Prefix { operator, right: Box::new(right) }),
                    ),
                    None => None,
                }
            },
        }
    }

    /// Joins `left` with what follows the operator at the current token, as
    /// `parser` reads it.
    fn parse_infix(&mut self, parser: InfixParser, left: Expression) -> (expression: Option<
        Expression,
    >)
        requires
            old(self).wf(),
            nth_token(old(self).tokens(), old(self).cursor()).kind != TokenKind::Eof,
        ensures
            final(self).follows(
                *old(self),
                grammar::parse_infix(
                    old(self).grammar(),
                    old(self).tokens(),
                    old(self).cursor(),
                    parser,
                    left@,
                ).advanced,
                grammar::parse_infix(
                    old(self).grammar(),
                    old(self).tokens(),
                    old(self).cursor(),
                    parser,
                    left@,
                ).errors,
            ),
            same_node(
                expression,
                grammar::parse_infix(
                    old(self).grammar(),
                    old(self).tokens(),
                    old(self).cursor(),
                    parser,
                    left@,
                ).node,
            ),
        decreases tokens_left(old(self).tokens(), old(self).cursor()), 1nat,
    {
        let ghost seen = self.diagnostics();
        assert(seen + Seq::<DiagnosticView>::empty() =~= seen);
        match parser {
            InfixParser::Binary(operator) => {
                let level = token_precedence(self.current_token.kind());
                self.next_token();
                match self.parse_expression(level) {
                    Some(right) => Some(
                        Expression::Infix(
                            Infix { operator, left: Box::new(left), right: Box::new(right) },
                        ),
                    ),
                    None => None,
                }
            },
        }
    }

    /// The identifier the current token names.
    fn parse_identifier(&self) -> (expression: Expression)
        requires
            self.wf(),
            nth_token(self.tokens(), self.cursor()).kind != TokenKind::Eof,
        ensures
            Some(expression@) == grammar::parse_prefix(
                self.grammar(),
                self.tokens(),
                self.cursor(),
                PrefixParser::Identifier,
            ).node,
    {
        Expression::Ident(Ident { value: self.current_token.to_string() })
    }

    /// The integer the current token's text denotes. A text that denotes
    /// no 64-bit unsigned integer is recorded as a diagnostic.
    fn parse_integer_literal(&mut self) -> (expression: Option<Expression>)
        requires
            old(self).wf(),
            nth_token(old(self).tokens(), old(self).cursor()).kind != TokenKind::Eof,
        ensures
            final(self).follows(
                *old(self),
                0,
                grammar::parse_prefix(
                    old(self).grammar(),
                    old(self).tokens(),
                    old(self).cursor(),
                    PrefixParser::IntegerLiteral,
                ).errors,
            ),
            same_node(
                expression,
                grammar::parse_prefix(
                    old(self).grammar(),
                    old(self).tokens(),
                    old(self).cursor(),
                    PrefixParser::IntegerLiteral,
                ).node,
            ),
    {
        let ghost seen = self.diagnostics();
        assert(seen + Seq::<DiagnosticView>::empty() =~= seen);
        let text = self.current_token.to_string();
        match parse_u64(text.as_str()) {
            Some(value) => Some(Expression::IntegerLiteral(IntegerLiteral { value })),
            None => {
                self.record(Diagnostic::InvalidInteger { text });
                None
            },
        }
    }

    /// Shifts the lookahead token into the current slot and pulls the next
    /// token from the tokenizer into the lookahead slot.
    fn next_token(&mut self)
        requires
            old(self).wf(),
        ensures
            final(self).follows(*old(self), 1, Seq::empty()),
    {
        let ghost seen = self.diagnostics();
        assert(seen + Seq::<DiagnosticView>::empty() =~= seen);
        let ghost tokens = self.tokens@;
        let ghost at = self.cursor@ as int;
        let ghost tail = self.lexer.upcoming();
        let next = self.lexer.next().unwrap();
        std::mem::swap(&mut self.current_token, &mut self.peek_token);
        self.peek_token = next;
        self.cursor = Ghost((self.cursor@ + 1) as nat);
        proof {
            if at + 2 < tokens.len() {
                if tail.len() > 1 {
                    assert(tokens.skip(at + 2).drop_first() =~= tokens.skip(at + 3));
                } else {
                    assert(tokens.skip(at + 2) =~= seq![TokenView::eof()]);
                }
            }
        }
    }

    /// True when the current token is of kind `tok`.
    fn is_token(&self, tok: TokenKind) -> (is: bool)
        requires
            self.wf(),
        ensures
            is == (nth_token(self.tokens(), self.cursor()).kind == tok),
    {
        self.current_token.kind() == tok
    }

    /// True when the lookahead token is of kind `tok`.
    fn is_peek_token(&self, tok: TokenKind) -> (is: bool)
        requires
            self.wf(),
        ensures
            is == (nth_token(self.tokens(), self.cursor() + 1).kind == tok),
    {
        self.peek_token.kind() == tok
    }

    /// Moves onto the lookahead token if it is of kind `tok`. Otherwise
    /// records what was expected and what stands there, and stays.
    fn expect(&mut self, tok: TokenKind) -> (found: bool)
        requires
            old(self).wf(),
        ensures
            found == (nth_token(old(self).tokens(), old(self).cursor() + 1).kind == tok),
            found ==> final(self).follows(*old(self), 1, Seq::empty()),
            !found ==> final(self).follows(
                *old(self),
                0,
                seq![
                    DiagnosticView::UnexpectedToken {
                        expected: tok,
                        actual: nth_token(old(self).tokens(), old(self).cursor() + 1),
                    },
                ],
            ),
    {
        if self.is_peek_token(tok) {
            self.next_token();
            true
        } else {
            let actual = self.peek_token.duplicate();
            self.record(Diagnostic::UnexpectedToken { expected: tok, actual });
            false
        }
    }

    /// Appends a diagnostic.
    fn record(&mut self, diagnostic: Diagnostic)
        requires
            old(self).wf(),
        ensures
            final(self).follows(*old(self), 0, seq![diagnostic@]),
    {
        let ghost seen = self.diagnostics();
        self.errors.push(diagnostic);
        assert(self.diagnostics() =~= seen + seq![diagnostic@]);
    }

    /// The prefix parser registered for `kind`; none for the end marker.
    fn prefix_parser(&self, kind: TokenKind) -> (parser: Option<PrefixParser>)
        ensures
            parser == self.grammar().prefix_for(kind),
    {
        if kind == TokenKind::Eof {
            return None;
        }
        match self.prefix_parsers.get(&kind.index()) {
            Some(parser) => Some(*parser),
            None => None,
        }
    }

    /// The infix parser registered for `kind`.
    fn infix_parser(&self, kind: TokenKind) -> (parser: Option<InfixParser>)
        ensures
            parser == self.grammar().infix_for(kind),
    {
        match self.infix_parsers.get(&kind.index()) {
            Some(parser) => Some(*parser),
            None => None,
        }
    }

    /// Makes `p` the infix parser for tokens of kind `tok`.
    pub fn register_infix(&mut self, tok: TokenKind, p: InfixParser)
        requires
            old(self).wf(),
        ensures
            final(self).wf(),
            final(self).tokens() == old(self).tokens(),
            final(self).cursor() == old(self).cursor(),
            final(self).diagnostics() == old(self).diagnostics(),
            final(self).grammar() == (Grammar {
                prefix: old(self).grammar().prefix,
                infix: old(self).grammar().infix.insert(tok, p),
            }),
    {
        self.infix_parsers.insert(tok.index(), p);
        proof {
            assert forall|kind: TokenKind| kind.index() == tok.index() implies kind == tok by {
                lemma_index_is_injective(kind, tok);
            }
            assert(self.grammar().infix =~= old(self).grammar().infix.insert(tok, p));
        }
    }

    /// Makes `p` the prefix parser for tokens of kind `tok`.
    pub fn register_prefix(&mut self, tok: TokenKind, p: PrefixParser)
        requires
            old(self).wf(),
        ensures
            final(self).wf(),
            final(self).tokens() == old(self).tokens(),
            final(self).cursor() == old(self).cursor(),
            final(self).diagnostics() == old(self).diagnostics(),
            final(self).grammar() == (Grammar {
                prefix: old(self).grammar().prefix.insert(tok, p),
                infix: old(self).grammar().infix,
            }),
    {
        self.prefix_parsers.insert(tok.index(), p);
        proof {
            assert forall|kind: TokenKind| kind.index() == tok.index() implies kind == tok by {
                lemma_index_is_injective(kind, tok);
            }
            assert(self.grammar().prefix =~= old(self).grammar().prefix.insert(tok, p));
        }
    }
}

/// Parses a complete source text with the tables of the language. Returns
/// the statements that could be built, in source order, and every
/// diagnostic recorded on the way; a parse without diagnostics is clean.
/// The text must be shorter than `usize::MAX` bytes.
pub fn parse(input: String) -> (result: (Program, Vec<Diagnostic>))
    requires
        encode_utf8(input@).len() < usize::MAX,
    ensures
        result.0@ == parse_source(encode_utf8(input@)).statements,
        result.1@.map_values(|d: Diagnostic| d@) == parse_source(encode_utf8(input@)).errors,
{
    let lexer = Lexer::new(input);
    let mut parser = Parser::new(lexer);
    let ghost seen = parser.diagnostics();
    let program = parser.parse_program().unwrap();
    let errors = parser.into_errors();
    assert(seen + parse_source(encode_utf8(input@)).errors =~= parse_source(
        encode_utf8(input@),
    ).errors);
    (program, errors)
}

} // verus!
