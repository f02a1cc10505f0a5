//! The tokenizer: a cursor over a byte buffer that yields one token per
//! call, and the mathematical description of what it yields.

use vstd::prelude::*;
use vstd::utf8::encode_utf8;
use vstd::string::StrSliceExecFns;
use crate::text::{same_text, text_of, text_of_bytes};
pub use crate::token::{Token, TokenKind, TokenView};

verus! {

/// The byte classes the scanner groups into runs.
#[derive(Debug, PartialEq, Eq, Clone, Copy, Structural)]
pub enum ByteClass {
    /// Space, tab, line feed and carriage return.
    Blank,
    /// ASCII letters and the underscore.
    Letter,
    /// ASCII decimal digits.
    Digit,
}

impl ByteClass {
    pub open spec fn spec_contains(self, b: u8) -> bool {
        match self {
            ByteClass::Blank => b == ' ' as u8 || b == '\t' as u8 || b == '\n' as u8 || b
                == '\r' as u8,
            ByteClass::Letter => ('a' as u8 <= b && b <= 'z' as u8) || ('A' as u8 <= b && b
                <= 'Z' as u8) || b == '_' as u8,
            ByteClass::Digit => '0' as u8 <= b && b <= '9' as u8,
        }
    }

    /// Membership of a byte in the class. The zero byte is in no class.
    #[verifier::when_used_as_spec(spec_contains)]
    pub fn contains(self, b: u8) -> (member: bool)
        ensures
            member == self.spec_contains(b),
            member ==> b != 0,
    {
        match self {
            ByteClass::Blank => b == ' ' as u8 || b == '\t' as u8 || b == '\n' as u8 || b
                == '\r' as u8,
            ByteClass::Letter => ('a' as u8 <= b && b <= 'z' as u8) || ('A' as u8 <= b && b
                <= 'Z' as u8) || b == '_' as u8,
            ByteClass::Digit => '0' as u8 <= b && b <= '9' as u8,
        }
    }
}

/// The byte at index `i`, or the zero sentinel outside the input.
pub open spec fn byte_at(input: Seq<u8>, i: int) -> u8 {
    if 0 <= i < input.len() {
        input[i]
    } else {
        0
    }
}

/// The end of the maximal run of bytes of `class` that starts at `from`:
/// the first index at or after `from` whose byte is outside the class, or
/// the end of the input.
pub open spec fn run_end(input: Seq<u8>, from: int, class: ByteClass) -> int
    decreases input.len() - from,
{
    if 0 <= from < input.len() && class.contains(input[from]) {
        run_end(input, from + 1, class)
    } else {
        from
    }
}

/// The token kind of a single-byte operator or delimiter.
pub open spec fn punctuation(b: u8) -> Option<TokenKind> {
    if b == '=' as u8 {
        Some(TokenKind::Assign)
    } else if b == '!' as u8 {
        Some(TokenKind::Bang)
    } else if b == '+' as u8 {
        Some(TokenKind::Plus)
    } else if b == '-' as u8 {
        Some(TokenKind::Minus)
    } else if b == '*' as u8 {
        Some(TokenKind::Asterisk)
    } else if b == '/' as u8 {
        Some(TokenKind::Slash)
    } else if b == '<' as u8 {
        Some(TokenKind::Lt)
    } else if b == '>' as u8 {
        Some(TokenKind::Gt)
    } else if b == ',' as u8 {
        Some(TokenKind::Comma)
    } else if b == ';' as u8 {
        Some(TokenKind::Semicolon)
    } else if b == '(' as u8 {
        Some(TokenKind::Lparen)
    } else if b == ')' as u8 {
        Some(TokenKind::Rparen)
    } else if b == '{' as u8 {
        Some(TokenKind::Lbrace)
    } else if b == '}' as u8 {
        Some(TokenKind::Rbrace)
    } else {
        None
    }
}

/// The kind of a maximal run of letters: the keyword it spells, or an
/// identifier.
pub open spec fn word_kind(word: Seq<char>) -> TokenKind {
    if word == TokenKind::If.lexeme() {
        TokenKind::If
    } else if word == TokenKind::Function.lexeme() {
        TokenKind::Function
    } else if word == TokenKind::Let.lexeme() {
        TokenKind::Let
    } else if word == TokenKind::Else.lexeme() {
        TokenKind::Else
    } else if word == TokenKind::True.lexeme() {
        TokenKind::True
    } else if word == TokenKind::False.lexeme() {
        TokenKind::False
    } else if word == TokenKind::Return.lexeme() {
        TokenKind::Return
    } else {
        TokenKind::Ident
    }
}

/// The token a maximal run of letters becomes.
pub open spec fn word_token(word: Seq<char>) -> TokenView {
    TokenView { kind: word_kind(word), text: word }
}

/// The text an unrecognised byte is reported as: the character itself for
/// an ASCII byte, the replacement character for any other.
pub open spec fn illegal_text(b: u8) -> Seq<char> {
    if b < 0x80 {
        seq![b as char]
    } else {
        seq!['\u{FFFD}']
    }
}

/// A token together with the cursor position that follows it.
pub struct Scanned {
    pub token: TokenView,
    pub next: int,
}

/// The token that starts exactly at `start`, where no blank stands. A zero
/// byte, inside the input or past its end, is the end marker: it is not
/// passed, so the cursor rests on it.
pub open spec fn token_at(input: Seq<u8>, start: int) -> Scanned {
    let b = byte_at(input, start);
    let follow = byte_at(input, start + 1);
    if b == '=' as u8 && follow == '=' as u8 {
        Scanned { token: TokenView::fixed(TokenKind::Eq), next: start + 2 }
    } else if b == '!' as u8 && follow == '=' as u8 {
        Scanned { token: TokenView::fixed(TokenKind::NotEq), next: start + 2 }
    } else if punctuation(b) is Some {
        Scanned { token: TokenView::fixed(punctuation(b)->0), next: start + 1 }
    } else if ByteClass::Letter.contains(b) {
        let end = run_end(input, start, ByteClass::Letter);
        Scanned { token: word_token(text_of(input.subrange(start, end))), next: end }
    } else if ByteClass::Digit.contains(b) {
        let end = run_end(input, start, ByteClass::Digit);
        Scanned {
            token: TokenView { kind: TokenKind::Int, text: text_of(input.subrange(start, end)) },
            next: end,
        }
    } else if b == 0 {
        Scanned { token: TokenView::eof(), next: start }
    } else {
        Scanned {
            token: TokenView { kind: TokenKind::Illegal, text: illegal_text(b) },
            next: start + 1,
        }
    }
}

/// One step of the tokenizer from cursor position `pos`: skip blanks, then
/// read the token that follows.
pub open spec fn scan(input: Seq<u8>, pos: int) -> Scanned {
    token_at(input, run_end(input, pos, ByteClass::Blank))
}

/// A run ends at or after its start and inside the input; every byte of the
/// run is in the class and the byte that follows it is not.
pub proof fn lemma_run_end(input: Seq<u8>, from: int, class: ByteClass)
    requires
        0 <= from <= input.len(),
    ensures
        from <= run_end(input, from, class) <= input.len(),
        forall|i: int| from <= i < run_end(input, from, class) ==> class.contains(#[trigger] input[i]),
        !class.contains(byte_at(input, run_end(input, from, class))),
    decreases input.len() - from,
{
    if from < input.len() && class.contains(input[from]) {
        lemma_run_end(input, from + 1, class);
    }
}

/// A step never moves the cursor back or beyond the end. A step that
/// yields a token other than the end marker moves the cursor forward; a step
/// that yields the end marker leaves the cursor on a zero byte or at the
/// end, where the next step yields the end marker again.
pub proof fn lemma_scan_progress(input: Seq<u8>, pos: int)
    requires
        0 <= pos <= input.len(),
    ensures
        pos <= scan(input, pos).next <= input.len(),
        scan(input, pos).token.kind != TokenKind::Eof ==> pos < scan(input, pos).next,
        scan(input, pos).token.kind == TokenKind::Eof ==> {
            &&& scan(input, pos).token == TokenView::eof()
            &&& byte_at(input, scan(input, pos).next) == 0
            &&& scan(input, scan(input, pos).next) == scan(input, pos)
        },
        pos == input.len() ==> scan(input, pos).token == TokenView::eof(),
{
    let start = run_end(input, pos, ByteClass::Blank);
    lemma_run_end(input, pos, ByteClass::Blank);
    let b = byte_at(input, start);
    if ByteClass::Letter.contains(b) {
        lemma_run_end(input, start, ByteClass::Letter);
    }
    if ByteClass::Digit.contains(b) {
        lemma_run_end(input, start, ByteClass::Digit);
    }
    if token_at(input, start).token.kind == TokenKind::Eof {
        assert(b == 0);
        assert(run_end(input, start, ByteClass::Blank) == start);
    }
}

/// The tokens the tokenizer yields from cursor position `pos`: every token
/// up to the first end marker, and that end marker. The sequence is never
/// empty, ends with the end marker and holds no other; after it the
/// tokenizer yields the end marker on every call.
pub open spec fn tokens_from(input: Seq<u8>, pos: int) -> Seq<TokenView>
    decreases input.len() - pos,
{
    let step = scan(input, pos);
    if 0 <= pos < input.len() && step.token.kind != TokenKind::Eof {
        proof {
            lemma_scan_progress(input, pos);
        }
        seq![step.token] + tokens_from(input, step.next)
    } else {
        seq![TokenView::eof()]
    }
}

/// The first token of the stream is the one the next step yields, and the
/// rest of the stream is the stream from the position that follows it. The
/// stream is the end marker alone exactly when the next step yields the end
/// marker, and then it stays as it is.
pub proof fn lemma_tokens_from_step(input: Seq<u8>, pos: int)
    requires
        0 <= pos <= input.len(),
    ensures
        tokens_from(input, pos).len() >= 1,
        tokens_from(input, pos).first() == scan(input, pos).token,
        tokens_from(input, pos).last() == TokenView::eof(),
        tokens_from(input, pos).len() == 1 <==> scan(input, pos).token.kind == TokenKind::Eof,
        scan(input, pos).token.kind == TokenKind::Eof ==> tokens_from(input, pos)
            == seq![TokenView::eof()],
        tokens_from(input, scan(input, pos).next) == if tokens_from(input, pos).len() > 1 {
            tokens_from(input, pos).drop_first()
        } else {
            tokens_from(input, pos)
        },
    decreases input.len() - pos,
{
    let step = scan(input, pos);
    lemma_scan_progress(input, pos);
    if pos < input.len() && step.token.kind != TokenKind::Eof {
        lemma_tokens_from_step(input, step.next);
        let rest = tokens_from(input, step.next);
        assert((seq![step.token] + rest).drop_first() =~= rest);
    } else {
        assert(step.token.kind == TokenKind::Eof);
        assert(scan(input, step.next) == step);
        assert(tokens_from(input, step.next) == seq![TokenView::eof()]);
    }
}

/// The tokenizer over a source text.
#[derive(Debug)]
pub struct Lexer {
    ch: u8,
    input: Vec<u8>,
    position: usize,
    read_position: usize,
}

impl Lexer {
    /// The bytes being tokenized.
    pub closed spec fn source(&self) -> Seq<u8> {
        self.input@
    }

    /// The index of the byte the cursor stands on: an index of the source,
    /// or its length once the end is reached.
    pub closed spec fn cursor(&self) -> int {
        self.position as int
    }

    /// The cursor invariant: the cursor is inside the source or at its end,
    /// the read position is one past the cursor, and the current byte is
    /// the byte under the cursor, zero at the end. The source is short
    /// enough for the read position to be a machine integer.
    pub closed spec fn wf(&self) -> bool {
        &&& self.input.len() < usize::MAX
        &&& self.position <= self.input.len()
        &&& self.read_position == self.position + 1
        &&& self.ch == byte_at(self.input@, self.position as int)
    }

    /// A tokenizer positioned at the start of `input`. The text must be
    /// shorter than `usize::MAX` bytes, so that the position after its last
    /// byte can be counted.
    pub fn new(input: String) -> (lexer: Lexer)
        requires
            encode_utf8(input@).len() < usize::MAX,
        ensures
            lexer.wf(),
            lexer.source() == encode_utf8(input@),
            lexer.cursor() == 0,
    {
        let mut lex = Lexer {
            ch: 0,
            input: input.as_str().as_bytes_vec(),
            position: 0,
            read_position: 0,
        };
        lex.read_char();
        lex
    }

    /// Moves the cursor to the read position, loads the byte there, and
    /// moves the read position one further. At or past the end of the input
    /// the current byte is zero.
    fn read_char(&mut self)
        requires
            old(self).read_position < usize::MAX,
        ensures
            final(self).input == old(self).input,
            final(self).position == old(self).read_position,
            final(self).read_position == old(self).read_position + 1,
            final(self).ch == byte_at(old(self).input@, old(self).read_position as int),
    {
        if self.read_position >= self.input.len() {
            self.ch = 0;
        } else {
            self.ch = self.input[self.read_position];
        }
        self.position = self.read_position;
        self.read_position += 1;
    }

    /// The byte after the current one, without moving the cursor.
    fn peek_char(&self) -> (b: u8)
        requires
            self.wf(),
        ensures
            b == byte_at(self.source(), self.cursor() + 1),
    {
        if self.read_position >= self.input.len() {
            return 0;
        } else {
            return self.input[self.read_position];
        }
    }

    /// Moves the cursor to the end of the run of `class` bytes it stands on.
    fn skip_run(&mut self, class: ByteClass)
        requires
            old(self).wf(),
        ensures
            final(self).wf(),
            final(self).input == old(self).input,
            final(self).cursor() == run_end(old(self).source(), old(self).cursor(), class),
    {
        while class.contains(self.ch)
            invariant
                self.wf(),
                self.input == old(self).input,
                run_end(self.input@, self.position as int, class) == run_end(
                    old(self).input@,
                    old(self).position as int,
                    class,
                ),
            decreases self.input.len() - self.position,
        {
            proof {
                let at = self.position as int;
                assert(run_end(self.input@, at, class) == run_end(self.input@, at + 1, class));
            }
            self.read_char();
        }
    }

    /// Moves the cursor past any blanks it stands on.
    fn skip_whitespace(&mut self)
        requires
            old(self).wf(),
        ensures
            final(self).wf(),
            final(self).source() == old(self).source(),
            final(self).cursor() == run_end(old(self).source(), old(self).cursor(), ByteClass::Blank),
    {
        self.skip_run(ByteClass::Blank);
    }

    /// Reads the maximal run of letters under the cursor and returns its
    /// text.
    fn read_identifier(&mut self) -> (word: String)
        requires
            old(self).wf(),
        ensures
            final(self).wf(),
            final(self).source() == old(self).source(),
            final(self).cursor() == run_end(old(self).source(), old(self).cursor(), ByteClass::Letter),
            word@ == text_of(old(self).source().subrange(old(self).cursor(), final(self).cursor())),
    {
        let current_position = self.position;
        proof {
            lemma_run_end(self.input@, self.position as int, ByteClass::Letter);
        }
        self.skip_run(ByteClass::Letter);
        text_of_bytes(&self.input, current_position, self.position)
    }

    /// Reads the maximal run of digits under the cursor and returns its
    /// text.
    fn read_integer(&mut self) -> (digits: String)
        requires
            old(self).wf(),
        ensures
            final(self).wf(),
            final(self).source() == old(self).source(),
            final(self).cursor() == run_end(old(self).source(), old(self).cursor(), ByteClass::Digit),
            digits@ == text_of(old(self).source().subrange(old(self).cursor(), final(self).cursor())),
    {
        let current_position = self.position;
        proof {
            lemma_run_end(self.input@, self.position as int, ByteClass::Digit);
        }
        self.skip_run(ByteClass::Digit);
        text_of_bytes(&self.input, current_position, self.position)
    }

    /// The tokens still to come: every token up to the first end marker,
    /// and that end marker.
    pub open spec fn upcoming(&self) -> Seq<TokenView> {
        tokens_from(self.source(), self.cursor())
    }

    /// True when nothing but the end marker is still to come.
    pub open spec fn exhausted(&self) -> bool {
        self.upcoming() == seq![TokenView::eof()]
    }

    /// Yields the next token and moves the cursor past it. The result is
    /// never `None`. The end marker is not passed: once it has been
    /// yielded, every later call yields it again.
    pub fn next(&mut self) -> (token: Option<Token>)
        requires
            old(self).wf(),
        ensures
            final(self).wf(),
            final(self).source() == old(self).source(),
            token is Some,
            token->0@ == scan(old(self).source(), old(self).cursor()).token,
            final(self).cursor() == scan(old(self).source(), old(self).cursor()).next,
            token->0@.kind == TokenKind::Eof <==> old(self).exhausted(),
            token->0@.kind == TokenKind::Eof ==> token->0@ == TokenView::eof()
                && final(self).exhausted(),
            token->0@ == old(self).upcoming().first(),
            final(self).upcoming() == if old(self).upcoming().len() > 1 {
                old(self).upcoming().drop_first()
            } else {
                old(self).upcoming()
            },
    {
        proof {
            lemma_run_end(self.input@, self.position as int, ByteClass::Blank);
            lemma_scan_progress(self.input@, self.position as int);
            lemma_tokens_from_step(self.input@, self.position as int);
        }
        self.skip_whitespace();
        let b = self.ch;
        let tok = if b == '=' as u8 {
            if self.peek_char() == '=' as u8 {
                self.read_char();
                Token::Eq
            } else {
                Token::Assign
            }
        } else if b == '!' as u8 {
            if self.peek_char() == '=' as u8 {
                self.read_char();
                Token::NotEq
            } else {
                Token::Bang
            }
        } else if b == '+' as u8 {
            Token::Plus
        } else if b == '-' as u8 {
            Token::Minus
        } else if b == '*' as u8 {
            Token::Asterisk
        } else if b == '/' as u8 {
            Token::Slash
        } else if b == '<' as u8 {
            Token::Lt
        } else if b == '>' as u8 {
            Token::Gt
        } else if b == ',' as u8 {
            Token::Comma
        } else if b == ';' as u8 {
            Token::Semicolon
        } else if b == '(' as u8 {
            Token::Lparen
        } else if b == ')' as u8 {
            Token::Rparen
        } else if b == '{' as u8 {
            Token::Lbrace
        } else if b == '}' as u8 {
            Token::Rbrace
        } else if ByteClass::Letter.contains(b) {
            let ident = self.read_identifier();
            return Some(lookup_word(ident));
        } else if ByteClass::Digit.contains(b) {
            return Some(Token::Int(self.read_integer()));
        } else if b == 0 {
            return Some(Token::Eof);
        } else {
            Token::Illegal(illegal_string(b))
        };
        self.read_char();
        Some(tok)
    }
}

/// The keyword a word spells, or the identifier it names.
pub fn lookup_word(word: String) -> (token: Token)
    ensures
        token@ == word_token(word@),
{
    proof {
        reveal_strlit("if");
        reveal_strlit("fn");
        reveal_strlit("let");
        reveal_strlit("else");
        reveal_strlit("true");
        reveal_strlit("false");
        reveal_strlit("return");
    }
    let w = word.as_str();
    if same_text(w, "if") {
        assert("if"@ =~= TokenKind::If.lexeme());
        Token::If
    } else if same_text(w, "fn") {
        assert("fn"@ =~= TokenKind::Function.lexeme());
        Token::Function
    } else if same_text(w, "let") {
        assert("let"@ =~= TokenKind::Let.lexeme());
        Token::Let
    } else if same_text(w, "else") {
        assert("else"@ =~= TokenKind::Else.lexeme());
        Token::Else
    } else if same_text(w, "true") {
        assert("true"@ =~= TokenKind::True.lexeme());
        Token::True
    } else if same_text(w, "false") {
        assert("false"@ =~= TokenKind::False.lexeme());
        Token::False
    } else if same_text(w, "return") {
        assert("return"@ =~= TokenKind::Return.lexeme());
        Token::Return
    } else {
        assert("if"@ =~= TokenKind::If.lexeme());
        assert("fn"@ =~= TokenKind::Function.lexeme());
        assert("let"@ =~= TokenKind::Let.lexeme());
        assert("else"@ =~= TokenKind::Else.lexeme());
        assert("true"@ =~= TokenKind::True.lexeme());
        assert("false"@ =~= TokenKind::False.lexeme());
        assert("return"@ =~= TokenKind::Return.lexeme());
        Token::Ident(word)
    }
}

/// The text an unrecognised byte is reported as.
fn illegal_string(b: u8) -> (text: String)
    ensures
        text@ == illegal_text(b),
{
    let mut text = String::new();
    if b < 0x80 {
        text.push(b as char);
    } else {
        text.push('\u{FFFD}');
    }
    text
}

/// Tokenizes a complete source text: every token up to the first end
/// marker, and that end marker. The text must be shorter than `usize::MAX`
/// bytes.
pub fn tokenize(input: String) -> (tokens: Vec<Token>)
    requires
        encode_utf8(input@).len() < usize::MAX,
    ensures
        tokens@.map_values(|t: Token| t@) == tokens_from(encode_utf8(input@), 0),
{
    let mut lexer = Lexer::new(input);
    let mut tokens: Vec<Token> = Vec::new();
    let ghost source = lexer.source();
    loop
        invariant_except_break
            tokens@.map_values(|t: Token| t@) + tokens_from(source, lexer.cursor())
                == tokens_from(source, 0),
        invariant
            lexer.wf(),
            lexer.source() == source,
        ensures
            tokens@.map_values(|t: Token| t@) == tokens_from(source, 0),
        decreases source.len() - lexer.cursor(),
    {
        let ghost before = tokens@.map_values(|t: Token| t@);
        let ghost pos = lexer.cursor();
        let ghost rest = tokens_from(source, pos);
        proof {
            lexer.lemma_cursor_in_bounds();
            lemma_scan_progress(source, pos);
            lemma_tokens_from_step(source, pos);
        }
        let token = lexer.next().unwrap();
        let done = token.kind() == TokenKind::Eof;
        tokens.push(token);
        assert(tokens@.map_values(|t: Token| t@) =~= before.push(rest.first()));
        if done {
            assert(before.push(rest.first()) =~= before + rest);
            break;
        }
        assert(before + rest =~= before.push(rest.first()) + rest.drop_first());
    }
    tokens
}

impl Lexer {
    /// The cursor of a well-formed tokenizer is inside the source or at its
    /// end, and the source is shorter than `usize::MAX` bytes.
    pub proof fn lemma_cursor_in_bounds(&self)
        requires
            self.wf(),
        ensures
            0 <= self.cursor() <= self.source().len() < usize::MAX,
    {
    }
}

} // verus!
