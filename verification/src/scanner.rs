//! The scanner.
//!
//! Produces one token per call from a byte buffer of source text.
//! Whitespace and `//` line comments are skipped; the scanner tracks the
//! 1-based line number, incrementing on every newline, including newlines
//! inside string literals.  An unexpected character or an unterminated
//! string produces an `Error` token carrying a diagnostic message; the end
//! of the input produces `Eof`, and only there.

use vstd::prelude::*;

verus! {

/// The kinds of token the language knows.
#[derive(Clone, Copy, Debug, PartialEq, Eq, Structural)]
pub enum TokenType {
    LeftParen,
    RightParen,
    LeftBrace,
    RightBrace,
    Comma,
    Dot,
    Minus,
    Plus,
    Semicolon,
    Slash,
    Star,
    Bang,
    BangEqual,
    Equal,
    EqualEqual,
    Greater,
    GreaterEqual,
    Less,
    LessEqual,
    Identifier,
    String,
    Number,
    And,
    Class,
    Else,
    False,
    For,
    Fun,
    If,
    Nil,
    Or,
    Print,
    Return,
    Super,
    This,
    True,
    Var,
    While,
    Error,
    Eof,
}

/// One token.  `lexeme` is a copy of the source bytes the token spans
/// (string literals keep their surrounding quotes).  For a `Number` token,
/// `num` is filled in by the embedder with the IEEE-754 bits of the parsed
/// double before compilation; the scanner leaves it zero.  For an `Error`
/// token, `message` is the diagnostic; it is empty otherwise.
#[derive(Clone, Debug)]
pub struct Token {
    pub token_type: TokenType,
    pub line: usize,
    pub lexeme: Vec<u8>,
    pub num: u64,
    pub message: &'static str,
}

impl Token {
    /// A fresh token with the given kind, line and lexeme.
    pub fn new(token_type: TokenType, line: usize, lexeme: Vec<u8>) -> (t: Token)
        ensures
            t.token_type == token_type,
            t.line == line,
            t.lexeme == lexeme,
            t.num == 0,
    {
        Token { token_type, line, lexeme, num: 0, message: "" }
    }
}

/// True for the bytes `0`..`9`.
pub open spec fn spec_is_digit(c: u8) -> bool {
    48 <= c <= 57
}

/// True for `A`..`Z`, `a`..`z` and `_`.
pub open spec fn spec_is_alpha(c: u8) -> bool {
    (65 <= c <= 90) || (97 <= c <= 122) || c == 95
}

/// True iff the kind is an identifier or a reserved word.
pub open spec fn spec_is_word_kind(tt: TokenType) -> bool {
    match tt {
        TokenType::Identifier
        | TokenType::And
        | TokenType::Class
        | TokenType::Else
        | TokenType::False
        | TokenType::For
        | TokenType::Fun
        | TokenType::If
        | TokenType::Nil
        | TokenType::Or
        | TokenType::Print
        | TokenType::Return
        | TokenType::Super
        | TokenType::This
        | TokenType::True
        | TokenType::Var
        | TokenType::While => true,
        _ => false,
    }
}

/// The kinds a token may have, given the first byte it consumed: letters
/// start identifiers or keywords, digits numbers, a quote a string (or an
/// unterminated-string error), each punctuation byte its own kind (the
/// four comparison starters also their two-byte form), and anything else
/// is an error token.
pub open spec fn spec_kind_of_first_byte(c: u8, tt: TokenType) -> bool {
    if spec_is_alpha(c) {
        spec_is_word_kind(tt)
    } else if spec_is_digit(c) {
        tt == TokenType::Number
    } else if c == 34 {
        tt == TokenType::String || tt == TokenType::Error
    } else if c == 40 {
        tt == TokenType::LeftParen
    } else if c == 41 {
        tt == TokenType::RightParen
    } else if c == 123 {
        tt == TokenType::LeftBrace
    } else if c == 125 {
        tt == TokenType::RightBrace
    } else if c == 44 {
        tt == TokenType::Comma
    } else if c == 46 {
        tt == TokenType::Dot
    } else if c == 45 {
        tt == TokenType::Minus
    } else if c == 43 {
        tt == TokenType::Plus
    } else if c == 59 {
        tt == TokenType::Semicolon
    } else if c == 47 {
        tt == TokenType::Slash
    } else if c == 42 {
        tt == TokenType::Star
    } else if c == 33 {
        tt == TokenType::Bang || tt == TokenType::BangEqual
    } else if c == 61 {
        tt == TokenType::Equal || tt == TokenType::EqualEqual
    } else if c == 60 {
        tt == TokenType::Less || tt == TokenType::LessEqual
    } else if c == 62 {
        tt == TokenType::Greater || tt == TokenType::GreaterEqual
    } else {
        tt == TokenType::Error
    }
}

/// For the four one-or-two-character operators, whether the token took
/// its two-character form is decided by whether an `=` follows the first
/// byte.
pub open spec fn spec_two_char_ok(src: Seq<u8>, start: int, tt: TokenType) -> bool {
    let has_eq = start + 1 < src.len() && src[start + 1] == 61;
    &&& (tt == TokenType::Bang ==> !has_eq)
    &&& (tt == TokenType::BangEqual ==> has_eq)
    &&& (tt == TokenType::Equal ==> !has_eq)
    &&& (tt == TokenType::EqualEqual ==> has_eq)
    &&& (tt == TokenType::Less ==> !has_eq)
    &&& (tt == TokenType::LessEqual ==> has_eq)
    &&& (tt == TokenType::Greater ==> !has_eq)
    &&& (tt == TokenType::GreaterEqual ==> has_eq)
}

fn is_digit(c: u8) -> (r: bool)
    ensures
        r == spec_is_digit(c),
{
    48 <= c && c <= 57
}

fn is_alpha(c: u8) -> (r: bool)
    ensures
        r == spec_is_alpha(c),
{
    (65 <= c && c <= 90) || (97 <= c && c <= 122) || c == 95
}

/// Copy the bytes `src[from..to]` into a fresh vector.
pub fn copy_range(src: &Vec<u8>, from: usize, to: usize) -> (r: Vec<u8>)
    requires
        from <= to <= src@.len(),
    ensures
        r@ == src@.subrange(from as int, to as int),
{
    let mut r: Vec<u8> = Vec::new();
    let mut i = from;
    while i < to
        invariant
            from <= i <= to <= src@.len(),
            r@ == src@.subrange(from as int, i as int),
        decreases to - i,
    {
        r.push(src[i]);
        proof {
            assert(r@ =~= src@.subrange(from as int, i + 1));
        }
        i = i + 1;
    }
    r
}

/// The scanner: a cursor into the source bytes.  `start` marks the first
/// byte of the token being scanned, `current` the next byte to read, and
/// `line` the 1-based line the cursor is on.
pub struct Scanner {
    pub src: Vec<u8>,
    pub start: usize,
    pub current: usize,
    pub line: usize,
}

impl Scanner {
    /// The cursor stays within the source and the line count stays within
    /// the lines the cursor has crossed.
    pub open spec fn wf(self) -> bool {
        &&& self.start <= self.current <= self.src@.len()
        &&& 1 <= self.line
        &&& self.line <= self.current + 1
    }

    /// A scanner at the beginning of the given source.
    pub fn new(src: Vec<u8>) -> (s: Scanner)
        ensures
            s.wf(),
            s.src == src,
            s.current == 0,
            s.line == 1,
    {
        Scanner { src, start: 0, current: 0, line: 1 }
    }

    fn is_at_end(&self) -> (r: bool)
        ensures
            r == (self.current == self.src@.len()),
    {
        self.current == self.src.len()
    }

    fn peek(&self) -> (r: u8)
        requires
            self.current < self.src@.len(),
        ensures
            r == self.src@[self.current as int],
    {
        self.src[self.current]
    }

    fn peek_next(&self) -> (r: Option<u8>)
        requires
            self.current < self.src@.len(),
        ensures
            self.current + 1 < self.src@.len() ==> r == Some(self.src@[self.current + 1]),
            self.current + 1 == self.src@.len() ==> r is None,
    {
        let n = self.src.len();
        if n - self.current > 1 {
            Some(self.src[self.current + 1])
        } else {
            None
        }
    }

    fn bump(&mut self) -> (r: u8)
        requires
            old(self).wf(),
            old(self).current < old(self).src@.len(),
        ensures
            final(self).wf(),
            r == old(self).src@[old(self).current as int],
            final(self).current == old(self).current + 1,
            final(self).src == old(self).src,
            final(self).start == old(self).start,
            final(self).line == old(self).line,
    {
        let c = self.src[self.current];
        self.step_cursor();
        c
    }

    /// Move the cursor one byte forward.  (Reading the vector's length
    /// first shows the arithmetic cannot overflow.)
    fn step_cursor(&mut self)
        requires
            old(self).wf(),
            old(self).current < old(self).src@.len(),
        ensures
            final(self).wf(),
            final(self).current == old(self).current + 1,
            final(self).src == old(self).src,
            final(self).start == old(self).start,
            final(self).line == old(self).line,
    {
        let n = self.src.len();
        if self.current < n {
            self.current = self.current + 1;
        }
    }

    fn match_char(&mut self, expected: u8) -> (r: bool)
        requires
            old(self).wf(),
        ensures
            final(self).wf(),
            final(self).src == old(self).src,
            final(self).start == old(self).start,
            final(self).line == old(self).line,
            r == (old(self).current < old(self).src@.len() && old(self).src@[old(self).current as int] == expected),
            final(self).current == if r {
                old(self).current + 1
            } else {
                old(self).current as int
            },
    {
        let n = self.src.len();
        if self.current < n && self.src[self.current] == expected {
            self.current = self.current + 1;
            true
        } else {
            false
        }
    }

    /// Skip spaces, tabs, carriage returns, newlines (counting lines) and
    /// `//` comments, which run to the end of the line.
    fn skip_whitespace(&mut self)
        requires
            old(self).wf(),
        ensures
            final(self).wf(),
            final(self).src == old(self).src,
            final(self).current >= old(self).current,
            final(self).line >= old(self).line,
        decreases old(self).src@.len() - old(self).current,
    {
        if self.current == self.src.len() {
            return ;
        }
        let c = self.src[self.current];
        if c == 32 || c == 13 || c == 9 {
            self.step_cursor();
            self.skip_whitespace();
        } else if c == 10 {
            self.step_cursor();
            if self.line < usize::MAX {
                self.line = self.line + 1;
            }
            self.skip_whitespace();
        } else if c == 47 && self.current + 1 < self.src.len() && self.src[self.current + 1] == 47 {
            // a comment runs until the end of the line
            while self.current < self.src.len() && self.src[self.current] != 10
                invariant
                    self.wf(),
                    self.src == old(self).src,
                    self.current >= old(self).current,
                    self.line >= old(self).line,
                decreases self.src@.len() - self.current,
            {
                self.step_cursor();
            }
            self.skip_whitespace();
        }
    }

    /// Build a token of the given kind spanning `start..current`.
    fn make_token(&self, token_type: TokenType) -> (t: Token)
        requires
            self.wf(),
        ensures
            t.token_type == token_type,
            t.line == self.line,
            t.lexeme@ == self.src@.subrange(self.start as int, self.current as int),
            t.num == 0,
    {
        Token {
            token_type,
            line: self.line,
            lexeme: copy_range(&self.src, self.start, self.current),
            num: 0,
            message: "",
        }
    }

    /// Build an `Error` token carrying a diagnostic message.
    fn error_token(&self, message: &'static str) -> (t: Token)
        ensures
            t.token_type == TokenType::Error,
            t.line == self.line,
            t.message == message,
            t.num == 0,
    {
        Token {
            token_type: TokenType::Error,
            line: self.line,
            lexeme: Vec::new(),
            num: 0,
            message,
        }
    }

    /// Scan and return the next token.  The cursor only moves forward; a
    /// token other than `Eof` consumes at least one byte, and `Eof` is
    /// returned exactly when the cursor has reached the end of the source.
    pub fn scan_token(&mut self) -> (t: Token)
        requires
            old(self).wf(),
        ensures
            final(self).wf(),
            final(self).src == old(self).src,
            final(self).current >= old(self).current,
            final(self).line >= old(self).line,
            t.token_type == TokenType::Eof || final(self).current > old(self).current,
            t.token_type == TokenType::Eof <==> final(self).current == final(self).src@.len()
                && final(self).start == final(self).src@.len(),
            t.token_type != TokenType::Eof ==> old(self).current <= final(self).start
                < final(self).current && spec_kind_of_first_byte(
                final(self).src@[final(self).start as int],
                t.token_type,
            ),
            t.token_type != TokenType::Eof && t.token_type != TokenType::Error ==> t.lexeme@
                == final(self).src@.subrange(final(self).start as int, final(self).current as int),
            spec_is_word_kind(t.token_type) ==> t.token_type == spec_keyword_kind(t.lexeme@),
            t.token_type != TokenType::Eof ==> spec_two_char_ok(
                final(self).src@,
                final(self).start as int,
                t.token_type,
            ),
            t.token_type == TokenType::String ==> final(self).current >= final(self).start + 2
                && final(self).src@[final(self).current - 1] == 34,
            t.token_type == TokenType::Error && final(self).src@[final(self).start as int] == 34
                ==> final(self).current == final(self).src@.len(),
            spec_is_word_kind(t.token_type) ==> (forall|i: int|
                final(self).start < i < final(self).current ==> spec_is_alpha(
                    #[trigger] final(self).src@[i],
                ) || spec_is_digit(final(self).src@[i])) && (final(self).current
                == final(self).src@.len() || !(spec_is_alpha(
                final(self).src@[final(self).current as int],
            ) || spec_is_digit(final(self).src@[final(self).current as int]))),
            t.token_type == TokenType::Number ==> (forall|i: int|
                final(self).start < i < final(self).current ==> spec_is_digit(
                    #[trigger] final(self).src@[i],
                ) || final(self).src@[i] == 46) && (final(self).current == final(self).src@.len()
                || !spec_is_digit(final(self).src@[final(self).current as int])),
        decreases old(self).src@.len() - old(self).current,
    {
        self.skip_whitespace();
        self.start = self.current;

        if self.is_at_end() {
            return self.make_token(TokenType::Eof);
        }

        let c = self.bump();

        if is_alpha(c) {
            return self.identifier();
        }
        if is_digit(c) {
            return self.number();
        }

        if c == 40 {
            self.make_token(TokenType::LeftParen)
        } else if c == 41 {
            self.make_token(TokenType::RightParen)
        } else if c == 123 {
            self.make_token(TokenType::LeftBrace)
        } else if c == 125 {
            self.make_token(TokenType::RightBrace)
        } else if c == 44 {
            self.make_token(TokenType::Comma)
        } else if c == 46 {
            self.make_token(TokenType::Dot)
        } else if c == 45 {
            self.make_token(TokenType::Minus)
        } else if c == 43 {
            self.make_token(TokenType::Plus)
        } else if c == 59 {
            self.make_token(TokenType::Semicolon)
        } else if c == 47 {
            self.make_token(TokenType::Slash)
        } else if c == 42 {
            self.make_token(TokenType::Star)
        } else if c == 33 {
            let two = self.match_char(61);
            self.make_token(
                if two {
                    TokenType::BangEqual
                } else {
                    TokenType::Bang
                },
            )
        } else if c == 61 {
            let two = self.match_char(61);
            self.make_token(
                if two {
                    TokenType::EqualEqual
                } else {
                    TokenType::Equal
                },
            )
        } else if c == 60 {
            let two = self.match_char(61);
            self.make_token(
                if two {
                    TokenType::LessEqual
                } else {
                    TokenType::Less
                },
            )
        } else if c == 62 {
            let two = self.match_char(61);
            self.make_token(
                if two {
                    TokenType::GreaterEqual
                } else {
                    TokenType::Greater
                },
            )
        } else if c == 34 {
            self.string()
        } else {
            self.error_token("Unexpected character.")
        }
    }

    fn at_identifier_char(&self) -> (r: bool)
        ensures
            r == (self.current < self.src@.len() && (spec_is_alpha(self.src@[self.current as int])
                || spec_is_digit(self.src@[self.current as int]))),
    {
        if self.current < self.src.len() {
            let c = self.src[self.current];
            is_alpha(c) || is_digit(c)
        } else {
            false
        }
    }

    fn at_digit(&self) -> (r: bool)
        ensures
            r == (self.current < self.src@.len() && spec_is_digit(self.src@[self.current as int])),
    {
        if self.current < self.src.len() {
            is_digit(self.src[self.current])
        } else {
            false
        }
    }

    /// Scan the rest of an identifier or keyword.
    fn identifier(&mut self) -> (t: Token)
        requires
            old(self).wf(),
            old(self).start < old(self).current,
        ensures
            final(self).wf(),
            final(self).src == old(self).src,
            final(self).current >= old(self).current,
            final(self).line == old(self).line,
            final(self).start == old(self).start,
            spec_is_word_kind(t.token_type),
            t.token_type == spec_keyword_kind(t.lexeme@),
            t.lexeme@ == final(self).src@.subrange(
                final(self).start as int,
                final(self).current as int,
            ),
            forall|i: int|
                old(self).current <= i < final(self).current ==> spec_is_alpha(
                    #[trigger] final(self).src@[i],
                ) || spec_is_digit(final(self).src@[i]),
            final(self).current == final(self).src@.len() || !(spec_is_alpha(
                final(self).src@[final(self).current as int],
            ) || spec_is_digit(final(self).src@[final(self).current as int])),
    {
        while self.at_identifier_char()
        invariant
            self.wf(),
            self.src == old(self).src,
            self.current >= old(self).current,
            self.line == old(self).line,
            self.start == old(self).start,
            self.start < self.current,
            forall|i: int|
                old(self).current <= i < self.current ==> spec_is_alpha(
                    #[trigger] self.src@[i],
                ) || spec_is_digit(self.src@[i]),
        decreases self.src@.len() - self.current,
        {
            self.step_cursor();
        }
        let lexeme = copy_range(&self.src, self.start, self.current);
        let kind = keyword_kind(&lexeme);
        Token { token_type: kind, line: self.line, lexeme, num: 0, message: "" }
    }

    /// Scan the rest of a number: digits with an optional fractional part.
    fn number(&mut self) -> (t: Token)
        requires
            old(self).wf(),
            old(self).start < old(self).current,
        ensures
            final(self).wf(),
            final(self).src == old(self).src,
            final(self).current >= old(self).current,
            final(self).line == old(self).line,
            final(self).start == old(self).start,
            t.token_type == TokenType::Number,
            t.lexeme@ == final(self).src@.subrange(
                final(self).start as int,
                final(self).current as int,
            ),
            forall|i: int|
                old(self).current <= i < final(self).current ==> spec_is_digit(
                    #[trigger] final(self).src@[i],
                ) || final(self).src@[i] == 46,
            final(self).current == final(self).src@.len() || !spec_is_digit(
                final(self).src@[final(self).current as int],
            ),
    {
        while self.at_digit()
        invariant
            self.wf(),
            self.src == old(self).src,
            self.current >= old(self).current,
            self.line == old(self).line,
            self.start == old(self).start,
            self.start < self.current,
            forall|i: int|
                old(self).current <= i < self.current ==> spec_is_digit(
                    #[trigger] self.src@[i],
                ),
        decreases self.src@.len() - self.current,
        {
            self.step_cursor();
        }
        // a fractional part needs a digit after the dot
        if self.current < self.src.len() && self.src[self.current] == 46 {
            let next_digit = match self.peek_next() {
                Some(d) => is_digit(d),
                None => false,
            };
            if next_digit {
                self.step_cursor();
                while self.at_digit()
                invariant
                    self.wf(),
                    self.src == old(self).src,
                    self.current >= old(self).current,
                    self.line == old(self).line,
                    self.start == old(self).start,
                    self.start < self.current,
                    forall|i: int|
                        old(self).current <= i < self.current ==> spec_is_digit(
                            #[trigger] self.src@[i],
                        ) || self.src@[i] == 46,
                decreases self.src@.len() - self.current,
                {
                    self.step_cursor();
                }
            }
        }
        self.make_token(TokenType::Number)
    }

    /// Scan the rest of a string literal.  Strings span newlines and have
    /// no escape sequences; an unterminated string is an error token.
    fn string(&mut self) -> (t: Token)
        requires
            old(self).wf(),
            old(self).start < old(self).current,
        ensures
            final(self).wf(),
            final(self).src == old(self).src,
            final(self).current >= old(self).current,
            final(self).line >= old(self).line,
            final(self).start == old(self).start,
            t.token_type == TokenType::String || t.token_type == TokenType::Error,
            t.token_type == TokenType::Error ==> final(self).current == final(self).src@.len(),
            t.token_type == TokenType::String ==> t.lexeme@ == final(self).src@.subrange(
                final(self).start as int,
                final(self).current as int,
            ) && final(self).current >= final(self).start + 2 && final(self).src@[final(self).current - 1] == 34,
    {
        while self.current < self.src.len() && self.src[self.current] != 34
            invariant
                self.wf(),
                self.src == old(self).src,
                self.current >= old(self).current,
                self.line >= old(self).line,
                self.start == old(self).start,
                self.start < self.current,
            decreases self.src@.len() - self.current,
        {
            let newline = self.src[self.current] == 10;
            self.step_cursor();
            if newline && self.line < usize::MAX {
                self.line = self.line + 1;
            }
        }
        if self.current == self.src.len() {
            return self.error_token("Unterminated string.");
        }
        self.step_cursor();
        self.make_token(TokenType::String)
    }
}

/// The keyword table as a function: the kind a word lexeme spells --
/// one of the sixteen reserved words, or `Identifier` for anything else.
pub open spec fn spec_keyword_kind(lex: Seq<u8>) -> TokenType {
    if lex.len() == 2 && lex[0] == 105 && lex[1] == 102 {
        TokenType::If
    } else if lex.len() == 2 && lex[0] == 111 && lex[1] == 114 {
        TokenType::Or
    } else if lex.len() == 3 && lex[0] == 97 && lex[1] == 110 && lex[2] == 100 {
        TokenType::And
    } else if lex.len() == 3 && lex[0] == 102 && lex[1] == 111 && lex[2] == 114 {
        TokenType::For
    } else if lex.len() == 3 && lex[0] == 102 && lex[1] == 117 && lex[2] == 110 {
        TokenType::Fun
    } else if lex.len() == 3 && lex[0] == 110 && lex[1] == 105 && lex[2] == 108 {
        TokenType::Nil
    } else if lex.len() == 3 && lex[0] == 118 && lex[1] == 97 && lex[2] == 114 {
        TokenType::Var
    } else if lex.len() == 4 && lex[0] == 101 && lex[1] == 108 && lex[2] == 115 && lex[3] == 101 {
        TokenType::Else
    } else if lex.len() == 4 && lex[0] == 116 && lex[1] == 104 && lex[2] == 105 && lex[3] == 115 {
        TokenType::This
    } else if lex.len() == 4 && lex[0] == 116 && lex[1] == 114 && lex[2] == 117 && lex[3] == 101 {
        TokenType::True
    } else if lex.len() == 5 && lex[0] == 99 && lex[1] == 108 && lex[2] == 97 && lex[3] == 115
        && lex[4] == 115 {
        TokenType::Class
    } else if lex.len() == 5 && lex[0] == 102 && lex[1] == 97 && lex[2] == 108 && lex[3] == 115
        && lex[4] == 101 {
        TokenType::False
    } else if lex.len() == 5 && lex[0] == 112 && lex[1] == 114 && lex[2] == 105 && lex[3] == 110
        && lex[4] == 116 {
        TokenType::Print
    } else if lex.len() == 5 && lex[0] == 115 && lex[1] == 117 && lex[2] == 112 && lex[3] == 101
        && lex[4] == 114 {
        TokenType::Super
    } else if lex.len() == 5 && lex[0] == 119 && lex[1] == 104 && lex[2] == 105 && lex[3] == 108
        && lex[4] == 101 {
        TokenType::While
    } else if lex.len() == 6 && lex[0] == 114 && lex[1] == 101 && lex[2] == 116 && lex[3] == 117
        && lex[4] == 114 && lex[5] == 110 {
        TokenType::Return
    } else {
        TokenType::Identifier
    }
}

/// The keyword a lexeme spells, or `Identifier` if it spells none: the
/// reserved words are `and class else false for fun if nil or print return
/// super this true var while`.
fn keyword_kind(lexeme: &Vec<u8>) -> (kind: TokenType)
    ensures
        spec_is_word_kind(kind),
        kind == spec_keyword_kind(lexeme@),
{
    let n = lexeme.len();
    if n == 2 {
        let a = lexeme[0];
        let b = lexeme[1];
        if a == 105 && b == 102 {
            return TokenType::If;
        }
        if a == 111 && b == 114 {
            return TokenType::Or;
        }
        if a == 102 && b == 110 {
            return TokenType::Identifier;
        }
    } else if n == 3 {
        let a = lexeme[0];
        let b = lexeme[1];
        let c = lexeme[2];
        if a == 97 && b == 110 && c == 100 {
            return TokenType::And;
        }
        if a == 102 && b == 111 && c == 114 {
            return TokenType::For;
        }
        if a == 102 && b == 117 && c == 110 {
            return TokenType::Fun;
        }
        if a == 110 && b == 105 && c == 108 {
            return TokenType::Nil;
        }
        if a == 118 && b == 97 && c == 114 {
            return TokenType::Var;
        }
    } else if n == 4 {
        let a = lexeme[0];
        let b = lexeme[1];
        let c = lexeme[2];
        let d = lexeme[3];
        if a == 101 && b == 108 && c == 115 && d == 101 {
            return TokenType::Else;
        }
        if a == 116 && b == 104 && c == 105 && d == 115 {
            return TokenType::This;
        }
        if a == 116 && b == 114 && c == 117 && d == 101 {
            return TokenType::True;
        }
    } else if n == 5 {
        let a = lexeme[0];
        let b = lexeme[1];
        let c = lexeme[2];
        let d = lexeme[3];
        let e = lexeme[4];
        if a == 99 && b == 108 && c == 97 && d == 115 && e == 115 {
            return TokenType::Class;
        }
        if a == 102 && b == 97 && c == 108 && d == 115 && e == 101 {
            return TokenType::False;
        }
        if a == 112 && b == 114 && c == 105 && d == 110 && e == 116 {
            return TokenType::Print;
        }
        if a == 115 && b == 117 && c == 112 && d == 101 && e == 114 {
            return TokenType::Super;
        }
        if a == 119 && b == 104 && c == 105 && d == 108 && e == 101 {
            return TokenType::While;
        }
    } else if n == 6 {
        let a = lexeme[0];
        let b = lexeme[1];
        let c = lexeme[2];
        let d = lexeme[3];
        let e = lexeme[4];
        let f = lexeme[5];
        if a == 114 && b == 101 && c == 116 && d == 117 && e == 114 && f == 110 {
            return TokenType::Return;
        }
    }
    TokenType::Identifier
}

/// Scan a whole source buffer into its token stream.  The result always
/// ends with a single `Eof` token, and `Eof` appears nowhere else.
pub fn scan_tokens(src: Vec<u8>) -> (tokens: Vec<Token>)
    ensures
        tokens@.len() >= 1,
        tokens@[tokens@.len() - 1].token_type == TokenType::Eof,
        forall|i: int|
            0 <= i < tokens@.len() - 1 ==> #[trigger] tokens@[i].token_type != TokenType::Eof,
{
    let mut scanner = Scanner::new(src);
    let mut tokens: Vec<Token> = Vec::new();
    let mut done = false;
    while !done
        invariant
            scanner.wf(),
            done ==> tokens@.len() >= 1 && tokens@[tokens@.len() - 1].token_type
                == TokenType::Eof,
            forall|i: int|
                0 <= i < tokens@.len() - (if done {
                    1int
                } else {
                    0int
                }) ==> #[trigger] tokens@[i].token_type != TokenType::Eof,
        decreases scanner.src@.len() - scanner.current + (if done {
            0int
        } else {
            1int
        }),
    {
        let t = scanner.scan_token();
        if t.token_type == TokenType::Eof {
            done = true;
        }
        tokens.push(t);
    }
    tokens
}

} // verus!
