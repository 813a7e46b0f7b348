//! The scanner: reads a source text into tokens and lexical errors.

use crate::chars::{digit, is_alpha, is_digit, is_space, CharClass};
use crate::lexis::{
    col_at, eof_error, lemma_lex_at_bounds, lemma_lexemes_count, lemma_run_end, lex_at,
    lexemes_from, line_at, number_end, positions_fit, run_end, scan_from, token_at,
};
use crate::text::{byte_len, lemma_byte_len_prefix, lemma_byte_len_step, slice, utf8_width};
use crate::token::{word_kind, KindView, Token, TokenKind, TokenView};
use vstd::prelude::*;
use vstd::utf8::encode_utf8;

verus! {

/// The number of columns that a tab takes.
pub const TAB_SIZE: u32 = 4;

/// Why the scanner could not read a token.
#[derive(Clone, Copy, Debug, PartialEq, Eq)]
pub enum ErrorKind {
    UnexpectedEof,
    UnterminatedString,
    UnexpectedCharacter,
}

/// A lexical error: its kind, a message, and the line and column that the
/// scanner had reached when it was raised.
#[derive(Debug)]
pub struct Error {
    pub kind: ErrorKind,
    pub msg: String,
    pub line: u32,
    pub col: u32,
}

/// The mathematical value of an [`Error`].
pub struct ErrorView {
    pub kind: ErrorKind,
    pub msg: Seq<char>,
    pub line: int,
    pub col: int,
}

impl View for Error {
    type V = ErrorView;

    open spec fn view(&self) -> ErrorView {
        ErrorView { kind: self.kind, msg: self.msg@, line: self.line as int, col: self.col as int }
    }
}

impl Error {
    /// The error with these fields.
    pub fn new(kind: ErrorKind, msg: String, line: u32, col: u32) -> (error: Self)
        ensures
            error.kind == kind,
            error.msg == msg,
            error.line == line,
            error.col == col,
    {
        Error { kind, msg, line, col }
    }
}

/// The value of one result of a scan.
pub open spec fn result_view(result: Result<Token, Error>) -> Result<TokenView, ErrorView> {
    match result {
        Ok(token) => Ok(token@),
        Err(error) => Err(error@),
    }
}

/// The values of the results of a scan, in order.
pub open spec fn results_view(results: Seq<Result<Token, Error>>) -> Seq<
    Result<TokenView, ErrorView>,
> {
    results.map_values(|result: Result<Token, Error>| result_view(result))
}

/// Determinism: two scans of one text from one offset agree. They yield
/// equally many results, and each result of the one has the kind, the
/// position and the span (or the message) of its counterpart in the other.
pub proof fn lemma_scan_deterministic(
    first: Seq<Result<Token, Error>>,
    second: Seq<Result<Token, Error>>,
    src: Seq<char>,
    from: int,
)
    requires
        results_view(first) == scan_from(src, from),
        results_view(second) == scan_from(src, from),
    ensures
        first.len() == second.len(),
        forall|k: int| 0 <= k < first.len() ==> result_view(first[k]) == result_view(second[k]),
{
    assert(results_view(first).len() == first.len());
    assert(results_view(second).len() == second.len());
    assert forall|k: int| 0 <= k < first.len() implies result_view(first[k]) == result_view(
        second[k],
    ) by {
        assert(results_view(first)[k] == result_view(first[k]));
        assert(results_view(second)[k] == result_view(second[k]));
    }
}

/// A cursor over a source text. It stands at an offset of the text, counted
/// in characters, and knows the line and the column of that offset.
pub struct Scanner<'a> {
    source: &'a str,
    /// The characters of `source`, to look ahead in.
    chars: Vec<char>,
    /// Where the lexeme being read starts, in characters and in bytes.
    start: usize,
    start_byte: usize,
    /// Where the cursor stands, in characters and in bytes.
    current: usize,
    current_byte: usize,
    line: u32,
    col: u32,
    cur_line: u32,
    cur_col: u32,
}

impl<'a> Scanner<'a> {
    /// The source text.
    pub closed spec fn text(&self) -> Seq<char> {
        self.source@
    }

    /// The offset that the scanner stands at.
    pub closed spec fn offset(&self) -> int {
        self.current as int
    }

    /// The scanner stands inside its text, at the line and column of its
    /// offset, and no position of the text is too large to be counted.
    pub closed spec fn wf(&self) -> bool {
        &&& self.chars@ == self.source@
        &&& self.current <= self.chars@.len()
        &&& self.current_byte == byte_len(self.source@, self.current as int)
        &&& encode_utf8(self.source@).len() <= usize::MAX
        &&& positions_fit(self.source@)
        &&& self.line == line_at(self.source@, self.current as int)
        &&& self.col == col_at(self.source@, self.current as int)
    }

    /// The lexeme being read started at `start`, whose position was noted.
    spec fn marked(&self) -> bool {
        &&& self.start <= self.current
        &&& self.start_byte == byte_len(self.source@, self.start as int)
        &&& self.cur_line == line_at(self.source@, self.start as int)
        &&& self.cur_col == col_at(self.source@, self.start as int)
    }

    /// Nothing but the cursor differs from `before`.
    spec fn moved_from(&self, before: &Self) -> bool {
        &&& self.source == before.source
        &&& self.start == before.start
        &&& self.start_byte == before.start_byte
        &&& self.cur_line == before.cur_line
        &&& self.cur_col == before.cur_col
    }

    /// A scanner at the start of `source`.
    pub fn new(source: &'a str) -> (scanner: Self)
        requires
            positions_fit(source@),
        ensures
            scanner.wf(),
            scanner.text() == source@,
            scanner.offset() == 0,
    {
        let mut chars: Vec<char> = Vec::new();
        for ch in it: source.chars()
            invariant
                it.seq() == source@,
                chars@ == it.seq().take(it.index() as int),
        {
            chars.push(ch);
        }
        assert(chars@ =~= source@);
        // The bytes of the source lie in memory, so their number fits a `usize`.
        let bytes = source.as_bytes();
        assert(encode_utf8(source@).len() == bytes@.len() <= usize::MAX) by {
            assert(vstd::slice::spec_slice_len(bytes) == bytes@.len());
        }
        assert(source@.take(0) =~= Seq::<char>::empty());
        Scanner {
            source,
            chars,
            start: 0,
            start_byte: 0,
            current: 0,
            current_byte: 0,
            line: 1,
            col: 1,
            cur_line: 1,
            cur_col: 1,
        }
    }

    /// Reads the rest of the text: one result for each lexeme from the
    /// scanner's offset on, in order. An error does not end the scan.
    pub fn scan(self) -> (results: Vec<Result<Token<'a>, Error>>)
        requires
            self.wf(),
        ensures
            results_view(results@) == scan_from(self.text(), self.offset()),
            results@.len() <= self.text().len() - self.offset(),
    {
        let ghost src = self.text();
        let ghost from = self.offset();
        proof {
            lemma_lexemes_count(src, from);
        }
        let mut scanner = self;
        let mut vec: Vec<Result<Token<'a>, Error>> = Vec::new();
        assert(results_view(vec@) + scan_from(src, from) =~= scan_from(src, from));
        loop
            invariant
                scanner.wf(),
                scanner.text() == src,
                results_view(vec@) + scan_from(src, scanner.offset()) == scan_from(src, from),
            ensures
                results_view(vec@) == scan_from(src, from),
            decreases src.len() - scanner.offset(),
        {
            if scanner.peek().is_none() {
                assert(scan_from(src, scanner.offset()) =~= Seq::empty());
                assert(results_view(vec@) + Seq::empty() =~= results_view(vec@));
                break;
            }
            let ghost at = scanner.offset();
            let ghost before = vec@;
            let result = scanner.scan_token();
            vec.push(result);
            proof {
                lemma_lex_at_bounds(src, at);
                let step = lex_at(src, at);
                assert(lexemes_from(src, at) == seq![step] + lexemes_from(src, step.end));
                assert(scan_from(src, at) =~= seq![step.item] + scan_from(src, step.end));
                assert(results_view(vec@) =~= results_view(before).push(step.item));
                assert(results_view(vec@) + scan_from(src, step.end) =~= results_view(before)
                    + scan_from(src, at));
            }
        }
        vec
    }

    /// Reads one lexeme: passes over blanks, then reads the token that
    /// follows, or reports why none could be read. The scanner ends behind
    /// the lexeme.
    pub fn scan_token(&mut self) -> (result: Result<Token<'a>, Error>)
        requires
            old(self).wf(),
        ensures
            final(self).wf(),
            final(self).text() == old(self).text(),
            final(self).offset() == lex_at(old(self).text(), old(self).offset()).end,
            result_view(result) == lex_at(old(self).text(), old(self).offset()).item,
            old(self).offset() <= final(self).offset() <= final(self).text().len(),
            old(self).offset() < old(self).text().len() ==> old(self).offset()
                < final(self).offset(),
    {
        proof {
            lemma_lex_at_bounds(self.source@, self.current as int);
        }
        self.skip_whitespace();

        self.start = self.current;
        self.start_byte = self.current_byte;
        self.cur_line = self.line;
        self.cur_col = self.col;

        let ch = self.advance_err()?;
        proof {
            lemma_run_end(self.source@, CharClass::Space, old(self).current as int);
        }

        let token = if ch == '(' {
            self.make_token(TokenKind::LParen)
        } else if ch == ')' {
            self.make_token(TokenKind::RParen)
        } else if ch == '{' {
            self.make_token(TokenKind::LBrace)
        } else if ch == '}' {
            self.make_token(TokenKind::RBrace)
        } else if ch == ';' {
            self.make_token(TokenKind::Semicolon)
        } else if ch == ',' {
            self.make_token(TokenKind::Comma)
        } else if ch == '-' {
            self.make_double_token('=', TokenKind::Minus, TokenKind::MinusEqual)?
        } else if ch == '+' {
            self.make_double_token('=', TokenKind::Plus, TokenKind::PlusEqual)?
        } else if ch == '/' {
            self.make_double_token('=', TokenKind::Slash, TokenKind::DivideEqual)?
        } else if ch == '*' {
            self.make_double_token('=', TokenKind::Star, TokenKind::MultiplyEqual)?
        } else if ch == '$' {
            self.make_token(TokenKind::Dollar)
        } else if ch == '!' {
            self.make_double_token('=', TokenKind::Bang, TokenKind::BangEqual)?
        } else if ch == '=' {
            self.make_double_token('=', TokenKind::Equal, TokenKind::EqualEqual)?
        } else if ch == '<' {
            self.make_double_token('=', TokenKind::Less, TokenKind::LessEqual)?
        } else if ch == '>' {
            self.make_double_token('=', TokenKind::Greater, TokenKind::GreaterEqual)?
        } else if is_digit(ch) {
            self.parse_number()?
        } else if is_alpha(ch) {
            self.parse_ident()?
        } else {
            let msg = self.get_text().to_owned();
            return Err(self.make_error(ErrorKind::UnexpectedCharacter, msg));
        };

        Ok(token)
    }

    /// The character at the cursor, if any.
    fn peek(&self) -> (next: Option<char>)
        requires
            self.wf(),
        ensures
            next == if self.current < self.source@.len() {
                Some(self.source@[self.current as int])
            } else {
                None
            },
    {
        if self.current < self.chars.len() {
            Some(self.chars[self.current])
        } else {
            None
        }
    }

    /// Whether a digit stands one character behind the cursor.
    fn digit_follows(&self) -> (yes: bool)
        requires
            self.wf(),
        ensures
            yes == (self.current + 1 < self.source@.len() && digit(
                self.source@[self.current + 1],
            )),
    {
        self.current < self.chars.len() && self.current + 1 < self.chars.len() && is_digit(
            self.chars[self.current + 1],
        )
    }

    /// Steps over the character at the cursor and returns it, or fails
    /// with `UnexpectedEof` at the end of the text.
    fn advance_err(&mut self) -> (next: Result<char, Error>)
        requires
            old(self).wf(),
        ensures
            final(self).wf(),
            final(self).moved_from(old(self)),
            old(self).current < old(self).source@.len() ==> next == Ok::<char, Error>(
                old(self).source@[old(self).current as int],
            ) && final(self).current == old(self).current + 1,
            old(self).current >= old(self).source@.len() ==> next is Err && next->Err_0@
                == eof_error(old(self).source@, old(self).current as int) && final(self).current
                == old(self).current,
    {
        match self.advance() {
            Some(ch) => Ok(ch),
            None => Err(self.make_error(ErrorKind::UnexpectedEof, "unexpected eof".to_owned())),
        }
    }

    /// Steps over the character at the cursor, if there is one, and
    /// returns it. The line and the column follow the character.
    fn advance(&mut self) -> (next: Option<char>)
        requires
            old(self).wf(),
        ensures
            final(self).wf(),
            final(self).moved_from(old(self)),
            old(self).current < old(self).source@.len() ==> next == Some(
                old(self).source@[old(self).current as int],
            ) && final(self).current == old(self).current + 1,
            old(self).current >= old(self).source@.len() ==> next is None && final(self).current
                == old(self).current,
    {
        if self.current >= self.chars.len() {
            return None;
        }
        let ch = self.chars[self.current];
        proof {
            let next = self.current + 1;
            assert(line_at(self.source@, next) <= u32::MAX);
            assert(col_at(self.source@, next) <= u32::MAX);
            lemma_byte_len_step(self.source@, self.current as int);
            lemma_byte_len_prefix(self.source@, next);
        }
        self.current += 1;
        self.current_byte += utf8_width(ch);

        match ch {
            '\t' => self.col += TAB_SIZE,
            '\r' => (),
            '\n' => {
                self.col = 1;
                self.line += 1;
            },
            _ => self.col += 1,
        }

        Some(ch)
    }

    /// Reads the rest of a word whose first character was stepped over.
    fn parse_ident(&mut self) -> (result: Result<Token<'a>, Error>)
        requires
            old(self).wf(),
            old(self).marked(),
            old(self).current == old(self).start + 1,
        ensures
            final(self).wf(),
            final(self).moved_from(old(self)),
            final(self).current == run_end(
                old(self).source@,
                CharClass::Word,
                old(self).current as int,
            ),
            result is Ok,
            result->Ok_0@ == token_at(
                old(self).source@,
                old(self).start as int,
                final(self).current as int,
                word_kind(
                    old(self).source@.subrange(old(self).start as int, final(self).current as int),
                ),
            ),
    {
        loop
            invariant
                self.wf(),
                self.marked(),
                self.moved_from(old(self)),
                run_end(self.source@, CharClass::Word, self.current as int) == run_end(
                    old(self).source@,
                    CharClass::Word,
                    old(self).current as int,
                ),
            ensures
                self.current == run_end(self.source@, CharClass::Word, self.current as int),
            decreases self.source@.len() - self.current,
        {
            match self.peek() {
                Some(ch) => {
                    if is_alpha(ch) || is_digit(ch) {
                        self.advance_err()?;
                    } else {
                        break;
                    }
                },
                None => break,
            }
        }

        Ok(self.make_ident())
    }

    /// Steps over the digits at the cursor.
    fn skip_digits(&mut self) -> (result: Result<(), Error>)
        requires
            old(self).wf(),
            old(self).marked(),
        ensures
            final(self).wf(),
            final(self).marked(),
            final(self).moved_from(old(self)),
            final(self).current == run_end(
                old(self).source@,
                CharClass::Digit,
                old(self).current as int,
            ),
            result is Ok,
    {
        loop
            invariant
                self.wf(),
                self.marked(),
                self.moved_from(old(self)),
                run_end(self.source@, CharClass::Digit, self.current as int) == run_end(
                    old(self).source@,
                    CharClass::Digit,
                    old(self).current as int,
                ),
            ensures
                self.current == run_end(self.source@, CharClass::Digit, self.current as int),
            decreases self.source@.len() - self.current,
        {
            match self.peek() {
                Some(ch) => {
                    if is_digit(ch) {
                        self.advance_err()?;
                    } else {
                        break;
                    }
                },
                None => break,
            }
        }
        Ok(())
    }

    /// Reads the rest of a number literal whose first digit was stepped
    /// over: more digits, then a `.` and digits where a digit follows the
    /// `.`.
    fn parse_number(&mut self) -> (result: Result<Token<'a>, Error>)
        requires
            old(self).wf(),
            old(self).marked(),
            old(self).current == old(self).start + 1,
        ensures
            final(self).wf(),
            final(self).moved_from(old(self)),
            final(self).current == number_end(old(self).source@, old(self).start as int),
            result is Ok,
            result->Ok_0@ == token_at(
                old(self).source@,
                old(self).start as int,
                final(self).current as int,
                KindView::Number(
                    old(self).source@.subrange(old(self).start as int, final(self).current as int),
                ),
            ),
    {
        self.skip_digits()?;

        if self.peek() == Some('.') && self.digit_follows() {
            self.advance_err()?;
            self.skip_digits()?;
        }

        Ok(self.make_number())
    }

    /// Steps over the blanks at the cursor.
    fn skip_whitespace(&mut self)
        requires
            old(self).wf(),
        ensures
            final(self).wf(),
            final(self).moved_from(old(self)),
            final(self).current == run_end(
                old(self).source@,
                CharClass::Space,
                old(self).current as int,
            ),
    {
        loop
            invariant
                self.wf(),
                self.moved_from(old(self)),
                run_end(self.source@, CharClass::Space, self.current as int) == run_end(
                    old(self).source@,
                    CharClass::Space,
                    old(self).current as int,
                ),
            ensures
                self.current == run_end(self.source@, CharClass::Space, self.current as int),
            decreases self.source@.len() - self.current,
        {
            match self.peek() {
                Some(ch) => {
                    if is_space(ch) {
                        self.advance();
                    } else {
                        break;
                    }
                },
                None => break,
            }
        }
    }

    /// The text of the lexeme being read.
    fn get_text(&self) -> (text: &'a str)
        requires
            self.wf(),
            self.marked(),
        ensures
            text@ == self.source@.subrange(self.start as int, self.current as int),
    {
        slice(
            self.source,
            self.start_byte,
            self.current_byte,
            Ghost(self.start as int),
            Ghost(self.current as int),
        )
    }

    /// The token of kind `kind` for the lexeme being read.
    fn make_token(&self, kind: TokenKind<'a>) -> (token: Token<'a>)
        requires
            self.wf(),
            self.marked(),
        ensures
            token@ == token_at(self.source@, self.start as int, self.current as int, kind@),
    {
        let text = self.get_text();

        Token::new(kind, self.cur_line, self.cur_col, text)
    }

    /// The token for a character that may pair with `second_char`: `double`
    /// where `second_char` stands at the cursor, which is then stepped
    /// over, and `default` otherwise.
    fn make_double_token(
        &mut self,
        second_char: char,
        default: TokenKind<'a>,
        double: TokenKind<'a>,
    ) -> (result: Result<Token<'a>, Error>)
        requires
            old(self).wf(),
            old(self).marked(),
        ensures
            final(self).wf(),
            final(self).moved_from(old(self)),
            result is Ok,
            ({
                let src = old(self).source@;
                let at = old(self).current as int;
                let paired = at < src.len() && src[at] == second_char;
                &&& final(self).current == if paired {
                    at + 1
                } else {
                    at
                }
                &&& result->Ok_0@ == token_at(
                    src,
                    old(self).start as int,
                    final(self).current as int,
                    if paired {
                        double@
                    } else {
                        default@
                    },
                )
            }),
    {
        if self.peek() == Some(second_char) {
            self.advance_err()?;
            Ok(self.make_token(double))
        } else {
            Ok(self.make_token(default))
        }
    }

    /// The keyword or identifier token for the lexeme being read.
    fn make_ident(&self) -> (token: Token<'a>)
        requires
            self.wf(),
            self.marked(),
        ensures
            token@ == token_at(
                self.source@,
                self.start as int,
                self.current as int,
                word_kind(
                    self.source@.subrange(self.start as int, self.current as int),
                ),
            ),
    {
        let text = self.get_text();

        self.make_token(TokenKind::ident(text))
    }

    /// The number token for the lexeme being read.
    fn make_number(&self) -> (token: Token<'a>)
        requires
            self.wf(),
            self.marked(),
        ensures
            token@ == token_at(
                self.source@,
                self.start as int,
                self.current as int,
                KindView::Number(
                    self.source@.subrange(self.start as int, self.current as int),
                ),
            ),
    {
        let text = self.get_text();

        self.make_token(TokenKind::Number(text))
    }

    /// An error at the scanner's line and column.
    fn make_error(&self, kind: ErrorKind, msg: String) -> (error: Error)
        ensures
            error@ == (ErrorView {
                kind,
                msg: msg@,
                line: self.line as int,
                col: self.col as int,
            }),
    {
        Error::new(kind, msg, self.line, self.col)
    }
}

} // verus!
