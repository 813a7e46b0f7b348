//! What scanning means: where each lexeme of a source text starts and ends,
//! what it is, and at which line and column it stands.

use crate::chars::{digit, in_class, letter, space, CharClass};
use crate::scanner::{ErrorKind, ErrorView, TAB_SIZE};
use crate::token::{word_kind, KindView, TokenView};
use vstd::prelude::*;

verus! {

/// The column after a character that stands at column `col`: a newline
/// goes back to column 1, a tab adds the tab width, a carriage return adds
/// nothing, any other character adds 1.
pub open spec fn col_after(col: int, c: char) -> int {
    if c == '\n' {
        1
    } else if c == '\t' {
        col + TAB_SIZE
    } else if c == '\r' {
        col
    } else {
        col + 1
    }
}

/// The line of offset `i` of `src`: 1, plus the newlines before `i`.
pub open spec fn line_at(src: Seq<char>, i: int) -> int
    recommends
        0 <= i <= src.len(),
    decreases i,
{
    if i <= 0 {
        1
    } else if src[i - 1] == '\n' {
        line_at(src, i - 1) + 1
    } else {
        line_at(src, i - 1)
    }
}

/// The column of offset `i` of `src`: 1 at the start, and from then on
/// as [`col_after`] says.
pub open spec fn col_at(src: Seq<char>, i: int) -> int
    recommends
        0 <= i <= src.len(),
    decreases i,
{
    if i <= 0 {
        1
    } else {
        col_after(col_at(src, i - 1), src[i - 1])
    }
}

/// Whether the line and the column of every offset of `src` fit a `u32`.
pub open spec fn positions_fit(src: Seq<char>) -> bool {
    forall|i: int|
        0 <= i <= src.len() ==> #[trigger] line_at(src, i) <= u32::MAX && col_at(src, i)
            <= u32::MAX
}

/// Where the run of `class` characters that starts at `i` ends: the first
/// offset from `i` on whose character is not of `class`, or the end of `src`.
pub open spec fn run_end(src: Seq<char>, class: CharClass, i: int) -> int
    decreases src.len() - i,
{
    if 0 <= i < src.len() && in_class(class, src[i]) {
        run_end(src, class, i + 1)
    } else {
        i
    }
}

/// How a lexeme goes on after its first character.
pub enum Rule {
    /// The character is a token by itself.
    Single(KindView),
    /// The character is the first kind alone, and the second with a `=`
    /// right behind it.
    Pair(KindView, KindView),
    /// A number literal starts here.
    Number,
    /// A keyword or an identifier starts here.
    Word,
    /// No token starts with this character.
    Unexpected,
}

/// The rule for a lexeme whose first character is `c`. Earlier lines win.
pub open spec fn rule_of(c: char) -> Rule {
    if c == '(' {
        Rule::Single(KindView::LParen)
    } else if c == ')' {
        Rule::Single(KindView::RParen)
    } else if c == '{' {
        Rule::Single(KindView::LBrace)
    } else if c == '}' {
        Rule::Single(KindView::RBrace)
    } else if c == ';' {
        Rule::Single(KindView::Semicolon)
    } else if c == ',' {
        Rule::Single(KindView::Comma)
    } else if c == '-' {
        Rule::Pair(KindView::Minus, KindView::MinusEqual)
    } else if c == '+' {
        Rule::Pair(KindView::Plus, KindView::PlusEqual)
    } else if c == '/' {
        Rule::Pair(KindView::Slash, KindView::DivideEqual)
    } else if c == '*' {
        Rule::Pair(KindView::Star, KindView::MultiplyEqual)
    } else if c == '$' {
        Rule::Single(KindView::Dollar)
    } else if c == '!' {
        Rule::Pair(KindView::Bang, KindView::BangEqual)
    } else if c == '=' {
        Rule::Pair(KindView::Equal, KindView::EqualEqual)
    } else if c == '<' {
        Rule::Pair(KindView::Less, KindView::LessEqual)
    } else if c == '>' {
        Rule::Pair(KindView::Greater, KindView::GreaterEqual)
    } else if digit(c) {
        Rule::Number
    } else if letter(c) {
        Rule::Word
    } else {
        Rule::Unexpected
    }
}

/// Whether a `=` stands at offset `i`.
pub open spec fn equal_sign_at(src: Seq<char>, i: int) -> bool {
    0 <= i < src.len() && src[i] == '='
}

/// Where the number literal that starts at `s` ends: after its digits, and
/// after a `.` with the digits behind it where at least one digit follows
/// the `.`.
pub open spec fn number_end(src: Seq<char>, s: int) -> int {
    let e = run_end(src, CharClass::Digit, s + 1);
    if e + 1 < src.len() && src[e] == '.' && digit(src[e + 1]) {
        run_end(src, CharClass::Digit, e + 2)
    } else {
        e
    }
}

/// Where the lexeme that starts at `s` ends.
pub open spec fn lexeme_end(src: Seq<char>, s: int) -> int
    recommends
        0 <= s < src.len(),
{
    match rule_of(src[s]) {
        Rule::Single(_) => s + 1,
        Rule::Pair(_, _) => if equal_sign_at(src, s + 1) {
            s + 2
        } else {
            s + 1
        },
        Rule::Number => number_end(src, s),
        Rule::Word => run_end(src, CharClass::Word, s + 1),
        Rule::Unexpected => s + 1,
    }
}

/// The token of kind `kind` that takes up `src` from `s` to `e`.
pub open spec fn token_at(src: Seq<char>, s: int, e: int, kind: KindView) -> TokenView {
    TokenView { kind, line: line_at(src, s), col: col_at(src, s), span: src.subrange(s, e) }
}

/// What the lexeme that starts at `s` is: a token that stands at the
/// position of `s` and whose span is the lexeme's text, or, for a character
/// that starts no token, an error that carries the character and the
/// position behind it.
pub open spec fn lexeme_item(src: Seq<char>, s: int) -> Result<TokenView, ErrorView>
    recommends
        0 <= s < src.len(),
{
    let e = lexeme_end(src, s);
    match rule_of(src[s]) {
        Rule::Single(kind) => Ok(token_at(src, s, e, kind)),
        Rule::Pair(alone, with_equal) => Ok(
            token_at(
                src,
                s,
                e,
                if equal_sign_at(src, s + 1) {
                    with_equal
                } else {
                    alone
                },
            ),
        ),
        Rule::Number => Ok(token_at(src, s, e, KindView::Number(src.subrange(s, e)))),
        Rule::Word => Ok(token_at(src, s, e, word_kind(src.subrange(s, e)))),
        Rule::Unexpected => Err(
            ErrorView {
                kind: ErrorKind::UnexpectedCharacter,
                msg: src.subrange(s, e),
                line: line_at(src, e),
                col: col_at(src, e),
            },
        ),
    }
}

/// The error for a source that ends where a token was asked for.
pub open spec fn eof_error(src: Seq<char>, at: int) -> ErrorView {
    ErrorView {
        kind: ErrorKind::UnexpectedEof,
        msg: "unexpected eof"@,
        line: line_at(src, at),
        col: col_at(src, at),
    }
}

/// One step of the scan: the text from `start` to `end`, and what it is.
pub struct Lexeme {
    pub start: int,
    pub end: int,
    pub item: Result<TokenView, ErrorView>,
}

/// The lexeme that a scan standing at offset `p` reads: blanks are passed
/// over, and what follows them is read; where nothing follows, the lexeme
/// is empty and its item the end-of-input error.
pub open spec fn lex_at(src: Seq<char>, p: int) -> Lexeme {
    let s = run_end(src, CharClass::Space, p);
    if 0 <= s < src.len() {
        Lexeme { start: s, end: lexeme_end(src, s), item: lexeme_item(src, s) }
    } else {
        Lexeme { start: s, end: s, item: Err(eof_error(src, s)) }
    }
}

/// The lexemes that a scan reads from offset `p` to the end of `src`: one
/// after the other, each from where the one before it ended, as long as
/// anything is left.
pub open spec fn lexemes_from(src: Seq<char>, p: int) -> Seq<Lexeme>
    decreases src.len() - p,
{
    if 0 <= p < src.len() {
        let lexeme = lex_at(src, p);
        proof {
            lemma_lex_at_bounds(src, p);
        }
        seq![lexeme] + lexemes_from(src, lexeme.end)
    } else {
        Seq::empty()
    }
}

/// What a scan from offset `p` yields: the item of each lexeme, in order.
pub open spec fn scan_from(src: Seq<char>, p: int) -> Seq<Result<TokenView, ErrorView>> {
    lexemes_from(src, p).map_values(|lexeme: Lexeme| lexeme.item)
}

/// A run ends between its start and the end of the source; every character
/// of it is of the class, and the character behind it, if any, is not.
pub proof fn lemma_run_end(src: Seq<char>, class: CharClass, i: int)
    requires
        0 <= i <= src.len(),
    ensures
        i <= run_end(src, class, i) <= src.len(),
        forall|k: int| i <= k < run_end(src, class, i) ==> in_class(class, #[trigger] src[k]),
        run_end(src, class, i) < src.len() ==> !in_class(class, src[run_end(src, class, i)]),
    decreases src.len() - i,
{
    if i < src.len() && in_class(class, src[i]) {
        lemma_run_end(src, class, i + 1);
    }
}

/// A lexeme lies inside the source and behind the offset it was read from;
/// a token is never empty, and a scan that has input left moves on.
pub proof fn lemma_lex_at_bounds(src: Seq<char>, p: int)
    requires
        0 <= p <= src.len(),
    ensures
        p <= lex_at(src, p).start <= lex_at(src, p).end <= src.len(),
        p < src.len() ==> p < lex_at(src, p).end,
        lex_at(src, p).item is Ok ==> lex_at(src, p).start < lex_at(src, p).end,
{
    lemma_run_end(src, CharClass::Space, p);
    let s = run_end(src, CharClass::Space, p);
    if s < src.len() {
        lemma_run_end(src, CharClass::Word, s + 1);
        lemma_run_end(src, CharClass::Digit, s + 1);
        let e = run_end(src, CharClass::Digit, s + 1);
        if e + 1 < src.len() {
            lemma_run_end(src, CharClass::Digit, e + 2);
        }
    }
}

/// A scan yields no more lexemes than it has characters left.
pub proof fn lemma_lexemes_count(src: Seq<char>, p: int)
    requires
        0 <= p <= src.len(),
    ensures
        lexemes_from(src, p).len() <= src.len() - p,
        scan_from(src, p).len() == lexemes_from(src, p).len(),
    decreases src.len() - p,
{
    if p < src.len() {
        lemma_lex_at_bounds(src, p);
        lemma_lexemes_count(src, lex_at(src, p).end);
    }
}

/// A short source has no position too large: below 2^30 characters, lines
/// and columns fit a `u32`.
pub proof fn lemma_short_source_fits(src: Seq<char>)
    requires
        src.len() <= 0x3fff_ffff,
    ensures
        positions_fit(src),
{
    assert forall|i: int| 0 <= i <= src.len() implies #[trigger] line_at(src, i) <= u32::MAX
        && col_at(src, i) <= u32::MAX by {
        lemma_position_bounds(src, i);
    }
}

/// Lines and columns start at 1, a line is at most one more than the
/// characters before it, and a column at most one more than their tab
/// widths.
pub proof fn lemma_position_bounds(src: Seq<char>, i: int)
    requires
        0 <= i,
    ensures
        1 <= line_at(src, i) <= 1 + i,
        1 <= col_at(src, i) <= 1 + TAB_SIZE * i,
    decreases i,
{
    if i > 0 {
        lemma_position_bounds(src, i - 1);
    }
}

/// The tab rule: a tab moves the column on by exactly the tab width,
/// whatever the column was, and stays on its line.
pub proof fn lemma_tab_rule(src: Seq<char>, i: int)
    requires
        0 <= i < src.len(),
        src[i] == '\t',
    ensures
        col_at(src, i + 1) == col_at(src, i) + 4,
        line_at(src, i + 1) == line_at(src, i),
{
}

/// How every character moves the position: a newline starts the next
/// line at column 1; a carriage return changes nothing; a tab adds the tab
/// width to the column; any other character adds 1 to it.
pub proof fn lemma_position_step(src: Seq<char>, i: int)
    requires
        0 <= i < src.len(),
    ensures
        src[i] == '\n' ==> line_at(src, i + 1) == line_at(src, i) + 1 && col_at(src, i + 1) == 1,
        src[i] != '\n' ==> line_at(src, i + 1) == line_at(src, i),
        src[i] == '\r' ==> col_at(src, i + 1) == col_at(src, i),
        src[i] == '\t' ==> col_at(src, i + 1) == col_at(src, i) + TAB_SIZE,
        src[i] != '\n' && src[i] != '\r' && src[i] != '\t' ==> col_at(src, i + 1) == col_at(
            src,
            i,
        ) + 1,
{
}

/// Where lexeme `k` of a scan was read from: the offset that the scan
/// started at, or the end of the lexeme before it.
pub open spec fn read_from(lexemes: Seq<Lexeme>, p: int, k: int) -> int {
    if k <= 0 {
        p
    } else {
        lexemes[k - 1].end
    }
}

/// Every lexeme of a scan is the one that [`lex_at`] reads from where the
/// lexeme before it ended, and that offset lies inside the source.
pub proof fn lemma_lexemes_chain(src: Seq<char>, p: int, k: int)
    requires
        0 <= p <= src.len(),
        0 <= k < lexemes_from(src, p).len(),
    ensures
        p <= read_from(lexemes_from(src, p), p, k) < src.len(),
        lexemes_from(src, p)[k] == lex_at(src, read_from(lexemes_from(src, p), p, k)),
    decreases k,
{
    let first = lex_at(src, p);
    lemma_lex_at_bounds(src, p);
    if k > 0 {
        let rest = lexemes_from(src, first.end);
        assert(lexemes_from(src, p) == seq![first] + rest);
        lemma_lexemes_chain(src, first.end, k - 1);
        assert(lexemes_from(src, p)[k] == rest[k - 1]);
        if k > 1 {
            assert(lexemes_from(src, p)[k - 1] == rest[k - 2]);
        }
    }
}

/// Span and position accuracy: every token of a scan takes up a part of
/// the source that is not empty; its span is exactly that part, and its
/// line and column are those of the part's first character.
pub proof fn lemma_token_span_and_position(src: Seq<char>, p: int, k: int)
    requires
        0 <= p <= src.len(),
        0 <= k < lexemes_from(src, p).len(),
        lexemes_from(src, p)[k].item is Ok,
    ensures
        ({
            let lexeme = lexemes_from(src, p)[k];
            let token = lexeme.item->Ok_0;
            &&& p <= lexeme.start < lexeme.end <= src.len()
            &&& token.span == src.subrange(lexeme.start, lexeme.end)
            &&& token.line == line_at(src, lexeme.start)
            &&& token.col == col_at(src, lexeme.start)
        }),
{
    lemma_lexemes_chain(src, p, k);
    let from = read_from(lexemes_from(src, p), p, k);
    lemma_lex_at_bounds(src, from);
}

/// The characters that a lexeme accounts for: the span of a token, the
/// character of an unexpected-character error, nothing for the end of
/// input.
pub open spec fn lexeme_text(lexeme: Lexeme) -> Seq<char> {
    match lexeme.item {
        Ok(token) => token.span,
        Err(error) => if error.kind == ErrorKind::UnexpectedCharacter {
            error.msg
        } else {
            Seq::empty()
        },
    }
}

/// The blanks that were passed over and the text of each lexeme, in the
/// order of the scan, from lexeme `k` on.
pub open spec fn spelled(src: Seq<char>, lexemes: Seq<Lexeme>, p: int, k: int) -> Seq<char>
    decreases lexemes.len() - k,
{
    if 0 <= k < lexemes.len() {
        src.subrange(read_from(lexemes, p, k), lexemes[k].start) + lexeme_text(lexemes[k])
            + spelled(src, lexemes, p, k + 1)
    } else {
        Seq::empty()
    }
}

/// Whether the scan from `p` meets no character that starts no token.
pub open spec fn no_unexpected_character(src: Seq<char>, p: int) -> bool {
    forall|k: int|
        0 <= k < lexemes_from(src, p).len() ==> match (#[trigger] lexemes_from(src, p)[k]).item {
            Ok(_) => true,
            Err(error) => error.kind != ErrorKind::UnexpectedCharacter,
        }
}

/// A scan that has read all its lexemes stands at the end of the source:
/// the last lexeme ends there, and a scan without lexemes started there.
pub proof fn lemma_scan_reaches_end(src: Seq<char>, p: int)
    requires
        0 <= p <= src.len(),
    ensures
        read_from(lexemes_from(src, p), p, lexemes_from(src, p).len() as int) == src.len(),
    decreases src.len() - p,
{
    let lexemes = lexemes_from(src, p);
    if p < src.len() {
        let first = lex_at(src, p);
        lemma_lex_at_bounds(src, p);
        let rest = lexemes_from(src, first.end);
        assert(lexemes == seq![first] + rest);
        lemma_scan_reaches_end(src, first.end);
        if rest.len() > 0 {
            assert(lexemes[lexemes.len() - 1] == rest[rest.len() - 1]);
        }
    }
}

/// The lexemes of a scan tile the source: each starts at or behind the
/// end of the one before it, and only blanks lie between the two.
pub proof fn lemma_lexemes_tile(src: Seq<char>, p: int, k: int)
    requires
        0 <= p <= src.len(),
        0 <= k < lexemes_from(src, p).len(),
    ensures
        ({
            let lexeme = lexemes_from(src, p)[k];
            let from = read_from(lexemes_from(src, p), p, k);
            &&& p <= from <= lexeme.start <= lexeme.end <= src.len()
            &&& forall|i: int| from <= i < lexeme.start ==> space(#[trigger] src[i])
        }),
{
    lemma_lexemes_chain(src, p, k);
    let from = read_from(lexemes_from(src, p), p, k);
    lemma_lex_at_bounds(src, from);
    lemma_run_end(src, CharClass::Space, from);
}

/// Coverage: the blanks that a scan passes over and the texts of its
/// lexemes, put together in the order of the scan, are the source from
/// the scan's start to its end, with nothing left out and nothing twice.
pub proof fn lemma_scan_covers(src: Seq<char>, p: int)
    requires
        0 <= p <= src.len(),
    ensures
        spelled(src, lexemes_from(src, p), p, 0) == src.subrange(p, src.len() as int),
{
    lemma_spelled_from(src, p, 0);
}

/// Coverage from lexeme `k` on: what is spelled from there is the source
/// from where lexeme `k` was read from.
pub proof fn lemma_spelled_from(src: Seq<char>, p: int, k: int)
    requires
        0 <= p <= src.len(),
        0 <= k <= lexemes_from(src, p).len(),
    ensures
        p <= read_from(lexemes_from(src, p), p, k) <= src.len(),
        spelled(src, lexemes_from(src, p), p, k) == src.subrange(
            read_from(lexemes_from(src, p), p, k),
            src.len() as int,
        ),
    decreases lexemes_from(src, p).len() - k,
{
    let lexemes = lexemes_from(src, p);
    let from = read_from(lexemes, p, k);
    let end = src.len() as int;
    if k < lexemes.len() {
        let lexeme = lexemes[k];
        assert(lexeme == lex_at(src, from) && p <= from <= lexeme.start <= lexeme.end <= end) by {
            lemma_lexemes_chain(src, p, k);
            lemma_lex_at_bounds(src, from);
        }
        assert(lexeme_text(lexeme) == src.subrange(lexeme.start, lexeme.end));
        lemma_spelled_from(src, p, k + 1);
        assert(read_from(lexemes, p, k + 1) == lexeme.end);
        assert(src.subrange(from, lexeme.start) + src.subrange(lexeme.start, lexeme.end)
            + src.subrange(lexeme.end, end) =~= src.subrange(from, end));
    } else {
        lemma_scan_reaches_end(src, p);
        assert(src.subrange(from, end) =~= Seq::<char>::empty());
    }
}

/// Coverage by tokens and blanks alone: where a scan meets no unexpected
/// character, every lexeme's text is the span of a token or empty, so the
/// spans of the tokens and the blanks between them make up the source.
pub proof fn lemma_tokens_and_blanks_cover(src: Seq<char>, p: int)
    requires
        0 <= p <= src.len(),
        no_unexpected_character(src, p),
    ensures
        spelled(src, lexemes_from(src, p), p, 0) == src.subrange(p, src.len() as int),
        forall|k: int|
            0 <= k < lexemes_from(src, p).len() ==> match (#[trigger] lexemes_from(
                src,
                p,
            )[k]).item {
                Ok(token) => lexeme_text(lexemes_from(src, p)[k]) == token.span,
                Err(_) => lexeme_text(lexemes_from(src, p)[k]) == Seq::<char>::empty(),
            },
{
    lemma_scan_covers(src, p);
}

} // verus!
