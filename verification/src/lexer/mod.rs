pub mod errors;
pub mod tokens;

pub use errors::{LexerError, LexerErrorKind, LexerErrorKindView, LexerErrorView};
pub use tokens::{Token, TokenKind, TokenKindView, TokenView};

use vstd::prelude::*;
use vstd::string::StrSliceExecFns;
use vstd::string::StringExecFns;

verus! {

pub open spec fn is_digit(c: char) -> bool {
    '0' <= c <= '9'
}

pub open spec fn is_alphabetic(c: char) -> bool {
    ('a' <= c <= 'z') || ('A' <= c <= 'Z')
}

/// A character that may continue an identifier or a keyword.
pub open spec fn is_word_char(c: char) -> bool {
    is_alphabetic(c) || is_digit(c) || c == '_'
}

/// A character that may continue a number.
pub open spec fn is_number_char(c: char) -> bool {
    is_digit(c) || c == '.'
}

pub open spec fn is_blank(c: char) -> bool {
    c == ' ' || c == '\t' || c == '\r' || c == '\n'
}

/// The line the lexer is on when it has read the first `pos` characters
/// of `source`: one more than the line breaks among them.
pub open spec fn line_at(source: Seq<char>, pos: int) -> nat
    decreases pos,
{
    if pos <= 0 {
        1
    } else if source[pos - 1] == '\n' {
        line_at(source, pos - 1) + 1
    } else {
        line_at(source, pos - 1)
    }
}

/// The column the lexer is on when it has read the first `pos`
/// characters of `source`: one more than the characters read since the
/// last line break.
pub open spec fn col_at(source: Seq<char>, pos: int) -> nat
    decreases pos,
{
    if pos <= 0 {
        1
    } else if source[pos - 1] == '\n' {
        1
    } else {
        col_at(source, pos - 1) + 1
    }
}

/// Where the run of word characters that holds `from` ends.
pub open spec fn word_end(source: Seq<char>, from: int) -> int
    decreases source.len() - from,
{
    if 0 <= from < source.len() && is_word_char(source[from]) {
        word_end(source, from + 1)
    } else {
        from
    }
}

/// Where the run of digits and dots that holds `from` ends.
pub open spec fn number_end(source: Seq<char>, from: int) -> int
    decreases source.len() - from,
{
    if 0 <= from < source.len() && is_number_char(source[from]) {
        number_end(source, from + 1)
    } else {
        from
    }
}

/// The place of the first double quote at or after `from`, or the end of
/// `source` when there is none.
pub open spec fn string_end(source: Seq<char>, from: int) -> int
    decreases source.len() - from,
{
    if 0 <= from < source.len() && source[from] != '"' {
        string_end(source, from + 1)
    } else {
        from
    }
}

/// How many dots `source` holds from `from` up to `to`.
pub open spec fn dots_in(source: Seq<char>, from: int, to: int) -> nat
    decreases to - from,
{
    if to <= from {
        0
    } else if source[to - 1] == '.' {
        dots_in(source, from, to - 1) + 1
    } else {
        dots_in(source, from, to - 1)
    }
}

/// The keyword that `word` spells, or the identifier that it is.
pub open spec fn keyword(word: Seq<char>) -> TokenKindView {
    if word == "and"@ {
        TokenKindView::And
    } else if word == "class"@ {
        TokenKindView::Class
    } else if word == "else"@ {
        TokenKindView::Else
    } else if word == "false"@ {
        TokenKindView::False
    } else if word == "fun"@ {
        TokenKindView::Fun
    } else if word == "for"@ {
        TokenKindView::For
    } else if word == "if"@ {
        TokenKindView::If
    } else if word == "nil"@ {
        TokenKindView::Nil
    } else if word == "or"@ {
        TokenKindView::Or
    } else if word == "print"@ {
        TokenKindView::Print
    } else if word == "return"@ {
        TokenKindView::Return
    } else if word == "super"@ {
        TokenKindView::Super
    } else if word == "this"@ {
        TokenKindView::This
    } else if word == "true"@ {
        TokenKindView::True
    } else if word == "var"@ {
        TokenKindView::Var
    } else if word == "while"@ {
        TokenKindView::While
    } else {
        TokenKindView::Identifier(word)
    }
}

/// What the lexer makes of the characters that start at one place.
pub enum Scan {
    /// A token, and the place after it.
    Token(TokenKindView, int),
    /// Blank space, and the place after it.
    Skip(int),
    /// An error, and the place at which the lexer gives up.
    Fail(LexerErrorKindView, int),
}

/// One of `!`, `=`, `>`, `<` at `pos`, taken together with an equals sign
/// that follows it.
pub open spec fn scan_optional_equal(
    source: Seq<char>,
    pos: int,
    alone: TokenKindView,
    with_equal: TokenKindView,
) -> Scan {
    if pos + 1 < source.len() && source[pos + 1] == '=' {
        Scan::Token(with_equal, pos + 2)
    } else {
        Scan::Token(alone, pos + 1)
    }
}

/// What starts at `pos`, a place inside `source`.
pub open spec fn scan(source: Seq<char>, pos: int) -> Scan {
    let c = source[pos];
    if c == '(' {
        Scan::Token(TokenKindView::LeftParen, pos + 1)
    } else if c == ')' {
        Scan::Token(TokenKindView::RightParen, pos + 1)
    } else if c == '{' {
        Scan::Token(TokenKindView::LeftBrace, pos + 1)
    } else if c == '}' {
        Scan::Token(TokenKindView::RightBrace, pos + 1)
    } else if c == ',' {
        Scan::Token(TokenKindView::Comma, pos + 1)
    } else if c == '.' {
        Scan::Token(TokenKindView::Dot, pos + 1)
    } else if c == '-' {
        Scan::Token(TokenKindView::Minus, pos + 1)
    } else if c == '+' {
        Scan::Token(TokenKindView::Plus, pos + 1)
    } else if c == ';' {
        Scan::Token(TokenKindView::Semicolon, pos + 1)
    } else if c == '/' {
        Scan::Token(TokenKindView::Slash, pos + 1)
    } else if c == '*' {
        Scan::Token(TokenKindView::Star, pos + 1)
    } else if c == '!' {
        scan_optional_equal(source, pos, TokenKindView::Bang, TokenKindView::BangEqual)
    } else if c == '=' {
        scan_optional_equal(source, pos, TokenKindView::Equal, TokenKindView::EqualEqual)
    } else if c == '>' {
        scan_optional_equal(source, pos, TokenKindView::Greater, TokenKindView::GreaterEqual)
    } else if c == '<' {
        scan_optional_equal(source, pos, TokenKindView::Less, TokenKindView::LessEqual)
    } else if c == '"' {
        let end = string_end(source, pos + 1);
        if end < source.len() {
            Scan::Token(TokenKindView::String(source.subrange(pos + 1, end)), end + 1)
        } else {
            Scan::Fail(LexerErrorKindView::UnterminatedString, end)
        }
    } else if is_digit(c) {
        let end = number_end(source, pos + 1);
        let text = source.subrange(pos, end);
        if dots_in(source, pos, end) <= 1 {
            Scan::Token(TokenKindView::Number(text), end)
        } else {
            Scan::Fail(LexerErrorKindView::InvalidNumber(text), end)
        }
    } else if is_alphabetic(c) {
        let end = word_end(source, pos + 1);
        Scan::Token(keyword(source.subrange(pos, end)), end)
    } else if is_blank(c) {
        Scan::Skip(pos + 1)
    } else {
        Scan::Fail(LexerErrorKindView::UnexpectedChar(c), pos + 1)
    }
}

/// The tokens of `source` from `pos` on, behind those in `read`; or the
/// first error. A token carries the line and the column of the place
/// after it, and so does an error.
pub open spec fn lex_from(source: Seq<char>, pos: int, read: Seq<TokenView>) -> Result<
    Seq<TokenView>,
    LexerErrorView,
>
    decreases source.len() - pos,
{
    if !(0 <= pos < source.len()) {
        Ok(
            read.push(
                TokenView {
                    line: line_at(source, source.len() as int),
                    col: col_at(source, source.len() as int),
                    kind: TokenKindView::Eof,
                },
            ),
        )
    } else {
        match scan(source, pos) {
            Scan::Token(kind, end) => {
                if pos < end <= source.len() {
                    lex_from(
                        source,
                        end,
                        read.push(
                            TokenView {
                                line: line_at(source, end),
                                col: col_at(source, end),
                                kind,
                            },
                        ),
                    )
                } else {
                    Ok(read)
                }
            },
            Scan::Skip(end) => {
                if pos < end {
                    lex_from(source, end, read)
                } else {
                    Ok(read)
                }
            },
            Scan::Fail(kind, end) => Err(
                LexerErrorView { line: line_at(source, end), col: col_at(source, end), kind },
            ),
        }
    }
}

/// The tokens of `source`, or the first error in it.
pub open spec fn lex(source: Seq<char>) -> Result<Seq<TokenView>, LexerErrorView> {
    lex_from(source, 0, Seq::empty())
}

/// The mathematical values of a run of tokens.
pub open spec fn tokens_view(tokens: Seq<Token>) -> Seq<TokenView> {
    Seq::new(tokens.len(), |i: int| tokens[i]@)
}

/// A line and a column never run ahead of the place they belong to.
pub proof fn lemma_line_col_bounds(source: Seq<char>, pos: int)
    requires
        0 <= pos,
    ensures
        1 <= line_at(source, pos) <= pos + 1,
        1 <= col_at(source, pos) <= pos + 1,
    decreases pos,
{
    if pos > 0 {
        lemma_line_col_bounds(source, pos - 1);
    }
}

fn char_is_digit(c: char) -> (digit: bool)
    ensures
        digit == is_digit(c),
{
    '0' <= c && c <= '9'
}

fn char_is_alphabetic(c: char) -> (alphabetic: bool)
    ensures
        alphabetic == is_alphabetic(c),
{
    ('a' <= c && c <= 'z') || ('A' <= c && c <= 'Z')
}

fn spells(word: &str, literal: &str) -> (same: bool)
    ensures
        same == (word@ == literal@),
{
    let left = String::from_str(word);
    let right = String::from_str(literal);
    left == right
}

/// The lexer: a source text and the place in it that has been reached.
#[derive(Debug)]
pub struct Lexer<'a> {
    source_code: &'a str,
    length: usize,
    pos: usize,
    line: usize,
    col: usize,
}

impl<'a> Lexer<'a> {
    /// The characters of the source text.
    pub closed spec fn source(&self) -> Seq<char> {
        self.source_code@
    }

    /// How many characters have been read.
    pub closed spec fn position(&self) -> int {
        self.pos as int
    }

    /// The line that the lexer is on; the first is line 1.
    pub closed spec fn line(&self) -> nat {
        self.line as nat
    }

    /// The column that the lexer is on; the first is column 1.
    pub closed spec fn col(&self) -> nat {
        self.col as nat
    }

    /// The line and the column are those of the place reached, and the
    /// place is inside the text or at its end.
    pub closed spec fn wf(&self) -> bool {
        &&& self.length == self.source_code@.len()
        &&& self.length < usize::MAX
        &&& self.pos <= self.length
        &&& self.line == line_at(self.source_code@, self.pos as int)
        &&& self.col == col_at(self.source_code@, self.pos as int)
    }

    /// The character at the place reached, if the text has not ended.
    pub open spec fn next_char(&self) -> Option<char> {
        if 0 <= self.position() < self.source().len() {
            Some(self.source()[self.position()])
        } else {
            None
        }
    }

    pub fn new(source_code: &'a str) -> (lexer: Lexer<'a>)
        requires
            source_code@.len() < usize::MAX,
        ensures
            lexer.wf(),
            lexer.source() == source_code@,
            lexer.position() == 0,
            lexer.line() == 1,
            lexer.col() == 1,
    {
        Lexer { source_code, length: source_code.unicode_len(), pos: 0, line: 1, col: 1 }
    }

    /// The character read last.
    pub fn prev(&self) -> (last: Option<char>)
        requires
            self.wf(),
            self.position() > 0,
        ensures
            last == Some(self.source()[self.position() - 1]),
    {
        Some(self.source_code.get_char(self.pos - 1))
    }

    /// The character that comes next, without reading it.
    pub fn peek(&self) -> (next: Option<char>)
        requires
            self.wf(),
        ensures
            next == self.next_char(),
    {
        if self.pos < self.length {
            Some(self.source_code.get_char(self.pos))
        } else {
            None
        }
    }

    /// Reads the next character, if the text has not ended. A line break
    /// leads to the first column of the next line, any other character to
    /// the next column; at the end of the text nothing changes.
    pub fn consume(&mut self) -> (taken: Option<char>)
        requires
            old(self).wf(),
        ensures
            final(self).wf(),
            final(self).source() == old(self).source(),
            taken == old(self).next_char(),
            final(self).position() == old(self).position() + if taken is Some {
                1int
            } else {
                0int
            },
            final(self).line() == line_at(final(self).source(), final(self).position()),
            final(self).col() == col_at(final(self).source(), final(self).position()),
            final(self).line() == match taken {
                Some('\n') => old(self).line() + 1,
                _ => old(self).line(),
            },
            final(self).col() == match taken {
                Some('\n') => 1,
                Some(_) => old(self).col() + 1,
                None => old(self).col(),
            },
    {
        if let Some(ch) = self.peek() {
            proof {
                lemma_line_col_bounds(self.source_code@, self.pos as int);
            }
            if ch == '\n' {
                self.line += 1;
                self.col = 0;
            }
            self.pos += 1;
            self.col += 1;
            return Some(ch);
        }
        None
    }

    /// Reads the whole text from the place reached and returns its
    /// tokens, the last of which is the only end-of-input token; or the
    /// first error met.
    pub fn tokenize(&mut self) -> (result: Result<Vec<Token>, LexerError>)
        requires
            old(self).wf(),
        ensures
            final(self).wf(),
            final(self).source() == old(self).source(),
            match lex_from(old(self).source(), old(self).position(), Seq::empty()) {
                Ok(model) => result matches Ok(tokens) && tokens_view(tokens@) == model,
                Err(model) => result matches Err(error) && error@ == model,
            },
            result matches Ok(tokens) ==> {
                &&& tokens.len() > 0
                &&& tokens[tokens.len() - 1]@.kind is Eof
                &&& forall|i: int| 0 <= i < tokens.len() - 1 ==> !(#[trigger] tokens[i]@.kind is Eof)
            },
    {
        let ghost source = self.source_code@;
        let ghost start = self.pos as int;
        let mut tokens: Vec<Token> = Vec::new();
        assert(tokens_view(tokens@) =~= Seq::empty());
        loop
            invariant
                self.wf(),
                self.source_code@ == source,
                old(self).source_code@ == source,
                old(self).pos == start,
                lex_from(source, start, Seq::empty()) == lex_from(
                    source,
                    self.pos as int,
                    tokens_view(tokens@),
                ),
                forall|i: int| 0 <= i < tokens.len() ==> !(#[trigger] tokens[i]@.kind is Eof),
            ensures
                self.wf(),
                self.source_code@ == source,
                self.pos == self.length,
                lex_from(source, start, Seq::empty()) == lex_from(
                    source,
                    self.pos as int,
                    tokens_view(tokens@),
                ),
                forall|i: int| 0 <= i < tokens.len() ==> !(#[trigger] tokens[i]@.kind is Eof),
            decreases self.length - self.pos,
        {
            let ghost at = self.pos as int;
            let ghost before = tokens_view(tokens@);
            let ch = match self.consume() {
                Some(ch) => ch,
                None => {
                    break ;
                },
            };
            let kind = match ch {
                '(' => TokenKind::LeftParen,
                ')' => TokenKind::RightParen,
                '{' => TokenKind::LeftBrace,
                '}' => TokenKind::RightBrace,
                ',' => TokenKind::Comma,
                '.' => TokenKind::Dot,
                '-' => TokenKind::Minus,
                '+' => TokenKind::Plus,
                ';' => TokenKind::Semicolon,
                '/' => TokenKind::Slash,
                '*' => TokenKind::Star,
                '!' => self.match_optional_equal(TokenKind::Bang, TokenKind::BangEqual),
                '=' => self.match_optional_equal(TokenKind::Equal, TokenKind::EqualEqual),
                '>' => self.match_optional_equal(TokenKind::Greater, TokenKind::GreaterEqual),
                '<' => self.match_optional_equal(TokenKind::Less, TokenKind::LessEqual),
                '"' => match self.match_string() {
                    Ok(kind) => kind,
                    Err(error) => {
                        return Err(error);
                    },
                },
                _ => {
                    if char_is_digit(ch) {
                        match self.match_number() {
                            Ok(kind) => kind,
                            Err(error) => {
                                return Err(error);
                            },
                        }
                    } else if char_is_alphabetic(ch) {
                        self.match_identifier_or_keyword()
                    } else if ch == ' ' || ch == '\t' || ch == '\r' || ch == '\n' {
                        assert(scan(source, at) == Scan::Skip(at + 1));
                        continue ;
                    } else {
                        return Err(
                            LexerError::new(
                                self.line,
                                self.col,
                                LexerErrorKind::UnexpectedChar(ch),
                            ),
                        );
                    }
                },
            };
            assert(scan(source, at) == Scan::Token(kind@, self.pos as int));
            let token = Token::new(self.line, self.col, kind);
            tokens.push(token);
            assert(tokens_view(tokens@) =~= before.push(token@));
        }
        let ghost before = tokens_view(tokens@);
        let token = Token::new(self.line, self.col, TokenKind::Eof);
        tokens.push(token);
        assert(tokens_view(tokens@) =~= before.push(token@));
        Ok(tokens)
    }

    /// After one of `!`, `=`, `>`, `<`: reads an equals sign if one
    /// follows, and says which of the two tokens it was.
    fn match_optional_equal(&mut self, default: TokenKind, optional: TokenKind) -> (kind:
        TokenKind)
        requires
            old(self).wf(),
            old(self).position() > 0,
        ensures
            final(self).wf(),
            final(self).source() == old(self).source(),
            final(self).position() >= old(self).position(),
            scan_optional_equal(
                old(self).source(),
                old(self).position() - 1,
                default@,
                optional@,
            ) == Scan::Token(kind@, final(self).position()),
    {
        match self.peek() {
            Some('=') => {
                self.consume();
                optional
            },
            _ => default,
        }
    }

    /// After an opening quote: reads up to and with the closing quote and
    /// returns the text between the two.
    fn match_string(&mut self) -> (result: Result<TokenKind, LexerError>)
        requires
            old(self).wf(),
        ensures
            final(self).wf(),
            final(self).source() == old(self).source(),
            final(self).position() >= old(self).position(),
            ({
                let source = old(self).source();
                let end = string_end(source, old(self).position());
                if end < source.len() {
                    &&& result matches Ok(kind)
                    &&& kind@ == TokenKindView::String(source.subrange(old(self).position(), end))
                    &&& final(self).position() == end + 1
                } else {
                    &&& result matches Err(error)
                    &&& error@ == (LexerErrorView {
                        line: line_at(source, end),
                        col: col_at(source, end),
                        kind: LexerErrorKindView::UnterminatedString,
                    })
                    &&& final(self).position() == end
                }
            }),
    {
        let ghost source = self.source_code@;
        let start = self.pos;
        loop
            invariant
                self.wf(),
                self.source_code@ == source,
                start <= self.pos,
                string_end(source, start as int) == string_end(source, self.pos as int),
            ensures
                self.wf(),
                self.source_code@ == source,
                start <= self.pos,
                string_end(source, start as int) == self.pos,
            decreases self.length - self.pos,
        {
            match self.peek() {
                Some(ch) => {
                    if ch == '"' {
                        break ;
                    }
                    self.consume();
                },
                None => {
                    break ;
                },
            }
        }
        if self.pos >= self.length {
            return Err(LexerError::new(self.line, self.col, LexerErrorKind::UnterminatedString));
        }
        let text = String::from_str(self.source_code.substring_char(start, self.pos));
        self.consume();
        Ok(TokenKind::String(text))
    }

    /// After a digit: reads the digits and dots that follow it. The run
    /// is a number if it holds at most one dot.
    fn match_number(&mut self) -> (result: Result<TokenKind, LexerError>)
        requires
            old(self).wf(),
            old(self).position() > 0,
        ensures
            final(self).wf(),
            final(self).source() == old(self).source(),
            final(self).position() >= old(self).position(),
            ({
                let source = old(self).source();
                let first = old(self).position() - 1;
                let end = number_end(source, old(self).position());
                &&& final(self).position() == end
                &&& if dots_in(source, first, end) <= 1 {
                    &&& result matches Ok(kind)
                    &&& kind@ == TokenKindView::Number(source.subrange(first, end))
                } else {
                    &&& result matches Err(error)
                    &&& error@ == (LexerErrorView {
                        line: line_at(source, end),
                        col: col_at(source, end),
                        kind: LexerErrorKindView::InvalidNumber(source.subrange(first, end)),
                    })
                }
            }),
    {
        let ghost source = self.source_code@;
        let first = self.pos - 1;
        let mut dots: usize = 0;
        if self.source_code.get_char(first) == '.' {
            dots = 1;
        }
        assert(dots_in(source, first as int, first as int) == 0);
        loop
            invariant
                self.wf(),
                self.source_code@ == source,
                first < self.pos,
                number_end(source, first + 1) == number_end(source, self.pos as int),
                dots == dots_in(source, first as int, self.pos as int),
                dots <= self.pos - first,
            ensures
                self.wf(),
                self.source_code@ == source,
                first < self.pos,
                number_end(source, first + 1) == self.pos,
                dots == dots_in(source, first as int, self.pos as int),
            decreases self.length - self.pos,
        {
            match self.peek() {
                Some(ch) => {
                    if !char_is_digit(ch) && ch != '.' {
                        break ;
                    }
                    if ch == '.' {
                        dots += 1;
                    }
                    self.consume();
                },
                None => {
                    break ;
                },
            }
        }
        let text = String::from_str(self.source_code.substring_char(first, self.pos));
        if dots <= 1 {
            Ok(TokenKind::Number(text))
        } else {
            Err(LexerError::new(self.line, self.col, LexerErrorKind::InvalidNumber(text)))
        }
    }

    /// After a letter: reads the letters, digits and underscores that
    /// follow it, and returns the keyword or the identifier that the run
    /// spells.
    fn match_identifier_or_keyword(&mut self) -> (kind: TokenKind)
        requires
            old(self).wf(),
            old(self).position() > 0,
        ensures
            final(self).wf(),
            final(self).source() == old(self).source(),
            final(self).position() >= old(self).position(),
            final(self).position() == word_end(old(self).source(), old(self).position()),
            kind@ == keyword(
                old(self).source().subrange(old(self).position() - 1, final(self).position()),
            ),
    {
        let ghost source = self.source_code@;
        let first = self.pos - 1;
        loop
            invariant
                self.wf(),
                self.source_code@ == source,
                first < self.pos,
                word_end(source, first + 1) == word_end(source, self.pos as int),
            ensures
                self.wf(),
                self.source_code@ == source,
                first < self.pos,
                word_end(source, first + 1) == self.pos,
            decreases self.length - self.pos,
        {
            match self.peek() {
                Some(ch) => {
                    if !char_is_alphabetic(ch) && !char_is_digit(ch) && ch != '_' {
                        break ;
                    }
                    self.consume();
                },
                None => {
                    break ;
                },
            }
        }
        let word = self.source_code.substring_char(first, self.pos);
        if spells(word, "and") {
            TokenKind::And
        } else if spells(word, "class") {
            TokenKind::Class
        } else if spells(word, "else") {
            TokenKind::Else
        } else if spells(word, "false") {
            TokenKind::False
        } else if spells(word, "fun") {
            TokenKind::Fun
        } else if spells(word, "for") {
            TokenKind::For
        } else if spells(word, "if") {
            TokenKind::If
        } else if spells(word, "nil") {
            TokenKind::Nil
        } else if spells(word, "or") {
            TokenKind::Or
        } else if spells(word, "print") {
            TokenKind::Print
        } else if spells(word, "return") {
            TokenKind::Return
        } else if spells(word, "super") {
            TokenKind::Super
        } else if spells(word, "this") {
            TokenKind::This
        } else if spells(word, "true") {
            TokenKind::True
        } else if spells(word, "var") {
            TokenKind::Var
        } else if spells(word, "while") {
            TokenKind::While
        } else {
            TokenKind::Identifier(String::from_str(word))
        }
    }
}

} // verus!
