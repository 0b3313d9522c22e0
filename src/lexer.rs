use vstd::prelude::*;
use crate::token::{chars_of, keyword_or_ident, lookup_indent, ParseError, Tok, Token};

verus! {

/// The characters with the Unicode White_Space property.
pub open spec fn whitespace(c: char) -> bool {
    ('\u{9}' <= c && c <= '\u{D}') || c == ' ' || c == '\u{85}' || c == '\u{A0}' || c == '\u{1680}'
        || ('\u{2000}' <= c && c <= '\u{200A}') || c == '\u{2028}' || c == '\u{2029}' || c == '\u{202F}'
        || c == '\u{205F}' || c == '\u{3000}'
}

/// An ASCII letter.
pub open spec fn ascii_letter(c: char) -> bool {
    ('a' <= c && c <= 'z') || ('A' <= c && c <= 'Z')
}

/// What `char::is_alphabetic` returns for a character.
pub uninterp spec fn alphabetic(c: char) -> bool;

/// Relies on `char::is_whitespace`: the Unicode White_Space property.
#[verifier::external_body]
fn is_space(c: char) -> (r: bool)
    ensures
        r == whitespace(c),
{
    c.is_whitespace()
}

/// Relies on `char::is_alphabetic`: the Unicode Alphabetic property.
#[verifier::external_body]
fn is_alpha(c: char) -> (r: bool)
    ensures
        r == alphabetic(c),
        (c as u32) < 128 ==> (r <==> ascii_letter(c)),
{
    c.is_alphabetic()
}

/// Relies on `String::push`: appends one character.
#[verifier::external_body]
fn push_char(s: &mut String, c: char)
    ensures
        final(s)@ == old(s)@.push(c),
{
    s.push(c)
}

pub open spec fn letter(c: char) -> bool {
    alphabetic(c) || c == '_'
}

pub open spec fn digit(c: char) -> bool {
    '0' <= c && c <= '9'
}

/// First position at or after `i` that holds no whitespace.
pub open spec fn ws_end(s: Seq<char>, i: int) -> int
    decreases s.len() - i,
{
    if 0 <= i < s.len() && whitespace(s[i]) {
        ws_end(s, i + 1)
    } else {
        i
    }
}

/// The line counter after skipping the whitespace that starts at `i`.
pub open spec fn ws_line(s: Seq<char>, i: int, line: int) -> int
    decreases s.len() - i,
{
    if 0 <= i < s.len() && whitespace(s[i]) {
        ws_line(s, i + 1, if s[i] == '\n' { line + 1 } else { line })
    } else {
        line
    }
}

/// The column counter after skipping the whitespace that starts at `i`.
pub open spec fn ws_col(s: Seq<char>, i: int, col: int) -> int
    decreases s.len() - i,
{
    if 0 <= i < s.len() && whitespace(s[i]) {
        ws_col(s, i + 1, if s[i] == '\n' { 1 } else { col + 1 })
    } else {
        col
    }
}

proof fn lemma_ws_end_ge(s: Seq<char>, i: int)
    requires
        0 <= i,
    ensures
        ws_end(s, i) >= i,
    decreases s.len() - i,
{
    if 0 <= i < s.len() && whitespace(s[i]) {
        lemma_ws_end_ge(s, i + 1);
    }
}

/// End of the run of letters that starts at `i`.
pub open spec fn letters_end(s: Seq<char>, i: int) -> int
    decreases s.len() - i,
{
    if 0 <= i < s.len() && letter(s[i]) {
        letters_end(s, i + 1)
    } else {
        i
    }
}

/// End of the run of decimal digits that starts at `i`.
pub open spec fn digits_end(s: Seq<char>, i: int) -> int
    decreases s.len() - i,
{
    if 0 <= i < s.len() && digit(s[i]) {
        digits_end(s, i + 1)
    } else {
        i
    }
}

/// Position of the first double quote at or after `i`, or the length when there is none.
pub open spec fn quote_end(s: Seq<char>, i: int) -> int
    decreases s.len() - i,
{
    if 0 <= i < s.len() && s[i] != '"' {
        quote_end(s, i + 1)
    } else {
        i
    }
}

/// The token that starts at position `i` (no whitespace there) and where it ends;
/// `None` for a string literal that is never closed.
pub open spec fn token_from(s: Seq<char>, i: int) -> Option<(Tok, int)> {
    if i >= s.len() {
        Some((Tok::EndOfFile, i))
    } else {
        let c = s[i];
        let has_next = i + 1 < s.len();
        if c == '-' {
            if has_next && s[i + 1] == ':' {
                Some((Tok::MultilineCommentStart, i + 2))
            } else {
                Some((Tok::Illegal, i + 1))
            }
        } else if c == ':' {
            if has_next && s[i + 1] == ':' {
                Some((Tok::Comment, i + 2))
            } else if has_next && s[i + 1] == '-' {
                Some((Tok::MultilineCommentEnd, i + 2))
            } else {
                Some((Tok::Illegal, i + 1))
            }
        } else if c == ';' {
            Some((Tok::Semicolon, i + 1))
        } else if c == '"' {
            let q = quote_end(s, i + 1);
            if q < s.len() {
                Some((Tok::Str(s.subrange(i + 1, q)), q + 1))
            } else {
                None
            }
        } else if letter(c) {
            let e = letters_end(s, i + 1);
            Some((keyword_or_ident(s.subrange(i, e)), e))
        } else if digit(c) {
            let e = digits_end(s, i + 1);
            Some((Tok::Integer(s.subrange(i, e)), e))
        } else {
            Some((Tok::Illegal, i + 1))
        }
    }
}

/// The token found from position `pos` on, with the position, line and column after it
/// (meaningful where `token_from` gives a token).
pub open spec fn lex_result(s: Seq<char>, pos: int, line: int, col: int) -> (Tok, int, int, int) {
    let i = ws_end(s, pos);
    let l = ws_line(s, pos, line);
    let c = ws_col(s, pos, col);
    match token_from(s, i) {
        Some((t, e)) => (t, e, l, c + (e - i)),
        None => (Tok::EndOfFile, i, l, c),
    }
}

/// The tokenizer: a cursor over the characters of one document, with the line and
/// column it has reached, and where the token it read last starts.
pub struct Lexer {
    pub cur_line: usize,
    pub cur_char: usize,
    input: Vec<char>,
    pos: usize,
    tok_line: usize,
    tok_char: usize,
}

impl Lexer {
    /// The characters of the document.
    pub closed spec fn text(&self) -> Seq<char> {
        self.input@
    }

    /// How many characters have been consumed.
    pub closed spec fn position(&self) -> int {
        self.pos as int
    }

    /// The line the cursor is on, counted from 1.
    pub closed spec fn line(&self) -> int {
        self.cur_line as int
    }

    /// The column counter of the cursor.
    pub closed spec fn column(&self) -> int {
        self.cur_char as int
    }

    /// The line on which the token read last starts.
    pub closed spec fn token_line(&self) -> int {
        self.tok_line as int
    }

    /// The column at which the token read last starts.
    pub closed spec fn token_column(&self) -> int {
        self.tok_char as int
    }

    pub closed spec fn wf(&self) -> bool {
        &&& self.input@.len() < usize::MAX
        &&& self.pos <= self.input@.len()
        &&& 1 <= self.cur_line <= self.pos + 1
        &&& 1 <= self.cur_char <= self.pos + 1
    }

    pub fn new(input: &str) -> (r: Lexer)
        requires
            input@.len() < usize::MAX,
        ensures
            r.wf(),
            r.text() == input@,
            r.position() == 0,
            r.line() == 1,
            r.column() == 1,
    {
        Lexer { cur_line: 1, cur_char: 1, input: chars_of(input), pos: 0, tok_line: 1, tok_char: 1 }
    }

    /// What a well-formed tokenizer guarantees of its cursor.
    pub proof fn lemma_bounds(&self)
        requires
            self.wf(),
        ensures
            0 <= self.position() <= self.text().len() < usize::MAX,
            1 <= self.line() <= self.position() + 1,
            1 <= self.column() <= self.position() + 1,
    {
    }

    /// The line on which the token read last starts.
    pub fn token_start_line(&self) -> (r: usize)
        ensures
            r == self.token_line(),
    {
        self.tok_line
    }

    /// The column at which the token read last starts.
    pub fn token_start_column(&self) -> (r: usize)
        ensures
            r == self.token_column(),
    {
        self.tok_char
    }

    /// The line the cursor is on.
    pub fn current_line(&self) -> (r: usize)
        ensures
            r == self.line(),
    {
        self.cur_line
    }

    /// The column counter of the cursor.
    pub fn current_column(&self) -> (r: usize)
        ensures
            r == self.column(),
    {
        self.cur_char
    }

    fn next(&mut self) -> (r: Option<char>)
        requires
            old(self).wf(),
        ensures
            final(self).wf(),
            final(self).input@ == old(self).input@,
            final(self).cur_line == old(self).cur_line,
            final(self).tok_line == old(self).tok_line,
            final(self).tok_char == old(self).tok_char,
            old(self).pos < old(self).input@.len() ==> r == Some(old(self).input@[old(self).pos as int])
                && final(self).pos == old(self).pos + 1 && final(self).cur_char == old(self).cur_char + 1,
            old(self).pos >= old(self).input@.len() ==> r is None && final(self).pos == old(self).pos
                && final(self).cur_char == old(self).cur_char,
    {
        if self.pos < self.input.len() {
            let c = self.input[self.pos];
            self.cur_char += 1;
            self.pos += 1;
            Some(c)
        } else {
            None
        }
    }

    fn peek(&self) -> (r: Option<char>)
        ensures
            self.pos < self.input@.len() ==> r == Some(self.input@[self.pos as int]),
            self.pos >= self.input@.len() ==> r is None,
    {
        if self.pos < self.input.len() {
            Some(self.input[self.pos])
        } else {
            None
        }
    }

    fn peek_char_eq(&self, ch: char) -> (r: bool)
        ensures
            r == (self.pos < self.input@.len() && self.input@[self.pos as int] == ch),
    {
        match self.peek() {
            Some(c) => c == ch,
            None => false,
        }
    }

    fn peek_is_letter(&self) -> (r: bool)
        ensures
            r == (self.pos < self.input@.len() && letter(self.input@[self.pos as int])),
    {
        match self.peek() {
            Some(c) => is_letter(c),
            None => false,
        }
    }

    fn peek_is_digit(&self) -> (r: bool)
        ensures
            r == (self.pos < self.input@.len() && digit(self.input@[self.pos as int])),
    {
        match self.peek() {
            Some(c) => is_digit(c),
            None => false,
        }
    }

    fn skip_spaces(&mut self)
        requires
            old(self).wf(),
        ensures
            final(self).wf(),
            final(self).input@ == old(self).input@,
            final(self).pos == ws_end(old(self).input@, old(self).pos as int),
            final(self).cur_line == ws_line(old(self).input@, old(self).pos as int, old(self).cur_line as int),
            final(self).cur_char == ws_col(old(self).input@, old(self).pos as int, old(self).cur_char as int),
    {
        let ghost s = self.input@;
        while self.pos < self.input.len() && is_space(self.input[self.pos])
            invariant
                self.wf(),
                self.input@ == s,
                s == old(self).input@,
                ws_end(s, self.pos as int) == ws_end(s, old(self).pos as int),
                ws_line(s, self.pos as int, self.cur_line as int) == ws_line(s, old(self).pos as int, old(self).cur_line as int),
                ws_col(s, self.pos as int, self.cur_char as int) == ws_col(s, old(self).pos as int, old(self).cur_char as int),
            decreases s.len() - self.pos,
        {
            let c = self.input[self.pos];
            self.next();
            if c == '\n' {
                self.cur_line += 1;
                self.cur_char = 1;
            }
        }
    }

    fn read_indentifier(&mut self, first: char) -> (r: String)
        requires
            old(self).wf(),
            1 <= old(self).pos,
            old(self).input@[old(self).pos - 1] == first,
        ensures
            final(self).wf(),
            final(self).input@ == old(self).input@,
            final(self).cur_line == old(self).cur_line,
            final(self).tok_line == old(self).tok_line,
            final(self).tok_char == old(self).tok_char,
            final(self).pos == letters_end(old(self).input@, old(self).pos as int),
            final(self).pos >= old(self).pos,
            final(self).cur_char == old(self).cur_char + (final(self).pos - old(self).pos),
            r@ == old(self).input@.subrange(old(self).pos - 1, final(self).pos as int),
    {
        let ghost s = self.input@;
        let mut ident = String::new();
        push_char(&mut ident, first);
        assert(ident@ =~= s.subrange(self.pos - 1, self.pos as int));
        while self.peek_is_letter()
            invariant
                self.wf(),
                self.input@ == s,
                s == old(self).input@,
                1 <= old(self).pos <= self.pos,
                self.cur_line == old(self).cur_line,
                self.tok_line == old(self).tok_line,
                self.tok_char == old(self).tok_char,
                self.cur_char == old(self).cur_char + (self.pos - old(self).pos),
                letters_end(s, self.pos as int) == letters_end(s, old(self).pos as int),
                ident@ == s.subrange(old(self).pos - 1, self.pos as int),
            decreases s.len() - self.pos,
        {
            if let Some(ch) = self.next() {
                push_char(&mut ident, ch);
                assert(ident@ =~= s.subrange(old(self).pos - 1, self.pos as int));
            }
        }
        ident
    }

    fn read_number(&mut self, first: char) -> (r: String)
        requires
            old(self).wf(),
            1 <= old(self).pos,
            old(self).input@[old(self).pos - 1] == first,
        ensures
            final(self).wf(),
            final(self).input@ == old(self).input@,
            final(self).cur_line == old(self).cur_line,
            final(self).tok_line == old(self).tok_line,
            final(self).tok_char == old(self).tok_char,
            final(self).pos == digits_end(old(self).input@, old(self).pos as int),
            final(self).pos >= old(self).pos,
            final(self).cur_char == old(self).cur_char + (final(self).pos - old(self).pos),
            r@ == old(self).input@.subrange(old(self).pos - 1, final(self).pos as int),
    {
        let ghost s = self.input@;
        let mut number = String::new();
        push_char(&mut number, first);
        assert(number@ =~= s.subrange(self.pos - 1, self.pos as int));
        while self.peek_is_digit()
            invariant
                self.wf(),
                self.input@ == s,
                s == old(self).input@,
                1 <= old(self).pos <= self.pos,
                self.cur_line == old(self).cur_line,
                self.tok_line == old(self).tok_line,
                self.tok_char == old(self).tok_char,
                self.cur_char == old(self).cur_char + (self.pos - old(self).pos),
                digits_end(s, self.pos as int) == digits_end(s, old(self).pos as int),
                number@ == s.subrange(old(self).pos - 1, self.pos as int),
            decreases s.len() - self.pos,
        {
            if let Some(ch) = self.next() {
                push_char(&mut number, ch);
                assert(number@ =~= s.subrange(old(self).pos - 1, self.pos as int));
            }
        }
        number
    }

    fn read_string(&mut self) -> (r: Option<String>)
        requires
            old(self).wf(),
        ensures
            final(self).wf(),
            final(self).input@ == old(self).input@,
            final(self).cur_line == old(self).cur_line,
            final(self).tok_line == old(self).tok_line,
            final(self).tok_char == old(self).tok_char,
            final(self).pos >= old(self).pos,
            ({
                let s = old(self).input@;
                let q = quote_end(s, old(self).pos as int);
                if q < s.len() {
                    &&& r is Some
                    &&& r->Some_0@ == s.subrange(old(self).pos as int, q)
                    &&& final(self).pos == q + 1
                    &&& final(self).cur_char == old(self).cur_char + (q + 1 - old(self).pos)
                } else {
                    r is None
                }
            }),
    {
        let ghost s = self.input@;
        let mut text = String::new();
        while self.pos < self.input.len() && !self.peek_char_eq('"')
            invariant
                self.wf(),
                self.input@ == s,
                s == old(self).input@,
                old(self).pos <= self.pos,
                self.cur_line == old(self).cur_line,
                self.tok_line == old(self).tok_line,
                self.tok_char == old(self).tok_char,
                self.cur_char == old(self).cur_char + (self.pos - old(self).pos),
                quote_end(s, self.pos as int) == quote_end(s, old(self).pos as int),
                text@ == s.subrange(old(self).pos as int, self.pos as int),
            decreases s.len() - self.pos,
        {
            if let Some(ch) = self.next() {
                push_char(&mut text, ch);
                assert(text@ =~= s.subrange(old(self).pos as int, self.pos as int));
            }
        }
        if !self.peek_char_eq('"') {
            return None;
        }
        self.next();
        Some(text)
    }

    /// Skips whitespace and returns the next token; fails on a string literal that is
    /// never closed. Line and column follow the characters consumed.
    pub fn next_token(&mut self) -> (r: Result<Token, ParseError>)
        requires
            old(self).wf(),
        ensures
            final(self).wf(),
            final(self).text() == old(self).text(),
            final(self).position() >= old(self).position(),
            r is Ok && !(r->Ok_0@ is EndOfFile) ==> final(self).position() > old(self).position(),
            ({
                let s = old(self).text();
                let (t, p, l, c) = lex_result(s, old(self).position(), old(self).line(), old(self).column());
                match token_from(s, ws_end(s, old(self).position())) {
                    None => r == Err::<Token, ParseError>(ParseError::UnterminatedString { line: l as usize }),
                    Some(_) => r is Ok && r->Ok_0@ == t && final(self).position() == p
                        && final(self).line() == l && final(self).column() == c,
                }
            }),
            final(self).token_line() == ws_line(old(self).text(), old(self).position(), old(self).line()),
            final(self).token_column() == ws_col(old(self).text(), old(self).position(), old(self).column()),
    {
        let ghost s = self.input@;
        proof {
            lemma_ws_end_ge(s, self.pos as int);
        }
        self.skip_spaces();
        self.tok_line = self.cur_line;
        self.tok_char = self.cur_char;
        let ghost i = self.pos as int;
        let ghost col = self.cur_char as int;
        let next = self.next();
        match next {
            None => Ok(Token::EndOfFile),
            Some(ch) => {
                let has_next = self.pos < self.input.len();
                if ch == '-' {
                    if self.peek_char_eq(':') {
                        self.next();
                        Ok(Token::MultilineCommentStart)
                    } else {
                        Ok(Token::Illegal)
                    }
                } else if ch == ':' {
                    if self.peek_char_eq(':') {
                        self.next();
                        Ok(Token::Comment)
                    } else if self.peek_char_eq('-') {
                        self.next();
                        Ok(Token::MultilineCommentEnd)
                    } else {
                        Ok(Token::Illegal)
                    }
                } else if ch == ';' {
                    Ok(Token::Semicolon)
                } else if ch == '"' {
                    match self.read_string() {
                        Some(text) => Ok(Token::String(text)),
                        None => Err(ParseError::UnterminatedString { line: self.cur_line }),
                    }
                } else if is_letter(ch) {
                    let literal = self.read_indentifier(ch);
                    Ok(lookup_indent(literal.as_str()))
                } else if is_digit(ch) {
                    Ok(Token::Integer(self.read_number(ch)))
                } else {
                    Ok(Token::Illegal)
                }
            },
        }
    }
}

/// A letter (in the Unicode sense) or an underscore.
pub fn is_letter(ch: char) -> (r: bool)
    ensures
        r == letter(ch),
{
    is_alpha(ch) || ch == '_'
}

/// An ASCII decimal digit; digits of other scripts are no digits here, so they
/// lex as illegal characters.
pub fn is_digit(ch: char) -> (r: bool)
    ensures
        r == digit(ch),
{
    '0' <= ch && ch <= '9'
}

} // verus!
