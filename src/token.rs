use vstd::prelude::*;

verus! {

/// One lexical unit of a mod file.
#[derive(Debug, Clone, PartialEq, Eq)]
pub enum Token {
    Illegal,
    Ignore,
    EndOfFile,
    // Literals
    Ident(String),
    String(String),
    Integer(String),
    // Operators
    Colon,
    Hyphon,
    MultilineCommentStart,
    MultilineCommentEnd,
    Comment,
    // Delimiter
    Semicolon,
    // Keywords
    Include,
    To,
    Load,
    Priority,
    Import,
    Sjson,
    Xml,
}

/// Why a document could not be parsed.
#[derive(Debug, Clone, Copy, PartialEq, Eq, Structural)]
pub enum ParseError {
    /// A string literal that starts on this line is never closed.
    UnterminatedString { line: usize },
    /// `load` is not followed by `priority`.
    MissingPriority { line: usize },
    /// The operand of `load priority` is no integer from 0 to 255.
    BadPriority { line: usize },
    /// A multi-line comment is still open at the end of the document.
    UnterminatedComment { line: usize },
    /// An operand position holds a token that carries no literal.
    ExpectedLiteral { line: usize },
    /// A statement starts with a token that starts no statement.
    IllegalToken { line: usize, column: usize },
}

/// The mathematical value of a token: literals carry their text as a sequence of characters.
pub enum Tok {
    Illegal,
    Ignore,
    EndOfFile,
    Ident(Seq<char>),
    Str(Seq<char>),
    Integer(Seq<char>),
    Colon,
    Hyphon,
    MultilineCommentStart,
    MultilineCommentEnd,
    Comment,
    Semicolon,
    Include,
    To,
    Load,
    Priority,
    Import,
    Sjson,
    Xml,
}

impl View for Token {
    type V = Tok;

    open spec fn view(&self) -> Tok {
        match self {
            Token::Illegal => Tok::Illegal,
            Token::Ignore => Tok::Ignore,
            Token::EndOfFile => Tok::EndOfFile,
            Token::Ident(s) => Tok::Ident(s@),
            Token::String(s) => Tok::Str(s@),
            Token::Integer(s) => Tok::Integer(s@),
            Token::Colon => Tok::Colon,
            Token::Hyphon => Tok::Hyphon,
            Token::MultilineCommentStart => Tok::MultilineCommentStart,
            Token::MultilineCommentEnd => Tok::MultilineCommentEnd,
            Token::Comment => Tok::Comment,
            Token::Semicolon => Tok::Semicolon,
            Token::Include => Tok::Include,
            Token::To => Tok::To,
            Token::Load => Tok::Load,
            Token::Priority => Tok::Priority,
            Token::Import => Tok::Import,
            Token::Sjson => Tok::Sjson,
            Token::Xml => Tok::Xml,
        }
    }
}

impl Default for Token {
    /// The default token is the no-op marker.
    fn default() -> (r: Token)
        ensures
            r@ == Tok::Ignore,
    {
        Token::Ignore
    }
}

impl Token {
    /// A copy of this token.
    pub fn duplicate(&self) -> (r: Token)
        ensures
            r@ == self@,
    {
        match self {
            Token::Illegal => Token::Illegal,
            Token::Ignore => Token::Ignore,
            Token::EndOfFile => Token::EndOfFile,
            Token::Ident(s) => Token::Ident(s.clone()),
            Token::String(s) => Token::String(s.clone()),
            Token::Integer(s) => Token::Integer(s.clone()),
            Token::Colon => Token::Colon,
            Token::Hyphon => Token::Hyphon,
            Token::MultilineCommentStart => Token::MultilineCommentStart,
            Token::MultilineCommentEnd => Token::MultilineCommentEnd,
            Token::Comment => Token::Comment,
            Token::Semicolon => Token::Semicolon,
            Token::Include => Token::Include,
            Token::To => Token::To,
            Token::Load => Token::Load,
            Token::Priority => Token::Priority,
            Token::Import => Token::Import,
            Token::Sjson => Token::Sjson,
            Token::Xml => Token::Xml,
        }
    }

    /// Whether this is the end-of-file token.
    pub fn is_eof(&self) -> (r: bool)
        ensures
            r == (self@ == Tok::EndOfFile),
    {
        matches!(self, Token::EndOfFile)
    }
}

/// Every character is ASCII.
pub open spec fn all_ascii(s: Seq<char>) -> bool {
    forall|i: int| 0 <= i < s.len() ==> (#[trigger] s[i] as u32) < 128
}

/// `b` is the ASCII character `a` in lower case: `A` to `Z` become `a` to `z`, and
/// the rest stays.
pub open spec fn ascii_lowered(a: char, b: char) -> bool {
    if 'A' <= a && a <= 'Z' {
        b as u32 == a as u32 + 32
    } else {
        b == a
    }
}

/// What `str::to_lowercase` returns for a text.
pub uninterp spec fn lower_of(s: Seq<char>) -> Seq<char>;

/// Relies on `str::to_lowercase`: the Unicode lower-case mapping of the text,
/// which depends on the characters alone.
#[verifier::external_body]
fn lowercase(s: &str) -> (r: String)
    ensures
        r@ == lower_of(s@),
        all_ascii(s@) ==> r@.len() == s@.len() && forall|i: int|
            0 <= i < s@.len() ==> ascii_lowered(#[trigger] s@[i], r@[i]),
{
    s.to_lowercase()
}

/// Relies on `str::chars` collected into a `Vec`: the characters of the text, in order.
#[verifier::external_body]
pub(crate) fn chars_of(s: &str) -> (r: Vec<char>)
    ensures
        r@ == s@,
{
    s.chars().collect()
}

pub open spec fn kw_include() -> Seq<char> {
    seq!['i', 'n', 'c', 'l', 'u', 'd', 'e']
}

pub open spec fn kw_to() -> Seq<char> {
    seq!['t', 'o']
}

pub open spec fn kw_load() -> Seq<char> {
    seq!['l', 'o', 'a', 'd']
}

pub open spec fn kw_priority() -> Seq<char> {
    seq!['p', 'r', 'i', 'o', 'r', 'i', 't', 'y']
}

pub open spec fn kw_import() -> Seq<char> {
    seq!['i', 'm', 'p', 'o', 'r', 't']
}

pub open spec fn kw_sjson() -> Seq<char> {
    seq!['s', 'j', 's', 'o', 'n']
}

pub open spec fn kw_xml() -> Seq<char> {
    seq!['x', 'm', 'l']
}

/// The token for an identifier's text: a keyword when its lower-case form is one,
/// else a generic identifier that keeps the text as written.
pub open spec fn keyword_or_ident(ident: Seq<char>) -> Tok {
    keyword_of(lower_of(ident), ident)
}

/// The token for an identifier `ident` whose lower-case form is `l`.
pub open spec fn keyword_of(l: Seq<char>, ident: Seq<char>) -> Tok {
    if l == kw_include() {
        Tok::Include
    } else if l == kw_to() {
        Tok::To
    } else if l == kw_load() {
        Tok::Load
    } else if l == kw_priority() {
        Tok::Priority
    } else if l == kw_import() {
        Tok::Import
    } else if l == kw_sjson() {
        Tok::Sjson
    } else if l == kw_xml() {
        Tok::Xml
    } else {
        Tok::Ident(ident)
    }
}

fn same_chars(a: &Vec<char>, b: &Vec<char>) -> (r: bool)
    ensures
        r == (a@ == b@),
{
    if a.len() != b.len() {
        return false;
    }
    let mut i: usize = 0;
    while i < a.len()
        invariant
            a@.len() == b@.len(),
            i <= a@.len(),
            forall|j: int| 0 <= j < i ==> a@[j] == b@[j],
        decreases a@.len() - i,
    {
        if a[i] != b[i] {
            return false;
        }
        i += 1;
    }
    assert(a@ =~= b@);
    true
}

/// Resolves an identifier against the keyword table, ignoring case.
pub fn lookup_indent(ident: &str) -> (r: Token)
    ensures
        r@ == keyword_or_ident(ident@),
{
    let lowered = lowercase(ident);
    keyword_token(lowered.as_str(), ident)
}

/// The token for the identifier `ident`, given its lower-case form `lowered`: the
/// keyword that `lowered` spells, else a generic identifier holding `ident`.
pub fn keyword_token(lowered: &str, ident: &str) -> (r: Token)
    ensures
        r@ == keyword_of(lowered@, ident@),
{
    let l = chars_of(lowered);
    if same_chars(&l, &vec!['i', 'n', 'c', 'l', 'u', 'd', 'e']) {
        Token::Include
    } else if same_chars(&l, &vec!['t', 'o']) {
        Token::To
    } else if same_chars(&l, &vec!['l', 'o', 'a', 'd']) {
        Token::Load
    } else if same_chars(&l, &vec!['p', 'r', 'i', 'o', 'r', 'i', 't', 'y']) {
        Token::Priority
    } else if same_chars(&l, &vec!['i', 'm', 'p', 'o', 'r', 't']) {
        Token::Import
    } else if same_chars(&l, &vec!['s', 'j', 's', 'o', 'n']) {
        Token::Sjson
    } else if same_chars(&l, &vec!['x', 'm', 'l']) {
        Token::Xml
    } else {
        Token::Ident(ident.to_owned())
    }
}

/// The text a token carries as an operand: identifiers, strings and integers only.
pub open spec fn literal_of(t: Tok) -> Option<Seq<char>> {
    match t {
        Tok::Ident(s) => Some(s),
        Tok::Str(s) => Some(s),
        Tok::Integer(s) => Some(s),
        _ => None,
    }
}

/// Extracts the text of a literal token; any other token is no literal.
pub fn get_literal(token: &Token) -> (r: Option<String>)
    ensures
        r.is_some() == literal_of(token@).is_some(),
        r.is_some() ==> r.unwrap()@ == literal_of(token@).unwrap(),
{
    match token {
        Token::Ident(s) => Some(s.clone()),
        Token::Integer(s) => Some(s.clone()),
        Token::String(s) => Some(s.clone()),
        _ => None,
    }
}

} // verus!
