use vstd::prelude::*;
use crate::lexer::{lex_result, token_from, ws_col, ws_end, ws_line, Lexer};
use crate::token::{chars_of, get_literal, literal_of, ParseError, Tok, Token};

verus! {

/// One directive of a mod file: what to do (`token`), with what (`value`), and the
/// ambient priority and target that were in effect where it was written.
#[derive(Debug, Clone, PartialEq, Eq)]
pub struct Statement {
    pub token: Token,
    pub value: String,
    pub priority: u8,
    pub line: usize,
    pub target: String,
}

/// The mathematical value of a directive.
pub struct Stmt {
    pub kind: Tok,
    pub value: Seq<char>,
    pub priority: u8,
    pub line: usize,
    pub target: Seq<char>,
}

impl View for Statement {
    type V = Stmt;

    open spec fn view(&self) -> Stmt {
        Stmt {
            kind: self.token@,
            value: self.value@,
            priority: self.priority,
            line: self.line,
            target: self.target@,
        }
    }
}

/// The no-op marker: directives of this kind are never handed out.
pub open spec fn ignore_stmt() -> Stmt {
    Stmt { kind: Tok::Ignore, value: Seq::empty(), priority: 0, line: 0, target: Seq::empty() }
}

impl Statement {
    pub fn new(token: Token, value: String, priority: u8, line: usize, target: String) -> (r: Statement)
        ensures
            r@ == (Stmt { kind: token@, value: value@, priority, line, target: target@ }),
    {
        Statement { token, value, priority, line, target }
    }

    /// A copy of this directive.
    pub fn duplicate(&self) -> (r: Statement)
        ensures
            r@ == self@,
    {
        Statement {
            token: self.token.duplicate(),
            value: self.value.clone(),
            priority: self.priority,
            line: self.line,
            target: self.target.clone(),
        }
    }

    pub fn empty() -> (r: Statement)
        ensures
            r@ == ignore_stmt(),
    {
        Statement { token: Token::default(), value: String::new(), priority: 0, line: 0, target: String::new() }
    }

    pub fn ignore() -> (r: Statement)
        ensures
            r@ == ignore_stmt(),
    {
        Statement { token: Token::Ignore, value: String::new(), priority: 0, line: 0, target: String::new() }
    }
}

/// The priority a document starts with.
pub const DEFAULT_PRIORITY: u8 = 100;

/// The target a document starts with.
pub open spec fn default_target() -> Seq<char> {
    "Scripts/RoomManager.lua"@
}

/// Where a parser stands: the tokenizer's cursor, the two-token window with the line
/// and column each of its tokens starts at, and the ambient priority and target.
pub struct PState {
    pub pos: int,
    pub line: int,
    pub col: int,
    pub cur: Tok,
    pub cur_line: int,
    pub cur_col: int,
    pub peek: Tok,
    pub peek_line: int,
    pub peek_col: int,
    pub prio: u8,
    pub target: Seq<char>,
}

/// Shifts the window by one token: `peek` becomes `cur`, and the next token of the
/// text becomes `peek`.
pub open spec fn advance(s: Seq<char>, st: PState) -> Result<PState, ParseError> {
    match token_from(s, ws_end(s, st.pos)) {
        None => Err(ParseError::UnterminatedString { line: ws_line(s, st.pos, st.line) as usize }),
        Some(_) => {
            let (t, p, l, c) = lex_result(s, st.pos, st.line, st.col);
            Ok(PState {
                pos: p,
                line: l,
                col: c,
                cur: st.peek,
                cur_line: st.peek_line,
                cur_col: st.peek_col,
                peek: t,
                peek_line: ws_line(s, st.pos, st.line),
                peek_col: ws_col(s, st.pos, st.col),
                prio: st.prio,
                target: st.target,
            })
        },
    }
}

/// A bound on the steps left: every shift of the window from a token other than
/// the end of the text lowers it.
pub open spec fn measure(s: Seq<char>, st: PState) -> int {
    2 * (s.len() - st.pos) + (if st.cur is EndOfFile { 0int } else { 1 }) + (if st.peek is EndOfFile { 0int } else { 1 })
}

/// The state after the window has moved past the end of a multi-line comment.
pub open spec fn skip_block(s: Seq<char>, st: PState, fuel: nat) -> Result<PState, ParseError>
    decreases fuel,
{
    if st.cur is MultilineCommentEnd {
        Ok(st)
    } else if st.cur is EndOfFile {
        Err(ParseError::UnterminatedComment { line: st.line as usize })
    } else if fuel == 0 {
        Ok(st)
    } else {
        match advance(s, st) {
            Err(e) => Err(e),
            Ok(n) => skip_block(s, n, (fuel - 1) as nat),
        }
    }
}

/// The state after the window has moved until the tokenizer has left line `line0`,
/// or reached the end of the text.
pub open spec fn skip_line(s: Seq<char>, st: PState, line0: int, fuel: nat) -> Result<PState, ParseError>
    decreases fuel,
{
    if st.line > line0 || st.cur is EndOfFile || fuel == 0 {
        Ok(st)
    } else {
        match advance(s, st) {
            Err(e) => Err(e),
            Ok(n) => skip_line(s, n, line0, (fuel - 1) as nat),
        }
    }
}

/// Whether a token's text is a decimal number, and its value.
pub open spec fn all_digits(v: Seq<char>) -> bool {
    forall|i: int| 0 <= i < v.len() ==> '0' <= #[trigger] v[i] && v[i] <= '9'
}

pub open spec fn decimal(v: Seq<char>) -> int
    decreases v.len(),
{
    if v.len() == 0 {
        0
    } else {
        decimal(v.drop_last()) * 10 + (v.last() as u32 - '0' as u32)
    }
}

/// The priority written as `v`: one or more decimal digits whose value fits a byte.
pub open spec fn priority_value(v: Seq<char>) -> Option<u8> {
    if v.len() > 0 && all_digits(v) && decimal(v) <= 255 {
        Some(decimal(v) as u8)
    } else {
        None
    }
}

/// What the statement that starts at `st.cur` produces, and where the window stands
/// after it (before the shift that ends every statement).
pub open spec fn handle(s: Seq<char>, st: PState) -> Result<(Stmt, PState), ParseError> {
    match st.cur {
        Tok::Semicolon => Ok((
            Stmt { kind: Tok::Ignore, value: Seq::empty(), priority: st.prio, line: st.cur_line as usize, target: st.target },
            st,
        )),
        Tok::Load => {
            if st.peek != Tok::Priority {
                Err(ParseError::MissingPriority { line: st.cur_line as usize })
            } else {
                match advance(s, st) {
                    Err(e) => Err(e),
                    Ok(a1) => match advance(s, a1) {
                        Err(e) => Err(e),
                        Ok(a2) => match literal_of(a2.cur) {
                            None => Err(ParseError::ExpectedLiteral { line: a2.cur_line as usize }),
                            Some(v) => match priority_value(v) {
                                None => Err(ParseError::BadPriority { line: a2.cur_line as usize }),
                                Some(p) => Ok((ignore_stmt(), PState { prio: p, ..a2 })),
                            },
                        },
                    },
                }
            }
        },
        Tok::MultilineCommentStart => match skip_block(s, st, measure(s, st) as nat) {
            Err(e) => Err(e),
            Ok(n) => Ok((ignore_stmt(), n)),
        },
        Tok::Comment => match skip_line(s, st, st.cur_line, measure(s, st) as nat) {
            Err(e) => Err(e),
            Ok(n) => Ok((ignore_stmt(), n)),
        },
        Tok::To => match advance(s, st) {
            Err(e) => Err(e),
            Ok(a) => match literal_of(a.cur) {
                None => Err(ParseError::ExpectedLiteral { line: a.cur_line as usize }),
                Some(v) => Ok((ignore_stmt(), PState { target: v, ..a })),
            },
        },
        Tok::Import | Tok::Sjson | Tok::Xml | Tok::Include => match advance(s, st) {
            Err(e) => Err(e),
            Ok(a) => match literal_of(a.cur) {
                None => Err(ParseError::ExpectedLiteral { line: a.cur_line as usize }),
                Some(v) => Ok((
                    Stmt { kind: st.cur, value: v, priority: st.prio, line: st.cur_line as usize, target: st.target },
                    a,
                )),
            },
        },
        _ => Err(ParseError::IllegalToken { line: st.cur_line as usize, column: st.cur_col as usize }),
    }
}

/// The directives of the rest of the document, from the window `st` on, no-op markers left out.
pub open spec fn run(s: Seq<char>, st: PState, fuel: nat) -> Result<Seq<Stmt>, ParseError>
    decreases fuel,
{
    if st.cur is EndOfFile || fuel == 0 {
        Ok(Seq::empty())
    } else {
        match handle(s, st) {
            Err(e) => Err(e),
            Ok((x, n)) => match advance(s, n) {
                Err(e) => Err(e),
                Ok(n2) => match run(s, n2, (fuel - 1) as nat) {
                    Err(e) => Err(e),
                    Ok(rest) => Ok(if x.kind is Ignore { rest } else { seq![x] + rest }),
                },
            },
        }
    }
}

/// All directives of a document whose window stands at `st`.
pub open spec fn parse_from(s: Seq<char>, st: PState) -> Result<Seq<Stmt>, ParseError> {
    run(s, st, measure(s, st) as nat)
}

pub open spec fn prepend(a: Seq<Stmt>, r: Result<Seq<Stmt>, ParseError>) -> Result<Seq<Stmt>, ParseError> {
    match r {
        Ok(x) => Ok(a + x),
        Err(e) => Err(e),
    }
}

pub open spec fn view_all(v: Seq<Statement>) -> Seq<Stmt> {
    v.map_values(|x: Statement| x@)
}

/// The window before the first two tokens are read.
pub open spec fn blank_state() -> PState {
    PState {
        pos: 0,
        line: 1,
        col: 1,
        cur: Tok::Ignore,
        cur_line: 1,
        cur_col: 1,
        peek: Tok::Ignore,
        peek_line: 1,
        peek_col: 1,
        prio: 100,
        target: default_target(),
    }
}

/// The window of a fresh parser: the first two tokens of the text, default priority and target.
pub open spec fn initial_state(s: Seq<char>) -> Result<PState, ParseError> {
    match advance(s, blank_state()) {
        Err(e) => Err(e),
        Ok(a) => advance(s, a),
    }
}

/// The directives of a whole document, in order.
pub open spec fn parse_text(s: Seq<char>) -> Result<Seq<Stmt>, ParseError> {
    match initial_state(s) {
        Err(e) => Err(e),
        Ok(st) => parse_from(s, st),
    }
}

/// Reads a priority: one or more decimal digits whose value fits a byte.
pub fn parse_priority(text: &String) -> (r: Option<u8>)
    ensures
        r == priority_value(text@),
{
    let v = chars_of(text.as_str());
    if v.len() == 0 {
        return None;
    }
    let mut acc: u32 = 0;
    let mut i: usize = 0;
    while i < v.len()
        invariant
            v@ == text@,
            0 < v@.len(),
            i <= v@.len(),
            acc as int == decimal(v@.subrange(0, i as int)),
            acc <= 255,
            all_digits(v@.subrange(0, i as int)),
        decreases v@.len() - i,
    {
        let c = v[i];
        assert(v@.subrange(0, i + 1).drop_last() =~= v@.subrange(0, i as int));
        if !('0' <= c && c <= '9') {
            assert(!all_digits(v@)) by {
                assert(!('0' <= v@[i as int] && v@[i as int] <= '9'));
            }
            return None;
        }
        acc = acc * 10 + (c as u32 - '0' as u32);
        assert(all_digits(v@.subrange(0, i + 1))) by {
            assert forall|j: int| 0 <= j < i + 1 implies '0' <= #[trigger] v@.subrange(0, i + 1)[j]
                && v@.subrange(0, i + 1)[j] <= '9' by {
                if j < i {
                    assert(v@.subrange(0, i + 1)[j] == v@.subrange(0, i as int)[j]);
                }
            }
        }
        i += 1;
        if acc > 255 {
            proof {
                if all_digits(v@) {
                    lemma_decimal_prefix_bound(v@, i as int);
                }
            }
            return None;
        }
    }
    assert(v@.subrange(0, i as int) =~= v@);
    Some(acc as u8)
}

proof fn lemma_decimal_prefix_bound(v: Seq<char>, i: int)
    requires
        0 <= i <= v.len(),
        all_digits(v),
    ensures
        decimal(v) >= decimal(v.subrange(0, i)),
    decreases v.len(),
{
    if v.len() > i {
        assert(v.drop_last().subrange(0, i) =~= v.subrange(0, i));
        assert(all_digits(v.drop_last())) by {
            assert forall|j: int| 0 <= j < v.len() - 1 implies '0' <= #[trigger] v.drop_last()[j]
                && v.drop_last()[j] <= '9' by {
                assert(v.drop_last()[j] == v[j]);
            }
        }
        lemma_decimal_prefix_bound(v.drop_last(), i);
        lemma_decimal_nonneg(v.drop_last());
        assert('0' <= v[v.len() - 1]);
    } else {
        assert(v.subrange(0, i) =~= v);
    }
}

proof fn lemma_decimal_nonneg(v: Seq<char>)
    requires
        all_digits(v),
    ensures
        decimal(v) >= 0,
    decreases v.len(),
{
    if v.len() > 0 {
        assert(all_digits(v.drop_last())) by {
            assert forall|j: int| 0 <= j < v.len() - 1 implies '0' <= #[trigger] v.drop_last()[j]
                && v.drop_last()[j] <= '9' by {
                assert(v.drop_last()[j] == v[j]);
            }
        }
        lemma_decimal_nonneg(v.drop_last());
        assert('0' <= v[v.len() - 1]);
    }
}

/// Whether a handler's exec outcome is the one `handle` describes.
pub open spec fn outcome_is(
    r: Result<Statement, ParseError>,
    after: PState,
    expected: Result<(Stmt, PState), ParseError>,
) -> bool {
    match expected {
        Ok((x, n)) => r is Ok && r->Ok_0@ == x && after == n,
        Err(e) => r == Err::<Statement, ParseError>(e),
    }
}

/// A recursive-descent parser over one document, with one token of lookahead.
pub struct Parser {
    lexer: Lexer,
    cur_token: Token,
    cur_line_at: usize,
    cur_col_at: usize,
    peek_token: Token,
    peek_line_at: usize,
    peek_col_at: usize,
    cur_priority: u8,
    cur_target: String,
    mod_path: String,
}

impl Parser {
    /// The text of the document.
    pub closed spec fn text(&self) -> Seq<char> {
        self.lexer.text()
    }

    /// Where the parser stands.
    pub closed spec fn state(&self) -> PState {
        PState {
            pos: self.lexer.position(),
            line: self.lexer.line(),
            col: self.lexer.column(),
            cur: self.cur_token@,
            cur_line: self.cur_line_at as int,
            cur_col: self.cur_col_at as int,
            peek: self.peek_token@,
            peek_line: self.peek_line_at as int,
            peek_col: self.peek_col_at as int,
            prio: self.cur_priority,
            target: self.cur_target@,
        }
    }

    /// The document's location, which nested documents are resolved against.
    pub closed spec fn path(&self) -> Seq<char> {
        self.mod_path@
    }

    pub closed spec fn wf(&self) -> bool {
        &&& self.lexer.wf()
        &&& 0 <= self.lexer.position() <= self.lexer.text().len()
    }

    /// A parser over `input`, standing at its first two tokens, with priority 100 and
    /// the default target; fails where one of those tokens is an unclosed string.
    pub fn new(input: &str, mod_path: String) -> (r: Result<Parser, ParseError>)
        requires
            input@.len() < usize::MAX,
        ensures
            match initial_state(input@) {
                Ok(st) => r is Ok && r->Ok_0.wf() && r->Ok_0.text() == input@ && r->Ok_0.state() == st
                    && r->Ok_0.path() == mod_path@,
                Err(e) => r == Err::<Parser, ParseError>(e),
            },
    {
        let mut lexer = Lexer::new(input);
        let cur_token = match lexer.next_token() {
            Ok(t) => t,
            Err(e) => return Err(e),
        };
        let cur_line_at = lexer.token_start_line();
        let cur_col_at = lexer.token_start_column();
        let peek_token = match lexer.next_token() {
            Ok(t) => t,
            Err(e) => return Err(e),
        };
        let peek_line_at = lexer.token_start_line();
        let peek_col_at = lexer.token_start_column();
        let cur_target = "Scripts/RoomManager.lua".to_owned();
        proof {
            lexer.lemma_bounds();
        }
        Ok(
            Parser {
                lexer,
                cur_token,
                cur_line_at,
                cur_col_at,
                peek_token,
                peek_line_at,
                peek_col_at,
                cur_priority: DEFAULT_PRIORITY,
                cur_target,
                mod_path,
            },
        )
    }

    fn next_token(&mut self) -> (r: Result<(), ParseError>)
        requires
            old(self).wf(),
        ensures
            final(self).wf(),
            final(self).text() == old(self).text(),
            final(self).path() == old(self).path(),
            match advance(old(self).text(), old(self).state()) {
                Ok(n) => r is Ok && final(self).state() == n,
                Err(e) => r == Err::<(), ParseError>(e),
            },
            r is Ok ==> measure(final(self).text(), final(self).state()) <= measure(old(self).text(), old(self).state()),
            r is Ok && !(old(self).state().cur is EndOfFile) ==> measure(final(self).text(), final(self).state())
                < measure(old(self).text(), old(self).state()),
    {
        let next = self.lexer.next_token();
        proof {
            self.lexer.lemma_bounds();
        }
        let mut t = match next {
            Ok(t) => t,
            Err(e) => return Err(e),
        };
        std::mem::swap(&mut self.peek_token, &mut t);
        self.cur_token = t;
        self.cur_line_at = self.peek_line_at;
        self.cur_col_at = self.peek_col_at;
        self.peek_line_at = self.lexer.token_start_line();
        self.peek_col_at = self.lexer.token_start_column();
        Ok(())
    }

    fn parse_next_literal(&mut self, token: Token) -> (r: Result<Statement, ParseError>)
        requires
            old(self).wf(),
            token@ == old(self).state().cur,
            token@ is Import || token@ is Sjson || token@ is Xml || token@ is Include,
        ensures
            final(self).wf(),
            final(self).text() == old(self).text(),
            final(self).path() == old(self).path(),
            outcome_is(r, final(self).state(), handle(old(self).text(), old(self).state())),
            r is Ok ==> measure(final(self).text(), final(self).state()) < measure(old(self).text(), old(self).state()),
    {
        let cur_line = self.cur_line_at;
        match self.next_token() {
            Ok(()) => {},
            Err(e) => return Err(e),
        }
        match get_literal(&self.cur_token) {
            None => Err(ParseError::ExpectedLiteral { line: self.cur_line_at }),
            Some(value) => Ok(Statement::new(token, value, self.cur_priority, cur_line, self.cur_target.clone())),
        }
    }

    fn parse_target(&mut self) -> (r: Result<Statement, ParseError>)
        requires
            old(self).wf(),
            old(self).state().cur is To,
        ensures
            final(self).wf(),
            final(self).text() == old(self).text(),
            final(self).path() == old(self).path(),
            outcome_is(r, final(self).state(), handle(old(self).text(), old(self).state())),
            r is Ok ==> measure(final(self).text(), final(self).state()) < measure(old(self).text(), old(self).state()),
    {
        match self.next_token() {
            Ok(()) => {},
            Err(e) => return Err(e),
        }
        match get_literal(&self.cur_token) {
            None => Err(ParseError::ExpectedLiteral { line: self.cur_line_at }),
            Some(target) => {
                self.cur_target = target;
                Ok(Statement::empty())
            },
        }
    }

    fn parse_load(&mut self) -> (r: Result<Statement, ParseError>)
        requires
            old(self).wf(),
            old(self).state().cur is Load,
        ensures
            final(self).wf(),
            final(self).text() == old(self).text(),
            final(self).path() == old(self).path(),
            outcome_is(r, final(self).state(), handle(old(self).text(), old(self).state())),
            r is Ok ==> measure(final(self).text(), final(self).state()) < measure(old(self).text(), old(self).state()),
    {
        if !matches!(self.peek_token, Token::Priority) {
            return Err(ParseError::MissingPriority { line: self.cur_line_at });
        }
        match self.next_token() {
            Ok(()) => {},
            Err(e) => return Err(e),
        }
        match self.next_token() {
            Ok(()) => {},
            Err(e) => return Err(e),
        }
        match get_literal(&self.cur_token) {
            None => Err(ParseError::ExpectedLiteral { line: self.cur_line_at }),
            Some(text) => match parse_priority(&text) {
                None => Err(ParseError::BadPriority { line: self.cur_line_at }),
                Some(p) => {
                    self.cur_priority = p;
                    Ok(Statement::empty())
                },
            },
        }
    }

    fn parse_multiline_comment(&mut self) -> (r: Result<Statement, ParseError>)
        requires
            old(self).wf(),
            old(self).state().cur is MultilineCommentStart,
        ensures
            final(self).wf(),
            final(self).text() == old(self).text(),
            final(self).path() == old(self).path(),
            outcome_is(r, final(self).state(), handle(old(self).text(), old(self).state())),
            r is Ok ==> measure(final(self).text(), final(self).state()) < measure(old(self).text(), old(self).state()),
    {
        let ghost s = self.text();
        let ghost st0 = self.state();
        let ghost mut fuel: nat = measure(s, st0) as nat;
        while !matches!(self.cur_token, Token::MultilineCommentEnd)
            invariant
                self.wf(),
                self.text() == s,
                self.path() == old(self).path(),
                st0 == old(self).state(),
                s == old(self).text(),
                st0.cur is MultilineCommentStart,
                fuel >= measure(s, self.state()),
                skip_block(s, st0, measure(s, st0) as nat) == skip_block(s, self.state(), fuel),
                self.state() == st0 || measure(s, self.state()) < measure(s, st0),
            decreases measure(s, self.state()),
        {
            if self.cur_token.is_eof() {
                return Err(ParseError::UnterminatedComment { line: self.lexer.current_line() });
            }
            match self.next_token() {
                Ok(()) => {},
                Err(e) => return Err(e),
            }
            proof {
                fuel = (fuel - 1) as nat;
            }
        }
        Ok(Statement::ignore())
    }

    fn parse_singleline_comment(&mut self) -> (r: Result<Statement, ParseError>)
        requires
            old(self).wf(),
            old(self).state().cur is Comment,
        ensures
            final(self).wf(),
            final(self).text() == old(self).text(),
            final(self).path() == old(self).path(),
            outcome_is(r, final(self).state(), handle(old(self).text(), old(self).state())),
            r is Ok ==> measure(final(self).text(), final(self).state()) < measure(old(self).text(), old(self).state())
                || final(self).state() == old(self).state(),
    {
        let ghost s = self.text();
        let ghost st0 = self.state();
        let ghost mut fuel: nat = measure(s, st0) as nat;
        let cur_line = self.cur_line_at;
        while self.lexer.current_line() <= cur_line && !self.cur_token.is_eof()
            invariant
                self.wf(),
                self.text() == s,
                self.path() == old(self).path(),
                st0 == old(self).state(),
                s == old(self).text(),
                st0.cur is Comment,
                cur_line as int == st0.cur_line,
                fuel >= measure(s, self.state()),
                skip_line(s, st0, st0.cur_line, measure(s, st0) as nat) == skip_line(s, self.state(), st0.cur_line, fuel),
                self.state() == st0 || measure(s, self.state()) < measure(s, st0),
            decreases measure(s, self.state()),
        {
            match self.next_token() {
                Ok(()) => {},
                Err(e) => return Err(e),
            }
            proof {
                fuel = (fuel - 1) as nat;
            }
        }
        Ok(Statement::ignore())
    }

    /// Parses the rest of the document: the directives in order, no-op markers left
    /// out, or the first error met.
    pub fn parse(&mut self) -> (r: Result<Vec<Statement>, ParseError>)
        requires
            old(self).wf(),
        ensures
            final(self).wf(),
            match parse_from(old(self).text(), old(self).state()) {
                Ok(v) => r is Ok && view_all(r->Ok_0@) == v,
                Err(e) => r == Err::<Vec<Statement>, ParseError>(e),
            },
    {
        let ghost s = self.text();
        let ghost st0 = self.state();
        let ghost mut fuel: nat = measure(s, st0) as nat;
        let mut statements: Vec<Statement> = Vec::new();
        assert(view_all(statements@) =~= Seq::<Stmt>::empty());
        assert(prepend(Seq::empty(), run(s, st0, fuel)) == run(s, st0, fuel)) by {
            match run(s, st0, fuel) {
                Ok(x) => assert(Seq::<Stmt>::empty() + x =~= x),
                Err(_) => {},
            }
        }
        while !self.cur_token.is_eof()
            invariant
                self.wf(),
                self.text() == s,
                s == old(self).text(),
                st0 == old(self).state(),
                fuel >= measure(s, self.state()),
                parse_from(s, st0) == prepend(view_all(statements@), run(s, self.state(), fuel)),
            decreases measure(s, self.state()),
        {
            let ghost before = self.state();
            let ghost done = view_all(statements@);
            let stm = match self.cur_token {
                Token::Semicolon => Ok(
                    Statement::new(
                        Token::Ignore,
                        String::new(),
                        self.cur_priority,
                        self.cur_line_at,
                        self.cur_target.clone(),
                    ),
                ),
                Token::Load => self.parse_load(),
                Token::MultilineCommentStart => self.parse_multiline_comment(),
                Token::Comment => self.parse_singleline_comment(),
                Token::To => self.parse_target(),
                Token::Import => self.parse_next_literal(Token::Import),
                Token::Sjson => self.parse_next_literal(Token::Sjson),
                Token::Xml => self.parse_next_literal(Token::Xml),
                Token::Include => self.parse_next_literal(Token::Include),
                _ => Err(
                    ParseError::IllegalToken {
                        line: self.cur_line_at,
                        column: self.cur_col_at,
                    },
                ),
            };
            let stm = match stm {
                Ok(x) => x,
                Err(e) => return Err(e),
            };
            let ghost x = stm@;
            let ghost mid = self.state();
            assert(handle(s, before) == Ok::<(Stmt, PState), ParseError>((x, mid)));
            if !matches!(stm.token, Token::Ignore) {
                statements.push(stm);
                assert(view_all(statements@) =~= done + seq![x]);
            } else {
                assert(view_all(statements@) =~= done);
            }
            match self.next_token() {
                Ok(()) => {},
                Err(e) => return Err(e),
            }
            proof {
                let rest = run(s, self.state(), (fuel - 1) as nat);
                match rest {
                    Ok(v) => {
                        if !(x.kind is Ignore) {
                            assert(done + seq![x] + v =~= done + (seq![x] + v));
                        }
                    },
                    Err(_) => {},
                }
                fuel = (fuel - 1) as nat;
            }
        }
        assert(view_all(statements@) + Seq::<Stmt>::empty() =~= view_all(statements@));
        Ok(statements)
    }
}

/// Deepest nesting of included documents that a caller follows.
pub const MAX_INCLUDE_DEPTH: usize = 32;

/// Whether a document at nesting `depth` (the top-level one at 0) may have the
/// documents it names parsed: nesting stops at `MAX_INCLUDE_DEPTH`.
pub fn may_follow_includes(depth: usize) -> (r: bool)
    ensures
        r == (depth < MAX_INCLUDE_DEPTH),
{
    depth < MAX_INCLUDE_DEPTH
}

/// The operands of the `include` directives among `v`, in order.
pub open spec fn include_targets(v: Seq<Stmt>) -> Seq<Seq<char>>
    decreases v.len(),
{
    if v.len() == 0 {
        Seq::empty()
    } else if v.last().kind is Include {
        include_targets(v.drop_last()).push(v.last().value)
    } else {
        include_targets(v.drop_last())
    }
}

/// `v` with each `include` directive replaced, in order, by the directives of the
/// document it names.
pub open spec fn splice(v: Seq<Stmt>, nested: Seq<Seq<Stmt>>) -> Seq<Stmt>
    decreases v.len(),
{
    if v.len() == 0 {
        Seq::empty()
    } else if v.last().kind is Include {
        splice(v.drop_last(), nested.drop_last()) + nested.last()
    } else {
        splice(v.drop_last(), nested).push(v.last())
    }
}

/// The paths named by the `include` directives of a parsed document, in order.
pub fn include_paths(statements: &Vec<Statement>) -> (r: Vec<String>)
    ensures
        r@.map_values(|x: String| x@) == include_targets(view_all(statements@)),
{
    let mut paths: Vec<String> = Vec::new();
    let mut i: usize = 0;
    while i < statements.len()
        invariant
            i <= statements@.len(),
            paths@.map_values(|x: String| x@) == include_targets(view_all(statements@.subrange(0, i as int))),
        decreases statements@.len() - i,
    {
        let ghost before = paths@;
        assert(view_all(statements@.subrange(0, i + 1)).drop_last() =~= view_all(statements@.subrange(0, i as int)));
        if matches!(statements[i].token, Token::Include) {
            paths.push(statements[i].value.clone());
            assert(paths@.map_values(|x: String| x@) =~= before.map_values(|x: String| x@).push(statements@[i as int].value@));
        }
        i += 1;
    }
    assert(statements@.subrange(0, i as int) =~= statements@);
    paths
}

/// Replaces each `include` directive of `statements`, in order, by the directives of
/// the document it names, given in `nested`.
pub fn splice_includes(statements: &Vec<Statement>, nested: &Vec<Vec<Statement>>) -> (r: Vec<Statement>)
    requires
        nested@.len() == include_targets(view_all(statements@)).len(),
    ensures
        view_all(r@) == splice(view_all(statements@), nested@.map_values(|v: Vec<Statement>| view_all(v@))),
{
    let ghost all = nested@.map_values(|v: Vec<Statement>| view_all(v@));
    let mut out: Vec<Statement> = Vec::new();
    let nested_len = nested.len();
    let mut i: usize = 0;
    let mut k: usize = 0;
    proof {
        lemma_include_count_prefix(view_all(statements@), 0);
    }
    while i < statements.len()
        invariant
            i <= statements@.len(),
            nested@.len() == include_targets(view_all(statements@)).len(),
            all == nested@.map_values(|v: Vec<Statement>| view_all(v@)),
            k == include_targets(view_all(statements@.subrange(0, i as int))).len(),
            k <= nested@.len(),
            nested_len == nested@.len(),
            view_all(out@) == splice(view_all(statements@.subrange(0, i as int)), all.subrange(0, k as int)),
        decreases statements@.len() - i,
    {
        let ghost pre = view_all(statements@.subrange(0, i as int));
        let ghost pre1 = view_all(statements@.subrange(0, i + 1));
        assert(pre1.drop_last() =~= pre);
        assert(pre1.last() == statements@[i as int]@);
        proof {
            lemma_include_count_prefix(view_all(statements@), i + 1);
            assert(view_all(statements@).subrange(0, i + 1) =~= pre1);
        }
        if matches!(statements[i].token, Token::Include) {
            assert(pre1.last().kind is Include);
            assert(include_targets(pre1) == include_targets(pre).push(pre1.last().value));
            let part = &nested[k];
            let mut j: usize = 0;
            let ghost base = view_all(out@);
            while j < part.len()
                invariant
                    j <= part@.len(),
                    view_all(out@) == base + view_all(part@.subrange(0, j as int)),
                    i < statements@.len(),
                    k < nested@.len(),
                    nested_len == nested@.len(),
                    part == nested@[k as int],
                    base == splice(pre, all.subrange(0, k as int)),
                    nested@.len() == include_targets(view_all(statements@)).len(),
                    all == nested@.map_values(|v: Vec<Statement>| view_all(v@)),
                    k + 1 == include_targets(pre1).len(),
                    pre1.drop_last() == pre,
                    pre1.last().kind is Include,
                    pre1 == view_all(statements@.subrange(0, i + 1)),
                decreases part@.len() - j,
            {
                let ghost prev = view_all(out@);
                out.push(part[j].duplicate());
                assert(view_all(out@) =~= prev.push(part@[j as int]@));
                assert(view_all(part@.subrange(0, j + 1)) =~= view_all(part@.subrange(0, j as int)).push(part@[j as int]@));
                assert(view_all(out@) =~= base + view_all(part@.subrange(0, j + 1)));
                j += 1;
            }
            assert(part@.subrange(0, j as int) =~= part@);
            assert(all.subrange(0, k + 1).drop_last() =~= all.subrange(0, k as int));
            k += 1;
        } else {
            let ghost prev = view_all(out@);
            out.push(statements[i].duplicate());
            assert(view_all(out@) =~= prev.push(statements@[i as int]@));
            assert(view_all(out@) =~= splice(pre, all.subrange(0, k as int)).push(statements@[i as int]@));
        }
        i += 1;
    }
    assert(statements@.subrange(0, i as int) =~= statements@);
    assert(all.subrange(0, k as int) =~= all);
    out
}

proof fn lemma_include_count_prefix(v: Seq<Stmt>, i: int)
    requires
        0 <= i <= v.len(),
    ensures
        include_targets(v.subrange(0, i)).len() <= include_targets(v).len(),
    decreases v.len(),
{
    if i < v.len() {
        assert(v.drop_last().subrange(0, i) =~= v.subrange(0, i));
        lemma_include_count_prefix(v.drop_last(), i);
    } else {
        assert(v.subrange(0, i) =~= v);
    }
}

/// Parses a whole document: its directives in order, no-op markers left out, or the
/// first error met. `include` directives are handed out as they are; see
/// `splice_includes`.
pub fn parse_document(input: &str, mod_path: String) -> (r: Result<Vec<Statement>, ParseError>)
    requires
        input@.len() < usize::MAX,
    ensures
        match parse_text(input@) {
            Ok(v) => r is Ok && view_all(r->Ok_0@) == v,
            Err(e) => r == Err::<Vec<Statement>, ParseError>(e),
        },
{
    let mut parser = match Parser::new(input, mod_path) {
        Ok(p) => p,
        Err(e) => return Err(e),
    };
    parser.parse()
}

} // verus!
