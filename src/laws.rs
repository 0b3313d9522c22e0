use vstd::prelude::*;
use crate::lexer::{digits_end, letters_end, quote_end, token_from, ws_end};
use crate::parser::{
    advance, default_target, handle, initial_state, measure, parse_text, priority_value, run, skip_block,
    skip_line, splice, PState, Stmt,
};
use crate::token::{literal_of, Tok};

verus! {

proof fn lemma_skip_block_keeps_ambient(s: Seq<char>, st: PState, fuel: nat)
    ensures
        skip_block(s, st, fuel) is Ok ==> skip_block(s, st, fuel)->Ok_0.prio == st.prio
            && skip_block(s, st, fuel)->Ok_0.target == st.target,
    decreases fuel,
{
    if !(st.cur is MultilineCommentEnd) && !(st.cur is EndOfFile) && fuel > 0 {
        if let Ok(n) = advance(s, st) {
            lemma_skip_block_keeps_ambient(s, n, (fuel - 1) as nat);
        }
    }
}

proof fn lemma_skip_line_keeps_ambient(s: Seq<char>, st: PState, line0: int, fuel: nat)
    ensures
        skip_line(s, st, line0, fuel) is Ok ==> skip_line(s, st, line0, fuel)->Ok_0.prio == st.prio
            && skip_line(s, st, line0, fuel)->Ok_0.target == st.target,
    decreases fuel,
{
    if !(st.line > line0 || st.cur is EndOfFile || fuel == 0) {
        if let Ok(n) = advance(s, st) {
            lemma_skip_line_keeps_ambient(s, n, line0, (fuel - 1) as nat);
        }
    }
}

/// Ambient state: moving the token window changes neither the priority nor the
/// target. Only `load priority` sets the priority, to the value of its operand, and
/// only `to` sets the target, to its operand; every directive that is handed out
/// carries the priority and target in effect where its keyword stood.
pub proof fn law_ambient_state(s: Seq<char>, st: PState)
    ensures
        advance(s, st) is Ok ==> advance(s, st)->Ok_0.prio == st.prio && advance(s, st)->Ok_0.target
            == st.target,
        handle(s, st) matches Ok((x, n)) ==> {
            &&& !(st.cur is Load) ==> n.prio == st.prio
            &&& !(st.cur is To) ==> n.target == st.target
            &&& st.cur is Load ==> literal_of(n.cur) is Some && priority_value(literal_of(n.cur)->Some_0)
                == Some(n.prio)
            &&& st.cur is To ==> literal_of(n.cur) == Some(n.target)
            &&& !(x.kind is Ignore) ==> x.priority == st.prio && x.target == st.target
        },
{
    lemma_skip_block_keeps_ambient(s, st, measure(s, st) as nat);
    lemma_skip_line_keeps_ambient(s, st, st.cur_line, measure(s, st) as nat);
}

/// Every document starts with priority 100 and the default target; nothing of an
/// including document carries over.
pub proof fn law_fresh_defaults(s: Seq<char>)
    ensures
        initial_state(s) is Ok ==> initial_state(s)->Ok_0.prio == 100 && initial_state(s)->Ok_0.target
            == default_target(),
{
}

proof fn lemma_quote_end(c: Seq<char>, i: int)
    requires
        0 <= i <= c.len(),
        forall|j: int| 0 <= j < c.len() ==> c[j] != '"',
    ensures
        quote_end(seq!['"'] + c + seq!['"'], i + 1) == c.len() + 1,
    decreases c.len() - i,
{
    let s = seq!['"'] + c + seq!['"'];
    if i < c.len() {
        assert(s[i + 1] == c[i]);
        lemma_quote_end(c, i + 1);
    } else {
        assert(s[i + 1] == '"');
    }
}

/// A string literal is read back verbatim: quoting a text without double quotes
/// and tokenizing it gives a string token whose literal is exactly that text.
pub proof fn law_string_round_trip(c: Seq<char>)
    requires
        forall|j: int| 0 <= j < c.len() ==> c[j] != '"',
    ensures
        token_from(seq!['"'] + c + seq!['"'], 0) == Some((Tok::Str(c), c.len() as int + 2)),
        literal_of(Tok::Str(c)) == Some(c),
{
    let s = seq!['"'] + c + seq!['"'];
    lemma_quote_end(c, 0);
    assert(s.subrange(1, c.len() as int + 1) =~= c);
}

/// Parsing is deterministic: the same text, with the same directives for the
/// documents it names, gives the same directives in the same order.
pub proof fn law_deterministic(a: Seq<char>, b: Seq<char>, na: Seq<Seq<Stmt>>, nb: Seq<Seq<Stmt>>)
    requires
        a == b,
        na == nb,
    ensures
        parse_text(a) == parse_text(b),
        parse_text(a) is Ok ==> splice(parse_text(a)->Ok_0, na) == splice(parse_text(b)->Ok_0, nb),
{
}

proof fn lemma_ws_end_bounds(s: Seq<char>, i: int)
    requires
        0 <= i <= s.len(),
    ensures
        i <= ws_end(s, i) <= s.len(),
    decreases s.len() - i,
{
    if i < s.len() {
        lemma_ws_end_bounds(s, i + 1);
    }
}

proof fn lemma_letters_end_bounds(s: Seq<char>, i: int)
    requires
        0 <= i <= s.len(),
    ensures
        i <= letters_end(s, i) <= s.len(),
    decreases s.len() - i,
{
    if i < s.len() {
        lemma_letters_end_bounds(s, i + 1);
    }
}

proof fn lemma_digits_end_bounds(s: Seq<char>, i: int)
    requires
        0 <= i <= s.len(),
    ensures
        i <= digits_end(s, i) <= s.len(),
    decreases s.len() - i,
{
    if i < s.len() {
        lemma_digits_end_bounds(s, i + 1);
    }
}

proof fn lemma_quote_end_bounds(s: Seq<char>, i: int)
    requires
        0 <= i <= s.len(),
    ensures
        i <= quote_end(s, i) <= s.len(),
    decreases s.len() - i,
{
    if i < s.len() {
        lemma_quote_end_bounds(s, i + 1);
    }
}

/// Every token other than the end of the text consumes at least one character, and
/// no token reads past the end.
proof fn lemma_advance_measure(s: Seq<char>, st: PState)
    requires
        0 <= st.pos <= s.len(),
    ensures
        advance(s, st) is Ok ==> 0 <= advance(s, st)->Ok_0.pos <= s.len() && measure(s, advance(s, st)->Ok_0)
            <= measure(s, st),
        advance(s, st) is Ok && !(st.cur is EndOfFile) ==> measure(s, advance(s, st)->Ok_0) < measure(s, st),
{
    let i = ws_end(s, st.pos);
    lemma_ws_end_bounds(s, st.pos);
    if i < s.len() {
        if i + 1 <= s.len() {
            lemma_letters_end_bounds(s, i + 1);
            lemma_digits_end_bounds(s, i + 1);
            lemma_quote_end_bounds(s, i + 1);
        }
    }
}

proof fn lemma_skip_block_outcome(s: Seq<char>, st: PState, fuel: nat)
    requires
        0 <= st.pos <= s.len(),
        fuel >= measure(s, st),
    ensures
        skip_block(s, st, fuel) is Ok ==> skip_block(s, st, fuel)->Ok_0.cur is MultilineCommentEnd,
        skip_block(s, st, fuel) matches Err(e) ==> e is UnterminatedComment || e is UnterminatedString,
    decreases fuel,
{
    if !(st.cur is MultilineCommentEnd) && !(st.cur is EndOfFile) && fuel > 0 {
        lemma_advance_measure(s, st);
        if let Ok(n) = advance(s, st) {
            lemma_skip_block_outcome(s, n, (fuel - 1) as nat);
        }
    }
}

/// A multi-line comment either ends at its close marker, or the parse fails with an
/// error (the comment, or a string in it, is never closed): it never runs past the
/// end of the text, and it always comes to an end.
pub proof fn law_block_comment_closes_or_fails(s: Seq<char>, st: PState)
    requires
        0 <= st.pos <= s.len(),
        st.cur is MultilineCommentStart,
    ensures
        handle(s, st) matches Ok((x, n)) ==> x.kind is Ignore && n.cur is MultilineCommentEnd,
        handle(s, st) matches Err(e) ==> e is UnterminatedComment || e is UnterminatedString,
{
    lemma_skip_block_outcome(s, st, measure(s, st) as nat);
}

/// Whether no statement of the rest of the document, from the window `st` on, starts
/// with the token `k`.
pub open spec fn runs_without(s: Seq<char>, st: PState, fuel: nat, k: Tok) -> bool
    decreases fuel,
{
    if st.cur is EndOfFile || fuel == 0 {
        true
    } else {
        st.cur != k && match handle(s, st) {
            Err(_) => true,
            Ok((x, n)) => match advance(s, n) {
                Err(_) => true,
                Ok(n2) => runs_without(s, n2, (fuel - 1) as nat, k),
            },
        }
    }
}

/// Priority and target along a document: where no `load` statement follows, every
/// directive that follows carries the priority in effect now, whatever comments and
/// `to` statements stand between; where no `to` statement follows, every directive
/// carries the target in effect now.
pub proof fn law_ambient_carries_over(s: Seq<char>, st: PState, fuel: nat)
    ensures
        runs_without(s, st, fuel, Tok::Load) && run(s, st, fuel) is Ok ==> forall|i: int|
            0 <= i < run(s, st, fuel)->Ok_0.len() ==> (#[trigger] run(s, st, fuel)->Ok_0[i]).priority == st.prio,
        runs_without(s, st, fuel, Tok::To) && run(s, st, fuel) is Ok ==> forall|i: int|
            0 <= i < run(s, st, fuel)->Ok_0.len() ==> (#[trigger] run(s, st, fuel)->Ok_0[i]).target == st.target,
    decreases fuel,
{
    if !(st.cur is EndOfFile) && fuel > 0 {
        law_ambient_state(s, st);
        if let Ok((x, n)) = handle(s, st) {
            law_ambient_state(s, n);
            if let Ok(n2) = advance(s, n) {
                law_ambient_carries_over(s, n2, (fuel - 1) as nat);
                if let Ok(rest) = run(s, n2, (fuel - 1) as nat) {
                    let v = run(s, st, fuel)->Ok_0;
                    if !(x.kind is Ignore) {
                        assert(v == seq![x] + rest);
                        assert forall|i: int| 0 < i < v.len() implies v[i] == rest[i - 1] by {}
                    } else {
                        assert(v == rest);
                    }
                }
            }
        }
    }
}

/// A document without `load` statements gives every directive priority 100; one
/// without `to` statements gives every directive the default target.
pub proof fn law_document_defaults(s: Seq<char>)
    ensures
        initial_state(s) matches Ok(st) ==> {
            &&& runs_without(s, st, measure(s, st) as nat, Tok::Load) && parse_text(s) is Ok ==> forall|i: int|
                0 <= i < parse_text(s)->Ok_0.len() ==> (#[trigger] parse_text(s)->Ok_0[i]).priority == 100
            &&& runs_without(s, st, measure(s, st) as nat, Tok::To) && parse_text(s) is Ok ==> forall|i: int|
                0 <= i < parse_text(s)->Ok_0.len() ==> (#[trigger] parse_text(s)->Ok_0[i]).target
                    == default_target()
        },
{
    if let Ok(st) = initial_state(s) {
        law_fresh_defaults(s);
        law_ambient_carries_over(s, st, measure(s, st) as nat);
    }
}

} // verus!
