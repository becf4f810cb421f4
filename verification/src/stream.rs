//! The tokens of a text, counted from its start, and the parser's window on them.
use vstd::prelude::*;
use crate::grammar::{spelling, ParserState};
use crate::lex::{lemma_scan_moves_forward, scan, Scan};
use crate::token::{is_relational_kind, TokenType, TokenView};

verus! {

/// Where the lexer's cursor rests after `count` calls for a token, from the start of the
/// text on.
pub open spec fn cursor_after(text: Seq<char>, count: nat) -> int
    decreases count,
{
    if count == 0 {
        0
    } else {
        let before = cursor_after(text, (count - 1) as nat);
        match scan(text, before) {
            Scan::Token { token, next } => next,
            Scan::Nothing { next } => next,
            Scan::Fatal { error } => before,
        }
    }
}

/// What the call number `index` for a token finds, the first call being number 0.
pub open spec fn item(text: Seq<char>, index: nat) -> Scan {
    scan(text, cursor_after(text, index))
}

/// The token that a call found, if it found one.
pub open spec fn visible(found: Scan) -> Option<TokenView> {
    match found {
        Scan::Token { token, next } => Some(token),
        _ => None,
    }
}

/// None of the first `count` calls for a token fails.
#[verifier::opaque]
pub open spec fn legible(text: Seq<char>, count: nat) -> bool {
    forall|index: nat| index < count ==> !(#[trigger] item(text, index) is Fatal)
}

/// A token as the structure of a program gives it: its kind and, for the kinds whose text
/// goes to the output, that text.
pub struct Piece {
    pub kind: TokenType,
    pub text: Seq<char>,
}

/// The kinds of token whose text the parser copies to the output.
pub open spec fn is_copied(kind: TokenType) -> bool {
    kind == TokenType::NUMBER || kind == TokenType::IDENT || kind == TokenType::STRING || kind
        == TokenType::PLUS || kind == TokenType::MINUS || kind == TokenType::ASTERISK || kind
        == TokenType::SLASH || is_relational_kind(kind)
}

/// The call found a token of the piece's kind and, if its text counts, with its text.
pub open spec fn shows(found: Scan, piece: Piece) -> bool {
    found matches Scan::Token { token, next } && token.kind == piece.kind && (is_copied(
        piece.kind,
    ) ==> spelling(token) == piece.text)
}

/// The calls for a token from number `at` on find `pieces`, one after the other.
#[verifier::opaque]
pub open spec fn reads(text: Seq<char>, at: nat, pieces: Seq<Piece>) -> bool {
    forall|i: int| 0 <= i < pieces.len() ==> shows(item(text, (at + i) as nat), #[trigger] pieces[i])
}

/// The state `s` with the parser's window on the token number `at`: that token is the
/// current one, the one after it is the peek token, and the lexer has passed both.
pub open spec fn placed(text: Seq<char>, at: nat, s: ParserState) -> ParserState {
    ParserState {
        text,
        cursor: cursor_after(text, at + 2),
        current: visible(item(text, at)),
        peek: visible(item(text, at + 1)),
        ..s
    }
}

/// The cursor never rests before the start of the text.
pub(crate) proof fn lemma_cursor_after(text: Seq<char>, count: nat)
    ensures
        0 <= cursor_after(text, count),
    decreases count,
{
    if count > 0 {
        lemma_cursor_after(text, (count - 1) as nat);
        lemma_scan_moves_forward(text, cursor_after(text, (count - 1) as nat));
    }
}

/// Moving the window on by one token leads from one placed state to the next.
pub(crate) proof fn lemma_placed_advance(text: Seq<char>, at: nat, s: ParserState)
    requires
        !s.failed(),
        !(item(text, at + 2) is Fatal),
    ensures
        placed(text, at, s).advance() == placed(text, at + 1, s),
{
    assert(cursor_after(text, at + 3) == match item(text, at + 2) {
        Scan::Token { token, next } => next,
        Scan::Nothing { next } => next,
        Scan::Fatal { error } => cursor_after(text, at + 2),
    });
}

/// Each of the calls that `legible` speaks of finds a token or nothing.
pub(crate) proof fn lemma_legible_at(text: Seq<char>, count: nat, index: nat)
    requires
        legible(text, count),
        index < count,
    ensures
        !(item(text, index) is Fatal),
{
    reveal(legible);
}

/// Each of the calls that `reads` speaks of finds its piece.
pub(crate) proof fn lemma_reads_at(text: Seq<char>, at: nat, pieces: Seq<Piece>, i: nat)
    requires
        reads(text, at, pieces),
        i < pieces.len(),
    ensures
        shows(item(text, at + i), pieces[i as int]),
{
    reveal(reads);
    assert(shows(item(text, (at + i) as nat), pieces[i as int]));
}

/// Where pieces are read and the call after them does not fail, no call up to that one
/// fails.
pub(crate) proof fn lemma_reads_legible(text: Seq<char>, pieces: Seq<Piece>)
    requires
        reads(text, 0, pieces),
        !(item(text, pieces.len()) is Fatal),
    ensures
        legible(text, pieces.len() + 1),
{
    reveal(reads);
    reveal(legible);
    assert forall|index: nat| index < pieces.len() + 1 implies !(#[trigger] item(text, index)
        is Fatal) by {
        if index < pieces.len() {
            assert(shows(item(text, (0 + index) as nat), pieces[index as int]));
        }
    }
}

/// A call that finds a piece reads it.
pub(crate) proof fn lemma_reads_one(text: Seq<char>, at: nat, piece: Piece)
    requires
        shows(item(text, at), piece),
    ensures
        reads(text, at, seq![piece]),
{
    reveal(reads);
    assert forall|i: int| 0 <= i < seq![piece].len() implies shows(
        item(text, (at + i) as nat),
        #[trigger] seq![piece][i],
    ) by {
        assert(i == 0);
    }
}

/// No pieces are read anywhere.
pub(crate) proof fn lemma_reads_none(text: Seq<char>, at: nat)
    ensures
        reads(text, at, Seq::<Piece>::empty()),
{
    reveal(reads);
}

/// One more call that does not fail.
pub(crate) proof fn lemma_legible_more(text: Seq<char>, count: nat)
    requires
        legible(text, count),
        !(item(text, count) is Fatal),
    ensures
        legible(text, count + 1),
{
    reveal(legible);
}

/// A parse begins with the window on the first token.
pub(crate) proof fn lemma_start_is_placed(text: Seq<char>)
    requires
        legible(text, 2),
    ensures
        ParserState::start(text) == placed(
            text,
            0,
            ParserState::fresh(text, 0, Seq::empty(), Seq::empty(), Seq::empty()),
        ),
{
    lemma_legible_at(text, 2, 0);
    lemma_legible_at(text, 2, 1);
    assert(cursor_after(text, 0) == 0);
    assert(cursor_after(text, 1) == match item(text, 0) {
        Scan::Token { token, next } => next,
        Scan::Nothing { next } => next,
        Scan::Fatal { error } => 0,
    });
    assert(cursor_after(text, 2) == match item(text, 1) {
        Scan::Token { token, next } => next,
        Scan::Nothing { next } => next,
        Scan::Fatal { error } => cursor_after(text, 1),
    });
}

/// What is read as two runs of pieces, one after the other, is read as their concatenation,
/// and the other way round.
pub(crate) proof fn lemma_reads_concat(text: Seq<char>, at: nat, first: Seq<Piece>, second: Seq<Piece>)
    ensures
        reads(text, at, first + second) <==> reads(text, at, first) && reads(
            text,
            at + first.len(),
            second,
        ),
{
    reveal(reads);
    let both = first + second;
    if reads(text, at, both) {
        assert forall|i: int| 0 <= i < first.len() implies shows(
            item(text, (at + i) as nat),
            #[trigger] first[i],
        ) by {
            assert(both[i] == first[i]);
        }
        assert forall|i: int| 0 <= i < second.len() implies shows(
            item(text, (at + first.len() + i) as nat),
            #[trigger] second[i],
        ) by {
            assert(both[first.len() + i] == second[i]);
        }
    }
    if reads(text, at, first) && reads(text, at + first.len(), second) {
        assert forall|i: int| 0 <= i < both.len() implies shows(
            item(text, (at + i) as nat),
            #[trigger] both[i],
        ) by {
            if i < first.len() {
                assert(both[i] == first[i]);
            } else {
                assert(both[i] == second[i - first.len()]);
                assert((at + i) as nat == (at + first.len() + (i - first.len())) as nat);
            }
        }
    }
}

} // verus!
