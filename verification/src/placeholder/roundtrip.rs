use vstd::prelude::*;

use super::key::PlaceholderKey;
use super::laws::plain_text_char;
use super::parser::{
    lemma_next_cursor, spec_next, spec_parse_tokens, spec_tokens, start_cursor, Cursor,
    ParserErrorModel, ParserState,
};
use super::token::TokenModel;

verus! {

/// A piece of placeholder-pattern source: unquoted text, quoted text, or the text of
/// a key.
pub ghost enum Piece {
    Text(Seq<char>),
    Quoted(Seq<char>),
    Key(Seq<char>),
}

/// The source of a piece: text as it is, quoted text between apostrophes, a key
/// between braces.
pub open spec fn write_piece(p: Piece) -> Seq<char> {
    match p {
        Piece::Text(t) => t,
        Piece::Quoted(t) => seq!['\''] + t + seq!['\''],
        Piece::Key(t) => seq!['{'] + t + seq!['}'],
    }
}

/// The source of a sequence of pieces, one after the other.
pub open spec fn write_pieces(ps: Seq<Piece>) -> Seq<char>
    decreases ps.len(),
{
    if ps.len() == 0 {
        Seq::empty()
    } else {
        write_piece(ps[0]) + write_pieces(ps.drop_first())
    }
}

/// A piece that reads back as one token: nonempty text that unquoted literal text
/// holds as it is; nonempty quoted text without apostrophe; a key text without `}`
/// that the key type reads.
pub open spec fn piece_ok<P: PlaceholderKey>(p: Piece, allow: bool) -> bool {
    match p {
        Piece::Text(t) => t.len() > 0 && forall|j: int|
            0 <= j < t.len() ==> plain_text_char(#[trigger] t[j], allow),
        Piece::Quoted(t) => t.len() > 0 && forall|j: int| 0 <= j < t.len() ==> #[trigger] t[j] != '\'',
        Piece::Key(t) => (forall|j: int| 0 <= j < t.len() ==> #[trigger] t[j] != '}') && P::spec_parse_key(
            t,
        ) is Some,
    }
}

/// Pieces that read back one token each: each piece does, no text follows text (the
/// two would read as one literal) and no quoted text follows quoted text (the
/// apostrophes between them would read as `''`).
pub open spec fn pieces_ok<P: PlaceholderKey>(ps: Seq<Piece>, allow: bool) -> bool {
    &&& forall|i: int| 0 <= i < ps.len() ==> piece_ok::<P>(#[trigger] ps[i], allow)
    &&& forall|i: int| 0 <= i < ps.len() - 1 ==> !(#[trigger] ps[i] is Text && ps[i + 1] is Text)
    &&& forall|i: int| 0 <= i < ps.len() - 1 ==> !(#[trigger] ps[i] is Quoted && ps[i + 1] is Quoted)
}

/// The token that a piece stands for.
pub open spec fn piece_token<P: PlaceholderKey>(p: Piece) -> TokenModel<P::V> {
    match p {
        Piece::Text(t) => TokenModel::Literal { content: t, quoted: false },
        Piece::Quoted(t) => TokenModel::Literal { content: t, quoted: true },
        Piece::Key(t) => TokenModel::Placeholder(P::spec_parse_key(t)->0),
    }
}

/// The tokens that a sequence of pieces stands for.
pub open spec fn pieces_tokens<P: PlaceholderKey>(ps: Seq<Piece>) -> Seq<TokenModel<P::V>> {
    ps.map_values(|p: Piece| piece_token::<P>(p))
}

/// Whether the parser, in state `state`, reads past `c` without ending the token.
spec fn scans_over(c: char, state: ParserState, allow: bool) -> bool {
    match state {
        ParserState::Default => plain_text_char(c, allow),
        ParserState::Placeholder => c != '}',
        ParserState::QuotedLiteral => c != '\'',
        ParserState::Apostrophe { .. } => false,
    }
}

proof fn lemma_scan<P: PlaceholderKey>(s: Seq<char>, allow: bool, cur: Cursor, end: nat)
    requires
        cur.idx <= end <= s.len(),
        forall|j: int| cur.idx <= j < end ==> scans_over(#[trigger] s[j], cur.state, allow),
    ensures
        spec_next::<P>(s, allow, cur) == spec_next::<P>(s, allow, Cursor { idx: end, ..cur }),
    decreases end - cur.idx,
{
    if cur.idx < end {
        assert(scans_over(s[cur.idx as int], cur.state, allow));
        lemma_scan::<P>(s, allow, Cursor { idx: cur.idx + 1, ..cur }, end);
    }
}

/// Two cursors from which the next token is the same give the same tokens.
proof fn lemma_tokens_same_next<P: PlaceholderKey>(s: Seq<char>, allow: bool, a: Cursor, b: Cursor)
    requires
        a.start <= a.idx <= s.len(),
        b.start <= b.idx <= s.len(),
        a.state !is Apostrophe,
        b.state !is Apostrophe,
        spec_next::<P>(s, allow, a) == spec_next::<P>(s, allow, b),
    ensures
        spec_tokens::<P>(s, allow, a) == spec_tokens::<P>(s, allow, b),
{
    lemma_next_cursor::<P>(s, allow, a);
    lemma_next_cursor::<P>(s, allow, b);
}

#[verifier::rlimit(40)]
proof fn lemma_tokens_of_pieces<P: PlaceholderKey>(s: Seq<char>, allow: bool, p: nat, ps: Seq<Piece>)
    requires
        p <= s.len(),
        s.subrange(p as int, s.len() as int) == write_pieces(ps),
        pieces_ok::<P>(ps, allow),
    ensures
        spec_tokens::<P>(s, allow, Cursor { start: p, idx: p, state: ParserState::Default })
            == Ok::<_, ParserErrorModel>(pieces_tokens::<P>(ps)),
    decreases ps.len(),
{
    let n = s.len();
    let cur = Cursor { start: p, idx: p, state: ParserState::Default };
    lemma_next_cursor::<P>(s, allow, cur);
    if ps.len() == 0 {
        assert(s.subrange(p as int, n as int).len() == 0);
        assert(pieces_tokens::<P>(ps) =~= Seq::<TokenModel<P::V>>::empty());
    } else {
        let first = ps[0];
        let rest = ps.drop_first();
        let w = write_piece(first);
        let q = p + w.len();
        assert(s.subrange(p as int, n as int) == w + write_pieces(rest));
        assert forall|j: int| 0 <= j < w.len() implies s[p + j] == #[trigger] w[j] by {
            assert(s.subrange(p as int, n as int)[j] == s[p + j]);
        }
        assert(q <= n);
        assert(s.subrange(q as int, n as int) =~= write_pieces(rest)) by {
            assert forall|j: int| 0 <= j < n - q implies #[trigger] s.subrange(q as int, n as int)[j]
                == write_pieces(rest)[j] by {
                assert(s.subrange(p as int, n as int)[w.len() + j] == s[q + j]);
            }
        }
        assert(piece_ok::<P>(first, allow));
        assert(pieces_ok::<P>(rest, allow)) by {
            assert forall|i: int| 0 <= i < rest.len() implies piece_ok::<P>(#[trigger] rest[i], allow) by {
                assert(rest[i] == ps[i + 1]);
            }
            assert forall|i: int| 0 <= i < rest.len() - 1 implies !(#[trigger] rest[i] is Text
                && rest[i + 1] is Text) by {
                assert(rest[i] == ps[i + 1]);
                assert(rest[i + 1] == ps[i + 2]);
            }
            assert forall|i: int| 0 <= i < rest.len() - 1 implies !(#[trigger] rest[i] is Quoted
                && rest[i + 1] is Quoted) by {
                assert(rest[i] == ps[i + 1]);
                assert(rest[i + 1] == ps[i + 2]);
            }
        }
        lemma_tokens_of_pieces::<P>(s, allow, q, rest);
        let canon = Cursor { start: q, idx: q, state: ParserState::Default };
        lemma_next_cursor::<P>(s, allow, canon);
        // What starts at `q`: nothing, or the source of the next piece.
        if q < n {
            assert(rest.len() > 0);
            assert(write_pieces(rest) == write_piece(rest[0]) + write_pieces(rest.drop_first()));
            assert(s[q as int] == s.subrange(q as int, n as int)[0]);
            assert(rest[0] == ps[1]);
            assert(piece_ok::<P>(ps[1], allow));
            match rest[0] {
                Piece::Text(t2) => {
                    assert(write_piece(rest[0])[0] == t2[0]);
                    assert(plain_text_char(t2[0], allow));
                },
                Piece::Quoted(t2) => {
                    assert(write_piece(rest[0])[0] == '\'');
                    assert(write_piece(rest[0])[1] == t2[0]);
                    assert(s.subrange(q as int, n as int)[1] == s[q + 1int]);
                    assert(s[q + 1int] != '\'');
                },
                Piece::Key(t2) => {
                    assert(write_piece(rest[0])[0] == '{');
                },
            }
        }
        assert(pieces_tokens::<P>(ps) =~= seq![piece_token::<P>(first)] + pieces_tokens::<P>(rest));
        match first {
            Piece::Text(t) => {
                assert(forall|j: int| p <= j < q ==> scans_over(#[trigger] s[j], ParserState::Default, allow))
                    by {
                    assert forall|j: int| p <= j < q implies scans_over(#[trigger] s[j], ParserState::Default, allow) by {
                        assert(s[j] == w[j - p]);
                    }
                }
                lemma_scan::<P>(s, allow, cur, q);
                assert(s.subrange(p as int, q as int) =~= t);
                if q < n {
                    assert(!(ps[0] is Text && ps[1] is Text));
                    let c = s[q as int];
                    assert(c == '{' || c == '\'');
                    let st = if c == '{' {
                        ParserState::Placeholder
                    } else {
                        ParserState::QuotedLiteral
                    };
                    let after = Cursor { start: q + 1, idx: q + 1, state: st };
                    assert(spec_next::<P>(s, allow, canon) == spec_next::<P>(s, allow, after));
                    lemma_tokens_same_next::<P>(s, allow, canon, after);
                } else {
                    assert(s.subrange(p as int, n as int) =~= t);
                }
            },
            Piece::Key(t) => {
                assert(s[p as int] == w[0]);
                let inner = Cursor { start: p + 1, idx: p + 1, state: ParserState::Placeholder };
                assert(spec_next::<P>(s, allow, cur) == spec_next::<P>(s, allow, inner));
                assert forall|j: int| p + 1 <= j < q - 1 implies scans_over(#[trigger] s[j], ParserState::Placeholder, allow) by {
                    assert(s[j] == w[j - p]);
                    assert(w[j - p] == t[j - p - 1]);
                }
                lemma_scan::<P>(s, allow, inner, (q - 1) as nat);
                assert(s[q - 1] == w[w.len() - 1]);
                assert(s.subrange(p + 1int, q - 1int) =~= t) by {
                    assert forall|j: int| 0 <= j < t.len() implies #[trigger] s.subrange(p + 1int, q - 1int)[j] == t[j] by {
                        assert(s[p + 1 + j] == w[j + 1]);
                    }
                }
            },
            Piece::Quoted(t) => {
                assert(s[p as int] == w[0]);
                assert(s[p + 1int] == w[1]);
                assert(w[1] == t[0]);
                let inner = Cursor { start: p + 1, idx: p + 1, state: ParserState::QuotedLiteral };
                assert(spec_next::<P>(s, allow, cur) == spec_next::<P>(s, allow, inner));
                assert forall|j: int| p + 1 <= j < q - 1 implies scans_over(#[trigger] s[j], ParserState::QuotedLiteral, allow) by {
                    assert(s[j] == w[j - p]);
                    assert(w[j - p] == t[j - p - 1]);
                }
                lemma_scan::<P>(s, allow, inner, (q - 1) as nat);
                assert(s[q - 1] == w[w.len() - 1]);
                assert(s.subrange(p + 1int, q - 1int) =~= t) by {
                    assert forall|j: int| 0 <= j < t.len() implies #[trigger] s.subrange(p + 1int, q - 1int)[j] == t[j] by {
                        assert(s[p + 1 + j] == w[j + 1]);
                    }
                }
                if q < n {
                    assert(!(ps[0] is Quoted && ps[1] is Quoted));
                }
            },
        }
    }
}

/// Writing pieces out as a pattern (text as it is, quoted text between apostrophes,
/// keys between braces) and parsing the result gives back one token per piece, in
/// order, where each piece reads back as one token and no two neighbours would merge.
pub proof fn law_parse_written_pieces<P: PlaceholderKey>(ps: Seq<Piece>, allow: bool)
    requires
        pieces_ok::<P>(ps, allow),
    ensures
        spec_parse_tokens::<P>(write_pieces(ps), allow) == Ok::<_, ParserErrorModel>(
            pieces_tokens::<P>(ps),
        ),
{
    let s = write_pieces(ps);
    assert(s.subrange(0, s.len() as int) =~= s);
    lemma_tokens_of_pieces::<P>(s, allow, 0, ps);
    assert(start_cursor() == Cursor { start: 0, idx: 0, state: ParserState::Default });
}

} // verus!
