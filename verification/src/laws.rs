//! What holds of every text: its pieces lie end to end and cover it, its
//! tokens come in the order of the text, and the end marker comes last and
//! only there.

use vstd::prelude::*;
use crate::chars::byte_len;
use crate::chars::byte_offset;
use crate::chars::lemma_byte_offset_monotone;
use crate::error::LexErrorKind;
use crate::grammar::double_operator;
use crate::grammar::lemma_piece_within;
use crate::grammar::lemma_streams_push;
use crate::grammar::piece_at;
use crate::grammar::pieces;
use crate::grammar::token_stream;
use crate::grammar::tokens_in;
use crate::grammar::Piece;
use crate::grammar::PieceKind;
use crate::token::SpannedModel;
use crate::token::TokenType;

verus! {

/// The byte of offset `o` belongs to the piece.
pub open spec fn covers(p: Piece, s: Seq<char>, o: int) -> bool {
    byte_offset(s, p.beg) <= o < byte_offset(s, p.end)
}

/// The pieces lie end to end from position `from` to the end of the text,
/// none of them empty, and each is the piece that the grammar reads where it
/// begins.
pub open spec fn chained(ps: Seq<Piece>, s: Seq<char>, from: int) -> bool {
    &&& forall|k: int| 0 <= k < ps.len() ==> (#[trigger] ps[k]).within(s)
    &&& forall|k: int| 0 <= k < ps.len() ==> #[trigger] ps[k] == piece_at(s, ps[k].beg)
    &&& forall|k: int| 0 < k < ps.len() ==> (#[trigger] ps[k]).beg == ps[k - 1].end
    &&& ps.len() > 0 ==> ps[0].beg == from && ps[ps.len() - 1].end == s.len()
    &&& ps.len() == 0 ==> from >= s.len()
}

/// The pieces read from any position lie end to end up to the end of the
/// text.
pub proof fn lemma_pieces_chained(s: Seq<char>, i: int)
    requires
        0 <= i <= s.len(),
    ensures
        chained(pieces(s, i), s, i),
    decreases s.len() - i,
{
    if i < s.len() {
        lemma_piece_within(s, i);
        let p = piece_at(s, i);
        let rest = pieces(s, p.end);
        lemma_pieces_chained(s, p.end);
        let ps = pieces(s, i);
        assert(ps =~= seq![p] + rest);
        assert forall|k: int| 0 <= k < ps.len() implies (#[trigger] ps[k]).within(s) && ps[k]
            == piece_at(s, ps[k].beg) by {
            if k > 0 {
                assert(ps[k] == rest[k - 1]);
            }
        }
        assert forall|k: int| 0 < k < ps.len() implies (#[trigger] ps[k]).beg == ps[k - 1].end by {
            assert(ps[k] == rest[k - 1]);
            if k > 1 {
                assert(ps[k - 1] == rest[k - 2]);
            }
        }
        if rest.len() > 0 {
            assert(ps[ps.len() - 1] == rest[rest.len() - 1]);
        }
    }
}

/// In a chain an earlier piece ends where a later one begins, or before.
pub proof fn lemma_chain_ordered(ps: Seq<Piece>, s: Seq<char>, from: int, j: int, k: int)
    requires
        chained(ps, s, from),
        0 <= j < k < ps.len(),
    ensures
        ps[j].end <= ps[k].beg,
    decreases k - j,
{
    if j + 1 < k {
        lemma_chain_ordered(ps, s, from, j, k - 1);
        assert(ps[k - 1].within(s));
    }
    assert(ps[k].beg == ps[k - 1].end);
}

/// Some piece read from position `i` on holds the byte of offset `o`.
proof fn lemma_some_piece_covers(s: Seq<char>, i: int, o: int) -> (k: int)
    requires
        0 <= i <= s.len(),
        byte_offset(s, i) <= o < byte_len(s),
    ensures
        0 <= k < pieces(s, i).len(),
        covers(pieces(s, i)[k], s, o),
    decreases s.len() - i,
{
    lemma_byte_offset_monotone(s, i, s.len() as int);
    lemma_piece_within(s, i);
    let p = piece_at(s, i);
    assert(pieces(s, i) =~= seq![p] + pieces(s, p.end));
    if o < byte_offset(s, p.end) {
        0
    } else {
        let k = lemma_some_piece_covers(s, p.end, o);
        assert(pieces(s, i)[k + 1] == pieces(s, p.end)[k]);
        k + 1
    }
}

/// Coverage. Every byte of the text belongs to exactly one of the pieces
/// into which the text falls, and each piece is a blank, a newline, a
/// comment, a token or malformed input reported as an error: nothing is
/// dropped and nothing is read twice. The tokens and the errors of the text
/// are those of these pieces, in order.
pub proof fn lemma_coverage(s: Seq<char>, o: int)
    requires
        0 <= o < byte_len(s),
    ensures
        exists|k: int|
            {
                &&& 0 <= k < pieces(s, 0).len()
                &&& #[trigger] covers(pieces(s, 0)[k], s, o)
                &&& forall|j: int|
                    0 <= j < pieces(s, 0).len() && #[trigger] covers(pieces(s, 0)[j], s, o) ==> j
                        == k
            },
{
    let ps = pieces(s, 0);
    lemma_byte_offset_monotone(s, 0, 0);
    lemma_pieces_chained(s, 0);
    let k = lemma_some_piece_covers(s, 0, o);
    assert forall|j: int| 0 <= j < ps.len() && #[trigger] covers(ps[j], s, o) implies j == k by {
        assert(ps[j].within(s));
        assert(ps[k].within(s));
        if j < k {
            lemma_chain_ordered(ps, s, 0, j, k);
            lemma_byte_offset_monotone(s, ps[j].end, ps[k].beg);
        } else if k < j {
            lemma_chain_ordered(ps, s, 0, k, j);
            lemma_byte_offset_monotone(s, ps[k].end, ps[j].beg);
        }
    }
    assert(covers(ps[k], s, o));
}

/// Longest match. Where the character at `i` and the one after it form an
/// operator together, the piece read at `i` is that operator and takes both:
/// they are never read as two tokens.
pub proof fn lemma_longest_operator(s: Seq<char>, i: int)
    requires
        0 <= i,
        i + 1 < s.len(),
        double_operator(s[i], s[i + 1]) is Some,
    ensures
        piece_at(s, i) == (Piece {
            kind: PieceKind::Token(double_operator(s[i], s[i + 1])->0),
            beg: i,
            end: i + 2,
        }),
{
}

/// An unterminated string or block comment reaches to the end of the text,
/// so it is the last piece: a text has at most one such error.
pub proof fn lemma_unterminated_is_last(s: Seq<char>, k: int)
    requires
        0 <= k < pieces(s, 0).len(),
        pieces(s, 0)[k].kind == PieceKind::Bad(LexErrorKind::UnterminatedString) || pieces(
            s,
            0,
        )[k].kind == PieceKind::Bad(LexErrorKind::UnterminatedBlockComment),
    ensures
        k == pieces(s, 0).len() - 1,
        pieces(s, 0)[k].end == s.len(),
{
    let ps = pieces(s, 0);
    lemma_pieces_chained(s, 0);
    assert(ps[k] == piece_at(s, ps[k].beg));
    assert(ps[k].within(s));
    if k < ps.len() - 1 {
        assert(ps[k + 1].within(s));
        assert(ps[k + 1].beg == ps[k].end);
    }
}

/// The place up to which the first `n` pieces of a text reach.
spec fn reach(s: Seq<char>, n: int) -> int {
    if n <= 0 {
        0
    } else {
        pieces(s, 0)[n - 1].end
    }
}

/// The tokens of the first `n` pieces are in the order of the text, none is
/// empty and none reaches beyond those pieces.
proof fn lemma_tokens_of_prefix(s: Seq<char>, n: int)
    requires
        byte_len(s) <= u32::MAX,
        0 <= n <= pieces(s, 0).len(),
    ensures
        ({
            let ts = tokens_in(pieces(s, 0).take(n), s);
            &&& forall|j: int|
                0 <= j < ts.len() ==> {
                    &&& (#[trigger] ts[j]).span.beg < ts[j].span.end
                    &&& ts[j].span.end <= byte_offset(s, reach(s, n))
                }
            &&& forall|j: int, k: int|
                0 <= j < k < ts.len() ==> (#[trigger] ts[j]).span.end <= (#[trigger] ts[k]).span.beg
        }),
        0 <= reach(s, n) <= s.len(),
    decreases n,
{
    let ps = pieces(s, 0);
    lemma_pieces_chained(s, 0);
    lemma_byte_offset_monotone(s, 0, 0);
    if n == 0 {
        assert(ps.take(0) =~= Seq::<Piece>::empty());
        assert(tokens_in(ps.take(0), s) =~= Seq::<SpannedModel>::empty());
    } else {
        lemma_tokens_of_prefix(s, n - 1);
        let p = ps[n - 1];
        let before = tokens_in(ps.take(n - 1), s);
        assert(ps.take(n) =~= ps.take(n - 1).push(p));
        lemma_streams_push(ps.take(n - 1), p, s);
        assert(p.within(s));
        assert(p == piece_at(s, p.beg));
        assert(p.beg == reach(s, n - 1));
        lemma_byte_offset_monotone(s, p.beg, p.end);
        lemma_byte_offset_monotone(s, p.end, s.len() as int);
        lemma_byte_offset_monotone(s, 0, p.beg);
        let ts = tokens_in(ps.take(n), s);
        match p.token(s) {
            Some(t) => {
                assert(ts == before.push(t));
                assert(t.span.beg == byte_offset(s, p.beg));
                assert(t.span.end == byte_offset(s, p.end));
                assert forall|j: int| 0 <= j < ts.len() implies {
                    &&& (#[trigger] ts[j]).span.beg < ts[j].span.end
                    &&& ts[j].span.end <= byte_offset(s, reach(s, n))
                } by {
                    if j < before.len() {
                        assert(ts[j] == before[j]);
                    }
                }
                assert forall|j: int, k: int| 0 <= j < k < ts.len() implies (#[trigger] ts[j]).span.end
                    <= (#[trigger] ts[k]).span.beg by {
                    assert(ts[j] == before[j]);
                    if k < before.len() {
                        assert(ts[k] == before[k]);
                    }
                }
            },
            None => {
                assert(ts == before);
            },
        }
    }
}

/// Order. The tokens of a text come in the order of the text: each is well
/// formed and ends where the next begins, or before, so no two overlap, and
/// each begins after the one before it.
pub proof fn lemma_tokens_ordered(s: Seq<char>, j: int, k: int)
    requires
        byte_len(s) <= u32::MAX,
        0 <= j < k < token_stream(s).len(),
    ensures
        token_stream(s)[j].span.wf(),
        token_stream(s)[k].span.wf(),
        token_stream(s)[j].span.end <= token_stream(s)[k].span.beg,
        token_stream(s)[j].span.beg < token_stream(s)[k].span.beg,
{
    let ps = pieces(s, 0);
    lemma_tokens_of_prefix(s, ps.len() as int);
    assert(ps.take(ps.len() as int) =~= ps);
    lemma_byte_offset_monotone(s, reach(s, ps.len() as int), s.len() as int);
    let ts = tokens_in(ps, s);
    assert(token_stream(s)[j] == ts[j]);
    if k < ts.len() {
        assert(token_stream(s)[k] == ts[k]);
    }
}

/// The end marker. The token stream of a text is never empty; its last
/// token is the end marker, and no token before it is one.
pub proof fn lemma_end_marker(s: Seq<char>)
    ensures
        token_stream(s).len() >= 1,
        token_stream(s).last().token.kind == TokenType::EOF,
        forall|k: int|
            0 <= k < token_stream(s).len() - 1 ==> (#[trigger] token_stream(s)[k]).token.kind
                != TokenType::EOF,
{
    let ps = pieces(s, 0);
    lemma_kinds_of_prefix(s, ps.len() as int);
    assert(ps.take(ps.len() as int) =~= ps);
    let ts = tokens_in(ps, s);
    assert forall|k: int| 0 <= k < token_stream(s).len() - 1 implies (#[trigger] token_stream(
        s,
    )[k]).token.kind != TokenType::EOF by {
        assert(token_stream(s)[k] == ts[k]);
    }
}

/// No token of the first `n` pieces is an end marker.
proof fn lemma_kinds_of_prefix(s: Seq<char>, n: int)
    requires
        0 <= n <= pieces(s, 0).len(),
    ensures
        forall|j: int|
            0 <= j < tokens_in(pieces(s, 0).take(n), s).len() ==> (#[trigger] tokens_in(
                pieces(s, 0).take(n),
                s,
            )[j]).token.kind != TokenType::EOF,
    decreases n,
{
    let ps = pieces(s, 0);
    lemma_pieces_chained(s, 0);
    if n == 0 {
        assert(ps.take(0) =~= Seq::<Piece>::empty());
        assert(tokens_in(ps.take(0), s) =~= Seq::<SpannedModel>::empty());
    } else {
        lemma_kinds_of_prefix(s, n - 1);
        let p = ps[n - 1];
        assert(ps.take(n) =~= ps.take(n - 1).push(p));
        lemma_streams_push(ps.take(n - 1), p, s);
        assert(p == piece_at(s, p.beg));
    }
}

} // verus!
