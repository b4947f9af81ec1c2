//! What becomes of a text when URLs are replaced in it, piece by piece.

use vstd::prelude::*;

use crate::pipeline::rewrite::{
    lemma_replaced_in_parts, replaced, replaced_from, rewritten, seamless, stands_at, url_boundary,
};
use crate::text::occurs_at;

verus! {

/// The characters that end a URL: quotes, backslash, white space, angle and round
/// brackets, and what parts a URL from a query, a fragment or another URL.
pub proof fn lemma_what_ends_a_url(c: char)
    ensures
        url_boundary(c) <==> {
            let n = c as int;
            ||| n == 9
            ||| n == 10
            ||| n == 13
            ||| n == 32
            ||| n == 34
            ||| n == 35
            ||| n == 39
            ||| n == 40
            ||| n == 41
            ||| n == 44
            ||| n == 59
            ||| n == 60
            ||| n == 61
            ||| n == 62
            ||| n == 63
            ||| n == 92
        },
{
}

proof fn lemma_rest_stays(piece: Seq<char>, from: Seq<char>, to: Seq<char>, at: int)
    requires
        forall|i: int| 0 <= i < piece.len() ==> !url_boundary(#[trigger] piece[i]),
        0 < at <= piece.len(),
    ensures
        replaced_from(piece, from, to, at) == piece.skip(at),
    decreases piece.len() - at,
{
    if at < piece.len() && from.len() > 0 {
        assert(!url_boundary(piece[at - 1]));
        assert(!stands_at(piece, from, at));
        lemma_rest_stays(piece, from, to, at + 1);
        assert(seq![piece[at]] + piece.skip(at + 1) =~= piece.skip(at));
    }
}

/// Of a text without any character that ends a URL, all or nothing is replaced:
/// all where it is the old URL, nothing where it is any other, be it a longer one
/// that begins or ends with the old one.
pub proof fn lemma_piece_is_replaced_whole(piece: Seq<char>, from: Seq<char>, to: Seq<char>)
    requires
        from.len() > 0,
        forall|i: int| 0 <= i < piece.len() ==> !url_boundary(#[trigger] piece[i]),
    ensures
        replaced(piece, from, to) == if piece == from {
            to
        } else {
            piece
        },
{
    assert(piece.skip(0) =~= piece);
    if piece.len() > 0 {
        if piece == from {
            assert(piece.subrange(0, piece.len() as int) =~= piece);
            assert(occurs_at(piece, from, 0));
            assert(stands_at(piece, from, 0));
            let end = piece.len() as int;
            assert(replaced_from(piece, from, to, end) =~= Seq::<char>::empty());
            assert(replaced_from(piece, from, to, 0) == to + replaced_from(piece, from, to, end));
            assert(to + Seq::<char>::empty() =~= to);
        } else {
            if stands_at(piece, from, 0) {
                if from.len() < piece.len() {
                    assert(!url_boundary(piece[from.len() as int]));
                } else {
                    assert(piece.subrange(0, from.len() as int) =~= piece);
                }
            }
            assert(!stands_at(piece, from, 0));
            lemma_rest_stays(piece, from, to, 1);
            assert(replaced_from(piece, from, to, 0) == seq![piece[0]] + replaced_from(
                piece,
                from,
                to,
                1,
            ));
            assert(seq![piece[0]] + piece.skip(1) =~= piece);
        }
    }
}

/// A URL between two characters that end one is replaced, and what is around it
/// is replaced as if it stood by itself.
pub proof fn lemma_url_between_boundaries(
    a: Seq<char>,
    c: char,
    url: Seq<char>,
    d: char,
    b: Seq<char>,
    from: Seq<char>,
    to: Seq<char>,
)
    requires
        url_boundary(c),
        url_boundary(d),
        seamless(from),
        forall|i: int| 0 <= i < url.len() ==> !url_boundary(#[trigger] url[i]),
    ensures
        replaced(a.push(c) + (url.push(d) + b), from, to) == replaced(a, from, to).push(c) + ((
        if url == from {
            to
        } else {
            url
        }).push(d) + replaced(b, from, to)),
{
    lemma_replaced_in_parts(a, c, url.push(d) + b, from, to);
    lemma_replaced_in_parts(url, d, b, from, to);
    lemma_piece_is_replaced_whole(url, from, to);
}

/// Rewrites are made one after the other, the first of the list first, each on
/// what the ones before it have left. None at all leaves the text as it is.
pub proof fn lemma_rewrites_in_turn(
    text: Seq<char>,
    list: Seq<(Seq<char>, Seq<char>)>,
    from: Seq<char>,
    to: Seq<char>,
)
    ensures
        rewritten(text, Seq::empty()) == text,
        rewritten(text, list.push((from, to))) == replaced(rewritten(text, list), from, to),
        replaced(text, Seq::empty(), to) == text,
{
    assert(list.push((from, to)).drop_last() =~= list);
    assert(text.skip(0) =~= text);
}

} // verus!
