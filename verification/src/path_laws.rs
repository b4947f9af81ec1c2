//! What paths are, how they are put in order and what stays below a directory.

use vstd::prelude::*;

use crate::order::{char_less, lex, lex_less};
use crate::page::{ascending, list_with, list_with_all, page_keys, PageId};
use crate::path::{
    below, body_parts, join_text, joined, lemma_parts_of_join, lemma_parts_of_spelled, net_depth,
    part_less, parts, path_less, pieces, proper_name, spelled, stays_inside, Part,
};

verus! {

proof fn lemma_lex_decides<T>(
    less: spec_fn(T, T) -> bool,
    front: Seq<T>,
    a: T,
    b: T,
    x: Seq<T>,
    y: Seq<T>,
)
    requires
        a != b,
    ensures
        lex_less(less, front.push(a) + x, front.push(b) + y) == less(a, b),
        lex_less(less, front, front.push(a) + x),
        !lex_less(less, front.push(a) + x, front),
    decreases front.len(),
{
    let p = front.push(a) + x;
    let q = front.push(b) + y;
    if front.len() == 0 {
        assert(p[0] == a && q[0] == b);
    } else {
        let rest = front.drop_first();
        assert(p[0] == front[0] && q[0] == front[0]);
        assert(p.drop_first() =~= rest.push(a) + x);
        assert(q.drop_first() =~= rest.push(b) + y);
        lemma_lex_decides(less, rest, a, b, x, y);
    }
}

/// Texts are put in order as in a dictionary: the first character in which they
/// differ decides, by its code point, and a text comes before those that go on
/// from it.
pub proof fn lemma_texts_in_order(
    front: Seq<char>,
    a: char,
    b: char,
    x: Seq<char>,
    y: Seq<char>,
)
    requires
        a != b,
    ensures
        lex(char_less())(front.push(a) + x, front.push(b) + y) <==> (a as int) < (b as int),
        lex(char_less())(front, front.push(a) + x),
        !lex(char_less())(front.push(a) + x, front),
{
    lemma_lex_decides(char_less(), front, a, b, x, y);
}

/// Paths are put in order component by component: the first one in which they
/// differ decides, and a directory comes before what is in it. A root comes
/// before a leading dot, that before a step up, that before every name, and names
/// are in dictionary order.
pub proof fn lemma_paths_in_order(
    front: Seq<Part>,
    a: Part,
    b: Part,
    x: Seq<Part>,
    y: Seq<Part>,
)
    requires
        a != b,
    ensures
        path_less()(front, front.push(a) + x),
        !path_less()(front.push(a) + x, front),
        a is Root ==> path_less()(front.push(a) + x, front.push(b) + y),
        a is Current && !(b is Root) ==> path_less()(front.push(a) + x, front.push(b) + y),
        a is Parent && b is Normal ==> path_less()(front.push(a) + x, front.push(b) + y),
        a is Normal && !(b is Normal) ==> !path_less()(front.push(a) + x, front.push(b) + y),
        a is Normal && b is Normal ==> (path_less()(front.push(a) + x, front.push(b) + y) <==> lex(
            char_less(),
        )(a->Normal_0, b->Normal_0)),
{
    lemma_lex_decides(part_less(), front, a, b, x, y);
}

proof fn lemma_piece(piece: Seq<char>)
    requires
        !piece.contains('/'),
    ensures
        piece.len() == 0 || piece == seq!['.'] ==> body_parts(pieces(piece)).len() == 0,
        piece == seq!['.', '.'] ==> body_parts(pieces(piece)) == seq![Part::Parent],
        proper_name(piece) ==> body_parts(pieces(piece)) == seq![Part::Normal(piece)],
{
    lemma_single(piece);
    reveal_with_fuel(body_parts, 2);
    let list = pieces(piece);
    assert(list.drop_last() =~= Seq::empty());
    assert(body_parts(list) =~= crate::path::piece_parts(piece));
}

proof fn lemma_single(piece: Seq<char>)
    requires
        !piece.contains('/'),
    ensures
        pieces(piece) == seq![piece],
    decreases piece.len(),
{
    if piece.len() > 0 {
        let init = piece.drop_last();
        assert(piece.contains(piece[piece.len() - 1]));
        assert(!init.contains('/')) by {
            if init.contains('/') {
                let i = choose|i: int| 0 <= i < init.len() && init[i] == '/';
                assert(piece[i] == '/');
            }
        }
        lemma_single(init);
        assert(init.push(piece.last()) =~= piece);
        assert(pieces(piece) =~= seq![piece]);
    } else {
        assert(piece =~= Seq::empty());
    }
}

/// What is put behind a separator adds one component: a name itself, two dots a
/// step up. A single dot, or nothing, adds none.
pub proof fn lemma_components(base: Seq<char>, name: Seq<char>)
    requires
        base.len() > 0,
    ensures
        proper_name(name) ==> parts(base.push('/') + name) == parts(base).push(
            Part::Normal(name),
        ),
        parts(base.push('/') + seq!['.', '.']) == parts(base).push(Part::Parent),
        parts(base.push('/') + seq!['.']) == parts(base),
        parts(base.push('/')) == parts(base),
{
    lemma_parts_of_join(base, name);
    lemma_parts_of_join(base, seq!['.', '.']);
    lemma_parts_of_join(base, seq!['.']);
    lemma_parts_of_join(base, Seq::empty());
    assert(base.push('/') + Seq::<char>::empty() =~= base.push('/'));
    if proper_name(name) {
        lemma_piece(name);
        assert(parts(base) + seq![Part::Normal(name)] =~= parts(base).push(Part::Normal(name)));
    }
    assert(!seq!['.', '.'].contains('/'));
    assert(!seq!['.'].contains('/'));
    assert(!Seq::<char>::empty().contains('/'));
    lemma_piece(seq!['.', '.']);
    lemma_piece(seq!['.']);
    lemma_piece(Seq::empty());
    assert(parts(base) + seq![Part::Parent] =~= parts(base).push(Part::Parent));
    assert(parts(base) + body_parts(pieces(seq!['.'])) =~= parts(base));
    assert(parts(base) + body_parts(pieces(Seq::<char>::empty())) =~= parts(base));
}

/// A path that begins with a separator, and no other, has a root in front.
pub proof fn lemma_root_and_name(name: Seq<char>)
    requires
        proper_name(name),
    ensures
        parts(name) == seq![Part::Normal(name)],
        parts(seq!['/'] + name) == seq![Part::Root, Part::Normal(name)],
        parts(seq!['/']) == seq![Part::Root],
        parts(Seq::empty()).len() == 0,
{
    let one = seq![Part::Normal(name)];
    let two = seq![Part::Root, Part::Normal(name)];
    let root = seq![Part::Root];
    reveal_with_fuel(crate::path::joined, 2);
    assert(spelled(one) =~= name);
    lemma_parts_of_spelled(one);
    assert(two.drop_first() =~= one);
    assert(spelled(two) =~= seq!['/'] + name);
    lemma_parts_of_spelled(two);
    assert(root.drop_first() =~= Seq::empty());
    assert(spelled(root) =~= seq!['/']);
    lemma_parts_of_spelled(root);
    let none = Seq::<Part>::empty();
    assert(spelled(none) =~= Seq::<char>::empty());
    lemma_parts_of_spelled(none);
}

/// A path lies below another exactly where it goes on from it, component by
/// component: at least the path itself does, and a name that only begins the same
/// does not.
pub proof fn lemma_what_lies_below(a: Seq<char>, base: Seq<char>, c: Seq<char>)
    ensures
        below(a, base) <==> parts(base).len() <= parts(a).len() && forall|i: int|
            0 <= i < parts(base).len() ==> #[trigger] parts(base)[i] == parts(a)[i],
        below(a, a),
        below(c, a) && below(a, base) ==> below(c, base),
        below(a, base) && below(base, a) ==> parts(a) == parts(base),
{
    let p = parts(a);
    let q = parts(base);
    if below(a, base) {
        assert forall|i: int| 0 <= i < q.len() implies #[trigger] q[i] == p[i] by {
            assert(p.subrange(0, q.len() as int)[i] == p[i]);
        }
    }
    if q.len() <= p.len() && forall|i: int| 0 <= i < q.len() ==> #[trigger] q[i] == p[i] {
        assert(p.subrange(0, q.len() as int) =~= q);
    }
    assert(p.subrange(0, p.len() as int) =~= p);
    if below(c, a) && below(a, base) {
        assert(parts(c).subrange(0, q.len() as int) =~= q) by {
            assert forall|i: int| 0 <= i < q.len() implies parts(c)[i] == q[i] by {
                assert(p.subrange(0, q.len() as int)[i] == q[i]);
                assert(parts(c).subrange(0, p.len() as int)[i] == p[i]);
            }
        }
    }
    if below(a, base) && below(base, a) {
        assert(p =~= q);
    }
}

/// How many names there are among the first `n` components.
pub open spec fn names_among(list: Seq<Part>, n: int) -> nat
    decreases n,
{
    if n <= 0 {
        0
    } else if list[n - 1] is Normal {
        names_among(list, n - 1) + 1
    } else {
        names_among(list, n - 1)
    }
}

/// How many steps up there are among the first `n` components.
pub open spec fn steps_up_among(list: Seq<Part>, n: int) -> nat
    decreases n,
{
    if n <= 0 {
        0
    } else if list[n - 1] is Parent {
        steps_up_among(list, n - 1) + 1
    } else {
        steps_up_among(list, n - 1)
    }
}

proof fn lemma_depth(list: Seq<Part>, n: int)
    requires
        0 <= n <= list.len(),
    ensures
        net_depth(list.take(n)) == names_among(list, n) - steps_up_among(list, n),
    decreases n,
{
    if n > 0 {
        lemma_depth(list, n - 1);
        assert(list.take(n).drop_last() =~= list.take(n - 1));
        assert(list.take(n).last() == list[n - 1]);
    } else {
        assert(list.take(0) =~= Seq::empty());
    }
}

/// A path is one under the dist root exactly where it has no root, and nowhere on
/// the way has taken more steps up than it has passed names.
pub proof fn lemma_what_stays_inside(list: Seq<Part>)
    ensures
        stays_inside(list) <==> !(list.len() > 0 && list[0] is Root) && forall|n: int|
            0 <= n <= list.len() ==> #[trigger] steps_up_among(list, n) <= names_among(list, n),
{
    assert forall|n: int| 0 <= n <= list.len() implies (net_depth(#[trigger] list.take(n)) >= 0
        <==> steps_up_among(list, n) <= names_among(list, n)) by {
        lemma_depth(list, n);
    }
    if stays_inside(list) {
        assert forall|n: int| 0 <= n <= list.len() implies #[trigger] steps_up_among(list, n)
            <= names_among(list, n) by {
            assert(net_depth(list.take(n)) >= 0);
        }
    }
    if forall|n: int|
        0 <= n <= list.len() ==> #[trigger] steps_up_among(list, n) <= names_among(list, n) {
        assert forall|k: int| 0 <= k <= list.len() implies net_depth(#[trigger] list.take(k))
            >= 0 by {
            assert(steps_up_among(list, k) <= names_among(list, k));
        }
    }
}

/// Joining keeps both paths: what is absolute stays as it is, and what is relative
/// stands behind the base with one separator between them.
pub proof fn lemma_joining(base: Seq<char>, rel: Seq<char>)
    ensures
        rel.len() > 0 && rel[0] == '/' ==> join_text(base, rel) == rel,
        !(rel.len() > 0 && rel[0] == '/') && base.len() == 0 ==> join_text(base, rel) == rel,
        !(rel.len() > 0 && rel[0] == '/') && base.len() > 0 && base.last() == '/' ==> join_text(
            base,
            rel,
        ) == base + rel,
        !(rel.len() > 0 && rel[0] == '/') && base.len() > 0 && base.last() != '/' ==> join_text(
            base,
            rel,
        ) == base + seq!['/'] + rel,
{
    assert(base.len() == 0 ==> base + rel =~= rel);
    assert(base.push('/') + rel =~= base + seq!['/'] + rel);
}

/// A page that is new to a list comes into it; one that is there already, however
/// it is spelled, leaves it as it is. No page is lost.
pub proof fn lemma_list_with(list: Seq<PageId>, page: PageId)
    ensures
        forall|i: int| 0 <= i < list.len() ==> list_with(list, page).contains(#[trigger] list[i]),
        ascending(page_keys(list)) && (forall|i: int|
            0 <= i < list.len() ==> (#[trigger] list[i]).key() != page.key()) ==> list_with(
            list,
            page,
        ).contains(page) && list_with(list, page).len() == list.len() + 1,
        ascending(page_keys(list)) && (exists|i: int|
            0 <= i < list.len() && (#[trigger] list[i]).key() == page.key()) ==> list_with(
            list,
            page,
        ) == list,
    decreases list.len(),
{
    let all = list_with(list, page);
    if list.len() > 0 {
        let init = list.drop_last();
        let last = list.last();
        let n = list.len() - 1;
        lemma_list_with(init, page);
        assert(list[n] == last);
        if last.key() == page.key() {
            assert forall|i: int| 0 <= i < list.len() implies all.contains(#[trigger] list[i]) by {
                assert(all[i] == list[i]);
            }
        } else if path_less()(last.key(), page.key()) {
            assert forall|i: int| 0 <= i < list.len() implies all.contains(#[trigger] list[i]) by {
                assert(all[i] == list[i]);
            }
            assert(all[list.len() as int] == page);
            if ascending(page_keys(list)) && exists|i: int|
                0 <= i < list.len() && (#[trigger] list[i]).key() == page.key() {
                let i = choose|i: int|
                    0 <= i < list.len() && (#[trigger] list[i]).key() == page.key();
                crate::path::lemma_path_order();
                let keys = page_keys(list);
                assert(path_less()(keys[i], keys[n]));
                assert(path_less()(page.key(), last.key()) && path_less()(last.key(), page.key()));
                assert(!path_less()(page.key(), page.key()));
            }
        } else {
            let before = list_with(init, page);
            assert(all == before.push(last));
            assert forall|i: int| 0 <= i < list.len() implies all.contains(#[trigger] list[i]) by {
                if i < n {
                    assert(init[i] == list[i]);
                    let k = choose|k: int| 0 <= k < before.len() && before[k] == init[i];
                    assert(all[k] == list[i]);
                } else {
                    assert(all[before.len() as int] == last);
                }
            }
            if ascending(page_keys(list)) {
                assert(ascending(page_keys(init))) by {
                    assert forall|i: int, j: int| 0 <= i < j < init.len() implies path_less()(
                        #[trigger] page_keys(init)[i],
                        #[trigger] page_keys(init)[j],
                    ) by {
                        assert(page_keys(init)[i] == page_keys(list)[i]);
                        assert(page_keys(init)[j] == page_keys(list)[j]);
                    }
                }
                if forall|i: int|
                    0 <= i < list.len() ==> (#[trigger] list[i]).key() != page.key() {
                    assert forall|i: int| 0 <= i < init.len() implies (#[trigger] init[i]).key()
                        != page.key() by {
                        assert(init[i] == list[i]);
                    }
                    let k = choose|k: int| 0 <= k < before.len() && before[k] == page;
                    assert(all[k] == page);
                }
                if exists|i: int|
                    0 <= i < list.len() && (#[trigger] list[i]).key() == page.key() {
                    let i = choose|i: int|
                        0 <= i < list.len() && (#[trigger] list[i]).key() == page.key();
                    assert(init[i].key() == page.key());
                    assert(all =~= list);
                }
            }
        }
    } else {
        assert(all[0] == page);
    }
}

/// A name behind others is written behind them, with one `/` in between. A name
/// alone is written as it is.
pub proof fn lemma_written_with_separators(list: Seq<Part>, name: Seq<char>)
    ensures
        joined(Seq::empty()).len() == 0,
        joined(seq![Part::Normal(name)]) == name,
        list.len() > 0 ==> joined(list.push(Part::Normal(name))) == joined(list) + seq!['/']
            + name,
{
    let longer = list.push(Part::Normal(name));
    assert(longer.drop_last() =~= list);
    if list.len() > 0 {
        assert(joined(longer) =~= joined(list) + seq!['/'] + name);
    }
}

/// More pages come into a list one after the other. What is listed already stays,
/// as it is spelled.
pub proof fn lemma_list_with_all(list: Seq<PageId>, more: Seq<PageId>, page: PageId)
    ensures
        list_with_all(list, Seq::empty()) == list,
        list_with_all(list, more.push(page)) == list_with(list_with_all(list, more), page),
        forall|i: int|
            0 <= i < list.len() ==> list_with_all(list, more).contains(#[trigger] list[i]),
    decreases more.len(),
{
    assert(more.push(page).drop_last() =~= more);
    if more.len() == 0 {
        assert forall|i: int| 0 <= i < list.len() implies list_with_all(list, more).contains(
            #[trigger] list[i],
        ) by {
            assert(list_with_all(list, more)[i] == list[i]);
        }
    } else {
        let before = list_with_all(list, more.drop_last());
        lemma_list_with_all(list, more.drop_last(), page);
        lemma_list_with(before, more.last());
        assert forall|i: int| 0 <= i < list.len() implies list_with_all(list, more).contains(
            #[trigger] list[i],
        ) by {
            let k = choose|k: int| 0 <= k < before.len() && before[k] == list[i];
            assert(list_with_all(list, more).contains(before[k]));
        }
    }
}

} // verus!
