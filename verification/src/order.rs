//! Dictionary order on sequences, over any strict total order of their items.

use vstd::prelude::*;

use crate::text::to_chars;

verus! {

/// How one value stands to another.
#[derive(Debug, Clone, Copy, PartialEq, Eq, Structural)]
pub enum Order {
    Less,
    Equal,
    Greater,
}

/// `less` is a strict total order.
pub open spec fn strict_total<T>(less: spec_fn(T, T) -> bool) -> bool {
    &&& forall|a: T| !(#[trigger] less(a, a))
    &&& forall|a: T, b: T, c: T| #[trigger] less(a, b) && #[trigger] less(b, c) ==> less(a, c)
    &&& forall|a: T, b: T| #[trigger] less(a, b) || a == b || less(b, a)
}

/// `a` comes before `b` in the dictionary order over `less`: at the first place
/// where they differ `a` has the smaller item, or `a` is a proper prefix of `b`.
pub open spec fn lex_less<T>(less: spec_fn(T, T) -> bool, a: Seq<T>, b: Seq<T>) -> bool
    decreases a.len(),
{
    if b.len() == 0 {
        false
    } else if a.len() == 0 {
        true
    } else if a[0] == b[0] {
        lex_less(less, a.drop_first(), b.drop_first())
    } else {
        less(a[0], b[0])
    }
}

/// The dictionary order over `less`, as a relation.
pub open spec fn lex<T>(less: spec_fn(T, T) -> bool) -> spec_fn(Seq<T>, Seq<T>) -> bool {
    |a: Seq<T>, b: Seq<T>| lex_less(less, a, b)
}

proof fn lemma_lex_irreflexive<T>(less: spec_fn(T, T) -> bool, a: Seq<T>)
    requires
        strict_total(less),
    ensures
        !lex_less(less, a, a),
    decreases a.len(),
{
    if a.len() > 0 {
        lemma_lex_irreflexive(less, a.drop_first());
    }
}

proof fn lemma_lex_transitive<T>(less: spec_fn(T, T) -> bool, a: Seq<T>, b: Seq<T>, c: Seq<T>)
    requires
        strict_total(less),
        lex_less(less, a, b),
        lex_less(less, b, c),
    ensures
        lex_less(less, a, c),
    decreases a.len(),
{
    if a.len() > 0 {
        if a[0] == b[0] && b[0] == c[0] {
            lemma_lex_transitive(less, a.drop_first(), b.drop_first(), c.drop_first());
        } else if a[0] != b[0] && b[0] != c[0] {
            assert(less(a[0], b[0]) && less(b[0], c[0]));
            assert(!less(a[0], a[0]));
        }
    }
}

proof fn lemma_lex_total<T>(less: spec_fn(T, T) -> bool, a: Seq<T>, b: Seq<T>)
    requires
        strict_total(less),
    ensures
        lex_less(less, a, b) || a == b || lex_less(less, b, a),
    decreases a.len(),
{
    if a.len() == 0 {
        assert(b.len() == 0 ==> a =~= b);
    } else if b.len() > 0 {
        if a[0] == b[0] {
            lemma_lex_total(less, a.drop_first(), b.drop_first());
            if a.drop_first() == b.drop_first() {
                assert(a =~= seq![a[0]] + a.drop_first());
                assert(b =~= seq![b[0]] + b.drop_first());
            }
        } else {
            assert(less(a[0], b[0]) || less(b[0], a[0]));
        }
    }
}

/// The dictionary order over a strict total order is a strict total order.
pub proof fn lemma_lex_strict_total<T>(less: spec_fn(T, T) -> bool)
    requires
        strict_total(less),
    ensures
        strict_total(lex(less)),
{
    let r = lex(less);
    assert forall|a: Seq<T>| !(#[trigger] r(a, a)) by {
        lemma_lex_irreflexive(less, a);
    }
    assert forall|a: Seq<T>, b: Seq<T>, c: Seq<T>| #[trigger] r(a, b) && #[trigger] r(b, c) implies r(
        a,
        c,
    ) by {
        lemma_lex_transitive(less, a, b, c);
    }
    assert forall|a: Seq<T>, b: Seq<T>| #[trigger] r(a, b) || a == b || r(b, a) by {
        lemma_lex_total(less, a, b);
    }
}

/// The order of characters by code point.
pub open spec fn char_less() -> spec_fn(char, char) -> bool {
    |a: char, b: char| a < b
}

/// The dictionary order of texts is a strict total order.
pub proof fn lemma_text_order()
    ensures
        strict_total(lex(char_less())),
{
    lemma_lex_strict_total(char_less());
}

/// `o` says how `a` stands to `b` in the order `less`.
pub open spec fn order_of<T>(less: spec_fn(T, T) -> bool, a: T, b: T, o: Order) -> bool {
    match o {
        Order::Less => less(a, b),
        Order::Equal => a == b,
        Order::Greater => less(b, a),
    }
}

/// Puts two texts in dictionary order.
pub fn order_texts(a: &str, b: &str) -> (o: Order)
    ensures
        order_of(lex(char_less()), a@, b@, o),
{
    let x = to_chars(a);
    let y = to_chars(b);
    let mut i: usize = 0;
    assert(x@.skip(0) =~= x@ && y@.skip(0) =~= y@);
    while i < x.len() && i < y.len()
        invariant
            i <= x@.len(),
            i <= y@.len(),
            x@ == a@,
            y@ == b@,
            lex_less(char_less(), a@, b@) == lex_less(char_less(), a@.skip(i as int), b@.skip(i as int)),
            lex_less(char_less(), b@, a@) == lex_less(char_less(), b@.skip(i as int), a@.skip(i as int)),
            a@.take(i as int) == b@.take(i as int),
        decreases x@.len() - i,
    {
        if x[i] != y[i] {
            if x[i] < y[i] {
                return Order::Less;
            } else {
                return Order::Greater;
            }
        }
        assert(a@.skip(i as int).drop_first() =~= a@.skip(i as int + 1));
        assert(b@.skip(i as int).drop_first() =~= b@.skip(i as int + 1));
        assert(a@.take(i as int + 1) =~= a@.take(i as int).push(x@[i as int]));
        assert(b@.take(i as int + 1) =~= b@.take(i as int).push(y@[i as int]));
        i = i + 1;
    }
    if i < y.len() {
        Order::Less
    } else if i < x.len() {
        Order::Greater
    } else {
        assert(a@ =~= a@.take(i as int) && b@ =~= b@.take(i as int));
        Order::Equal
    }
}

} // verus!
