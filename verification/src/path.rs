//! Slash-separated paths, compared and taken apart by their components.
//!
//! A path is a text. What it names is its sequence of [`Part`]s: repeated
//! separators, trailing separators and `.` anywhere but in front make no
//! difference, so two spellings with the same parts are the same path.

use vstd::prelude::*;

use crate::order::{
    char_less, lemma_lex_strict_total, lemma_text_order, lex, lex_less, order_of, order_texts,
    strict_total, Order,
};
use crate::text::{copy_str, from_chars, to_chars};

verus! {

/// One component of a path, for specifications.
pub enum Part {
    /// The leading `/`.
    Root,
    /// A leading `.`.
    Current,
    /// `..`
    Parent,
    /// A name.
    Normal(Seq<char>),
}

/// One component of a path.
#[derive(Debug)]
pub enum PathPart {
    /// The leading `/`.
    Root,
    /// A leading `.`.
    Current,
    /// `..`
    Parent,
    /// A name.
    Normal(String),
}

impl View for PathPart {
    type V = Part;

    open spec fn view(&self) -> Part {
        match self {
            PathPart::Root => Part::Root,
            PathPart::Current => Part::Current,
            PathPart::Parent => Part::Parent,
            PathPart::Normal(name) => Part::Normal(name@),
        }
    }
}

/// The parts that a list of components stands for.
pub open spec fn parts_view(list: Seq<PathPart>) -> Seq<Part> {
    list.map_values(|p: PathPart| p@)
}

/// The pieces between the separators of `s`: one more than there are separators.
pub open spec fn pieces(s: Seq<char>) -> Seq<Seq<char>>
    decreases s.len(),
{
    if s.len() == 0 {
        seq![Seq::empty()]
    } else {
        let before = pieces(s.drop_last());
        if s.last() == '/' {
            before.push(Seq::empty())
        } else {
            before.drop_last().push(before.last().push(s.last()))
        }
    }
}

/// What one piece adds to a path: nothing where it is empty or `.`.
pub open spec fn piece_parts(piece: Seq<char>) -> Seq<Part> {
    if piece.len() == 0 || piece == seq!['.'] {
        Seq::empty()
    } else if piece == seq!['.', '.'] {
        seq![Part::Parent]
    } else {
        seq![Part::Normal(piece)]
    }
}

/// What the pieces add to a path, in order.
pub open spec fn body_parts(list: Seq<Seq<char>>) -> Seq<Part>
    decreases list.len(),
{
    if list.len() == 0 {
        Seq::empty()
    } else {
        body_parts(list.drop_last()) + piece_parts(list.last())
    }
}

/// `s` begins with a separator.
pub open spec fn absolute(s: Seq<char>) -> bool {
    s.len() > 0 && s[0] == '/'
}

/// What stands in front of the pieces: a root, or a leading `.`.
pub open spec fn lead_parts(s: Seq<char>) -> Seq<Part> {
    if absolute(s) {
        seq![Part::Root]
    } else if s.len() > 0 && s[0] == '.' && (s.len() == 1 || s[1] == '/') {
        seq![Part::Current]
    } else {
        Seq::empty()
    }
}

/// The components of the path that `s` spells.
pub open spec fn parts(s: Seq<char>) -> Seq<Part> {
    lead_parts(s) + body_parts(pieces(s))
}

/// A name that a component can have.
pub open spec fn proper_name(name: Seq<char>) -> bool {
    &&& name.len() > 0
    &&& name != seq!['.']
    &&& name != seq!['.', '.']
    &&& !name.contains('/')
}

/// `list` is the sequence of components of some path.
pub open spec fn well_formed(list: Seq<Part>) -> bool {
    forall|i: int|
        0 <= i < list.len() ==> match #[trigger] list[i] {
            Part::Root => i == 0,
            Part::Current => i == 0,
            Part::Parent => true,
            Part::Normal(name) => proper_name(name),
        }
}

/// How one component is written.
pub open spec fn part_text(part: Part) -> Seq<char> {
    match part {
        Part::Root => seq!['/'],
        Part::Current => seq!['.'],
        Part::Parent => seq!['.', '.'],
        Part::Normal(name) => name,
    }
}

/// The components written one after the other, with `/` between them.
pub open spec fn joined(list: Seq<Part>) -> Seq<char>
    decreases list.len(),
{
    if list.len() == 0 {
        Seq::empty()
    } else if list.len() == 1 {
        part_text(list[0])
    } else {
        joined(list.drop_last()).push('/') + part_text(list.last())
    }
}

/// The shortest spelling of the path with the components `list`.
pub open spec fn spelled(list: Seq<Part>) -> Seq<char> {
    if list.len() > 0 && list[0] == Part::Root {
        seq!['/'] + joined(list.drop_first())
    } else {
        joined(list)
    }
}

proof fn lemma_pieces_nonempty(s: Seq<char>)
    ensures
        pieces(s).len() > 0,
    decreases s.len(),
{
    if s.len() > 0 {
        lemma_pieces_nonempty(s.drop_last());
    }
}

proof fn lemma_pieces_have_no_separator(s: Seq<char>)
    ensures
        forall|i: int| 0 <= i < pieces(s).len() ==> !(#[trigger] pieces(s)[i]).contains('/'),
    decreases s.len(),
{
    if s.len() > 0 {
        let before = pieces(s.drop_last());
        lemma_pieces_nonempty(s.drop_last());
        lemma_pieces_have_no_separator(s.drop_last());
        if s.last() != '/' {
            let last = before.last().push(s.last());
            assert(!last.contains('/')) by {
                if last.contains('/') {
                    let k = choose|k: int| 0 <= k < last.len() && last[k] == '/';
                    assert(before[before.len() - 1].contains('/')) by {
                        assert(before.last()[k] == '/');
                    }
                }
            }
        }
    }
}

proof fn lemma_pieces_of_name(s: Seq<char>)
    requires
        !s.contains('/'),
    ensures
        pieces(s) == seq![s],
    decreases s.len(),
{
    if s.len() == 0 {
        assert(s =~= Seq::empty());
    } else {
        assert(s.last() != '/') by {
            assert(s[s.len() - 1] != '/');
        }
        assert(!s.drop_last().contains('/')) by {
            if s.drop_last().contains('/') {
                let k = choose|k: int| 0 <= k < s.drop_last().len() && s.drop_last()[k] == '/';
                assert(s[k] == '/');
            }
        }
        lemma_pieces_of_name(s.drop_last());
        assert(s.drop_last().push(s.last()) =~= s);
        assert(pieces(s) =~= seq![s]);
    }
}

proof fn lemma_pieces_concat(a: Seq<char>, b: Seq<char>)
    ensures
        pieces(a.push('/') + b) == pieces(a) + pieces(b),
    decreases b.len(),
{
    lemma_pieces_nonempty(a);
    lemma_pieces_nonempty(b);
    let whole = a.push('/') + b;
    if b.len() == 0 {
        assert(whole =~= a.push('/'));
        assert(a.push('/').drop_last() =~= a);
        assert(pieces(whole) =~= pieces(a) + pieces(b));
    } else {
        assert(whole.drop_last() =~= a.push('/') + b.drop_last());
        assert(whole.last() == b.last());
        lemma_pieces_concat(a, b.drop_last());
        lemma_pieces_nonempty(b.drop_last());
        let before = pieces(a) + pieces(b.drop_last());
        assert(before.last() == pieces(b.drop_last()).last());
        assert(before.drop_last() =~= pieces(a) + pieces(b.drop_last()).drop_last());
        assert(pieces(whole) =~= pieces(a) + pieces(b));
    }
}

proof fn lemma_body_parts_concat(a: Seq<Seq<char>>, b: Seq<Seq<char>>)
    ensures
        body_parts(a + b) == body_parts(a) + body_parts(b),
    decreases b.len(),
{
    if b.len() == 0 {
        assert(a + b =~= a);
        assert(body_parts(a + b) =~= body_parts(a) + body_parts(b));
    } else {
        assert((a + b).drop_last() =~= a + b.drop_last());
        lemma_body_parts_concat(a, b.drop_last());
        assert(body_parts(a + b) =~= body_parts(a) + body_parts(b));
    }
}

proof fn lemma_body_parts_proper(list: Seq<Seq<char>>)
    requires
        forall|i: int| 0 <= i < list.len() ==> !(#[trigger] list[i]).contains('/'),
    ensures
        forall|i: int|
            0 <= i < body_parts(list).len() ==> match #[trigger] body_parts(list)[i] {
                Part::Parent => true,
                Part::Normal(name) => proper_name(name),
                _ => false,
            },
    decreases list.len(),
{
    if list.len() > 0 {
        lemma_body_parts_proper(list.drop_last());
    }
}

/// The components of a text are the components of a path: a root or a leading
/// `.` stands only in front, and every name is a proper one.
pub proof fn lemma_parts_well_formed(s: Seq<char>)
    ensures
        well_formed(parts(s)),
{
    lemma_pieces_have_no_separator(s);
    lemma_body_parts_proper(pieces(s));
}

/// Joining a relative path onto a path with a separator appends its components.
pub proof fn lemma_parts_of_join(base: Seq<char>, rel: Seq<char>)
    requires
        base.len() > 0,
    ensures
        parts(base.push('/') + rel) == parts(base) + body_parts(pieces(rel)),
{
    let whole = base.push('/') + rel;
    lemma_pieces_concat(base, rel);
    lemma_body_parts_concat(pieces(base), pieces(rel));
    assert(whole[0] == base[0]);
    assert(whole.len() > 1);
    if base.len() == 1 {
        assert(whole[1] == '/');
    } else {
        assert(whole[1] == base[1]);
    }
    assert(lead_parts(whole) == lead_parts(base));
    assert(parts(whole) =~= parts(base) + body_parts(pieces(rel)));
}

proof fn lemma_piece_of_part(part: Part)
    requires
        part == Part::Parent || (part is Normal && proper_name(part->Normal_0)),
    ensures
        body_parts(pieces(part_text(part))) == seq![part],
        !part_text(part).contains('/'),
        part_text(part).len() > 0,
{
    let text = part_text(part);
    assert(!text.contains('/')) by {
        if part == Part::Parent {
            if text.contains('/') {
                let k = choose|k: int| 0 <= k < text.len() && text[k] == '/';
                assert(text[k] == '.');
            }
        }
    }
    lemma_pieces_of_name(text);
    let one = seq![text];
    assert(one.drop_last() =~= Seq::empty());
    assert(one.last() == text);
    assert(body_parts(one.drop_last()) =~= Seq::<Part>::empty());
    assert(seq!['.', '.'] != seq!['.']) by {
        assert(seq!['.', '.'].len() != seq!['.'].len());
    }
    assert(body_parts(one) =~= seq![part]);
}

proof fn lemma_joined(list: Seq<Part>)
    requires
        list.len() > 0,
        well_formed(list),
        list[0] != Part::Root,
    ensures
        joined(list).len() > 0,
        parts(joined(list)) == list,
        !absolute(joined(list)),
    decreases list.len(),
{
    if list.len() == 1 {
        let part = list[0];
        let text = part_text(part);
        if part == Part::Current {
            assert(!text.contains('/')) by {
                if text.contains('/') {
                    let k = choose|k: int| 0 <= k < text.len() && text[k] == '/';
                    assert(text[k] == '.');
                }
            }
            lemma_pieces_of_name(text);
            let one = seq![text];
            assert(one.drop_last() =~= Seq::empty());
            assert(one.last() == text);
            assert(body_parts(one.drop_last()) =~= Seq::<Part>::empty());
            assert(body_parts(one) =~= Seq::<Part>::empty());
            assert(parts(text) =~= list);
        } else {
            lemma_piece_of_part(part);
            assert(text[0] != '/') by {
                assert(text.contains(text[0]));
            }
            assert(lead_parts(text) =~= Seq::<Part>::empty()) by {
                if text.len() == 1 && text[0] == '.' {
                    assert(text =~= seq!['.']);
                    assert(part is Normal);
                }
                if text.len() > 1 {
                    assert(text.contains(text[1]));
                }
            }
            assert(parts(text) =~= list);
        }
    } else {
        let head = list.drop_last();
        assert(well_formed(head)) by {
            assert forall|i: int| 0 <= i < head.len() implies match #[trigger] head[i] {
                Part::Root => i == 0,
                Part::Current => i == 0,
                Part::Parent => true,
                Part::Normal(name) => proper_name(name),
            } by {
                assert(head[i] == list[i]);
            }
        }
        lemma_joined(head);
        let last = list.last();
        assert(last == list[list.len() - 1]);
        lemma_piece_of_part(last);
        lemma_parts_of_join(joined(head), part_text(last));
        assert(joined(list)[0] == joined(head)[0]);
        assert(parts(joined(list)) =~= list);
    }
}

/// Spelling out the components of a path and taking the text apart again gives
/// the same components.
pub proof fn lemma_parts_of_spelled(list: Seq<Part>)
    requires
        well_formed(list),
    ensures
        parts(spelled(list)) == list,
{
    reveal_with_fuel(pieces, 2);
    reveal_with_fuel(body_parts, 3);
    if list.len() == 0 {
        assert(spelled(list) =~= Seq::empty());
        assert(parts(spelled(list)) =~= list);
    } else if list[0] == Part::Root {
        let rest = list.drop_first();
        let text = spelled(list);
        assert forall|i: int| 0 <= i < rest.len() implies match #[trigger] rest[i] {
            Part::Parent => true,
            Part::Normal(name) => proper_name(name),
            _ => false,
        } by {
            assert(rest[i] == list[i + 1]);
        }
        let empty = Seq::<char>::empty();
        assert(text =~= empty.push('/') + joined(rest));
        lemma_pieces_concat(empty, joined(rest));
        lemma_body_parts_concat(pieces(empty), pieces(joined(rest)));
        assert(body_parts(pieces(empty)) =~= Seq::<Part>::empty());
        if rest.len() == 0 {
            assert(joined(rest) =~= empty);
            assert(parts(text) =~= list);
        } else {
            assert(rest[0] is Parent || rest[0] is Normal);
            lemma_joined(rest);
            assert(lead_parts(joined(rest)) =~= Seq::<Part>::empty()) by {
                if lead_parts(joined(rest)).len() > 0 {
                    assert(parts(joined(rest))[0] is Current);
                }
            }
            assert(parts(joined(rest)) =~= body_parts(pieces(joined(rest))));
            assert(parts(text) =~= list);
        }
    } else {
        lemma_joined(list);
    }
}

fn push_piece(out: &mut Vec<PathPart>, chars: &[char], from: usize, to: usize)
    requires
        from <= to <= chars@.len(),
    ensures
        parts_view(final(out)@) == parts_view(old(out)@) + piece_parts(
            chars@.subrange(from as int, to as int),
        ),
{
    let ghost piece = chars@.subrange(from as int, to as int);
    let ghost before = out@;
    if from == to {
        assert(piece.len() == 0);
        assert(parts_view(out@) =~= parts_view(before) + piece_parts(piece));
        return;
    }
    if to - from == 1 && chars[from] == '.' {
        assert(piece =~= seq!['.']);
        assert(parts_view(out@) =~= parts_view(before) + piece_parts(piece));
        return;
    }
    if to - from == 2 && chars[from] == '.' && chars[from + 1] == '.' {
        assert(piece =~= seq!['.', '.']);
        out.push(PathPart::Parent);
        assert(parts_view(out@) =~= parts_view(before) + piece_parts(piece));
        return;
    }
    assert(piece[0] == chars@[from as int]);
    assert(to - from == 2 ==> piece[1] == chars@[from + 1]);
    assert(seq!['.'].len() == 1 && seq!['.'][0] == '.');
    assert(seq!['.', '.'].len() == 2 && seq!['.', '.'][0] == '.' && seq!['.', '.'][1] == '.');
    out.push(PathPart::Normal(from_chars(chars, from, to)));
    assert(parts_view(out@) =~= parts_view(before) + piece_parts(piece));
}

/// The components of the path that `path` spells.
pub fn parts_of(path: &str) -> (out: Vec<PathPart>)
    ensures
        parts_view(out@) == parts(path@),
{
    let chars = to_chars(path);
    let mut out: Vec<PathPart> = Vec::new();
    let n: usize = chars.len();
    if n > 0 && chars[0] == '/' {
        out.push(PathPart::Root);
    } else if n > 0 && chars[0] == '.' && (n == 1 || chars[1] == '/') {
        out.push(PathPart::Current);
    }
    assert(parts_view(out@) =~= lead_parts(path@));
    let mut start: usize = 0;
    let mut i: usize = 0;
    assert(chars@.take(0) =~= Seq::empty());
    assert(pieces(chars@.take(0)).drop_last() =~= Seq::empty());
    assert(chars@.subrange(0, 0) =~= Seq::empty());
    assert(parts_view(out@) =~= lead_parts(path@) + body_parts(pieces(chars@.take(0)).drop_last()));
    while i < n
        invariant
            start <= i <= n,
            n == chars@.len(),
            chars@ == path@,
            pieces(chars@.take(i as int)).len() > 0,
            pieces(chars@.take(i as int)).last() == chars@.subrange(start as int, i as int),
            parts_view(out@) == lead_parts(path@) + body_parts(
                pieces(chars@.take(i as int)).drop_last(),
            ),
        decreases n - i,
    {
        let ghost before = pieces(chars@.take(i as int));
        let ghost next = chars@.take(i as int + 1);
        assert(next.drop_last() =~= chars@.take(i as int));
        assert(next.last() == chars@[i as int]);
        if chars[i] == '/' {
            push_piece(&mut out, chars.as_slice(), start, i);
            start = i + 1;
            assert(pieces(next) == before.push(Seq::empty()));
            assert(pieces(next).drop_last() =~= before);
            assert(body_parts(before) == body_parts(before.drop_last()) + piece_parts(before.last()));
            assert(chars@.subrange(start as int, i as int + 1) =~= Seq::empty());
            assert(parts_view(out@) =~= lead_parts(path@) + body_parts(pieces(next).drop_last()));
        } else {
            assert(pieces(next).drop_last() =~= before.drop_last());
            assert(chars@.subrange(start as int, i as int + 1) =~= chars@.subrange(
                start as int,
                i as int,
            ).push(chars@[i as int]));
        }
        i = i + 1;
    }
    push_piece(&mut out, chars.as_slice(), start, n);
    assert(chars@.take(n as int) =~= chars@);
    assert(parts_view(out@) =~= parts(path@));
    out
}

/// Where a component stands among the kinds of components.
pub open spec fn part_rank(part: Part) -> int {
    match part {
        Part::Root => 0,
        Part::Current => 1,
        Part::Parent => 2,
        Part::Normal(_) => 3,
    }
}

/// The order of components: roots, leading `.`, `..`, and names by their text.
pub open spec fn part_less() -> spec_fn(Part, Part) -> bool {
    |a: Part, b: Part|
        match (a, b) {
            (Part::Normal(x), Part::Normal(y)) => lex(char_less())(x, y),
            _ => part_rank(a) < part_rank(b),
        }
}

/// The order of paths, component by component.
pub open spec fn path_less() -> spec_fn(Seq<Part>, Seq<Part>) -> bool {
    lex(part_less())
}

/// The order of paths is a strict total order.
pub proof fn lemma_path_order()
    ensures
        strict_total(path_less()),
{
    lemma_text_order();
    let t = lex(char_less());
    let less = part_less();
    assert forall|a: Part| !(#[trigger] less(a, a)) by {
        if let Part::Normal(x) = a {
            assert(!t(x, x));
        }
    }
    assert forall|a: Part, b: Part, c: Part| #[trigger] less(a, b) && #[trigger] less(b, c) implies less(
        a,
        c,
    ) by {
        match (a, b, c) {
            (Part::Normal(x), Part::Normal(y), Part::Normal(z)) => {
                assert(t(x, y) && t(y, z));
            },
            _ => {},
        }
    }
    assert forall|a: Part, b: Part| #[trigger] less(a, b) || a == b || less(b, a) by {
        match (a, b) {
            (Part::Normal(x), Part::Normal(y)) => {
                assert(t(x, y) || x == y || t(y, x));
            },
            _ => {},
        }
    }
    lemma_lex_strict_total(less);
}

fn rank_of(part: &PathPart) -> (r: u8)
    ensures
        r == part_rank(part@),
{
    match part {
        PathPart::Root => 0,
        PathPart::Current => 1,
        PathPart::Parent => 2,
        PathPart::Normal(_) => 3,
    }
}

fn order_parts(a: &PathPart, b: &PathPart) -> (o: Order)
    ensures
        order_of(part_less(), a@, b@, o),
{
    if let PathPart::Normal(x) = a {
        if let PathPart::Normal(y) = b {
            return order_texts(x.as_str(), y.as_str());
        }
    }
    let p: u8 = rank_of(a);
    let q: u8 = rank_of(b);
    if p < q {
        Order::Less
    } else if q < p {
        Order::Greater
    } else {
        Order::Equal
    }
}

/// Puts two paths in order.
pub fn order_paths(a: &str, b: &str) -> (o: Order)
    ensures
        order_of(path_less(), parts(a@), parts(b@), o),
{
    let x = parts_of(a);
    let y = parts_of(b);
    let ghost p = parts(a@);
    let ghost q = parts(b@);
    let mut i: usize = 0;
    assert(p.skip(0) =~= p && q.skip(0) =~= q);
    while i < x.len() && i < y.len()
        invariant
            i <= x@.len(),
            i <= y@.len(),
            parts_view(x@) == p,
            parts_view(y@) == q,
            p == parts(a@),
            q == parts(b@),
            lex_less(part_less(), p, q) == lex_less(part_less(), p.skip(i as int), q.skip(i as int)),
            lex_less(part_less(), q, p) == lex_less(part_less(), q.skip(i as int), p.skip(i as int)),
            p.take(i as int) == q.take(i as int),
        decreases x@.len() - i,
    {
        assert(p[i as int] == x@[i as int]@);
        assert(q[i as int] == y@[i as int]@);
        match order_parts(&x[i], &y[i]) {
            Order::Less => {
                proof {
                    lemma_part_irreflexive(p[i as int]);
                }
                return Order::Less;
            },
            Order::Greater => {
                proof {
                    lemma_part_irreflexive(p[i as int]);
                }
                return Order::Greater;
            },
            Order::Equal => {},
        }
        assert(p.skip(i as int).drop_first() =~= p.skip(i as int + 1));
        assert(q.skip(i as int).drop_first() =~= q.skip(i as int + 1));
        assert(p.take(i as int + 1) =~= p.take(i as int).push(p[i as int]));
        assert(q.take(i as int + 1) =~= q.take(i as int).push(q[i as int]));
        i = i + 1;
    }
    assert(p.len() == x@.len() && q.len() == y@.len());
    if i < y.len() {
        Order::Less
    } else if i < x.len() {
        Order::Greater
    } else {
        assert(p =~= p.take(i as int) && q =~= q.take(i as int));
        Order::Equal
    }
}

proof fn lemma_part_irreflexive(a: Part)
    ensures
        !part_less()(a, a),
{
    lemma_text_order();
    if let Part::Normal(x) = a {
        assert(!lex(char_less())(x, x));
    }
}

/// `a` and `b` spell the same path.
pub open spec fn same_parts(a: Seq<char>, b: Seq<char>) -> bool {
    parts(a) == parts(b)
}

/// Whether `a` and `b` spell the same path.
pub fn same_path(a: &str, b: &str) -> (r: bool)
    ensures
        r == same_parts(a@, b@),
{
    proof {
        lemma_path_order();
    }
    match order_paths(a, b) {
        Order::Equal => true,
        _ => {
            assert(!path_less()(parts(a@), parts(a@)));
            false
        },
    }
}

/// The path `a` lies at or below the path `base`.
pub open spec fn below(a: Seq<char>, base: Seq<char>) -> bool {
    parts(base).is_prefix_of(parts(a))
}

/// Whether the path `a` lies at or below the path `base`.
pub fn path_starts_with(a: &str, base: &str) -> (r: bool)
    ensures
        r == below(a@, base@),
{
    let x = parts_of(a);
    let y = parts_of(base);
    let ghost p = parts(a@);
    let ghost q = parts(base@);
    assert(p.len() == x@.len() && q.len() == y@.len());
    if y.len() > x.len() {
        return false;
    }
    let mut i: usize = 0;
    while i < y.len()
        invariant
            i <= y@.len() <= x@.len(),
            parts_view(x@) == p,
            parts_view(y@) == q,
            p == parts(a@),
            q == parts(base@),
            p.len() == x@.len(),
            q.len() == y@.len(),
            forall|k: int| 0 <= k < i ==> p[k] == #[trigger] q[k],
        decreases y@.len() - i,
    {
        assert(p[i as int] == x@[i as int]@);
        assert(q[i as int] == y@[i as int]@);
        match order_parts(&x[i], &y[i]) {
            Order::Equal => {},
            _ => {
                proof {
                    lemma_part_irreflexive(p[i as int]);
                }
                assert(p.subrange(0, q.len() as int)[i as int] != q[i as int]);
                return false;
            },
        }
        i = i + 1;
    }
    assert(p.subrange(0, q.len() as int) =~= q);
    true
}

/// The last component of `list`, where it is a name.
pub open spec fn name_of(list: Seq<Part>) -> Option<Seq<char>> {
    if list.len() > 0 {
        match list.last() {
            Part::Normal(name) => Some(name),
            _ => None,
        }
    } else {
        None
    }
}

/// The name of the file that `path` spells, where its last component is a name.
pub fn file_name(path: &str) -> (r: Option<String>)
    ensures
        match r {
            Some(name) => name_of(parts(path@)) == Some(name@),
            None => name_of(parts(path@)) is None,
        },
{
    let mut list = parts_of(path);
    let ghost all = list@;
    assert(parts_view(all).len() == all.len());
    match list.pop() {
        Some(PathPart::Normal(name)) => {
            assert(parts_view(all).last() == all.last()@);
            Some(name)
        },
        Some(_) => {
            assert(parts_view(all).last() == all.last()@);
            None
        },
        None => None,
    }
}

/// The components of the directory that a path is in. Neither an empty path nor
/// a root is in one.
pub open spec fn parent_parts(list: Seq<Part>) -> Seq<Part> {
    if list.len() > 0 && list.last() != Part::Root {
        list.drop_last()
    } else {
        Seq::empty()
    }
}

/// Where the shortest beginning of `s` ends that has at least `n` characters and
/// spells the components `list`; all of `s`, where none does.
pub open spec fn shortest_spelling(s: Seq<char>, list: Seq<Part>, n: int) -> int
    decreases s.len() - n,
{
    if n >= s.len() || parts(s.take(n)) == list {
        n
    } else {
        shortest_spelling(s, list, n + 1)
    }
}

/// The directory that a path is in, as the path spells it: the text in front of
/// the last component, without the separators that follow the directory.
pub open spec fn parent_text(s: Seq<char>) -> Seq<char> {
    s.take(shortest_spelling(s, parent_parts(parts(s)), 0))
}

proof fn lemma_shortest_spelling(s: Seq<char>, list: Seq<Part>, n: int, m: int)
    requires
        0 <= n <= m <= s.len(),
        parts(s.take(m)) == list,
    ensures
        n <= shortest_spelling(s, list, n) <= m,
        parts(s.take(shortest_spelling(s, list, n))) == list,
    decreases m - n,
{
    if n < m && parts(s.take(n)) != list {
        lemma_shortest_spelling(s, list, n + 1, m);
    }
}

/// The part of `s` behind its last separator, and where it starts.
proof fn lemma_last_separator(s: Seq<char>) -> (j: int)
    requires
        s.contains('/'),
    ensures
        0 <= j < s.len(),
        s[j] == '/',
        !s.skip(j + 1).contains('/'),
        s == s.take(j).push('/') + s.skip(j + 1),
    decreases s.len(),
{
    if s.last() == '/' {
        let j = s.len() - 1;
        assert(s =~= s.take(j).push('/') + s.skip(j + 1));
        j
    } else {
        let init = s.drop_last();
        assert(init.contains('/')) by {
            let i = s.index_of('/');
            assert(init[i] == '/');
        }
        let j = lemma_last_separator(init);
        assert(s.skip(j + 1) =~= init.skip(j + 1).push(s.last()));
        assert forall|i: int| 0 <= i < s.skip(j + 1).len() implies #[trigger] s.skip(j + 1)[i]
            != '/' by {
            if i < init.skip(j + 1).len() {
                assert(init.skip(j + 1).contains(init.skip(j + 1)[i]));
            }
        }
        assert(s =~= s.take(j).push('/') + s.skip(j + 1));
        j
    }
}

/// Some beginning of a path spells the directory that it is in.
proof fn lemma_parent_is_spelled(s: Seq<char>) -> (n: int)
    ensures
        0 <= n <= s.len(),
        parts(s.take(n)) == parent_parts(parts(s)),
    decreases s.len(),
{
    assert(s.take(0) =~= Seq::empty());
    assert(parts(Seq::<char>::empty()) =~= Seq::empty()) by {
        reveal_with_fuel(body_parts, 2);
    }
    if !s.contains('/') {
        lemma_pieces_of_name(s);
        reveal_with_fuel(body_parts, 2);
        assert(body_parts(pieces(s)) =~= piece_parts(s));
        if s.len() > 0 {
            assert(s.contains(s[0]));
            if s.len() > 1 {
                assert(s.contains(s[1]));
            } else {
                assert(s =~= seq![s[0]]);
            }
        }
        assert(parent_parts(parts(s)) =~= Seq::empty());
        0
    } else {
        let j = lemma_last_separator(s);
        let front = s.take(j);
        let last = s.skip(j + 1);
        lemma_pieces_of_name(last);
        reveal_with_fuel(body_parts, 2);
        assert(body_parts(pieces(last)) =~= piece_parts(last));
        if j == 0 {
            lemma_pieces_concat(front, last);
            assert(front =~= Seq::empty());
            assert(pieces(s) =~= seq![Seq::empty(), last]);
            lemma_body_parts_concat(seq![Seq::empty()], seq![last]);
            assert(seq![Seq::<char>::empty()] + seq![last] =~= pieces(s));
            assert(body_parts(pieces(s)) =~= piece_parts(last));
            assert(parts(s) =~= seq![Part::Root] + piece_parts(last));
            if piece_parts(last).len() == 0 {
                assert(parent_parts(parts(s)) =~= Seq::empty());
                0
            } else {
                assert(parent_parts(parts(s)) =~= seq![Part::Root]);
                assert(s.take(1) =~= seq!['/']);
                assert(seq!['/'].drop_last() =~= Seq::empty());
                assert(seq!['/'].last() == '/');
                reveal_with_fuel(pieces, 2);
                assert(pieces(seq!['/']) =~= seq![Seq::empty(), Seq::empty()]);
                assert(pieces(seq!['/']).drop_last() =~= seq![Seq::empty()]);
                assert(body_parts(pieces(seq!['/'])) =~= Seq::empty());
                assert(parts(seq!['/']) =~= seq![Part::Root]);
                1
            }
        } else {
            lemma_parts_of_join(front, last);
            assert(parts(s) == parts(front) + piece_parts(last));
            if piece_parts(last).len() == 0 {
                assert(parts(s) =~= parts(front));
                let n = lemma_parent_is_spelled(front);
                assert(s.take(n) =~= front.take(n));
                n
            } else {
                assert(parent_parts(parts(s)) =~= parts(front));
                j
            }
        }
    }
}

/// The directory that a path is in has all of its components but the last.
pub proof fn lemma_parent_text(s: Seq<char>)
    ensures
        parts(parent_text(s)) == parent_parts(parts(s)),
        0 <= shortest_spelling(s, parent_parts(parts(s)), 0) <= s.len(),
{
    let n = lemma_parent_is_spelled(s);
    lemma_shortest_spelling(s, parent_parts(parts(s)), 0, n);
}

/// The directory that a path is in.
pub fn parent(path: &str) -> (r: String)
    ensures
        r@ == parent_text(path@),
{
    let mut list = parts_of(path);
    let ghost all = list@;
    let ghost above = parent_parts(parts(path@));
    assert(parts_view(all).len() == all.len());
    let last = list.pop();
    let directory = match last {
        Some(PathPart::Root) | None => String::new(),
        Some(_) => spell(&list),
    };
    proof {
        lemma_parts_well_formed(path@);
        if all.len() > 0 {
            assert(parts_view(all).last() == all.last()@);
            assert(parts_view(list@) =~= parts_view(all).drop_last());
        }
        assert(well_formed(above)) by {
            assert forall|i: int| 0 <= i < above.len() implies match #[trigger] above[i] {
                Part::Root => i == 0,
                Part::Current => i == 0,
                Part::Parent => true,
                Part::Normal(name) => proper_name(name),
            } by {
                assert(above[i] == parts(path@)[i]);
            }
        }
        assert(spelled(Seq::empty()) =~= Seq::empty());
        lemma_parts_of_spelled(above);
        assert(parts(directory@) == above);
    }
    let chars = to_chars(path);
    let mut n: usize = 0;
    while n < chars.len()
        invariant
            n <= chars@.len(),
            chars@ == path@,
            above == parent_parts(parts(path@)),
            parts(directory@) == above,
            shortest_spelling(path@, above, 0) == shortest_spelling(path@, above, n as int),
        decreases chars@.len() - n,
    {
        let text = from_chars(&chars, 0, n);
        assert(text@ =~= path@.take(n as int));
        if same_path(text.as_str(), directory.as_str()) {
            return text;
        }
        n = n + 1;
    }
    assert(path@.take(n as int) =~= path@);
    copy_str(path)
}

/// The position of the last `.` in `name`, or -1.
pub open spec fn last_dot(name: Seq<char>) -> int
    decreases name.len(),
{
    if name.len() == 0 {
        -1
    } else if name.last() == '.' {
        name.len() - 1
    } else {
        last_dot(name.drop_last())
    }
}

/// The part of a file name before its last `.`; all of it where there is none,
/// or none but in front.
pub open spec fn stem_of(name: Seq<char>) -> Seq<char> {
    if last_dot(name) <= 0 {
        name
    } else {
        name.take(last_dot(name))
    }
}

/// The part of a file name after its last `.`, where that is not in front.
pub open spec fn extension_of(name: Seq<char>) -> Option<Seq<char>> {
    if last_dot(name) <= 0 {
        None
    } else {
        Some(name.skip(last_dot(name) + 1))
    }
}

/// The stem and the extension of a file name.
pub fn split_name(name: &str) -> (r: (String, Option<String>))
    ensures
        r.0@ == stem_of(name@),
        match r.1 {
            Some(ext) => extension_of(name@) == Some(ext@),
            None => extension_of(name@) is None,
        },
{
    let chars = to_chars(name);
    let n: usize = chars.len();
    let mut i: usize = n;
    assert(chars@.take(n as int) =~= chars@);
    while i > 0 && chars[i - 1] != '.'
        invariant
            i <= n,
            n == chars@.len(),
            last_dot(chars@) == last_dot(chars@.take(i as int)),
        decreases i,
    {
        assert(chars@.take(i as int).drop_last() =~= chars@.take(i as int - 1));
        assert(chars@.take(i as int).last() == chars@[i as int - 1]);
        i = i - 1;
    }
    assert(i > 0 ==> chars@.take(i as int).last() == chars@[i as int - 1]);
    assert(last_dot(name@) == i - 1);
    if i <= 1 {
        (copy_str(name), None)
    } else {
        assert(chars@.subrange(0, i as int - 1) =~= chars@.take(i as int - 1));
        assert(chars@.subrange(i as int, n as int) =~= chars@.skip(i as int));
        (from_chars(chars.as_slice(), 0, i - 1), Some(from_chars(chars.as_slice(), i, n)))
    }
}

/// How one component is written.
pub fn part_str(part: &PathPart) -> (r: String)
    ensures
        r@ == part_text(part@),
{
    match part {
        PathPart::Root => {
            let mut s: String = String::new();
            s.push('/');
            s
        },
        PathPart::Current => {
            let mut s: String = String::new();
            s.push('.');
            s
        },
        PathPart::Parent => {
            let mut s: String = String::new();
            s.push('.');
            s.push('.');
            s
        },
        PathPart::Normal(name) => copy_str(name.as_str()),
    }
}

/// Writes the components `list[from..]` one after the other, with `/` between
/// them.
pub fn join_parts(list: &Vec<PathPart>, from: usize) -> (out: String)
    requires
        from <= list@.len(),
    ensures
        out@ == joined(parts_view(list@).skip(from as int)),
{
    let ghost all = parts_view(list@).skip(from as int);
    assert(all.len() == list@.len() - from);
    let mut out: String = String::new();
    let mut i: usize = from;
    assert(all.take(0) =~= Seq::empty());
    while i < list.len()
        invariant
            from <= i <= list@.len(),
            all == parts_view(list@).skip(from as int),
            all.len() == list@.len() - from,
            out@ == joined(all.take(i - from)),
        decreases list@.len() - i,
    {
        let ghost next = all.take(i - from + 1);
        assert(next.drop_last() =~= all.take(i - from));
        assert(next.last() == list@[i as int]@);
        if i > from {
            out.push('/');
        }
        let text = part_str(&list[i]);
        let ghost before = out@;
        out.append(text.as_str());
        assert(i == from ==> out@ =~= text@);
        assert(next.len() == 1 ==> next[0] == next.last());
        i = i + 1;
    }
    assert(all.take(all.len() as int) =~= all);
    out
}

/// The shortest spelling of the path with the components `list`.
pub fn spell(list: &Vec<PathPart>) -> (out: String)
    ensures
        out@ == spelled(parts_view(list@)),
{
    let ghost all = parts_view(list@);
    assert(all.len() == list@.len());
    if list.len() > 0 {
        assert(all[0] == list@[0]@);
        if let PathPart::Root = &list[0] {
            let mut out: String = String::new();
            out.push('/');
            let rest = join_parts(list, 1);
            out.append(rest.as_str());
            assert(all.skip(1) =~= all.drop_first());
            assert(out@ =~= spelled(all));
            return out;
        }
    }
    let out = join_parts(list, 0);
    assert(all.skip(0) =~= all);
    out
}

/// What joining `rel` onto `base` spells: `rel` itself where it is absolute,
/// otherwise the two with one separator between them where `base` is not empty
/// and does not end in one.
pub open spec fn join_text(base: Seq<char>, rel: Seq<char>) -> Seq<char> {
    if absolute(rel) {
        rel
    } else if base.len() == 0 || base.last() == '/' {
        base + rel
    } else {
        base.push('/') + rel
    }
}

/// Joins `rel` onto `base`.
pub fn join_path(base: &str, rel: &str) -> (out: String)
    ensures
        out@ == join_text(base@, rel@),
{
    let r = to_chars(rel);
    if r.len() > 0 && r[0] == '/' {
        return copy_str(rel);
    }
    let b = to_chars(base);
    let mut out: String = copy_str(base);
    if b.len() > 0 && b[b.len() - 1] != '/' {
        out.push('/');
    }
    out.append(rel);
    out
}

/// How far below its start a path with the components `list` ends: one more
/// level for each name, one fewer for each `..`.
pub open spec fn net_depth(list: Seq<Part>) -> int
    decreases list.len(),
{
    if list.len() == 0 {
        0
    } else {
        net_depth(list.drop_last()) + match list.last() {
            Part::Normal(_) => 1int,
            Part::Parent => -1int,
            _ => 0int,
        }
    }
}

/// Following the components one by one never climbs above the start.
pub open spec fn never_climbs(list: Seq<Part>) -> bool {
    forall|k: int| 0 <= k <= list.len() ==> net_depth(#[trigger] list.take(k)) >= 0
}

/// The components of a path that is relative and stays below where it starts.
pub open spec fn stays_inside(list: Seq<Part>) -> bool {
    &&& !(list.len() > 0 && list[0] == Part::Root)
    &&& never_climbs(list)
}

/// Why a path is no path under the dist root.
#[derive(Debug)]
pub enum RelDistPathError {
    /// The path has a root.
    Absolute(String),
    /// Some `..` would leave the dist root.
    Escapes(String),
}

/// A relative path that cannot leave the directory it is joined onto.
#[derive(Debug)]
pub struct RelDistPath {
    path: String,
}

impl View for RelDistPath {
    type V = Seq<char>;

    closed spec fn view(&self) -> Seq<char> {
        self.path@
    }
}

impl RelDistPath {
    #[verifier::type_invariant]
    spec fn inside(&self) -> bool {
        stays_inside(parts(self.path@))
    }

    /// Accepts `path` where it is relative and no `..` leaves the directory it
    /// starts in.
    pub fn new(path: &str) -> (r: Result<RelDistPath, RelDistPathError>)
        ensures
            match r {
                Ok(p) => p@ == path@ && stays_inside(parts(path@)),
                Err(RelDistPathError::Absolute(p)) => p@ == path@ && absolute(path@),
                Err(RelDistPathError::Escapes(p)) => p@ == path@ && !absolute(path@)
                    && !never_climbs(parts(path@)),
            },
    {
        let list = parts_of(path);
        let ghost all = parts(path@);
        assert(all.len() == list@.len());
        proof {
            lemma_parts_well_formed(path@);
            lemma_root_iff_absolute(path@);
        }
        let mut depth: usize = 0;
        let mut i: usize = 0;
        assert(all.take(0) =~= Seq::empty());
        while i < list.len()
            invariant
                i <= list@.len(),
                all == parts(path@),
                all == parts_view(list@),
                all.len() == list@.len(),
                well_formed(all),
                absolute(path@) <==> (all.len() > 0 && all[0] == Part::Root),
                absolute(path@) ==> i == 0,
                depth == net_depth(all.take(i as int)),
                depth <= i,
                forall|k: int| 0 <= k <= i ==> net_depth(#[trigger] all.take(k)) >= 0,
            decreases list@.len() - i,
        {
            let ghost next = all.take(i as int + 1);
            assert(next.drop_last() =~= all.take(i as int));
            assert(next.last() == list@[i as int]@);
            assert(all[i as int] == list@[i as int]@);
            match &list[i] {
                PathPart::Root => {
                    return Err(RelDistPathError::Absolute(copy_str(path)));
                },
                PathPart::Current => {},
                PathPart::Parent => {
                    if depth == 0 {
                        assert(net_depth(all.take(i as int + 1)) < 0);
                        return Err(RelDistPathError::Escapes(copy_str(path)));
                    }
                    depth = depth - 1;
                },
                PathPart::Normal(_) => {
                    depth = depth + 1;
                },
            }
            i = i + 1;
        }
        Ok(RelDistPath { path: copy_str(path) })
    }

    /// The path's text.
    pub fn as_path(&self) -> (r: &str)
        ensures
            r@ == self@,
            stays_inside(parts(r@)),
    {
        proof {
            use_type_invariant(&*self);
        }
        self.path.as_str()
    }

    /// The path's text, by value.
    pub fn into_path_buf(self) -> (r: String)
        ensures
            r@ == self@,
            stays_inside(parts(r@)),
    {
        proof {
            use_type_invariant(&self);
        }
        self.path
    }

    /// An equal path.
    pub fn copy(&self) -> (r: RelDistPath)
        ensures
            r@ == self@,
    {
        proof {
            use_type_invariant(&*self);
        }
        RelDistPath { path: self.path.clone() }
    }
}

proof fn lemma_root_iff_absolute(s: Seq<char>)
    ensures
        absolute(s) <==> (parts(s).len() > 0 && parts(s)[0] == Part::Root),
{
    lemma_pieces_have_no_separator(s);
    lemma_body_parts_proper(pieces(s));
    if !absolute(s) && parts(s).len() > 0 {
        if lead_parts(s).len() == 0 {
            assert(parts(s)[0] == body_parts(pieces(s))[0]);
        }
    }
}

proof fn lemma_net_depth_concat(a: Seq<Part>, b: Seq<Part>)
    ensures
        net_depth(a + b) == net_depth(a) + net_depth(b),
    decreases b.len(),
{
    if b.len() == 0 {
        assert(a + b =~= a);
    } else {
        assert((a + b).drop_last() =~= a + b.drop_last());
        lemma_net_depth_concat(a, b.drop_last());
    }
}

/// A path under the dist root, joined onto a directory, is that directory's
/// components followed by components that never climb above it.
pub proof fn lemma_join_stays_inside(base: Seq<char>, rel: Seq<char>) -> (tail: Seq<Part>)
    requires
        base.len() > 0,
        base.last() != '/',
        stays_inside(parts(rel)),
    ensures
        parts(join_text(base, rel)) == parts(base) + tail,
        never_climbs(tail),
{
    let tail = body_parts(pieces(rel));
    lemma_root_iff_absolute(rel);
    lemma_parts_of_join(base, rel);
    let lead = lead_parts(rel);
    reveal_with_fuel(net_depth, 2);
    assert forall|k: int| 0 <= k <= tail.len() implies net_depth(#[trigger] tail.take(k)) >= 0 by {
        assert(parts(rel).take(k + lead.len()) =~= lead + tail.take(k));
        lemma_net_depth_concat(lead, tail.take(k));
        assert(lead.len() > 0 ==> lead.drop_last() =~= Seq::empty());
        assert(net_depth(lead) == 0);
        assert(net_depth(parts(rel).take(k + lead.len())) >= 0);
    }
    tail
}

} // verus!
