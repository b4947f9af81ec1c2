//! Replacing URLs in rendered text, where they stand by themselves.

use vstd::prelude::*;

use crate::pipeline::dev::{bytes_of, to_bytes};
use crate::text::{copy_str, matches_at, occurs_at, to_chars};

verus! {

/// The characters that end a URL in HTML and CSS.
pub open spec fn url_boundary(c: char) -> bool {
    c == '"' || c == '\'' || c == '\\' || c == '\n' || c == '\r' || c == '\t' || c == ' ' || c
        == '<' || c == '>' || c == '?' || c == '#' || c == '(' || c == ')' || c == '=' || c == ','
        || c == ';'
}

/// Whether a URL ends at this character, or at the end of the text.
pub fn is_url_boundary(c: Option<char>) -> (r: bool)
    ensures
        r == match c {
            None => true,
            Some(c) => url_boundary(c),
        },
{
    match c {
        None => true,
        Some(c) => c == '"' || c == '\'' || c == '\\' || c == '\n' || c == '\r' || c == '\t' || c
            == ' ' || c == '<' || c == '>' || c == '?' || c == '#' || c == '(' || c == ')' || c
            == '=' || c == ',' || c == ';',
    }
}

/// Nothing before `at` belongs to a URL that starts there.
pub open spec fn starts_url(text: Seq<char>, at: int) -> bool {
    at == 0 || url_boundary(text[at - 1])
}

/// Nothing from `at` on belongs to a URL that ends there.
pub open spec fn ends_url(text: Seq<char>, at: int) -> bool {
    at == text.len() || url_boundary(text[at])
}

/// `url` stands at `at` by itself: it is no part of a longer URL.
pub open spec fn stands_at(text: Seq<char>, url: Seq<char>, at: int) -> bool {
    occurs_at(text, url, at) && starts_url(text, at) && ends_url(text, at + url.len())
}

/// `url` stands by itself somewhere in the text.
pub open spec fn stands_in(text: Seq<char>, url: Seq<char>) -> bool {
    exists|at: int| stands_at(text, url, at)
}

/// The text from `at` on, with `to` in place of each `from` that stands by
/// itself.
pub open spec fn replaced_from(text: Seq<char>, from: Seq<char>, to: Seq<char>, at: int) -> Seq<
    char,
>
    decreases text.len() - at,
{
    if at >= text.len() || from.len() == 0 {
        text.skip(at)
    } else if stands_at(text, from, at) {
        to + replaced_from(text, from, to, at + from.len())
    } else {
        seq![text[at]] + replaced_from(text, from, to, at + 1)
    }
}

/// The text with `to` in place of each `from` that stands by itself.
pub open spec fn replaced(text: Seq<char>, from: Seq<char>, to: Seq<char>) -> Seq<char> {
    replaced_from(text, from, to, 0)
}

/// Replaces each `from` that stands by itself in the text. One that is followed
/// or preceded by anything but a character that ends a URL stays. An empty
/// `from` replaces nothing.
pub fn boundary_replace(haystack: &str, from: &str, to: &str) -> (r: String)
    ensures
        r@ == replaced(haystack@, from@, to@),
{
    let text = to_chars(haystack);
    let needle = to_chars(from);
    if needle.len() == 0 {
        assert(haystack@.skip(0) =~= haystack@);
        return copy_str(haystack);
    }
    let n: usize = text.len();
    let k: usize = needle.len();
    let mut out: String = String::new();
    let mut i: usize = 0;
    assert(out@ + replaced_from(text@, from@, to@, 0) =~= replaced(haystack@, from@, to@));
    while i < n
        invariant
            i <= n,
            n == text@.len(),
            k == needle@.len(),
            k > 0,
            text@ == haystack@,
            needle@ == from@,
            out@ + replaced_from(text@, from@, to@, i as int) == replaced(
                haystack@,
                from@,
                to@,
            ),
        decreases n - i,
    {
        let ghost rest = replaced_from(text@, from@, to@, i as int);
        if matches_at(&text, &needle, i) {
            let before = if i == 0 {
                None
            } else {
                Some(text[i - 1])
            };
            let after = if k == n - i {
                None
            } else {
                Some(text[i + k])
            };
            if is_url_boundary(before) && is_url_boundary(after) {
                assert(stands_at(text@, from@, i as int));
                let ghost done = out@;
                out.append(to);
                i = i + k;
                assert(out@ + replaced_from(text@, from@, to@, i as int) =~= done + rest);
                continue ;
            }
        }
        assert(!stands_at(text@, from@, i as int));
        let ghost done = out@;
        out.push(text[i]);
        i = i + 1;
        assert(out@ + replaced_from(text@, from@, to@, i as int) =~= done + rest);
    }
    assert(text@.skip(n as int) =~= Seq::empty());
    assert(out@ + replaced_from(text@, from@, to@, n as int) =~= out@);
    out
}

/// The URL has no character in it that ends a URL.
pub open spec fn seamless(url: Seq<char>) -> bool {
    url.len() > 0 && forall|i: int| 0 <= i < url.len() ==> !url_boundary(#[trigger] url[i])
}

/// Behind a character that ends a URL, what stands in front of it does not
/// matter.
proof fn lemma_replaced_behind(
    a: Seq<char>,
    d: char,
    b: Seq<char>,
    from: Seq<char>,
    to: Seq<char>,
    at: int,
)
    requires
        url_boundary(d),
        0 <= at <= b.len(),
    ensures
        replaced_from(a.push(d) + b, from, to, a.len() + 1 + at) == replaced_from(b, from, to, at),
    decreases b.len() - at,
{
    let text = a.push(d) + b;
    let here = a.len() + 1 + at;
    assert(text.skip(here) =~= b.skip(at));
    if at < b.len() && from.len() > 0 {
        assert(text[here] == b[at]);
        assert(here + from.len() <= text.len() ==> text.subrange(here, here + from.len())
            =~= b.subrange(at, at + from.len()));
        assert(starts_url(text, here) == starts_url(b, at));
        if at + from.len() < b.len() {
            assert(text[here + from.len()] == b[at + from.len()]);
        }
        if stands_at(b, from, at) {
            lemma_replaced_behind(a, d, b, from, to, at + from.len());
        } else {
            lemma_replaced_behind(a, d, b, from, to, at + 1);
        }
    }
}

proof fn lemma_replaced_before(
    a: Seq<char>,
    d: char,
    b: Seq<char>,
    from: Seq<char>,
    to: Seq<char>,
    at: int,
)
    requires
        url_boundary(d),
        seamless(from),
        0 <= at <= a.len(),
    ensures
        replaced_from(a.push(d) + b, from, to, at) == replaced_from(a, from, to, at).push(d)
            + replaced(b, from, to),
    decreases a.len() - at,
{
    let text = a.push(d) + b;
    let n = a.len() as int;
    let rest = replaced(b, from, to);
    if at + from.len() > n && occurs_at(text, from, at) {
        assert(text.subrange(at, at + from.len())[n - at] == text[n]);
        assert(from[n - at] == d);
    }
    if at == n {
        lemma_replaced_behind(a, d, b, from, to, 0);
        assert(a.skip(n) =~= Seq::empty());
        assert(seq![d] + rest =~= a.skip(n).push(d) + rest);
    } else {
        assert(text[at] == a[at]);
        if at + from.len() <= n {
            assert(text.subrange(at, at + from.len()) =~= a.subrange(at, at + from.len()));
            assert(ends_url(text, at + from.len()) == ends_url(a, at + from.len()));
        }
        assert(stands_at(text, from, at) == stands_at(a, from, at));
        if stands_at(a, from, at) {
            lemma_replaced_before(a, d, b, from, to, at + from.len());
            let more = replaced_from(a, from, to, at + from.len());
            assert(to + (more.push(d) + rest) =~= (to + more).push(d) + rest);
        } else {
            lemma_replaced_before(a, d, b, from, to, at + 1);
            let more = replaced_from(a, from, to, at + 1);
            assert(seq![a[at]] + (more.push(d) + rest) =~= (seq![a[at]] + more).push(d) + rest);
        }
    }
}

/// A character that ends a URL parts a text: what is replaced in front of it and
/// behind it is what is replaced in each part by itself.
pub proof fn lemma_replaced_in_parts(
    a: Seq<char>,
    d: char,
    b: Seq<char>,
    from: Seq<char>,
    to: Seq<char>,
)
    requires
        url_boundary(d),
        seamless(from),
    ensures
        replaced(a.push(d) + b, from, to) == replaced(a, from, to).push(d) + replaced(b, from, to),
{
    lemma_replaced_before(a, d, b, from, to, 0);
}

/// Inside of a URL nothing is replaced: what the result starts with there is
/// what the text goes on with.
proof fn lemma_inside(text: Seq<char>, from: Seq<char>, to: Seq<char>, at: int, run: Seq<char>)
    requires
        seamless(from),
        0 < at <= text.len(),
        !url_boundary(text[at - 1]),
        forall|i: int| 0 <= i < run.len() ==> !url_boundary(#[trigger] run[i]),
        occurs_at(replaced_from(text, from, to, at), run, 0),
        ends_url(replaced_from(text, from, to, at), run.len() as int),
    ensures
        occurs_at(text, run, at),
        ends_url(text, at + run.len()),
    decreases run.len(),
{
    let out = replaced_from(text, from, to, at);
    assert(!stands_at(text, from, at));
    if at == text.len() {
        assert(out =~= Seq::empty());
        assert(run.len() == 0);
        assert(text.subrange(at, at) =~= run);
    } else {
        let rest = replaced_from(text, from, to, at + 1);
        assert(out == seq![text[at]] + rest);
        assert(out[0] == text[at]);
        if run.len() == 0 {
            assert(text.subrange(at, at) =~= run);
        } else {
            assert(out.subrange(0, run.len() as int)[0] == run[0]);
            let tail = run.drop_first();
            assert forall|i: int| 0 <= i < tail.len() implies !url_boundary(#[trigger] tail[i]) by {
                assert(tail[i] == run[i + 1]);
            }
            assert(rest.subrange(0, tail.len() as int) =~= tail) by {
                assert forall|i: int| 0 <= i < tail.len() implies rest[i] == tail[i] by {
                    assert(out.subrange(0, run.len() as int)[i + 1] == run[i + 1]);
                }
            }
            if run.len() < out.len() {
                assert(rest[tail.len() as int] == out[run.len() as int]);
            }
            lemma_inside(text, from, to, at + 1, tail);
            assert(text.subrange(at, at + run.len()) =~= run) by {
                assert forall|i: int| 0 <= i < run.len() implies text[at + i] == run[i] by {
                    if i > 0 {
                        assert(text.subrange(at + 1, at + 1 + tail.len())[i - 1] == tail[i - 1]);
                    }
                }
            }
        }
    }
}

/// A URL that stands in the result at `j`, counted from `at` in the text, is
/// the new one, or it stood in the text and is not the old one.
proof fn lemma_came_from(
    text: Seq<char>,
    from: Seq<char>,
    to: Seq<char>,
    at: int,
    url: Seq<char>,
    j: int,
)
    requires
        seamless(from),
        seamless(to),
        seamless(url),
        0 <= at <= text.len(),
        occurs_at(replaced_from(text, from, to, at), url, j),
        if j == 0 {
            starts_url(text, at)
        } else {
            url_boundary(replaced_from(text, from, to, at)[j - 1])
        },
        ends_url(replaced_from(text, from, to, at), j + url.len()),
    ensures
        url == to || url != from && stands_in(text, url),
    decreases text.len() - at,
{
    let out = replaced_from(text, from, to, at);
    let word = out.subrange(j, j + url.len());
    assert(word[0] == url[0]);
    assert(out[j] == url[0]);
    if at == text.len() {
        assert(out =~= Seq::empty());
    } else if stands_at(text, from, at) {
        let next = at + from.len();
        let rest = replaced_from(text, from, to, next);
        assert(out == to + rest);
        if next < text.len() {
            assert(!stands_at(text, from, next)) by {
                if stands_at(text, from, next) {
                    assert(text.subrange(next, next + from.len())[0] == from[0]);
                }
            }
            assert(rest[0] == text[next]);
        } else {
            assert(rest =~= Seq::empty());
        }
        if j < to.len() {
            if j > 0 {
                assert(out[j - 1] == to[j - 1]);
            }
            if j + url.len() > to.len() {
                // The URL would reach over what ends the new one.
                assert(word[to.len() - j] == url[to.len() - j]);
                assert(out[to.len() as int] == rest[0]);
            }
            if j + url.len() < to.len() {
                assert(out[j + url.len()] == to[j + url.len()]);
            }
            assert(url =~= to) by {
                assert forall|i: int| 0 <= i < url.len() implies url[i] == to[i] by {
                    assert(word[i] == url[i]);
                }
            }
        } else {
            let back = j - to.len();
            assert(rest.subrange(back, back + url.len()) =~= url) by {
                assert forall|i: int| 0 <= i < url.len() implies rest[back + i] == url[i] by {
                    assert(word[i] == url[i]);
                }
            }
            assert(back > 0) by {
                if back == 0 {
                    assert(rest[0] == url[0]);
                }
            }
            assert(rest[back - 1] == out[j - 1]);
            if j + url.len() < out.len() {
                assert(rest[back + url.len()] == out[j + url.len()]);
            }
            lemma_came_from(text, from, to, next, url, back);
        }
    } else {
        let rest = replaced_from(text, from, to, at + 1);
        assert(out == seq![text[at]] + rest);
        if j > 0 {
            assert(rest.subrange(j - 1, j - 1 + url.len()) =~= url) by {
                assert forall|i: int| 0 <= i < url.len() implies rest[j - 1 + i] == url[i] by {
                    assert(word[i] == url[i]);
                }
            }
            if j + url.len() < out.len() {
                assert(rest[j - 1 + url.len()] == out[j + url.len()]);
            }
            if j > 1 {
                assert(rest[j - 2] == out[j - 1]);
            } else {
                assert(out[0] == text[at]);
            }
            lemma_came_from(text, from, to, at + 1, url, j - 1);
        } else {
            let tail = url.drop_first();
            assert(out[0] == text[at]);
            assert(rest.subrange(0, tail.len() as int) =~= tail) by {
                assert forall|i: int| 0 <= i < tail.len() implies rest[i] == tail[i] by {
                    assert(word[i + 1] == url[i + 1]);
                }
            }
            if url.len() < out.len() {
                assert(rest[tail.len() as int] == out[url.len() as int]);
            }
            lemma_inside(text, from, to, at + 1, tail);
            assert(text.subrange(at, at + url.len()) =~= url) by {
                assert forall|i: int| 0 <= i < url.len() implies text[at + i] == url[i] by {
                    if i > 0 {
                        assert(text.subrange(at + 1, at + 1 + tail.len())[i - 1] == tail[i - 1]);
                    }
                }
            }
            assert(stands_at(text, url, at));
        }
    }
}

/// What stands by itself after a replacement is the new URL, or stood there
/// before and is not the old one. So no old URL is left behind, where the new
/// one is another.
pub proof fn lemma_no_old_url_left(text: Seq<char>, from: Seq<char>, to: Seq<char>, url: Seq<char>)
    requires
        seamless(from),
        seamless(to),
        seamless(url),
        stands_in(replaced(text, from, to), url),
    ensures
        url == to || url != from && stands_in(text, url),
{
    let j = choose|j: int| stands_at(replaced(text, from, to), url, j);
    lemma_came_from(text, from, to, 0, url, j);
}

/// Where a URL that stands in the text at `k` comes to stand in the result,
/// counted from `at` in the text.
proof fn lemma_goes_to(
    text: Seq<char>,
    from: Seq<char>,
    to: Seq<char>,
    at: int,
    url: Seq<char>,
    k: int,
) -> (j: int)
    requires
        seamless(from),
        seamless(to),
        seamless(url),
        0 <= at <= k,
        stands_at(text, url, k),
    ensures
        ({
            let out = replaced_from(text, from, to, at);
            let new = if url == from {
                to
            } else {
                url
            };
            &&& occurs_at(out, new, j)
            &&& if j == 0 {
                starts_url(text, at)
            } else {
                url_boundary(out[j - 1])
            }
            &&& ends_url(out, j + new.len())
        }),
    decreases text.len() - at,
{
    let out = replaced_from(text, from, to, at);
    let new = if url == from {
        to
    } else {
        url
    };
    let word = text.subrange(k, k + url.len());
    assert(word[0] == url[0]);
    if stands_at(text, from, at) {
        let next = at + from.len();
        let rest = replaced_from(text, from, to, next);
        assert(out == to + rest);
        if next < text.len() {
            assert(!stands_at(text, from, next)) by {
                if stands_at(text, from, next) {
                    assert(text.subrange(next, next + from.len())[0] == from[0]);
                }
            }
            assert(rest[0] == text[next]);
        } else {
            assert(rest =~= Seq::empty());
        }
        let old = text.subrange(at, at + from.len());
        if k == at {
            if url.len() < from.len() {
                assert(old[url.len() as int] == from[url.len() as int]);
            } else if url.len() > from.len() {
                assert(word[from.len() as int] == url[from.len() as int]);
            }
            assert(url =~= from) by {
                assert forall|i: int| 0 <= i < url.len() implies url[i] == from[i] by {
                    assert(word[i] == url[i]);
                    assert(old[i] == from[i]);
                }
            }
            assert(out.subrange(0, to.len() as int) =~= to);
            if to.len() < out.len() {
                assert(out[to.len() as int] == rest[0]);
            }
            0
        } else {
            if k < next {
                assert(old[k - 1 - at] == from[k - 1 - at]);
            }
            let back = lemma_goes_to(text, from, to, next, url, k);
            assert(old[from.len() - 1] == from[from.len() - 1]);
            assert(back > 0);
            let j = back + to.len();
            assert(out.subrange(j, j + new.len()) =~= new) by {
                assert forall|i: int| 0 <= i < new.len() implies out[j + i] == new[i] by {
                    assert(rest.subrange(back, back + new.len())[i] == new[i]);
                }
            }
            assert(out[j - 1] == rest[back - 1]);
            if j + new.len() < out.len() {
                assert(out[j + new.len()] == rest[back + new.len()]);
            }
            j
        }
    } else {
        let rest = replaced_from(text, from, to, at + 1);
        assert(out == seq![text[at]] + rest);
        if k == at {
            lemma_copied(text, from, to, at + 1, url.drop_first());
            let tail = url.drop_first();
            assert(out.subrange(0, url.len() as int) =~= url) by {
                assert forall|i: int| 0 <= i < url.len() implies out[i] == url[i] by {
                    assert(word[i] == url[i]);
                    if i > 0 {
                        assert(rest.subrange(0, tail.len() as int)[i - 1] == tail[i - 1]);
                    }
                }
            }
            if url.len() < out.len() {
                assert(out[url.len() as int] == rest[tail.len() as int]);
            }
            0
        } else {
            let back = lemma_goes_to(text, from, to, at + 1, url, k);
            let j = back + 1;
            assert(out.subrange(j, j + new.len()) =~= new) by {
                assert forall|i: int| 0 <= i < new.len() implies out[j + i] == new[i] by {
                    assert(rest.subrange(back, back + new.len())[i] == new[i]);
                }
            }
            if back > 0 {
                assert(out[j - 1] == rest[back - 1]);
            } else {
                assert(out[0] == text[at]);
            }
            if j + new.len() < out.len() {
                assert(out[j + new.len()] == rest[back + new.len()]);
            }
            j
        }
    }
}

/// Inside of a URL the text is copied.
proof fn lemma_copied(text: Seq<char>, from: Seq<char>, to: Seq<char>, at: int, run: Seq<char>)
    requires
        seamless(from),
        0 < at <= text.len(),
        !url_boundary(text[at - 1]),
        forall|i: int| 0 <= i < run.len() ==> !url_boundary(#[trigger] run[i]),
        at + run.len() <= text.len(),
        forall|i: int| 0 <= i < run.len() ==> text[at + i] == #[trigger] run[i],
        ends_url(text, at + run.len()),
    ensures
        occurs_at(replaced_from(text, from, to, at), run, 0),
        ends_url(replaced_from(text, from, to, at), run.len() as int),
    decreases run.len(),
{
    let out = replaced_from(text, from, to, at);
    assert(!stands_at(text, from, at));
    if at == text.len() {
        assert(out =~= Seq::empty());
        assert(out.subrange(0, 0) =~= run);
    } else {
        let rest = replaced_from(text, from, to, at + 1);
        assert(out == seq![text[at]] + rest);
        assert(out[0] == text[at]);
        if run.len() == 0 {
            assert(out.subrange(0, 0) =~= run);
        } else {
            let tail = run.drop_first();
            assert(run[0] == text[at + 0]);
            assert forall|i: int| 0 <= i < tail.len() implies !url_boundary(#[trigger] tail[i])
                && text[at + 1 + i] == tail[i] by {
                assert(tail[i] == run[i + 1]);
                assert(text[at + (i + 1)] == run[i + 1]);
            }
            lemma_copied(text, from, to, at + 1, tail);
            assert(out.subrange(0, run.len() as int) =~= run) by {
                assert forall|i: int| 0 <= i < run.len() implies out[i] == run[i] by {
                    if i > 0 {
                        assert(rest.subrange(0, tail.len() as int)[i - 1] == tail[i - 1]);
                    }
                }
            }
            if run.len() < out.len() {
                assert(out[run.len() as int] == rest[tail.len() as int]);
            }
        }
    }
}

/// Every URL that stands by itself is still there after a replacement, the old
/// one as the new one.
pub proof fn lemma_urls_stay(text: Seq<char>, from: Seq<char>, to: Seq<char>, url: Seq<char>)
    requires
        seamless(from),
        seamless(to),
        seamless(url),
        stands_in(text, url),
    ensures
        stands_in(
            replaced(text, from, to),
            if url == from {
                to
            } else {
                url
            },
        ),
{
    let k = choose|k: int| stands_at(text, url, k);
    let j = lemma_goes_to(text, from, to, 0, url, k);
    assert(stands_at(
        replaced(text, from, to),
        if url == from {
            to
        } else {
            url
        },
        j,
    ));
}

/// A URL and what it becomes.
#[derive(Debug)]
pub struct Rewrite {
    pub from: String,
    pub to: String,
}

impl View for Rewrite {
    type V = (Seq<char>, Seq<char>);

    open spec fn view(&self) -> (Seq<char>, Seq<char>) {
        (self.from@, self.to@)
    }
}

/// What a list of rewrites says.
pub open spec fn rewrites_view(list: Seq<Rewrite>) -> Seq<(Seq<char>, Seq<char>)> {
    list.map_values(|r: Rewrite| r@)
}

/// The text after one rewrite after the other.
pub open spec fn rewritten(text: Seq<char>, list: Seq<(Seq<char>, Seq<char>)>) -> Seq<char>
    decreases list.len(),
{
    if list.len() == 0 {
        text
    } else {
        replaced(rewritten(text, list.drop_last()), list.last().0, list.last().1)
    }
}

/// Makes one rewrite after the other.
pub fn rewrite_all(text: &str, list: &Vec<Rewrite>) -> (r: String)
    ensures
        r@ == rewritten(text@, rewrites_view(list@)),
{
    let ghost all = rewrites_view(list@);
    let mut out = copy_str(text);
    let mut i: usize = 0;
    assert(all.take(0) =~= Seq::empty());
    while i < list.len()
        invariant
            i <= list@.len(),
            all == rewrites_view(list@),
            all.len() == list@.len(),
            out@ == rewritten(text@, all.take(i as int)),
        decreases list@.len() - i,
    {
        assert(all.take(i as int + 1).drop_last() =~= all.take(i as int));
        assert(all.take(i as int + 1).last() == list@[i as int]@);
        out = boundary_replace(out.as_str(), list[i].from.as_str(), list[i].to.as_str());
        i = i + 1;
    }
    assert(all.take(i as int) =~= all);
    out
}

/// How long a URL is, in bytes.
pub open spec fn byte_len(url: Seq<char>) -> nat {
    bytes_of(url).len()
}

/// Longer URLs come before shorter ones.
pub open spec fn longest_first(list: Seq<(Seq<char>, Seq<char>)>) -> bool {
    forall|i: int, j: int|
        0 <= i < j < list.len() ==> byte_len(#[trigger] list[i].0) >= byte_len(
            #[trigger] list[j].0,
        )
}

/// The rewrites of URLs of this length, in their order.
pub open spec fn of_length(list: Seq<(Seq<char>, Seq<char>)>, n: nat) -> Seq<
    (Seq<char>, Seq<char>),
> {
    list.filter(|r: (Seq<char>, Seq<char>)| byte_len(r.0) == n)
}

/// Where a rewrite of a URL of this length goes: behind those of URLs that are
/// as long or longer.
pub open spec fn place_for(list: Seq<(Seq<char>, Seq<char>)>, n: nat) -> int
    decreases list.len(),
{
    if list.len() == 0 || byte_len(list.last().0) >= n {
        list.len() as int
    } else {
        place_for(list.drop_last(), n)
    }
}

/// The rewrites, longer URLs first, and otherwise in their order.
pub open spec fn by_length(list: Seq<(Seq<char>, Seq<char>)>) -> Seq<(Seq<char>, Seq<char>)>
    decreases list.len(),
{
    if list.len() == 0 {
        list
    } else {
        let before = by_length(list.drop_last());
        before.insert(place_for(before, byte_len(list.last().0)), list.last())
    }
}

proof fn lemma_place(list: Seq<(Seq<char>, Seq<char>)>, n: nat)
    ensures
        0 <= place_for(list, n) <= list.len(),
        forall|i: int| place_for(list, n) <= i < list.len() ==> byte_len(#[trigger] list[i].0) < n,
        place_for(list, n) > 0 ==> byte_len(list[place_for(list, n) - 1].0) >= n,
    decreases list.len(),
{
    if list.len() > 0 && byte_len(list.last().0) < n {
        lemma_place(list.drop_last(), n);
        let p = place_for(list.drop_last(), n);
        assert forall|i: int| p <= i < list.len() implies byte_len(#[trigger] list[i].0) < n by {
            if i < list.len() - 1 {
                assert(list.drop_last()[i] == list[i]);
            }
        }
    }
}

proof fn lemma_none_of_length(list: Seq<(Seq<char>, Seq<char>)>, n: nat)
    requires
        forall|i: int| 0 <= i < list.len() ==> byte_len(#[trigger] list[i].0) != n,
    ensures
        of_length(list, n).len() == 0,
    decreases list.len(),
{
    reveal(Seq::filter);
    if list.len() > 0 {
        assert forall|i: int| 0 <= i < list.drop_last().len() implies byte_len(
            #[trigger] list.drop_last()[i].0,
        ) != n by {
            assert(list.drop_last()[i] == list[i]);
        }
        lemma_none_of_length(list.drop_last(), n);
    }
}

/// Sorting rewrites keeps every one of them, puts longer URLs first and leaves
/// those of the same length in their order.
pub proof fn lemma_by_length(list: Seq<(Seq<char>, Seq<char>)>, n: nat)
    ensures
        by_length(list).to_multiset() == list.to_multiset(),
        by_length(list).len() == list.len(),
        longest_first(by_length(list)),
        of_length(by_length(list), n) == of_length(list, n),
    decreases list.len(),
{
    if list.len() > 0 {
        let init = list.drop_last();
        let r = list.last();
        let before = by_length(init);
        let k = byte_len(r.0);
        let p = place_for(before, k);
        lemma_by_length(init, n);
        lemma_place(before, k);
        let all = before.insert(p, r);
        assert(list =~= init.push(r));
        assert(all.to_multiset() =~= list.to_multiset()) by {
            all.to_multiset_ensures();
            init.to_multiset_ensures();
            assert(all.remove(p) =~= before);
            assert(all[p] == r);
            assert(all.contains(r));
            assert(init.push(r).to_multiset() =~= init.to_multiset().insert(r));
        }
        assert forall|i: int, j: int| 0 <= i < j < all.len() implies byte_len(
            #[trigger] all[i].0,
        ) >= byte_len(#[trigger] all[j].0) by {
            let a = if i < p {
                i
            } else {
                i - 1
            };
            let b = if j < p {
                j
            } else {
                j - 1
            };
            if i != p {
                assert(all[i] == before[a]);
            }
            if j != p {
                assert(all[j] == before[b]);
            }
            if j == p && p > 0 && i < p - 1 {
                assert(byte_len(before[i].0) >= byte_len(before[p - 1].0));
            }
            if i != p && j != p {
                assert(byte_len(before[a].0) >= byte_len(before[b].0));
            }
        }
        let keep = |r: (Seq<char>, Seq<char>)| byte_len(r.0) == n;
        let head = before.take(p);
        let tail = before.skip(p);
        assert(before =~= head + tail);
        assert(all =~= head.push(r) + tail);
        let one = seq![r];
        assert(head.push(r) =~= head + one);
        assert(list =~= init + one);
        Seq::filter_distributes_over_add(head, tail, keep);
        Seq::filter_distributes_over_add(head + one, tail, keep);
        Seq::filter_distributes_over_add(head, one, keep);
        Seq::filter_distributes_over_add(init, one, keep);
        assert forall|i: int| 0 <= i < tail.len() implies byte_len(#[trigger] tail[i].0) < k by {
            assert(tail[i] == before[p + i]);
        }
        if n == k {
            lemma_none_of_length(tail, n);
            assert(of_length(before, n) =~= head.filter(keep));
        } else {
            assert(one.drop_last() =~= Seq::empty());
            reveal(Seq::filter);
            assert(one.filter(keep) =~= Seq::empty());
        }
        assert(of_length(all, n) =~= of_length(list, n));
    }
}

/// Sorts rewrites: longer URLs first, so that one that is the start of another
/// comes after it, and otherwise in their order.
pub fn sort_rewrites(list: &Vec<Rewrite>) -> (r: Vec<Rewrite>)
    ensures
        rewrites_view(r@) == by_length(rewrites_view(list@)),
{
    let ghost all = rewrites_view(list@);
    let mut out: Vec<Rewrite> = Vec::new();
    let mut i: usize = 0;
    assert(all.take(0) =~= Seq::empty());
    assert(rewrites_view(out@) =~= by_length(all.take(0)));
    while i < list.len()
        invariant
            i <= list@.len(),
            all == rewrites_view(list@),
            all.len() == list@.len(),
            rewrites_view(out@) == by_length(all.take(i as int)),
        decreases list@.len() - i,
    {
        let ghost before = rewrites_view(out@);
        let n: usize = to_bytes(list[i].from.as_str()).len();
        let mut p: usize = out.len();
        assert(before.take(p as int) =~= before);
        while p > 0 && to_bytes(out[p - 1].from.as_str()).len() < n
            invariant
                p <= out@.len(),
                before == rewrites_view(out@),
                place_for(before, n as nat) == place_for(before.take(p as int), n as nat),
            decreases p,
        {
            assert(before.take(p as int).last() == out@[p - 1]@);
            assert(before.take(p as int).drop_last() =~= before.take(p - 1));
            p = p - 1;
        }
        proof {
            let head = before.take(p as int);
            if p > 0 {
                assert(head.last() == out@[p - 1]@);
            }
            assert(place_for(before, n as nat) == p);
            assert(all.take(i as int + 1).drop_last() =~= all.take(i as int));
            assert(all.take(i as int + 1).last() == list@[i as int]@);
        }
        out.insert(p, Rewrite { from: list[i].from.clone(), to: list[i].to.clone() });
        assert(rewrites_view(out@) =~= before.insert(p as int, list@[i as int]@));
        i = i + 1;
    }
    assert(all.take(i as int) =~= all);
    out
}

/// Neither an old URL nor a new one has a character in it that ends a URL.
pub open spec fn all_seamless(list: Seq<(Seq<char>, Seq<char>)>) -> bool {
    forall|i: int|
        0 <= i < list.len() ==> seamless((#[trigger] list[i]).0) && seamless(list[i].1)
}

/// What stands by itself after all rewrites is one of the new URLs, or stood
/// there before and is none of the old ones. So no old URL leaks into what is
/// shipped, unless it is a new one too.
pub proof fn lemma_no_old_url_leaks(
    text: Seq<char>,
    list: Seq<(Seq<char>, Seq<char>)>,
    url: Seq<char>,
    i: int,
)
    requires
        all_seamless(list),
        seamless(url),
        stands_in(rewritten(text, list), url),
        forall|k: int| 0 <= k < list.len() ==> url != (#[trigger] list[k]).1,
    ensures
        stands_in(text, url),
        0 <= i < list.len() ==> url != list[i].0,
    decreases list.len(),
{
    if list.len() > 0 {
        let init = list.drop_last();
        let before = rewritten(text, init);
        assert(list[list.len() - 1] == list.last());
        lemma_no_old_url_left(before, list.last().0, list.last().1, url);
        assert forall|k: int| 0 <= k < init.len() implies seamless((#[trigger] init[k]).0)
            && seamless(init[k].1) && url != init[k].1 by {
            assert(init[k] == list[k]);
        }
        lemma_no_old_url_leaks(text, init, url, i);
        if 0 <= i < init.len() {
            assert(init[i] == list[i]);
        }
    }
}

/// What becomes of a URL, one rewrite after the other.
pub open spec fn becomes(url: Seq<char>, list: Seq<(Seq<char>, Seq<char>)>) -> Seq<char>
    decreases list.len(),
{
    if list.len() == 0 {
        url
    } else {
        let so_far = becomes(url, list.drop_last());
        if so_far == list.last().0 {
            list.last().1
        } else {
            so_far
        }
    }
}

/// A URL becomes what takes its place, where that is one and the same and is
/// not replaced itself.
pub proof fn lemma_becomes(list: Seq<(Seq<char>, Seq<char>)>, url: Seq<char>, new: Seq<char>)
    requires
        forall|j: int| 0 <= j < list.len() && (#[trigger] list[j]).0 == url ==> list[j].1 == new,
        forall|j: int| 0 <= j < list.len() ==> (#[trigger] list[j]).0 != new,
    ensures
        becomes(url, list) == url || becomes(url, list) == new,
        list.contains((url, new)) ==> becomes(url, list) == new,
    decreases list.len(),
{
    if list.len() > 0 {
        let init = list.drop_last();
        assert forall|j: int| 0 <= j < init.len() implies init[j] == #[trigger] list[j] by {
        }
        lemma_becomes(init, url, new);
        assert(list[list.len() - 1] == list.last());
        if list.contains((url, new)) && list.last() != (url, new) {
            let j = choose|j: int| 0 <= j < list.len() && list[j] == (url, new);
            assert(init[j] == (url, new));
        }
    }
}

/// Every URL that stands by itself is there after all rewrites, as what becomes
/// of it: an old URL as its new one, any other as it was.
pub proof fn lemma_urls_are_rewritten(
    text: Seq<char>,
    list: Seq<(Seq<char>, Seq<char>)>,
    url: Seq<char>,
)
    requires
        all_seamless(list),
        seamless(url),
        stands_in(text, url),
    ensures
        stands_in(rewritten(text, list), becomes(url, list)),
        seamless(becomes(url, list)),
    decreases list.len(),
{
    if list.len() > 0 {
        let init = list.drop_last();
        assert(list[list.len() - 1] == list.last());
        assert forall|k: int| 0 <= k < init.len() implies seamless((#[trigger] init[k]).0)
            && seamless(init[k].1) by {
            assert(init[k] == list[k]);
        }
        lemma_urls_are_rewritten(text, init, url);
        lemma_urls_stay(
            rewritten(text, init),
            list.last().0,
            list.last().1,
            becomes(url, init),
        );
    }
}

} // verus!
