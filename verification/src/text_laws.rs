//! What it means for one text to begin or end with another, to hold it, or to be
//! the same but for the case of its letters.

use vstd::prelude::*;

use crate::text::{
    ascii_lower, has_prefix, has_substring, has_suffix, occurs_at, same_ignoring_ascii_case,
};

verus! {

/// A text begins with what stands in front of it and ends with what stands behind
/// it; and where it begins or ends with a text, the rest can be found.
pub proof fn lemma_fronts_and_backs(a: Seq<char>, b: Seq<char>, s: Seq<char>)
    ensures
        has_prefix(a + b, a),
        has_suffix(a + b, b),
        has_prefix(s, a) ==> s == a + s.skip(a.len() as int),
        has_suffix(s, b) ==> s == s.take(s.len() - b.len()) + b,
        has_prefix(s, a) <==> a.len() <= s.len() && forall|i: int|
            0 <= i < a.len() ==> s[i] == #[trigger] a[i],
        has_suffix(s, b) <==> b.len() <= s.len() && forall|i: int|
            0 <= i < b.len() ==> s[s.len() - b.len() + i] == #[trigger] b[i],
{
    assert((a + b).take(a.len() as int) =~= a);
    assert((a + b).skip((a + b).len() - b.len()) =~= b);
    if has_prefix(s, a) {
        assert(s =~= a + s.skip(a.len() as int)) by {
            assert forall|i: int| 0 <= i < a.len() implies s[i] == a[i] by {
                assert(s.take(a.len() as int)[i] == s[i]);
            }
        }
        assert forall|i: int| 0 <= i < a.len() implies s[i] == #[trigger] a[i] by {
            assert(s.take(a.len() as int)[i] == s[i]);
        }
    }
    if has_suffix(s, b) {
        let cut = s.len() - b.len();
        assert forall|i: int| 0 <= i < b.len() implies s[cut + i] == #[trigger] b[i] by {
            assert(s.skip(cut)[i] == s[cut + i]);
        }
        assert(s =~= s.take(cut) + b) by {
            assert forall|i: int| cut <= i < s.len() implies s[i] == (s.take(cut) + b)[i] by {
                assert(s[cut + (i - cut)] == b[i - cut]);
            }
        }
    }
    if a.len() <= s.len() && forall|i: int| 0 <= i < a.len() ==> s[i] == #[trigger] a[i] {
        assert(s.take(a.len() as int) =~= a);
    }
    if b.len() <= s.len() && forall|i: int|
        0 <= i < b.len() ==> s[s.len() - b.len() + i] == #[trigger] b[i] {
        assert(s.skip(s.len() - b.len()) =~= b);
    }
}

/// A text holds what stands between two others; and where it holds a text, what is
/// around it can be found.
pub proof fn lemma_what_a_text_holds(a: Seq<char>, n: Seq<char>, b: Seq<char>, s: Seq<char>) -> (at:
    int)
    ensures
        has_substring(a + n + b, n),
        has_substring(s, n) ==> 0 <= at && at + n.len() <= s.len() && s == s.take(at) + n + s.skip(
            at + n.len(),
        ),
{
    let all = a + n + b;
    assert(all.subrange(a.len() as int, a.len() as int + n.len()) =~= n);
    assert(occurs_at(all, n, a.len() as int));
    if has_substring(s, n) {
        let at = choose|at: int| occurs_at(s, n, at);
        assert(s =~= s.take(at) + n + s.skip(at + n.len())) by {
            assert forall|i: int| at <= i < at + n.len() implies s[i] == n[i - at] by {
                assert(s.subrange(at, at + n.len())[i - at] == s[i]);
            }
        }
        at
    } else {
        0
    }
}

/// Two texts are the same but for the case of their letters exactly where, at each
/// place, they have the same character, or the two cases of one of the letters of
/// the alphabet.
pub proof fn lemma_case_does_not_matter(a: Seq<char>, b: Seq<char>)
    ensures
        same_ignoring_ascii_case(a, b) <==> a.len() == b.len() && forall|i: int|
            0 <= i < a.len() ==> {
                let x = #[trigger] a[i] as int;
                let y = b[i] as int;
                x == y || 'a' as int <= x <= 'z' as int && y == x - 32 || 'a' as int <= y <= 'z'
                    as int && x == y - 32
            },
{
    if same_ignoring_ascii_case(a, b) {
        assert forall|i: int| 0 <= i < a.len() implies {
            let x = #[trigger] a[i] as int;
            let y = b[i] as int;
            x == y || 'a' as int <= x <= 'z' as int && y == x - 32 || 'a' as int <= y <= 'z' as int
                && x == y - 32
        } by {
            assert(ascii_lower(a[i]) == ascii_lower(b[i]));
        }
    }
}

} // verus!
