//! Matching a text against the literal parts of a wildcard pattern.
//!
//! A pattern such as `*/Downloads/*` falls into the parts between its stars.
//! The text matches when the parts can be laid out in it in their order and
//! without overlap, the first part at the very start and the last part at the
//! very end. An empty part asks for nothing.

use vstd::prelude::*;
use crate::text::{find_from, occurs_at, occurs_at_offset, pieces_view, same_chars};

verus! {

/// `at` gives each part a place in `text`: every part stands at its offset,
/// an earlier part ends before a later one begins, the first part opens the
/// text and the last part closes it.
pub open spec fn is_layout(parts: Seq<Seq<char>>, text: Seq<char>, at: Seq<int>) -> bool {
    &&& parts.len() >= 1
    &&& at.len() == parts.len()
    &&& at[0] == 0
    &&& at[parts.len() - 1] + parts[parts.len() - 1].len() == text.len()
    &&& forall|i: int| 0 <= i < parts.len() ==> occurs_at(text, #[trigger] parts[i], at[i])
    &&& forall|i: int, j: int|
        0 <= i < j < parts.len() ==> #[trigger] at[i] + parts[i].len() <= #[trigger] at[j]
}

/// The parts of a wildcard pattern can be laid out in `text`.
pub open spec fn glob_matches(parts: Seq<Seq<char>>, text: Seq<char>) -> bool {
    exists|at: Seq<int>| is_layout(parts, text, at)
}

/// A single part matches exactly the text equal to it.
pub proof fn lemma_single_part_is_equality(part: Seq<char>, text: Seq<char>)
    ensures
        glob_matches(seq![part], text) <==> part == text,
{
    let parts = seq![part];
    if part == text {
        let at = seq![0int];
        assert(text.subrange(0, text.len() as int) =~= text);
        assert(is_layout(parts, text, at));
    }
    if glob_matches(parts, text) {
        assert(text.subrange(0, text.len() as int) =~= text);
    }
}

/// Parts that are all empty match every text, as long as there are at least
/// two of them: a lone star, or several in a row, let anything through.
pub proof fn lemma_empty_parts_match_everything(parts: Seq<Seq<char>>, text: Seq<char>)
    requires
        parts.len() >= 2,
        forall|i: int| 0 <= i < parts.len() ==> (#[trigger] parts[i]).len() == 0,
    ensures
        glob_matches(parts, text),
{
    let n = parts.len() as int;
    let at = Seq::new(parts.len(), |i: int| if i == n - 1 { text.len() as int } else { 0int });
    assert forall|i: int| 0 <= i < parts.len() implies occurs_at(
        text,
        #[trigger] parts[i],
        at[i],
    ) by {
        assert(text.subrange(at[i], at[i]) =~= parts[i]);
    }
    assert(is_layout(parts, text, at));
}

/// Whether the parts can be laid out in `text`. Each part is placed at its
/// leftmost fit after the part before it, which leaves the most room for the
/// parts still to come.
pub fn fits_parts(parts: &Vec<Vec<char>>, text: &Vec<char>) -> (r: bool)
    ensures
        r == glob_matches(pieces_view(parts@), text@),
{
    let n = parts.len();
    let ghost p = pieces_view(parts@);
    let ghost t = text@;
    if n == 0 {
        return false;
    }
    if n == 1 {
        proof {
            assert(p =~= seq![parts@[0]@]);
            lemma_single_part_is_equality(parts@[0]@, t);
        }
        return same_chars(&parts[0], text);
    }
    if !occurs_at_offset(text, &parts[0], 0) {
        assert(!glob_matches(p, t));
        return false;
    }
    // `pos` is where the part placed last ends, `at` the offsets of the parts
    // placed so far.
    let mut pos: usize = parts[0].len();
    let ghost mut at: Seq<int> = seq![0int];
    let mut i: usize = 1;
    while i < n - 1
        invariant
            n == parts.len(),
            n >= 2,
            p == pieces_view(parts@),
            t == text@,
            1 <= i <= n - 1,
            pos <= text.len(),
            at.len() == i,
            at[0] == 0,
            forall|k: int| 0 <= k < i ==> occurs_at(t, #[trigger] p[k], at[k]),
            forall|j: int, k: int|
                0 <= j < k < i ==> #[trigger] at[j] + p[j].len() <= #[trigger] at[k],
            pos == at[i - 1] + p[i - 1].len(),
            // No layout ends the part placed last any earlier.
            forall|l: Seq<int>| #[trigger] is_layout(p, t, l) ==> l[i - 1] + p[i - 1].len() >= pos,
        decreases n - i,
    {
        match find_from(text, &parts[i], pos) {
            None => {
                assert(!glob_matches(p, t)) by {
                    if glob_matches(p, t) {
                        let l = choose|l: Seq<int>| is_layout(p, t, l);
                        assert(l[i - 1] + p[i - 1].len() <= l[i as int]);
                    }
                }
                return false;
            },
            Some(k) => {
                proof {
                    at = at.push(k as int);
                }
                pos = k + parts[i].len();
            },
        }
        i += 1;
    }
    let last = &parts[n - 1];
    if last.len() > text.len() - pos {
        assert(!glob_matches(p, t));
        return false;
    }
    let tail = text.len() - last.len();
    let r = occurs_at_offset(text, last, tail);
    proof {
        if r {
            let l = at.push(tail as int);
            assert(is_layout(p, t, l));
        }
    }
    r
}

} // verus!
