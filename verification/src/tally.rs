//! Counting how often each text occurs in a list.

use vstd::prelude::*;
use crate::text::texts_view;

verus! {

/// How often `key` occurs among `keys`.
pub open spec fn occurrences(keys: Seq<Seq<char>>, key: Seq<char>) -> nat
    decreases keys.len(),
{
    if keys.len() == 0 {
        0
    } else {
        occurrences(keys.drop_last(), key) + if keys.last() == key {
            1nat
        } else {
            0nat
        }
    }
}

/// The texts that occur among `keys`, each once, in the order in which they
/// first occur.
pub open spec fn distinct(keys: Seq<Seq<char>>) -> Seq<Seq<char>>
    decreases keys.len(),
{
    if keys.len() == 0 {
        Seq::empty()
    } else {
        let before = distinct(keys.drop_last());
        if before.contains(keys.last()) {
            before
        } else {
            before.push(keys.last())
        }
    }
}

/// A text and how often it occurs.
#[derive(Debug)]
pub struct TextCount {
    pub text: String,
    pub count: usize,
}

/// `counts` lists every text that occurs among `keys` once, in the order of
/// first occurrence, each with the number of its occurrences.
pub open spec fn is_count_of(keys: Seq<Seq<char>>, counts: Seq<TextCount>) -> bool {
    &&& counts.len() == distinct(keys).len()
    &&& forall|k: int|
        0 <= k < counts.len() ==> {
            &&& (#[trigger] counts[k]).text@ == distinct(keys)[k]
            &&& counts[k].count == occurrences(keys, distinct(keys)[k])
        }
}

/// Nothing occurs more often than there are keys.
pub proof fn lemma_occurrences_bounded(keys: Seq<Seq<char>>, key: Seq<char>)
    ensures
        occurrences(keys, key) <= keys.len(),
    decreases keys.len(),
{
    if keys.len() > 0 {
        lemma_occurrences_bounded(keys.drop_last(), key);
    }
}

/// `distinct` lists no text twice, and lists a text exactly where it occurs.
pub proof fn lemma_distinct(keys: Seq<Seq<char>>, key: Seq<char>)
    ensures
        distinct(keys).no_duplicates(),
        distinct(keys).contains(key) <==> occurrences(keys, key) > 0,
        distinct(keys).len() <= keys.len(),
    decreases keys.len(),
{
    if keys.len() > 0 {
        let init = keys.drop_last();
        let last = keys.last();
        lemma_distinct(init, key);
        lemma_distinct(init, last);
        let before = distinct(init);
        let after = distinct(keys);
        if !before.contains(last) {
            assert(after[after.len() - 1] == last);
            if before.contains(key) {
                let k = choose|k: int| 0 <= k < before.len() && before[k] == key;
                assert(after[k] == key);
            }
        }
    }
}

/// Where the count of the text stands in the list, if it does.
fn position_of(counts: &Vec<TextCount>, text: &String) -> (found: Option<usize>)
    ensures
        match found {
            Some(at) => at < counts.len() && counts[at as int].text@ == text@,
            None => forall|j: int| 0 <= j < counts.len() ==> (#[trigger] counts[j]).text@ != text@,
        },
{
    let mut k: usize = 0;
    while k < counts.len()
        invariant
            k <= counts.len(),
            forall|j: int| 0 <= j < k ==> (#[trigger] counts[j]).text@ != text@,
        decreases counts.len() - k,
    {
        if counts[k].text == *text {
            return Some(k);
        }
        k += 1;
    }
    None
}

/// Every text that occurs among `keys`, in the order of first occurrence,
/// with the number of its occurrences.
pub fn count_texts(keys: &Vec<String>) -> (counts: Vec<TextCount>)
    ensures
        is_count_of(texts_view(keys@), counts@),
{
    let ghost all = texts_view(keys@);
    let mut counts: Vec<TextCount> = Vec::new();
    let mut i: usize = 0;
    while i < keys.len()
        invariant
            i <= keys.len(),
            all == texts_view(keys@),
            is_count_of(all.take(i as int), counts@),
        decreases keys.len() - i,
    {
        let ghost seen = all.take(i as int);
        let ghost next = all.take(i + 1);
        let ghost labels = distinct(seen);
        let ghost key = keys@[i as int]@;
        proof {
            assert(next.drop_last() =~= seen);
            lemma_occurrences_bounded(next, key);
            lemma_distinct(seen, key);
        }
        let found = position_of(&counts, &keys[i]);
        match found {
            Some(at) => {
                counts[at].count = counts[at].count + 1;
            },
            None => {
                assert(!labels.contains(key)) by {
                    if labels.contains(key) {
                        let j = choose|j: int| 0 <= j < labels.len() && labels[j] == key;
                        assert(counts[j].text@ == labels[j]);
                    }
                }
                counts.push(TextCount { text: keys[i].clone(), count: 1 });
            },
        }
        i += 1;
    }
    assert(all.take(keys.len() as int) =~= all);
    counts
}

} // verus!
