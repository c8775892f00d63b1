//! Putting records in order.
//!
//! An order is given as a list of positions: the position of the record that
//! comes first, then of the one that comes second, and so on. Records that
//! the criterion does not tell apart keep the order they came in, so there is
//! exactly one sorted order for every list and criterion.

use vstd::prelude::*;
use crate::scanner::{records, FileInfo, FileRecord};
use crate::text::chars_of;

verus! {

/// `a` comes before `b` in dictionary order, character by character.
pub open spec fn text_before(a: Seq<char>, b: Seq<char>) -> bool
    decreases a.len(),
{
    if b.len() == 0 {
        false
    } else if a.len() == 0 {
        true
    } else if a[0] != b[0] {
        (a[0] as int) < (b[0] as int)
    } else {
        text_before(a.drop_first(), b.drop_first())
    }
}

/// What a list of records can be sorted by.
#[derive(Clone, Copy, Debug, PartialEq, Eq, Structural)]
pub enum SortCriteria {
    /// By path, in dictionary order.
    Name,
    /// By size, largest first.
    Size,
    /// By last access, the most recently used first.
    MostRecentFirst,
    /// By last access, the longest unused first.
    MostStaleFirst,
    /// By type label, in dictionary order.
    Type,
}

/// The criterion puts `a` strictly before `b`.
pub open spec fn precedes(a: FileRecord, b: FileRecord, by: SortCriteria) -> bool {
    match by {
        SortCriteria::Name => text_before(a.path, b.path),
        SortCriteria::Size => a.size > b.size,
        SortCriteria::MostRecentFirst => a.last_access_secs > b.last_access_secs,
        SortCriteria::MostStaleFirst => a.last_access_secs < b.last_access_secs,
        SortCriteria::Type => text_before(a.file_type, b.file_type),
    }
}

/// In the sorted list the record at position `i` stands before the one at
/// position `j`: the criterion puts it first, or it does not tell the two
/// apart and `i` came first.
pub open spec fn comes_first(files: Seq<FileRecord>, by: SortCriteria, i: int, j: int) -> bool {
    precedes(files[i], files[j], by) || (!precedes(files[j], files[i], by) && i < j)
}

/// `order` lists every position of `files` once, each before all that it
/// comes first of.
pub open spec fn is_sorted_order(
    files: Seq<FileRecord>,
    by: SortCriteria,
    order: Seq<usize>,
) -> bool {
    &&& order.len() == files.len()
    &&& forall|k: int| 0 <= k < order.len() ==> 0 <= #[trigger] order[k] < files.len()
    &&& forall|a: int, b: int|
        0 <= a < b < order.len() ==> comes_first(files, by, #[trigger] order[a] as int, #[trigger] order[b] as int)
}

/// The records of `files` at the positions that `order` lists.
pub open spec fn arranged<T>(files: Seq<T>, order: Seq<usize>) -> Seq<T> {
    Seq::new(order.len(), |k: int| files[order[k] as int])
}

/// Dictionary order is a strict order: nothing comes before itself, and
/// "before" as well as "not before" carry over a middle term.
pub proof fn lemma_text_before_is_strict_order(a: Seq<char>, b: Seq<char>, c: Seq<char>)
    ensures
        !text_before(a, a),
        text_before(a, b) && text_before(b, c) ==> text_before(a, c),
        !text_before(a, b) && !text_before(b, c) ==> !text_before(a, c),
    decreases a.len(),
{
    if a.len() > 0 {
        lemma_text_before_is_strict_order(a.drop_first(), a.drop_first(), a.drop_first());
        if b.len() > 0 && c.len() > 0 {
            lemma_text_before_is_strict_order(a.drop_first(), b.drop_first(), c.drop_first());
        }
    }
}

/// Of two different texts one comes before the other.
pub proof fn lemma_text_before_is_total(a: Seq<char>, b: Seq<char>)
    ensures
        text_before(a, b) || text_before(b, a) || a == b,
    decreases a.len(),
{
    if a.len() > 0 && b.len() > 0 {
        if a[0] == b[0] {
            lemma_text_before_is_total(a.drop_first(), b.drop_first());
            if a.drop_first() == b.drop_first() {
                assert(a =~= seq![a[0]] + a.drop_first());
            }
        }
    } else if a.len() == 0 && b.len() == 0 {
    }
}

/// The values that decide an order, one for each record: numbers that sort
/// upwards, or texts that sort in dictionary order.
pub enum SortKeys {
    Numbers(Vec<u64>),
    Texts(Vec<Vec<char>>),
}

impl SortKeys {
    /// How many keys there are.
    pub open spec fn count(self) -> nat {
        match self {
            SortKeys::Numbers(v) => v@.len(),
            SortKeys::Texts(v) => v@.len(),
        }
    }

    /// The key at `i` is strictly smaller than the key at `j`.
    pub open spec fn smaller(self, i: int, j: int) -> bool {
        match self {
            SortKeys::Numbers(v) => v@[i] < v@[j],
            SortKeys::Texts(v) => text_before(v@[i]@, v@[j]@),
        }
    }

    /// Position `i` stands before position `j` in the sorted order.
    pub open spec fn ranks_before(self, i: int, j: int) -> bool {
        self.smaller(i, j) || (!self.smaller(j, i) && i < j)
    }

    /// The positions in `order` are in range and in sorted order.
    pub open spec fn sorted(self, order: Seq<usize>) -> bool {
        &&& forall|k: int| 0 <= k < order.len() ==> 0 <= #[trigger] order[k] < self.count()
        &&& forall|a: int, b: int|
            0 <= a < b < order.len() ==> self.ranks_before(
                #[trigger] order[a] as int,
                #[trigger] order[b] as int,
            )
    }

    /// Standing before carries over a middle position.
    pub proof fn lemma_ranks_before_transitive(self, i: int, j: int, k: int)
        requires
            self.ranks_before(i, j),
            self.ranks_before(j, k),
        ensures
            self.ranks_before(i, k),
    {
        match self {
            SortKeys::Numbers(v) => {},
            SortKeys::Texts(v) => {
                let (a, b, c) = (v@[i]@, v@[j]@, v@[k]@);
                lemma_text_before_is_strict_order(a, b, c);
                lemma_text_before_is_strict_order(c, b, a);
                lemma_text_before_is_strict_order(b, c, a);
                lemma_text_before_is_strict_order(c, a, b);
                lemma_text_before_is_strict_order(a, c, b);
                lemma_text_before_is_strict_order(b, a, c);
            },
        }
    }

    /// How many keys there are.
    pub fn len(&self) -> (n: usize)
        ensures
            n == self.count(),
    {
        match self {
            SortKeys::Numbers(v) => v.len(),
            SortKeys::Texts(v) => v.len(),
        }
    }

    /// Whether the key at `i` is strictly smaller than the key at `j`.
    pub fn is_smaller(&self, i: usize, j: usize) -> (r: bool)
        requires
            i < self.count(),
            j < self.count(),
        ensures
            r == self.smaller(i as int, j as int),
    {
        match self {
            SortKeys::Numbers(v) => v[i] < v[j],
            SortKeys::Texts(v) => chars_before(&v[i], &v[j]),
        }
    }
}

/// Whether `a` comes before `b` in dictionary order.
pub fn chars_before(a: &Vec<char>, b: &Vec<char>) -> (r: bool)
    ensures
        r == text_before(a@, b@),
{
    let mut i: usize = 0;
    assert(a@.skip(0) =~= a@ && b@.skip(0) =~= b@);
    while i < a.len() && i < b.len()
        invariant
            i <= a.len(),
            i <= b.len(),
            text_before(a@, b@) == text_before(a@.skip(i as int), b@.skip(i as int)),
        decreases a.len() - i,
    {
        let ghost x = a@.skip(i as int);
        let ghost y = b@.skip(i as int);
        if a[i] != b[i] {
            return a[i] < b[i];
        }
        assert(x.drop_first() =~= a@.skip(i + 1));
        assert(y.drop_first() =~= b@.skip(i + 1));
        i += 1;
    }
    i < b.len()
}

/// The two sorted runs merged into one. Every position of `left` is smaller
/// than every position of `right`, so on a tie the left one goes first.
fn merge_runs(keys: &SortKeys, left: &Vec<usize>, right: &Vec<usize>) -> (out: Vec<usize>)
    requires
        keys.sorted(left@),
        keys.sorted(right@),
        forall|a: int, b: int|
            0 <= a < left.len() && 0 <= b < right.len() ==> #[trigger] left@[a] < #[trigger] right@[b],
        left.len() + right.len() <= usize::MAX,
    ensures
        keys.sorted(out@),
        out.len() == left.len() + right.len(),
        forall|k: int|
            0 <= k < out.len() ==> left@.contains(#[trigger] out@[k]) || right@.contains(out@[k]),
{
    let mut out: Vec<usize> = Vec::new();
    let mut i: usize = 0;
    let mut j: usize = 0;
    while i < left.len() || j < right.len()
        invariant
            i <= left.len(),
            j <= right.len(),
            left.len() + right.len() <= usize::MAX,
            out.len() == i + j,
            keys.sorted(left@),
            keys.sorted(right@),
            keys.sorted(out@),
            forall|a: int, b: int|
                0 <= a < left.len() && 0 <= b < right.len() ==> #[trigger] left@[a] < #[trigger] right@[b],
            forall|k: int|
                0 <= k < out.len() ==> left@.contains(#[trigger] out@[k]) || right@.contains(
                    out@[k],
                ),
            forall|k: int, a: int|
                0 <= k < out.len() && i <= a < left.len() ==> keys.ranks_before(
                    #[trigger] out@[k] as int,
                    #[trigger] left@[a] as int,
                ),
            forall|k: int, b: int|
                0 <= k < out.len() && j <= b < right.len() ==> keys.ranks_before(
                    #[trigger] out@[k] as int,
                    #[trigger] right@[b] as int,
                ),
        decreases left.len() - i + right.len() - j,
    {
        let take_left = if i >= left.len() {
            false
        } else if j >= right.len() {
            true
        } else {
            !keys.is_smaller(right[j], left[i])
        };
        if take_left {
            let x = left[i];
            proof {
                assert forall|b: int| j <= b < right.len() implies keys.ranks_before(
                    x as int,
                    #[trigger] right@[b] as int,
                ) by {
                    if b > j {
                        keys.lemma_ranks_before_transitive(
                            x as int,
                            right@[j as int] as int,
                            right@[b] as int,
                        );
                    }
                }
            }
            out.push(x);
            i += 1;
        } else {
            let y = right[j];
            proof {
                assert forall|a: int| i <= a < left.len() implies keys.ranks_before(
                    y as int,
                    #[trigger] left@[a] as int,
                ) by {
                    if a > i {
                        keys.lemma_ranks_before_transitive(
                            y as int,
                            left@[i as int] as int,
                            left@[a] as int,
                        );
                    }
                }
            }
            out.push(y);
            j += 1;
        }
    }
    out
}

/// The positions `lo..hi` in sorted order.
fn sort_span(keys: &SortKeys, lo: usize, hi: usize) -> (out: Vec<usize>)
    requires
        lo <= hi <= keys.count(),
    ensures
        keys.sorted(out@),
        out.len() == hi - lo,
        forall|k: int| 0 <= k < out.len() ==> lo <= #[trigger] out@[k] < hi,
    decreases hi - lo,
{
    if hi - lo == 0 {
        Vec::new()
    } else if hi - lo == 1 {
        let mut out: Vec<usize> = Vec::new();
        out.push(lo);
        out
    } else {
        let mid = lo + (hi - lo) / 2;
        let left = sort_span(keys, lo, mid);
        let right = sort_span(keys, mid, hi);
        let out = merge_runs(keys, &left, &right);
        out
    }
}

/// All positions of `keys` in sorted order: smaller keys first, equal keys in
/// the order they came in.
pub fn sorted_positions(keys: &SortKeys) -> (order: Vec<usize>)
    ensures
        keys.sorted(order@),
        order.len() == keys.count(),
{
    sort_span(keys, 0, keys.len())
}

/// The keys that sort `files` by the criterion: the smaller key goes first.
fn keys_for(files: &[FileInfo], by: SortCriteria) -> (keys: SortKeys)
    ensures
        keys.count() == files.len(),
        forall|i: int, j: int|
            0 <= i < files.len() && 0 <= j < files.len() ==> keys.smaller(i, j) == precedes(
                #[trigger] files@[i]@,
                #[trigger] files@[j]@,
                by,
            ),
{
    match by {
        SortCriteria::Size | SortCriteria::MostRecentFirst | SortCriteria::MostStaleFirst => {
            let mut numbers: Vec<u64> = Vec::new();
            let mut i: usize = 0;
            while i < files.len()
                invariant
                    i <= files.len(),
                    numbers.len() == i,
                    forall|k: int|
                        0 <= k < i ==> #[trigger] numbers@[k] == (match by {
                            SortCriteria::Size => u64::MAX - files@[k].size,
                            SortCriteria::MostRecentFirst => u64::MAX - files@[k].last_access_secs,
                            _ => files@[k].last_access_secs as int,
                        }),
                decreases files.len() - i,
            {
                let key = match by {
                    SortCriteria::Size => u64::MAX - files[i].size,
                    SortCriteria::MostRecentFirst => u64::MAX - files[i].last_access_secs,
                    _ => files[i].last_access_secs,
                };
                numbers.push(key);
                i += 1;
            }
            SortKeys::Numbers(numbers)
        },
        SortCriteria::Name | SortCriteria::Type => {
            let mut texts: Vec<Vec<char>> = Vec::new();
            let mut i: usize = 0;
            while i < files.len()
                invariant
                    i <= files.len(),
                    texts.len() == i,
                    forall|k: int|
                        0 <= k < i ==> (#[trigger] texts@[k])@ == (match by {
                            SortCriteria::Name => files@[k].path@,
                            _ => files@[k].file_type@,
                        }),
                decreases files.len() - i,
            {
                let key = match by {
                    SortCriteria::Name => chars_of(files[i].path.as_str()),
                    _ => chars_of(files[i].file_type.as_str()),
                };
                texts.push(key);
                i += 1;
            }
            SortKeys::Texts(texts)
        },
    }
}

/// The sorted order of `files` under the criterion.
pub fn sorted_order(files: &[FileInfo], by: SortCriteria) -> (order: Vec<usize>)
    ensures
        is_sorted_order(records(files@), by, order@),
{
    let keys = keys_for(files, by);
    sort_span(&keys, 0, files.len())
}

/// A sorted order lists no position twice.
pub proof fn lemma_sorted_order_has_no_repeats(
    files: Seq<FileRecord>,
    by: SortCriteria,
    order: Seq<usize>,
)
    requires
        is_sorted_order(files, by, order),
    ensures
        forall|a: int, b: int| 0 <= a < b < order.len() ==> order[a] != order[b],
{
    assert forall|a: int, b: int| 0 <= a < b < order.len() implies order[a] != order[b] by {
        if order[a] == order[b] {
            let r = files[order[a] as int];
            lemma_text_before_is_strict_order(r.path, r.path, r.path);
            lemma_text_before_is_strict_order(r.file_type, r.file_type, r.file_type);
        }
    }
}

/// A sorted order lists every position.
pub proof fn lemma_sorted_order_lists_every_position(
    files: Seq<FileRecord>,
    by: SortCriteria,
    order: Seq<usize>,
)
    requires
        is_sorted_order(files, by, order),
    ensures
        forall|p: usize| p < files.len() ==> #[trigger] order.contains(p),
{
    lemma_sorted_order_has_no_repeats(files, by, order);
    let positions = order.map_values(|p: usize| p as int);
    positions.unique_seq_to_set();
    let listed = positions.to_set();
    let all = vstd::set_lib::set_int_range(0, files.len() as int);
    vstd::set_lib::lemma_int_range(0, files.len() as int);
    vstd::seq_lib::seq_to_set_is_finite(positions);
    vstd::set_lib::lemma_subset_equality(listed, all);
    assert forall|p: usize| p < files.len() implies #[trigger] order.contains(p) by {
        assert(all.contains(p as int));
    }
}

/// The records of `files` in sorted order under the criterion; records that
/// the criterion does not tell apart stay in the order they came in.
pub fn sort_files(files: &[FileInfo], by: SortCriteria) -> (sorted: Vec<FileInfo>)
    ensures
        exists|order: Seq<usize>|
            is_sorted_order(records(files@), by, order) && sorted@ == arranged(files@, order),
{
    let order = sorted_order(files, by);
    let mut sorted: Vec<FileInfo> = Vec::new();
    let mut k: usize = 0;
    while k < order.len()
        invariant
            k <= order.len(),
            is_sorted_order(records(files@), by, order@),
            sorted@ == arranged(files@, order@.take(k as int)),
        decreases order.len() - k,
    {
        sorted.push(files[order[k]].clone());
        k += 1;
    }
    sorted
}

} // verus!
