//! What a cleaning session shows of a scan: the selected files in the order
//! asked for, the figures of the whole scan, and the figures of the files
//! that the user has ticked.

use vstd::prelude::*;
use vstd::string::*;
use crate::clock::unix_now;
use crate::paths::{extension, extension_of};
use crate::rules::{apply_rules_at, selected, RuleConfig, RuleConfigView};
use crate::scanner::{records, total_size, FileInfo, FileRecord};
use crate::sorting::{arranged, is_sorted_order, sort_files, SortCriteria};
use crate::tally::{count_texts, is_count_of, TextCount};
use crate::text::{chars_of, lowercase_of, same_text, spells, texts_view, to_lowercase};

verus! {

/// The value of a decimal digit, or `None` for any other character.
pub open spec fn digit_value(c: char) -> Option<nat> {
    if c == '0' {
        Some(0)
    } else if c == '1' {
        Some(1)
    } else if c == '2' {
        Some(2)
    } else if c == '3' {
        Some(3)
    } else if c == '4' {
        Some(4)
    } else if c == '5' {
        Some(5)
    } else if c == '6' {
        Some(6)
    } else if c == '7' {
        Some(7)
    } else if c == '8' {
        Some(8)
    } else if c == '9' {
        Some(9)
    } else {
        None
    }
}

/// The number that a run of decimal digits spells; `None` where some
/// character is no digit. The empty run spells zero.
pub open spec fn digits_value(digits: Seq<char>) -> Option<nat>
    decreases digits.len(),
{
    if digits.len() == 0 {
        Some(0)
    } else {
        match (digits_value(digits.drop_last()), digit_value(digits.last())) {
            (Some(high), Some(low)) => Some(high * 10 + low),
            _ => None,
        }
    }
}

/// The number that a text spells: decimal digits, at least one, with or
/// without a plus sign before them, and a value that fits 64 bits.
pub open spec fn parsed_number(text: Seq<char>) -> Option<u64> {
    let digits = if text.len() > 0 && text[0] == '+' {
        text.skip(1)
    } else {
        text
    };
    match digits_value(digits) {
        Some(value) => if digits.len() > 0 && value <= u64::MAX {
            Some(value as u64)
        } else {
            None
        },
        None => None,
    }
}

/// The value of a decimal digit.
fn digit_of(c: char) -> (value: Option<u64>)
    ensures
        match value {
            Some(v) => digit_value(c) == Some(v as nat) && v <= 9,
            None => digit_value(c) is None,
        },
{
    if c == '0' {
        Some(0)
    } else if c == '1' {
        Some(1)
    } else if c == '2' {
        Some(2)
    } else if c == '3' {
        Some(3)
    } else if c == '4' {
        Some(4)
    } else if c == '5' {
        Some(5)
    } else if c == '6' {
        Some(6)
    } else if c == '7' {
        Some(7)
    } else if c == '8' {
        Some(8)
    } else if c == '9' {
        Some(9)
    } else {
        None
    }
}

/// A longer run of digits spells no smaller a number than its beginning, and
/// spells none where its beginning spells none.
pub proof fn lemma_digits_value_grows(digits: Seq<char>, n: int)
    requires
        0 <= n <= digits.len(),
    ensures
        digits_value(digits.take(n)) is None ==> digits_value(digits) is None,
        digits_value(digits) matches Some(whole) ==> digits_value(digits.take(n))->0 <= whole,
    decreases digits.len() - n,
{
    if n < digits.len() {
        lemma_digits_value_grows(digits, n + 1);
        assert(digits.take(n + 1).drop_last() =~= digits.take(n));
    } else {
        assert(digits.take(n) =~= digits);
    }
}

/// The number that the text spells, or `fallback` where it spells none.
pub fn parse_threshold(text: &str, fallback: u64) -> (value: u64)
    ensures
        value == match parsed_number(text@) {
            Some(v) => v,
            None => fallback,
        },
{
    let chars = chars_of(text);
    let start: usize = if chars.len() > 0 && chars[0] == '+' {
        1
    } else {
        0
    };
    let ghost digits = chars@.skip(start as int);
    assert(chars@.skip(0) =~= chars@);
    if chars.len() == start {
        return fallback;
    }
    let mut value: u64 = 0;
    let mut i: usize = start;
    while i < chars.len()
        invariant
            start <= i <= chars.len(),
            digits == chars@.skip(start as int),
            digits_value(digits.take(i - start)) == Some(value as nat),
            parsed_number(text@) == match digits_value(digits) {
                Some(whole) => if whole <= u64::MAX {
                    Some(whole as u64)
                } else {
                    None
                },
                None => None,
            },
        decreases chars.len() - i,
    {
        proof {
            let head = digits.take(i + 1 - start);
            assert(head.drop_last() =~= digits.take(i - start));
            lemma_digits_value_grows(digits, i + 1 - start);
        }
        let low = match digit_of(chars[i]) {
            Some(low) => low,
            None => {
                return fallback;
            },
        };
        let high = match value.checked_mul(10) {
            Some(high) => high,
            None => {
                return fallback;
            },
        };
        value = match high.checked_add(low) {
            Some(sum) => sum,
            None => {
                return fallback;
            },
        };
        i += 1;
    }
    assert(digits.take(chars.len() - start) =~= digits);
    value
}

/// The extension of the file that `path` names in lowercase; empty where it
/// has none.
pub open spec fn lowercase_extension(path: Seq<char>) -> Seq<char> {
    match extension_of(path) {
        Some(ext) => lowercase_of(ext),
        None => Seq::empty(),
    }
}

/// A lowercase extension of a picture.
pub open spec fn is_image_filter_extension(ext: Seq<char>) -> bool {
    ext == "jpg"@ || ext == "jpeg"@ || ext == "png"@ || ext == "gif"@ || ext == "bmp"@ || ext
        == "tiff"@ || ext == "svg"@
}

/// A lowercase extension of a document.
pub open spec fn is_document_filter_extension(ext: Seq<char>) -> bool {
    ext == "pdf"@ || ext == "doc"@ || ext == "docx"@ || ext == "txt"@ || ext == "rtf"@ || ext
        == "odt"@ || ext == "xls"@ || ext == "xlsx"@ || ext == "ppt"@ || ext == "pptx"@
}

/// A lowercase extension of a video.
pub open spec fn is_video_filter_extension(ext: Seq<char>) -> bool {
    ext == "mp4"@ || ext == "avi"@ || ext == "mov"@ || ext == "wmv"@ || ext == "flv"@ || ext
        == "mkv"@ || ext == "webm"@
}

/// The file at `path` passes the category filter: its extension belongs to
/// the category `Images`, `Documents` or `Videos`; any other filter lets
/// every file pass.
pub open spec fn in_category(path: Seq<char>, filter: Seq<char>) -> bool {
    let ext = lowercase_extension(path);
    if filter == "Images"@ {
        is_image_filter_extension(ext)
    } else if filter == "Documents"@ {
        is_document_filter_extension(ext)
    } else if filter == "Videos"@ {
        is_video_filter_extension(ext)
    } else {
        true
    }
}

/// The extension of the file that `path` names in lowercase; empty where it
/// has none.
pub fn lowercase_extension_of(path: &str) -> (ext: String)
    ensures
        ext@ == lowercase_extension(path@),
{
    match extension(path) {
        Some(ext) => to_lowercase(ext.as_str()),
        None => String::new(),
    }
}

/// Whether a lowercase extension belongs to the category that the filter
/// names.
pub fn extension_in_category(ext: &str, filter: &str) -> (passes: bool)
    ensures
        passes == if filter@ == "Images"@ {
            is_image_filter_extension(ext@)
        } else if filter@ == "Documents"@ {
            is_document_filter_extension(ext@)
        } else if filter@ == "Videos"@ {
            is_video_filter_extension(ext@)
        } else {
            true
        },
{
    let e = chars_of(ext);
    if same_text(filter, "Images") {
        spells(&e, "jpg") || spells(&e, "jpeg") || spells(&e, "png") || spells(&e, "gif") || spells(
            &e,
            "bmp",
        ) || spells(&e, "tiff") || spells(&e, "svg")
    } else if same_text(filter, "Documents") {
        spells(&e, "pdf") || spells(&e, "doc") || spells(&e, "docx") || spells(&e, "txt") || spells(
            &e,
            "rtf",
        ) || spells(&e, "odt") || spells(&e, "xls") || spells(&e, "xlsx") || spells(&e, "ppt")
            || spells(&e, "pptx")
    } else if same_text(filter, "Videos") {
        spells(&e, "mp4") || spells(&e, "avi") || spells(&e, "mov") || spells(&e, "wmv") || spells(
            &e,
            "flv",
        ) || spells(&e, "mkv") || spells(&e, "webm")
    } else {
        true
    }
}

/// Whether the file at `path` passes the category filter.
pub fn passes_category(path: &str, filter: &str) -> (passes: bool)
    ensures
        passes == in_category(path@, filter@),
{
    let ext = lowercase_extension_of(path);
    extension_in_category(ext.as_str(), filter)
}

/// The files that pass the category filter, in the order they came in.
pub open spec fn of_category(files: Seq<FileInfo>, filter: Seq<char>) -> Seq<FileInfo> {
    files.filter(|f: FileInfo| in_category(f.path@, filter))
}

/// The files that pass the category filter, in the order they came in.
pub fn filter_by_category(files: &[FileInfo], filter: &str) -> (kept: Vec<FileInfo>)
    ensures
        kept@ == of_category(files@, filter@),
{
    let mut kept: Vec<FileInfo> = Vec::new();
    let mut i: usize = 0;
    proof {
        reveal(Seq::filter);
    }
    while i < files.len()
        invariant
            i <= files.len(),
            kept@ == of_category(files@.take(i as int), filter@),
        decreases files.len() - i,
    {
        proof {
            reveal(Seq::filter);
            assert(files@.take(i + 1).drop_last() =~= files@.take(i as int));
        }
        if passes_category(files[i].path.as_str(), filter) {
            kept.push(files[i].clone());
        }
        i += 1;
    }
    assert(files@.take(files.len() as int) =~= files@);
    kept
}

/// `shown` are the files of a scan that the rule selects at the instant
/// `now` and that pass the category filter, in sorted order.
pub open spec fn is_listing_of(
    all_files: Seq<FileInfo>,
    rule: RuleConfigView,
    filter: Seq<char>,
    by: SortCriteria,
    now: nat,
    shown: Seq<FileInfo>,
) -> bool {
    let chosen = of_category(selected(all_files, rule, now), filter);
    exists|order: Seq<usize>|
        is_sorted_order(records(chosen), by, order) && shown == arranged(chosen, order)
}

/// The files of a scan that the rule selects at the instant `now_secs` and
/// that pass the category filter, in sorted order.
pub fn sort_and_filter_at(
    all_files: &[FileInfo],
    rule: &RuleConfig,
    filter: &str,
    by: SortCriteria,
    now_secs: u64,
) -> (shown: Vec<FileInfo>)
    ensures
        is_listing_of(all_files@, rule@, filter@, by, now_secs as nat, shown@),
{
    let chosen = apply_rules_at(all_files, rule, now_secs);
    let kept = filter_by_category(chosen.as_slice(), filter);
    sort_files(kept.as_slice(), by)
}

/// The files of a scan that the rule selects at the present moment and that
/// pass the category filter, in sorted order.
pub fn apply_sort_and_filter(
    all_files: &[FileInfo],
    rule: &RuleConfig,
    filter: &str,
    by: SortCriteria,
) -> (shown: Vec<FileInfo>)
    ensures
        exists|now: u64| is_listing_of(all_files@, rule@, filter@, by, now as nat, shown@),
{
    let now_secs = unix_now();
    sort_and_filter_at(all_files, rule, filter, by, now_secs)
}

/// How many of the marks are set.
pub open spec fn count_selected(marks: Seq<bool>) -> nat
    decreases marks.len(),
{
    if marks.len() == 0 {
        0
    } else {
        count_selected(marks.drop_last()) + if marks.last() {
            1nat
        } else {
            0nat
        }
    }
}

/// The sizes of the files whose mark is set, added up. A mark without a file
/// counts for nothing.
pub open spec fn selected_size(files: Seq<FileRecord>, marks: Seq<bool>) -> nat
    decreases marks.len(),
{
    if marks.len() == 0 {
        0
    } else {
        selected_size(files, marks.drop_last()) + if marks.last() && marks.len() <= files.len() {
            files[marks.len() - 1].size
        } else {
            0nat
        }
    }
}

/// The marked files weigh no more than all files together.
pub proof fn lemma_selected_size_within_total(files: Seq<FileRecord>, marks: Seq<bool>)
    ensures
        selected_size(files, marks) <= total_size(files),
        count_selected(marks) <= marks.len(),
    decreases marks.len(),
{
    if marks.len() > 0 {
        lemma_selected_size_within_total(files, marks.drop_last());
        if marks.len() <= files.len() {
            let n = marks.len() as int;
            lemma_selected_size_within_total(files.take(n - 1), marks.drop_last());
            lemma_selected_size_ignores_later_files(files, marks.drop_last(), n - 1);
            crate::scanner::lemma_total_size_grows(files, n);
            assert(files.take(n).drop_last() =~= files.take(n - 1));
        }
    }
}

/// Files beyond the marks do not count.
pub proof fn lemma_selected_size_ignores_later_files(
    files: Seq<FileRecord>,
    marks: Seq<bool>,
    n: int,
)
    requires
        marks.len() <= n <= files.len(),
    ensures
        selected_size(files, marks) == selected_size(files.take(n), marks),
    decreases marks.len(),
{
    if marks.len() > 0 {
        lemma_selected_size_ignores_later_files(files, marks.drop_last(), n);
    }
}

/// How many files are marked and what they weigh together.
pub fn update_selection_stats(files: &[FileInfo], marks: &[bool]) -> (figures: (usize, u64))
    requires
        selected_size(records(files@), marks@) <= u64::MAX,
    ensures
        figures.0 == count_selected(marks@),
        figures.1 == selected_size(records(files@), marks@),
{
    let ghost recs = records(files@);
    let mut count: usize = 0;
    let mut size: u64 = 0;
    let mut i: usize = 0;
    while i < marks.len()
        invariant
            i <= marks.len(),
            recs == records(files@),
            selected_size(recs, marks@) <= u64::MAX,
            count == count_selected(marks@.take(i as int)),
            size == selected_size(recs, marks@.take(i as int)),
        decreases marks.len() - i,
    {
        proof {
            assert(marks@.take(i + 1).drop_last() =~= marks@.take(i as int));
            lemma_selected_size_within_total(recs, marks@.take(i + 1));
            lemma_selected_size_grows(recs, marks@, i + 1);
        }
        if marks[i] {
            count = count + 1;
            if i < files.len() {
                size = size + files[i].size;
            }
        }
        i += 1;
    }
    assert(marks@.take(marks.len() as int) =~= marks@);
    (count, size)
}

/// More marks select no less.
pub proof fn lemma_selected_size_grows(files: Seq<FileRecord>, marks: Seq<bool>, n: int)
    requires
        0 <= n <= marks.len(),
    ensures
        selected_size(files, marks.take(n)) <= selected_size(files, marks),
    decreases marks.len() - n,
{
    if n < marks.len() {
        lemma_selected_size_grows(files, marks, n + 1);
        assert(marks.take(n + 1).drop_last() =~= marks.take(n));
    } else {
        assert(marks.take(n) =~= marks);
    }
}

/// The position of the smallest value, and of the first of them where
/// several are smallest.
pub open spec fn first_smallest(values: Seq<nat>) -> int
    decreases values.len(),
{
    if values.len() <= 1 {
        0
    } else {
        let best = first_smallest(values.drop_last());
        if values.last() < values[best] {
            values.len() - 1
        } else {
            best
        }
    }
}

/// The position of the largest value, and of the last of them where several
/// are largest.
pub open spec fn last_largest(values: Seq<nat>) -> int
    decreases values.len(),
{
    if values.len() <= 1 {
        0
    } else {
        let best = last_largest(values.drop_last());
        if values.last() >= values[best] {
            values.len() - 1
        } else {
            best
        }
    }
}

/// The position that `first_smallest` gives holds a value that none
/// undercuts and that none before it equals.
pub proof fn lemma_first_smallest(values: Seq<nat>)
    requires
        values.len() > 0,
    ensures
        0 <= first_smallest(values) < values.len(),
        forall|i: int|
            0 <= i < values.len() ==> values[first_smallest(values)] <= #[trigger] values[i],
        forall|i: int|
            0 <= i < first_smallest(values) ==> values[first_smallest(values)] < #[trigger] values[i],
    decreases values.len(),
{
    if values.len() > 1 {
        let init = values.drop_last();
        lemma_first_smallest(init);
        assert forall|i: int| 0 <= i < values.len() implies values[first_smallest(values)]
            <= #[trigger] values[i] by {
            if i < init.len() {
                assert(init[i] == values[i]);
            }
        }
        assert forall|i: int| 0 <= i < first_smallest(values) implies values[first_smallest(
            values,
        )] < #[trigger] values[i] by {
            assert(init[i] == values[i]);
        }
    }
}

/// The position that `last_largest` gives holds a value that none exceeds
/// and that none after it equals.
pub proof fn lemma_last_largest(values: Seq<nat>)
    requires
        values.len() > 0,
    ensures
        0 <= last_largest(values) < values.len(),
        forall|i: int|
            0 <= i < values.len() ==> values[last_largest(values)] >= #[trigger] values[i],
        forall|i: int|
            last_largest(values) < i < values.len() ==> values[last_largest(values)]
                > #[trigger] values[i],
    decreases values.len(),
{
    if values.len() > 1 {
        let init = values.drop_last();
        lemma_last_largest(init);
        assert forall|i: int| 0 <= i < values.len() implies values[last_largest(values)]
            >= #[trigger] values[i] by {
            if i < init.len() {
                assert(init[i] == values[i]);
            }
        }
        assert forall|i: int| last_largest(values) < i < values.len() implies values[last_largest(
            values,
        )] > #[trigger] values[i] by {
            if i < init.len() {
                assert(init[i] == values[i]);
            }
        }
    }
}

/// The times of last access of the records, one for each.
pub open spec fn access_times(files: Seq<FileRecord>) -> Seq<nat> {
    files.map_values(|f: FileRecord| f.last_access_secs)
}

/// The sizes of the records, one for each.
pub open spec fn sizes(files: Seq<FileRecord>) -> Seq<nat> {
    files.map_values(|f: FileRecord| f.size)
}

/// What a file counts as by its extension: the extension in lowercase, or
/// `no_extension` where it is empty or missing.
pub open spec fn extension_key(path: Seq<char>) -> Seq<char> {
    let ext = lowercase_extension(path);
    if ext.len() == 0 {
        "no_extension"@
    } else {
        ext
    }
}

/// The extension keys of the records, one for each.
pub open spec fn extension_keys(files: Seq<FileRecord>) -> Seq<Seq<char>> {
    files.map_values(|f: FileRecord| extension_key(f.path))
}

/// The figures of a scan.
#[derive(Debug)]
pub struct FileStats {
    /// How many files there are.
    pub total_files: usize,
    /// What they weigh together.
    pub total_size: u64,
    /// The path of the file that has gone unused the longest.
    pub oldest_file: String,
    /// The path of the file that was used last.
    pub newest_file: String,
    /// The path of the largest file.
    pub largest_file: String,
    /// How many files there are of each extension.
    pub file_types: Vec<TextCount>,
}

/// `stats` are the figures of `files`. Of several files that have gone unused
/// equally long the first counts as the oldest; of several used last, or
/// largest, the last one counts. Without files the three paths are empty.
pub open spec fn is_stats_of(files: Seq<FileRecord>, stats: FileStats) -> bool {
    &&& stats.total_files == files.len()
    &&& stats.total_size == total_size(files)
    &&& stats.oldest_file@ == if files.len() == 0 {
        Seq::<char>::empty()
    } else {
        files[first_smallest(access_times(files))].path
    }
    &&& stats.newest_file@ == if files.len() == 0 {
        Seq::<char>::empty()
    } else {
        files[last_largest(access_times(files))].path
    }
    &&& stats.largest_file@ == if files.len() == 0 {
        Seq::<char>::empty()
    } else {
        files[last_largest(sizes(files))].path
    }
    &&& is_count_of(extension_keys(files), stats.file_types@)
}

/// The figures of a scan.
pub fn update_stats(files: &[FileInfo]) -> (stats: FileStats)
    requires
        total_size(records(files@)) <= u64::MAX,
    ensures
        is_stats_of(records(files@), stats),
{
    let ghost recs = records(files@);
    let mut total: u64 = 0;
    let mut oldest: usize = 0;
    let mut newest: usize = 0;
    let mut largest: usize = 0;
    let mut keys: Vec<String> = Vec::new();
    let mut i: usize = 0;
    while i < files.len()
        invariant
            i <= files.len(),
            recs == records(files@),
            total_size(recs) <= u64::MAX,
            total == total_size(recs.take(i as int)),
            keys.len() == i,
            texts_view(keys@) == extension_keys(recs.take(i as int)),
            i > 0 ==> oldest < i && newest < i && largest < i,
            oldest == first_smallest(access_times(recs.take(i as int))),
            newest == last_largest(access_times(recs.take(i as int))),
            largest == last_largest(sizes(recs.take(i as int))),
        decreases files.len() - i,
    {
        let ghost seen = recs.take(i as int);
        let ghost next = recs.take(i + 1);
        proof {
            assert(next.drop_last() =~= seen);
            crate::scanner::lemma_total_size_grows(recs, i + 1);
            assert(access_times(next).drop_last() =~= access_times(seen));
            assert(sizes(next).drop_last() =~= sizes(seen));
            assert(extension_keys(next) =~= extension_keys(seen).push(
                extension_key(next.last().path),
            ));
        }
        total = total + files[i].size;
        if i > 0 {
            if files[i].last_access_secs < files[oldest].last_access_secs {
                oldest = i;
            }
            if files[i].last_access_secs >= files[newest].last_access_secs {
                newest = i;
            }
            if files[i].size >= files[largest].size {
                largest = i;
            }
        }
        let ext = lowercase_extension_of(files[i].path.as_str());
        let key = if ext.as_str().unicode_len() == 0 {
            "no_extension".to_string()
        } else {
            ext
        };
        keys.push(key);
        i += 1;
    }
    assert(recs.take(files.len() as int) =~= recs);
    let file_types = count_texts(&keys);
    if files.len() == 0 {
        FileStats {
            total_files: 0,
            total_size: 0,
            oldest_file: String::new(),
            newest_file: String::new(),
            largest_file: String::new(),
            file_types,
        }
    } else {
        FileStats {
            total_files: files.len(),
            total_size: total,
            oldest_file: files[oldest].path.clone(),
            newest_file: files[newest].path.clone(),
            largest_file: files[largest].path.clone(),
            file_types,
        }
    }
}

} // verus!
