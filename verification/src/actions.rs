//! What may be done with a file and how a failure is named: the checks
//! before a delete, the places and names that archive and trash use, the
//! record that goes with a trashed file, and the kinds of failure that a
//! caller can tell apart.

use vstd::prelude::*;
use vstd::string::*;
use crate::clock::{deletion_stamp, is_date_time_text, stamp_at, stamp_text};
use crate::paths::{
    extension, extension_of, extension_of_name, extension_start, file_name, lemma_last_index_of,
    name_of, stem_of_name,
};
use crate::text::{
    chars_of, decimal, decimal_text, digit_char, lowercase_of, same_text, text_of, texts_view,
    to_lowercase,
};

verus! {

/// Why an action on a file failed.
#[derive(Debug)]
pub enum FileActionError {
    PermissionDenied,
    FileNotFound,
    InsufficientSpace,
    FileInUse,
    Other(String),
}

/// What a [`FileActionError`] holds, as plain mathematical values.
pub enum FileActionErrorView {
    PermissionDenied,
    FileNotFound,
    InsufficientSpace,
    FileInUse,
    Other(Seq<char>),
}

impl View for FileActionError {
    type V = FileActionErrorView;

    open spec fn view(&self) -> FileActionErrorView {
        match self {
            FileActionError::PermissionDenied => FileActionErrorView::PermissionDenied,
            FileActionError::FileNotFound => FileActionErrorView::FileNotFound,
            FileActionError::InsufficientSpace => FileActionErrorView::InsufficientSpace,
            FileActionError::FileInUse => FileActionErrorView::FileInUse,
            FileActionError::Other(message) => FileActionErrorView::Other(message@),
        }
    }
}

/// How the system classes a failed call.
#[derive(Clone, Copy, Debug, PartialEq, Eq, Structural)]
pub enum FailureKind {
    /// The caller lacks the right to do this.
    PermissionDenied,
    /// The path names nothing.
    NotFound,
    /// Anything else.
    Unclassified,
}

/// A failed system call: its class, the error number where the system gave
/// one, and the system's own words.
#[derive(Debug)]
pub struct OsFailure {
    pub kind: FailureKind,
    pub os_code: Option<i32>,
    pub message: String,
}

/// The error number for a device without space left.
pub const OS_CODE_NO_SPACE: i32 = 28;

/// The error number for a resource that is busy.
pub const OS_CODE_BUSY: i32 = 16;

/// The kind of failure that a failed system call amounts to. Its class decides
/// where it is one of the two named ones; else the error number tells a full
/// device and a busy file; whatever is left keeps the system's words.
pub open spec fn failure_of(
    kind: FailureKind,
    os_code: Option<i32>,
    message: Seq<char>,
) -> FileActionErrorView {
    match kind {
        FailureKind::PermissionDenied => FileActionErrorView::PermissionDenied,
        FailureKind::NotFound => FileActionErrorView::FileNotFound,
        FailureKind::Unclassified => if os_code == Some(OS_CODE_NO_SPACE) {
            FileActionErrorView::InsufficientSpace
        } else if os_code == Some(OS_CODE_BUSY) {
            FileActionErrorView::FileInUse
        } else {
            FileActionErrorView::Other(message)
        },
    }
}

impl vstd::std_specs::convert::FromSpecImpl<OsFailure> for FileActionError {
    open spec fn obeys_from_spec() -> bool {
        true
    }

    open spec fn from_spec(failure: OsFailure) -> FileActionError {
        match failure.kind {
            FailureKind::PermissionDenied => FileActionError::PermissionDenied,
            FailureKind::NotFound => FileActionError::FileNotFound,
            FailureKind::Unclassified => if failure.os_code == Some(OS_CODE_NO_SPACE) {
                FileActionError::InsufficientSpace
            } else if failure.os_code == Some(OS_CODE_BUSY) {
                FileActionError::FileInUse
            } else {
                FileActionError::Other(failure.message)
            },
        }
    }
}

impl From<OsFailure> for FileActionError {
    /// The kind of failure that a failed system call amounts to.
    fn from(failure: OsFailure) -> (error: FileActionError)
        ensures
            error@ == failure_of(failure.kind, failure.os_code, failure.message@),
    {
        match failure.kind {
            FailureKind::PermissionDenied => FileActionError::PermissionDenied,
            FailureKind::NotFound => FileActionError::FileNotFound,
            FailureKind::Unclassified => match failure.os_code {
                Some(code) => if code == OS_CODE_NO_SPACE {
                    FileActionError::InsufficientSpace
                } else if code == OS_CODE_BUSY {
                    FileActionError::FileInUse
                } else {
                    FileActionError::Other(failure.message)
                },
                None => FileActionError::Other(failure.message),
            },
        }
    }
}

/// The words for a failure.
pub open spec fn message_of(error: FileActionErrorView) -> Seq<char> {
    match error {
        FileActionErrorView::PermissionDenied => "Permission denied"@,
        FileActionErrorView::FileNotFound => "File not found"@,
        FileActionErrorView::InsufficientSpace => "Insufficient disk space"@,
        FileActionErrorView::FileInUse => "File is currently in use"@,
        FileActionErrorView::Other(message) => "Error: "@ + message,
    }
}

impl FileActionError {
    /// The failure in words.
    pub fn message(&self) -> (text: String)
        ensures
            text@ == message_of(self@),
    {
        match self {
            FileActionError::PermissionDenied => "Permission denied".to_string(),
            FileActionError::FileNotFound => "File not found".to_string(),
            FileActionError::InsufficientSpace => "Insufficient disk space".to_string(),
            FileActionError::FileInUse => "File is currently in use".to_string(),
            FileActionError::Other(message) => {
                let mut text = "Error: ".to_string();
                text.append(message.as_str());
                text
            },
        }
    }
}

/// Why a file may not be deleted, if it may not: it is not there, or it is
/// marked read-only.
pub open spec fn delete_refusal(exists: bool, readonly: bool) -> Option<FileActionErrorView> {
    if !exists {
        Some(FileActionErrorView::FileNotFound)
    } else if readonly {
        Some(FileActionErrorView::PermissionDenied)
    } else {
        None
    }
}

/// Whether a file may be deleted: it must be there, and it must not be marked
/// read-only. Nothing is removed before both are known.
pub fn check_deletable(exists: bool, readonly: bool) -> (verdict: Result<(), FileActionError>)
    ensures
        match verdict {
            Ok(_) => delete_refusal(exists, readonly) is None,
            Err(e) => delete_refusal(exists, readonly) == Some(e@),
        },
{
    if !exists {
        Err(FileActionError::FileNotFound)
    } else if readonly {
        Err(FileActionError::PermissionDenied)
    } else {
        Ok(())
    }
}

/// Whether a file may be archived or trashed: it must be there.
pub fn check_present(exists: bool) -> (verdict: Result<(), FileActionError>)
    ensures
        match verdict {
            Ok(_) => exists,
            Err(e) => !exists && e@ == FileActionErrorView::FileNotFound,
        },
{
    if exists {
        Ok(())
    } else {
        Err(FileActionError::FileNotFound)
    }
}

/// The type of the file that `path` names, for a quick look: its extension
/// in lowercase, or `unknown` where it has none.
pub open spec fn quick_type(path: Seq<char>) -> Seq<char> {
    match extension_of(path) {
        Some(ext) => lowercase_of(ext),
        None => "unknown"@,
    }
}

/// The extension of the file that `path` names, in lowercase, or `unknown`
/// where it has none.
pub fn get_file_type(path: &str) -> (file_type: String)
    ensures
        file_type@ == quick_type(path@),
{
    match extension(path) {
        Some(ext) => to_lowercase(ext.as_str()),
        None => "unknown".to_string(),
    }
}

/// The unit that a size is shown in: the largest of B, KB, MB, GB and TB that
/// the size reaches, counted from zero.
pub open spec fn unit_index(size: nat) -> nat {
    if size < 1024 {
        0
    } else if size < 1024 * 1024 {
        1
    } else if size < 1024 * 1024 * 1024 {
        2
    } else if size < 1024 * 1024 * 1024 * 1024 {
        3
    } else {
        4
    }
}

/// The bytes in one unit.
pub open spec fn unit_bytes(unit: nat) -> nat {
    if unit == 0 {
        1
    } else if unit == 1 {
        1024
    } else if unit == 2 {
        1024 * 1024
    } else if unit == 3 {
        1024 * 1024 * 1024
    } else {
        1024 * 1024 * 1024 * 1024
    }
}

/// The name of a unit.
pub open spec fn unit_name(unit: nat) -> Seq<char> {
    if unit == 0 {
        "B"@
    } else if unit == 1 {
        "KB"@
    } else if unit == 2 {
        "MB"@
    } else if unit == 3 {
        "GB"@
    } else {
        "TB"@
    }
}

/// `size` in hundredths of `unit`, rounded to the nearest; a value halfway
/// between two goes to the even one.
pub open spec fn rounded_hundredths(size: nat, unit: nat) -> nat {
    let whole = size * 100 / unit;
    let rest = size * 100 % unit;
    if 2 * rest > unit || (2 * rest == unit && whole % 2 == 1) {
        whole + 1
    } else {
        whole
    }
}

/// A size as it is shown: whole bytes below 1024, and from there on the
/// largest fitting unit with two decimal places.
pub open spec fn formatted_size(size: nat) -> Seq<char> {
    let unit = unit_index(size);
    if unit == 0 {
        decimal(size) + " B"@
    } else {
        let shown = rounded_hundredths(size, unit_bytes(unit));
        decimal(shown / 100) + seq!['.', digit_char(shown % 100 / 10), digit_char(shown % 10), ' ']
            + unit_name(unit)
    }
}

/// What is shown is within half a hundredth of a unit of the true size.
pub proof fn lemma_formatted_size_is_close(size: nat)
    ensures
        ({
            let unit = unit_bytes(unit_index(size));
            let shown = rounded_hundredths(size, unit);
            &&& 2 * (shown * unit - 100 * size) <= unit
            &&& 2 * (100 * size - shown * unit) <= unit
        }),
{
    let unit = unit_bytes(unit_index(size));
    let whole = size * 100 / unit;
    let rest = size * 100 % unit;
    assert(size * 100 == unit * whole + rest) by {
        vstd::arithmetic::div_mod::lemma_fundamental_div_mod((size * 100) as int, unit as int);
    }
    assert(0 <= rest < unit) by {
        vstd::arithmetic::div_mod::lemma_mod_bound((size * 100) as int, unit as int);
    }
    assert((whole + 1) * unit == whole * unit + unit) by (nonlinear_arith);
}

/// The size as it is shown to a reader.
pub fn format_file_size(size: u64) -> (text: String)
    ensures
        text@ == formatted_size(size as nat),
{
    if size < 1024 {
        let mut text = decimal_text(size);
        text.append(" B");
        return text;
    }
    let (unit, name): (u128, &str) = if size < 1024 * 1024 {
        (1024, "KB")
    } else if size < 1024 * 1024 * 1024 {
        (1024 * 1024, "MB")
    } else if size < 1024 * 1024 * 1024 * 1024 {
        (1024 * 1024 * 1024, "GB")
    } else {
        (1024 * 1024 * 1024 * 1024, "TB")
    };
    let scaled: u128 = (size as u128) * 100;
    let whole: u128 = scaled / unit;
    let rest: u128 = scaled % unit;
    let shown: u128 = if 2 * rest > unit || (2 * rest == unit && whole % 2 == 1) {
        whole + 1
    } else {
        whole
    };
    let mut text = decimal_text((shown / 100) as u64);
    text.push('.');
    text.append(decimal_text((shown % 100 / 10) as u64).as_str());
    text.append(decimal_text((shown % 10) as u64).as_str());
    text.push(' ');
    text.append(name);
    text
}

/// Where archived and trashed files go.
#[derive(Debug)]
pub struct StorageLocations {
    /// The directory that archived files are copied to.
    pub archive_dir: String,
    /// The directory that trashed files are moved to.
    pub trash_files_dir: String,
    /// The directory that holds the records of trashed files.
    pub trash_info_dir: String,
}

/// The directory that stands in for a home that cannot be found.
pub open spec fn fallback_home() -> Seq<char> {
    "/tmp"@
}

/// The archive directory under a home directory.
pub open spec fn archive_dir_under(home: Seq<char>) -> Seq<char> {
    home + "/.trashdoctor/archive"@
}

/// The directory of trashed files under a home directory.
pub open spec fn trash_files_dir_under(home: Seq<char>) -> Seq<char> {
    home + "/.local/share/Trash/files"@
}

/// The directory of trash records under a home directory.
pub open spec fn trash_info_dir_under(home: Seq<char>) -> Seq<char> {
    home + "/.local/share/Trash/info"@
}

impl StorageLocations {
    /// The locations under the user's home directory, or under the fallback
    /// where the home directory is not known.
    pub fn for_home(home: Option<&str>) -> (places: StorageLocations)
        ensures
            ({
                let root = match home {
                    Some(dir) => dir@,
                    None => fallback_home(),
                };
                &&& places.archive_dir@ == archive_dir_under(root)
                &&& places.trash_files_dir@ == trash_files_dir_under(root)
                &&& places.trash_info_dir@ == trash_info_dir_under(root)
            }),
    {
        let root: &str = match home {
            Some(dir) => dir,
            None => "/tmp",
        };
        let mut archive_dir = root.to_string();
        archive_dir.append("/.trashdoctor/archive");
        let mut trash_files_dir = root.to_string();
        trash_files_dir.append("/.local/share/Trash/files");
        let mut trash_info_dir = root.to_string();
        trash_info_dir.append("/.local/share/Trash/info");
        StorageLocations { archive_dir, trash_files_dir, trash_info_dir }
    }
}

/// The name that the file at `path` goes by in an archive or in the trash: its
/// file name. A path that names no file is refused, in words of its own.
pub fn storage_name(path: &str) -> (name: Result<String, FileActionError>)
    ensures
        match name {
            Ok(n) => name_of(path@) == Some(n@),
            Err(e) => name_of(path@) is None && e@ == FileActionErrorView::Other(
                "Invalid file path"@,
            ),
        },
{
    match file_name(path) {
        Some(name) => Ok(name),
        None => Err(FileActionError::Other("Invalid file path".to_string())),
    }
}

/// The name that a file is stored under at the given attempt: its own name at
/// first, and from then on its stem, an underscore, the number of the attempt
/// and its extension, if it has one. `filename` is a file name as `name_of`
/// gives it: a single path component.
pub open spec fn candidate_name(filename: Seq<char>, attempt: nat) -> Seq<char> {
    if attempt == 0 {
        filename
    } else {
        let numbered = stem_of_name(filename) + seq!['_'] + decimal(attempt);
        match extension_of_name(filename) {
            Some(ext) => if ext.len() > 0 {
                numbered + seq!['.'] + ext
            } else {
                numbered
            },
            None => numbered,
        }
    }
}

/// `name` is the first candidate for `filename` that is not taken.
pub open spec fn is_first_free(
    filename: Seq<char>,
    taken: Seq<Seq<char>>,
    name: Seq<char>,
) -> bool {
    exists|attempt: nat|
        {
            &&& name == #[trigger] candidate_name(filename, attempt)
            &&& !taken.contains(name)
            &&& forall|earlier: nat|
                earlier < attempt ==> taken.contains(#[trigger] candidate_name(filename, earlier))
        }
}

/// A number of two or more digits is ten or more, and the other way round.
pub proof fn lemma_decimal_len(n: nat)
    ensures
        decimal(n).len() >= 1,
        n >= 10 <==> decimal(n).len() >= 2,
    decreases n,
{
    if n >= 10 {
        lemma_decimal_len(n / 10);
    }
}

/// Different numbers are written differently.
pub proof fn lemma_decimal_is_injective(a: nat, b: nat)
    requires
        decimal(a) == decimal(b),
    ensures
        a == b,
    decreases a,
{
    lemma_decimal_len(a);
    lemma_decimal_len(b);
    if a >= 10 {
        let (x, y) = (decimal(a / 10), decimal(b / 10));
        assert(decimal(a).drop_last() =~= x);
        assert(decimal(b).drop_last() =~= y);
        assert(decimal(a).last() == digit_char(a % 10));
        lemma_decimal_is_injective(a / 10, b / 10);
    } else {
        assert(decimal(a)[0] == digit_char(a));
    }
}

/// Different attempts give different names.
pub proof fn lemma_candidates_differ(filename: Seq<char>, a: nat, b: nat)
    requires
        a != b,
    ensures
        candidate_name(filename, a) != candidate_name(filename, b),
{
    let stem = stem_of_name(filename);
    let head = stem + seq!['_'];
    lemma_last_index_of(filename, '.');
    lemma_decimal_len(a);
    lemma_decimal_len(b);
    if a != 0 && b != 0 {
        let tail = match extension_of_name(filename) {
            Some(ext) => if ext.len() > 0 {
                seq!['.'] + ext
            } else {
                Seq::<char>::empty()
            },
            None => Seq::<char>::empty(),
        };
        let (x, y) = (head + decimal(a) + tail, head + decimal(b) + tail);
        assert(candidate_name(filename, a) =~= x);
        assert(candidate_name(filename, b) =~= y);
        if x == y {
            assert(x.subrange(head.len() as int, (head.len() + decimal(a).len()) as int) =~= decimal(a));
            assert(y.subrange(head.len() as int, (head.len() + decimal(b).len()) as int) =~= decimal(b));
            lemma_decimal_is_injective(a, b);
        }
    } else {
        let n = if a == 0 {
            b
        } else {
            a
        };
        lemma_decimal_len(n);
    }
}

/// The first `count` candidates for `filename`.
pub open spec fn candidates(filename: Seq<char>, count: nat) -> Set<Seq<char>>
    decreases count,
{
    if count == 0 {
        Set::empty()
    } else {
        candidates(filename, (count - 1) as nat).insert(
            candidate_name(filename, (count - 1) as nat),
        )
    }
}

/// The first `count` candidates are `count` names in all.
pub proof fn lemma_candidates_count(filename: Seq<char>, count: nat)
    ensures
        candidates(filename, count).finite(),
        candidates(filename, count).len() == count,
        forall|name: Seq<char>|
            candidates(filename, count).contains(name) <==> exists|attempt: nat|
                attempt < count && name == #[trigger] candidate_name(filename, attempt),
    decreases count,
{
    if count > 0 {
        let fewer = (count - 1) as nat;
        lemma_candidates_count(filename, fewer);
        let newest = candidate_name(filename, fewer);
        assert(!candidates(filename, fewer).contains(newest)) by {
            if candidates(filename, fewer).contains(newest) {
                let attempt = choose|attempt: nat|
                    attempt < fewer && newest == #[trigger] candidate_name(filename, attempt);
                lemma_candidates_differ(filename, attempt, fewer);
            }
        }
        assert forall|name: Seq<char>|
            candidates(filename, count).contains(name) <==> exists|attempt: nat|
                attempt < count && name == #[trigger] candidate_name(filename, attempt) by {
            if candidates(filename, count).contains(name) && name != newest {
                let attempt = choose|attempt: nat|
                    attempt < fewer && name == #[trigger] candidate_name(filename, attempt);
                assert(attempt < count);
            }
        }
    }
}

/// Where the first candidates are all taken, there are no more of them than
/// there are names taken.
pub proof fn lemma_taken_candidates_are_few(filename: Seq<char>, taken: Seq<Seq<char>>, count: nat)
    requires
        forall|attempt: nat|
            attempt < count ==> taken.contains(#[trigger] candidate_name(filename, attempt)),
    ensures
        count <= taken.len(),
{
    lemma_candidates_count(filename, count);
    let tried = candidates(filename, count);
    let names = taken.to_set();
    vstd::seq_lib::seq_to_set_is_finite(taken);
    vstd::set_lib::lemma_len_subset(tried, names);
    taken.lemma_cardinality_of_set();
}

/// The name that a file is stored under at the given attempt.
pub fn collision_name(filename: &str, attempt: u64) -> (name: String)
    ensures
        name@ == candidate_name(filename@, attempt as nat),
{
    if attempt == 0 {
        return filename.to_string();
    }
    let chars = chars_of(filename);
    let number = decimal_text(attempt);
    match extension_start(&chars) {
        None => {
            let mut name = filename.to_string();
            name.push('_');
            name.append(number.as_str());
            name
        },
        Some(start) => {
            let mut name = text_of(&chars, 0, start - 1);
            name.push('_');
            name.append(number.as_str());
            if start < chars.len() {
                name.push('.');
                name.append(text_of(&chars, start, chars.len()).as_str());
            }
            name
        },
    }
}

/// Whether the name is among the taken ones.
pub fn is_taken(name: &str, taken: &Vec<String>) -> (found: bool)
    ensures
        found == texts_view(taken@).contains(name@),
{
    let ghost names = texts_view(taken@);
    let mut i: usize = 0;
    while i < taken.len()
        invariant
            i <= taken.len(),
            names == texts_view(taken@),
            forall|k: int| 0 <= k < i ==> names[k] != name@,
        decreases taken.len() - i,
    {
        assert(names[i as int] == taken@[i as int]@);
        if same_text(taken[i].as_str(), name) {
            return true;
        }
        i += 1;
    }
    false
}

/// The name to store a file under in a directory that holds the `taken`
/// names: the file's own name where it is free, else the first numbered
/// variant of it that is.
pub fn free_name(filename: &str, taken: &Vec<String>) -> (name: String)
    ensures
        is_first_free(filename@, texts_view(taken@), name@),
{
    let ghost names = texts_view(taken@);
    let mut attempt: usize = 0;
    loop
        invariant
            names == texts_view(taken@),
            attempt <= taken.len(),
            forall|earlier: nat|
                earlier < attempt ==> names.contains(#[trigger] candidate_name(filename@, earlier)),
        decreases taken.len() - attempt,
    {
        let name = collision_name(filename, attempt as u64);
        if !is_taken(name.as_str(), taken) {
            return name;
        }
        proof {
            lemma_taken_candidates_are_few(filename@, names, (attempt + 1) as nat);
        }
        attempt += 1;
    }
}

/// The record that goes with a trashed file: where it came from and when it
/// was trashed.
pub open spec fn trash_info_text(path: Seq<char>, deletion_date: Seq<char>) -> Seq<char> {
    "[Trash Info]\nPath="@ + path + "\nDeletionDate="@ + deletion_date + "\n"@
}

/// The name of the record that goes with a trashed file of the given name.
pub open spec fn trash_info_name_of(trashed_name: Seq<char>) -> Seq<char> {
    trashed_name + ".trashinfo"@
}

/// The record that goes with a file trashed at the given date.
pub fn trash_info_contents(path: &str, deletion_date: &str) -> (text: String)
    ensures
        text@ == trash_info_text(path@, deletion_date@),
{
    let mut text = "[Trash Info]\nPath=".to_string();
    text.append(path);
    text.append("\nDeletionDate=");
    text.append(deletion_date);
    text.append("\n");
    text
}

/// The record that goes with a file trashed at the instant `now_secs`, where
/// local time lies `offset_secs` seconds ahead of universal time. Its date
/// always has the one form: an instant beyond the year 9999 is dated at the
/// last second before it, and what is no offset counts as universal time.
pub fn trash_info_at(path: &str, now_secs: u64, offset_secs: i32) -> (text: String)
    ensures
        text@ == trash_info_text(path@, stamp_text(now_secs, offset_secs)),
        is_date_time_text(stamp_text(now_secs, offset_secs), 'T'),
{
    let stamp = stamp_at(now_secs, offset_secs);
    trash_info_contents(path, stamp.as_str())
}

/// The record that goes with a file trashed at this moment, where local time
/// lies `offset_secs` seconds ahead of universal time: the record of whatever
/// instant the clock shows.
pub fn trash_info_now(path: &str, offset_secs: i32) -> (text: String)
    ensures
        exists|now: u64|
            text@ == trash_info_text(path@, #[trigger] stamp_text(now, offset_secs))
                && is_date_time_text(stamp_text(now, offset_secs), 'T'),
{
    let stamp = deletion_stamp(offset_secs);
    let text = trash_info_contents(path, stamp.as_str());
    proof {
        let now = choose|now: u64| stamp@ == #[trigger] stamp_text(now, offset_secs);
        assert(text@ == trash_info_text(path@, stamp_text(now, offset_secs)));
    }
    text
}

/// The name of the record that goes with a trashed file of the given name.
pub fn trash_info_name(trashed_name: &str) -> (name: String)
    ensures
        name@ == trash_info_name_of(trashed_name@),
{
    let mut name = trashed_name.to_string();
    name.append(".trashinfo");
    name
}

} // verus!
