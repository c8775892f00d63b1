//! Records of scanned files: which directory entries a scan takes up, how a
//! record is made from an entry's metadata, and the questions that can be
//! asked of a list of records without walking the tree again.

use vstd::prelude::*;
use vstd::string::*;
use std::collections::HashMap;
use std::collections::HashSet;
use crate::clock::{display_text, display_time, shows_instant};
use crate::paths::{extension, extension_of, is_hidden, is_hidden_path};
use crate::pattern::{
    fits_parts, glob_matches, lemma_empty_parts_match_everything, lemma_single_part_is_equality,
};
use crate::sorting::{arranged, is_sorted_order, sorted_order, SortCriteria};
use crate::tally::{distinct, lemma_distinct, lemma_occurrences_bounded, occurrences};
use crate::text::{
    chars_of, has_char, lemma_split_on_without_separator, lowercase_of, same_chars,
    same_ignoring_case, spells, split_chars, split_on, texts_view, to_lowercase,
};

verus! {

/// One regular file as a scan found it.
#[derive(Debug)]
pub struct FileInfo {
    pub path: String,
    pub size: u64,
    pub last_accessed: String,
    pub last_access_secs: u64,
    pub last_modified: String,
    pub last_modified_secs: u64,
    pub file_type: String,
    pub is_hidden: bool,
    pub is_readonly: bool,
    pub is_executable: bool,
}

/// What a [`FileInfo`] holds, as plain mathematical values.
pub struct FileRecord {
    pub path: Seq<char>,
    pub size: nat,
    pub last_accessed: Seq<char>,
    pub last_access_secs: nat,
    pub last_modified: Seq<char>,
    pub last_modified_secs: nat,
    pub file_type: Seq<char>,
    pub is_hidden: bool,
    pub is_readonly: bool,
    pub is_executable: bool,
}

impl View for FileInfo {
    type V = FileRecord;

    open spec fn view(&self) -> FileRecord {
        FileRecord {
            path: self.path@,
            size: self.size as nat,
            last_accessed: self.last_accessed@,
            last_access_secs: self.last_access_secs as nat,
            last_modified: self.last_modified@,
            last_modified_secs: self.last_modified_secs as nat,
            file_type: self.file_type@,
            is_hidden: self.is_hidden,
            is_readonly: self.is_readonly,
            is_executable: self.is_executable,
        }
    }
}

impl Clone for FileInfo {
    fn clone(&self) -> (copy: Self)
        ensures
            copy == *self,
    {
        FileInfo {
            path: self.path.clone(),
            size: self.size,
            last_accessed: self.last_accessed.clone(),
            last_access_secs: self.last_access_secs,
            last_modified: self.last_modified.clone(),
            last_modified_secs: self.last_modified_secs,
            file_type: self.file_type.clone(),
            is_hidden: self.is_hidden,
            is_readonly: self.is_readonly,
            is_executable: self.is_executable,
        }
    }
}

/// The records that a list of [`FileInfo`] holds.
pub open spec fn records(files: Seq<FileInfo>) -> Seq<FileRecord> {
    files.map_values(|f: FileInfo| f@)
}

/// What a scan takes up and what it passes over.
#[derive(Debug)]
pub struct ScanOptions {
    pub include_hidden: bool,
    pub include_system: bool,
    pub max_depth: Option<usize>,
    pub follow_symlinks: bool,
    pub file_extensions: Option<Vec<String>>,
    pub exclude_patterns: Vec<String>,
}

/// What a [`ScanOptions`] holds, as plain mathematical values.
pub struct ScanOptionsView {
    pub include_hidden: bool,
    pub include_system: bool,
    pub max_depth: Option<usize>,
    pub follow_symlinks: bool,
    pub file_extensions: Option<Seq<Seq<char>>>,
    pub exclude_patterns: Seq<Seq<char>>,
}

impl View for ScanOptions {
    type V = ScanOptionsView;

    open spec fn view(&self) -> ScanOptionsView {
        ScanOptionsView {
            include_hidden: self.include_hidden,
            include_system: self.include_system,
            max_depth: self.max_depth,
            follow_symlinks: self.follow_symlinks,
            file_extensions: match self.file_extensions {
                Some(list) => Some(texts_view(list@)),
                None => None,
            },
            exclude_patterns: texts_view(self.exclude_patterns@),
        }
    }
}

/// The options of a plain scan: hidden files left out, links not followed,
/// any depth, any extension, and temporary files, caches and the insides of
/// `.git` and `node_modules` passed over.
pub open spec fn default_scan_options() -> ScanOptionsView {
    ScanOptionsView {
        include_hidden: false,
        include_system: false,
        max_depth: None,
        follow_symlinks: false,
        file_extensions: None,
        exclude_patterns: seq!["*.tmp"@, "*.cache"@, "*/.git/*"@, "*/node_modules/*"@],
    }
}

impl Default for ScanOptions {
    fn default() -> (options: Self)
        ensures
            options@ == default_scan_options(),
    {
        let mut exclude_patterns: Vec<String> = Vec::new();
        exclude_patterns.push("*.tmp".to_string());
        exclude_patterns.push("*.cache".to_string());
        exclude_patterns.push("*/.git/*".to_string());
        exclude_patterns.push("*/node_modules/*".to_string());
        let options = ScanOptions {
            include_hidden: false,
            include_system: false,
            max_depth: None,
            follow_symlinks: false,
            file_extensions: None,
            exclude_patterns,
        };
        assert(options@.exclude_patterns =~= default_scan_options().exclude_patterns);
        options
    }
}

/// The pattern matches the text, letter for letter: the parts between the
/// stars of the pattern can be laid out in the text.
pub open spec fn wildcard_matches(pattern: Seq<char>, text: Seq<char>) -> bool {
    glob_matches(split_on(pattern, '*'), text)
}

/// One exclusion pattern rules the path out: a pattern with a star by
/// wildcard match, one without only where the path is equal to it, letter
/// for letter.
pub open spec fn excluded_by(path: Seq<char>, pattern: Seq<char>) -> bool {
    if pattern.contains('*') {
        wildcard_matches(pattern, path)
    } else {
        pattern == path
    }
}

/// Some exclusion pattern rules the path out.
pub open spec fn excluded_by_any(path: Seq<char>, patterns: Seq<Seq<char>>) -> bool {
    exists|i: int| 0 <= i < patterns.len() && excluded_by(path, #[trigger] patterns[i])
}

/// A lone star matches every text.
pub proof fn lemma_star_matches_everything(text: Seq<char>)
    ensures
        wildcard_matches(seq!['*'], text),
{
    let pattern = seq!['*'];
    let parts = split_on(pattern, '*');
    assert(split_on(pattern.drop_last(), '*') =~= seq![Seq::<char>::empty()]);
    lemma_empty_parts_match_everything(parts, text);
}

/// A pattern without a star matches the text equal to it and no other.
pub proof fn lemma_plain_pattern_is_equality(pattern: Seq<char>, text: Seq<char>)
    requires
        !pattern.contains('*'),
    ensures
        wildcard_matches(pattern, text) <==> pattern == text,
{
    lemma_split_on_without_separator(pattern, '*');
    lemma_single_part_is_equality(pattern, text);
}

/// An exclusion pattern rules out the paths that it matches as a wildcard
/// pattern, with or without a star in it.
pub proof fn lemma_exclusion_is_wildcard_match(path: Seq<char>, pattern: Seq<char>)
    ensures
        excluded_by(path, pattern) == wildcard_matches(pattern, path),
{
    if !pattern.contains('*') {
        lemma_plain_pattern_is_equality(pattern, path);
    }
}

/// Whether the pattern matches the text, letter for letter. A star stands for
/// any run of characters; everything else stands for itself.
pub fn wildcard_match(pattern: &str, text: &str) -> (matched: bool)
    ensures
        matched == wildcard_matches(pattern@, text@),
        pattern@ == seq!['*'] ==> matched,
        !pattern@.contains('*') ==> matched == (pattern@ == text@),
{
    proof {
        lemma_star_matches_everything(text@);
        if !pattern@.contains('*') {
            lemma_plain_pattern_is_equality(pattern@, text@);
        }
    }
    let pattern_chars = chars_of(pattern);
    let text_chars = chars_of(text);
    let parts = split_chars(&pattern_chars, '*');
    fits_parts(&parts, &text_chars)
}

/// Whether some exclusion pattern rules the path out. A pattern without a
/// star rules out the path equal to it and no other.
pub fn should_exclude_file(path: &str, exclude_patterns: &Vec<String>) -> (excluded: bool)
    ensures
        excluded == excluded_by_any(path@, texts_view(exclude_patterns@)),
{
    let path_chars = chars_of(path);
    let ghost patterns = texts_view(exclude_patterns@);
    let mut i: usize = 0;
    while i < exclude_patterns.len()
        invariant
            i <= exclude_patterns.len(),
            path_chars@ == path@,
            patterns == texts_view(exclude_patterns@),
            forall|k: int| 0 <= k < i ==> !excluded_by(path@, #[trigger] patterns[k]),
        decreases exclude_patterns.len() - i,
    {
        let pattern_chars = chars_of(exclude_patterns[i].as_str());
        assert(pattern_chars@ == patterns[i as int]);
        let hit = if has_char(&pattern_chars, '*') {
            let parts = split_chars(&pattern_chars, '*');
            fits_parts(&parts, &path_chars)
        } else {
            same_chars(&pattern_chars, &path_chars)
        };
        if hit {
            return true;
        }
        i += 1;
    }
    false
}

/// Whether the path names a hidden file: one whose name begins with a dot.
pub fn is_hidden_file(path: &str) -> (hidden: bool)
    ensures
        hidden == is_hidden_path(path@),
{
    is_hidden(path)
}

/// A lowercase extension of a picture.
pub open spec fn is_image_extension(ext: Seq<char>) -> bool {
    ext == "jpg"@ || ext == "jpeg"@ || ext == "png"@ || ext == "gif"@ || ext == "bmp"@ || ext
        == "webp"@ || ext == "svg"@
}

/// A lowercase extension of a video.
pub open spec fn is_video_extension(ext: Seq<char>) -> bool {
    ext == "mp4"@ || ext == "avi"@ || ext == "mov"@ || ext == "mkv"@ || ext == "flv"@ || ext
        == "wmv"@ || ext == "webm"@
}

/// A lowercase extension of a sound recording.
pub open spec fn is_audio_extension(ext: Seq<char>) -> bool {
    ext == "mp3"@ || ext == "wav"@ || ext == "flac"@ || ext == "aac"@ || ext == "ogg"@ || ext
        == "m4a"@
}

/// A lowercase extension of a written document.
pub open spec fn is_document_extension(ext: Seq<char>) -> bool {
    ext == "doc"@ || ext == "docx"@ || ext == "odt"@
}

/// A lowercase extension of a spreadsheet.
pub open spec fn is_spreadsheet_extension(ext: Seq<char>) -> bool {
    ext == "xls"@ || ext == "xlsx"@ || ext == "ods"@
}

/// A lowercase extension of a presentation.
pub open spec fn is_presentation_extension(ext: Seq<char>) -> bool {
    ext == "ppt"@ || ext == "pptx"@ || ext == "odp"@
}

/// A lowercase extension of an archive.
pub open spec fn is_archive_extension(ext: Seq<char>) -> bool {
    ext == "zip"@ || ext == "rar"@ || ext == "7z"@ || ext == "tar"@ || ext == "gz"@ || ext
        == "bz2"@
}

/// A lowercase extension of a program or an installer.
pub open spec fn is_executable_extension(ext: Seq<char>) -> bool {
    ext == "exe"@ || ext == "msi"@ || ext == "deb"@ || ext == "rpm"@ || ext == "dmg"@ || ext
        == "pkg"@
}

/// A lowercase extension of plain text.
pub open spec fn is_text_extension(ext: Seq<char>) -> bool {
    ext == "txt"@ || ext == "md"@ || ext == "log"@ || ext == "cfg"@ || ext == "ini"@ || ext
        == "conf"@
}

/// A lowercase extension of a web page or its parts.
pub open spec fn is_web_extension(ext: Seq<char>) -> bool {
    ext == "html"@ || ext == "htm"@ || ext == "css"@ || ext == "js"@ || ext == "json"@ || ext
        == "xml"@
}

/// A lowercase extension of source code.
pub open spec fn is_code_extension(ext: Seq<char>) -> bool {
    ext == "c"@ || ext == "cpp"@ || ext == "h"@ || ext == "py"@ || ext == "java"@ || ext == "rs"@
        || ext == "go"@
}

/// The type label of a file by its extension in lowercase: one of the named
/// kinds where the extension is known, a dot and the extension where it is
/// not, and `No Extension` where the file has none.
pub open spec fn type_label(ext: Option<Seq<char>>) -> Seq<char> {
    match ext {
        None => "No Extension"@,
        Some(e) => if is_image_extension(e) {
            "Image"@
        } else if is_video_extension(e) {
            "Video"@
        } else if is_audio_extension(e) {
            "Audio"@
        } else if e == "pdf"@ {
            "PDF"@
        } else if is_document_extension(e) {
            "Document"@
        } else if is_spreadsheet_extension(e) {
            "Spreadsheet"@
        } else if is_presentation_extension(e) {
            "Presentation"@
        } else if is_archive_extension(e) {
            "Archive"@
        } else if is_executable_extension(e) {
            "Executable"@
        } else if is_text_extension(e) {
            "Text"@
        } else if is_web_extension(e) {
            "Web"@
        } else if is_code_extension(e) {
            "Code"@
        } else {
            seq!['.'] + e
        },
    }
}

/// The extension of the path in lowercase, if it has one.
pub open spec fn lowercase_extension_of(path: Seq<char>) -> Option<Seq<char>> {
    match extension_of(path) {
        Some(e) => Some(lowercase_of(e)),
        None => None,
    }
}

/// The type label for an extension that is already in lowercase.
pub fn label_for_extension(ext: Option<&str>) -> (label: String)
    ensures
        label@ == type_label(
            match ext {
                Some(e) => Some(e@),
                None => None,
            },
        ),
{
    let text = match ext {
        None => {
            return "No Extension".to_string();
        },
        Some(e) => e,
    };
    let e = chars_of(text);
    if spells(&e, "jpg") || spells(&e, "jpeg") || spells(&e, "png") || spells(&e, "gif") || spells(
        &e,
        "bmp",
    ) || spells(&e, "webp") || spells(&e, "svg") {
        "Image".to_string()
    } else if spells(&e, "mp4") || spells(&e, "avi") || spells(&e, "mov") || spells(&e, "mkv")
        || spells(&e, "flv") || spells(&e, "wmv") || spells(&e, "webm") {
        "Video".to_string()
    } else if spells(&e, "mp3") || spells(&e, "wav") || spells(&e, "flac") || spells(&e, "aac")
        || spells(&e, "ogg") || spells(&e, "m4a") {
        "Audio".to_string()
    } else if spells(&e, "pdf") {
        "PDF".to_string()
    } else if spells(&e, "doc") || spells(&e, "docx") || spells(&e, "odt") {
        "Document".to_string()
    } else if spells(&e, "xls") || spells(&e, "xlsx") || spells(&e, "ods") {
        "Spreadsheet".to_string()
    } else if spells(&e, "ppt") || spells(&e, "pptx") || spells(&e, "odp") {
        "Presentation".to_string()
    } else if spells(&e, "zip") || spells(&e, "rar") || spells(&e, "7z") || spells(&e, "tar")
        || spells(&e, "gz") || spells(&e, "bz2") {
        "Archive".to_string()
    } else if spells(&e, "exe") || spells(&e, "msi") || spells(&e, "deb") || spells(&e, "rpm")
        || spells(&e, "dmg") || spells(&e, "pkg") {
        "Executable".to_string()
    } else if spells(&e, "txt") || spells(&e, "md") || spells(&e, "log") || spells(&e, "cfg")
        || spells(&e, "ini") || spells(&e, "conf") {
        "Text".to_string()
    } else if spells(&e, "html") || spells(&e, "htm") || spells(&e, "css") || spells(&e, "js")
        || spells(&e, "json") || spells(&e, "xml") {
        "Web".to_string()
    } else if spells(&e, "c") || spells(&e, "cpp") || spells(&e, "h") || spells(&e, "py")
        || spells(&e, "java") || spells(&e, "rs") || spells(&e, "go") {
        "Code".to_string()
    } else {
        let mut label = String::new();
        label.push('.');
        label.append(text);
        label
    }
}

/// The type label of the file that `path` names, by its extension without
/// regard to case.
pub fn get_file_type_from_path(path: &str) -> (label: String)
    ensures
        label@ == type_label(lowercase_extension_of(path@)),
{
    match extension(path) {
        None => label_for_extension(None),
        Some(ext) => {
            let lower = to_lowercase(ext.as_str());
            label_for_extension(Some(lower.as_str()))
        },
    }
}

/// The extension passes the allow-list: there is no list, or the extension is
/// on it without regard to case. A file without extension passes only an
/// empty list.
pub open spec fn extension_allowed(path: Seq<char>, allowed: Option<Seq<Seq<char>>>) -> bool {
    match allowed {
        None => true,
        Some(list) => match extension_of(path) {
            Some(e) => exists|i: int|
                0 <= i < list.len() && same_ignoring_case(#[trigger] list[i], e),
            None => list.len() == 0,
        },
    }
}

/// A scan with these options takes up the regular file at `path`: it is not
/// hidden unless hidden files are asked for, no exclusion pattern rules it
/// out, and its extension passes the allow-list.
pub open spec fn admits_path(options: ScanOptionsView, path: Seq<char>) -> bool {
    &&& options.include_hidden || !is_hidden_path(path)
    &&& !excluded_by_any(path, options.exclude_patterns)
    &&& extension_allowed(path, options.file_extensions)
}

/// Whether `wanted` is on the list, without regard to case.
pub fn on_list_ignoring_case(wanted: &str, list: &Vec<String>) -> (found: bool)
    ensures
        found == exists|i: int|
            0 <= i < list.len() && same_ignoring_case(#[trigger] texts_view(list@)[i], wanted@),
{
    let ghost entries = texts_view(list@);
    let lower = to_lowercase(wanted);
    let mut i: usize = 0;
    while i < list.len()
        invariant
            i <= list.len(),
            entries == texts_view(list@),
            lower@ == lowercase_of(wanted@),
            forall|k: int| 0 <= k < i ==> !same_ignoring_case(#[trigger] entries[k], wanted@),
        decreases list.len() - i,
    {
        let candidate = to_lowercase(list[i].as_str());
        assert(candidate@ == lowercase_of(entries[i as int]));
        if candidate == lower {
            return true;
        }
        i += 1;
    }
    false
}

impl ScanOptions {
    /// Whether a scan with these options takes up the regular file at `path`.
    pub fn admits(&self, path: &str) -> (admitted: bool)
        ensures
            admitted == admits_path(self@, path@),
    {
        if !self.include_hidden && is_hidden_file(path) {
            return false;
        }
        if should_exclude_file(path, &self.exclude_patterns) {
            return false;
        }
        match &self.file_extensions {
            None => true,
            Some(list) => match extension(path) {
                None => list.len() == 0,
                Some(ext) => on_list_ignoring_case(ext.as_str(), list),
            },
        }
    }
}

/// What the file system tells of one file, read in a single query.
#[derive(Clone, Copy, Debug)]
pub struct FileMetadata {
    /// Size in bytes.
    pub size: u64,
    /// Last access, in seconds since the epoch.
    pub accessed_secs: u64,
    /// The offset of local time from universal time at the last access, in
    /// seconds.
    pub accessed_offset_secs: i32,
    /// Last modification, in seconds since the epoch.
    pub modified_secs: u64,
    /// The offset of local time from universal time at the last modification,
    /// in seconds.
    pub modified_offset_secs: i32,
    /// Whether the file is marked read-only.
    pub readonly: bool,
    /// The permission bits, on a platform that has them.
    pub mode: Option<u32>,
}

/// Whether anyone may execute a file.
#[derive(Clone, Copy, Debug, PartialEq, Eq, Structural)]
pub enum Executable {
    Yes,
    No,
    /// The platform has no such notion.
    Unsupported,
}

/// A file is executable where any of the execute bits for user, group or
/// others is set.
pub open spec fn executable_of(mode: Option<u32>) -> Executable {
    match mode {
        None => Executable::Unsupported,
        Some(bits) => if bits & 0o111 != 0 {
            Executable::Yes
        } else {
            Executable::No
        },
    }
}

/// Whether anyone may execute a file with these permission bits.
pub fn executable_state(mode: Option<u32>) -> (state: Executable)
    ensures
        state == executable_of(mode),
{
    match mode {
        None => Executable::Unsupported,
        Some(bits) => if bits & 0o111 != 0 {
            Executable::Yes
        } else {
            Executable::No
        },
    }
}

/// The record of the file at `path` with the given metadata and the two
/// renderings of its times.
pub open spec fn record_of(
    path: Seq<char>,
    meta: FileMetadata,
    last_accessed: Seq<char>,
    last_modified: Seq<char>,
) -> FileRecord {
    FileRecord {
        path,
        size: meta.size as nat,
        last_accessed,
        last_access_secs: meta.accessed_secs as nat,
        last_modified,
        last_modified_secs: meta.modified_secs as nat,
        file_type: type_label(lowercase_extension_of(path)),
        is_hidden: is_hidden_path(path),
        is_readonly: meta.readonly,
        is_executable: executable_of(meta.mode) == Executable::Yes,
    }
}

/// The record of the file at `path` with the given metadata, its times shown
/// as local date and time at the offsets that the metadata gives.
pub open spec fn scanned_record(path: Seq<char>, meta: FileMetadata) -> FileRecord {
    record_of(
        path,
        meta,
        display_text(meta.accessed_secs, meta.accessed_offset_secs),
        display_text(meta.modified_secs, meta.modified_offset_secs),
    )
}

/// The two times of the record show the instants of the metadata, as far as
/// their form goes.
pub open spec fn shows_its_times(meta: FileMetadata, record: FileRecord) -> bool {
    &&& shows_instant(meta.accessed_secs, meta.accessed_offset_secs, record.last_accessed)
    &&& shows_instant(meta.modified_secs, meta.modified_offset_secs, record.last_modified)
}

impl FileInfo {
    /// The record of the file at `path`, its times rendered as given.
    pub fn new(
        path: &str,
        meta: &FileMetadata,
        last_accessed: String,
        last_modified: String,
    ) -> (file: FileInfo)
        ensures
            file@ == record_of(path@, *meta, last_accessed@, last_modified@),
    {
        let state = executable_state(meta.mode);
        FileInfo {
            path: path.to_string(),
            size: meta.size,
            last_accessed,
            last_access_secs: meta.accessed_secs,
            last_modified,
            last_modified_secs: meta.modified_secs,
            file_type: get_file_type_from_path(path),
            is_hidden: is_hidden_file(path),
            is_readonly: meta.readonly,
            is_executable: state == Executable::Yes,
        }
    }

    /// The record of the file at `path`, its times rendered as local date
    /// and time at the offsets that the metadata gives.
    pub fn from_metadata(path: &str, meta: &FileMetadata) -> (file: FileInfo)
        ensures
            file@ == scanned_record(path@, *meta),
            shows_its_times(*meta, file@),
    {
        let last_accessed = display_time(meta.accessed_secs, meta.accessed_offset_secs);
        let last_modified = display_time(meta.modified_secs, meta.modified_offset_secs);
        FileInfo::new(path, meta, last_accessed, last_modified)
    }
}

/// One entry of a directory tree, as a walk of the tree reports it.
#[derive(Debug)]
pub struct ScanEntry {
    /// The path of the entry, the root of the walk included.
    pub path: String,
    /// Whether the entry is a regular file.
    pub is_file: bool,
    /// The metadata of the entry, or `None` where it cannot be read.
    pub metadata: Option<FileMetadata>,
}

/// A scan takes the entry up: it is a regular file that the options admit and
/// whose metadata can be read.
pub open spec fn takes_up(options: ScanOptionsView, entry: ScanEntry) -> bool {
    entry.is_file && admits_path(options, entry.path@) && entry.metadata is Some
}

/// The entries that a scan takes up, in the order of the walk.
pub open spec fn taken_up(options: ScanOptionsView, entries: Seq<ScanEntry>) -> Seq<ScanEntry> {
    entries.filter(|e: ScanEntry| takes_up(options, e))
}

/// `files` are the records of the entries that a scan takes up, one for each
/// and in the same order.
pub open spec fn is_scan_of(
    options: ScanOptionsView,
    entries: Seq<ScanEntry>,
    files: Seq<FileInfo>,
) -> bool {
    let kept = taken_up(options, entries);
    &&& files.len() == kept.len()
    &&& forall|k: int|
        0 <= k < files.len() ==> {
            &&& (#[trigger] files[k])@ == scanned_record(kept[k].path@, kept[k].metadata->0)
            &&& shows_its_times(kept[k].metadata->0, files[k]@)
        }
}

/// The records of the files among `entries` that a scan with these options
/// takes up, in the order of the walk. Directories, links, entries without
/// readable metadata and files that the options pass over leave no record.
pub fn scan_folder_with_options(
    entries: &[ScanEntry],
    options: &ScanOptions,
) -> (files: Vec<FileInfo>)
    ensures
        is_scan_of(options@, entries@, files@),
{
    let mut files: Vec<FileInfo> = Vec::new();
    let mut i: usize = 0;
    proof {
        reveal(Seq::filter);
    }
    while i < entries.len()
        invariant
            i <= entries.len(),
            is_scan_of(options@, entries@.take(i as int), files@),
        decreases entries.len() - i,
    {
        let entry = &entries[i];
        proof {
            reveal(Seq::filter);
            assert(entries@.take(i + 1).drop_last() =~= entries@.take(i as int));
        }
        if entry.is_file && options.admits(entry.path.as_str()) {
            match &entry.metadata {
                Some(meta) => {
                    files.push(FileInfo::from_metadata(entry.path.as_str(), meta));
                },
                None => {},
            }
        }
        i += 1;
    }
    assert(entries@.take(entries.len() as int) =~= entries@);
    files
}

/// The records of the files among `entries` that a plain scan takes up.
pub fn scan_folder(entries: &[ScanEntry]) -> (files: Vec<FileInfo>)
    ensures
        is_scan_of(default_scan_options(), entries@, files@),
{
    let options = ScanOptions::default();
    scan_folder_with_options(entries, &options)
}

/// The sizes of all records, added up.
pub open spec fn total_size(files: Seq<FileRecord>) -> nat
    decreases files.len(),
{
    if files.len() == 0 {
        0
    } else {
        total_size(files.drop_last()) + files.last().size
    }
}

/// The type labels of the records, one for each.
pub open spec fn types_of(files: Seq<FileRecord>) -> Seq<Seq<char>> {
    files.map_values(|f: FileRecord| f.file_type)
}

/// How many records carry the type label.
pub open spec fn count_of_type(files: Seq<FileRecord>, label: Seq<char>) -> nat {
    occurrences(types_of(files), label)
}

/// The sizes of the records that carry the type label, added up.
pub open spec fn size_of_type(files: Seq<FileRecord>, label: Seq<char>) -> nat
    decreases files.len(),
{
    if files.len() == 0 {
        0
    } else {
        size_of_type(files.drop_last(), label) + if files.last().file_type == label {
            files.last().size
        } else {
            0nat
        }
    }
}

/// The type labels that occur among the records, each once, in the order in
/// which they first occur.
pub open spec fn distinct_types(files: Seq<FileRecord>) -> Seq<Seq<char>> {
    distinct(types_of(files))
}

/// The files of one type, counted and weighed.
#[derive(Debug)]
pub struct TypeStatistics {
    pub file_type: String,
    pub count: usize,
    pub total_size: u64,
}

/// No type weighs more than all records together.
pub proof fn lemma_type_within_total(files: Seq<FileRecord>, label: Seq<char>)
    ensures
        size_of_type(files, label) <= total_size(files),
    decreases files.len(),
{
    if files.len() > 0 {
        lemma_type_within_total(files.drop_last(), label);
    }
}

/// A longer list weighs at least as much as its beginning.
pub proof fn lemma_total_size_grows(files: Seq<FileRecord>, n: int)
    requires
        0 <= n <= files.len(),
    ensures
        total_size(files.take(n)) <= total_size(files),
    decreases files.len() - n,
{
    if n < files.len() {
        lemma_total_size_grows(files, n + 1);
        assert(files.take(n + 1).drop_last() =~= files.take(n));
    } else {
        assert(files.take(n) =~= files);
    }
}

/// Records of a type that none carries weigh nothing.
pub proof fn lemma_zero_count_weighs_nothing(files: Seq<FileRecord>, label: Seq<char>)
    requires
        count_of_type(files, label) == 0,
    ensures
        size_of_type(files, label) == 0,
    decreases files.len(),
{
    if files.len() > 0 {
        assert(types_of(files).drop_last() =~= types_of(files.drop_last()));
        lemma_zero_count_weighs_nothing(files.drop_last(), label);
    }
}

/// Where the statistics of the type label stand in the list, if they do.
fn position_of_type(stats: &Vec<TypeStatistics>, label: &String) -> (found: Option<usize>)
    ensures
        match found {
            Some(at) => at < stats.len() && stats[at as int].file_type@ == label@,
            None => forall|j: int| 0 <= j < stats.len() ==> (#[trigger] stats[j]).file_type@ != label@,
        },
{
    let mut k: usize = 0;
    while k < stats.len()
        invariant
            k <= stats.len(),
            forall|j: int| 0 <= j < k ==> (#[trigger] stats[j]).file_type@ != label@,
        decreases stats.len() - k,
    {
        if stats[k].file_type == *label {
            return Some(k);
        }
        k += 1;
    }
    None
}

/// The total size of the records, or `None` where it does not fit.
pub fn checked_total_size(files: &[FileInfo]) -> (total: Option<u64>)
    ensures
        match total {
            Some(t) => t == total_size(records(files@)),
            None => total_size(records(files@)) > u64::MAX,
        },
{
    let ghost recs = records(files@);
    let mut total: u64 = 0;
    let mut i: usize = 0;
    while i < files.len()
        invariant
            i <= files.len(),
            recs == records(files@),
            total == total_size(recs.take(i as int)),
        decreases files.len() - i,
    {
        proof {
            assert(recs.take(i + 1).drop_last() =~= recs.take(i as int));
        }
        match total.checked_add(files[i].size) {
            Some(t) => {
                total = t;
            },
            None => {
                proof {
                    lemma_total_size_grows(recs, i + 1);
                }
                return None;
            },
        }
        i += 1;
    }
    assert(recs.take(files.len() as int) =~= recs);
    Some(total)
}

/// For every type label that occurs among the records, in the order of first
/// occurrence: how many records carry it and what they weigh together.
pub fn get_file_type_statistics(files: &[FileInfo]) -> (stats: Vec<TypeStatistics>)
    requires
        total_size(records(files@)) <= u64::MAX,
    ensures
        stats.len() == distinct_types(records(files@)).len(),
        forall|k: int|
            0 <= k < stats.len() ==> {
                let label = distinct_types(records(files@))[k];
                &&& (#[trigger] stats[k]).file_type@ == label
                &&& stats[k].count == count_of_type(records(files@), label)
                &&& stats[k].total_size == size_of_type(records(files@), label)
            },
{
    let ghost recs = records(files@);
    let mut stats: Vec<TypeStatistics> = Vec::new();
    let mut i: usize = 0;
    while i < files.len()
        invariant
            i <= files.len(),
            recs == records(files@),
            total_size(recs) <= u64::MAX,
            stats.len() == distinct_types(recs.take(i as int)).len(),
            forall|k: int|
                0 <= k < stats.len() ==> {
                    let label = distinct_types(recs.take(i as int))[k];
                    &&& (#[trigger] stats[k]).file_type@ == label
                    &&& stats[k].count == count_of_type(recs.take(i as int), label)
                    &&& stats[k].total_size == size_of_type(recs.take(i as int), label)
                },
        decreases files.len() - i,
    {
        let ghost seen = recs.take(i as int);
        let ghost next = recs.take(i + 1);
        let ghost labels = distinct_types(seen);
        let ghost label = files@[i as int].file_type@;
        proof {
            assert(next.drop_last() =~= seen);
            assert(types_of(next).drop_last() =~= types_of(seen));
            lemma_total_size_grows(recs, i + 1);
            lemma_type_within_total(next, label);
            lemma_occurrences_bounded(types_of(next), label);
            lemma_distinct(types_of(seen), label);
        }
        let found = position_of_type(&stats, &files[i].file_type);
        match found {
            Some(at) => {
                stats[at].count = stats[at].count + 1;
                stats[at].total_size = stats[at].total_size + files[i].size;
            },
            None => {
                assert(!labels.contains(label)) by {
                    if labels.contains(label) {
                        let j = choose|j: int| 0 <= j < labels.len() && labels[j] == label;
                        assert(stats[j].file_type@ == labels[j]);
                    }
                }
                proof {
                    lemma_zero_count_weighs_nothing(seen, label);
                }
                stats.push(
                    TypeStatistics {
                        file_type: files[i].file_type.clone(),
                        count: 1,
                        total_size: files[i].size,
                    },
                );
            },
        }
        i += 1;
    }
    assert(recs.take(files.len() as int) =~= recs);
    stats
}

/// The files that a list of references points to.
pub open spec fn referents(refs: Seq<&FileInfo>) -> Seq<FileInfo> {
    refs.map_values(|r: &FileInfo| *r)
}

/// `top` holds the first `count` files of the sorted order of `files`, or all
/// of them where there are fewer.
pub open spec fn is_top_of(
    files: Seq<FileInfo>,
    by: SortCriteria,
    count: nat,
    top: Seq<FileInfo>,
) -> bool {
    exists|order: Seq<usize>|
        is_sorted_order(records(files), by, order) && top == arranged(
            files,
            order.take(
                if count <= files.len() {
                    count as int
                } else {
                    files.len() as int
                },
            ),
        )
}

/// The first `count` files of `files` under the criterion.
fn top_by<'a>(files: &'a [FileInfo], by: SortCriteria, count: usize) -> (top: Vec<&'a FileInfo>)
    ensures
        is_top_of(files@, by, count as nat, referents(top@)),
{
    let order = sorted_order(files, by);
    let n = if count <= files.len() {
        count
    } else {
        files.len()
    };
    let mut top: Vec<&'a FileInfo> = Vec::new();
    let mut k: usize = 0;
    while k < n
        invariant
            k <= n <= order.len(),
            top.len() == k,
            is_sorted_order(records(files@), by, order@),
            referents(top@) == arranged(files@, order@.take(k as int)),
        decreases n - k,
    {
        let ghost before = top@;
        top.push(&files[order[k]]);
        proof {
            let want = arranged(files@, order@.take(k + 1));
            assert forall|j: int| 0 <= j < want.len() implies referents(top@)[j] == want[j] by {
                if j < k {
                    assert(referents(before)[j] == arranged(files@, order@.take(k as int))[j]);
                }
            }
        }
        k += 1;
    }
    top
}

/// The `count` largest files, the largest first; files of one size stay in
/// the order they came in.
pub fn get_largest_files<'a>(files: &'a [FileInfo], count: usize) -> (top: Vec<&'a FileInfo>)
    ensures
        is_top_of(files@, SortCriteria::Size, count as nat, referents(top@)),
{
    top_by(files, SortCriteria::Size, count)
}

/// The `count` files that have gone unused the longest, the longest first;
/// files last used in the same second stay in the order they came in.
pub fn get_oldest_files<'a>(files: &'a [FileInfo], count: usize) -> (top: Vec<&'a FileInfo>)
    ensures
        is_top_of(files@, SortCriteria::MostStaleFirst, count as nat, referents(top@)),
{
    top_by(files, SortCriteria::MostStaleFirst, count)
}

/// The files of exactly this size, in the order they came in.
pub open spec fn with_size(files: Seq<FileInfo>, size: u64) -> Seq<FileInfo> {
    files.filter(|f: FileInfo| f.size == size)
}

/// There are files of a size exactly where some file has it.
pub proof fn lemma_with_size_occurs(files: Seq<FileInfo>, size: u64)
    ensures
        with_size(files, size).len() >= 1 <==> exists|j: int|
            0 <= j < files.len() && (#[trigger] files[j]).size == size,
    decreases files.len(),
{
    reveal(Seq::filter);
    if files.len() > 0 {
        let init = files.drop_last();
        lemma_with_size_occurs(init, size);
        if with_size(files, size).len() >= 1 && files.last().size != size {
            let j = choose|j: int| 0 <= j < init.len() && (#[trigger] init[j]).size == size;
            assert(files[j].size == size);
        }
        if exists|j: int| 0 <= j < files.len() && (#[trigger] files[j]).size == size {
            let j = choose|j: int| 0 <= j < files.len() && (#[trigger] files[j]).size == size;
            if j < init.len() {
                assert(init[j].size == size);
            }
        }
    }
}

/// Taking one more file into the list adds it to the files of its size and
/// leaves the files of every other size as they were.
pub proof fn lemma_with_size_step(files: Seq<FileInfo>, i: int, size: u64)
    requires
        0 <= i < files.len(),
    ensures
        with_size(files.take(i + 1), size) == if files[i].size == size {
            with_size(files.take(i), size).push(files[i])
        } else {
            with_size(files.take(i), size)
        },
{
    reveal(Seq::filter);
    assert(files.take(i + 1).drop_last() =~= files.take(i));
}

/// Some file among the first `n` has the size.
pub open spec fn among_first(files: Seq<FileInfo>, n: int, size: u64) -> bool {
    exists|j: int| 0 <= j < n && (#[trigger] files[j]).size == size
}

/// The files that share their size with another file, grouped by size. Every
/// group holds all files of its size, in the order they came in; a size that
/// only one file has gets no group.
pub fn get_duplicate_files<'a>(files: &'a [FileInfo]) -> (groups: HashMap<u64, Vec<&'a FileInfo>>)
    ensures
        forall|size: u64| #[trigger]
            groups@.contains_key(size) <==> with_size(files@, size).len() >= 2,
        forall|size: u64| #[trigger]
            groups@.contains_key(size) ==> referents(groups@[size]@) == with_size(files@, size),
{
    let mut all: HashMap<u64, Vec<&'a FileInfo>> = HashMap::new();
    let mut i: usize = 0;
    proof {
        reveal(Seq::filter);
    }
    while i < files.len()
        invariant
            i <= files.len(),
            forall|size: u64| #[trigger]
                all@.contains_key(size) <==> with_size(files@.take(i as int), size).len() >= 1,
            forall|size: u64| #[trigger]
                all@.contains_key(size) ==> referents(all@[size]@) == with_size(
                    files@.take(i as int),
                    size,
                ),
        decreases files.len() - i,
    {
        let size = files[i].size;
        let mut group = match all.remove(&size) {
            Some(group) => group,
            None => Vec::new(),
        };
        proof {
            lemma_with_size_step(files@, i as int, size);
        }
        group.push(&files[i]);
        all.insert(size, group);
        proof {
            assert forall|other: u64| #[trigger]
                all@.contains_key(other) <==> with_size(files@.take(i + 1), other).len() >= 1 by {
                lemma_with_size_step(files@, i as int, other);
            }
            assert forall|other: u64| #[trigger] all@.contains_key(other) implies referents(
                all@[other]@,
            ) == with_size(files@.take(i + 1), other) by {
                lemma_with_size_step(files@, i as int, other);
            }
        }
        i += 1;
    }
    assert(files@.take(files.len() as int) =~= files@);
    let mut groups: HashMap<u64, Vec<&'a FileInfo>> = HashMap::new();
    let mut i: usize = 0;
    while i < files.len()
        invariant
            i <= files.len(),
            forall|size: u64| #[trigger]
                all@.contains_key(size) <==> with_size(files@, size).len() >= 1 && !among_first(
                    files@,
                    i as int,
                    size,
                ),
            forall|size: u64| #[trigger]
                all@.contains_key(size) ==> referents(all@[size]@) == with_size(files@, size),
            forall|size: u64| #[trigger]
                groups@.contains_key(size) <==> with_size(files@, size).len() >= 2 && among_first(
                    files@,
                    i as int,
                    size,
                ),
            forall|size: u64| #[trigger]
                groups@.contains_key(size) ==> referents(groups@[size]@) == with_size(files@, size),
        decreases files.len() - i,
    {
        let size = files[i].size;
        let ghost all_before = all@;
        let ghost groups_before = groups@;
        proof {
            lemma_with_size_occurs(files@, size);
        }
        match all.remove(&size) {
            Some(group) => {
                if group.len() > 1 {
                    groups.insert(size, group);
                }
            },
            None => {},
        }
        proof {
            assert forall|other: u64|
                among_first(files@, i + 1, other) <==> among_first(files@, i as int, other) || other
                    == size by {
                if among_first(files@, i + 1, other) && other != size {
                    let j = choose|j: int| 0 <= j < i + 1 && (#[trigger] files@[j]).size == other;
                    assert(0 <= j < i);
                }
                if among_first(files@, i as int, other) {
                    let j = choose|j: int| 0 <= j < i && (#[trigger] files@[j]).size == other;
                    assert(0 <= j < i + 1);
                }
                if other == size {
                    assert(files@[i as int].size == other);
                }
            }
            assert forall|other: u64| #[trigger]
                all@.contains_key(other) <==> with_size(files@, other).len() >= 1 && !among_first(
                    files@,
                    i + 1,
                    other,
                ) by {
                assert(all_before.contains_key(other) <==> with_size(files@, other).len() >= 1
                    && !among_first(files@, i as int, other));
            }
            assert forall|other: u64| #[trigger]
                groups@.contains_key(other) <==> with_size(files@, other).len() >= 2 && among_first(
                    files@,
                    i + 1,
                    other,
                ) by {
                assert(groups_before.contains_key(other) <==> with_size(files@, other).len() >= 2
                    && among_first(files@, i as int, other));
                assert(all_before.contains_key(other) <==> with_size(files@, other).len() >= 1
                    && !among_first(files@, i as int, other));
            }
        }
        i += 1;
    }
    proof {
        assert forall|size: u64| #[trigger]
            groups@.contains_key(size) <==> with_size(files@, size).len() >= 2 by {
            lemma_with_size_occurs(files@, size);
        }
    }
    groups
}

/// The file at position `i` repeats a size that an earlier file has.
pub open spec fn is_surplus(files: Seq<FileRecord>, i: int) -> bool {
    exists|j: int| 0 <= j < i && (#[trigger] files[j]).size == files[i].size
}

/// The sizes of all files that repeat the size of an earlier file, added up:
/// what is won by keeping one file of every size.
pub open spec fn surplus_size(files: Seq<FileRecord>) -> nat
    decreases files.len(),
{
    if files.len() == 0 {
        0
    } else {
        surplus_size(files.drop_last()) + if is_surplus(files, files.len() - 1) {
            files.last().size
        } else {
            0nat
        }
    }
}

/// How many files repeat the size of an earlier file.
pub open spec fn surplus_count(files: Seq<FileRecord>) -> nat
    decreases files.len(),
{
    if files.len() == 0 {
        0
    } else {
        surplus_count(files.drop_last()) + if is_surplus(files, files.len() - 1) {
            1nat
        } else {
            0nat
        }
    }
}

/// How many records have the size.
pub open spec fn count_of_size(files: Seq<FileRecord>, size: nat) -> nat
    decreases files.len(),
{
    if files.len() == 0 {
        0
    } else {
        count_of_size(files.drop_last(), size) + if files.last().size == size {
            1nat
        } else {
            0nat
        }
    }
}

/// The sizes that occur among the records, each once, in the order in which
/// they first occur.
pub open spec fn distinct_sizes(files: Seq<FileRecord>) -> Seq<nat>
    decreases files.len(),
{
    if files.len() == 0 {
        Seq::empty()
    } else {
        let before = distinct_sizes(files.drop_last());
        if before.contains(files.last().size) {
            before
        } else {
            before.push(files.last().size)
        }
    }
}

/// What is won in the groups of the given sizes by keeping one file of each
/// group: for every group its size times the number of its members but one.
pub open spec fn group_savings(files: Seq<FileRecord>, sizes: Seq<nat>) -> nat
    decreases sizes.len(),
{
    if sizes.len() == 0 {
        0
    } else {
        group_savings(files, sizes.drop_last()) + sizes.last() * (count_of_size(files, sizes.last())
            - 1) as nat
    }
}

/// `distinct_sizes` lists no size twice, and lists a size exactly where some
/// record has it.
pub proof fn lemma_distinct_sizes(files: Seq<FileRecord>, size: nat)
    ensures
        distinct_sizes(files).no_duplicates(),
        distinct_sizes(files).contains(size) <==> count_of_size(files, size) > 0,
        distinct_sizes(files).len() <= files.len(),
    decreases files.len(),
{
    if files.len() > 0 {
        let init = files.drop_last();
        let last = files.last().size;
        lemma_distinct_sizes(init, size);
        lemma_distinct_sizes(init, last);
        let before = distinct_sizes(init);
        let after = distinct_sizes(files);
        if !before.contains(last) {
            assert(after[after.len() - 1] == last);
            if before.contains(size) {
                let k = choose|k: int| 0 <= k < before.len() && before[k] == size;
                assert(after[k] == size);
            }
        }
    }
}

/// A record is surplus exactly where an earlier record has its size.
pub proof fn lemma_surplus_means_counted(files: Seq<FileRecord>)
    requires
        files.len() > 0,
    ensures
        is_surplus(files, files.len() - 1) <==> count_of_size(files.drop_last(), files.last().size)
            > 0,
{
    let init = files.drop_last();
    let size = files.last().size;
    lemma_count_of_size_occurs(init, size);
    if is_surplus(files, files.len() - 1) {
        let j = choose|j: int| 0 <= j < files.len() - 1 && (#[trigger] files[j]).size == size;
        assert(init[j].size == size);
    }
}

/// Records of a size are counted exactly where some record has the size.
pub proof fn lemma_count_of_size_occurs(files: Seq<FileRecord>, size: nat)
    ensures
        count_of_size(files, size) > 0 <==> exists|j: int|
            0 <= j < files.len() && (#[trigger] files[j]).size == size,
    decreases files.len(),
{
    if files.len() > 0 {
        let init = files.drop_last();
        lemma_count_of_size_occurs(init, size);
        if count_of_size(files, size) > 0 && files.last().size != size {
            let j = choose|j: int| 0 <= j < init.len() && (#[trigger] init[j]).size == size;
            assert(files[j].size == size);
        }
        if exists|j: int| 0 <= j < files.len() && (#[trigger] files[j]).size == size {
            let j = choose|j: int| 0 <= j < files.len() && (#[trigger] files[j]).size == size;
            if j < init.len() {
                assert(init[j].size == size);
            }
        }
    }
}

/// One more record of a size adds that size to the savings of the groups
/// where it joins a group among them, and leaves the savings as they were
/// where its size is not among the groups.
pub proof fn lemma_group_savings_step(files: Seq<FileRecord>, sizes: Seq<nat>)
    requires
        files.len() > 0,
        sizes.no_duplicates(),
        forall|k: int| 0 <= k < sizes.len() ==> count_of_size(files.drop_last(), #[trigger] sizes[k]) > 0,
    ensures
        group_savings(files, sizes) == group_savings(files.drop_last(), sizes) + if sizes.contains(
            files.last().size,
        ) {
            files.last().size
        } else {
            0nat
        },
    decreases sizes.len(),
{
    if sizes.len() > 0 {
        let init = files.drop_last();
        let size = files.last().size;
        let rest = sizes.drop_last();
        let s = sizes.last();
        lemma_group_savings_step(files, rest);
        if s == size {
            assert(!rest.contains(size)) by {
                if rest.contains(size) {
                    let k = choose|k: int| 0 <= k < rest.len() && rest[k] == size;
                    assert(sizes[k] == sizes[sizes.len() - 1]);
                }
            }
            let n = count_of_size(init, s);
            assert(s * n == s * ((n - 1) as nat) + s) by (nonlinear_arith)
                requires
                    n > 0,
            ;
        } else {
            if sizes.contains(size) {
                let k = choose|k: int| 0 <= k < sizes.len() && sizes[k] == size;
                assert(rest[k] == size);
            }
        }
    }
}

/// The surplus is what the groups of equal size yield: the size of each
/// group times the number of its members but one, over all sizes that occur.
/// And the surplus files are all files but one of every size.
pub proof fn lemma_surplus_is_group_savings(files: Seq<FileRecord>)
    ensures
        surplus_size(files) == group_savings(files, distinct_sizes(files)),
        surplus_count(files) + distinct_sizes(files).len() == files.len(),
    decreases files.len(),
{
    if files.len() > 0 {
        let init = files.drop_last();
        let size = files.last().size;
        let before = distinct_sizes(init);
        lemma_surplus_is_group_savings(init);
        lemma_surplus_means_counted(files);
        lemma_distinct_sizes(init, size);
        assert forall|k: int| 0 <= k < before.len() implies count_of_size(init, #[trigger] before[k])
            > 0 by {
            lemma_distinct_sizes(init, before[k]);
        }
        lemma_group_savings_step(files, before);
        if !before.contains(size) {
            let after = distinct_sizes(files);
            assert(after.drop_last() =~= before);
            assert(size * ((count_of_size(files, size) - 1) as nat) == 0) by (nonlinear_arith)
                requires
                    count_of_size(files, size) == 1,
            ;
        }
    }
}

/// The files of a size are as many as the records that have it.
pub proof fn lemma_with_size_counts(files: Seq<FileInfo>, size: u64)
    ensures
        with_size(files, size).len() == count_of_size(records(files), size as nat),
    decreases files.len(),
{
    reveal(Seq::filter);
    if files.len() > 0 {
        lemma_with_size_counts(files.drop_last(), size);
        assert(records(files).drop_last() =~= records(files.drop_last()));
    }
}

/// The surplus is part of the whole.
pub proof fn lemma_surplus_within_total(files: Seq<FileRecord>)
    ensures
        surplus_size(files) <= total_size(files),
        surplus_count(files) <= files.len(),
    decreases files.len(),
{
    if files.len() > 0 {
        lemma_surplus_within_total(files.drop_last());
    }
}

/// A longer list has at least the surplus of its beginning.
pub proof fn lemma_surplus_grows(files: Seq<FileRecord>, n: int)
    requires
        0 <= n <= files.len(),
    ensures
        surplus_size(files.take(n)) <= surplus_size(files),
    decreases files.len() - n,
{
    if n < files.len() {
        lemma_surplus_grows(files, n + 1);
        let longer = files.take(n + 1);
        assert(longer.drop_last() =~= files.take(n));
    } else {
        assert(files.take(n) =~= files);
    }
}

/// What could be freed by keeping one file of every size and removing the
/// others, and how many files that removes. Equal size is taken for equal
/// content, so this is an upper bound.
pub fn calculate_space_savings(files: &[FileInfo]) -> (savings: (u64, u64))
    requires
        surplus_size(records(files@)) <= u64::MAX,
    ensures
        savings.0 == surplus_size(records(files@)),
        savings.1 == surplus_count(records(files@)),
{
    let ghost recs = records(files@);
    let mut seen: HashSet<u64> = HashSet::new();
    let mut potential_savings: u64 = 0;
    let mut duplicate_count: u64 = 0;
    let mut i: usize = 0;
    while i < files.len()
        invariant
            i <= files.len(),
            recs == records(files@),
            surplus_size(recs) <= u64::MAX,
            potential_savings == surplus_size(recs.take(i as int)),
            duplicate_count == surplus_count(recs.take(i as int)),
            forall|size: u64| #[trigger]
                seen@.contains(size) <==> exists|j: int|
                    0 <= j < i && (#[trigger] recs[j]).size == size,
        decreases files.len() - i,
    {
        let size = files[i].size;
        let ghost head = recs.take(i + 1);
        proof {
            assert(head.drop_last() =~= recs.take(i as int));
            lemma_surplus_grows(recs, i + 1);
            lemma_surplus_within_total(head);
            if is_surplus(head, i as int) {
                let j = choose|j: int|
                    0 <= j < i && (#[trigger] head[j]).size == head[i as int].size;
                assert(recs[j].size == size);
            }
            if exists|j: int| 0 <= j < i && (#[trigger] recs[j]).size == size {
                let j = choose|j: int| 0 <= j < i && (#[trigger] recs[j]).size == size;
                assert(head[j].size == head[i as int].size);
            }
        }
        if seen.contains(&size) {
            potential_savings = potential_savings + size;
            duplicate_count = duplicate_count + 1;
        } else {
            seen.insert(size);
        }
        i += 1;
    }
    assert(recs.take(files.len() as int) =~= recs);
    (potential_savings, duplicate_count)
}

} // verus!
