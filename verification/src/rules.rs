//! Rules that select among the records of a scan: a file is selected when it
//! is stale enough, large enough, of a wanted kind and at a wanted place.
//! Every condition of a rule must hold; the order of the records is kept.

use vstd::prelude::*;
use vstd::string::*;
use crate::clock::unix_now;
use crate::pattern::{fits_parts, glob_matches, lemma_empty_parts_match_everything};
use crate::paths::{parent, parent_of};
use crate::scanner::{
    count_of_type, distinct_types, records, total_size, types_of, FileInfo, FileRecord,
};
use crate::sorting::{sorted_positions, SortKeys};
use crate::tally::{count_texts, distinct, is_count_of, lemma_distinct, occurrences, TextCount};
use crate::text::{
    chars_of, contains_chars, contains_ignoring_case, decimal, decimal_text, has_char,
    lowercase_of, pieces_view, same_text, split_chars, split_on, text_of, texts_view,
    to_lowercase,
};

verus! {

/// What a rule asks of a file.
#[derive(Debug)]
pub struct RuleConfig {
    /// The file must have gone unused for at least this many days.
    pub max_age_days: u64,
    /// The file must hold at least this many mebibytes.
    pub min_size_mb: u64,
    /// The file must hold at most this many mebibytes, where set.
    pub max_size_mb: Option<u64>,
    /// The type label must contain one of these, where set.
    pub file_types: Option<Vec<String>>,
    /// The type label must contain none of these, where set.
    pub exclude_file_types: Option<Vec<String>>,
    /// Hidden files are left out unless this is set.
    pub include_hidden: bool,
    /// Read-only files are left out unless this is set.
    pub include_readonly: bool,
    /// Executable files are left out unless this is set.
    pub include_executable: bool,
    /// The path must match one of these patterns, where there are any.
    pub custom_patterns: Vec<String>,
    /// The path must match none of these patterns.
    pub exclude_patterns: Vec<String>,
}

/// What a [`RuleConfig`] holds, as plain mathematical values.
pub struct RuleConfigView {
    pub max_age_days: nat,
    pub min_size_mb: nat,
    pub max_size_mb: Option<nat>,
    pub file_types: Option<Seq<Seq<char>>>,
    pub exclude_file_types: Option<Seq<Seq<char>>>,
    pub include_hidden: bool,
    pub include_readonly: bool,
    pub include_executable: bool,
    pub custom_patterns: Seq<Seq<char>>,
    pub exclude_patterns: Seq<Seq<char>>,
}

/// The texts of an optional list.
pub open spec fn optional_texts(list: Option<Vec<String>>) -> Option<Seq<Seq<char>>> {
    match list {
        Some(texts) => Some(texts_view(texts@)),
        None => None,
    }
}

impl View for RuleConfig {
    type V = RuleConfigView;

    open spec fn view(&self) -> RuleConfigView {
        RuleConfigView {
            max_age_days: self.max_age_days as nat,
            min_size_mb: self.min_size_mb as nat,
            max_size_mb: match self.max_size_mb {
                Some(mb) => Some(mb as nat),
                None => None,
            },
            file_types: optional_texts(self.file_types),
            exclude_file_types: optional_texts(self.exclude_file_types),
            include_hidden: self.include_hidden,
            include_readonly: self.include_readonly,
            include_executable: self.include_executable,
            custom_patterns: texts_view(self.custom_patterns@),
            exclude_patterns: texts_view(self.exclude_patterns@),
        }
    }
}

/// The rule that asks for nothing but leaves out hidden, read-only and
/// executable files.
pub open spec fn default_rule() -> RuleConfigView {
    RuleConfigView {
        max_age_days: 0,
        min_size_mb: 0,
        max_size_mb: None,
        file_types: None,
        exclude_file_types: None,
        include_hidden: false,
        include_readonly: false,
        include_executable: false,
        custom_patterns: Seq::empty(),
        exclude_patterns: Seq::empty(),
    }
}

impl Default for RuleConfig {
    fn default() -> (rule: Self)
        ensures
            rule@ == default_rule(),
    {
        let rule = RuleConfig {
            max_age_days: 0,
            min_size_mb: 0,
            max_size_mb: None,
            file_types: None,
            exclude_file_types: None,
            include_hidden: false,
            include_readonly: false,
            include_executable: false,
            custom_patterns: Vec::new(),
            exclude_patterns: Vec::new(),
        };
        assert(rule@.custom_patterns =~= default_rule().custom_patterns);
        rule
    }
}

/// A copy of a list of texts.
pub fn copy_texts(texts: &Vec<String>) -> (copy: Vec<String>)
    ensures
        copy@ == texts@,
{
    let mut copy: Vec<String> = Vec::new();
    let mut i: usize = 0;
    while i < texts.len()
        invariant
            i <= texts.len(),
            copy@ == texts@.take(i as int),
        decreases texts.len() - i,
    {
        copy.push(texts[i].clone());
        i += 1;
    }
    copy
}

impl Clone for RuleConfig {
    fn clone(&self) -> (copy: Self)
        ensures
            copy@ == self@,
    {
        RuleConfig {
            max_age_days: self.max_age_days,
            min_size_mb: self.min_size_mb,
            max_size_mb: self.max_size_mb,
            file_types: match &self.file_types {
                Some(list) => Some(copy_texts(list)),
                None => None,
            },
            exclude_file_types: match &self.exclude_file_types {
                Some(list) => Some(copy_texts(list)),
                None => None,
            },
            include_hidden: self.include_hidden,
            include_readonly: self.include_readonly,
            include_executable: self.include_executable,
            custom_patterns: copy_texts(&self.custom_patterns),
            exclude_patterns: copy_texts(&self.exclude_patterns),
        }
    }
}

/// A rule with a name, offered as a suggestion.
#[derive(Debug)]
pub struct SmartRule {
    pub name: String,
    pub description: String,
    pub config: RuleConfig,
    pub priority: u8,
}

/// What a [`SmartRule`] holds, as plain mathematical values.
pub struct SmartRuleView {
    pub name: Seq<char>,
    pub description: Seq<char>,
    pub config: RuleConfigView,
    pub priority: nat,
}

impl View for SmartRule {
    type V = SmartRuleView;

    open spec fn view(&self) -> SmartRuleView {
        SmartRuleView {
            name: self.name@,
            description: self.description@,
            config: self.config@,
            priority: self.priority as nat,
        }
    }
}

impl Clone for SmartRule {
    fn clone(&self) -> (copy: Self)
        ensures
            copy@ == self@,
    {
        SmartRule {
            name: self.name.clone(),
            description: self.description.clone(),
            config: self.config.clone(),
            priority: self.priority,
        }
    }
}

/// The priority of a rule that was given none.
pub const DEFAULT_PRIORITY: u8 = 5;

impl SmartRule {
    /// A rule of middling priority under the given name.
    pub fn new(name: &str, description: &str, config: RuleConfig) -> (rule: Self)
        ensures
            rule@ == (SmartRuleView {
                name: name@,
                description: description@,
                config: config@,
                priority: DEFAULT_PRIORITY as nat,
            }),
    {
        SmartRule {
            name: name.to_string(),
            description: description.to_string(),
            config,
            priority: DEFAULT_PRIORITY,
        }
    }
}

/// Seconds in a day.
pub const SECONDS_PER_DAY: u64 = 86400;

/// Bytes in a mebibyte.
pub const BYTES_PER_MB: u64 = 1048576;

/// For how many seconds a file has gone unused at the instant `now`; zero
/// where its last access lies ahead of `now`.
pub open spec fn staleness(now: nat, last_access: nat) -> nat {
    if now >= last_access {
        (now - last_access) as nat
    } else {
        0
    }
}

/// The parts of a wildcard pattern, every part that is not empty in
/// lowercase.
pub open spec fn lowercase_parts(pattern: Seq<char>) -> Seq<Seq<char>> {
    split_on(pattern, '*').map_values(
        |part: Seq<char>|
            if part.len() == 0 {
                part
            } else {
                lowercase_of(part)
            },
    )
}

/// The pattern matches the text. With a star in it, the pattern matches
/// without regard to case: its parts can be laid out in the text, both in
/// lowercase. Without a star it matches the text equal to it.
pub open spec fn wildcard_matches(pattern: Seq<char>, text: Seq<char>) -> bool {
    if pattern.contains('*') {
        glob_matches(lowercase_parts(pattern), lowercase_of(text))
    } else {
        pattern == text
    }
}

/// The path matches the pattern of a rule, without regard to case: by
/// wildcard match where the pattern has a star, and else by holding the
/// pattern somewhere.
pub open spec fn path_matches(path: Seq<char>, pattern: Seq<char>) -> bool {
    if pattern.contains('*') {
        wildcard_matches(pattern, path)
    } else {
        contains_ignoring_case(path, pattern)
    }
}

/// The path matches one of the patterns.
pub open spec fn path_matches_any(path: Seq<char>, patterns: Seq<Seq<char>>) -> bool {
    exists|i: int| 0 <= i < patterns.len() && path_matches(path, #[trigger] patterns[i])
}

/// The type label holds one of the entries, without regard to case.
pub open spec fn label_matches_any(label: Seq<char>, entries: Seq<Seq<char>>) -> bool {
    exists|i: int| 0 <= i < entries.len() && contains_ignoring_case(label, #[trigger] entries[i])
}

/// The rule selects the file at the instant `now`: every one of its
/// conditions holds.
pub open spec fn rule_matches(file: FileRecord, rule: RuleConfigView, now: nat) -> bool {
    &&& staleness(now, file.last_access_secs) >= rule.max_age_days * SECONDS_PER_DAY
    &&& file.size >= rule.min_size_mb * BYTES_PER_MB
    &&& (rule.max_size_mb matches Some(mb) ==> file.size <= mb * BYTES_PER_MB)
    &&& (file.is_hidden ==> rule.include_hidden)
    &&& (file.is_readonly ==> rule.include_readonly)
    &&& (file.is_executable ==> rule.include_executable)
    &&& (rule.file_types matches Some(wanted) ==> label_matches_any(file.file_type, wanted))
    &&& (rule.exclude_file_types matches Some(unwanted) ==> !label_matches_any(
        file.file_type,
        unwanted,
    ))
    &&& (rule.custom_patterns.len() > 0 ==> path_matches_any(file.path, rule.custom_patterns))
    &&& !path_matches_any(file.path, rule.exclude_patterns)
}

/// The files that the rule selects at the instant `now`, in the order they
/// came in.
pub open spec fn selected(files: Seq<FileInfo>, rule: RuleConfigView, now: nat) -> Seq<FileInfo> {
    files.filter(|f: FileInfo| rule_matches(f@, rule, now))
}

/// A lone star matches every text.
pub proof fn lemma_star_matches_everything(text: Seq<char>)
    ensures
        wildcard_matches(seq!['*'], text),
        path_matches(text, seq!['*']),
{
    let pattern = seq!['*'];
    assert(split_on(pattern.drop_last(), '*') =~= seq![Seq::<char>::empty()]);
    lemma_empty_parts_match_everything(lowercase_parts(pattern), lowercase_of(text));
}

/// Whether the pattern matches the text: without regard to case where the
/// pattern has a star, letter for letter where it has none.
pub fn wildcard_match(pattern: &str, text: &str) -> (matched: bool)
    ensures
        matched == wildcard_matches(pattern@, text@),
        pattern@ == seq!['*'] ==> matched,
        !pattern@.contains('*') ==> matched == (pattern@ == text@),
{
    proof {
        lemma_star_matches_everything(text@);
    }
    let pattern_chars = chars_of(pattern);
    if !has_char(&pattern_chars, '*') {
        return same_text(pattern, text);
    }
    let text_chars = chars_of(to_lowercase(text).as_str());
    let parts = split_chars(&pattern_chars, '*');
    let mut lowered: Vec<Vec<char>> = Vec::new();
    let mut i: usize = 0;
    while i < parts.len()
        invariant
            i <= parts.len(),
            pieces_view(parts@) == split_on(pattern@, '*'),
            pieces_view(lowered@) == lowercase_parts(pattern@).take(i as int),
        decreases parts.len() - i,
    {
        let ghost before = pieces_view(lowered@);
        let ghost want = lowercase_parts(pattern@)[i as int];
        let lower: Vec<char> = if parts[i].len() == 0 {
            Vec::new()
        } else {
            let part = text_of(&parts[i], 0, parts[i].len());
            assert(part@ =~= parts@[i as int]@);
            chars_of(to_lowercase(part.as_str()).as_str())
        };
        assert(lower@ =~= want);
        lowered.push(lower);
        proof {
            assert(pieces_view(lowered@) =~= before.push(want));
        }
        i += 1;
    }
    assert(lowercase_parts(pattern@).take(parts.len() as int) =~= lowercase_parts(pattern@));
    fits_parts(&lowered, &text_chars)
}

/// Whether the path matches the pattern of a rule, without regard to case.
pub fn pattern_matches(path: &str, pattern: &str) -> (matched: bool)
    ensures
        matched == path_matches(path@, pattern@),
        pattern@ == seq!['*'] ==> matched,
        !pattern@.contains('*') ==> matched == contains_ignoring_case(path@, pattern@),
{
    proof {
        lemma_star_matches_everything(path@);
    }
    let pattern_chars = chars_of(pattern);
    if has_char(&pattern_chars, '*') {
        wildcard_match(pattern, path)
    } else {
        contains_lowercase(path, pattern)
    }
}

/// Whether `text` holds `part`, without regard to case.
pub fn contains_lowercase(text: &str, part: &str) -> (found: bool)
    ensures
        found == contains_ignoring_case(text@, part@),
{
    let text_chars = chars_of(to_lowercase(text).as_str());
    let part_chars = chars_of(to_lowercase(part).as_str());
    contains_chars(&text_chars, &part_chars)
}

/// Whether the path matches one of the patterns.
pub fn matches_any_pattern(path: &str, patterns: &Vec<String>) -> (matched: bool)
    ensures
        matched == path_matches_any(path@, texts_view(patterns@)),
{
    let ghost texts = texts_view(patterns@);
    let mut i: usize = 0;
    while i < patterns.len()
        invariant
            i <= patterns.len(),
            texts == texts_view(patterns@),
            forall|k: int| 0 <= k < i ==> !path_matches(path@, #[trigger] texts[k]),
        decreases patterns.len() - i,
    {
        assert(texts[i as int] == patterns@[i as int]@);
        if pattern_matches(path, patterns[i].as_str()) {
            return true;
        }
        i += 1;
    }
    false
}

/// Whether the type label holds one of the entries, without regard to case.
pub fn matches_any_label(label: &str, entries: &Vec<String>) -> (matched: bool)
    ensures
        matched == label_matches_any(label@, texts_view(entries@)),
{
    let ghost texts = texts_view(entries@);
    let mut i: usize = 0;
    while i < entries.len()
        invariant
            i <= entries.len(),
            texts == texts_view(entries@),
            forall|k: int| 0 <= k < i ==> !contains_ignoring_case(label@, #[trigger] texts[k]),
        decreases entries.len() - i,
    {
        assert(texts[i as int] == entries@[i as int]@);
        if contains_lowercase(label, entries[i].as_str()) {
            return true;
        }
        i += 1;
    }
    false
}

/// `count` units of `unit` each; wide enough never to overflow.
fn scaled(count: u64, unit: u64) -> (product: u128)
    ensures
        product == count * unit,
{
    assert(0 <= count * unit <= 0xffff_ffff_ffff_ffff * 0xffff_ffff_ffff_ffff) by (nonlinear_arith)
        requires
            0 <= count <= 0xffff_ffff_ffff_ffff,
            0 <= unit <= 0xffff_ffff_ffff_ffff,
    ;
    (count as u128) * (unit as u128)
}

/// Whether the rule selects the file at the instant `now_secs`.
pub fn matches_rule(file: &FileInfo, rule: &RuleConfig, now_secs: u64) -> (matched: bool)
    ensures
        matched == rule_matches(file@, rule@, now_secs as nat),
{
    let file_age_secs: u64 = if now_secs >= file.last_access_secs {
        now_secs - file.last_access_secs
    } else {
        0
    };
    if (file_age_secs as u128) < scaled(rule.max_age_days, SECONDS_PER_DAY) {
        return false;
    }
    if (file.size as u128) < scaled(rule.min_size_mb, BYTES_PER_MB) {
        return false;
    }
    match rule.max_size_mb {
        Some(mb) => {
            if (file.size as u128) > scaled(mb, BYTES_PER_MB) {
                return false;
            }
        },
        None => {},
    }
    if file.is_hidden && !rule.include_hidden {
        return false;
    }
    if file.is_readonly && !rule.include_readonly {
        return false;
    }
    if file.is_executable && !rule.include_executable {
        return false;
    }
    match &rule.file_types {
        Some(wanted) => {
            if !matches_any_label(file.file_type.as_str(), wanted) {
                return false;
            }
        },
        None => {},
    }
    match &rule.exclude_file_types {
        Some(unwanted) => {
            if matches_any_label(file.file_type.as_str(), unwanted) {
                return false;
            }
        },
        None => {},
    }
    if rule.custom_patterns.len() > 0 && !matches_any_pattern(
        file.path.as_str(),
        &rule.custom_patterns,
    ) {
        return false;
    }
    !matches_any_pattern(file.path.as_str(), &rule.exclude_patterns)
}

/// The files that the rule selects at the instant `now_secs`, in the order
/// they came in.
pub fn apply_rules_at(
    files: &[FileInfo],
    rule: &RuleConfig,
    now_secs: u64,
) -> (result: Vec<FileInfo>)
    ensures
        result@ == selected(files@, rule@, now_secs as nat),
{
    let mut result: Vec<FileInfo> = Vec::new();
    let mut i: usize = 0;
    proof {
        reveal(Seq::filter);
    }
    while i < files.len()
        invariant
            i <= files.len(),
            result@ == selected(files@.take(i as int), rule@, now_secs as nat),
        decreases files.len() - i,
    {
        proof {
            reveal(Seq::filter);
            assert(files@.take(i + 1).drop_last() =~= files@.take(i as int));
        }
        if matches_rule(&files[i], rule, now_secs) {
            result.push(files[i].clone());
        }
        i += 1;
    }
    assert(files@.take(files.len() as int) =~= files@);
    result
}

/// The files that the rule selects at the present moment, in the order they
/// came in.
pub fn apply_rules(files: &[FileInfo], rule: &RuleConfig) -> (result: Vec<FileInfo>)
    ensures
        exists|now: u64| result@ == selected(files@, rule@, now as nat),
{
    let now_secs = unix_now();
    apply_rules_at(files, rule, now_secs)
}

/// The views of a list of rules.
pub open spec fn rule_views(rules: Seq<SmartRule>) -> Seq<SmartRuleView> {
    rules.map_values(|r: SmartRule| r@)
}

/// A rule of middling priority, as a plain value.
pub open spec fn named_rule(
    name: Seq<char>,
    description: Seq<char>,
    config: RuleConfigView,
) -> SmartRuleView {
    SmartRuleView { name, description, config, priority: DEFAULT_PRIORITY as nat }
}

/// The rules that are offered to every user.
pub open spec fn predefined_rules() -> Seq<SmartRuleView> {
    seq![
        named_rule(
            "Large Old Downloads"@,
            "Files in Downloads folder older than 30 days and larger than 10MB"@,
            RuleConfigView {
                max_age_days: 30,
                min_size_mb: 10,
                custom_patterns: seq!["*/Downloads/*"@, "*/downloads/*"@],
                ..default_rule()
            },
        ),
        named_rule(
            "Temporary Files"@,
            "Common temporary files and cache"@,
            RuleConfigView {
                max_age_days: 7,
                min_size_mb: 1,
                file_types: Some(seq!["tmp"@, "temp"@, "cache"@]),
                ..default_rule()
            },
        ),
        named_rule(
            "Old Media Files"@,
            "Large media files not accessed in 90 days"@,
            RuleConfigView {
                max_age_days: 90,
                min_size_mb: 50,
                file_types: Some(seq!["Video"@, "Audio"@, "Image"@]),
                ..default_rule()
            },
        ),
        named_rule(
            "Huge Files"@,
            "Files larger than 500MB regardless of age"@,
            RuleConfigView { max_age_days: 0, min_size_mb: 500, ..default_rule() },
        ),
        named_rule(
            "Old Archives"@,
            "Archive files older than 180 days"@,
            RuleConfigView {
                max_age_days: 180,
                min_size_mb: 1,
                file_types: Some(seq!["Archive"@]),
                ..default_rule()
            },
        ),
        named_rule(
            "Old Documents"@,
            "Document files not accessed in 365 days"@,
            RuleConfigView {
                max_age_days: 365,
                min_size_mb: 1,
                file_types: Some(seq!["Document"@, "PDF"@, "Spreadsheet"@]),
                ..default_rule()
            },
        ),
        named_rule(
            "Log Files"@,
            "Log files older than 30 days"@,
            RuleConfigView {
                max_age_days: 30,
                min_size_mb: 1,
                custom_patterns: seq!["*.log"@, "*.log.*"@],
                ..default_rule()
            },
        ),
        named_rule(
            "Backup Files"@,
            "Backup files older than 60 days"@,
            RuleConfigView {
                max_age_days: 60,
                min_size_mb: 1,
                custom_patterns: seq!["*.bak"@, "*.backup"@, "*~"@],
                ..default_rule()
            },
        ),
    ]
}

/// A list of up to three texts; an empty text ends the list.
fn text_list(first: &str, second: &str, third: &str) -> (list: Vec<String>)
    ensures
        texts_view(list@) == if first@.len() == 0 {
            Seq::<Seq<char>>::empty()
        } else if second@.len() == 0 {
            seq![first@]
        } else if third@.len() == 0 {
            seq![first@, second@]
        } else {
            seq![first@, second@, third@]
        },
{
    let mut list: Vec<String> = Vec::new();
    if first.unicode_len() > 0 {
        list.push(first.to_string());
        if second.unicode_len() > 0 {
            list.push(second.to_string());
            if third.unicode_len() > 0 {
                list.push(third.to_string());
            }
        }
    }
    list
}

/// A rule that asks for an age and a size and nothing more.
fn threshold_rule(max_age_days: u64, min_size_mb: u64) -> (rule: RuleConfig)
    ensures
        rule@ == (RuleConfigView {
            max_age_days: max_age_days as nat,
            min_size_mb: min_size_mb as nat,
            ..default_rule()
        }),
{
    let mut rule = RuleConfig::default();
    rule.max_age_days = max_age_days;
    rule.min_size_mb = min_size_mb;
    rule
}

/// A rule that asks for an age, a size and one of some type labels.
fn typed_rule(max_age_days: u64, min_size_mb: u64, file_types: Vec<String>) -> (rule: RuleConfig)
    ensures
        rule@ == (RuleConfigView {
            max_age_days: max_age_days as nat,
            min_size_mb: min_size_mb as nat,
            file_types: Some(texts_view(file_types@)),
            ..default_rule()
        }),
{
    let mut rule = RuleConfig::default();
    rule.max_age_days = max_age_days;
    rule.min_size_mb = min_size_mb;
    rule.file_types = Some(file_types);
    rule
}

/// A rule that asks for an age, a size and a path that matches a pattern.
fn pattern_rule(
    max_age_days: u64,
    min_size_mb: u64,
    custom_patterns: Vec<String>,
) -> (rule: RuleConfig)
    ensures
        rule@ == (RuleConfigView {
            max_age_days: max_age_days as nat,
            min_size_mb: min_size_mb as nat,
            custom_patterns: texts_view(custom_patterns@),
            ..default_rule()
        }),
{
    let mut rule = RuleConfig::default();
    rule.max_age_days = max_age_days;
    rule.min_size_mb = min_size_mb;
    rule.custom_patterns = custom_patterns;
    rule
}

/// The rules that are offered to every user.
pub fn get_predefined_rules() -> (rules: Vec<SmartRule>)
    ensures
        rule_views(rules@) == predefined_rules(),
{
    proof {
        reveal_strlit("*/Downloads/*");
        reveal_strlit("*/downloads/*");
        reveal_strlit("tmp");
        reveal_strlit("temp");
        reveal_strlit("cache");
        reveal_strlit("Video");
        reveal_strlit("Audio");
        reveal_strlit("Image");
        reveal_strlit("Archive");
        reveal_strlit("Document");
        reveal_strlit("PDF");
        reveal_strlit("Spreadsheet");
        reveal_strlit("*.log");
        reveal_strlit("*.log.*");
        reveal_strlit("*.bak");
        reveal_strlit("*.backup");
        reveal_strlit("*~");
        reveal_strlit("");
    }
    let mut rules: Vec<SmartRule> = Vec::new();
    rules.push(
        SmartRule::new(
            "Large Old Downloads",
            "Files in Downloads folder older than 30 days and larger than 10MB",
            pattern_rule(30, 10, text_list("*/Downloads/*", "*/downloads/*", "")),
        ),
    );
    rules.push(
        SmartRule::new(
            "Temporary Files",
            "Common temporary files and cache",
            typed_rule(7, 1, text_list("tmp", "temp", "cache")),
        ),
    );
    rules.push(
        SmartRule::new(
            "Old Media Files",
            "Large media files not accessed in 90 days",
            typed_rule(90, 50, text_list("Video", "Audio", "Image")),
        ),
    );
    rules.push(
        SmartRule::new(
            "Huge Files",
            "Files larger than 500MB regardless of age",
            threshold_rule(0, 500),
        ),
    );
    rules.push(
        SmartRule::new(
            "Old Archives",
            "Archive files older than 180 days",
            typed_rule(180, 1, text_list("Archive", "", "")),
        ),
    );
    rules.push(
        SmartRule::new(
            "Old Documents",
            "Document files not accessed in 365 days",
            typed_rule(365, 1, text_list("Document", "PDF", "Spreadsheet")),
        ),
    );
    rules.push(
        SmartRule::new(
            "Log Files",
            "Log files older than 30 days",
            pattern_rule(30, 1, text_list("*.log", "*.log.*", "")),
        ),
    );
    rules.push(
        SmartRule::new(
            "Backup Files",
            "Backup files older than 60 days",
            pattern_rule(60, 1, text_list("*.bak", "*.backup", "*~")),
        ),
    );
    rules
}

/// The name of the range that a size falls in.
pub open spec fn size_range(size: nat) -> Seq<char> {
    if size <= 1024 {
        "0-1KB"@
    } else if size <= 1048576 {
        "1KB-1MB"@
    } else if size <= 104857600 {
        "1MB-100MB"@
    } else if size <= 1073741824 {
        "100MB-1GB"@
    } else {
        "1GB+"@
    }
}

/// The size ranges of the records, one for each.
pub open spec fn size_ranges_of(files: Seq<FileRecord>) -> Seq<Seq<char>> {
    files.map_values(|f: FileRecord| size_range(f.size))
}

/// The directories that the records lie in, one for each record whose path
/// has a final component.
pub open spec fn directories_of(files: Seq<FileRecord>) -> Seq<Seq<char>>
    decreases files.len(),
{
    if files.len() == 0 {
        Seq::empty()
    } else {
        let before = directories_of(files.drop_last());
        match parent_of(files.last().path) {
            Some(dir) => before.push(dir),
            None => before,
        }
    }
}

/// One line of a count: the text, how often it occurs, and the word `files`.
pub open spec fn count_line(text: Seq<char>, count: nat) -> Seq<char> {
    text + ": "@ + decimal(count) + " files"@
}

/// A line for every text that occurs among `keys`, in the order of first
/// occurrence.
pub open spec fn count_lines(keys: Seq<Seq<char>>) -> Seq<Seq<char>> {
    Seq::new(
        distinct(keys).len(),
        |k: int| count_line(distinct(keys)[k], occurrences(keys, distinct(keys)[k])),
    )
}

/// `order` lists the positions of the texts that occur among `keys`, the most
/// frequent first; texts that occur equally often stay in the order of first
/// occurrence.
pub open spec fn is_busiest_first(keys: Seq<Seq<char>>, order: Seq<usize>) -> bool {
    let labels = distinct(keys);
    &&& order.len() == labels.len()
    &&& forall|k: int| 0 <= k < order.len() ==> 0 <= #[trigger] order[k] < labels.len()
    &&& forall|a: int, b: int|
        0 <= a < b < order.len() ==> {
            let x = occurrences(keys, labels[#[trigger] order[a] as int]);
            let y = occurrences(keys, labels[#[trigger] order[b] as int]);
            x > y || (x == y && order[a] < order[b])
        }
}

/// `lines` are the count lines of the `limit` most frequent texts among
/// `keys`, the most frequent first.
pub open spec fn is_top_lines(keys: Seq<Seq<char>>, limit: nat, lines: Seq<Seq<char>>) -> bool {
    exists|order: Seq<usize>|
        is_busiest_first(keys, order) && lines == Seq::new(
            if limit <= order.len() {
                limit
            } else {
                order.len()
            },
            |k: int| count_lines(keys)[order[k] as int],
        )
}

/// How many directories an analysis lists.
pub const DIRECTORY_LIMIT: usize = 10;

/// What a list of files is made of, in lines for a reader.
#[derive(Debug)]
pub struct FilePatterns {
    /// How many files there are of each type.
    pub by_type: Vec<String>,
    /// How many files lie in each of the fullest directories.
    pub by_directory: Vec<String>,
    /// How many files fall into each range of sizes.
    pub by_size: Vec<String>,
}

/// One line of a count.
fn count_line_text(text: &str, count: usize) -> (line: String)
    ensures
        line@ == count_line(text@, count as nat),
{
    let mut line = text.to_string();
    line.append(": ");
    line.append(decimal_text(count as u64).as_str());
    line.append(" files");
    line
}

/// The name of the range that a size falls in.
fn size_range_name(size: u64) -> (name: String)
    ensures
        name@ == size_range(size as nat),
{
    if size <= 1024 {
        "0-1KB".to_string()
    } else if size <= 1048576 {
        "1KB-1MB".to_string()
    } else if size <= 104857600 {
        "1MB-100MB".to_string()
    } else if size <= 1073741824 {
        "100MB-1GB".to_string()
    } else {
        "1GB+".to_string()
    }
}

/// A line for every count, in the order of the list.
fn lines_of(counts: &Vec<TextCount>, Ghost(keys): Ghost<Seq<Seq<char>>>) -> (lines: Vec<String>)
    requires
        is_count_of(keys, counts@),
    ensures
        texts_view(lines@) == count_lines(keys),
{
    let mut lines: Vec<String> = Vec::new();
    let mut k: usize = 0;
    while k < counts.len()
        invariant
            k <= counts.len(),
            lines.len() == k,
            is_count_of(keys, counts@),
            texts_view(lines@) == count_lines(keys).take(k as int),
        decreases counts.len() - k,
    {
        let line = count_line_text(counts[k].text.as_str(), counts[k].count);
        lines.push(line);
        k += 1;
    }
    lines
}

/// The positions of the counts, the largest count first; equal counts stay in
/// the order of the list.
fn busiest_first(counts: &Vec<TextCount>, Ghost(keys): Ghost<Seq<Seq<char>>>) -> (order: Vec<usize>)
    requires
        is_count_of(keys, counts@),
    ensures
        is_busiest_first(keys, order@),
{
    let mut inverted: Vec<u64> = Vec::new();
    let mut k: usize = 0;
    while k < counts.len()
        invariant
            k <= counts.len(),
            inverted.len() == k,
            forall|j: int| 0 <= j < k ==> #[trigger] inverted@[j] == u64::MAX - counts@[j].count,
        decreases counts.len() - k,
    {
        inverted.push(u64::MAX - counts[k].count as u64);
        k += 1;
    }
    let sort_keys = SortKeys::Numbers(inverted);
    sorted_positions(&sort_keys)
}

/// What the files are made of: how many there are of each type and in each
/// range of sizes, in the order in which types and ranges first occur, and
/// how many lie in each of the ten fullest directories, the fullest first.
pub fn analyze_file_patterns(files: &[FileInfo]) -> (patterns: FilePatterns)
    ensures
        texts_view(patterns.by_type@) == count_lines(types_of(records(files@))),
        is_top_lines(
            directories_of(records(files@)),
            DIRECTORY_LIMIT as nat,
            texts_view(patterns.by_directory@),
        ),
        texts_view(patterns.by_size@) == count_lines(size_ranges_of(records(files@))),
{
    let ghost recs = records(files@);
    let mut types: Vec<String> = Vec::new();
    let mut dirs: Vec<String> = Vec::new();
    let mut ranges: Vec<String> = Vec::new();
    let mut i: usize = 0;
    while i < files.len()
        invariant
            i <= files.len(),
            recs == records(files@),
            types.len() == i,
            ranges.len() == i,
            texts_view(types@) == types_of(recs.take(i as int)),
            texts_view(dirs@) == directories_of(recs.take(i as int)),
            texts_view(ranges@) == size_ranges_of(recs.take(i as int)),
        decreases files.len() - i,
    {
        let ghost seen = recs.take(i as int);
        let ghost next = recs.take(i + 1);
        proof {
            assert(next.drop_last() =~= seen);
            assert(types_of(next) =~= types_of(seen).push(next.last().file_type));
            assert(size_ranges_of(next) =~= size_ranges_of(seen).push(size_range(next.last().size)));
        }
        types.push(files[i].file_type.clone());
        match parent(files[i].path.as_str()) {
            Some(dir) => {
                dirs.push(dir);
            },
            None => {},
        }
        ranges.push(size_range_name(files[i].size));
        i += 1;
    }
    assert(recs.take(files.len() as int) =~= recs);
    let type_counts = count_texts(&types);
    let by_type = lines_of(&type_counts, Ghost(texts_view(types@)));
    let range_counts = count_texts(&ranges);
    let by_size = lines_of(&range_counts, Ghost(texts_view(ranges@)));
    let dir_counts = count_texts(&dirs);
    let dir_lines = lines_of(&dir_counts, Ghost(texts_view(dirs@)));
    let order = busiest_first(&dir_counts, Ghost(texts_view(dirs@)));
    let limit = if DIRECTORY_LIMIT <= order.len() {
        DIRECTORY_LIMIT
    } else {
        order.len()
    };
    let ghost keys = texts_view(dirs@);
    assert(dir_lines.len() == texts_view(dir_lines@).len());
    let mut by_directory: Vec<String> = Vec::new();
    let mut k: usize = 0;
    while k < limit
        invariant
            k <= limit <= order.len(),
            by_directory.len() == k,
            dir_lines.len() == distinct(keys).len(),
            is_busiest_first(keys, order@),
            texts_view(dir_lines@) == count_lines(keys),
            forall|j: int|
                0 <= j < k ==> (#[trigger] by_directory@[j])@ == count_lines(keys)[order@[j] as int],
        decreases limit - k,
    {
        by_directory.push(dir_lines[order[k]].clone());
        k += 1;
    }
    proof {
        let want = Seq::new(limit as nat, |k: int| count_lines(keys)[order@[k] as int]);
        assert(texts_view(by_directory@) =~= want);
    }
    FilePatterns { by_type, by_directory, by_size }
}

/// The sizes of the records added up, however large the sum.
fn wide_total_size(files: &[FileInfo]) -> (total: u128)
    ensures
        total == total_size(records(files@)),
{
    let ghost recs = records(files@);
    let mut total: u128 = 0;
    let mut i: usize = 0;
    while i < files.len()
        invariant
            i <= files.len(),
            recs == records(files@),
            total == total_size(recs.take(i as int)),
            total <= i * 0xffff_ffff_ffff_ffff,
        decreases files.len() - i,
    {
        proof {
            assert(recs.take(i + 1).drop_last() =~= recs.take(i as int));
            assert((i + 1) * 0xffff_ffff_ffff_ffff == i * 0xffff_ffff_ffff_ffff
                + 0xffff_ffff_ffff_ffff) by (nonlinear_arith);
            assert(i * 0xffff_ffff_ffff_ffff <= 0xffff_ffff_ffff_ffff * 0xffff_ffff_ffff_ffff)
                by (nonlinear_arith)
                requires
                    0 <= i <= 0xffff_ffff_ffff_ffff,
            ;
        }
        total = total + files[i].size as u128;
        i += 1;
    }
    assert(recs.take(files.len() as int) =~= recs);
    total
}

/// The size of the average record; zero where there is none.
pub open spec fn average_size(files: Seq<FileRecord>) -> nat {
    if files.len() == 0 {
        0
    } else {
        total_size(files) / files.len()
    }
}

/// The position of the largest count, and of the first of them where several
/// are largest.
pub open spec fn first_largest(counts: Seq<nat>) -> int
    decreases counts.len(),
{
    if counts.len() <= 1 {
        0
    } else {
        let best = first_largest(counts.drop_last());
        if counts.last() > counts[best] {
            counts.len() - 1
        } else {
            best
        }
    }
}

/// The position that `first_largest` gives holds a count that none exceeds
/// and that none before it equals.
pub proof fn lemma_first_largest(counts: Seq<nat>)
    requires
        counts.len() > 0,
    ensures
        0 <= first_largest(counts) < counts.len(),
        forall|i: int|
            0 <= i < counts.len() ==> counts[first_largest(counts)] >= #[trigger] counts[i],
        forall|i: int|
            0 <= i < first_largest(counts) ==> counts[first_largest(counts)] > #[trigger] counts[i],
    decreases counts.len(),
{
    if counts.len() > 1 {
        let init = counts.drop_last();
        lemma_first_largest(init);
        assert forall|i: int| 0 <= i < counts.len() implies counts[first_largest(counts)]
            >= #[trigger] counts[i] by {
            if i < init.len() {
                assert(init[i] == counts[i]);
            }
        }
        assert forall|i: int| 0 <= i < first_largest(counts) implies counts[first_largest(
            counts,
        )] > #[trigger] counts[i] by {
            assert(init[i] == counts[i]);
        }
    }
}

/// How often each type label occurs, in the order of first occurrence.
pub open spec fn type_counts(files: Seq<FileRecord>) -> Seq<nat> {
    distinct_types(files).map_values(|label: Seq<char>| count_of_type(files, label))
}

/// The type label that most records carry; of several such, the one that
/// occurs first.
pub open spec fn most_common_type(files: Seq<FileRecord>) -> Seq<char> {
    distinct_types(files)[first_largest(type_counts(files))]
}

/// More than a quarter of the records are of one type.
pub open spec fn has_common_type(files: Seq<FileRecord>) -> bool {
    files.len() > 0 && count_of_type(files, most_common_type(files)) > files.len() / 4
}

/// The rule that goes after the most common type: files of that type, unused
/// for sixty days, and no smaller than the average file in whole mebibytes,
/// or than one mebibyte.
pub open spec fn common_type_rule(files: Seq<FileRecord>) -> SmartRuleView {
    let label = most_common_type(files);
    let average_mb = average_size(files) / (BYTES_PER_MB as nat);
    named_rule(
        "Clean "@ + label + " Files"@,
        "Target "@ + label + " files which make up a large portion of your files"@,
        RuleConfigView {
            max_age_days: 60,
            min_size_mb: if average_mb >= 1 {
                average_mb
            } else {
                1
            },
            file_types: Some(seq![label]),
            ..default_rule()
        },
    )
}

/// The size in mebibytes above which a file counts as large.
pub const LARGE_FILE_MB: u64 = 100;

/// The age in days above which a file counts as ancient.
pub const ANCIENT_DAYS: u64 = 365;

/// Some record is larger than a hundred mebibytes.
pub open spec fn has_large_file(files: Seq<FileRecord>) -> bool {
    exists|i: int| 0 <= i < files.len() && (#[trigger] files[i]).size > LARGE_FILE_MB * BYTES_PER_MB
}

/// Some record has gone unused for more than a year at the instant `now`.
pub open spec fn has_ancient_file(files: Seq<FileRecord>, now: nat) -> bool {
    exists|i: int|
        0 <= i < files.len() && staleness(now, (#[trigger] files[i]).last_access_secs)
            > ANCIENT_DAYS * SECONDS_PER_DAY
}

/// The rule that goes after large files.
pub open spec fn large_file_rule() -> SmartRuleView {
    named_rule(
        "Large File Cleanup"@,
        "Focus on files larger than 100MB"@,
        RuleConfigView { max_age_days: 30, min_size_mb: 100, ..default_rule() },
    )
}

/// The rule that goes after files unused for more than a year.
pub open spec fn ancient_file_rule() -> SmartRuleView {
    named_rule(
        "Ancient Files"@,
        "Files not accessed in over a year"@,
        RuleConfigView { max_age_days: 365, min_size_mb: 1, ..default_rule() },
    )
}

/// The rules suggested for a list of files at the instant `now`: one for the
/// most common type where more than a quarter of the files are of it, one
/// where some file is large, and one where some file is ancient.
pub open spec fn suggested_rules(files: Seq<FileRecord>, now: nat) -> Seq<SmartRuleView> {
    (if has_common_type(files) {
        seq![common_type_rule(files)]
    } else {
        Seq::empty()
    }) + (if has_large_file(files) {
        seq![large_file_rule()]
    } else {
        Seq::empty()
    }) + (if has_ancient_file(files, now) {
        seq![ancient_file_rule()]
    } else {
        Seq::empty()
    })
}

/// The type label that most files carry and the number of files that carry
/// it; `None` where there are no files.
fn leading_type(files: &[FileInfo]) -> (leader: Option<(String, usize)>)
    ensures
        match leader {
            Some((label, count)) => {
                &&& files.len() > 0
                &&& label@ == most_common_type(records(files@))
                &&& count == count_of_type(records(files@), label@)
            },
            None => files.len() == 0,
        },
{
    let ghost recs = records(files@);
    let mut types: Vec<String> = Vec::new();
    let mut i: usize = 0;
    while i < files.len()
        invariant
            i <= files.len(),
            recs == records(files@),
            types.len() == i,
            texts_view(types@) == types_of(recs).take(i as int),
        decreases files.len() - i,
    {
        types.push(files[i].file_type.clone());
        i += 1;
    }
    assert(types_of(recs).take(files.len() as int) =~= types_of(recs));
    if files.len() == 0 {
        return None;
    }
    let counts = count_texts(&types);
    let ghost numbers = type_counts(recs);
    proof {
        lemma_distinct(types_of(recs), types_of(recs)[0]);
        assert(occurrences(types_of(recs), types_of(recs)[0]) > 0) by {
            lemma_occurs(types_of(recs), 0);
        }
    }
    let mut best: usize = 0;
    let mut k: usize = 1;
    while k < counts.len()
        invariant
            1 <= k <= counts.len(),
            best < k,
            counts.len() == numbers.len(),
            forall|j: int| 0 <= j < counts.len() ==> (#[trigger] counts@[j]).count == numbers[j],
            best == first_largest(numbers.take(k as int)),
        decreases counts.len() - k,
    {
        proof {
            let head = numbers.take(k + 1);
            assert(head.drop_last() =~= numbers.take(k as int));
        }
        if counts[k].count > counts[best].count {
            best = k;
        }
        k += 1;
    }
    assert(numbers.take(counts.len() as int) =~= numbers);
    Some((counts[best].text.clone(), counts[best].count))
}

/// Every key occurs at least once.
pub proof fn lemma_occurs(keys: Seq<Seq<char>>, at: int)
    requires
        0 <= at < keys.len(),
    ensures
        occurrences(keys, keys[at]) > 0,
    decreases keys.len(),
{
    if at < keys.len() - 1 {
        lemma_occurs(keys.drop_last(), at);
    }
}

/// The rules suggested for the files at the instant `now_secs`.
pub fn suggest_rules_at(files: &[FileInfo], now_secs: u64) -> (suggestions: Vec<SmartRule>)
    ensures
        rule_views(suggestions@) == suggested_rules(records(files@), now_secs as nat),
{
    let ghost recs = records(files@);
    let mut suggestions: Vec<SmartRule> = Vec::new();
    match leading_type(files) {
        Some((label, count)) => {
            if count > files.len() / 4 {
                let total = wide_total_size(files);
                proof {
                    lemma_total_size_bounded(recs);
                    assert(total / (files.len() as u128) <= u64::MAX) by (nonlinear_arith)
                        requires
                            total <= files.len() * u64::MAX,
                            files.len() > 0,
                    ;
                }
                let average: u64 = (total / (files.len() as u128)) as u64;
                let average_mb = average / BYTES_PER_MB;
                let min_size_mb = if average_mb >= 1 {
                    average_mb
                } else {
                    1
                };
                let mut name = "Clean ".to_string();
                name.append(label.as_str());
                name.append(" Files");
                let mut description = "Target ".to_string();
                description.append(label.as_str());
                description.append(" files which make up a large portion of your files");
                let mut wanted: Vec<String> = Vec::new();
                wanted.push(label);
                assert(texts_view(wanted@) =~= seq![most_common_type(recs)]);
                suggestions.push(
                    SmartRule::new(
                        name.as_str(),
                        description.as_str(),
                        typed_rule(60, min_size_mb, wanted),
                    ),
                );
            }
        },
        None => {},
    }
    assert(rule_views(suggestions@) =~= if has_common_type(recs) {
        seq![common_type_rule(recs)]
    } else {
        Seq::empty()
    });
    let ghost first = rule_views(suggestions@);
    let mut large = false;
    let mut ancient = false;
    let mut i: usize = 0;
    while i < files.len()
        invariant
            i <= files.len(),
            recs == records(files@),
            large == has_large_file(recs.take(i as int)),
            ancient == has_ancient_file(recs.take(i as int), now_secs as nat),
        decreases files.len() - i,
    {
        let ghost next = recs.take(i + 1);
        proof {
            assert(next[i as int] == recs[i as int]);
        }
        if files[i].size > LARGE_FILE_MB * BYTES_PER_MB {
            large = true;
        }
        let age: u64 = if now_secs >= files[i].last_access_secs {
            now_secs - files[i].last_access_secs
        } else {
            0
        };
        if age > ANCIENT_DAYS * SECONDS_PER_DAY {
            ancient = true;
        }
        i += 1;
    }
    assert(recs.take(files.len() as int) =~= recs);
    if large {
        suggestions.push(
            SmartRule::new(
                "Large File Cleanup",
                "Focus on files larger than 100MB",
                threshold_rule(30, 100),
            ),
        );
    }
    let ghost second = rule_views(suggestions@);
    assert(second =~= first + if has_large_file(recs) {
        seq![large_file_rule()]
    } else {
        Seq::empty()
    });
    if ancient {
        suggestions.push(
            SmartRule::new("Ancient Files", "Files not accessed in over a year", threshold_rule(365, 1)),
        );
    }
    assert(rule_views(suggestions@) =~= second + if has_ancient_file(recs, now_secs as nat) {
        seq![ancient_file_rule()]
    } else {
        Seq::empty()
    });
    suggestions
}

/// All records together weigh no more than if each were as large as a record
/// can be.
pub proof fn lemma_total_size_bounded(files: Seq<FileRecord>)
    requires
        forall|i: int| 0 <= i < files.len() ==> (#[trigger] files[i]).size <= u64::MAX,
    ensures
        total_size(files) <= files.len() * u64::MAX,
    decreases files.len(),
{
    if files.len() > 0 {
        let init = files.drop_last();
        lemma_total_size_bounded(init);
        assert(files.len() * u64::MAX == init.len() * u64::MAX + u64::MAX) by (nonlinear_arith)
            requires
                files.len() == init.len() + 1,
        ;
    }
}

/// The rules suggested for the files at the present moment.
pub fn suggest_rules_for_files(files: &[FileInfo]) -> (suggestions: Vec<SmartRule>)
    ensures
        exists|now: u64| rule_views(suggestions@) == suggested_rules(records(files@), now as nat),
{
    let now_secs = unix_now();
    suggest_rules_at(files, now_secs)
}

/// Where one rule selects every file that another selects, the files that
/// the other selects are among those of the first, and are no more.
pub proof fn lemma_stricter_rule_selects_fewer(
    files: Seq<FileInfo>,
    rule: RuleConfigView,
    stricter: RuleConfigView,
    now: nat,
)
    requires
        forall|f: FileInfo| rule_matches(f@, stricter, now) ==> rule_matches(f@, rule, now),
    ensures
        selected(files, stricter, now) == selected(selected(files, rule, now), stricter, now),
        selected(files, stricter, now).len() <= selected(files, rule, now).len(),
    decreases files.len(),
{
    reveal(Seq::filter);
    if files.len() > 0 {
        let init = files.drop_last();
        lemma_stricter_rule_selects_fewer(init, rule, stricter, now);
        let kept = selected(init, rule, now);
        if rule_matches(files.last()@, rule, now) {
            assert(kept.push(files.last()).drop_last() =~= kept);
        }
    }
    selected(files, rule, now).lemma_filter_len(|f: FileInfo| rule_matches(f@, stricter, now));
}

/// Raising the least size can only shrink the selection.
pub proof fn lemma_raising_min_size_shrinks(
    files: Seq<FileInfo>,
    rule: RuleConfigView,
    min_size_mb: nat,
    now: nat,
)
    requires
        min_size_mb >= rule.min_size_mb,
    ensures
        selected(files, RuleConfigView { min_size_mb, ..rule }, now).len() <= selected(
            files,
            rule,
            now,
        ).len(),
        selected(files, RuleConfigView { min_size_mb, ..rule }, now) == selected(
            selected(files, rule, now),
            RuleConfigView { min_size_mb, ..rule },
            now,
        ),
{
    let stricter = RuleConfigView { min_size_mb, ..rule };
    assert forall|f: FileInfo| rule_matches(f@, stricter, now) implies rule_matches(
        f@,
        rule,
        now,
    ) by {
        assert(min_size_mb * BYTES_PER_MB >= rule.min_size_mb * BYTES_PER_MB) by (nonlinear_arith)
            requires
                min_size_mb >= rule.min_size_mb,
        ;
    }
    lemma_stricter_rule_selects_fewer(files, rule, stricter, now);
}

/// Raising the least age can only shrink the selection.
pub proof fn lemma_raising_max_age_shrinks(
    files: Seq<FileInfo>,
    rule: RuleConfigView,
    max_age_days: nat,
    now: nat,
)
    requires
        max_age_days >= rule.max_age_days,
    ensures
        selected(files, RuleConfigView { max_age_days, ..rule }, now).len() <= selected(
            files,
            rule,
            now,
        ).len(),
        selected(files, RuleConfigView { max_age_days, ..rule }, now) == selected(
            selected(files, rule, now),
            RuleConfigView { max_age_days, ..rule },
            now,
        ),
{
    let stricter = RuleConfigView { max_age_days, ..rule };
    assert forall|f: FileInfo| rule_matches(f@, stricter, now) implies rule_matches(
        f@,
        rule,
        now,
    ) by {
        assert(max_age_days * SECONDS_PER_DAY >= rule.max_age_days * SECONDS_PER_DAY)
            by (nonlinear_arith)
            requires
                max_age_days >= rule.max_age_days,
        ;
    }
    lemma_stricter_rule_selects_fewer(files, rule, stricter, now);
}

/// Letting in hidden, read-only or executable files can only grow the
/// selection.
pub proof fn lemma_allowing_more_grows(
    files: Seq<FileInfo>,
    rule: RuleConfigView,
    relaxed: RuleConfigView,
    now: nat,
)
    requires
        rule.include_hidden ==> relaxed.include_hidden,
        rule.include_readonly ==> relaxed.include_readonly,
        rule.include_executable ==> relaxed.include_executable,
        relaxed == (RuleConfigView {
            include_hidden: relaxed.include_hidden,
            include_readonly: relaxed.include_readonly,
            include_executable: relaxed.include_executable,
            ..rule
        }),
    ensures
        selected(files, rule, now).len() <= selected(files, relaxed, now).len(),
        selected(files, rule, now) == selected(selected(files, relaxed, now), rule, now),
{
    lemma_stricter_rule_selects_fewer(files, relaxed, rule, now);
}

/// A rule that asks for no age selects without regard to the time of last
/// access.
pub proof fn lemma_no_age_matches_any_time(
    file: FileRecord,
    rule: RuleConfigView,
    now: nat,
    then: nat,
)
    requires
        rule.max_age_days == 0,
    ensures
        rule_matches(file, rule, now) == rule_matches(file, rule, then),
{
}

} // verus!
