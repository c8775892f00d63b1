use trashdoctor::rules::{
    analyze_file_patterns, apply_rules, apply_rules_at, contains_lowercase, copy_texts,
    get_predefined_rules, matches_any_label, matches_any_pattern, matches_rule, pattern_matches,
    suggest_rules_at, suggest_rules_for_files, wildcard_match, RuleConfig, SmartRule,
};
use trashdoctor::scanner::{FileInfo, FileMetadata};

const DAY: u64 = 86400;
const MB: u64 = 1024 * 1024;
const NOW: u64 = 1_700_000_000;

fn file(path: &str, size: u64, accessed_secs: u64) -> FileInfo {
    let meta = FileMetadata {
        size,
        accessed_secs,
        accessed_offset_secs: 0,
        modified_secs: 0,
        modified_offset_secs: 0,
        readonly: false,
        mode: Some(0o644),
    };
    FileInfo::new(path, &meta, String::new(), String::new())
}

fn texts(list: &[&str]) -> Vec<String> {
    list.iter().map(|t| t.to_string()).collect()
}

fn paths(files: &[FileInfo]) -> Vec<&str> {
    files.iter().map(|f| f.path.as_str()).collect()
}

#[test]
fn rules_test_wildcard_match() {
    assert!(wildcard_match("*.txt", "test.txt"));
    assert!(wildcard_match("test*", "test.txt"));
    assert!(wildcard_match("*test*", "mytest.txt"));
    assert!(!wildcard_match("*.jpg", "test.txt"));
}

#[test]
fn test_pattern_matches() {
    assert!(pattern_matches("/home/user/Downloads/file.txt", "*/Downloads/*"));
    assert!(pattern_matches("/home/user/file.log", "*.log"));
    assert!(!pattern_matches("/home/user/file.txt", "*.log"));
}

#[test]
fn downloads_pattern_set() {
    let patterns = texts(&["*/Downloads/*"]);
    assert!(matches_any_pattern("/home/u/Downloads/x.zip", &patterns));
    assert!(!matches_any_pattern("/home/u/Desktop/x.zip", &patterns));
    assert!(!matches_any_pattern("/home/u/Desktop/x.zip", &Vec::new()));
}

#[test]
fn rule_wildcards_ignore_case() {
    assert!(wildcard_match("*.TXT", "test.txt"));
    assert!(wildcard_match("*.txt", "TEST.TXT"));
    assert!(wildcard_match("*/downloads/*", "/home/u/Downloads/x"));
    assert!(wildcard_match("*", ""));
    assert!(wildcard_match("*", "Anything"));
    assert!(wildcard_match("**", "Anything"));
    assert!(!wildcard_match("a*b*c", "A1C2B"));
    assert!(wildcard_match("a*b*c", "A1B2C"));
}

#[test]
fn a_rule_pattern_without_star() {
    assert!(wildcard_match("test.txt", "test.txt"));
    assert!(!wildcard_match("test.txt", "TEST.txt"));
    assert!(!wildcard_match("test", "test.txt"));
    assert!(pattern_matches("/home/u/Test.txt", "test"));
    assert!(pattern_matches("/home/u/Test.txt", "U/TEST"));
    assert!(pattern_matches("/home/u/Test.txt", ""));
    assert!(!pattern_matches("/home/u/Test.txt", "tset"));
    assert!(!pattern_matches("/home/u/Test.txt", "/home/u/Test.txt2"));
    assert!(contains_lowercase("Image", "IMA"));
    assert!(!contains_lowercase("Image", "video"));
}

#[test]
fn labels_match_by_part() {
    assert!(matches_any_label("Image", &texts(&["video", "IMAGE"])));
    assert!(matches_any_label("Spreadsheet", &texts(&["sheet"])));
    assert!(!matches_any_label("Image", &texts(&["Images"])));
    assert!(!matches_any_label("Image", &Vec::new()));
}

#[test]
fn the_plain_rule_asks_for_nothing() {
    let rule = RuleConfig::default();
    assert_eq!(rule.max_age_days, 0);
    assert_eq!(rule.min_size_mb, 0);
    assert_eq!(rule.max_size_mb, None);
    assert!(rule.file_types.is_none());
    assert!(rule.exclude_file_types.is_none());
    assert!(!rule.include_hidden);
    assert!(!rule.include_readonly);
    assert!(!rule.include_executable);
    assert!(rule.custom_patterns.is_empty());
    assert!(rule.exclude_patterns.is_empty());
    assert!(matches_rule(&file("a", 0, NOW), &rule, NOW));
    assert!(matches_rule(&file("a", 0, NOW + 5), &rule, NOW));
}

#[test]
fn age_threshold() {
    let mut rule = RuleConfig::default();
    rule.max_age_days = 30;
    assert!(matches_rule(&file("a", 0, NOW - 30 * DAY), &rule, NOW));
    assert!(!matches_rule(&file("a", 0, NOW - 30 * DAY + 1), &rule, NOW));
    assert!(matches_rule(&file("a", 0, 0), &rule, NOW));
    assert!(!matches_rule(&file("a", 0, NOW + DAY), &rule, NOW));
    rule.max_age_days = u64::MAX;
    assert!(!matches_rule(&file("a", 0, 0), &rule, u64::MAX));
}

#[test]
fn size_thresholds() {
    let mut rule = RuleConfig::default();
    rule.min_size_mb = 2;
    rule.max_size_mb = Some(3);
    assert!(!matches_rule(&file("a", 2 * MB - 1, 0), &rule, NOW));
    assert!(matches_rule(&file("a", 2 * MB, 0), &rule, NOW));
    assert!(matches_rule(&file("a", 3 * MB, 0), &rule, NOW));
    assert!(!matches_rule(&file("a", 3 * MB + 1, 0), &rule, NOW));
    rule.min_size_mb = u64::MAX;
    rule.max_size_mb = None;
    assert!(!matches_rule(&file("a", u64::MAX, 0), &rule, NOW));
    rule.min_size_mb = 0;
    rule.max_size_mb = Some(u64::MAX);
    assert!(matches_rule(&file("a", u64::MAX, 0), &rule, NOW));
}

#[test]
fn flags_shut_out_unless_allowed() {
    let mut hidden = file("/a/.h", 0, 0);
    assert!(hidden.is_hidden);
    let mut rule = RuleConfig::default();
    assert!(!matches_rule(&hidden, &rule, NOW));
    rule.include_hidden = true;
    assert!(matches_rule(&hidden, &rule, NOW));
    hidden.is_readonly = true;
    assert!(!matches_rule(&hidden, &rule, NOW));
    rule.include_readonly = true;
    assert!(matches_rule(&hidden, &rule, NOW));
    hidden.is_executable = true;
    assert!(!matches_rule(&hidden, &rule, NOW));
    rule.include_executable = true;
    assert!(matches_rule(&hidden, &rule, NOW));
}

#[test]
fn type_lists() {
    let mut rule = RuleConfig::default();
    rule.file_types = Some(texts(&["image", "Video"]));
    assert!(matches_rule(&file("a.jpg", 0, 0), &rule, NOW));
    assert!(matches_rule(&file("a.mp4", 0, 0), &rule, NOW));
    assert!(!matches_rule(&file("a.txt", 0, 0), &rule, NOW));
    rule.file_types = Some(Vec::new());
    assert!(!matches_rule(&file("a.jpg", 0, 0), &rule, NOW));
    rule.file_types = None;
    rule.exclude_file_types = Some(texts(&["IMAGE"]));
    assert!(!matches_rule(&file("a.jpg", 0, 0), &rule, NOW));
    assert!(matches_rule(&file("a.txt", 0, 0), &rule, NOW));
}

#[test]
fn pattern_lists() {
    let mut rule = RuleConfig::default();
    rule.custom_patterns = texts(&["*/Downloads/*", "backup"]);
    assert!(matches_rule(&file("/home/u/downloads/a.zip", 0, 0), &rule, NOW));
    assert!(matches_rule(&file("/home/u/My-Backup.zip", 0, 0), &rule, NOW));
    assert!(!matches_rule(&file("/home/u/a.zip", 0, 0), &rule, NOW));
    rule.exclude_patterns = texts(&["*.zip"]);
    assert!(!matches_rule(&file("/home/u/downloads/a.zip", 0, 0), &rule, NOW));
    assert!(matches_rule(&file("/home/u/downloads/a.tar", 0, 0), &rule, NOW));
}

#[test]
fn selection_keeps_the_order() {
    let files = vec![
        file("/d/a.log", 5 * MB, NOW - 40 * DAY),
        file("/d/b.log", 1 * MB, NOW - 40 * DAY),
        file("/d/c.log", 9 * MB, NOW - 10 * DAY),
        file("/d/d.log", 7 * MB, NOW - 90 * DAY),
        file("/d/.e.log", 7 * MB, NOW - 90 * DAY),
    ];
    let mut rule = RuleConfig::default();
    rule.max_age_days = 30;
    rule.min_size_mb = 2;
    let chosen = apply_rules_at(&files, &rule, NOW);
    assert_eq!(paths(&chosen), vec!["/d/a.log", "/d/d.log"]);
    assert_eq!(chosen[1].size, 7 * MB);
    assert!(apply_rules_at(&[], &rule, NOW).is_empty());
}

#[test]
fn selection_at_the_present_moment() {
    let files = vec![
        file("/d/old.log", 5 * MB, 0),
        file("/d/small.log", 1, 0),
        file("/d/ahead.log", 5 * MB, u64::MAX),
        file("/d/older.log", 6 * MB, 1),
    ];
    let mut rule = RuleConfig::default();
    rule.max_age_days = 30;
    rule.min_size_mb = 2;
    assert_eq!(paths(&apply_rules(&files, &rule)), vec!["/d/old.log", "/d/older.log"]);
    rule.max_age_days = 0;
    assert_eq!(
        paths(&apply_rules(&files, &rule)),
        vec!["/d/old.log", "/d/ahead.log", "/d/older.log"]
    );
}

#[test]
fn raising_thresholds_never_selects_more() {
    let files: Vec<FileInfo> = (0..60u64)
        .map(|i| file(&format!("/f/{}.bin", i), (i % 13) * MB + i, NOW - (i % 17) * 3 * DAY))
        .collect();
    let mut previous = usize::MAX;
    for min_size_mb in 0..15 {
        let mut rule = RuleConfig::default();
        rule.min_size_mb = min_size_mb;
        rule.max_age_days = 6;
        let count = apply_rules_at(&files, &rule, NOW).len();
        assert!(count <= previous);
        previous = count;
    }
    assert_eq!(previous, 0);
    let mut previous = usize::MAX;
    for max_age_days in 0..60 {
        let mut rule = RuleConfig::default();
        rule.max_age_days = max_age_days;
        let count = apply_rules_at(&files, &rule, NOW).len();
        assert!(count <= previous);
        previous = count;
    }
    assert_eq!(previous, 0);
}

#[test]
fn allowing_more_never_selects_fewer() {
    let mut files = vec![file("/a/.h", 0, 0), file("/a/r", 0, 0), file("/a/x", 0, 0), file("/a/p", 0, 0)];
    files[1].is_readonly = true;
    files[2].is_executable = true;
    let mut rule = RuleConfig::default();
    assert_eq!(apply_rules_at(&files, &rule, NOW).len(), 1);
    rule.include_hidden = true;
    assert_eq!(apply_rules_at(&files, &rule, NOW).len(), 2);
    rule.include_readonly = true;
    assert_eq!(apply_rules_at(&files, &rule, NOW).len(), 3);
    rule.include_executable = true;
    assert_eq!(apply_rules_at(&files, &rule, NOW).len(), 4);
}

#[test]
fn a_named_rule() {
    let mut config = RuleConfig::default();
    config.min_size_mb = 3;
    let rule = SmartRule::new("Name", "What it does", config);
    assert_eq!(rule.name, "Name");
    assert_eq!(rule.description, "What it does");
    assert_eq!(rule.priority, 5);
    assert_eq!(rule.config.min_size_mb, 3);
    let copy = rule.clone();
    assert_eq!(copy.name, "Name");
    assert_eq!(copy.config.min_size_mb, 3);
    assert_eq!(copy_texts(&texts(&["a", "b"])), texts(&["a", "b"]));
}

#[test]
fn the_predefined_rules() {
    let rules = get_predefined_rules();
    let names: Vec<&str> = rules.iter().map(|r| r.name.as_str()).collect();
    assert_eq!(
        names,
        vec![
            "Large Old Downloads",
            "Temporary Files",
            "Old Media Files",
            "Huge Files",
            "Old Archives",
            "Old Documents",
            "Log Files",
            "Backup Files"
        ]
    );
    let thresholds: Vec<(u64, u64)> =
        rules.iter().map(|r| (r.config.max_age_days, r.config.min_size_mb)).collect();
    assert_eq!(
        thresholds,
        vec![(30, 10), (7, 1), (90, 50), (0, 500), (180, 1), (365, 1), (30, 1), (60, 1)]
    );
    assert!(rules.iter().all(|r| r.priority == 5));
    assert_eq!(rules[0].description, "Files in Downloads folder older than 30 days and larger than 10MB");
    assert_eq!(rules[0].config.custom_patterns, texts(&["*/Downloads/*", "*/downloads/*"]));
    assert_eq!(rules[1].config.file_types, Some(texts(&["tmp", "temp", "cache"])));
    assert_eq!(rules[2].config.file_types, Some(texts(&["Video", "Audio", "Image"])));
    assert_eq!(rules[3].config.file_types, None);
    assert!(rules[3].config.custom_patterns.is_empty());
    assert_eq!(rules[4].config.file_types, Some(texts(&["Archive"])));
    assert_eq!(rules[5].config.file_types, Some(texts(&["Document", "PDF", "Spreadsheet"])));
    assert_eq!(rules[6].config.custom_patterns, texts(&["*.log", "*.log.*"]));
    assert_eq!(rules[7].config.custom_patterns, texts(&["*.bak", "*.backup", "*~"]));
    assert_eq!(rules[7].description, "Backup files older than 60 days");
    for rule in &rules {
        assert!(!rule.config.include_hidden);
        assert!(rule.config.exclude_patterns.is_empty());
        assert_eq!(rule.config.max_size_mb, None);
    }
}

#[test]
fn analysis_in_lines() {
    let files = vec![
        file("/a/x/1.jpg", 100, 0),
        file("/a/y/2.txt", 2000, 0),
        file("/a/x/3.png", 2 * MB, 0),
        file("/a/y/4.txt", 1024, 0),
        file("/a/y/5", 200 * MB, 0),
        file("6.txt", 2000 * MB, 0),
    ];
    let patterns = analyze_file_patterns(&files);
    assert_eq!(patterns.by_type, texts(&["Image: 2 files", "Text: 3 files", "No Extension: 1 files"]));
    assert_eq!(patterns.by_directory, texts(&["/a/y: 3 files", "/a/x: 2 files", ": 1 files"]));
    assert_eq!(
        patterns.by_size,
        texts(&[
            "0-1KB: 2 files",
            "1KB-1MB: 1 files",
            "1MB-100MB: 1 files",
            "100MB-1GB: 1 files",
            "1GB+: 1 files"
        ])
    );
    let empty = analyze_file_patterns(&[]);
    assert!(empty.by_type.is_empty() && empty.by_directory.is_empty() && empty.by_size.is_empty());
}

#[test]
fn analysis_lists_ten_directories() {
    let mut files = Vec::new();
    for dir in 0..12u64 {
        for n in 0..(dir % 4 + 1) {
            files.push(file(&format!("/d{}/f{}", dir, n), 1, 0));
        }
    }
    let patterns = analyze_file_patterns(&files);
    assert_eq!(
        patterns.by_directory,
        texts(&[
            "/d3: 4 files",
            "/d7: 4 files",
            "/d11: 4 files",
            "/d2: 3 files",
            "/d6: 3 files",
            "/d10: 3 files",
            "/d1: 2 files",
            "/d5: 2 files",
            "/d9: 2 files",
            "/d0: 1 files"
        ])
    );
    assert_eq!(patterns.by_size, texts(&["0-1KB: 30 files"]));
}

#[test]
fn suggestions_for_a_common_type() {
    let files = vec![
        file("a.jpg", 3 * MB, NOW),
        file("b.jpg", 5 * MB, NOW),
        file("c.txt", 1 * MB, NOW),
        file("d.png", 3 * MB, NOW),
    ];
    let rules = suggest_rules_at(&files, NOW);
    assert_eq!(rules.len(), 1);
    assert_eq!(rules[0].name, "Clean Image Files");
    assert_eq!(rules[0].description, "Target Image files which make up a large portion of your files");
    assert_eq!(rules[0].config.max_age_days, 60);
    assert_eq!(rules[0].config.min_size_mb, 3);
    assert_eq!(rules[0].config.file_types, Some(texts(&["Image"])));
    assert_eq!(rules[0].priority, 5);
}

#[test]
fn suggestions_for_large_and_ancient_files() {
    let files = vec![
        file("a.a", 100 * MB + 1, NOW),
        file("b.b", 1, NOW - 365 * DAY - 1),
        file("c.c", 1, NOW),
        file("d.d", 1, NOW),
        file("e.e", 1, NOW),
    ];
    let rules = suggest_rules_at(&files, NOW);
    let names: Vec<&str> = rules.iter().map(|r| r.name.as_str()).collect();
    assert_eq!(names, vec!["Large File Cleanup", "Ancient Files"]);
    assert_eq!((rules[0].config.max_age_days, rules[0].config.min_size_mb), (30, 100));
    assert_eq!(rules[0].description, "Focus on files larger than 100MB");
    assert_eq!((rules[1].config.max_age_days, rules[1].config.min_size_mb), (365, 1));
    assert_eq!(rules[1].description, "Files not accessed in over a year");

    let edge = vec![
        file("a.a", 100 * MB, NOW - 365 * DAY),
        file("b.b", 1, NOW),
        file("c.c", 1, NOW),
        file("d.d", 1, NOW),
        file("e.e", 1, NOW),
    ];
    assert!(suggest_rules_at(&edge, NOW).is_empty());
    assert!(suggest_rules_at(&[], NOW).is_empty());
    assert!(suggest_rules_for_files(&[]).is_empty());
}

#[test]
fn a_small_average_asks_for_one_megabyte() {
    let files = vec![file("a.txt", 10, NOW), file("b.txt", 20, NOW)];
    let rules = suggest_rules_at(&files, NOW);
    assert_eq!(rules.len(), 1);
    assert_eq!(rules[0].name, "Clean Text Files");
    assert_eq!(rules[0].config.min_size_mb, 1);
    let ties = vec![file("a.txt", 10, NOW), file("b.jpg", 20, NOW)];
    assert_eq!(suggest_rules_at(&ties, NOW)[0].name, "Clean Text Files");
    let quarter = vec![
        file("a.a", 1, NOW),
        file("b.b", 1, NOW),
        file("c.c", 1, NOW),
        file("d.d", 1, NOW),
        file("e.e", 1, NOW),
    ];
    assert!(suggest_rules_at(&quarter, NOW).is_empty());
    let huge = vec![file("a.bin", u64::MAX, NOW), file("b.bin", u64::MAX, NOW)];
    let rules = suggest_rules_at(&huge, NOW);
    assert_eq!(rules[0].config.min_size_mb, u64::MAX / MB);
    assert_eq!(rules[1].name, "Large File Cleanup");
}
