use std::path::Path;

use trashdoctor::actions::{collision_name, get_file_type};
use trashdoctor::rules::{matches_rule, RuleConfig};
use trashdoctor::scanner::{
    get_file_type_from_path, is_hidden_file, should_exclude_file, FileInfo, FileMetadata,
};

/// Matching by the search functions of std, one part after the other.
fn search_match(pattern: &str, text: &str) -> bool {
    if pattern == "*" {
        return true;
    }
    if !pattern.contains('*') {
        return pattern == text;
    }
    let parts: Vec<&str> = pattern.split('*').collect();
    let mut text_pos = 0;
    for (i, part) in parts.iter().enumerate() {
        if part.is_empty() {
            continue;
        }
        if i == 0 {
            if !text.starts_with(part) {
                return false;
            }
            text_pos = part.len();
        } else if i == parts.len() - 1 {
            return text[text_pos..].ends_with(part);
        } else if let Some(pos) = text[text_pos..].find(part) {
            text_pos += pos + part.len();
        } else {
            return false;
        }
    }
    true
}

/// The same, with the text and every part in lowercase.
fn search_match_ignoring_case(pattern: &str, text: &str) -> bool {
    if pattern == "*" {
        return true;
    }
    if !pattern.contains('*') {
        return pattern == text;
    }
    let parts: Vec<&str> = pattern.split('*').collect();
    let mut text_pos = 0;
    let text_lower = text.to_lowercase();
    for (i, part) in parts.iter().enumerate() {
        if part.is_empty() {
            continue;
        }
        let part_lower = part.to_lowercase();
        if i == 0 {
            if !text_lower.starts_with(&part_lower) {
                return false;
            }
            text_pos = part_lower.len();
        } else if i == parts.len() - 1 {
            return text_lower[text_pos..].ends_with(&part_lower);
        } else if let Some(pos) = text_lower[text_pos..].find(&part_lower) {
            text_pos += pos + part_lower.len();
        } else {
            return false;
        }
    }
    true
}

fn words(alphabet: &[char], longest: usize) -> Vec<String> {
    let mut all = vec![String::new()];
    let mut last = vec![String::new()];
    for _ in 0..longest {
        let mut next = Vec::new();
        for word in &last {
            for c in alphabet {
                let mut longer = word.clone();
                longer.push(*c);
                next.push(longer);
            }
        }
        all.extend(next.iter().cloned());
        last = next;
    }
    all
}

#[test]
fn scan_wildcards_agree_with_std_search() {
    let patterns = words(&['a', 'b', '*'], 5);
    let texts = words(&['a', 'b'], 6);
    for pattern in &patterns {
        for text in &texts {
            assert_eq!(
                trashdoctor::scanner::wildcard_match(pattern, text),
                search_match(pattern, text),
                "{:?} on {:?}",
                pattern,
                text
            );
        }
    }
}

#[test]
fn rule_wildcards_agree_with_std_search() {
    let patterns = words(&['a', 'B', '*'], 4);
    let texts = words(&['A', 'b', 'é'], 5);
    for pattern in &patterns {
        for text in &texts {
            assert_eq!(
                trashdoctor::rules::wildcard_match(pattern, text),
                search_match_ignoring_case(pattern, text),
                "{:?} on {:?}",
                pattern,
                text
            );
            let expected = if pattern.contains('*') {
                search_match_ignoring_case(pattern, text)
            } else {
                text.to_lowercase().contains(&pattern.to_lowercase())
            };
            assert_eq!(
                trashdoctor::rules::pattern_matches(text, pattern),
                expected,
                "{:?} on {:?}",
                pattern,
                text
            );
        }
    }
}

#[test]
fn wildcards_with_letters_that_change_length() {
    for (pattern, text) in [
        ("*İ*", "xİy"),
        ("İ*", "i̇stanbul"),
        ("*ß", "STRASSE"),
        ("*Σ", "ΟΔΟΣ"),
        ("a*Σ*b", "aσb"),
        ("*日本*", "これは日本語"),
        ("É*é", "éé"),
        ("*😀", "smile😀"),
    ] {
        assert_eq!(
            trashdoctor::rules::wildcard_match(pattern, text),
            search_match_ignoring_case(pattern, text),
            "{:?} on {:?}",
            pattern,
            text
        );
        assert_eq!(
            trashdoctor::scanner::wildcard_match(pattern, text),
            search_match(pattern, text),
            "{:?} on {:?}",
            pattern,
            text
        );
    }
}

#[test]
fn exclusion_agrees_with_wildcard_search() {
    let patterns = words(&['a', '/', '*'], 3);
    let texts = words(&['a', '/'], 5);
    for first in &patterns {
        for second in ["", "*a", "/a/"] {
            let list = vec![first.clone(), second.to_string()];
            for text in &texts {
                let expected = list.iter().any(|p| search_match(p, text));
                assert_eq!(should_exclude_file(text, &list), expected, "{:?} on {:?}", list, text);
            }
        }
    }
}

const NAMES: [&str; 24] = [
    "a.jpg", "A.JPG", "b.tar.gz", ".profile", ".profile.bak", "noext", "dot.", "x.Mp4", "y.unknown",
    "a/b/c.PDF", "a.d/c", "a.d/.c", "/r/.git/config", "weird..name", "..hidden", "a b.txt",
    "ü.TXT", "a.ÜML", "deep/er/est.rs", "./x.go", "x/./y.c", "trailing/", "trailing.dir/", "q.7z",
];

fn label_by_std(path: &str) -> String {
    match Path::new(path).extension() {
        Some(ext) => {
            let ext = ext.to_str().unwrap_or("unknown").to_lowercase();
            match ext.as_str() {
                "jpg" | "jpeg" | "png" | "gif" | "bmp" | "webp" | "svg" => "Image".to_string(),
                "mp4" | "avi" | "mov" | "mkv" | "flv" | "wmv" | "webm" => "Video".to_string(),
                "mp3" | "wav" | "flac" | "aac" | "ogg" | "m4a" => "Audio".to_string(),
                "pdf" => "PDF".to_string(),
                "doc" | "docx" | "odt" => "Document".to_string(),
                "xls" | "xlsx" | "ods" => "Spreadsheet".to_string(),
                "ppt" | "pptx" | "odp" => "Presentation".to_string(),
                "zip" | "rar" | "7z" | "tar" | "gz" | "bz2" => "Archive".to_string(),
                "exe" | "msi" | "deb" | "rpm" | "dmg" | "pkg" => "Executable".to_string(),
                "txt" | "md" | "log" | "cfg" | "ini" | "conf" => "Text".to_string(),
                "html" | "htm" | "css" | "js" | "json" | "xml" => "Web".to_string(),
                "c" | "cpp" | "h" | "py" | "java" | "rs" | "go" => "Code".to_string(),
                _ => format!(".{}", ext),
            }
        }
        None => "No Extension".to_string(),
    }
}

#[test]
fn labels_agree_with_std_paths() {
    for name in NAMES {
        assert_eq!(get_file_type_from_path(name), label_by_std(name), "{:?}", name);
        let hidden = Path::new(name)
            .file_name()
            .and_then(|n| n.to_str())
            .map(|n| n.starts_with('.'))
            .unwrap_or(false);
        assert_eq!(is_hidden_file(name), hidden, "{:?}", name);
        let quick = match Path::new(name).extension() {
            Some(ext) => ext.to_str().unwrap_or("unknown").to_lowercase(),
            None => "unknown".to_string(),
        };
        assert_eq!(get_file_type(name), quick, "{:?}", name);
    }
}

#[test]
fn numbered_names_agree_with_std_paths() {
    for name in ["report.pdf", "archive.tar.gz", "README", ".bashrc", "name.", ".a.b", "a b.c", "ü.é"] {
        for attempt in [1u64, 2, 9, 10, 11, 99, 100, 12345] {
            let stem = Path::new(name).file_stem().unwrap_or_default().to_str().unwrap_or("");
            let ext = Path::new(name).extension().unwrap_or_default().to_str().unwrap_or("");
            let expected = if ext.is_empty() {
                format!("{}_{}", stem, attempt)
            } else {
                format!("{}_{}.{}", stem, attempt, ext)
            };
            assert_eq!(collision_name(name, attempt), expected);
        }
        assert_eq!(collision_name(name, 0), name);
    }
}

fn rule_by_plain_steps(file: &FileInfo, rule: &RuleConfig, now_secs: u64) -> bool {
    let max_age_secs = rule.max_age_days * 86400;
    let min_size_bytes = rule.min_size_mb * 1024 * 1024;
    let max_size_bytes = rule.max_size_mb.map(|mb| mb * 1024 * 1024);
    let file_age_secs = now_secs.saturating_sub(file.last_access_secs);
    if file_age_secs < max_age_secs {
        return false;
    }
    if file.size < min_size_bytes {
        return false;
    }
    if let Some(max_size) = max_size_bytes {
        if file.size > max_size {
            return false;
        }
    }
    if file.is_hidden && !rule.include_hidden {
        return false;
    }
    if file.is_readonly && !rule.include_readonly {
        return false;
    }
    if file.is_executable && !rule.include_executable {
        return false;
    }
    if let Some(ref include_types) = rule.file_types {
        if !include_types.iter().any(|t| file.file_type.to_lowercase().contains(&t.to_lowercase())) {
            return false;
        }
    }
    if let Some(ref exclude_types) = rule.exclude_file_types {
        if exclude_types.iter().any(|t| file.file_type.to_lowercase().contains(&t.to_lowercase())) {
            return false;
        }
    }
    let matches = |pattern: &String| {
        if pattern.contains('*') {
            search_match_ignoring_case(pattern, &file.path)
        } else {
            file.path.to_lowercase().contains(&pattern.to_lowercase())
        }
    };
    if !rule.custom_patterns.is_empty() && !rule.custom_patterns.iter().any(matches) {
        return false;
    }
    if !rule.exclude_patterns.is_empty() && rule.exclude_patterns.iter().any(matches) {
        return false;
    }
    true
}

#[test]
fn rules_agree_with_plain_steps() {
    let now: u64 = 1_000_000_000;
    let mb: u64 = 1024 * 1024;
    let mut state: u64 = 42;
    let mut next = |bound: u64| {
        state = state.wrapping_mul(6364136223846793005).wrapping_add(1442695040888963407);
        (state >> 33) % bound
    };
    let type_lists: [Option<Vec<String>>; 4] = [
        None,
        Some(vec![]),
        Some(vec!["image".to_string(), "VID".to_string()]),
        Some(vec!["t".to_string()]),
    ];
    let pattern_lists: [Vec<String>; 4] = [
        vec![],
        vec!["*/Downloads/*".to_string()],
        vec!["tmp".to_string(), "*.LOG".to_string()],
        vec!["*".to_string()],
    ];
    let paths = ["/h/Downloads/a.jpg", "/h/docs/b.txt", "/h/.c.mp4", "/h/tmp/d.log", "/h/e"];
    for _ in 0..20000 {
        let meta = FileMetadata {
            size: (next(6) * mb + next(3)).saturating_sub(next(2)),
            accessed_secs: now - next(5) * 86400 + next(3),
            accessed_offset_secs: 0,
            modified_secs: 0,
            modified_offset_secs: 0,
            readonly: next(4) == 0,
            mode: if next(4) == 0 { Some(0o755) } else { Some(0o644) },
        };
        let file = FileInfo::new(paths[next(5) as usize], &meta, String::new(), String::new());
        let rule = RuleConfig {
            max_age_days: next(5),
            min_size_mb: next(5),
            max_size_mb: if next(2) == 0 { None } else { Some(next(6)) },
            file_types: type_lists[next(4) as usize].clone(),
            exclude_file_types: type_lists[next(4) as usize].clone(),
            include_hidden: next(2) == 0,
            include_readonly: next(2) == 0,
            include_executable: next(2) == 0,
            custom_patterns: pattern_lists[next(4) as usize].clone(),
            exclude_patterns: pattern_lists[next(4) as usize].clone(),
        };
        assert_eq!(
            matches_rule(&file, &rule, now),
            rule_by_plain_steps(&file, &rule, now),
            "{:?} under {:?}",
            file,
            rule
        );
    }
}

#[test]
fn numbered_names_of_every_short_file_name() {
    for name in words(&['a', '.', '_'], 6) {
        if name.is_empty() || name == "." || name == ".." {
            continue;
        }
        let stem = Path::new(&name).file_stem().unwrap_or_default().to_str().unwrap_or("");
        let ext = Path::new(&name).extension().unwrap_or_default().to_str().unwrap_or("");
        let expected = if ext.is_empty() {
            format!("{}_{}", stem, 7)
        } else {
            format!("{}_{}.{}", stem, 7, ext)
        };
        assert_eq!(collision_name(&name, 7), expected, "{:?}", name);
    }
}
