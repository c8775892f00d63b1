use trashdoctor::scanner::{FileInfo, FileMetadata};
use trashdoctor::sorting::{chars_before, sort_files, sorted_order, sorted_positions, SortCriteria, SortKeys};

fn file(path: &str, size: u64, accessed_secs: u64) -> FileInfo {
    let meta = FileMetadata {
        size,
        accessed_secs,
        accessed_offset_secs: 0,
        modified_secs: 0,
        modified_offset_secs: 0,
        readonly: false,
        mode: None,
    };
    FileInfo::new(path, &meta, String::new(), String::new())
}

fn sample() -> Vec<FileInfo> {
    vec![
        file("/b/two.txt", 20, 300),
        file("/a/one.jpg", 10, 100),
        file("/c/three", 30, 200),
        file("/a/four.jpg", 20, 300),
        file("/B/five.mp4", 5, 50),
    ]
}

fn paths(files: &[FileInfo]) -> Vec<&str> {
    files.iter().map(|f| f.path.as_str()).collect()
}

fn chars(s: &str) -> Vec<char> {
    s.chars().collect()
}

#[test]
fn by_name() {
    let sorted = sort_files(&sample(), SortCriteria::Name);
    assert_eq!(paths(&sorted), vec!["/B/five.mp4", "/a/four.jpg", "/a/one.jpg", "/b/two.txt", "/c/three"]);
}

#[test]
fn by_size_largest_first() {
    let sorted = sort_files(&sample(), SortCriteria::Size);
    assert_eq!(paths(&sorted), vec!["/c/three", "/b/two.txt", "/a/four.jpg", "/a/one.jpg", "/B/five.mp4"]);
}

#[test]
fn most_recent_first() {
    let sorted = sort_files(&sample(), SortCriteria::MostRecentFirst);
    assert_eq!(paths(&sorted), vec!["/b/two.txt", "/a/four.jpg", "/c/three", "/a/one.jpg", "/B/five.mp4"]);
}

#[test]
fn most_stale_first() {
    let sorted = sort_files(&sample(), SortCriteria::MostStaleFirst);
    assert_eq!(paths(&sorted), vec!["/B/five.mp4", "/a/one.jpg", "/c/three", "/b/two.txt", "/a/four.jpg"]);
}

#[test]
fn by_type_label() {
    let sorted = sort_files(&sample(), SortCriteria::Type);
    assert_eq!(paths(&sorted), vec!["/a/one.jpg", "/a/four.jpg", "/c/three", "/b/two.txt", "/B/five.mp4"]);
}

#[test]
fn the_order_lists_positions() {
    assert_eq!(sorted_order(&sample(), SortCriteria::Size), vec![2, 0, 3, 1, 4]);
    assert_eq!(sorted_order(&[], SortCriteria::Name), Vec::<usize>::new());
    assert_eq!(sorted_order(&sample()[..1], SortCriteria::Name), vec![0]);
    assert!(sort_files(&[], SortCriteria::Type).is_empty());
}

#[test]
fn sorting_agrees_with_a_stable_sort() {
    let files: Vec<FileInfo> = (0..200u64)
        .map(|i| file(&format!("/p/{}{}", (i * 7919) % 31, i % 3), (i * 104729) % 17, (i * 31) % 11))
        .collect();
    for by in [
        SortCriteria::Name,
        SortCriteria::Size,
        SortCriteria::MostRecentFirst,
        SortCriteria::MostStaleFirst,
        SortCriteria::Type,
    ] {
        let mut expected: Vec<&FileInfo> = files.iter().collect();
        match by {
            SortCriteria::Name => expected.sort_by(|a, b| a.path.cmp(&b.path)),
            SortCriteria::Size => expected.sort_by(|a, b| b.size.cmp(&a.size)),
            SortCriteria::MostRecentFirst => {
                expected.sort_by(|a, b| b.last_access_secs.cmp(&a.last_access_secs))
            }
            SortCriteria::MostStaleFirst => {
                expected.sort_by(|a, b| a.last_access_secs.cmp(&b.last_access_secs))
            }
            SortCriteria::Type => expected.sort_by(|a, b| a.file_type.cmp(&b.file_type)),
        }
        let sorted = sort_files(&files, by);
        let got: Vec<(&str, u64, u64)> =
            sorted.iter().map(|f| (f.path.as_str(), f.size, f.last_access_secs)).collect();
        let want: Vec<(&str, u64, u64)> =
            expected.iter().map(|f| (f.path.as_str(), f.size, f.last_access_secs)).collect();
        assert_eq!(got, want, "{:?}", by);
    }
}

#[test]
fn dictionary_order_of_texts() {
    assert!(chars_before(&chars("a"), &chars("b")));
    assert!(!chars_before(&chars("b"), &chars("a")));
    assert!(!chars_before(&chars("a"), &chars("a")));
    assert!(chars_before(&chars(""), &chars("a")));
    assert!(!chars_before(&chars("a"), &chars("")));
    assert!(!chars_before(&chars(""), &chars("")));
    assert!(chars_before(&chars("ab"), &chars("abc")));
    assert!(chars_before(&chars("B"), &chars("a")));
    assert!(chars_before(&chars("z"), &chars("é")));
    for (a, b) in [("abc", "abd"), ("é", "z"), ("a😀", "aé"), ("", ""), ("x", "x"), ("Zebra", "apple")] {
        assert_eq!(chars_before(&chars(a), &chars(b)), a < b, "{:?} {:?}", a, b);
        assert_eq!(chars_before(&chars(b), &chars(a)), b < a, "{:?} {:?}", b, a);
    }
}

#[test]
fn positions_by_keys() {
    let numbers = SortKeys::Numbers(vec![5, 1, 5, 0, 1]);
    assert_eq!(numbers.len(), 5);
    assert!(numbers.is_smaller(1, 0));
    assert!(!numbers.is_smaller(0, 2));
    assert_eq!(sorted_positions(&numbers), vec![3, 1, 4, 0, 2]);
    let texts = SortKeys::Texts(vec![chars("pear"), chars("apple"), chars("fig"), chars("apple")]);
    assert_eq!(sorted_positions(&texts), vec![1, 3, 2, 0]);
    assert_eq!(sorted_positions(&SortKeys::Numbers(Vec::new())), Vec::<usize>::new());
}
