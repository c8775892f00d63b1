use trashdoctor::actions::{
    check_deletable, check_present, collision_name, format_file_size, free_name, get_file_type,
    is_taken, storage_name, trash_info_at, trash_info_contents, trash_info_name, trash_info_now,
    FailureKind, FileActionError, OsFailure, StorageLocations,
};

fn failure(kind: FailureKind, os_code: Option<i32>, message: &str) -> OsFailure {
    OsFailure { kind, os_code, message: message.to_string() }
}

#[test]
fn test_format_file_size() {
    assert_eq!(format_file_size(512), "512 B");
    assert_eq!(format_file_size(1024), "1.00 KB");
    assert_eq!(format_file_size(1048576), "1.00 MB");
    assert_eq!(format_file_size(1073741824), "1.00 GB");
}

#[test]
fn actions_test_get_file_type() {
    assert_eq!(get_file_type("test.txt"), "txt");
    assert_eq!(get_file_type("test.PDF"), "pdf");
    assert_eq!(get_file_type("test"), "unknown");
}

#[test]
fn file_type_of_odd_names() {
    assert_eq!(get_file_type("/home/u/archive.TAR.GZ"), "gz");
    assert_eq!(get_file_type(".bashrc"), "unknown");
    assert_eq!(get_file_type("dir.d/readme"), "unknown");
    assert_eq!(get_file_type("name."), "");
    assert_eq!(get_file_type(""), "unknown");
}

#[test]
fn sizes_below_one_kilobyte_are_whole_bytes() {
    assert_eq!(format_file_size(0), "0 B");
    assert_eq!(format_file_size(1), "1 B");
    assert_eq!(format_file_size(1023), "1023 B");
}

#[test]
fn sizes_are_rounded_to_two_places() {
    assert_eq!(format_file_size(1025), "1.00 KB");
    assert_eq!(format_file_size(1536), "1.50 KB");
    assert_eq!(format_file_size(1234567), "1.18 MB");
    assert_eq!(format_file_size(1048575), "1024.00 KB");
    assert_eq!(format_file_size(5368709120), "5.00 GB");
    assert_eq!(format_file_size(1099511627776), "1.00 TB");
    assert_eq!(format_file_size(u64::MAX), "16777216.00 TB");
}

#[test]
fn halves_go_to_the_even_hundredth() {
    assert_eq!(format_file_size(1152), "1.12 KB");
    assert_eq!(format_file_size(1408), "1.38 KB");
    assert_eq!(format_file_size(1966080), "1.88 MB");
}

#[test]
fn formatted_size_agrees_with_floating_point() {
    let units = ["B", "KB", "MB", "GB", "TB"];
    let mut size: u64 = 1;
    while size < (1u64 << 52) {
        for probe in [size - 1, size, size + 1, size + size / 3, size + size / 7] {
            let mut value = probe as f64;
            let mut unit = 0;
            while value >= 1024.0 && unit < units.len() - 1 {
                value /= 1024.0;
                unit += 1;
            }
            let expected = if unit == 0 {
                format!("{} {}", probe, units[unit])
            } else {
                format!("{:.2} {}", value, units[unit])
            };
            assert_eq!(format_file_size(probe), expected, "size {}", probe);
        }
        size *= 2;
    }
}

#[test]
fn formatted_size_parses_back_within_rounding() {
    for size in [1024u64, 1500, 99_999, 1_000_000, 123_456_789, 5_000_000_000, 7_777_777_777_777] {
        let text = format_file_size(size);
        let (number, unit) = text.split_once(' ').unwrap();
        let factor: f64 = match unit {
            "KB" => 1024.0,
            "MB" => 1024.0 * 1024.0,
            "GB" => 1024.0 * 1024.0 * 1024.0,
            "TB" => 1024.0 * 1024.0 * 1024.0 * 1024.0,
            _ => 1.0,
        };
        let shown: f64 = number.parse().unwrap();
        assert!((shown * factor - size as f64).abs() <= factor * 0.005 + 1.0, "{}", text);
    }
}

#[test]
fn failures_are_sorted_into_kinds() {
    assert!(matches!(
        FileActionError::from(failure(FailureKind::PermissionDenied, Some(13), "denied")),
        FileActionError::PermissionDenied
    ));
    assert!(matches!(
        FileActionError::from(failure(FailureKind::NotFound, Some(2), "missing")),
        FileActionError::FileNotFound
    ));
    assert!(matches!(
        FileActionError::from(failure(FailureKind::Unclassified, Some(28), "full")),
        FileActionError::InsufficientSpace
    ));
    assert!(matches!(
        FileActionError::from(failure(FailureKind::Unclassified, Some(16), "busy")),
        FileActionError::FileInUse
    ));
    match FileActionError::from(failure(FailureKind::Unclassified, Some(5), "I/O error")) {
        FileActionError::Other(message) => assert_eq!(message, "I/O error"),
        other => panic!("unexpected kind: {:?}", other),
    }
    match FileActionError::from(failure(FailureKind::Unclassified, None, "odd")) {
        FileActionError::Other(message) => assert_eq!(message, "odd"),
        other => panic!("unexpected kind: {:?}", other),
    }
    assert!(matches!(
        FileActionError::from(failure(FailureKind::PermissionDenied, Some(28), "denied")),
        FileActionError::PermissionDenied
    ));
}

#[test]
fn failures_in_words() {
    assert_eq!(FileActionError::PermissionDenied.message(), "Permission denied");
    assert_eq!(FileActionError::FileNotFound.message(), "File not found");
    assert_eq!(FileActionError::InsufficientSpace.message(), "Insufficient disk space");
    assert_eq!(FileActionError::FileInUse.message(), "File is currently in use");
    assert_eq!(FileActionError::Other("boom".to_string()).message(), "Error: boom");
}

#[test]
fn deleting_what_is_not_there_fails() {
    assert!(matches!(check_deletable(false, false), Err(FileActionError::FileNotFound)));
    assert!(matches!(check_deletable(false, true), Err(FileActionError::FileNotFound)));
}

#[test]
fn deleting_a_read_only_file_is_refused() {
    assert!(matches!(check_deletable(true, true), Err(FileActionError::PermissionDenied)));
    assert!(matches!(check_deletable(true, false), Ok(())));
}

#[test]
fn archiving_needs_the_file() {
    assert!(matches!(check_present(false), Err(FileActionError::FileNotFound)));
    assert!(matches!(check_present(true), Ok(())));
}

#[test]
fn numbered_names() {
    assert_eq!(collision_name("report.pdf", 0), "report.pdf");
    assert_eq!(collision_name("report.pdf", 1), "report_1.pdf");
    assert_eq!(collision_name("report.pdf", 12), "report_12.pdf");
    assert_eq!(collision_name("archive.tar.gz", 2), "archive.tar_2.gz");
    assert_eq!(collision_name("README", 3), "README_3");
    assert_eq!(collision_name(".bashrc", 1), ".bashrc_1");
    assert_eq!(collision_name("name.", 1), "name_1");
    assert_eq!(collision_name("name.", 0), "name.");
}

#[test]
fn archive_names_do_not_collide() {
    let mut directory = vec!["notes.txt".to_string()];
    let first = free_name("report.pdf", &directory);
    assert_eq!(first, "report.pdf");
    directory.push(first);
    let second = free_name("report.pdf", &directory);
    assert_eq!(second, "report_1.pdf");
    directory.push(second);
    let third = free_name("report.pdf", &directory);
    assert_eq!(third, "report_2.pdf");
    assert!(is_taken("report_1.pdf", &directory));
    assert!(!is_taken("report_2.pdf", &directory));
}

#[test]
fn free_name_skips_every_taken_candidate() {
    let directory = vec![
        "a_2".to_string(),
        "a".to_string(),
        "a_1".to_string(),
        "a_4".to_string(),
        "a_1".to_string(),
    ];
    assert_eq!(free_name("a", &directory), "a_3");
    assert_eq!(free_name("b", &directory), "b");
    assert_eq!(free_name("a", &Vec::new()), "a");
}

#[test]
fn storage_lies_under_home() {
    let places = StorageLocations::for_home(Some("/home/u"));
    assert_eq!(places.archive_dir, "/home/u/.trashdoctor/archive");
    assert_eq!(places.trash_files_dir, "/home/u/.local/share/Trash/files");
    assert_eq!(places.trash_info_dir, "/home/u/.local/share/Trash/info");
}

#[test]
fn storage_falls_back_to_tmp() {
    let places = StorageLocations::for_home(None);
    assert_eq!(places.archive_dir, "/tmp/.trashdoctor/archive");
    assert_eq!(places.trash_files_dir, "/tmp/.local/share/Trash/files");
    assert_eq!(places.trash_info_dir, "/tmp/.local/share/Trash/info");
}

#[test]
fn trash_record_has_the_fixed_form() {
    assert_eq!(
        trash_info_contents("/home/u/old.txt", "2024-03-01T12:30:45"),
        "[Trash Info]\nPath=/home/u/old.txt\nDeletionDate=2024-03-01T12:30:45\n"
    );
    assert_eq!(trash_info_name("old_1.txt"), "old_1.txt.trashinfo");
}

#[test]
fn trash_record_of_this_moment() {
    let text = trash_info_now("/home/u/old.txt", 7_200);
    let prefix = "[Trash Info]\nPath=/home/u/old.txt\nDeletionDate=";
    assert!(text.starts_with(prefix));
    assert!(text.ends_with('\n'));
    let date = &text[prefix.len()..text.len() - 1];
    assert_eq!(date.len(), 19);
    let bytes = date.as_bytes();
    assert_eq!(bytes[4], b'-');
    assert_eq!(bytes[7], b'-');
    assert_eq!(bytes[10], b'T');
    assert_eq!(bytes[13], b':');
    assert_eq!(bytes[16], b':');
    assert!(date.chars().filter(|c| c.is_ascii_digit()).count() == 14);
}

#[test]
fn trash_record_of_a_given_moment() {
    let prefix = "[Trash Info]\nPath=/home/u/old.txt\nDeletionDate=";
    assert_eq!(
        trash_info_at("/home/u/old.txt", 1_700_000_000, 0),
        "[Trash Info]\nPath=/home/u/old.txt\nDeletionDate=2023-11-14T22:13:20\n"
    );
    assert_eq!(
        trash_info_at("/home/u/old.txt", 1_700_000_000, -18_000),
        "[Trash Info]\nPath=/home/u/old.txt\nDeletionDate=2023-11-14T17:13:20\n"
    );
    assert_eq!(
        trash_info_at("/home/u/old.txt", 0, 0),
        "[Trash Info]\nPath=/home/u/old.txt\nDeletionDate=1970-01-01T00:00:00\n"
    );
    for (secs, offset) in [
        (0u64, -86_399),
        (86_399, 86_399),
        (1_700_000_000, 3_600),
        (253_402_214_399, 86_399),
        (253_402_214_400, 0),
        (u64::MAX, -3_600),
        (5, 86_400),
        (5, i32::MIN),
    ] {
        let text = trash_info_at("/home/u/old.txt", secs, offset);
        assert!(text.starts_with(prefix));
        assert!(text.ends_with('\n'));
        let date: Vec<char> = text[prefix.len()..text.len() - 1].chars().collect();
        assert_eq!(date.len(), 19, "{:?}", text);
        for (place, c) in date.iter().enumerate() {
            match place {
                4 | 7 => assert_eq!(*c, '-'),
                10 => assert_eq!(*c, 'T'),
                13 | 16 => assert_eq!(*c, ':'),
                _ => assert!(c.is_ascii_digit()),
            }
        }
    }
}

#[test]
fn a_trash_record_beyond_the_calendar_is_dated_at_its_end() {
    let last = trash_info_at("/home/u/old.txt", 253_402_214_399, 0);
    assert_eq!(last, "[Trash Info]\nPath=/home/u/old.txt\nDeletionDate=9999-12-30T23:59:59\n");
    assert_eq!(trash_info_at("/home/u/old.txt", 253_402_214_400, 0), last);
    assert_eq!(trash_info_at("/home/u/old.txt", u64::MAX, 0), last);
    assert_eq!(
        trash_info_at("/home/u/old.txt", u64::MAX, 86_399),
        "[Trash Info]\nPath=/home/u/old.txt\nDeletionDate=9999-12-31T23:59:58\n"
    );
    let universal = trash_info_at("/home/u/old.txt", 1_700_000_000, 0);
    assert_eq!(trash_info_at("/home/u/old.txt", 1_700_000_000, 86_400), universal);
    assert_eq!(trash_info_at("/home/u/old.txt", 1_700_000_000, -86_400), universal);
    assert_eq!(trash_info_at("/home/u/old.txt", 1_700_000_000, i32::MAX), universal);
}

#[test]
fn stored_under_the_file_name() {
    assert_eq!(storage_name("/home/u/report.pdf").unwrap(), "report.pdf");
    assert_eq!(storage_name("dir/sub/").unwrap(), "sub");
    for path in ["", "/", "..", "a/.."] {
        match storage_name(path) {
            Err(FileActionError::Other(message)) => assert_eq!(message, "Invalid file path"),
            other => panic!("unexpected result for {:?}: {:?}", path, other),
        }
    }
}
