use fs_guard::directory::{entry_not_after, name_not_after, sort_entries, DirectoryEntry};
use fs_guard::filesystem::{
    check_read_size, count_lines, require_directory, require_present, FileMetadata,
    FilePermissions, FileReadResult, FileSystemError, FileWriteRequest, IoFailure, Subject,
    WritePlan,
    MAX_FILE_SIZE_READ, MAX_FILE_SIZE_WRITE,
};
use fs_guard::text::{chars_of, join_text, push_decimal, string_of, string_of_range};

fn entry(name: &str, is_directory: bool, modified: i64) -> DirectoryEntry {
    DirectoryEntry::new(
        name.to_string(),
        format!("/d/{}", name),
        !is_directory,
        is_directory,
        7,
        modified,
    )
}

fn names(entries: &[DirectoryEntry]) -> Vec<String> {
    entries.iter().map(|e| e.name.clone()).collect()
}

fn decimal(n: u64) -> String {
    let mut out = String::new();
    push_decimal(&mut out, n);
    out
}

#[test]
fn ceilings() {
    assert_eq!(MAX_FILE_SIZE_READ, 10485760);
    assert_eq!(MAX_FILE_SIZE_WRITE, 52428800);
}

#[test]
fn messages_have_a_heading_for_each_kind() {
    let text = "x".to_string();
    assert_eq!(FileSystemError::NotFound(text.clone()).message(), "File not found: x");
    assert_eq!(FileSystemError::PermissionDenied(text.clone()).message(), "Permission denied: x");
    assert_eq!(FileSystemError::InvalidPath(text.clone()).message(), "Invalid path: x");
    assert_eq!(FileSystemError::FileTooLarge(text.clone()).message(), "File too large: x");
    assert_eq!(FileSystemError::IoError(text.clone()).message(), "IO error: x");
    assert_eq!(FileSystemError::EncodingError(text.clone()).message(), "Encoding error: x");
    assert_eq!(FileSystemError::WatchError(text.clone()).message(), "Watch error: x");
    assert_eq!(
        FileSystemError::PathNotAllowed(text).message(),
        "Path not allowed. Please request permission for: x"
    );
    assert_eq!(FileSystemError::IoError(String::new()).message(), "IO error: ");
}

#[test]
fn host_failures_are_sorted_into_the_taxonomy() {
    assert_eq!(
        FileSystemError::from_io(IoFailure::NotFound, "gone".to_string()),
        FileSystemError::NotFound("gone".to_string())
    );
    assert_eq!(
        FileSystemError::from_io(IoFailure::PermissionDenied, "no".to_string()),
        FileSystemError::PermissionDenied("no".to_string())
    );
    assert_eq!(
        FileSystemError::from_io(IoFailure::InvalidData, "stream did not contain valid UTF-8".to_string()),
        FileSystemError::EncodingError("stream did not contain valid UTF-8".to_string())
    );
    assert_eq!(
        FileSystemError::from_io(IoFailure::Other, "disk".to_string()),
        FileSystemError::IoError("disk".to_string())
    );
}

#[test]
fn metadata_record_carries_what_was_found() {
    let record = FileMetadata::new("/d/f.txt".to_string(), "f.txt".to_string(), 12, true, false, 1700000000, -3, true);
    assert_eq!(
        record,
        FileMetadata {
            path: "/d/f.txt".to_string(),
            name: "f.txt".to_string(),
            size: 12,
            is_file: true,
            is_directory: false,
            modified: 1700000000,
            created: -3,
            permissions: FilePermissions { readable: false, writable: false, executable: false },
        }
    );
    let dir = FileMetadata::new("/d".to_string(), "d".to_string(), 4096, false, true, 0, 0, true);
    assert_eq!(dir.permissions, FilePermissions { readable: true, writable: false, executable: false });
    let open = FileMetadata::new("/o".to_string(), String::new(), 0, false, false, 5, 6, false);
    assert_eq!(open.permissions, FilePermissions { readable: true, writable: true, executable: false });
}

#[test]
fn presence_is_required_by_subject() {
    assert_eq!(require_present(Subject::File, "/a", true), Ok(()));
    assert_eq!(
        require_present(Subject::File, "/a", false),
        Err(FileSystemError::NotFound("File not found: /a".to_string()))
    );
    assert_eq!(
        require_present(Subject::Path, "/a", false),
        Err(FileSystemError::NotFound("Path not found: /a".to_string()))
    );
    assert_eq!(
        require_present(Subject::Directory, "/a", false),
        Err(FileSystemError::NotFound("Directory not found: /a".to_string()))
    );
}

#[test]
fn a_directory_is_required_to_be_one() {
    assert_eq!(require_directory("/a", true, true), Ok(()));
    assert_eq!(
        require_directory("/a", true, false),
        Err(FileSystemError::InvalidPath("Path is not a directory: /a".to_string()))
    );
    assert_eq!(
        require_directory("/a", false, false),
        Err(FileSystemError::NotFound("Directory not found: /a".to_string()))
    );
}

#[test]
fn read_ceiling_is_inclusive() {
    assert_eq!(check_read_size(0), Ok(()));
    assert_eq!(check_read_size(10485760), Ok(()));
    assert_eq!(
        check_read_size(10485761),
        Err(FileSystemError::FileTooLarge(
            "File size 10485761 exceeds maximum read size 10485760".to_string()
        ))
    );
    assert_eq!(
        check_read_size(u64::MAX),
        Err(FileSystemError::FileTooLarge(
            "File size 18446744073709551615 exceeds maximum read size 10485760".to_string()
        ))
    );
}

#[test]
fn decimal_rendering() {
    for n in [0u64, 1, 9, 10, 11, 99, 100, 101, 12345, 1000000, 10485760, u64::MAX] {
        assert_eq!(decimal(n), n.to_string());
    }
    let mut out = "n=".to_string();
    push_decimal(&mut out, 407);
    assert_eq!(out, "n=407");
}

#[test]
fn lines_are_counted_as_the_standard_library_counts_them() {
    assert_eq!(count_lines(""), 0);
    assert_eq!(count_lines("a"), 1);
    assert_eq!(count_lines("a\n"), 1);
    assert_eq!(count_lines("a\nb"), 2);
    assert_eq!(count_lines("\n"), 1);
    assert_eq!(count_lines("\n\n"), 2);
    assert_eq!(count_lines("a\r\nb\r\n"), 2);
    for text in ["", "x", "\n", "x\n", "\nx", "a\n\nb", "a\r\n", "\r", "l1\nl2\nl3", "\u{e9}\n\u{fc}"] {
        assert_eq!(count_lines(text), text.lines().count(), "text {:?}", text);
    }
}

#[test]
fn read_result_carries_content_and_counts() {
    let result = FileReadResult::new("one\ntwo\n".to_string(), 8);
    assert_eq!(
        result,
        FileReadResult {
            content: "one\ntwo\n".to_string(),
            encoding: "utf-8".to_string(),
            line_count: 2,
            size: 8,
        }
    );
}

#[test]
fn permissions_follow_the_read_only_mark() {
    assert_eq!(
        FilePermissions::from_readonly(false, false),
        FilePermissions { readable: true, writable: true, executable: false }
    );
    assert_eq!(
        FilePermissions::from_readonly(true, false),
        FilePermissions { readable: false, writable: false, executable: false }
    );
    assert_eq!(
        FilePermissions::from_readonly(true, true),
        FilePermissions { readable: true, writable: false, executable: false }
    );
    assert_eq!(
        FilePermissions::from_readonly(false, true),
        FilePermissions { readable: true, writable: true, executable: false }
    );
}

fn plan(backup_to: Option<&str>, create_parents: bool, temp_path: &str) -> WritePlan {
    WritePlan {
        backup_to: backup_to.map(|p| p.to_string()),
        create_parents,
        temp_path: temp_path.to_string(),
    }
}

fn request(path: &str, content: String, create_if_not_exists: bool, backup: bool) -> FileWriteRequest {
    FileWriteRequest { path: path.to_string(), content, create_if_not_exists, backup }
}

#[test]
fn write_plan_backs_up_only_what_exists() {
    let wanted = request("/d/f.txt", "x".to_string(), false, true);
    assert_eq!(
        wanted.plan(true),
        Ok(plan(Some("/d/f.txt.backup"), false, "/d/f..tmp"))
    );
    assert_eq!(wanted.plan(false), Ok(plan(None, false, "/d/f..tmp")));
    let unwanted = request("/d/f.txt", "x".to_string(), true, false);
    assert_eq!(unwanted.plan(true), Ok(plan(None, true, "/d/f..tmp")));
    assert_eq!(unwanted.plan(false), Ok(plan(None, true, "/d/f..tmp")));
}

#[test]
fn write_ceiling_is_inclusive_and_counts_bytes() {
    let at_ceiling = request("/f", "a".repeat(52428800), true, true);
    assert_eq!(
        at_ceiling.plan(true),
        Ok(plan(Some("/f.backup"), true, "/f..tmp"))
    );
    let over = request("/f", "a".repeat(52428801), true, true);
    assert_eq!(
        over.plan(true),
        Err(FileSystemError::FileTooLarge(
            "Content size 52428801 exceeds maximum write size 52428800".to_string()
        ))
    );
    let wide = request("/f", "\u{e9}".repeat(26214401), false, false);
    assert_eq!(
        wide.plan(false),
        Err(FileSystemError::FileTooLarge(
            "Content size 52428802 exceeds maximum write size 52428800".to_string()
        ))
    );
}

#[test]
fn entry_lists_a_size_for_files_only() {
    let file = DirectoryEntry::new("f".to_string(), "/d/f".to_string(), true, false, 12, 99);
    assert_eq!(
        file,
        DirectoryEntry {
            name: "f".to_string(),
            path: "/d/f".to_string(),
            is_file: true,
            is_directory: false,
            size: Some(12),
            modified: 99,
        }
    );
    let dir = DirectoryEntry::new("s".to_string(), "/d/s".to_string(), false, true, 4096, -5);
    assert_eq!(dir.size, None);
    assert_eq!(dir.modified, -5);
    let other = DirectoryEntry::new("o".to_string(), "/d/o".to_string(), false, false, 1, 0);
    assert_eq!(other.size, None);
}

#[test]
fn names_are_ordered_by_their_bytes() {
    let names = ["", "a", "A", "ab", "b", "B", "a.txt", "a b", "10", "9", "\u{e9}", "z", "\u{65e5}", "~"];
    for a in names {
        for b in names {
            assert_eq!(name_not_after(a, b), a <= b, "{:?} and {:?}", a, b);
        }
    }
}

#[test]
fn directories_come_before_everything_else() {
    assert!(entry_not_after(&entry("z", true, 0), &entry("a", false, 0)));
    assert!(!entry_not_after(&entry("a", false, 0), &entry("z", true, 0)));
    assert!(entry_not_after(&entry("a", true, 0), &entry("b", true, 0)));
    assert!(!entry_not_after(&entry("b", false, 0), &entry("a", false, 0)));
    assert!(entry_not_after(&entry("a", false, 0), &entry("a", false, 1)));
}

#[test]
fn listing_is_sorted_directories_first_then_by_name() {
    let sorted = sort_entries(vec![
        entry("zeta.txt", false, 0),
        entry("src", true, 0),
        entry("Alpha.md", false, 0),
        entry("assets", true, 0),
        entry("alpha.md", false, 0),
        entry(".git", true, 0),
    ]);
    assert_eq!(names(&sorted), vec![".git", "assets", "src", "Alpha.md", "alpha.md", "zeta.txt"]);
    assert!(sorted[0].is_directory && sorted[2].is_directory && sorted[3].is_file);
}

#[test]
fn sorting_keeps_equal_names_in_their_order() {
    let sorted = sort_entries(vec![
        entry("", false, 1),
        entry("b", false, 2),
        entry("", false, 3),
        entry("", true, 4),
        entry("", false, 5),
        entry("", true, 6),
    ]);
    let stamps: Vec<i64> = sorted.iter().map(|e| e.modified).collect();
    assert_eq!(stamps, vec![4, 6, 1, 3, 5, 2]);
}

#[test]
fn sorting_agrees_with_the_standard_stable_sort() {
    let make = || {
        vec![
            entry("m", false, 0),
            entry("c", true, 1),
            entry("x", false, 2),
            entry("a", false, 3),
            entry("c", false, 4),
            entry("m", false, 5),
            entry("b", true, 6),
            entry("a", true, 7),
            entry("\u{e9}", false, 8),
            entry("Z", false, 9),
        ]
    };
    let mut expected = make();
    expected.sort_by(|a, b| match (a.is_directory, b.is_directory) {
        (true, false) => std::cmp::Ordering::Less,
        (false, true) => std::cmp::Ordering::Greater,
        _ => a.name.cmp(&b.name),
    });
    assert_eq!(sort_entries(make()), expected);
    assert_eq!(sort_entries(Vec::new()), Vec::new());
}

#[test]
fn text_helpers_round_trip() {
    assert_eq!(chars_of("a\u{e9}/"), vec!['a', '\u{e9}', '/']);
    assert_eq!(string_of(&vec!['x', '/', 'y']), "x/y");
    assert_eq!(string_of(&Vec::new()), "");
    assert_eq!(string_of_range(&vec!['a', 'b', 'c', 'd'], 1, 3), "bc");
    assert_eq!(string_of_range(&vec!['a', 'b'], 2, 2), "");
    assert_eq!(join_text("head: ", "tail"), "head: tail");
    assert_eq!(string_of(&chars_of("\u{65e5}\u{672c}/x")), "\u{65e5}\u{672c}/x");
}
