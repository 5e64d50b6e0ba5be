use fs_guard::file_watcher::{
    finish_watch, handle_directory_event, handle_file_event, unwatch, unwatch_all, watch_directory,
    watch_file, FileWatchEvent, FileWatcherState, RawEvent, RawEventKind, WatchOutcome, WatchStep,
    WatchTarget, FILE_CREATED, FILE_DELETED, FILE_MODIFIED, FILE_RENAMED,
};
use fs_guard::filesystem::FileSystemError;

fn raw(kind: RawEventKind, paths: &[&str]) -> RawEvent {
    RawEvent { kind, paths: paths.iter().map(|p| p.to_string()).collect() }
}

fn created(path: &str) -> FileWatchEvent {
    FileWatchEvent::Created(path.to_string())
}

fn modified(path: &str) -> FileWatchEvent {
    FileWatchEvent::Modified(path.to_string())
}

fn deleted(path: &str) -> FileWatchEvent {
    FileWatchEvent::Deleted(path.to_string())
}

fn renamed(old: &str, new: &str) -> FileWatchEvent {
    FileWatchEvent::Renamed { old: old.to_string(), new: new.to_string() }
}

fn not_watching(path: &str) -> FileSystemError {
    FileSystemError::NotFound(format!("Path not being watched: {}", path))
}

#[test]
fn event_names() {
    assert_eq!(FILE_CREATED, "file-created");
    assert_eq!(FILE_MODIFIED, "file-modified");
    assert_eq!(FILE_DELETED, "file-deleted");
    assert_eq!(FILE_RENAMED, "file-renamed");
    assert_eq!(created("a").name(), "file-created");
    assert_eq!(modified("a").name(), "file-modified");
    assert_eq!(deleted("a").name(), "file-deleted");
    assert_eq!(renamed("a", "b").name(), "file-renamed");
}

#[test]
fn new_registry_watches_nothing() {
    let state = FileWatcherState::new();
    assert!(state.watched_paths().is_empty());
    assert!(!state.is_watching("/a"));
}

#[test]
fn watch_file_needs_the_file_to_exist() {
    let state = FileWatcherState::new();
    assert_eq!(
        watch_file("/a/f.txt", false, &state),
        Err(FileSystemError::NotFound("File not found: /a/f.txt".to_string()))
    );
}

#[test]
fn watch_file_is_never_recursive() {
    let state = FileWatcherState::new();
    assert_eq!(watch_file("/a/f.txt", true, &state), Ok(WatchStep::Start { recursive: false }));
    assert!(state.watched_paths().is_empty());
}

#[test]
fn watch_directory_needs_an_existing_directory() {
    let state = FileWatcherState::new();
    assert_eq!(
        watch_directory("/a", true, false, false, &state),
        Err(FileSystemError::NotFound("Directory not found: /a".to_string()))
    );
    assert_eq!(
        watch_directory("/a", true, false, true, &state),
        Err(FileSystemError::NotFound("Directory not found: /a".to_string()))
    );
    assert_eq!(
        watch_directory("/a", true, true, false, &state),
        Err(FileSystemError::InvalidPath("Path is not a directory: /a".to_string()))
    );
}

#[test]
fn watch_directory_keeps_the_requested_mode() {
    let state = FileWatcherState::new();
    assert_eq!(watch_directory("/a", true, true, true, &state), Ok(WatchStep::Start { recursive: true }));
    assert_eq!(
        watch_directory("/a", false, true, true, &state),
        Ok(WatchStep::Start { recursive: false })
    );
}

#[test]
fn watching_twice_leaves_one_entry() {
    let mut state = FileWatcherState::new();
    assert_eq!(watch_file("/a/f.txt", true, &state), Ok(WatchStep::Start { recursive: false }));
    assert_eq!(finish_watch("/a/f.txt", WatchTarget::File, WatchOutcome::Started, &mut state), Ok(()));
    assert_eq!(watch_file("/a/f.txt", true, &state), Ok(WatchStep::AlreadyWatching));
    assert_eq!(state.watched_paths(), vec!["/a/f.txt".to_string()]);
    assert_eq!(finish_watch("/a/f.txt", WatchTarget::File, WatchOutcome::Started, &mut state), Ok(()));
    assert_eq!(state.watched_paths(), vec!["/a/f.txt".to_string()]);
    assert_eq!(unwatch("/a/f.txt", &mut state), Ok(()));
    assert!(state.watched_paths().is_empty());
    assert!(!state.is_watching("/a/f.txt"));
    assert_eq!(unwatch("/a/f.txt", &mut state), Err(not_watching("/a/f.txt")));
}

#[test]
fn watching_a_directory_twice_leaves_one_entry() {
    let mut state = FileWatcherState::new();
    assert_eq!(watch_directory("/d", true, true, true, &state), Ok(WatchStep::Start { recursive: true }));
    assert_eq!(finish_watch("/d", WatchTarget::Directory, WatchOutcome::Started, &mut state), Ok(()));
    assert_eq!(watch_directory("/d", true, true, true, &state), Ok(WatchStep::AlreadyWatching));
    assert_eq!(watch_directory("/d", false, true, true, &state), Ok(WatchStep::AlreadyWatching));
    assert_eq!(state.watched_paths(), vec!["/d".to_string()]);
}

#[test]
fn a_watched_path_that_vanished_is_not_found() {
    let mut state = FileWatcherState::new();
    assert_eq!(finish_watch("/d", WatchTarget::Directory, WatchOutcome::Started, &mut state), Ok(()));
    assert_eq!(
        watch_directory("/d", true, false, false, &state),
        Err(FileSystemError::NotFound("Directory not found: /d".to_string()))
    );
    assert!(state.is_watching("/d"));
}

#[test]
fn failed_setup_is_a_watch_error_and_registers_nothing() {
    let mut state = FileWatcherState::new();
    assert_eq!(
        finish_watch("/f", WatchTarget::File, WatchOutcome::CreateFailed("no handles".to_string()), &mut state),
        Err(FileSystemError::WatchError("Failed to create watcher: no handles".to_string()))
    );
    assert_eq!(
        finish_watch("/d", WatchTarget::Directory, WatchOutcome::CreateFailed("no handles".to_string()), &mut state),
        Err(FileSystemError::WatchError("Failed to create watcher: no handles".to_string()))
    );
    assert_eq!(
        finish_watch("/f", WatchTarget::File, WatchOutcome::AttachFailed("denied".to_string()), &mut state),
        Err(FileSystemError::WatchError("Failed to watch file: denied".to_string()))
    );
    assert_eq!(
        finish_watch("/d", WatchTarget::Directory, WatchOutcome::AttachFailed("denied".to_string()), &mut state),
        Err(FileSystemError::WatchError("Failed to watch directory: denied".to_string()))
    );
    assert!(state.watched_paths().is_empty());
}

#[test]
fn unwatch_of_a_never_watched_path_fails() {
    let mut state = FileWatcherState::new();
    assert_eq!(unwatch("/never", &mut state), Err(not_watching("/never")));
    assert_eq!(finish_watch("/a", WatchTarget::Directory, WatchOutcome::Started, &mut state), Ok(()));
    assert_eq!(unwatch("/never", &mut state), Err(not_watching("/never")));
    assert_eq!(state.watched_paths(), vec!["/a".to_string()]);
}

#[test]
fn unwatch_matches_the_exact_spelling_only() {
    let mut state = FileWatcherState::new();
    assert_eq!(finish_watch("/a/b", WatchTarget::Directory, WatchOutcome::Started, &mut state), Ok(()));
    assert_eq!(unwatch("/a", &mut state), Err(not_watching("/a")));
    assert_eq!(unwatch("/a/b/", &mut state), Err(not_watching("/a/b/")));
    assert_eq!(unwatch("/a/b/c", &mut state), Err(not_watching("/a/b/c")));
    assert!(state.is_watching("/a/b"));
    assert_eq!(unwatch("/a/b", &mut state), Ok(()));
}

#[test]
fn unwatch_leaves_the_other_entries() {
    let mut state = FileWatcherState::new();
    for path in ["/a", "/b", "/c"] {
        assert_eq!(finish_watch(path, WatchTarget::Directory, WatchOutcome::Started, &mut state), Ok(()));
    }
    assert_eq!(unwatch("/b", &mut state), Ok(()));
    assert_eq!(state.watched_paths(), vec!["/a".to_string(), "/c".to_string()]);
}

#[test]
fn unwatch_all_clears_the_registry() {
    let mut state = FileWatcherState::new();
    unwatch_all(&mut state);
    assert!(state.watched_paths().is_empty());
    for path in ["/a", "/b"] {
        assert_eq!(finish_watch(path, WatchTarget::File, WatchOutcome::Started, &mut state), Ok(()));
    }
    unwatch_all(&mut state);
    assert!(state.watched_paths().is_empty());
    assert_eq!(watch_file("/a", true, &state), Ok(WatchStep::Start { recursive: false }));
}

#[test]
fn file_watch_maps_the_three_kinds() {
    assert_eq!(handle_file_event(&raw(RawEventKind::Create, &["/w/f"]), "/w/f"), vec![created("/w/f")]);
    assert_eq!(handle_file_event(&raw(RawEventKind::Modify, &["/w/f"]), "/w/f"), vec![modified("/w/f")]);
    assert_eq!(handle_file_event(&raw(RawEventKind::Remove, &["/w/f"]), "/w/f"), vec![deleted("/w/f")]);
}

#[test]
fn file_watch_drops_the_other_kinds() {
    for kind in [RawEventKind::Any, RawEventKind::Access, RawEventKind::Other] {
        assert_eq!(handle_file_event(&raw(kind, &["/w/f"]), "/w/f"), vec![]);
        assert_eq!(handle_file_event(&raw(kind, &["/w/f", "/w/g"]), "/w/f"), vec![]);
    }
}

#[test]
fn file_watch_drops_other_paths() {
    assert_eq!(handle_file_event(&raw(RawEventKind::Create, &["/w/g"]), "/w/f"), vec![]);
    assert_eq!(handle_file_event(&raw(RawEventKind::Modify, &["/w/f/x"]), "/w/f"), vec![]);
    assert_eq!(handle_file_event(&raw(RawEventKind::Modify, &["/w"]), "/w/f"), vec![]);
    assert_eq!(handle_file_event(&raw(RawEventKind::Modify, &[]), "/w/f"), vec![]);
    assert_eq!(
        handle_file_event(&raw(RawEventKind::Modify, &["/w/a", "/w/f", "/w/b", "/w/f"]), "/w/f"),
        vec![modified("/w/f"), modified("/w/f")]
    );
}

#[test]
fn directory_watch_reports_what_lies_below() {
    let event = raw(RawEventKind::Create, &["dir/file.txt"]);
    assert_eq!(handle_directory_event(&event, "dir"), vec![created("dir/file.txt")]);
}

#[test]
fn directory_watch_ignores_a_sibling_directory() {
    assert_eq!(handle_directory_event(&raw(RawEventKind::Create, &["dir2/file.txt"]), "dir"), vec![]);
    assert_eq!(handle_directory_event(&raw(RawEventKind::Modify, &["dir2/file.txt"]), "dir"), vec![]);
    assert_eq!(handle_directory_event(&raw(RawEventKind::Remove, &["dir2"]), "dir"), vec![]);
    assert_eq!(handle_directory_event(&raw(RawEventKind::Any, &["dir2/a", "dir2/b"]), "dir"), vec![]);
}

#[test]
fn directory_watch_maps_the_three_kinds() {
    assert_eq!(handle_directory_event(&raw(RawEventKind::Create, &["/d/x"]), "/d"), vec![created("/d/x")]);
    assert_eq!(handle_directory_event(&raw(RawEventKind::Modify, &["/d/x/y"]), "/d/"), vec![modified("/d/x/y")]);
    assert_eq!(handle_directory_event(&raw(RawEventKind::Remove, &["/d"]), "/d"), vec![deleted("/d")]);
}

#[test]
fn directory_watch_keeps_the_order_of_the_paths() {
    let event = raw(RawEventKind::Modify, &["/d/b", "/e/x", "/d/a", "/d"]);
    assert_eq!(
        handle_directory_event(&event, "/d"),
        vec![modified("/d/b"), modified("/d/a"), modified("/d")]
    );
}

#[test]
fn directory_watch_reads_two_untagged_paths_as_a_rename() {
    assert_eq!(
        handle_directory_event(&raw(RawEventKind::Any, &["/d/old", "/elsewhere/new"]), "/d"),
        vec![renamed("/d/old", "/elsewhere/new")]
    );
    assert_eq!(
        handle_directory_event(&raw(RawEventKind::Any, &["/elsewhere/old", "/d/new"]), "/d"),
        vec![renamed("/elsewhere/old", "/d/new")]
    );
    assert_eq!(
        handle_directory_event(&raw(RawEventKind::Any, &["/d/old", "/d/new"]), "/d"),
        vec![renamed("/d/old", "/d/new")]
    );
    assert_eq!(
        handle_directory_event(&raw(RawEventKind::Any, &["/d", "/d"]), "/d/"),
        vec![renamed("/d", "/d")]
    );
}

#[test]
fn directory_watch_drops_untagged_notifications_of_other_shapes() {
    assert_eq!(handle_directory_event(&raw(RawEventKind::Any, &[]), "/d"), vec![]);
    assert_eq!(handle_directory_event(&raw(RawEventKind::Any, &["/d/a"]), "/d"), vec![]);
    assert_eq!(handle_directory_event(&raw(RawEventKind::Any, &["/d/a", "/d/b", "/d/c"]), "/d"), vec![]);
}

#[test]
fn directory_watch_drops_the_other_kinds() {
    assert_eq!(handle_directory_event(&raw(RawEventKind::Access, &["/d/a"]), "/d"), vec![]);
    assert_eq!(handle_directory_event(&raw(RawEventKind::Other, &["/d/a", "/d/b"]), "/d"), vec![]);
}
