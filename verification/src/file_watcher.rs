//! The watch registry: which paths are being watched, and what each raw
//! change notification means.
//!
//! Watching itself is the work of the operating system. This module holds
//! the decisions around it: whether a request calls for a new watch, what
//! a finished attempt does to the registry, and which events a raw
//! notification stands for. The caller does the outside work between the
//! steps and hands back how it went.

use vstd::prelude::*;
use crate::filesystem::{
    directory_presence, outcome, presence, require_directory, require_present, ErrorKind, Failure,
    FileSystemError, Subject,
};
use crate::lexical::{is_within_root, within_root};
use crate::path_set::PathSet;
use crate::text::join_text;

verus! {

/// The name under which a `Created` event is sent.
pub const FILE_CREATED: &'static str = "file-created";

/// The name under which a `Modified` event is sent.
pub const FILE_MODIFIED: &'static str = "file-modified";

/// The name under which a `Deleted` event is sent.
pub const FILE_DELETED: &'static str = "file-deleted";

/// The name under which a `Renamed` event is sent.
pub const FILE_RENAMED: &'static str = "file-renamed";

/// A change that is reported to whoever asked for the watch.
#[derive(Debug, PartialEq, Eq)]
pub enum FileWatchEvent {
    Created(String),
    Modified(String),
    Deleted(String),
    Renamed { old: String, new: String },
}

/// What an event says.
pub enum EventText {
    Created(Seq<char>),
    Modified(Seq<char>),
    Deleted(Seq<char>),
    Renamed { old: Seq<char>, new: Seq<char> },
}

impl View for FileWatchEvent {
    type V = EventText;

    open spec fn view(&self) -> EventText {
        match self {
            FileWatchEvent::Created(path) => EventText::Created(path@),
            FileWatchEvent::Modified(path) => EventText::Modified(path@),
            FileWatchEvent::Deleted(path) => EventText::Deleted(path@),
            FileWatchEvent::Renamed { old, new } => EventText::Renamed { old: old@, new: new@ },
        }
    }
}

impl FileWatchEvent {
    /// The name under which the event is sent.
    pub fn name(&self) -> (out: &'static str)
        ensures
            out@ == match self {
                FileWatchEvent::Created(_) => FILE_CREATED@,
                FileWatchEvent::Modified(_) => FILE_MODIFIED@,
                FileWatchEvent::Deleted(_) => FILE_DELETED@,
                FileWatchEvent::Renamed { .. } => FILE_RENAMED@,
            },
    {
        match self {
            FileWatchEvent::Created(_) => FILE_CREATED,
            FileWatchEvent::Modified(_) => FILE_MODIFIED,
            FileWatchEvent::Deleted(_) => FILE_DELETED,
            FileWatchEvent::Renamed { .. } => FILE_RENAMED,
        }
    }
}

/// The kind tag of a raw notification.
#[derive(Debug, Clone, Copy, PartialEq, Eq, Structural)]
pub enum RawEventKind {
    /// The notification does not tell its kind.
    Any,
    Access,
    Create,
    Modify,
    Remove,
    Other,
}

/// A raw notification: its kind tag and the paths it is about, in the
/// order in which the operating system named them.
#[derive(Debug)]
pub struct RawEvent {
    pub kind: RawEventKind,
    pub paths: Vec<String>,
}

/// The event that a notification of `kind` about `path` alone stands for:
/// creation, modification and removal have one each, the other kinds have
/// none.
pub open spec fn plain_event(kind: RawEventKind, path: Seq<char>) -> Option<EventText> {
    match kind {
        RawEventKind::Create => Some(EventText::Created(path)),
        RawEventKind::Modify => Some(EventText::Modified(path)),
        RawEventKind::Remove => Some(EventText::Deleted(path)),
        _ => None,
    }
}

/// What a watch on the single file `watched` reports for one path of a
/// notification: the plain event if the path is the watched one.
pub open spec fn file_event_for(kind: RawEventKind, path: Seq<char>, watched: Seq<char>) -> Option<
    EventText,
> {
    if path == watched {
        plain_event(kind, path)
    } else {
        None
    }
}

/// What a watch on the directory `watched` reports for one path of a
/// notification that tells its kind: the plain event, if the path is the
/// directory or lies below it.
pub open spec fn directory_event_for(kind: RawEventKind, path: Seq<char>, watched: Seq<char>) -> Option<
    EventText,
> {
    if within_root(path, watched) {
        plain_event(kind, path)
    } else {
        None
    }
}

/// What a watch on the directory `watched` reports for a notification
/// that does not tell its kind: one rename from the first path to the
/// second, if the notification names exactly two paths and one of them is
/// the directory or lies below it; nothing otherwise.
pub open spec fn rename_events(paths: Seq<Seq<char>>, watched: Seq<char>) -> Seq<EventText> {
    if paths.len() == 2 && (within_root(paths[0], watched) || within_root(paths[1], watched)) {
        seq![EventText::Renamed { old: paths[0], new: paths[1] }]
    } else {
        Seq::<EventText>::empty()
    }
}

/// The events that a file watch reports for the first `n` paths of a
/// notification, in the order of the paths.
pub open spec fn file_events_upto(
    kind: RawEventKind,
    paths: Seq<Seq<char>>,
    watched: Seq<char>,
    n: int,
) -> Seq<EventText>
    decreases n,
{
    if n <= 0 {
        Seq::<EventText>::empty()
    } else {
        let before = file_events_upto(kind, paths, watched, n - 1);
        match file_event_for(kind, paths[n - 1], watched) {
            Some(event) => before.push(event),
            None => before,
        }
    }
}

/// The events that a file watch reports for a notification.
pub open spec fn file_events(kind: RawEventKind, paths: Seq<Seq<char>>, watched: Seq<char>) -> Seq<
    EventText,
> {
    file_events_upto(kind, paths, watched, paths.len() as int)
}

/// The events that a directory watch reports for the first `n` paths of a
/// notification, in the order of the paths.
pub open spec fn directory_events_upto(
    kind: RawEventKind,
    paths: Seq<Seq<char>>,
    watched: Seq<char>,
    n: int,
) -> Seq<EventText>
    decreases n,
{
    if n <= 0 {
        Seq::<EventText>::empty()
    } else {
        let before = directory_events_upto(kind, paths, watched, n - 1);
        match directory_event_for(kind, paths[n - 1], watched) {
            Some(event) => before.push(event),
            None => before,
        }
    }
}

/// The events that a directory watch reports for a notification: at most
/// one rename where the notification does not tell its kind, else the
/// plain event of each path in the directory.
pub open spec fn directory_events(
    kind: RawEventKind,
    paths: Seq<Seq<char>>,
    watched: Seq<char>,
) -> Seq<EventText> {
    if kind == RawEventKind::Any {
        rename_events(paths, watched)
    } else {
        directory_events_upto(kind, paths, watched, paths.len() as int)
    }
}

fn plain_event_of(kind: RawEventKind, path: &String) -> (out: Option<FileWatchEvent>)
    ensures
        out.deep_view() == plain_event(kind, path@),
{
    match kind {
        RawEventKind::Create => Some(FileWatchEvent::Created(path.clone())),
        RawEventKind::Modify => Some(FileWatchEvent::Modified(path.clone())),
        RawEventKind::Remove => Some(FileWatchEvent::Deleted(path.clone())),
        _ => None,
    }
}

impl DeepView for FileWatchEvent {
    type V = EventText;

    open spec fn deep_view(&self) -> EventText {
        self@
    }
}

/// Classifies a raw notification for a watch on the single file
/// `watched_path`: the events to report, in order.
pub fn handle_file_event(event: &RawEvent, watched_path: &str) -> (out: Vec<FileWatchEvent>)
    ensures
        out.deep_view() == file_events(event.kind, event.paths.deep_view(), watched_path@),
{
    let watched = String::from_str(watched_path);
    let mut out: Vec<FileWatchEvent> = Vec::new();
    let mut i: usize = 0;
    assert(out.deep_view() =~= Seq::<EventText>::empty());
    while i < event.paths.len()
        invariant
            i <= event.paths.len(),
            watched@ == watched_path@,
            out.deep_view() == file_events_upto(
                event.kind,
                event.paths.deep_view(),
                watched_path@,
                i as int,
            ),
        decreases event.paths.len() - i,
    {
        let path = &event.paths[i];
        if *path == watched {
            match plain_event_of(event.kind, path) {
                Some(found) => {
                    let ghost before = out.deep_view();
                    out.push(found);
                    assert(out.deep_view() =~= before.push(found@));
                },
                None => {},
            }
        }
        i += 1;
    }
    out
}

fn rename_event_of(event: &RawEvent, watched_dir: &str) -> (out: Vec<FileWatchEvent>)
    ensures
        out.deep_view() == rename_events(event.paths.deep_view(), watched_dir@),
{
    let mut out: Vec<FileWatchEvent> = Vec::new();
    assert(out.deep_view() =~= Seq::<EventText>::empty());
    if event.paths.len() == 2 && (is_within_root(event.paths[0].as_str(), watched_dir)
        || is_within_root(event.paths[1].as_str(), watched_dir)) {
        let renamed = FileWatchEvent::Renamed {
            old: event.paths[0].clone(),
            new: event.paths[1].clone(),
        };
        out.push(renamed);
        assert(out.deep_view() =~= seq![
            EventText::Renamed { old: event.paths[0]@, new: event.paths[1]@ },
        ]);
    }
    out
}

/// Classifies a raw notification for a watch on the directory
/// `watched_dir`: the events to report, in order.
pub fn handle_directory_event(event: &RawEvent, watched_dir: &str) -> (out: Vec<FileWatchEvent>)
    ensures
        out.deep_view() == directory_events(event.kind, event.paths.deep_view(), watched_dir@),
{
    match event.kind {
        RawEventKind::Any => {
            return rename_event_of(event, watched_dir);
        },
        _ => {},
    }
    let mut out: Vec<FileWatchEvent> = Vec::new();
    let mut i: usize = 0;
    assert(out.deep_view() =~= Seq::<EventText>::empty());
    while i < event.paths.len()
        invariant
            i <= event.paths.len(),
            out.deep_view() == directory_events_upto(
                event.kind,
                event.paths.deep_view(),
                watched_dir@,
                i as int,
            ),
        decreases event.paths.len() - i,
    {
        let path = &event.paths[i];
        if is_within_root(path.as_str(), watched_dir) {
            match plain_event_of(event.kind, path) {
                Some(found) => {
                    let ghost before = out.deep_view();
                    out.push(found);
                    assert(out.deep_view() =~= before.push(found@));
                },
                None => {},
            }
        }
        i += 1;
    }
    out
}

/// What a watch is set on.
#[derive(Debug, Clone, Copy, PartialEq, Eq, Structural)]
pub enum WatchTarget {
    File,
    Directory,
}

/// What a request to watch calls for.
#[derive(Debug, Clone, Copy, PartialEq, Eq, Structural)]
pub enum WatchStep {
    /// The path is watched already: there is nothing to do, and the
    /// request has succeeded.
    AlreadyWatching,
    /// A watch has to be set up, in this mode.
    Start { recursive: bool },
}

/// How the attempt to set up a watch ended. A failure carries what the
/// operating system said.
#[derive(Debug)]
pub enum WatchOutcome {
    Started,
    /// No watcher could be made.
    CreateFailed(String),
    /// The watcher could not be set on the path.
    AttachFailed(String),
}

/// What an outcome says.
pub enum OutcomeText {
    Started,
    CreateFailed(Seq<char>),
    AttachFailed(Seq<char>),
}

impl View for WatchOutcome {
    type V = OutcomeText;

    open spec fn view(&self) -> OutcomeText {
        match self {
            WatchOutcome::Started => OutcomeText::Started,
            WatchOutcome::CreateFailed(why) => OutcomeText::CreateFailed(why@),
            WatchOutcome::AttachFailed(why) => OutcomeText::AttachFailed(why@),
        }
    }
}

/// The failure for a path that is asked to be unwatched and is not
/// watched.
pub open spec fn not_watching(path: Seq<char>) -> Failure {
    Failure { kind: ErrorKind::NotFound, detail: "Path not being watched: "@ + path }
}

/// The failure for a watch that could not be set up.
pub open spec fn watch_failed(target: WatchTarget, outcome: OutcomeText) -> Failure {
    Failure {
        kind: ErrorKind::WatchError,
        detail: match outcome {
            OutcomeText::CreateFailed(why) => "Failed to create watcher: "@ + why,
            OutcomeText::AttachFailed(why) => match target {
                WatchTarget::File => "Failed to watch file: "@ + why,
                WatchTarget::Directory => "Failed to watch directory: "@ + why,
            },
            OutcomeText::Started => Seq::<char>::empty(),
        },
    }
}

/// What a request to watch the single file `path` calls for while
/// `watched` are the watched paths. The file must exist. A file watch is
/// never recursive.
pub open spec fn file_watch_request(watched: Set<Seq<char>>, path: Seq<char>, exists: bool) -> Result<
    WatchStep,
    Failure,
> {
    match presence(Subject::File, path, exists) {
        Err(why) => Err(why),
        Ok(_) => if watched.contains(path) {
            Ok(WatchStep::AlreadyWatching)
        } else {
            Ok(WatchStep::Start { recursive: false })
        },
    }
}

/// What a request to watch the directory `path` calls for while `watched`
/// are the watched paths. The path must exist and be a directory.
pub open spec fn directory_watch_request(
    watched: Set<Seq<char>>,
    path: Seq<char>,
    recursive: bool,
    exists: bool,
    is_directory: bool,
) -> Result<WatchStep, Failure> {
    match directory_presence(path, exists, is_directory) {
        Err(why) => Err(why),
        Ok(_) => if watched.contains(path) {
            Ok(WatchStep::AlreadyWatching)
        } else {
            Ok(WatchStep::Start { recursive })
        },
    }
}

/// The watched paths after the attempt to watch `path` ended in
/// `outcome`: the path is watched if the watch started, and nothing
/// changes if it did not.
pub open spec fn watched_after(
    watched: Set<Seq<char>>,
    path: Seq<char>,
    outcome: OutcomeText,
) -> Set<Seq<char>> {
    if outcome is Started {
        watched.insert(path)
    } else {
        watched
    }
}

/// What the caller of a watch request is told once the attempt ended in
/// `outcome`.
pub open spec fn watch_result(target: WatchTarget, outcome: OutcomeText) -> Result<(), Failure> {
    if outcome is Started {
        Ok(())
    } else {
        Err(watch_failed(target, outcome))
    }
}

/// What a request to stop watching `path` answers while `watched` are the
/// watched paths: the path must be watched, under exactly this spelling.
pub open spec fn unwatch_result(watched: Set<Seq<char>>, path: Seq<char>) -> Result<(), Failure> {
    if watched.contains(path) {
        Ok(())
    } else {
        Err(not_watching(path))
    }
}

/// The registry of watched paths. No path is in it twice.
pub struct FileWatcherState {
    watchers: PathSet,
}

impl View for FileWatcherState {
    type V = Set<Seq<char>>;

    /// The watched paths, as a set of texts.
    closed spec fn view(&self) -> Set<Seq<char>> {
        self.watchers@
    }
}

impl FileWatcherState {
    /// The watched paths in the order in which they are listed.
    pub closed spec fn listing(&self) -> Seq<Seq<char>> {
        self.watchers.listing()
    }

    /// A registry in which nothing is watched.
    pub fn new() -> (out: FileWatcherState)
        ensures
            out@ == Set::<Seq<char>>::empty(),
    {
        FileWatcherState { watchers: PathSet::new() }
    }

    /// Tells whether `path` is watched.
    pub fn is_watching(&self, path: &str) -> (found: bool)
        ensures
            found == self@.contains(path@),
    {
        self.watchers.contains(path)
    }

    /// The watched paths, each once.
    pub fn watched_paths(&self) -> (out: Vec<String>)
        ensures
            out.deep_view() == self.listing(),
            out.deep_view().no_duplicates(),
            out.deep_view().to_set() == self@,
    {
        self.watchers.to_vec()
    }
}

/// Decides what a request to watch the single file `path` calls for.
/// `exists` says whether the path exists. The registry is left as it is:
/// a new watch is entered by `finish_watch`, once it has started.
pub fn watch_file(path: &str, exists: bool, state: &FileWatcherState) -> (out: Result<
    WatchStep,
    FileSystemError,
>)
    ensures
        outcome(out) == file_watch_request(state@, path@, exists),
{
    match require_present(Subject::File, path, exists) {
        Err(why) => {
            return Err(why);
        },
        Ok(_) => {},
    }
    if state.watchers.contains(path) {
        Ok(WatchStep::AlreadyWatching)
    } else {
        Ok(WatchStep::Start { recursive: false })
    }
}

/// Decides what a request to watch the directory `path` calls for.
/// `exists` and `is_directory` say what is at the path. The registry is
/// left as it is: a new watch is entered by `finish_watch`, once it has
/// started.
pub fn watch_directory(
    path: &str,
    recursive: bool,
    exists: bool,
    is_directory: bool,
    state: &FileWatcherState,
) -> (out: Result<WatchStep, FileSystemError>)
    ensures
        outcome(out) == directory_watch_request(state@, path@, recursive, exists, is_directory),
{
    match require_directory(path, exists, is_directory) {
        Err(why) => {
            return Err(why);
        },
        Ok(_) => {},
    }
    if state.watchers.contains(path) {
        Ok(WatchStep::AlreadyWatching)
    } else {
        Ok(WatchStep::Start { recursive })
    }
}

/// Enters the end of an attempt to watch `path` into the registry, and
/// gives what the caller of the watch request is told.
pub fn finish_watch(
    path: &str,
    target: WatchTarget,
    outcome: WatchOutcome,
    state: &mut FileWatcherState,
) -> (out: Result<(), FileSystemError>)
    ensures
        final(state)@ == watched_after(old(state)@, path@, outcome@),
        crate::filesystem::outcome(out) == watch_result(target, outcome@),
{
    match outcome {
        WatchOutcome::Started => {
            state.watchers.insert(String::from_str(path));
            Ok(())
        },
        WatchOutcome::CreateFailed(why) => Err(
            FileSystemError::WatchError(join_text("Failed to create watcher: ", why.as_str())),
        ),
        WatchOutcome::AttachFailed(why) => match target {
            WatchTarget::File => Err(
                FileSystemError::WatchError(join_text("Failed to watch file: ", why.as_str())),
            ),
            WatchTarget::Directory => Err(
                FileSystemError::WatchError(join_text("Failed to watch directory: ", why.as_str())),
            ),
        },
    }
}

/// Stops watching `path`. The path must be watched under exactly this
/// spelling; no other entry is touched.
pub fn unwatch(path: &str, state: &mut FileWatcherState) -> (out: Result<(), FileSystemError>)
    ensures
        outcome(out) == unwatch_result(old(state)@, path@),
        final(state)@ == old(state)@.remove(path@),
{
    if state.watchers.remove(path) {
        Ok(())
    } else {
        Err(FileSystemError::NotFound(join_text("Path not being watched: ", path)))
    }
}

/// Stops watching every path. It cannot fail.
pub fn unwatch_all(state: &mut FileWatcherState)
    ensures
        final(state)@ == Set::<Seq<char>>::empty(),
{
    state.watchers.clear();
}

/// Watching a path again while it is watched succeeds, calls for no second
/// watch and leaves the registry as it was; one `unwatch` then removes the
/// path, and a second one fails.
pub proof fn lemma_rewatch_changes_nothing(watched: Set<Seq<char>>, path: Seq<char>, recursive: bool)
    ensures
        ({
            let once = watched_after(watched, path, OutcomeText::Started);
            &&& once.contains(path)
            &&& file_watch_request(once, path, true) == Ok::<WatchStep, Failure>(
                WatchStep::AlreadyWatching,
            )
            &&& directory_watch_request(once, path, recursive, true, true) == Ok::<
                WatchStep,
                Failure,
            >(WatchStep::AlreadyWatching)
            &&& watched_after(once, path, OutcomeText::Started) == once
            &&& unwatch_result(once, path) is Ok
            &&& !once.remove(path).contains(path)
            &&& unwatch_result(once.remove(path), path) == Err::<(), Failure>(not_watching(path))
        }),
{
    let once = watched_after(watched, path, OutcomeText::Started);
    assert(watched_after(once, path, OutcomeText::Started) =~= once);
}

/// A path that was never watched cannot be unwatched.
pub proof fn lemma_unwatch_of_unwatched_fails(path: Seq<char>)
    ensures
        unwatch_result(Set::<Seq<char>>::empty(), path) == Err::<(), Failure>(not_watching(path)),
{
}

/// A directory watch reports a file that is created below the directory,
/// under the path that the notification names.
pub proof fn lemma_creation_below_is_reported(path: Seq<char>, watched: Seq<char>)
    requires
        within_root(path, watched),
    ensures
        directory_events(RawEventKind::Create, seq![path], watched) == seq![
            EventText::Created(path),
        ],
{
    let paths = seq![path];
    let none = directory_events_upto(RawEventKind::Create, paths, watched, 0);
    assert(none =~= Seq::<EventText>::empty());
    assert(directory_events_upto(RawEventKind::Create, paths, watched, 1) =~= none.push(
        EventText::Created(path),
    ));
    assert(none.push(EventText::Created(path)) =~= seq![EventText::Created(path)]);
}

/// A directory watch reports nothing for a notification whose paths all
/// lie outside the directory, whatever its kind.
pub proof fn lemma_changes_elsewhere_are_not_reported(
    kind: RawEventKind,
    paths: Seq<Seq<char>>,
    watched: Seq<char>,
)
    requires
        forall|i: int| 0 <= i < paths.len() ==> !within_root(#[trigger] paths[i], watched),
    ensures
        directory_events(kind, paths, watched) == Seq::<EventText>::empty(),
{
    lemma_nothing_reported_upto(kind, paths, watched, paths.len() as int);
    if paths.len() == 2 {
        assert(!within_root(paths[0], watched) && !within_root(paths[1], watched));
    }
}

/// A notification that does not tell its kind is never reported as more
/// than one event.
pub proof fn lemma_untagged_is_at_most_one_rename(paths: Seq<Seq<char>>, watched: Seq<char>)
    ensures
        directory_events(RawEventKind::Any, paths, watched).len() <= 1,
        directory_events(RawEventKind::Any, paths, watched).len() == 1 ==> paths.len() == 2
            && directory_events(RawEventKind::Any, paths, watched)[0] == (EventText::Renamed {
            old: paths[0],
            new: paths[1],
        }),
{
}

proof fn lemma_nothing_reported_upto(
    kind: RawEventKind,
    paths: Seq<Seq<char>>,
    watched: Seq<char>,
    n: int,
)
    requires
        0 <= n <= paths.len(),
        forall|i: int| 0 <= i < paths.len() ==> !within_root(#[trigger] paths[i], watched),
    ensures
        directory_events_upto(kind, paths, watched, n) == Seq::<EventText>::empty(),
    decreases n,
{
    if n > 0 {
        lemma_nothing_reported_upto(kind, paths, watched, n - 1);
        assert(!within_root(paths[n - 1], watched));
    }
}

} // verus!
