//! The error taxonomy of the filesystem layer and the rules that the file
//! operations apply to the values they read.

use vstd::prelude::*;
use crate::lexical::{temp_path, temp_path_of};
use crate::text::{decimal, join_text, push_decimal};

verus! {

/// Why a filesystem request was turned down. Each variant carries the text
/// that describes the particular failure.
#[derive(Debug, PartialEq, Eq)]
pub enum FileSystemError {
    NotFound(String),
    PermissionDenied(String),
    InvalidPath(String),
    FileTooLarge(String),
    IoError(String),
    EncodingError(String),
    WatchError(String),
    PathNotAllowed(String),
}

/// The kinds of failure.
#[derive(Debug, Clone, Copy, PartialEq, Eq, Structural)]
pub enum ErrorKind {
    NotFound,
    PermissionDenied,
    InvalidPath,
    FileTooLarge,
    IoError,
    EncodingError,
    WatchError,
    PathNotAllowed,
}

/// What an error says: its kind and its text.
pub struct Failure {
    pub kind: ErrorKind,
    pub detail: Seq<char>,
}

impl View for FileSystemError {
    type V = Failure;

    open spec fn view(&self) -> Failure {
        Failure { kind: self.kind(), detail: self.detail() }
    }
}

/// What a result that carries a path says: the path's text, or the
/// failure.
pub open spec fn text_outcome(out: Result<String, FileSystemError>) -> Result<Seq<char>, Failure> {
    match out {
        Ok(text) => Ok(text@),
        Err(why) => Err(why@),
    }
}

/// What a result says: its value as it is, or the failure.
pub open spec fn outcome<T>(out: Result<T, FileSystemError>) -> Result<T, Failure> {
    match out {
        Ok(value) => Ok(value),
        Err(why) => Err(why@),
    }
}

/// The classes of host I/O failure that the taxonomy tells apart.
#[derive(Debug, Clone, Copy, PartialEq, Eq, Structural)]
pub enum IoFailure {
    NotFound,
    PermissionDenied,
    /// What was read is no text.
    InvalidData,
    Other,
}

/// The words that introduce the detail when an error of `kind` is shown.
pub open spec fn heading(kind: ErrorKind) -> Seq<char> {
    match kind {
        ErrorKind::NotFound => "File not found: "@,
        ErrorKind::PermissionDenied => "Permission denied: "@,
        ErrorKind::InvalidPath => "Invalid path: "@,
        ErrorKind::FileTooLarge => "File too large: "@,
        ErrorKind::IoError => "IO error: "@,
        ErrorKind::EncodingError => "Encoding error: "@,
        ErrorKind::WatchError => "Watch error: "@,
        ErrorKind::PathNotAllowed => "Path not allowed. Please request permission for: "@,
    }
}

impl FileSystemError {
    /// The kind of the error.
    pub open spec fn kind(&self) -> ErrorKind {
        match self {
            FileSystemError::NotFound(_) => ErrorKind::NotFound,
            FileSystemError::PermissionDenied(_) => ErrorKind::PermissionDenied,
            FileSystemError::InvalidPath(_) => ErrorKind::InvalidPath,
            FileSystemError::FileTooLarge(_) => ErrorKind::FileTooLarge,
            FileSystemError::IoError(_) => ErrorKind::IoError,
            FileSystemError::EncodingError(_) => ErrorKind::EncodingError,
            FileSystemError::WatchError(_) => ErrorKind::WatchError,
            FileSystemError::PathNotAllowed(_) => ErrorKind::PathNotAllowed,
        }
    }

    /// The text carried by the error.
    pub open spec fn detail(&self) -> Seq<char> {
        match self {
            FileSystemError::NotFound(m) => m@,
            FileSystemError::PermissionDenied(m) => m@,
            FileSystemError::InvalidPath(m) => m@,
            FileSystemError::FileTooLarge(m) => m@,
            FileSystemError::IoError(m) => m@,
            FileSystemError::EncodingError(m) => m@,
            FileSystemError::WatchError(m) => m@,
            FileSystemError::PathNotAllowed(m) => m@,
        }
    }

    /// The human-readable rendering: the heading of the kind, then the
    /// detail.
    pub fn message(&self) -> (out: String)
        ensures
            out@ == heading(self.kind()) + self.detail(),
    {
        match self {
            FileSystemError::NotFound(m) => join_text("File not found: ", m.as_str()),
            FileSystemError::PermissionDenied(m) => join_text("Permission denied: ", m.as_str()),
            FileSystemError::InvalidPath(m) => join_text("Invalid path: ", m.as_str()),
            FileSystemError::FileTooLarge(m) => join_text("File too large: ", m.as_str()),
            FileSystemError::IoError(m) => join_text("IO error: ", m.as_str()),
            FileSystemError::EncodingError(m) => join_text("Encoding error: ", m.as_str()),
            FileSystemError::WatchError(m) => join_text("Watch error: ", m.as_str()),
            FileSystemError::PathNotAllowed(m) => join_text(
                "Path not allowed. Please request permission for: ",
                m.as_str(),
            ),
        }
    }

    /// Sorts a host I/O failure into the taxonomy: a missing entry, a
    /// refused access and content that is no text get their own variants,
    /// everything else is `IoError`. `text` is the host's description of
    /// the failure.
    pub fn from_io(failure: IoFailure, text: String) -> (out: FileSystemError)
        ensures
            out@ == (Failure {
                kind: match failure {
                    IoFailure::NotFound => ErrorKind::NotFound,
                    IoFailure::PermissionDenied => ErrorKind::PermissionDenied,
                    IoFailure::InvalidData => ErrorKind::EncodingError,
                    IoFailure::Other => ErrorKind::IoError,
                },
                detail: text@,
            }),
    {
        match failure {
            IoFailure::NotFound => FileSystemError::NotFound(text),
            IoFailure::PermissionDenied => FileSystemError::PermissionDenied(text),
            IoFailure::InvalidData => FileSystemError::EncodingError(text),
            IoFailure::Other => FileSystemError::IoError(text),
        }
    }
}

/// The largest file that is read, in bytes.
pub const MAX_FILE_SIZE_READ: u64 = 10 * 1024 * 1024;

/// The largest content that is written, in bytes.
pub const MAX_FILE_SIZE_WRITE: u64 = 50 * 1024 * 1024;

/// What an operation expects to find at its path.
#[derive(Debug, Clone, Copy, PartialEq, Eq, Structural)]
pub enum Subject {
    File,
    Path,
    Directory,
}

/// The failure for a path at which nothing exists.
pub open spec fn missing(subject: Subject, path: Seq<char>) -> Failure {
    Failure {
        kind: ErrorKind::NotFound,
        detail: match subject {
            Subject::File => "File not found: "@,
            Subject::Path => "Path not found: "@,
            Subject::Directory => "Directory not found: "@,
        } + path,
    }
}

/// The failure for a path that should be a directory and is none.
pub open spec fn not_a_directory(path: Seq<char>) -> Failure {
    Failure { kind: ErrorKind::InvalidPath, detail: "Path is not a directory: "@ + path }
}

/// The failure for a file of `size` bytes that is over the read ceiling.
pub open spec fn read_too_large(size: u64) -> Failure {
    Failure {
        kind: ErrorKind::FileTooLarge,
        detail: "File size "@ + decimal(size as nat) + " exceeds maximum read size "@ + decimal(
            MAX_FILE_SIZE_READ as nat,
        ),
    }
}

/// The number of bytes that `s` takes when written.
pub open spec fn byte_len(s: Seq<char>) -> nat {
    vstd::utf8::encode_utf8(s).len()
}

/// The failure for content of `size` bytes that is over the write ceiling.
pub open spec fn write_too_large(size: nat) -> Failure {
    Failure {
        kind: ErrorKind::FileTooLarge,
        detail: "Content size "@ + decimal(size) + " exceeds maximum write size "@
            + decimal(MAX_FILE_SIZE_WRITE as nat),
    }
}

/// What is answered where something must exist at `path`.
pub open spec fn presence(subject: Subject, path: Seq<char>, exists: bool) -> Result<(), Failure> {
    if exists {
        Ok(())
    } else {
        Err(missing(subject, path))
    }
}

/// What is answered where a directory must exist at `path`.
pub open spec fn directory_presence(path: Seq<char>, exists: bool, is_directory: bool) -> Result<
    (),
    Failure,
> {
    if !exists {
        Err(missing(Subject::Directory, path))
    } else if !is_directory {
        Err(not_a_directory(path))
    } else {
        Ok(())
    }
}

/// What is answered for a file of `size` bytes that is to be read.
pub open spec fn read_size_check(size: u64) -> Result<(), Failure> {
    if size > MAX_FILE_SIZE_READ {
        Err(read_too_large(size))
    } else {
        Ok(())
    }
}

/// Refuses a path at which nothing exists. `exists` says whether
/// something does.
pub fn require_present(subject: Subject, path: &str, exists: bool) -> (out: Result<
    (),
    FileSystemError,
>)
    ensures
        outcome(out) == presence(subject, path@, exists),
{
    if exists {
        Ok(())
    } else {
        let heading = match subject {
            Subject::File => "File not found: ",
            Subject::Path => "Path not found: ",
            Subject::Directory => "Directory not found: ",
        };
        Err(FileSystemError::NotFound(join_text(heading, path)))
    }
}

/// Refuses a path at which there is no directory: nothing at all, or
/// something else. `exists` and `is_directory` say what is there.
pub fn require_directory(path: &str, exists: bool, is_directory: bool) -> (out: Result<
    (),
    FileSystemError,
>)
    ensures
        outcome(out) == directory_presence(path@, exists, is_directory),
{
    if !exists {
        Err(FileSystemError::NotFound(join_text("Directory not found: ", path)))
    } else if !is_directory {
        Err(FileSystemError::InvalidPath(join_text("Path is not a directory: ", path)))
    } else {
        Ok(())
    }
}

/// Refuses a file that is over the read ceiling.
pub fn check_read_size(size: u64) -> (out: Result<(), FileSystemError>)
    ensures
        outcome(out) == read_size_check(size),
{
    if size > MAX_FILE_SIZE_READ {
        let mut text = String::from_str("File size ");
        push_decimal(&mut text, size);
        text.append(" exceeds maximum read size ");
        push_decimal(&mut text, MAX_FILE_SIZE_READ);
        Err(FileSystemError::FileTooLarge(text))
    } else {
        Ok(())
    }
}

/// The number of line feeds in `s`.
pub open spec fn line_feeds(s: Seq<char>) -> nat
    decreases s.len(),
{
    if s.len() == 0 {
        0
    } else {
        line_feeds(s.drop_last()) + if s.last() == '\n' {
            1nat
        } else {
            0nat
        }
    }
}

/// The number of lines of `s`: each line feed ends a line, and what is
/// left behind the last line feed is one more line.
pub open spec fn line_count(s: Seq<char>) -> nat {
    line_feeds(s) + if s.len() > 0 && s.last() != '\n' {
        1nat
    } else {
        0nat
    }
}

proof fn lemma_line_feeds_bound(s: Seq<char>)
    ensures
        line_feeds(s) <= s.len(),
        s.len() > 0 && s.last() != '\n' ==> line_feeds(s) < s.len(),
    decreases s.len(),
{
    if s.len() > 0 {
        lemma_line_feeds_bound(s.drop_last());
    }
}

/// Counts the lines of `content`.
pub fn count_lines(content: &str) -> (count: usize)
    ensures
        count == line_count(content@),
{
    let total: usize = content.unicode_len();
    let mut feeds: usize = 0;
    let mut open_line: bool = false;
    for c in it: content.chars()
        invariant
            it.seq() == content@,
            total == content@.len(),
            feeds == line_feeds(content@.take(it.index())),
            open_line == (it.index() > 0 && content@[it.index() - 1] != '\n'),
    {
        proof {
            let upto = content@.take(it.index() + 1);
            assert(upto.drop_last() == content@.take(it.index()));
            assert(upto.last() == c);
            lemma_line_feeds_bound(upto);
        }
        if c == '\n' {
            feeds += 1;
            open_line = false;
        } else {
            open_line = true;
        }
    }
    proof {
        assert(content@.take(content@.len() as int) == content@);
        lemma_line_feeds_bound(content@);
    }
    if open_line {
        feeds + 1
    } else {
        feeds
    }
}

/// What a file may have done to it, coarsely.
#[derive(Debug, Clone, Copy, PartialEq, Eq, Structural)]
pub struct FilePermissions {
    pub readable: bool,
    pub writable: bool,
    pub executable: bool,
}

impl FilePermissions {
    /// The flags for an entry whose read-only mark is `readonly`: it is
    /// writable unless marked, readable if writable or a directory, and
    /// never reported as executable.
    pub fn from_readonly(readonly: bool, is_directory: bool) -> (out: FilePermissions)
        ensures
            out == (FilePermissions {
                readable: !readonly || is_directory,
                writable: !readonly,
                executable: false,
            }),
    {
        FilePermissions { readable: !readonly || is_directory, writable: !readonly, executable: false }
    }
}

/// What is known of a path. Times are seconds since the Unix epoch.
#[derive(Debug, PartialEq, Eq)]
pub struct FileMetadata {
    pub path: String,
    pub name: String,
    pub size: u64,
    pub is_file: bool,
    pub is_directory: bool,
    pub modified: i64,
    pub created: i64,
    pub permissions: FilePermissions,
}

impl FileMetadata {
    /// The record for what was found at a path. `readonly` is the entry's
    /// read-only mark, from which the permission flags follow.
    pub fn new(
        path: String,
        name: String,
        size: u64,
        is_file: bool,
        is_directory: bool,
        modified: i64,
        created: i64,
        readonly: bool,
    ) -> (out: FileMetadata)
        ensures
            out.path == path,
            out.name == name,
            out.size == size,
            out.is_file == is_file,
            out.is_directory == is_directory,
            out.modified == modified,
            out.created == created,
            out.permissions == (FilePermissions {
                readable: !readonly || is_directory,
                writable: !readonly,
                executable: false,
            }),
    {
        FileMetadata {
            path,
            name,
            size,
            is_file,
            is_directory,
            modified,
            created,
            permissions: FilePermissions::from_readonly(readonly, is_directory),
        }
    }
}

/// What reading a file gives.
#[derive(Debug, PartialEq, Eq)]
pub struct FileReadResult {
    pub content: String,
    pub encoding: String,
    pub line_count: usize,
    pub size: u64,
}

impl FileReadResult {
    /// The result for a file of `size` bytes that holds `content`.
    pub fn new(content: String, size: u64) -> (out: FileReadResult)
        ensures
            out.content@ == content@,
            out.encoding@ == "utf-8"@,
            out.line_count == line_count(content@),
            out.size == size,
    {
        let line_count: usize = count_lines(content.as_str());
        FileReadResult { content, encoding: String::from_str("utf-8"), line_count, size }
    }
}

/// A request to write a file.
#[derive(Debug, PartialEq, Eq)]
pub struct FileWriteRequest {
    pub path: String,
    pub content: String,
    pub create_if_not_exists: bool,
    pub backup: bool,
}

/// What has to be done before the content of a write request is written.
#[derive(Debug, PartialEq, Eq)]
pub struct WritePlan {
    /// Where the file as it is has to be copied first, if anywhere.
    pub backup_to: Option<String>,
    /// Whether the directories above the file have to be made.
    pub create_parents: bool,
    /// The temporary file that the content is written to before it is
    /// renamed into place.
    pub temp_path: String,
}

/// What a plan says.
pub struct PlanText {
    pub backup_to: Option<Seq<char>>,
    pub create_parents: bool,
    pub temp_path: Seq<char>,
}

impl View for WritePlan {
    type V = PlanText;

    open spec fn view(&self) -> PlanText {
        PlanText {
            backup_to: self.backup_to.deep_view(),
            create_parents: self.create_parents,
            temp_path: self.temp_path@,
        }
    }
}

/// What a write of `bytes` bytes to `path` calls for: nothing over the
/// write ceiling is written; a backup beside the file, under its name
/// with `.backup` behind it, is made if one is asked for and the file
/// exists; the content goes to the temporary file beside `path` first.
pub open spec fn write_plan(
    path: Seq<char>,
    bytes: nat,
    create_if_not_exists: bool,
    backup: bool,
    exists: bool,
) -> Result<PlanText, Failure> {
    if bytes > MAX_FILE_SIZE_WRITE {
        Err(write_too_large(bytes))
    } else {
        Ok(
            PlanText {
                backup_to: if backup && exists {
                    Some(path + ".backup"@)
                } else {
                    None
                },
                create_parents: create_if_not_exists,
                temp_path: temp_path(path),
            },
        )
    }
}

/// What a result that carries a plan says.
pub open spec fn plan_outcome(out: Result<WritePlan, FileSystemError>) -> Result<PlanText, Failure> {
    match out {
        Ok(plan) => Ok(plan@),
        Err(why) => Err(why@),
    }
}

impl FileWriteRequest {
    /// Decides what the request calls for. `exists` says whether the file
    /// exists.
    pub fn plan(&self, exists: bool) -> (out: Result<WritePlan, FileSystemError>)
        ensures
            plan_outcome(out) == write_plan(
                self.path@,
                byte_len(self.content@),
                self.create_if_not_exists,
                self.backup,
                exists,
            ),
    {
        let bytes: usize = self.content.as_str().as_bytes().len();
        if bytes as u64 > MAX_FILE_SIZE_WRITE {
            let mut text = String::from_str("Content size ");
            push_decimal(&mut text, bytes as u64);
            text.append(" exceeds maximum write size ");
            push_decimal(&mut text, MAX_FILE_SIZE_WRITE);
            return Err(FileSystemError::FileTooLarge(text));
        }
        let backup_to = if self.backup && exists {
            Some(join_text(self.path.as_str(), ".backup"))
        } else {
            None
        };
        Ok(
            WritePlan {
                backup_to,
                create_parents: self.create_if_not_exists,
                temp_path: temp_path_of(self.path.as_str()),
            },
        )
    }
}

} // verus!
