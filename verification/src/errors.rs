use vstd::prelude::*;

verus! {

/// What `{:?}` prints for a string: the text in double quotes, with the
/// characters that need it escaped.
pub uninterp spec fn debug_quoted(text: Seq<char>) -> Seq<char>;

/// Formats `text` with `{:?}` (std's `Debug` for `str`).
///
/// Trusted: the result is the debug rendering of `text` and depends on
/// `text` alone; the escaping rules themselves are left unstated.
#[verifier::external_body]
pub(crate) fn quote_debug(text: &str) -> (quoted: String)
    ensures
        quoted@ == debug_quoted(text@),
{
    format!("{:?}", text)
}

/// The errors of a backup run. Each `err` field holds the text of the
/// underlying I/O error.
#[derive(Debug, PartialEq, Eq)]
pub enum FSErrors {
    IoError(String),
    CopyFileError { source_path: String, target_path: String, err: String },
    CreateFileError { target_path: String, err: String },
    CreateSymlinkError { source_path: String, target_path: String, err: String },
    NotFound { source_path: String, err: String },
    WriteLogsError { target_path: String, err: String },
    ReadFileError { source_path: String, err: String },
    ReadDirError { source_path: String, err: String },
    RemoveFileError { source_path: String, err: String },
    FileSyncError { source_path: String, err: String },
    OtherError(String),
}

/// The mathematical form of [`FSErrors`]: the same variants over
/// character sequences.
pub enum ErrorView {
    IoError(Seq<char>),
    CopyFileError { source_path: Seq<char>, target_path: Seq<char>, err: Seq<char> },
    CreateFileError { target_path: Seq<char>, err: Seq<char> },
    CreateSymlinkError { source_path: Seq<char>, target_path: Seq<char>, err: Seq<char> },
    NotFound { source_path: Seq<char>, err: Seq<char> },
    WriteLogsError { target_path: Seq<char>, err: Seq<char> },
    ReadFileError { source_path: Seq<char>, err: Seq<char> },
    ReadDirError { source_path: Seq<char>, err: Seq<char> },
    RemoveFileError { source_path: Seq<char>, err: Seq<char> },
    FileSyncError { source_path: Seq<char>, err: Seq<char> },
    OtherError(Seq<char>),
}

impl View for FSErrors {
    type V = ErrorView;

    open spec fn view(&self) -> ErrorView {
        match self {
            FSErrors::IoError(err) => ErrorView::IoError(err@),
            FSErrors::CopyFileError { source_path, target_path, err } =>
                ErrorView::CopyFileError { source_path: source_path@, target_path: target_path@, err: err@ },
            FSErrors::CreateFileError { target_path, err } =>
                ErrorView::CreateFileError { target_path: target_path@, err: err@ },
            FSErrors::CreateSymlinkError { source_path, target_path, err } =>
                ErrorView::CreateSymlinkError { source_path: source_path@, target_path: target_path@, err: err@ },
            FSErrors::NotFound { source_path, err } =>
                ErrorView::NotFound { source_path: source_path@, err: err@ },
            FSErrors::WriteLogsError { target_path, err } =>
                ErrorView::WriteLogsError { target_path: target_path@, err: err@ },
            FSErrors::ReadFileError { source_path, err } =>
                ErrorView::ReadFileError { source_path: source_path@, err: err@ },
            FSErrors::ReadDirError { source_path, err } =>
                ErrorView::ReadDirError { source_path: source_path@, err: err@ },
            FSErrors::RemoveFileError { source_path, err } =>
                ErrorView::RemoveFileError { source_path: source_path@, err: err@ },
            FSErrors::FileSyncError { source_path, err } =>
                ErrorView::FileSyncError { source_path: source_path@, err: err@ },
            FSErrors::OtherError(message) => ErrorView::OtherError(message@),
        }
    }
}

/// `prefix`, then the quoted path between backticks.
pub open spec fn quoted_path_message(prefix: Seq<char>, path: Seq<char>) -> Seq<char> {
    prefix + seq!['`'] + debug_quoted(path) + seq!['`']
}

/// `prefix`, then both quoted paths, each between backticks.
pub open spec fn quoted_paths_message(prefix: Seq<char>, first: Seq<char>, second: Seq<char>) -> Seq<char> {
    quoted_path_message(prefix, first) + seq![' ', '`'] + debug_quoted(second) + seq!['`']
}

/// The human-readable message of an error.
pub open spec fn error_message(e: ErrorView) -> Seq<char> {
    match e {
        ErrorView::IoError(_) => "I/O error occurred"@,
        ErrorView::CopyFileError { source_path, target_path, .. } =>
            quoted_paths_message("Failed copying file: "@, source_path, target_path),
        ErrorView::CreateFileError { target_path, .. } =>
            quoted_path_message("Failed creating file: "@, target_path),
        ErrorView::CreateSymlinkError { source_path, target_path, .. } =>
            quoted_paths_message("Failed creating link: "@, source_path, target_path),
        ErrorView::NotFound { source_path, .. } =>
            quoted_path_message("Failed locating path: "@, source_path),
        ErrorView::WriteLogsError { target_path, .. } =>
            quoted_path_message("Failed writing logs: "@, target_path),
        ErrorView::ReadFileError { source_path, .. } =>
            quoted_path_message("Failed reading file: "@, source_path),
        ErrorView::ReadDirError { source_path, .. } =>
            quoted_path_message("Failed reading directory: "@, source_path),
        ErrorView::RemoveFileError { source_path, .. } =>
            quoted_path_message("Failed removing file: "@, source_path),
        ErrorView::FileSyncError { source_path, .. } =>
            quoted_path_message("File sync error: "@, source_path),
        ErrorView::OtherError(message) => message,
    }
}

impl FSErrors {
    /// Renders the error's message (what `Display` printed in the
    /// original program).
    pub fn message(&self) -> (text: String)
        ensures
            text@ == error_message(self@),
    {
        match self {
            FSErrors::IoError(_) => String::from_str("I/O error occurred"),
            FSErrors::CopyFileError { source_path, target_path, .. } =>
                quoted_paths("Failed copying file: ", source_path, target_path),
            FSErrors::CreateFileError { target_path, .. } =>
                quoted_path("Failed creating file: ", target_path),
            FSErrors::CreateSymlinkError { source_path, target_path, .. } =>
                quoted_paths("Failed creating link: ", source_path, target_path),
            FSErrors::NotFound { source_path, .. } =>
                quoted_path("Failed locating path: ", source_path),
            FSErrors::WriteLogsError { target_path, .. } =>
                quoted_path("Failed writing logs: ", target_path),
            FSErrors::ReadFileError { source_path, .. } =>
                quoted_path("Failed reading file: ", source_path),
            FSErrors::ReadDirError { source_path, .. } =>
                quoted_path("Failed reading directory: ", source_path),
            FSErrors::RemoveFileError { source_path, .. } =>
                quoted_path("Failed removing file: ", source_path),
            FSErrors::FileSyncError { source_path, .. } =>
                quoted_path("File sync error: ", source_path),
            FSErrors::OtherError(message) => message.clone(),
        }
    }
}

fn quoted_path(prefix: &str, path: &String) -> (text: String)
    ensures
        text@ == quoted_path_message(prefix@, path@),
{
    let mut text = String::from_str(prefix);
    text.append("`");
    text.append(quote_debug(path.as_str()).as_str());
    text.append("`");
    proof {
        reveal_strlit("`");
    }
    text
}

fn quoted_paths(prefix: &str, first: &String, second: &String) -> (text: String)
    ensures
        text@ == quoted_paths_message(prefix@, first@, second@),
{
    let mut text = quoted_path(prefix, first);
    text.append(" `");
    text.append(quote_debug(second.as_str()).as_str());
    text.append("`");
    proof {
        reveal_strlit("`");
        reveal_strlit(" `");
    }
    text
}

} // verus!
