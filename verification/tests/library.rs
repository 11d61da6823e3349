use simple_files_backup::backup::{BackupRun, SwapReply, SwapRequest};
use simple_files_backup::config::{get_backup_config, get_thread_pool_size};
use simple_files_backup::errors::FSErrors;
use simple_files_backup::files::{backup_file, backup_symlink, copy_command, FileKind, JobReply, JobRequest};
use simple_files_backup::logs::log_entry;
use simple_files_backup::pattern::{is_ignored, IgnorePattern};
use simple_files_backup::structs::CliConfig;
use simple_files_backup::traverse::{traverse_sources, Reply, Request, Traversal, TraversalRequest};

fn s(text: &str) -> String {
    text.to_string()
}

fn start(sources: &[&str], target: &str, ignore: Option<&str>) -> (Traversal, TraversalRequest) {
    let ignore = ignore.map(|p| IgnorePattern::new(s(p)).ok().unwrap());
    let mut t = traverse_sources(sources.iter().map(|p| s(p)).collect(), s(target), ignore);
    let first = t.step(Reply::Proceed);
    (t, first)
}

fn expect_error(request: TraversalRequest) -> FSErrors {
    match request {
        Request::Finish(Err(e)) => e,
        _ => panic!("expected the traversal to fail"),
    }
}

// ---------------------------------------------------------------------------
// Error messages
// ---------------------------------------------------------------------------

#[test]
fn error_messages_quote_paths() {
    let e = FSErrors::NotFound { source_path: s("/a b"), err: s("gone") };
    assert_eq!(e.message(), "Failed locating path: `\"/a b\"`");
    let e = FSErrors::CopyFileError { source_path: s("/x"), target_path: s("/y"), err: s("e") };
    assert_eq!(e.message(), "Failed copying file: `\"/x\"` `\"/y\"`");
    let e = FSErrors::CreateSymlinkError { source_path: s("l"), target_path: s("t"), err: s("e") };
    assert_eq!(e.message(), "Failed creating link: `\"l\"` `\"t\"`");
    let e = FSErrors::ReadFileError { source_path: s("quote\"d"), err: s("e") };
    assert_eq!(e.message(), "Failed reading file: `\"quote\\\"d\"`");
    assert_eq!(FSErrors::IoError(s("disk")).message(), "I/O error occurred");
    assert_eq!(FSErrors::OtherError(s("plain text")).message(), "plain text");
    assert_eq!(
        FSErrors::CreateFileError { target_path: s("/t"), err: s("e") }.message(),
        "Failed creating file: `\"/t\"`"
    );
    assert_eq!(
        FSErrors::WriteLogsError { target_path: s("/l"), err: s("e") }.message(),
        "Failed writing logs: `\"/l\"`"
    );
    assert_eq!(
        FSErrors::ReadDirError { source_path: s("/d"), err: s("e") }.message(),
        "Failed reading directory: `\"/d\"`"
    );
    assert_eq!(
        FSErrors::RemoveFileError { source_path: s("/r"), err: s("e") }.message(),
        "Failed removing file: `\"/r\"`"
    );
    assert_eq!(
        FSErrors::FileSyncError { source_path: s("/f"), err: s("e") }.message(),
        "File sync error: `\"/f\"`"
    );
}

// ---------------------------------------------------------------------------
// Ignore patterns
// ---------------------------------------------------------------------------

#[test]
fn ignore_pattern_matches_anywhere_in_the_path() {
    let p = IgnorePattern::new(s(r"(node_modules|.yarn|.next|target|yarn.lock)")).ok().unwrap();
    assert!(p.is_match("/home/q/project/node_modules/x"));
    assert!(p.is_match("/home/q/yarn.lock"));
    assert!(!p.is_match("/home/q/src/main.rs"));
    assert_eq!(p.as_str(), r"(node_modules|.yarn|.next|target|yarn.lock)");
    assert!(is_ignored(&Some(p), "/a/target"));
    assert!(!is_ignored(&None, "/a/target"));
}

#[test]
fn invalid_ignore_pattern_is_refused() {
    match IgnorePattern::new(s("foo(bar")) {
        Err(message) => assert!(message.contains("unclosed group")),
        Ok(_) => panic!("an unclosed group must not compile"),
    }
}

// ---------------------------------------------------------------------------
// Configuration
// ---------------------------------------------------------------------------

#[test]
fn thread_pool_size_is_capped() {
    assert_eq!(get_thread_pool_size(1), 4);
    assert_eq!(get_thread_pool_size(3), 4);
    assert_eq!(get_thread_pool_size(16), 4);
    assert_eq!(get_thread_pool_size(usize::MAX), 4);
    assert_eq!(get_thread_pool_size(0), 0);
}

#[test]
fn default_log_path_is_in_the_working_directory() {
    let config = CliConfig { ignore: None, source: vec![s("/a")], target: s("/t"), log: None };
    let c = get_backup_config(config, s("/work")).ok().unwrap();
    assert_eq!(c.log_path, "/work/files-backup-log.txt");
    assert_eq!(c.source, vec![s("/a")]);
    assert_eq!(c.target, "/t");
    assert!(c.ignore.is_none());
}

#[test]
fn configured_log_path_and_pattern_are_kept() {
    let config = CliConfig { ignore: Some(s("tmp")), source: vec![], target: s("/t"), log: Some(s("/var/log/b.txt")) };
    let c = get_backup_config(config, s("/work")).ok().unwrap();
    assert_eq!(c.log_path, "/var/log/b.txt");
    assert_eq!(c.ignore.unwrap().as_str(), "tmp");
}

#[test]
fn bad_pattern_fails_the_configuration() {
    let config = CliConfig { ignore: Some(s("(")), source: vec![], target: s("/t"), log: None };
    match get_backup_config(config, s("/work")) {
        Err(FSErrors::OtherError(message)) => assert!(message.starts_with("Failed parsing regex: ")),
        _ => panic!("expected a regex error"),
    }
}

#[test]
fn log_entry_layout() {
    assert_eq!(
        log_entry("Mon, 1 Jan 2024 10:00:00 +0000", "3 files\n"),
        "----\nMon, 1 Jan 2024 10:00:00 +0000\n3 files\n"
    );
}

// ---------------------------------------------------------------------------
// Traversal
// ---------------------------------------------------------------------------

#[test]
fn file_source_goes_to_its_final_place() {
    let (mut t, r) = start(&["/home/q/.bashrc"], "/backup", None);
    assert!(matches!(r, Request::TryExists(ref p) if p == "/home/q/.bashrc"));
    let r = t.step(Reply::Answer(true));
    assert!(matches!(r, Request::Inspect(ref p) if p == "/home/q/.bashrc"));
    let r = t.step(Reply::Answer(false));
    match r {
        Request::Send(from, to) => {
            assert_eq!(from, "/home/q/.bashrc");
            assert_eq!(to, "/backup/.bashrc");
        },
        _ => panic!("expected a copy command"),
    }
    match t.step(Reply::Proceed) {
        Request::Finish(Ok(swaps)) => assert!(swaps.is_empty()),
        _ => panic!("expected success"),
    }
}

#[test]
fn directory_source_is_staged() {
    let (mut t, _) = start(&["/home/q/bin"], "/backup", None);
    let _ = t.step(Reply::Answer(true));
    match t.step(Reply::Answer(true)) {
        Request::Exists(p) => assert_eq!(p, "/backup/bin.backup"),
        _ => panic!("expected the staging check"),
    }
    match t.step(Reply::Answer(true)) {
        Request::RemoveDirAll(p) => assert_eq!(p, "/backup/bin.backup"),
        _ => panic!("expected the stale staging directory to go"),
    }
    match t.step(Reply::Proceed) {
        Request::Exists(p) => assert_eq!(p, "/backup/bin.backup/"),
        _ => panic!("expected the staging root check"),
    }
    match t.step(Reply::Answer(false)) {
        Request::CreateDirAll(p) => assert_eq!(p, "/backup/bin.backup/"),
        _ => panic!("expected the staging root to be created"),
    }
    match t.step(Reply::Proceed) {
        Request::ReadDir(p) => assert_eq!(p, "/home/q/bin"),
        _ => panic!("expected a listing"),
    }
    match t.step(Reply::Listing(vec![s("tool"), s("lib")], None)) {
        Request::Inspect(p) => assert_eq!(p, "/home/q/bin/tool"),
        _ => panic!("expected the first entry"),
    }
    match t.step(Reply::Answer(false)) {
        Request::Send(from, to) => {
            assert_eq!(from, "/home/q/bin/tool");
            assert_eq!(to, "/backup/bin.backup/tool");
        },
        _ => panic!("expected a copy command"),
    }
    match t.step(Reply::Proceed) {
        Request::Inspect(p) => assert_eq!(p, "/home/q/bin/lib"),
        _ => panic!("expected the second entry"),
    }
    match t.step(Reply::Answer(true)) {
        Request::Exists(p) => assert_eq!(p, "/backup/bin.backup/lib"),
        _ => panic!("expected the subdirectory's copy"),
    }
    let _ = t.step(Reply::Answer(true));
    match t.step(Reply::Listing(vec![s("x.so")], None)) {
        Request::Inspect(p) => assert_eq!(p, "/home/q/bin/lib/x.so"),
        _ => panic!("expected the nested entry"),
    }
    match t.step(Reply::Answer(false)) {
        Request::Send(from, to) => {
            assert_eq!(from, "/home/q/bin/lib/x.so");
            assert_eq!(to, "/backup/bin.backup/lib/x.so");
        },
        _ => panic!("expected a copy command"),
    }
    match t.step(Reply::Proceed) {
        Request::Finish(Ok(swaps)) => assert_eq!(swaps, vec![(s("/backup/bin.backup"), s("/backup/bin"))]),
        _ => panic!("expected success"),
    }
}

#[test]
fn ignored_entries_are_skipped() {
    let (mut t, _) = start(&["/p"], "/b", Some("node_modules"));
    let _ = t.step(Reply::Answer(true));
    let _ = t.step(Reply::Answer(true));
    let _ = t.step(Reply::Answer(false));
    let _ = t.step(Reply::Answer(true));
    let r = t.step(Reply::Listing(vec![s("node_modules"), s("a.txt")], None));
    match r {
        Request::Inspect(p) => assert_eq!(p, "/p/a.txt"),
        _ => panic!("the ignored entry must be passed over"),
    }
}

#[test]
fn directory_of_ignored_entries_closes() {
    let (mut t, _) = start(&["/p", "/q"], "/b", Some("tmp"));
    let _ = t.step(Reply::Answer(true));
    let _ = t.step(Reply::Answer(true));
    let _ = t.step(Reply::Answer(false));
    let _ = t.step(Reply::Answer(true));
    let r = t.step(Reply::Listing(vec![s("tmp1"), s("tmp2")], None));
    match r {
        Request::TryExists(p) => assert_eq!(p, "/q"),
        _ => panic!("the directory must close and the next source come up"),
    }
}

#[test]
fn ignored_source_is_skipped() {
    let (mut t, r) = start(&["/p/target", "/p/keep"], "/b", Some("target"));
    assert!(matches!(r, Request::TryExists(ref p) if p == "/p/keep"));
    let _ = t.step(Reply::Answer(true));
}

#[test]
fn missing_source_is_not_found() {
    let (mut t, _) = start(&["/nope"], "/b", None);
    let e = expect_error(t.step(Reply::Answer(false)));
    assert_eq!(e, FSErrors::NotFound { source_path: s("/nope"), err: s("Source path does not exist") });
}

#[test]
fn unreadable_source_is_not_found() {
    let (mut t, _) = start(&["/locked"], "/b", None);
    let e = expect_error(t.step(Reply::Failed(s("Permission denied"))));
    assert_eq!(e, FSErrors::NotFound { source_path: s("/locked"), err: s("Permission denied") });
}

#[test]
fn nameless_source_fails() {
    let (mut t, _) = start(&["/"], "/b", None);
    let e = expect_error(t.step(Reply::Answer(true)));
    assert_eq!(e, FSErrors::ReadFileError { source_path: s("/"), err: s("Failed reading file/dir name") });
}

#[test]
fn metadata_failure_is_a_read_error() {
    let (mut t, _) = start(&["/a"], "/b", None);
    let _ = t.step(Reply::Answer(true));
    let e = expect_error(t.step(Reply::Failed(s("EIO"))));
    assert_eq!(e, FSErrors::ReadFileError { source_path: s("/a"), err: s("EIO") });
}

#[test]
fn stale_staging_that_cannot_go_fails() {
    let (mut t, _) = start(&["/a"], "/b", None);
    let _ = t.step(Reply::Answer(true));
    let _ = t.step(Reply::Answer(true));
    let _ = t.step(Reply::Answer(true));
    let e = expect_error(t.step(Reply::Failed(s("busy"))));
    assert_eq!(e, FSErrors::RemoveFileError { source_path: s("/b/a.backup"), err: s("busy") });
}

#[test]
fn directory_creation_failure() {
    let (mut t, _) = start(&["/a"], "/b", None);
    let _ = t.step(Reply::Answer(true));
    let _ = t.step(Reply::Answer(true));
    let _ = t.step(Reply::Answer(false));
    let _ = t.step(Reply::Answer(false));
    let e = expect_error(t.step(Reply::Failed(s("read-only"))));
    assert_eq!(e, FSErrors::CreateFileError { target_path: s("/b/a.backup/"), err: s("read-only") });
}

#[test]
fn listing_failure() {
    let (mut t, _) = start(&["/a"], "/b", None);
    let _ = t.step(Reply::Answer(true));
    let _ = t.step(Reply::Answer(true));
    let _ = t.step(Reply::Answer(false));
    let _ = t.step(Reply::Answer(true));
    let e = expect_error(t.step(Reply::Failed(s("denied"))));
    assert_eq!(e, FSErrors::ReadDirError { source_path: s("/a"), err: s("denied") });
}

#[test]
fn entry_error_after_earlier_entries() {
    let (mut t, _) = start(&["/a"], "/b", None);
    let _ = t.step(Reply::Answer(true));
    let _ = t.step(Reply::Answer(true));
    let _ = t.step(Reply::Answer(false));
    let _ = t.step(Reply::Answer(true));
    let r = t.step(Reply::Listing(vec![s("f")], Some(s("bad entry"))));
    assert!(matches!(r, Request::Inspect(ref p) if p == "/a/f"));
    let r = t.step(Reply::Answer(false));
    assert!(matches!(r, Request::Send(_, _)));
    let e = expect_error(t.step(Reply::Proceed));
    assert_eq!(e, FSErrors::ReadFileError { source_path: s("/a"), err: s("bad entry") });
}

#[test]
fn entry_metadata_failure() {
    let (mut t, _) = start(&["/a"], "/b", None);
    let _ = t.step(Reply::Answer(true));
    let _ = t.step(Reply::Answer(true));
    let _ = t.step(Reply::Answer(false));
    let _ = t.step(Reply::Answer(true));
    let _ = t.step(Reply::Listing(vec![s("f")], None));
    let e = expect_error(t.step(Reply::Failed(s("gone"))));
    assert_eq!(e, FSErrors::ReadFileError { source_path: s("/a/f"), err: s("gone") });
}

#[test]
fn send_failure() {
    let (mut t, _) = start(&["/a"], "/b", None);
    let _ = t.step(Reply::Answer(true));
    let _ = t.step(Reply::Answer(false));
    let e = expect_error(t.step(Reply::Failed(s("sending on a closed channel"))));
    assert_eq!(e, FSErrors::OtherError(s("Failed sending backup command: sending on a closed channel")));
}

#[test]
fn traversal_refuses_mismatched_replies() {
    let (t, _) = start(&["/a"], "/b", None);
    assert!(t.accepts(&Reply::Answer(true)));
    assert!(t.accepts(&Reply::Failed(s("x"))));
    assert!(!t.accepts(&Reply::Proceed));
    assert!(!t.accepts(&Reply::Listing(vec![], None)));
}

// ---------------------------------------------------------------------------
// Copy jobs
// ---------------------------------------------------------------------------

fn job_result(request: JobRequest<String>) -> Result<(), String> {
    match request {
        JobRequest::Done(r) => r,
        _ => panic!("expected the job to end"),
    }
}

#[test]
fn file_is_copied_after_removing_the_old_one() {
    let mut job = copy_command(s("/s/f"), s("/t/f"));
    assert!(matches!(job.step(JobReply::Proceed), JobRequest::Inspect(ref p) if p == "/s/f"));
    assert!(matches!(job.step(JobReply::Kind(FileKind::File)), JobRequest::Exists(ref p) if p == "/t/f"));
    assert!(matches!(job.step(JobReply::Answer(true)), JobRequest::RemoveFile(ref p) if p == "/t/f"));
    match job.step(JobReply::Proceed) {
        JobRequest::Copy(a, b) => {
            assert_eq!(a, "/s/f");
            assert_eq!(b, "/t/f");
        },
        _ => panic!("expected the copy"),
    }
    assert_eq!(job_result(job.step(JobReply::Proceed)), Ok(()));
}

#[test]
fn link_is_recreated() {
    let mut job = backup_symlink(s("/s/l"), s("/t/l"));
    let _ = job.step(JobReply::Proceed);
    assert!(matches!(job.step(JobReply::Answer(false)), JobRequest::ReadLink(ref p) if p == "/s/l"));
    match job.step(JobReply::Link(s("../f"))) {
        JobRequest::Symlink(to, at) => {
            assert_eq!(to, "../f");
            assert_eq!(at, "/t/l");
        },
        _ => panic!("expected the link"),
    }
    assert_eq!(job_result(job.step(JobReply::Proceed)), Ok(()));
}

#[test]
fn other_kinds_are_left_alone() {
    let mut job = copy_command(s("/s/d"), s("/t/d"));
    let _ = job.step(JobReply::Proceed);
    assert_eq!(job_result(job.step(JobReply::Kind(FileKind::Other))), Ok(()));
}

#[test]
fn copy_job_error_messages() {
    let mut job = copy_command(s("/s/f"), s("/t/f"));
    let _ = job.step(JobReply::Proceed);
    assert_eq!(job_result(job.step(JobReply::Failed(s("No such file")))), Err(s("No such file")));

    let mut job = backup_file(s("/s/f"), s("/t/f"));
    let _ = job.step(JobReply::Proceed);
    let _ = job.step(JobReply::Answer(true));
    assert_eq!(job_result(job.step(JobReply::Failed(s("busy")))), Err(s("Failed removing file: `\"/t/f\"`")));

    let mut job = backup_file(s("/s/f"), s("/t/f"));
    let _ = job.step(JobReply::Proceed);
    let _ = job.step(JobReply::Answer(false));
    assert_eq!(
        job_result(job.step(JobReply::Failed(s("disk full")))),
        Err(s("Failed copying file: `\"/s/f\"` `\"/t/f\"`"))
    );

    let mut job = backup_symlink(s("/s/l"), s("/t/l"));
    let _ = job.step(JobReply::Proceed);
    let _ = job.step(JobReply::Answer(false));
    assert_eq!(job_result(job.step(JobReply::Failed(s("EINVAL")))), Err(s("Failed reading file: `\"/s/l\"`")));

    let mut job = backup_symlink(s("/s/l"), s("/t/l"));
    let _ = job.step(JobReply::Proceed);
    let _ = job.step(JobReply::Answer(false));
    let _ = job.step(JobReply::Link(s("x")));
    assert_eq!(
        job_result(job.step(JobReply::Failed(s("exists")))),
        Err(s("Failed creating link: `\"/s/l\"` `\"/t/l\"`"))
    );
}

// ---------------------------------------------------------------------------
// Backup runs
// ---------------------------------------------------------------------------

#[test]
fn copy_results_are_counted() {
    let mut run = BackupRun::new(Ok(vec![]));
    run.record_copy(Ok(()));
    run.record_copy(Err(s("Failed copying file: `\"/a\"` `\"/b\"`")));
    run.record_copy(Ok(()));
    assert_eq!(run.files_count(), 2);
    assert_eq!(run.error_message(), "\"Failed copying file: `\\\"/a\\\"` `\\\"/b\\\"`\"\n");
    assert!(matches!(run.step(SwapReply::Proceed), SwapRequest::Done));
}

#[test]
fn traversal_error_opens_the_report() {
    let run = BackupRun::new(Err(FSErrors::NotFound { source_path: s("/x"), err: s("e") }));
    assert_eq!(run.error_message(), "Failed locating path: `\"/x\"`");
    assert_eq!(run.files_count(), 0);
}

#[test]
fn failed_removal_keeps_the_previous_backup() {
    let mut run = BackupRun::new(Ok(vec![(s("/b/a.backup"), s("/b/a")), (s("/b/c.backup"), s("/b/c"))]));
    assert!(matches!(run.step(SwapReply::Proceed), SwapRequest::Exists(ref p) if p == "/b/a"));
    assert!(matches!(run.step(SwapReply::Answer(true)), SwapRequest::RemoveDirAll(ref p) if p == "/b/a"));
    assert!(matches!(run.step(SwapReply::Failed(s("busy"))), SwapRequest::Exists(ref p) if p == "/b/c"));
    match run.step(SwapReply::Answer(false)) {
        SwapRequest::Rename(a, b) => {
            assert_eq!(a, "/b/c.backup");
            assert_eq!(b, "/b/c");
        },
        _ => panic!("expected the rename"),
    }
    assert!(matches!(run.step(SwapReply::Failed(s("EXDEV"))), SwapRequest::Done));
    assert_eq!(
        run.error_message(),
        "Failed removing previous backup `/b/a`: busy\nFailed swapping staged backup `/b/c.backup` into `/b/c`: EXDEV\n"
    );
}

#[test]
fn swaps_wait_for_the_copies() {
    let run = BackupRun::new(Ok(vec![(s("/b/a.backup"), s("/b/a"))]));
    assert!(run.is_collecting());
    assert!(run.accepts(&SwapReply::Proceed));
    assert!(!run.accepts(&SwapReply::Answer(true)));
}

