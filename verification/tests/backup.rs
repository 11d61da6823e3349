// End-to-end backup runs against an in-memory file system: the traversal,
// the copy jobs and the swaps are driven exactly as the program drives them,
// one worker at a time.

use std::collections::BTreeMap;

use simple_files_backup::backup::{BackupRun, SwapReply, SwapRequest};
use simple_files_backup::files::{copy_command, FileKind, JobReply, JobRequest};
use simple_files_backup::pattern::IgnorePattern;
use simple_files_backup::traverse::{traverse_sources, Reply, Request};

#[derive(Clone, Debug, PartialEq)]
enum Node {
    Dir,
    File(String),
    Link(String),
}

struct MemFs {
    nodes: BTreeMap<String, Node>,
}

fn normalize(path: &str) -> String {
    let trimmed = path.trim_end_matches('/');
    if trimmed.is_empty() {
        String::from("/")
    } else {
        trimmed.to_string()
    }
}

fn parent(path: &str) -> String {
    match path.rfind('/') {
        Some(0) => String::from("/"),
        Some(i) => path[..i].to_string(),
        None => String::new(),
    }
}

impl MemFs {
    fn new() -> MemFs {
        let mut nodes = BTreeMap::new();
        nodes.insert(String::from("/"), Node::Dir);
        MemFs { nodes }
    }

    fn mkdir_all(&mut self, path: &str) {
        let path = normalize(path);
        if path == "/" {
            return;
        }
        self.mkdir_all(&parent(&path));
        self.nodes.entry(path).or_insert(Node::Dir);
    }

    fn write(&mut self, path: &str, content: &str) {
        self.mkdir_all(&parent(path));
        self.nodes.insert(normalize(path), Node::File(content.to_string()));
    }

    fn link(&mut self, path: &str, to: &str) {
        self.mkdir_all(&parent(path));
        self.nodes.insert(normalize(path), Node::Link(to.to_string()));
    }

    fn get(&self, path: &str) -> Option<&Node> {
        self.nodes.get(&normalize(path))
    }

    fn contains(&self, path: &str) -> bool {
        self.get(path).is_some()
    }

    fn children(&self, dir: &str) -> Vec<String> {
        let dir = normalize(dir);
        self.nodes
            .keys()
            .filter(|k| **k != dir && parent(k) == dir)
            .map(|k| k[k.rfind('/').unwrap() + 1..].to_string())
            .collect()
    }

    fn remove_all(&mut self, path: &str) {
        let path = normalize(path);
        let prefix = format!("{}/", path);
        self.nodes.retain(|k, _| *k != path && !k.starts_with(&prefix));
    }

    fn rename(&mut self, from: &str, to: &str) -> Result<(), String> {
        let from = normalize(from);
        let to = normalize(to);
        if !self.contains(&from) {
            return Err(String::from("No such file or directory (os error 2)"));
        }
        let prefix = format!("{}/", from);
        let moved: Vec<(String, Node)> = self
            .nodes
            .iter()
            .filter(|(k, _)| **k == from || k.starts_with(&prefix))
            .map(|(k, v)| (format!("{}{}", to, &k[from.len()..]), v.clone()))
            .collect();
        self.remove_all(&from);
        for (k, v) in moved {
            self.nodes.insert(k, v);
        }
        Ok(())
    }
}

/// Runs a whole backup as the program does and returns the number of files
/// copied and the error text of the run.
fn run_backup(fs: &mut MemFs, source: Vec<String>, target: &str, ignore: Option<IgnorePattern>) -> (usize, String) {
    // Traverse, collecting the copy commands.
    let mut traversal = traverse_sources(source, target.to_string(), ignore);
    let mut commands: Vec<(String, String)> = Vec::new();
    let mut reply = Reply::Proceed;
    let outcome = loop {
        assert!(traversal.accepts(&reply));
        reply = match traversal.step(reply) {
            Request::TryExists(p) | Request::Exists(p) => Reply::Answer(fs.contains(&p)),
            Request::Inspect(p) => match fs.get(&p) {
                Some(node) => Reply::Answer(*node == Node::Dir),
                None => Reply::Failed(String::from("No such file or directory (os error 2)")),
            },
            Request::RemoveDirAll(p) => {
                fs.remove_all(&p);
                Reply::Proceed
            },
            Request::CreateDirAll(p) => {
                fs.mkdir_all(&p);
                Reply::Proceed
            },
            Request::ReadDir(p) => Reply::Listing(fs.children(&p), None),
            Request::Send(from, to) => {
                commands.push((from, to));
                Reply::Proceed
            },
            Request::Finish(outcome) => break outcome,
        };
    };
    let mut run = BackupRun::new(outcome);

    // Copy, one command after the other.
    for (from, to) in commands {
        let mut job = copy_command(from, to);
        let mut reply = JobReply::Proceed;
        let result = loop {
            assert!(job.accepts(&reply));
            reply = match job.step(reply) {
                JobRequest::Inspect(p) => match fs.get(&p) {
                    Some(Node::File(_)) => JobReply::Kind(FileKind::File),
                    Some(Node::Link(_)) => JobReply::Kind(FileKind::Symlink),
                    Some(Node::Dir) => JobReply::Kind(FileKind::Other),
                    None => JobReply::Failed(String::from("No such file or directory (os error 2)")),
                },
                JobRequest::Exists(p) => JobReply::Answer(fs.contains(&p)),
                JobRequest::RemoveFile(p) => {
                    fs.remove_all(&p);
                    JobReply::Proceed
                },
                JobRequest::Copy(a, b) => match fs.get(&a).cloned() {
                    Some(Node::File(content)) if fs.contains(&parent(&b)) => {
                        fs.write(&b, &content);
                        JobReply::Proceed
                    },
                    _ => JobReply::Failed(String::from("No such file or directory (os error 2)")),
                },
                JobRequest::ReadLink(p) => match fs.get(&p).cloned() {
                    Some(Node::Link(to)) => JobReply::Link(to),
                    _ => JobReply::Failed(String::from("Invalid argument (os error 22)")),
                },
                JobRequest::Symlink(to, at) => {
                    fs.link(&at, &to);
                    JobReply::Proceed
                },
                JobRequest::Done(result) => break result,
            };
        };
        assert!(run.is_collecting());
        run.record_copy(result);
    }

    // Swap the staged directories into place.
    let mut reply = SwapReply::Proceed;
    loop {
        assert!(run.accepts(&reply));
        reply = match run.step(reply) {
            SwapRequest::Exists(p) => SwapReply::Answer(fs.contains(&p)),
            SwapRequest::RemoveDirAll(p) => {
                fs.remove_all(&p);
                SwapReply::Proceed
            },
            SwapRequest::Rename(a, b) => match fs.rename(&a, &b) {
                Ok(()) => SwapReply::Proceed,
                Err(e) => SwapReply::Failed(e),
            },
            SwapRequest::Done => break,
        };
    }
    (run.files_count(), run.error_message().clone())
}

const ROOT: &str = "/tmp/root";
const SOURCE_DIR: &str = "/tmp/root/source-1";
const TARGET_DIR: &str = "/tmp/root/target-1";

fn setup_dirs() -> MemFs {
    let mut fs = MemFs::new();
    fs.mkdir_all(ROOT);
    fs.mkdir_all(SOURCE_DIR);
    fs.mkdir_all(TARGET_DIR);
    fs
}

fn source_child(path: &str) -> String {
    format!("{}/{}", SOURCE_DIR, path)
}

fn target_child(path: &str) -> String {
    format!("{}/source-1/{}", TARGET_DIR, path)
}

#[test]
fn test_backup_files() {
    let mut fs = setup_dirs();
    let file_paths = vec![
        "test.txt",
        "subdir/test.txt",
        "subdir/subdir/test.txt",
        "subdir/subdir/subdir/test.txt",
        "subdir/subdir/subdir/subdir/test.txt",
        "subdir/subdir/subdir/subdir/subdir/test.txt",
        "subdir/subdir/subdir/subdir/subdir/subdir/test.txt",
        "subdir/subdir/subdir/subdir/subdir/subdir/subdir/test.txt",
    ];
    for file_path in &file_paths {
        fs.write(&source_child(file_path), "");
    }

    let (files_count, errors) = run_backup(&mut fs, vec![SOURCE_DIR.to_string()], TARGET_DIR, None);

    for file_path in &file_paths {
        assert!(fs.contains(&source_child(file_path)));
        assert!(fs.contains(&target_child(file_path)));
    }
    assert_eq!(files_count, file_paths.len());
    assert_eq!(errors, "");
    assert!(!fs.contains(&format!("{}/source-1.backup", TARGET_DIR)));
}

#[test]
fn test_backup_ignore_pattern() {
    let mut fs = setup_dirs();
    let file_paths = vec![
        "yarn.lock",
        "subdir/yarn.lock",
        "node_modules",
        "subdir/node_modules",
        ".yarn",
        "subdir/.yarn",
        ".next",
        "subdir/.next",
        "target",
        "subdir/target",
        "test.txt",
        "subdir/test.txt",
    ];
    let ignore_pattern =
        Some(IgnorePattern::new(String::from(r"(node_modules|.yarn|.next|target|yarn.lock)")).ok().unwrap());

    for file_path in &file_paths {
        fs.write(&source_child(file_path), "");
    }
    for file_path in &file_paths {
        assert!(fs.contains(&source_child(file_path)));
    }

    let (files_count, _) = run_backup(&mut fs, vec![SOURCE_DIR.to_string()], TARGET_DIR, ignore_pattern);

    assert!(fs.contains(&target_child("test.txt")));
    assert!(fs.contains(&target_child("subdir/test.txt")));
    assert_eq!(files_count, 2);
}

#[test]
fn test_backup_contents() {
    let mut fs = setup_dirs();
    let file_name = "test.txt";
    let file_content = "file content";
    fs.write(&source_child(file_name), file_content);

    run_backup(&mut fs, vec![SOURCE_DIR.to_string()], TARGET_DIR, None);

    assert_eq!(fs.get(&target_child(file_name)), fs.get(&source_child(file_name)));
    assert_eq!(fs.get(&target_child(file_name)), Some(&Node::File(String::from(file_content))));
}

#[test]
fn test_backup_file_symlink() {
    let mut fs = setup_dirs();
    let file_name = "test.txt";
    let link_file_name = "link";
    fs.write(&source_child(file_name), "");
    fs.link(&source_child(link_file_name), &source_child(file_name));

    run_backup(&mut fs, vec![SOURCE_DIR.to_string()], TARGET_DIR, None);

    let target_link_path = target_child(link_file_name);
    assert!(fs.contains(&target_link_path));
    assert!(matches!(fs.get(&target_link_path), Some(Node::Link(_))));
}

#[test]
fn test_backup_dir_symlink() {
    let mut fs = setup_dirs();
    let child_dir_name = "subdir";
    let file_name = "test.txt";
    let link_file_name = "link";
    let child_dir = source_child(child_dir_name);
    fs.write(&format!("{}/{}", child_dir, file_name), "");
    fs.link(&source_child(link_file_name), &child_dir);

    run_backup(&mut fs, vec![SOURCE_DIR.to_string()], TARGET_DIR, None);

    let target_link_path = target_child(link_file_name);
    assert!(fs.contains(&target_link_path));
    assert!(matches!(fs.get(&target_link_path), Some(Node::Link(_))));
}

#[test]
fn previous_backup_is_replaced_only_after_copying() {
    let mut fs = setup_dirs();
    fs.write(&source_child("new.txt"), "new");
    fs.write(&target_child("old.txt"), "old");

    let (files_count, errors) = run_backup(&mut fs, vec![SOURCE_DIR.to_string()], TARGET_DIR, None);

    assert_eq!(files_count, 1);
    assert_eq!(errors, "");
    assert!(fs.contains(&target_child("new.txt")));
    assert!(!fs.contains(&target_child("old.txt")));
}

#[test]
fn file_source_is_copied_next_to_the_target() {
    let mut fs = setup_dirs();
    let source = format!("{}/notes.txt", ROOT);
    fs.write(&source, "notes");
    fs.write(&format!("{}/notes.txt", TARGET_DIR), "stale");

    let (files_count, errors) = run_backup(&mut fs, vec![source], TARGET_DIR, None);

    assert_eq!(files_count, 1);
    assert_eq!(errors, "");
    assert_eq!(fs.get(&format!("{}/notes.txt", TARGET_DIR)), Some(&Node::File(String::from("notes"))));
}

#[test]
fn missing_source_stops_the_traversal() {
    let mut fs = setup_dirs();
    fs.write(&source_child("a.txt"), "a");

    let (files_count, errors) = run_backup(
        &mut fs,
        vec![format!("{}/missing", ROOT), SOURCE_DIR.to_string()],
        TARGET_DIR,
        None,
    );

    assert_eq!(files_count, 0);
    assert_eq!(errors, "Failed locating path: `\"/tmp/root/missing\"`");
    assert!(!fs.contains(&target_child("a.txt")));
}
