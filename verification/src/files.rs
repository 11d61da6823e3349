use vstd::prelude::*;

use crate::errors::{error_message, ErrorView, FSErrors};

verus! {

/// What `fs::symlink_metadata` says a path is.
#[derive(Clone, Copy, PartialEq, Eq, Structural, Debug)]
pub enum FileKind {
    Symlink,
    File,
    /// Anything else (a directory, a device, ...): nothing is copied.
    Other,
}

/// A piece of file-system work that a copy job asks its worker to do.
pub enum JobRequest<P> {
    /// `fs::symlink_metadata` of the source: answer `Kind` or `Failed`.
    Inspect(P),
    /// `Path::exists` of the target: answer `Answer`.
    Exists(P),
    /// `fs::remove_file`: answer `Proceed` or `Failed`.
    RemoveFile(P),
    /// `fs::copy(source, target)`: answer `Proceed` or `Failed`.
    Copy(P, P),
    /// `fs::read_link`: answer `Link(link target)` or `Failed`.
    ReadLink(P),
    /// Create at the second path a symbolic link pointing to the first:
    /// answer `Proceed` or `Failed`.
    Symlink(P, P),
    /// The job is over with this result (`Err` holds the message).
    Done(Result<(), P>),
}

/// The worker's answer to the last request.
pub enum JobReply<P> {
    Proceed,
    Kind(FileKind),
    Answer(bool),
    Link(P),
    Failed(P),
}

pub type CopyRequest = JobRequest<String>;

pub type CopyReply = JobReply<String>;

impl View for JobRequest<String> {
    type V = JobRequest<Seq<char>>;

    open spec fn view(&self) -> JobRequest<Seq<char>> {
        match self {
            JobRequest::Inspect(p) => JobRequest::Inspect(p@),
            JobRequest::Exists(p) => JobRequest::Exists(p@),
            JobRequest::RemoveFile(p) => JobRequest::RemoveFile(p@),
            JobRequest::Copy(a, b) => JobRequest::Copy(a@, b@),
            JobRequest::ReadLink(p) => JobRequest::ReadLink(p@),
            JobRequest::Symlink(a, b) => JobRequest::Symlink(a@, b@),
            JobRequest::Done(Ok(())) => JobRequest::Done(Ok(())),
            JobRequest::Done(Err(e)) => JobRequest::Done(Err(e@)),
        }
    }
}

impl View for JobReply<String> {
    type V = JobReply<Seq<char>>;

    open spec fn view(&self) -> JobReply<Seq<char>> {
        match self {
            JobReply::Proceed => JobReply::Proceed,
            JobReply::Kind(k) => JobReply::Kind(*k),
            JobReply::Answer(b) => JobReply::Answer(*b),
            JobReply::Link(p) => JobReply::Link(p@),
            JobReply::Failed(e) => JobReply::Failed(e@),
        }
    }
}

/// Which routine a job runs once started.
#[derive(Clone, Copy, PartialEq, Eq, Structural)]
pub enum Routine {
    /// Look at the source first, then copy a file or recreate a link.
    Dispatch,
    /// Copy a regular file.
    File,
    /// Recreate a symbolic link.
    Link,
}

/// What the job waits for.
#[derive(Clone, Copy, PartialEq, Eq, Structural)]
pub enum JobStage {
    Start(Routine),
    Inspecting,
    FileTargetExists,
    FileTargetRemoved,
    Copying,
    LinkTargetExists,
    LinkTargetRemoved,
    ReadingLink,
    Linking,
    Finished,
}

/// The mathematical state of a copy job.
pub struct JobView {
    pub source: Seq<char>,
    pub target: Seq<char>,
    pub stage: JobStage,
}

pub open spec fn job_accepts(s: JobView, reply: JobReply<Seq<char>>) -> bool {
    match s.stage {
        JobStage::Start(_) => reply is Proceed,
        JobStage::Inspecting => reply is Kind || reply is Failed,
        JobStage::FileTargetExists | JobStage::LinkTargetExists => reply is Answer,
        JobStage::ReadingLink => reply is Link || reply is Failed,
        JobStage::FileTargetRemoved | JobStage::Copying | JobStage::LinkTargetRemoved | JobStage::Linking =>
            reply is Proceed || reply is Failed,
        JobStage::Finished => false,
    }
}

pub open spec fn job_at(s: JobView, stage: JobStage, request: JobRequest<Seq<char>>) -> (JobView, JobRequest<Seq<char>>) {
    (JobView { stage, ..s }, request)
}

pub open spec fn job_failed(s: JobView, err: ErrorView) -> (JobView, JobRequest<Seq<char>>) {
    job_at(s, JobStage::Finished, JobRequest::Done(Err(error_message(err))))
}

/// One step of a copy job: the state after `reply` and the next request.
/// The file routine removes an existing target, then copies; the link
/// routine removes an existing target, reads the link and recreates it.
pub open spec fn job_step(s: JobView, reply: JobReply<Seq<char>>) -> (JobView, JobRequest<Seq<char>>) {
    match s.stage {
        JobStage::Start(Routine::Dispatch) => job_at(s, JobStage::Inspecting, JobRequest::Inspect(s.source)),
        JobStage::Start(Routine::File) => job_at(s, JobStage::FileTargetExists, JobRequest::Exists(s.target)),
        JobStage::Start(Routine::Link) => job_at(s, JobStage::LinkTargetExists, JobRequest::Exists(s.target)),
        JobStage::Inspecting => match reply {
            JobReply::Kind(FileKind::Symlink) => job_at(s, JobStage::LinkTargetExists, JobRequest::Exists(s.target)),
            JobReply::Kind(FileKind::File) => job_at(s, JobStage::FileTargetExists, JobRequest::Exists(s.target)),
            JobReply::Failed(e) => job_at(s, JobStage::Finished, JobRequest::Done(Err(e))),
            _ => job_at(s, JobStage::Finished, JobRequest::Done(Ok(()))),
        },
        JobStage::FileTargetExists => match reply {
            JobReply::Answer(true) => job_at(s, JobStage::FileTargetRemoved, JobRequest::RemoveFile(s.target)),
            _ => job_at(s, JobStage::Copying, JobRequest::Copy(s.source, s.target)),
        },
        JobStage::FileTargetRemoved => match reply {
            JobReply::Failed(e) => job_failed(s, ErrorView::RemoveFileError { source_path: s.target, err: e }),
            _ => job_at(s, JobStage::Copying, JobRequest::Copy(s.source, s.target)),
        },
        JobStage::Copying => match reply {
            JobReply::Failed(e) => job_failed(s, ErrorView::CopyFileError { source_path: s.source, target_path: s.target, err: e }),
            _ => job_at(s, JobStage::Finished, JobRequest::Done(Ok(()))),
        },
        JobStage::LinkTargetExists => match reply {
            JobReply::Answer(true) => job_at(s, JobStage::LinkTargetRemoved, JobRequest::RemoveFile(s.target)),
            _ => job_at(s, JobStage::ReadingLink, JobRequest::ReadLink(s.source)),
        },
        JobStage::LinkTargetRemoved => match reply {
            JobReply::Failed(e) => job_failed(s, ErrorView::RemoveFileError { source_path: s.target, err: e }),
            _ => job_at(s, JobStage::ReadingLink, JobRequest::ReadLink(s.source)),
        },
        JobStage::ReadingLink => match reply {
            JobReply::Link(link) => job_at(s, JobStage::Linking, JobRequest::Symlink(link, s.target)),
            JobReply::Failed(e) => job_failed(s, ErrorView::ReadFileError { source_path: s.source, err: e }),
            _ => (s, JobRequest::Done(Ok(()))),
        },
        JobStage::Linking => match reply {
            JobReply::Failed(e) => job_failed(s, ErrorView::CreateSymlinkError { source_path: s.source, target_path: s.target, err: e }),
            _ => job_at(s, JobStage::Finished, JobRequest::Done(Ok(()))),
        },
        JobStage::Finished => (s, JobRequest::Done(Ok(()))),
    }
}

/// Copies one source path to one target path: the work a backup worker does
/// for each command it receives, one file-system request at a time.
pub struct CopyJob {
    source: String,
    target: String,
    stage: JobStage,
}

impl View for CopyJob {
    type V = JobView;

    closed spec fn view(&self) -> JobView {
        JobView { source: self.source@, target: self.target@, stage: self.stage }
    }
}

/// A job for the command `(source, target)`: it looks at the source and
/// copies it as a file or recreates it as a symbolic link; anything else is
/// left alone and counts as done.
pub fn copy_command(source: String, target: String) -> (job: CopyJob)
    ensures
        job@ == (JobView { source: source@, target: target@, stage: JobStage::Start(Routine::Dispatch) }),
{
    CopyJob { source, target, stage: JobStage::Start(Routine::Dispatch) }
}

/// A job that copies the file `source_path` to `target_path`, first removing
/// what is already at `target_path`.
pub fn backup_file(source_path: String, target_path: String) -> (job: CopyJob)
    ensures
        job@ == (JobView { source: source_path@, target: target_path@, stage: JobStage::Start(Routine::File) }),
{
    CopyJob { source: source_path, target: target_path, stage: JobStage::Start(Routine::File) }
}

/// A job that recreates the symbolic link `source_path` at `target_path`,
/// first removing what is already at `target_path`.
pub fn backup_symlink(source_path: String, target_path: String) -> (job: CopyJob)
    ensures
        job@ == (JobView { source: source_path@, target: target_path@, stage: JobStage::Start(Routine::Link) }),
{
    CopyJob { source: source_path, target: target_path, stage: JobStage::Start(Routine::Link) }
}

impl JobReply<String> {
    fn kind(&self) -> (k: u8)
        ensures
            k == 0 <==> self@ is Proceed,
            k == 1 <==> self@ is Kind,
            k == 2 <==> self@ is Answer,
            k == 3 <==> self@ is Link,
            k == 4 <==> self@ is Failed,
    {
        match self {
            JobReply::Proceed => 0,
            JobReply::Kind(_) => 1,
            JobReply::Answer(_) => 2,
            JobReply::Link(_) => 3,
            JobReply::Failed(_) => 4,
        }
    }
}

impl CopyJob {
    /// Whether `reply` answers what this job asked last.
    pub fn accepts(&self, reply: &CopyReply) -> (ok: bool)
        ensures
            ok == job_accepts(self@, reply@),
    {
        let k = reply.kind();
        match self.stage {
            JobStage::Start(_) => k == 0,
            JobStage::Inspecting => k == 1 || k == 4,
            JobStage::FileTargetExists | JobStage::LinkTargetExists => k == 2,
            JobStage::ReadingLink => k == 3 || k == 4,
            JobStage::FileTargetRemoved | JobStage::Copying | JobStage::LinkTargetRemoved | JobStage::Linking =>
                k == 0 || k == 4,
            JobStage::Finished => false,
        }
    }

    fn fail(&mut self, err: FSErrors) -> (request: CopyRequest)
        ensures
            (final(self)@, request@) == job_failed(old(self)@, err@),
    {
        self.stage = JobStage::Finished;
        JobRequest::Done(Err(err.message()))
    }

    /// Takes the worker's `reply` to the last request and returns the next
    /// request; the first reply, `Proceed`, starts the job.
    pub fn step(&mut self, reply: CopyReply) -> (request: CopyRequest)
        requires
            job_accepts(old(self)@, reply@),
        ensures
            (final(self)@, request@) == job_step(old(self)@, reply@),
    {
        match self.stage {
            JobStage::Start(Routine::Dispatch) => {
                self.stage = JobStage::Inspecting;
                JobRequest::Inspect(self.source.clone())
            },
            JobStage::Start(Routine::File) => {
                self.stage = JobStage::FileTargetExists;
                JobRequest::Exists(self.target.clone())
            },
            JobStage::Start(Routine::Link) => {
                self.stage = JobStage::LinkTargetExists;
                JobRequest::Exists(self.target.clone())
            },
            JobStage::Inspecting => match reply {
                JobReply::Kind(FileKind::Symlink) => {
                    self.stage = JobStage::LinkTargetExists;
                    JobRequest::Exists(self.target.clone())
                },
                JobReply::Kind(FileKind::File) => {
                    self.stage = JobStage::FileTargetExists;
                    JobRequest::Exists(self.target.clone())
                },
                JobReply::Failed(e) => {
                    self.stage = JobStage::Finished;
                    JobRequest::Done(Err(e))
                },
                _ => {
                    self.stage = JobStage::Finished;
                    JobRequest::Done(Ok(()))
                },
            },
            JobStage::FileTargetExists => match reply {
                JobReply::Answer(true) => {
                    self.stage = JobStage::FileTargetRemoved;
                    JobRequest::RemoveFile(self.target.clone())
                },
                _ => {
                    self.stage = JobStage::Copying;
                    JobRequest::Copy(self.source.clone(), self.target.clone())
                },
            },
            JobStage::FileTargetRemoved => match reply {
                JobReply::Failed(err) => {
                    let source_path = self.target.clone();
                    self.fail(FSErrors::RemoveFileError { source_path, err })
                },
                _ => {
                    self.stage = JobStage::Copying;
                    JobRequest::Copy(self.source.clone(), self.target.clone())
                },
            },
            JobStage::Copying => match reply {
                JobReply::Failed(err) => {
                    let source_path = self.source.clone();
                    let target_path = self.target.clone();
                    self.fail(FSErrors::CopyFileError { source_path, target_path, err })
                },
                _ => {
                    self.stage = JobStage::Finished;
                    JobRequest::Done(Ok(()))
                },
            },
            JobStage::LinkTargetExists => match reply {
                JobReply::Answer(true) => {
                    self.stage = JobStage::LinkTargetRemoved;
                    JobRequest::RemoveFile(self.target.clone())
                },
                _ => {
                    self.stage = JobStage::ReadingLink;
                    JobRequest::ReadLink(self.source.clone())
                },
            },
            JobStage::LinkTargetRemoved => match reply {
                JobReply::Failed(err) => {
                    let source_path = self.target.clone();
                    self.fail(FSErrors::RemoveFileError { source_path, err })
                },
                _ => {
                    self.stage = JobStage::ReadingLink;
                    JobRequest::ReadLink(self.source.clone())
                },
            },
            JobStage::ReadingLink => match reply {
                JobReply::Link(link) => {
                    self.stage = JobStage::Linking;
                    JobRequest::Symlink(link, self.target.clone())
                },
                JobReply::Failed(err) => {
                    let source_path = self.source.clone();
                    self.fail(FSErrors::ReadFileError { source_path, err })
                },
                _ => JobRequest::Done(Ok(())),
            },
            JobStage::Linking => match reply {
                JobReply::Failed(err) => {
                    let source_path = self.source.clone();
                    let target_path = self.target.clone();
                    self.fail(FSErrors::CreateSymlinkError { source_path, target_path, err })
                },
                _ => {
                    self.stage = JobStage::Finished;
                    JobRequest::Done(Ok(()))
                },
            },
            JobStage::Finished => JobRequest::Done(Ok(())),
        }
    }
}

// ---------------------------------------------------------------------------
// Laws of a copy job
// ---------------------------------------------------------------------------

/// A copy job never changes its source: the only path it removes, copies
/// onto or links at is its target, and it only reads from its source.
pub proof fn law_source_untouched(s: JobView, reply: JobReply<Seq<char>>)
    requires
        job_accepts(s, reply),
    ensures
        match job_step(s, reply).1 {
            JobRequest::RemoveFile(p) => p == s.target,
            JobRequest::Copy(from, to) => from == s.source && to == s.target,
            JobRequest::Symlink(_, at) => at == s.target,
            JobRequest::Inspect(p) => p == s.source,
            JobRequest::ReadLink(p) => p == s.source,
            JobRequest::Exists(p) => p == s.target,
            JobRequest::Done(_) => job_step(s, reply).0.stage == JobStage::Finished,
        },
{
}

/// The target is removed only after it was found to exist, and a file is
/// copied or a link created only once the target is known to be absent or
/// was removed: a failed removal ends the job without copying.
pub proof fn law_replaces_only_cleared_target(s: JobView, reply: JobReply<Seq<char>>)
    requires
        job_accepts(s, reply),
    ensures
        job_step(s, reply).1 is RemoveFile ==> reply == JobReply::<Seq<char>>::Answer(true),
        job_step(s, reply).1 is Copy ==> {
            ||| s.stage == JobStage::FileTargetExists && reply == JobReply::<Seq<char>>::Answer(false)
            ||| s.stage == JobStage::FileTargetRemoved && reply is Proceed
        },
        job_step(s, reply).1 is Symlink ==> s.stage == JobStage::ReadingLink,
        job_step(s, reply).1 is ReadLink ==> {
            ||| s.stage == JobStage::LinkTargetExists && reply == JobReply::<Seq<char>>::Answer(false)
            ||| s.stage == JobStage::LinkTargetRemoved && reply is Proceed
        },
{
}

// ---------------------------------------------------------------------------
// What a whole copy job does
// ---------------------------------------------------------------------------

/// How a worker's file system answers a copy job: the kind of the source
/// (`None` when its metadata cannot be read, with that error text), whether
/// the target exists, the errors of removing the target, of copying and of
/// creating the link (`None` when they succeed), and what reading the source
/// link gives.
pub struct JobModel {
    pub kind: Option<FileKind>,
    pub inspect_error: Seq<char>,
    pub target_exists: bool,
    pub remove_error: Option<Seq<char>>,
    pub copy_error: Option<Seq<char>>,
    pub link: Result<Seq<char>, Seq<char>>,
    pub symlink_error: Option<Seq<char>>,
}

/// The answer of `m` to `request`.
pub open spec fn job_answer(m: JobModel, request: JobRequest<Seq<char>>) -> JobReply<Seq<char>> {
    match request {
        JobRequest::Inspect(_) => match m.kind {
            Some(k) => JobReply::Kind(k),
            None => JobReply::Failed(m.inspect_error),
        },
        JobRequest::Exists(_) => JobReply::Answer(m.target_exists),
        JobRequest::RemoveFile(_) => match m.remove_error {
            Some(e) => JobReply::Failed(e),
            None => JobReply::Proceed,
        },
        JobRequest::Copy(_, _) => match m.copy_error {
            Some(e) => JobReply::Failed(e),
            None => JobReply::Proceed,
        },
        JobRequest::ReadLink(_) => match m.link {
            Ok(l) => JobReply::Link(l),
            Err(e) => JobReply::Failed(e),
        },
        JobRequest::Symlink(_, _) => match m.symlink_error {
            Some(e) => JobReply::Failed(e),
            None => JobReply::Proceed,
        },
        JobRequest::Done(_) => JobReply::Proceed,
    }
}

/// The requests a job makes from state `s` when given `reply` and then
/// answered by `m`, up to and including its `Done`, within `fuel` steps.
pub open spec fn job_run(s: JobView, reply: JobReply<Seq<char>>, m: JobModel, fuel: nat) -> Seq<JobRequest<Seq<char>>>
    decreases fuel,
{
    if fuel == 0 {
        Seq::empty()
    } else {
        let (s2, request) = job_step(s, reply);
        if request is Done {
            seq![request]
        } else {
            seq![request] + job_run(s2, job_answer(m, request), m, (fuel - 1) as nat)
        }
    }
}

/// Clearing the target: when it exists it is removed first, and a failed
/// removal ends the job with its error; then `rest` follows.
pub open spec fn clear_then(target: Seq<char>, m: JobModel, rest: Seq<JobRequest<Seq<char>>>) -> Seq<JobRequest<Seq<char>>> {
    if m.target_exists {
        seq![JobRequest::RemoveFile(target)] + match m.remove_error {
            Some(e) => seq![JobRequest::Done(Err(error_message(ErrorView::RemoveFileError { source_path: target, err: e })))],
            None => rest,
        }
    } else {
        rest
    }
}

/// The work of copying a regular file, from the check of the target on.
pub open spec fn file_requests(source: Seq<char>, target: Seq<char>, m: JobModel) -> Seq<JobRequest<Seq<char>>> {
    seq![JobRequest::Exists(target)] + clear_then(target, m, seq![
        JobRequest::Copy(source, target),
        JobRequest::Done(match m.copy_error {
            Some(e) => Err(error_message(ErrorView::CopyFileError { source_path: source, target_path: target, err: e })),
            None => Ok(()),
        }),
    ])
}

/// The work of recreating a symbolic link, from the check of the target
/// on: read where the source points, then create a link to that at the
/// target.
pub open spec fn link_requests(source: Seq<char>, target: Seq<char>, m: JobModel) -> Seq<JobRequest<Seq<char>>> {
    seq![JobRequest::Exists(target)] + clear_then(target, m, seq![JobRequest::ReadLink(source)] + match m.link {
        Err(e) => seq![JobRequest::Done(Err(error_message(ErrorView::ReadFileError { source_path: source, err: e })))],
        Ok(l) => seq![
            JobRequest::Symlink(l, target),
            JobRequest::Done(match m.symlink_error {
                Some(e) => Err(error_message(ErrorView::CreateSymlinkError { source_path: source, target_path: target, err: e })),
                None => Ok(()),
            }),
        ],
    })
}

/// The work of a copy command: look at the source, then copy a file,
/// recreate a link, or leave anything else alone.
pub open spec fn command_requests(source: Seq<char>, target: Seq<char>, m: JobModel) -> Seq<JobRequest<Seq<char>>> {
    seq![JobRequest::Inspect(source)] + match m.kind {
        None => seq![JobRequest::Done(Err(m.inspect_error))],
        Some(FileKind::Other) => seq![JobRequest::Done(Ok(()))],
        Some(FileKind::File) => file_requests(source, target, m),
        Some(FileKind::Symlink) => link_requests(source, target, m),
    }
}

/// A started copy job does, in order, exactly the work of its routine: a
/// copy command looks at its source and then copies a file or recreates a
/// link; a file is copied only after an existing target was removed, and a
/// link is recreated (read from the source, created at the target) only
/// after that. The job ends with success only when that last piece of work
/// succeeded, and otherwise with the message of the first failure.
pub proof fn law_job_does_its_work(source: Seq<char>, target: Seq<char>, m: JobModel)
    ensures
        job_run(JobView { source, target, stage: JobStage::Start(Routine::Dispatch) }, JobReply::Proceed, m, 8)
            == command_requests(source, target, m),
        job_run(JobView { source, target, stage: JobStage::Start(Routine::File) }, JobReply::Proceed, m, 8)
            == file_requests(source, target, m),
        job_run(JobView { source, target, stage: JobStage::Start(Routine::Link) }, JobReply::Proceed, m, 8)
            == link_requests(source, target, m),
{
    reveal_with_fuel(job_run, 8);
    let d = JobView { source, target, stage: JobStage::Start(Routine::Dispatch) };
    let f = JobView { source, target, stage: JobStage::Start(Routine::File) };
    let l = JobView { source, target, stage: JobStage::Start(Routine::Link) };
    assert(job_run(d, JobReply::Proceed, m, 8) =~= command_requests(source, target, m));
    assert(job_run(f, JobReply::Proceed, m, 8) =~= file_requests(source, target, m));
    assert(job_run(l, JobReply::Proceed, m, 8) =~= link_requests(source, target, m));
}

} // verus!
