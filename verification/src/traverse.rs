use vstd::prelude::*;

use crate::constants::STAGING_SUFFIX;
use crate::errors::{ErrorView, FSErrors};
use crate::paths::{file_name, join, path_file_name, path_join};
use crate::pattern::{ignored, is_ignored, pattern_text, IgnorePattern};

verus! {

// ---------------------------------------------------------------------------
// The conversation with the file system
// ---------------------------------------------------------------------------

/// A piece of file-system work that the traversal asks its driver to do.
/// `P` is a path, `R` the final outcome.
pub enum Request<P, R> {
    /// `Path::try_exists`: answer `Answer(exists)` or `Failed(io error)`.
    TryExists(P),
    /// `fs::symlink_metadata(..).is_dir()`: answer `Answer(is_dir)` or `Failed`.
    Inspect(P),
    /// `Path::exists`: answer `Answer(exists)`.
    Exists(P),
    /// `fs::remove_dir_all`: answer `Proceed` or `Failed`.
    RemoveDirAll(P),
    /// `DirBuilder::new().recursive(true).create`: answer `Proceed` or `Failed`.
    CreateDirAll(P),
    /// `fs::read_dir`: answer `Listing(entry names, first entry error)` or `Failed`.
    ReadDir(P),
    /// Hand the copy command `(source, target)` to the workers: answer
    /// `Proceed` or `Failed(send error)`.
    Send(P, P),
    /// The traversal is over; nothing more is asked.
    Finish(R),
}

/// The driver's answer to the last request.
pub enum Reply<P, L> {
    /// The work succeeded (also the first reply, which starts the traversal).
    Proceed,
    /// The yes/no answer to a query.
    Answer(bool),
    /// The names of a directory's entries, in the order they were read, and
    /// the text of the error that stopped the reading early, if any.
    Listing(L, Option<P>),
    /// The work failed with this I/O error text.
    Failed(P),
}

/// The pairs `(staging directory, final directory)` to swap after copying.
pub type Swaps = Vec<(String, String)>;

pub type TraversalRequest = Request<String, Result<Swaps, FSErrors>>;

pub type TraversalReply = Reply<String, Vec<String>>;

pub type RequestView = Request<Seq<char>, Result<Seq<(Seq<char>, Seq<char>)>, ErrorView>>;

pub type ReplyView = Reply<Seq<char>, Seq<Seq<char>>>;

pub open spec fn strings_view(v: Seq<String>) -> Seq<Seq<char>> {
    v.map_values(|s: String| s@)
}

pub open spec fn pairs_view(v: Seq<(String, String)>) -> Seq<(Seq<char>, Seq<char>)> {
    v.map_values(|p: (String, String)| (p.0@, p.1@))
}

pub open spec fn option_view(o: Option<String>) -> Option<Seq<char>> {
    match o {
        Some(s) => Some(s@),
        None => None,
    }
}

impl View for Request<String, Result<Swaps, FSErrors>> {
    type V = RequestView;

    open spec fn view(&self) -> RequestView {
        match self {
            Request::TryExists(p) => Request::TryExists(p@),
            Request::Inspect(p) => Request::Inspect(p@),
            Request::Exists(p) => Request::Exists(p@),
            Request::RemoveDirAll(p) => Request::RemoveDirAll(p@),
            Request::CreateDirAll(p) => Request::CreateDirAll(p@),
            Request::ReadDir(p) => Request::ReadDir(p@),
            Request::Send(a, b) => Request::Send(a@, b@),
            Request::Finish(Ok(swaps)) => Request::Finish(Ok(pairs_view(swaps@))),
            Request::Finish(Err(e)) => Request::Finish(Err(e@)),
        }
    }
}

impl View for Reply<String, Vec<String>> {
    type V = ReplyView;

    open spec fn view(&self) -> ReplyView {
        match self {
            Reply::Proceed => Reply::Proceed,
            Reply::Answer(b) => Reply::Answer(*b),
            Reply::Listing(names, failure) => Reply::Listing(strings_view(names@), option_view(*failure)),
            Reply::Failed(e) => Reply::Failed(e@),
        }
    }
}

// ---------------------------------------------------------------------------
// The mathematical state
// ---------------------------------------------------------------------------

/// What the traversal is waiting for. `P` is a path.
pub enum Stage<P> {
    /// Nothing asked yet; the reply `Proceed` starts the traversal.
    Ready,
    /// `TryExists(path)` of a source was asked.
    SourceExists(P),
    /// `Inspect(path)` of the source `path` with file name `name` was asked.
    SourceKind(P, P),
    /// `Exists` of the staging directory of the source `(path, name)` was asked.
    StagingExists(P, P),
    /// `RemoveDirAll` of that staging directory was asked.
    StagingRemoved(P, P),
    /// A copy command was sent.
    Sent,
    /// `Exists` of the innermost directory's target was asked.
    DirExists,
    /// `CreateDirAll` of the innermost directory's target was asked.
    DirCreated,
    /// `ReadDir` of the innermost directory was asked.
    DirListed,
    /// `Inspect(path)` of the entry `name` of the innermost directory was asked.
    EntryKind(P, P),
    /// The outcome was handed out.
    Finished,
}

/// A directory being walked: its path, the directory it is copied into,
/// the entry names read so far (`next` of them handled), and the error that
/// cut the listing short. `rel` is the list of entry names leading from the
/// walked source directory down to this one.
#[verifier::ext_equal]
pub struct WalkView {
    pub source_dir: Seq<char>,
    pub target_dir: Seq<char>,
    pub names: Seq<Seq<char>>,
    pub failure: Option<Seq<char>>,
    pub next: nat,
    pub rel: Seq<Seq<char>>,
}

/// The whole state of a traversal.
#[verifier::ext_equal]
pub struct TraversalView {
    pub target: Seq<char>,
    pub ignore: Option<Seq<char>>,
    pub sources: Seq<Seq<char>>,
    pub next_source: nat,
    pub swaps: Seq<(Seq<char>, Seq<char>)>,
    pub dirs: Seq<WalkView>,
    /// The directory source being walked: its path and file name.
    pub current: Option<(Seq<char>, Seq<char>)>,
    pub stage: Stage<Seq<char>>,
}

/// Where a directory source named `name` is staged: `<target>/<name>.backup`.
pub open spec fn staging_path(target: Seq<char>, name: Seq<char>) -> Seq<char> {
    path_join(target, name + STAGING_SUFFIX@)
}

/// Where a source named `name` ends up: `<target>/<name>`.
pub open spec fn final_path(target: Seq<char>, name: Seq<char>) -> Seq<char> {
    path_join(target, name)
}

/// `base` joined with each of `rel` in turn.
pub open spec fn walk(base: Seq<char>, rel: Seq<Seq<char>>) -> Seq<char>
    decreases rel.len(),
{
    if rel.len() == 0 {
        base
    } else {
        path_join(walk(base, rel.drop_last()), rel.last())
    }
}

/// The directory that receives the contents of the directory source
/// `name`: its staging directory as a directory path (joined with an empty
/// component, as the original strip-prefix-and-push computed it).
pub open spec fn staging_root(target: Seq<char>, name: Seq<char>) -> Seq<char> {
    path_join(staging_path(target, name), Seq::empty())
}

pub open spec fn sending_failed(err: Seq<char>) -> ErrorView {
    ErrorView::OtherError("Failed sending backup command: "@ + err)
}

pub open spec fn finished(s: TraversalView, outcome: Result<Seq<(Seq<char>, Seq<char>)>, ErrorView>) -> (TraversalView, RequestView) {
    (TraversalView { stage: Stage::Finished, ..s }, Request::Finish(outcome))
}

pub open spec fn finished_ok(s: TraversalView) -> (TraversalView, RequestView) {
    (TraversalView { stage: Stage::Finished, swaps: Seq::empty(), ..s }, Request::Finish(Ok(s.swaps)))
}

pub open spec fn sources_left(s: TraversalView) -> nat {
    if s.next_source < s.sources.len() { (s.sources.len() - s.next_source) as nat } else { 0 }
}

pub open spec fn open_dirs(s: TraversalView) -> nat {
    s.dirs.len() + if s.current is Some { 1nat } else { 0nat }
}

pub open spec fn entries_left(s: TraversalView) -> nat {
    if s.dirs.len() > 0 && s.dirs.last().next < s.dirs.last().names.len() {
        (s.dirs.last().names.len() - s.dirs.last().next) as nat
    } else {
        0
    }
}

/// Moves on to the next thing to look at: the next unread entry of the
/// innermost directory, the parent directory when it is exhausted, the
/// pending swap of a finished directory source, then the next source; ignored
/// paths are passed over without touching them.
pub open spec fn advance(s: TraversalView) -> (TraversalView, RequestView)
    decreases sources_left(s), open_dirs(s), entries_left(s),
{
    if s.dirs.len() > 0 {
        let top = s.dirs.last();
        if top.next < top.names.len() {
            let name = top.names[top.next as int];
            let path = path_join(top.source_dir, name);
            let s2 = TraversalView {
                dirs: s.dirs.drop_last().push(WalkView { next: top.next + 1, ..top }),
                ..s
            };
            if ignored(s.ignore, path) {
                advance(s2)
            } else {
                (TraversalView { stage: Stage::EntryKind(path, name), ..s2 }, Request::Inspect(path))
            }
        } else if top.failure is Some {
            finished(s, Err(ErrorView::ReadFileError { source_path: top.source_dir, err: top.failure.unwrap() }))
        } else {
            advance(TraversalView { dirs: s.dirs.drop_last(), ..s })
        }
    } else if s.current is Some {
        let name = s.current.unwrap().1;
        advance(TraversalView {
            swaps: s.swaps.push((staging_path(s.target, name), final_path(s.target, name))),
            current: None,
            ..s
        })
    } else if s.next_source < s.sources.len() {
        let path = s.sources[s.next_source as int];
        let s2 = TraversalView { next_source: s.next_source + 1, ..s };
        if ignored(s.ignore, path) {
            advance(s2)
        } else {
            (TraversalView { stage: Stage::SourceExists(path), ..s2 }, Request::TryExists(path))
        }
    } else {
        finished_ok(s)
    }
}

/// Starts walking the directory source `(path, name)`: it is copied into
/// its staging directory.
pub open spec fn begin_walk(s: TraversalView, path: Seq<char>, name: Seq<char>) -> (TraversalView, RequestView) {
    let root = staging_root(s.target, name);
    let walk = WalkView {
        source_dir: path,
        target_dir: root,
        names: Seq::empty(),
        failure: None,
        next: 0,
        rel: Seq::empty(),
    };
    (
        TraversalView { dirs: s.dirs.push(walk), current: Some((path, name)), stage: Stage::DirExists, ..s },
        Request::Exists(root),
    )
}

/// Starts walking the subdirectory `(path, name)` of the innermost directory.
pub open spec fn descend(s: TraversalView, path: Seq<char>, name: Seq<char>) -> (TraversalView, RequestView) {
    let top = s.dirs.last();
    let target = path_join(top.target_dir, name);
    let walk = WalkView {
        source_dir: path,
        target_dir: target,
        names: Seq::empty(),
        failure: None,
        next: 0,
        rel: top.rel.push(name),
    };
    (TraversalView { dirs: s.dirs.push(walk), stage: Stage::DirExists, ..s }, Request::Exists(target))
}

/// Asks to list the innermost directory.
pub open spec fn list_top(s: TraversalView) -> (TraversalView, RequestView) {
    (TraversalView { stage: Stage::DirListed, ..s }, Request::ReadDir(s.dirs.last().source_dir))
}

/// Whether `reply` answers what the traversal in state `s` asked.
pub open spec fn accepts_spec(s: TraversalView, reply: ReplyView) -> bool {
    match s.stage {
        Stage::Ready => reply is Proceed,
        Stage::SourceExists(_) | Stage::SourceKind(_, _) | Stage::EntryKind(_, _) =>
            reply is Answer || reply is Failed,
        Stage::StagingExists(_, _) | Stage::DirExists => reply is Answer,
        Stage::StagingRemoved(_, _) | Stage::DirCreated | Stage::Sent => reply is Proceed || reply is Failed,
        Stage::DirListed => reply is Listing || reply is Failed,
        Stage::Finished => false,
    }
}

/// One step of the traversal: the state after `reply` and the next request.
/// Each error ends the traversal with the error the original reported at
/// that point.
pub open spec fn step_spec(s: TraversalView, reply: ReplyView) -> (TraversalView, RequestView) {
    match s.stage {
        Stage::SourceExists(path) => match reply {
            Reply::Answer(true) => match path_file_name(path) {
                Some(name) => (TraversalView { stage: Stage::SourceKind(path, name), ..s }, Request::Inspect(path)),
                None => finished(s, Err(ErrorView::ReadFileError { source_path: path, err: "Failed reading file/dir name"@ })),
            },
            Reply::Answer(false) => finished(s, Err(ErrorView::NotFound { source_path: path, err: "Source path does not exist"@ })),
            Reply::Failed(e) => finished(s, Err(ErrorView::NotFound { source_path: path, err: e })),
            _ => (s, Request::Finish(Err(ErrorView::OtherError(Seq::empty())))),
        },
        Stage::SourceKind(path, name) => match reply {
            Reply::Answer(true) => (
                TraversalView { stage: Stage::StagingExists(path, name), ..s },
                Request::Exists(staging_path(s.target, name)),
            ),
            Reply::Answer(false) => (
                TraversalView { stage: Stage::Sent, ..s },
                Request::Send(path, final_path(s.target, name)),
            ),
            Reply::Failed(e) => finished(s, Err(ErrorView::ReadFileError { source_path: path, err: e })),
            _ => (s, Request::Finish(Err(ErrorView::OtherError(Seq::empty())))),
        },
        Stage::StagingExists(path, name) => match reply {
            Reply::Answer(true) => (
                TraversalView { stage: Stage::StagingRemoved(path, name), ..s },
                Request::RemoveDirAll(staging_path(s.target, name)),
            ),
            _ => begin_walk(s, path, name),
        },
        Stage::StagingRemoved(path, name) => match reply {
            Reply::Failed(e) => finished(s, Err(ErrorView::RemoveFileError { source_path: staging_path(s.target, name), err: e })),
            _ => begin_walk(s, path, name),
        },
        Stage::Sent => match reply {
            Reply::Failed(e) => finished(s, Err(sending_failed(e))),
            _ => advance(s),
        },
        Stage::DirExists => match reply {
            Reply::Answer(true) => list_top(s),
            _ => (TraversalView { stage: Stage::DirCreated, ..s }, Request::CreateDirAll(s.dirs.last().target_dir)),
        },
        Stage::DirCreated => match reply {
            Reply::Failed(e) => finished(s, Err(ErrorView::CreateFileError { target_path: s.dirs.last().target_dir, err: e })),
            _ => list_top(s),
        },
        Stage::DirListed => match reply {
            Reply::Listing(names, failure) => {
                let top = s.dirs.last();
                advance(TraversalView {
                    dirs: s.dirs.drop_last().push(WalkView { names: names, failure: failure, ..top }),
                    ..s
                })
            },
            Reply::Failed(e) => finished(s, Err(ErrorView::ReadDirError { source_path: s.dirs.last().source_dir, err: e })),
            _ => (s, Request::Finish(Err(ErrorView::OtherError(Seq::empty())))),
        },
        Stage::EntryKind(path, name) => match reply {
            Reply::Answer(true) => descend(s, path, name),
            Reply::Answer(false) => (
                TraversalView { stage: Stage::Sent, ..s },
                Request::Send(path, path_join(s.dirs.last().target_dir, name)),
            ),
            Reply::Failed(e) => finished(s, Err(ErrorView::ReadFileError { source_path: path, err: e })),
            _ => (s, Request::Finish(Err(ErrorView::OtherError(Seq::empty())))),
        },
        Stage::Ready => advance(s),
        Stage::Finished => (s, Request::Finish(Err(ErrorView::OtherError(Seq::empty())))),
    }
}

/// The state of a traversal that has not started.
pub open spec fn initial(sources: Seq<Seq<char>>, target: Seq<char>, ignore: Option<Seq<char>>) -> TraversalView {
    TraversalView {
        target,
        ignore,
        sources,
        next_source: 0,
        swaps: Seq::empty(),
        dirs: Seq::empty(),
        current: None,
        stage: Stage::Ready,
    }
}

/// `pair` is the (staging, final) pair in `target` of one of `sources`.
pub open spec fn staged_pair(sources: Seq<Seq<char>>, target: Seq<char>, pair: (Seq<char>, Seq<char>)) -> bool {
    exists|src: Seq<char>, name: Seq<char>|
        #![trigger path_file_name(src), staging_path(target, name)]
        sources.contains(src) && path_file_name(src) == Some(name)
            && pair == (staging_path(target, name), final_path(target, name))
}

/// `path` is a source of `s` that the ignore pattern lets through.
pub open spec fn admitted_source(s: TraversalView, path: Seq<char>) -> bool {
    s.sources.contains(path) && !ignored(s.ignore, path)
}

/// `(path, name)` is an admitted source and `name` its file name.
pub open spec fn named_source(s: TraversalView, path: Seq<char>, name: Seq<char>) -> bool {
    admitted_source(s, path) && path_file_name(path) == Some(name)
}

/// Every open directory mirrors the directory source being walked: it is
/// reached from the source by the same entry names as its copy is reached
/// from the source's staging root.
pub open spec fn mirrors(s: TraversalView) -> bool {
    match s.current {
        Some((root, name)) => forall|i: int| 0 <= i < s.dirs.len() ==> {
            &&& #[trigger] s.dirs[i].source_dir == walk(root, s.dirs[i].rel)
            &&& s.dirs[i].target_dir == walk(staging_root(s.target, name), s.dirs[i].rel)
        },
        None => s.dirs.len() == 0,
    }
}

/// The part of the invariant that holds between the moves of [`advance`].
pub open spec fn wf_core(s: TraversalView) -> bool {
    &&& s.next_source <= s.sources.len()
    &&& forall|i: int| 0 <= i < s.dirs.len() ==> #[trigger] s.dirs[i].next <= s.dirs[i].names.len()
    &&& forall|i: int| 0 <= i < s.dirs.len() ==> !ignored(s.ignore, #[trigger] s.dirs[i].source_dir)
    &&& forall|i: int| 0 <= i < s.swaps.len() ==> staged_pair(s.sources, s.target, #[trigger] s.swaps[i])
    &&& mirrors(s)
    &&& s.current matches Some((path, name)) ==> named_source(s, path, name)
}

/// The invariant of a traversal state.
pub open spec fn wf(s: TraversalView) -> bool {
    &&& wf_core(s)
    &&& (s.stage is DirExists || s.stage is DirCreated || s.stage is DirListed || s.stage is EntryKind) ==> s.dirs.len() > 0
    &&& (s.stage is DirExists || s.stage is DirCreated || s.stage is DirListed) ==> s.dirs.last().next == 0
    &&& (s.stage is SourceExists || s.stage is SourceKind || s.stage is StagingExists || s.stage is StagingRemoved)
        ==> s.dirs.len() == 0 && s.current is None
    &&& match s.stage {
        Stage::SourceExists(path) => admitted_source(s, path),
        Stage::SourceKind(path, name) => named_source(s, path, name),
        Stage::StagingExists(path, name) => named_source(s, path, name),
        Stage::StagingRemoved(path, name) => named_source(s, path, name),
        Stage::EntryKind(path, name) => path == path_join(s.dirs.last().source_dir, name) && !ignored(s.ignore, path),
        _ => true,
    }
}

// ---------------------------------------------------------------------------
// The invariant is kept
// ---------------------------------------------------------------------------

/// `s2` keeps everything of `s` but the counters of its open directories,
/// the number of open directories (it may close the innermost ones) and the
/// position in the source list.
pub open spec fn same_walks(s: TraversalView, s2: TraversalView) -> bool {
    &&& s2.target == s.target
    &&& s2.ignore == s.ignore
    &&& s2.sources == s.sources
    &&& s2.swaps == s.swaps
    &&& s2.current == s.current
    &&& s2.next_source <= s2.sources.len()
    &&& s2.dirs.len() <= s.dirs.len()
    &&& forall|i: int| 0 <= i < s2.dirs.len() ==> {
        &&& (#[trigger] s2.dirs[i]).source_dir == s.dirs[i].source_dir
        &&& s2.dirs[i].target_dir == s.dirs[i].target_dir
        &&& s2.dirs[i].rel == s.dirs[i].rel
        &&& s2.dirs[i].next <= s2.dirs[i].names.len()
    }
}

pub(crate) proof fn lemma_same_walks(s: TraversalView, s2: TraversalView)
    requires
        wf_core(s),
        same_walks(s, s2),
    ensures
        wf_core(s2),
{
    assert forall|i: int| 0 <= i < s2.dirs.len() implies !ignored(s2.ignore, #[trigger] s2.dirs[i].source_dir) by {
        assert(s.dirs[i].source_dir == s2.dirs[i].source_dir);
    }
    assert forall|i: int| 0 <= i < s2.swaps.len() implies staged_pair(s2.sources, s2.target, #[trigger] s2.swaps[i]) by {
    }
    if let Some((root, name)) = s.current {
        assert forall|i: int| 0 <= i < s2.dirs.len() implies {
            &&& #[trigger] s2.dirs[i].source_dir == walk(root, s2.dirs[i].rel)
            &&& s2.dirs[i].target_dir == walk(staging_root(s2.target, name), s2.dirs[i].rel)
        } by {
            assert(s.dirs[i].source_dir == walk(root, s.dirs[i].rel));
        }
    }
}

proof fn lemma_advance_wf(s: TraversalView)
    requires
        wf_core(s),
    ensures
        wf(advance(s).0),
    decreases sources_left(s), open_dirs(s), entries_left(s),
{
    if s.dirs.len() > 0 {
        let top = s.dirs.last();
        if top.next < top.names.len() {
            let s2 = TraversalView {
                dirs: s.dirs.drop_last().push(WalkView { next: top.next + 1, ..top }),
                ..s
            };
            assert(same_walks(s, s2)) by {
                assert forall|i: int| 0 <= i < s2.dirs.len() implies {
                    &&& (#[trigger] s2.dirs[i]).source_dir == s.dirs[i].source_dir
                    &&& s2.dirs[i].target_dir == s.dirs[i].target_dir
                    &&& s2.dirs[i].rel == s.dirs[i].rel
                    &&& s2.dirs[i].next <= s2.dirs[i].names.len()
                } by {
                    if i < s.dirs.len() - 1 {
                        assert(s2.dirs[i] == s.dirs[i]);
                    }
                }
            }
            lemma_same_walks(s, s2);
            if ignored(s.ignore, path_join(top.source_dir, top.names[top.next as int])) {
                lemma_advance_wf(s2);
                assert(wf(advance(s).0));
            } else {
                assert(wf(advance(s).0));
            }
        } else if top.failure is Some {
            assert(wf(advance(s).0));
        } else {
            let s2 = TraversalView { dirs: s.dirs.drop_last(), ..s };
            assert(same_walks(s, s2)) by {
                assert forall|i: int| 0 <= i < s2.dirs.len() implies {
                    &&& (#[trigger] s2.dirs[i]).source_dir == s.dirs[i].source_dir
                    &&& s2.dirs[i].target_dir == s.dirs[i].target_dir
                    &&& s2.dirs[i].rel == s.dirs[i].rel
                    &&& s2.dirs[i].next <= s2.dirs[i].names.len()
                } by {
                    assert(s2.dirs[i] == s.dirs[i]);
                }
            }
            lemma_same_walks(s, s2);
            lemma_advance_wf(s2);
            assert(wf(advance(s).0));
        }
    } else if s.current is Some {
        let (path, name) = s.current.unwrap();
        let s2 = TraversalView {
            swaps: s.swaps.push((staging_path(s.target, name), final_path(s.target, name))),
            current: None,
            ..s
        };
        assert forall|i: int| 0 <= i < s2.swaps.len() implies staged_pair(s2.sources, s2.target, #[trigger] s2.swaps[i]) by {
            if i < s.swaps.len() {
                assert(s2.swaps[i] == s.swaps[i]);
            } else {
                assert(s.sources.contains(path) && path_file_name(path) == Some(name));
                assert(s2.swaps[i] == (staging_path(s2.target, name), final_path(s2.target, name)));
            }
        }
        lemma_advance_wf(s2);
        assert(wf(advance(s).0));
    } else if s.next_source < s.sources.len() {
        let path = s.sources[s.next_source as int];
        let s2 = TraversalView { next_source: s.next_source + 1, ..s };
        assert(same_walks(s, s2));
        lemma_same_walks(s, s2);
        if ignored(s.ignore, path) {
            lemma_advance_wf(s2);
            assert(wf(advance(s).0));
        } else {
            assert(s.sources.contains(path));
            assert(wf(advance(s).0));
        }
    } else {
        assert(wf(advance(s).0));
    }
}

proof fn lemma_walk_push(base: Seq<char>, rel: Seq<Seq<char>>, name: Seq<char>)
    ensures
        walk(base, rel.push(name)) == path_join(walk(base, rel), name),
{
    assert(rel.push(name).drop_last() =~= rel);
}

pub(crate) proof fn lemma_step_wf(s: TraversalView, reply: ReplyView)
    requires
        wf(s),
        accepts_spec(s, reply),
    ensures
        wf(step_spec(s, reply).0),
{
    match s.stage {
        Stage::Ready => {
            lemma_advance_wf(s);
            assert(wf(step_spec(s, reply).0));
        },
        Stage::Sent => {
            if !(reply is Failed) {
                lemma_advance_wf(s);
            }
        },
        Stage::DirListed => {
            if let Reply::Listing(names, failure) = reply {
                let top = s.dirs.last();
                let s2 = TraversalView {
                    dirs: s.dirs.drop_last().push(WalkView { names: names, failure: failure, ..top }),
                    ..s
                };
                assert(same_walks(s, s2)) by {
                    assert forall|i: int| 0 <= i < s2.dirs.len() implies {
                        &&& (#[trigger] s2.dirs[i]).source_dir == s.dirs[i].source_dir
                        &&& s2.dirs[i].target_dir == s.dirs[i].target_dir
                        &&& s2.dirs[i].rel == s.dirs[i].rel
                        &&& s2.dirs[i].next <= s2.dirs[i].names.len()
                    } by {
                        if i < s.dirs.len() - 1 {
                            assert(s2.dirs[i] == s.dirs[i]);
                        }
                    }
                }
                lemma_same_walks(s, s2);
                lemma_advance_wf(s2);
            }
        },
        Stage::StagingExists(path, name) | Stage::StagingRemoved(path, name) => {
            if !(reply is Failed) && !(reply == Reply::<Seq<char>, Seq<Seq<char>>>::Answer(true) && s.stage is StagingExists) {
                let s2 = begin_walk(s, path, name).0;
                assert(s.dirs.len() == 0);
                assert forall|i: int| 0 <= i < s2.swaps.len() implies staged_pair(s2.sources, s2.target, #[trigger] s2.swaps[i]) by {
                }
                assert(s2.dirs[0].rel =~= Seq::<Seq<char>>::empty());
                assert(s2.dirs.last().next == 0);
            }
        },
        Stage::EntryKind(path, name) => {
            if reply == Reply::<Seq<char>, Seq<Seq<char>>>::Answer(true) {
                let s2 = descend(s, path, name).0;
                let top = s.dirs.last();
                let (root, cname) = s.current.unwrap();
                lemma_walk_push(root, top.rel, name);
                lemma_walk_push(staging_root(s.target, cname), top.rel, name);
                assert forall|i: int| 0 <= i < s2.dirs.len() implies {
                    &&& #[trigger] s2.dirs[i].next <= s2.dirs[i].names.len()
                    &&& !ignored(s2.ignore, s2.dirs[i].source_dir)
                    &&& s2.dirs[i].source_dir == walk(root, s2.dirs[i].rel)
                    &&& s2.dirs[i].target_dir == walk(staging_root(s2.target, cname), s2.dirs[i].rel)
                } by {
                    if i < s.dirs.len() {
                        assert(s2.dirs[i] == s.dirs[i]);
                    }
                }
            }
        },
        Stage::SourceExists(path) => {
            assert(wf(step_spec(s, reply).0));
        },
        Stage::SourceKind(path, name) => {
            assert(wf(step_spec(s, reply).0));
        },
        Stage::DirExists => {
            assert(wf(step_spec(s, reply).0));
        },
        Stage::DirCreated => {
            assert(wf(step_spec(s, reply).0));
        },
        Stage::Finished => {
        },
    }
}

// ---------------------------------------------------------------------------
// The executable state machine
// ---------------------------------------------------------------------------

struct Walk {
    source_dir: String,
    target_dir: String,
    names: Vec<String>,
    failure: Option<String>,
    next: usize,
    rel: Ghost<Seq<Seq<char>>>,
}

impl View for Walk {
    type V = WalkView;

    closed spec fn view(&self) -> WalkView {
        WalkView {
            source_dir: self.source_dir@,
            target_dir: self.target_dir@,
            names: strings_view(self.names@),
            failure: option_view(self.failure),
            next: self.next as nat,
            rel: self.rel@,
        }
    }
}

pub open spec fn stage_view(stage: Stage<String>) -> Stage<Seq<char>> {
    match stage {
        Stage::Ready => Stage::Ready,
        Stage::SourceExists(p) => Stage::SourceExists(p@),
        Stage::SourceKind(p, n) => Stage::SourceKind(p@, n@),
        Stage::StagingExists(p, n) => Stage::StagingExists(p@, n@),
        Stage::StagingRemoved(p, n) => Stage::StagingRemoved(p@, n@),
        Stage::Sent => Stage::Sent,
        Stage::DirExists => Stage::DirExists,
        Stage::DirCreated => Stage::DirCreated,
        Stage::DirListed => Stage::DirListed,
        Stage::EntryKind(p, n) => Stage::EntryKind(p@, n@),
        Stage::Finished => Stage::Finished,
    }
}

/// A traversal of the backup sources: it decides, one file-system request at
/// a time, which sources and directory entries are looked at, where each
/// file is sent to be copied, and which directories are staged for the
/// final swap.
pub struct Traversal {
    target: String,
    ignore: Option<IgnorePattern>,
    sources: Vec<String>,
    next_source: usize,
    swaps: Vec<(String, String)>,
    dirs: Vec<Walk>,
    current: Option<(String, String)>,
    stage: Stage<String>,
}

impl View for Traversal {
    type V = TraversalView;

    closed spec fn view(&self) -> TraversalView {
        TraversalView {
            target: self.target@,
            ignore: pattern_text(self.ignore),
            sources: strings_view(self.sources@),
            next_source: self.next_source as nat,
            swaps: pairs_view(self.swaps@),
            dirs: self.dirs@.map_values(|w: Walk| w@),
            current: match self.current {
                Some((p, n)) => Some((p@, n@)),
                None => None,
            },
            stage: stage_view(self.stage),
        }
    }
}

/// Starts a traversal of `source` that copies into `target`, passing over
/// every path that `ignore` matches.
pub fn traverse_sources(source: Vec<String>, target: String, ignore: Option<IgnorePattern>) -> (traversal: Traversal)
    ensures
        traversal@ == initial(strings_view(source@), target@, pattern_text(ignore)),
        wf(traversal@),
{
    let traversal = Traversal {
        target,
        ignore,
        sources: source,
        next_source: 0,
        swaps: Vec::new(),
        dirs: Vec::new(),
        current: None,
        stage: Stage::Ready,
    };
    proof {
        assert(traversal@.swaps =~= Seq::empty());
        assert(traversal@.dirs =~= Seq::empty());
    }
    traversal
}

impl Traversal {
    /// Whether `reply` answers what this traversal asked last.
    pub fn accepts(&self, reply: &TraversalReply) -> (ok: bool)
        ensures
            ok == accepts_spec(self@, reply@),
    {
        match self.stage {
            Stage::Ready => reply.is_proceed(),
            Stage::SourceExists(_) | Stage::SourceKind(_, _) | Stage::EntryKind(_, _) =>
                reply.is_answer() || reply.is_failed(),
            Stage::StagingExists(_, _) | Stage::DirExists => reply.is_answer(),
            Stage::StagingRemoved(_, _) | Stage::DirCreated | Stage::Sent =>
                reply.is_proceed() || reply.is_failed(),
            Stage::DirListed => reply.is_listing() || reply.is_failed(),
            Stage::Finished => false,
        }
    }

    /// Takes the driver's `reply` to the last request and returns the next
    /// request.
    pub fn step(&mut self, reply: TraversalReply) -> (request: TraversalRequest)
        requires
            wf(old(self)@),
            accepts_spec(old(self)@, reply@),
        ensures
            (final(self)@, request@) == step_spec(old(self)@, reply@),
            wf(final(self)@),
    {
        let ghost before = self@;
        let request = match &self.stage {
            Stage::Ready => self.advance(),
            Stage::SourceExists(path) => {
                let path = path.clone();
                match reply {
                    Reply::Answer(true) => match file_name(path.as_str()) {
                        Some(name) => {
                            self.stage = Stage::SourceKind(path.clone(), name);
                            Request::Inspect(path)
                        },
                        None => self.finish(FSErrors::ReadFileError {
                            source_path: path,
                            err: String::from_str("Failed reading file/dir name"),
                        }),
                    },
                    Reply::Answer(false) => self.finish(FSErrors::NotFound {
                        source_path: path,
                        err: String::from_str("Source path does not exist"),
                    }),
                    Reply::Failed(err) => self.finish(FSErrors::NotFound { source_path: path, err }),
                    _ => Request::Finish(Err(FSErrors::OtherError(String::new()))),
                }
            },
            Stage::SourceKind(path, name) => {
                let path = path.clone();
                let name = name.clone();
                match reply {
                    Reply::Answer(true) => {
                        let staging = staging_path_of(&self.target, &name);
                        self.stage = Stage::StagingExists(path, name);
                        Request::Exists(staging)
                    },
                    Reply::Answer(false) => {
                        let final_dir = join(self.target.as_str(), name.as_str());
                        self.stage = Stage::Sent;
                        Request::Send(path, final_dir)
                    },
                    Reply::Failed(err) => self.finish(FSErrors::ReadFileError { source_path: path, err }),
                    _ => Request::Finish(Err(FSErrors::OtherError(String::new()))),
                }
            },
            Stage::StagingExists(path, name) => {
                let path = path.clone();
                let name = name.clone();
                match reply {
                    Reply::Answer(true) => {
                        let staging = staging_path_of(&self.target, &name);
                        self.stage = Stage::StagingRemoved(path, name);
                        Request::RemoveDirAll(staging)
                    },
                    _ => self.begin_walk(path, name),
                }
            },
            Stage::StagingRemoved(path, name) => {
                let path = path.clone();
                let name = name.clone();
                match reply {
                    Reply::Failed(err) => {
                        let staging = staging_path_of(&self.target, &name);
                        self.finish(FSErrors::RemoveFileError { source_path: staging, err })
                    },
                    _ => self.begin_walk(path, name),
                }
            },
            Stage::Sent => match reply {
                Reply::Failed(err) => {
                    let mut message = String::from_str("Failed sending backup command: ");
                    message.append(err.as_str());
                    self.finish(FSErrors::OtherError(message))
                },
                _ => self.advance(),
            },
            Stage::DirExists => match reply {
                Reply::Answer(true) => self.list_top(),
                _ => {
                    let last = self.dirs.len() - 1;
                    let target_dir = self.dirs[last].target_dir.clone();
                    self.stage = Stage::DirCreated;
                    Request::CreateDirAll(target_dir)
                },
            },
            Stage::DirCreated => match reply {
                Reply::Failed(err) => {
                    let last = self.dirs.len() - 1;
                    let target_path = self.dirs[last].target_dir.clone();
                    self.finish(FSErrors::CreateFileError { target_path, err })
                },
                _ => self.list_top(),
            },
            Stage::DirListed => match reply {
                Reply::Listing(names, failure) => {
                    let mut top = self.dirs.pop().unwrap();
                    top.names = names;
                    top.failure = failure;
                    self.dirs.push(top);
                    proof {
                        let b = before.dirs.last();
                        assert(self@.dirs =~= before.dirs.drop_last().push(
                            WalkView { names: strings_view(names@), failure: option_view(failure), ..b }));
                    }
                    self.advance()
                },
                Reply::Failed(err) => {
                    let last = self.dirs.len() - 1;
                    let source_path = self.dirs[last].source_dir.clone();
                    self.finish(FSErrors::ReadDirError { source_path, err })
                },
                _ => Request::Finish(Err(FSErrors::OtherError(String::new()))),
            },
            Stage::EntryKind(path, name) => {
                let path = path.clone();
                let name = name.clone();
                match reply {
                    Reply::Answer(true) => self.descend(path, name),
                    Reply::Answer(false) => {
                        let last = self.dirs.len() - 1;
                        let target = join(self.dirs[last].target_dir.as_str(), name.as_str());
                        self.stage = Stage::Sent;
                        Request::Send(path, target)
                    },
                    Reply::Failed(err) => self.finish(FSErrors::ReadFileError { source_path: path, err }),
                    _ => Request::Finish(Err(FSErrors::OtherError(String::new()))),
                }
            },
            Stage::Finished => Request::Finish(Err(FSErrors::OtherError(String::new()))),
        };
        proof {
            reveal_strlit("Failed reading file/dir name");
            reveal_strlit("Source path does not exist");
            reveal_strlit("Failed sending backup command: ");
            lemma_step_wf(before, reply@);
        }
        request
    }

    fn begin_walk(&mut self, path: String, name: String) -> (request: TraversalRequest)
        ensures
            (final(self)@, request@) == begin_walk(old(self)@, path@, name@),
    {
        let ghost before = self@;
        let staging = staging_path_of(&self.target, &name);
        let root = join(staging.as_str(), "");
        let walk = Walk {
            source_dir: path.clone(),
            target_dir: root.clone(),
            names: Vec::new(),
            failure: None,
            next: 0,
            rel: Ghost(Seq::empty()),
        };
        self.dirs.push(walk);
        self.current = Some((path, name));
        self.stage = Stage::DirExists;
        proof {
            reveal_strlit("");
            assert(""@ =~= Seq::<char>::empty());
            assert(root@ == staging_root(before.target, name@));
            assert(walk@.names =~= Seq::empty());
            assert(self@.dirs =~= before.dirs.push(walk@));
            assert(self@.current == Some((path@, name@)));
        }
        Request::Exists(root)
    }

    fn descend(&mut self, path: String, name: String) -> (request: TraversalRequest)
        requires
            old(self).dirs.len() > 0,
        ensures
            (final(self)@, request@) == descend(old(self)@, path@, name@),
    {
        let ghost before = self@;
        let last = self.dirs.len() - 1;
        let target = join(self.dirs[last].target_dir.as_str(), name.as_str());
        let ghost rel = self.dirs[last as int].rel@.push(name@);
        let walk = Walk {
            source_dir: path,
            target_dir: target.clone(),
            names: Vec::new(),
            failure: None,
            next: 0,
            rel: Ghost(rel),
        };
        self.dirs.push(walk);
        self.stage = Stage::DirExists;
        proof {
            assert(walk@.names =~= Seq::empty());
            assert(self@.dirs =~= before.dirs.push(walk@));
        }
        Request::Exists(target)
    }

    fn list_top(&mut self) -> (request: TraversalRequest)
        requires
            old(self).dirs.len() > 0,
        ensures
            (final(self)@, request@) == list_top(old(self)@),
    {
        let last = self.dirs.len() - 1;
        let source_dir = self.dirs[last].source_dir.clone();
        self.stage = Stage::DirListed;
        Request::ReadDir(source_dir)
    }

    fn finish(&mut self, outcome: FSErrors) -> (request: TraversalRequest)
        ensures
            (final(self)@, request@) == finished(old(self)@, Err(outcome@)),
    {
        self.stage = Stage::Finished;
        Request::Finish(Err(outcome))
    }

    fn finish_ok(&mut self) -> (request: TraversalRequest)
        ensures
            (final(self)@, request@) == finished_ok(old(self)@),
    {
        let mut swaps: Vec<(String, String)> = Vec::new();
        std::mem::swap(&mut swaps, &mut self.swaps);
        self.stage = Stage::Finished;
        proof {
            assert(self@.swaps =~= Seq::empty());
        }
        Request::Finish(Ok(swaps))
    }

    fn advance(&mut self) -> (request: TraversalRequest)
        ensures
            (final(self)@, request@) == advance(old(self)@),
    {
        let ghost start = self@;
        loop
            invariant
                advance(self@) == advance(start),
                start == old(self)@,
            decreases sources_left(self@), open_dirs(self@), entries_left(self@),
        {
            let ghost before = self@;
            if self.dirs.len() > 0 {
                let mut top = self.dirs.pop().unwrap();
                proof {
                    assert(self@.dirs =~= before.dirs.drop_last());
                    assert(top@ == before.dirs.last());
                }
                if top.next < top.names.len() {
                    let name = top.names[top.next].clone();
                    top.next = top.next + 1;
                    let path = join(top.source_dir.as_str(), name.as_str());
                    self.dirs.push(top);
                    proof {
                        let b = before.dirs.last();
                        assert(self@.dirs =~= before.dirs.drop_last().push(WalkView { next: b.next + 1, ..b }));
                    }
                    if is_ignored(&self.ignore, path.as_str()) {
                        continue;
                    }
                    self.stage = Stage::EntryKind(path.clone(), name);
                    return Request::Inspect(path);
                } else if top.failure.is_some() {
                    let err = match &top.failure {
                        Some(e) => e.clone(),
                        None => String::new(),
                    };
                    let source_path = top.source_dir.clone();
                    self.dirs.push(top);
                    proof {
                        assert(self@.dirs =~= before.dirs);
                    }
                    return self.finish(FSErrors::ReadFileError { source_path, err });
                } else {
                    continue;
                }
            } else if self.current.is_some() {
                let name = match self.current.take() {
                    Some((_, n)) => n,
                    None => String::new(),
                };
                let staging = staging_path_of(&self.target, &name);
                let final_dir = join(self.target.as_str(), name.as_str());
                self.swaps.push((staging, final_dir));
                proof {
                    assert(self@.swaps =~= before.swaps.push(
                        (staging_path(before.target, before.current.unwrap().1), final_path(before.target, before.current.unwrap().1))));
                }
                continue;
            } else if self.next_source < self.sources.len() {
                let path = self.sources[self.next_source].clone();
                self.next_source = self.next_source + 1;
                if is_ignored(&self.ignore, path.as_str()) {
                    continue;
                }
                self.stage = Stage::SourceExists(path.clone());
                return Request::TryExists(path);
            } else {
                assert(before.dirs.len() == 0);
                assert(before.current is None);
                assert(!(before.next_source < before.sources.len()));
                return self.finish_ok();
            }
        }
    }
}

/// `<target>/<name>.backup`.
fn staging_path_of(target: &String, name: &String) -> (staging: String)
    ensures
        staging@ == staging_path(target@, name@),
{
    let mut staged_name = name.clone();
    staged_name.append(STAGING_SUFFIX);
    join(target.as_str(), staged_name.as_str())
}

impl Reply<String, Vec<String>> {
    pub fn is_proceed(&self) -> (b: bool)
        ensures
            b == (self@ is Proceed),
    {
        match self {
            Reply::Proceed => true,
            _ => false,
        }
    }

    pub fn is_answer(&self) -> (b: bool)
        ensures
            b == (self@ is Answer),
    {
        match self {
            Reply::Answer(_) => true,
            _ => false,
        }
    }

    pub fn is_listing(&self) -> (b: bool)
        ensures
            b == (self@ is Listing),
    {
        match self {
            Reply::Listing(_, _) => true,
            _ => false,
        }
    }

    pub fn is_failed(&self) -> (b: bool)
        ensures
            b == (self@ is Failed),
    {
        match self {
            Reply::Failed(_) => true,
            _ => false,
        }
    }
}


// ---------------------------------------------------------------------------
// Laws of the traversal
// ---------------------------------------------------------------------------

proof fn lemma_advance_outcome(s: TraversalView)
    requires
        wf_core(s),
    ensures
        advance(s).1 is TryExists || advance(s).1 is Inspect || advance(s).1 is Finish,
        advance(s).1 matches Request::TryExists(p) ==> admitted_source(s, p),
        advance(s).1 matches Request::Inspect(p) ==> !ignored(s.ignore, p),
        advance(s).1 matches Request::Finish(Ok(swaps)) ==> {
            &&& forall|i: int| 0 <= i < swaps.len() ==> staged_pair(s.sources, s.target, #[trigger] swaps[i])
            &&& advance(s).0.next_source == s.sources.len()
            &&& advance(s).0.dirs.len() == 0
        },
    decreases sources_left(s), open_dirs(s), entries_left(s),
{
    lemma_advance_wf(s);
    if s.dirs.len() > 0 {
        let top = s.dirs.last();
        if top.next < top.names.len() {
            let s2 = TraversalView {
                dirs: s.dirs.drop_last().push(WalkView { next: top.next + 1, ..top }),
                ..s
            };
            assert(same_walks(s, s2)) by {
                assert forall|i: int| 0 <= i < s2.dirs.len() implies {
                    &&& (#[trigger] s2.dirs[i]).source_dir == s.dirs[i].source_dir
                    &&& s2.dirs[i].target_dir == s.dirs[i].target_dir
                    &&& s2.dirs[i].rel == s.dirs[i].rel
                    &&& s2.dirs[i].next <= s2.dirs[i].names.len()
                } by {
                    if i < s.dirs.len() - 1 {
                        assert(s2.dirs[i] == s.dirs[i]);
                    }
                }
            }
            lemma_same_walks(s, s2);
            if ignored(s.ignore, path_join(top.source_dir, top.names[top.next as int])) {
                lemma_advance_outcome(s2);
            }
        } else if top.failure is Some {
        } else {
            let s2 = TraversalView { dirs: s.dirs.drop_last(), ..s };
            assert(same_walks(s, s2)) by {
                assert forall|i: int| 0 <= i < s2.dirs.len() implies {
                    &&& (#[trigger] s2.dirs[i]).source_dir == s.dirs[i].source_dir
                    &&& s2.dirs[i].target_dir == s.dirs[i].target_dir
                    &&& s2.dirs[i].rel == s.dirs[i].rel
                    &&& s2.dirs[i].next <= s2.dirs[i].names.len()
                } by {
                    assert(s2.dirs[i] == s.dirs[i]);
                }
            }
            lemma_same_walks(s, s2);
            lemma_advance_outcome(s2);
        }
    } else if s.current is Some {
        let (path, name) = s.current.unwrap();
        let s2 = TraversalView {
            swaps: s.swaps.push((staging_path(s.target, name), final_path(s.target, name))),
            current: None,
            ..s
        };
        assert forall|i: int| 0 <= i < s2.swaps.len() implies staged_pair(s2.sources, s2.target, #[trigger] s2.swaps[i]) by {
            if i < s.swaps.len() {
                assert(s2.swaps[i] == s.swaps[i]);
            } else {
                assert(s.sources.contains(path) && path_file_name(path) == Some(name));
                assert(s2.swaps[i] == (staging_path(s2.target, name), final_path(s2.target, name)));
            }
        }
        lemma_advance_outcome(s2);
    } else if s.next_source < s.sources.len() {
        let path = s.sources[s.next_source as int];
        let s2 = TraversalView { next_source: s.next_source + 1, ..s };
        assert(same_walks(s, s2));
        lemma_same_walks(s, s2);
        if ignored(s.ignore, path) {
            lemma_advance_outcome(s2);
        } else {
            assert(s.sources.contains(path));
        }
    }
}

/// A traversal that starts out well formed stays well formed: every state a
/// driver can reach by answering the requests satisfies [`wf`].
pub proof fn law_invariant_kept(s: TraversalView, reply: ReplyView)
    requires
        wf(s),
        accepts_spec(s, reply),
    ensures
        wf(step_spec(s, reply).0),
{
    lemma_step_wf(s, reply);
}

/// The only directory a traversal ever asks to delete is the staging
/// directory `<target>/<name>.backup` of one of its sources: a previous
/// backup in `<target>/<name>` is never deleted while copying.
pub proof fn law_removes_only_staging(s: TraversalView, reply: ReplyView)
    requires
        wf(s),
        accepts_spec(s, reply),
    ensures
        step_spec(s, reply).1 matches Request::RemoveDirAll(p) ==> exists|src: Seq<char>, name: Seq<char>|
            s.sources.contains(src) && path_file_name(src) == Some(name) && p == staging_path(s.target, name),
{
    if let Stage::StagingExists(path, name) = s.stage {
        if reply == Reply::<Seq<char>, Seq<Seq<char>>>::Answer(true) {
            assert(s.sources.contains(path) && path_file_name(path) == Some(name));
        }
    }
    match s.stage {
        Stage::Ready => lemma_advance_outcome(s),
        Stage::Sent => lemma_advance_outcome(s),
        Stage::DirListed => {
            if let Reply::Listing(names, failure) = reply {
                let top = s.dirs.last();
                let s2 = TraversalView {
                    dirs: s.dirs.drop_last().push(WalkView { names: names, failure: failure, ..top }),
                    ..s
                };
                lemma_listing_keeps(s, names, failure);
                lemma_advance_outcome(s2);
            }
        },
        _ => {},
    }
}

proof fn lemma_listing_keeps(s: TraversalView, names: Seq<Seq<char>>, failure: Option<Seq<char>>)
    requires
        wf(s),
        s.stage is DirListed,
    ensures
        wf_core(TraversalView {
            dirs: s.dirs.drop_last().push(WalkView { names: names, failure: failure, ..s.dirs.last() }),
            ..s
        }),
{
    let top = s.dirs.last();
    let s2 = TraversalView {
        dirs: s.dirs.drop_last().push(WalkView { names: names, failure: failure, ..top }),
        ..s
    };
    assert(same_walks(s, s2)) by {
        assert forall|i: int| 0 <= i < s2.dirs.len() implies {
            &&& (#[trigger] s2.dirs[i]).source_dir == s.dirs[i].source_dir
            &&& s2.dirs[i].target_dir == s.dirs[i].target_dir
            &&& s2.dirs[i].rel == s.dirs[i].rel
            &&& s2.dirs[i].next <= s2.dirs[i].names.len()
        } by {
            if i < s.dirs.len() - 1 {
                assert(s2.dirs[i] == s.dirs[i]);
            }
        }
    }
    lemma_same_walks(s, s2);
}

/// A path that the ignore pattern matches is never looked at, listed or
/// copied: every path the traversal asks about is one the pattern lets
/// through.
pub proof fn law_ignored_untouched(s: TraversalView, reply: ReplyView)
    requires
        wf(s),
        accepts_spec(s, reply),
    ensures
        match step_spec(s, reply).1 {
            Request::TryExists(p) => !ignored(s.ignore, p),
            Request::Inspect(p) => !ignored(s.ignore, p),
            Request::ReadDir(p) => !ignored(s.ignore, p),
            Request::Send(p, _) => !ignored(s.ignore, p),
            _ => true,
        },
{
    match s.stage {
        Stage::Ready => lemma_advance_outcome(s),
        Stage::Sent => lemma_advance_outcome(s),
        Stage::DirListed => {
            if let Reply::Listing(names, failure) = reply {
                lemma_listing_keeps(s, names, failure);
                lemma_advance_outcome(TraversalView {
                    dirs: s.dirs.drop_last().push(WalkView { names: names, failure: failure, ..s.dirs.last() }),
                    ..s
                });
            }
        },
        Stage::DirExists | Stage::DirCreated => {
            assert(!ignored(s.ignore, s.dirs[s.dirs.len() - 1].source_dir));
        },
        _ => {},
    }
}

/// Copying mirrors the sources. A file source is sent straight to
/// `<target>/<name>`; a file inside a directory source is sent into the
/// source's staging directory, at the place reached by the same entry names
/// as the file is reached from the source. Directories are only ever created
/// inside a staging directory, at the place mirroring the directory walked.
pub proof fn law_copies_mirror_sources(s: TraversalView, reply: ReplyView)
    requires
        wf(s),
        accepts_spec(s, reply),
    ensures
        step_spec(s, reply).1 matches Request::Send(src, dst) ==> {
            ||| exists|name: Seq<char>|
                s.sources.contains(src) && path_file_name(src) == Some(name) && dst == final_path(s.target, name)
            ||| exists|root: Seq<char>, name: Seq<char>, rel: Seq<Seq<char>>|
                s.current == Some((root, name)) && rel.len() > 0
                    && src == walk(root, rel) && dst == walk(staging_root(s.target, name), rel)
        },
        step_spec(s, reply).1 matches Request::CreateDirAll(p) ==> exists|root: Seq<char>, name: Seq<char>, rel: Seq<Seq<char>>|
            s.current == Some((root, name)) && p == walk(staging_root(s.target, name), rel),
{
    match s.stage {
        Stage::Ready => lemma_advance_outcome(s),
        Stage::Sent => lemma_advance_outcome(s),
        Stage::DirListed => {
            if let Reply::Listing(names, failure) = reply {
                lemma_listing_keeps(s, names, failure);
                lemma_advance_outcome(TraversalView {
                    dirs: s.dirs.drop_last().push(WalkView { names: names, failure: failure, ..s.dirs.last() }),
                    ..s
                });
            }
        },
        Stage::SourceKind(path, name) => {
            assert(s.sources.contains(path) && path_file_name(path) == Some(name));
        },
        Stage::DirExists => {
            let top = s.dirs[s.dirs.len() - 1];
            let (root, name) = s.current.unwrap();
            assert(top.target_dir == walk(staging_root(s.target, name), top.rel));
        },
        Stage::EntryKind(path, name) => {
            let top = s.dirs[s.dirs.len() - 1];
            let (root, cname) = s.current.unwrap();
            lemma_walk_push(root, top.rel, name);
            lemma_walk_push(staging_root(s.target, cname), top.rel, name);
            let rel = top.rel.push(name);
            assert(path == walk(root, rel));
            assert(path_join(top.target_dir, name) == walk(staging_root(s.target, cname), rel));
        },
        _ => {},
    }
}

/// A traversal reports success only once every source has been handled and
/// every walked directory closed; the pairs it hands back each name the
/// staging directory and the final directory of one same source.
pub proof fn law_outcome_pairs(s: TraversalView, reply: ReplyView)
    requires
        wf(s),
        accepts_spec(s, reply),
    ensures
        step_spec(s, reply).1 matches Request::Finish(Ok(swaps)) ==> {
            &&& forall|i: int| 0 <= i < swaps.len() ==> staged_pair(s.sources, s.target, #[trigger] swaps[i])
            &&& step_spec(s, reply).0.next_source == s.sources.len()
            &&& step_spec(s, reply).0.dirs.len() == 0
        },
{
    match s.stage {
        Stage::Ready => lemma_advance_outcome(s),
        Stage::Sent => lemma_advance_outcome(s),
        Stage::DirListed => {
            if let Reply::Listing(names, failure) = reply {
                lemma_listing_keeps(s, names, failure);
                lemma_advance_outcome(TraversalView {
                    dirs: s.dirs.drop_last().push(WalkView { names: names, failure: failure, ..s.dirs.last() }),
                    ..s
                });
            }
        },
        _ => {},
    }
}

/// The path of the entry `j` of the walked directory `w`.
pub open spec fn entry_path(w: WalkView, j: int) -> Seq<char> {
    path_join(w.source_dir, w.names[j])
}

/// The entries of a directory are taken up in the order they were listed,
/// and only ignored ones are passed over: after a copy command or a listing,
/// the next request is about the first entry not yet handled that the
/// ignore pattern lets through.
pub proof fn law_entries_in_order(s: TraversalView, j: int)
    requires
        wf_core(s),
        s.dirs.len() > 0,
        s.dirs.last().next <= j < s.dirs.last().names.len(),
        forall|k: int| s.dirs.last().next <= k < j ==> ignored(s.ignore, #[trigger] entry_path(s.dirs.last(), k)),
        !ignored(s.ignore, entry_path(s.dirs.last(), j)),
    ensures
        advance(s).1 == Request::<Seq<char>, Result<Seq<(Seq<char>, Seq<char>)>, ErrorView>>::Inspect(
            entry_path(s.dirs.last(), j),
        ),
        advance(s).0.dirs.len() == s.dirs.len(),
        advance(s).0.dirs.last() == (WalkView { next: (j + 1) as nat, ..s.dirs.last() }),
    decreases j - s.dirs.last().next,
{
    let top = s.dirs.last();
    let s2 = TraversalView {
        dirs: s.dirs.drop_last().push(WalkView { next: top.next + 1, ..top }),
        ..s
    };
    if top.next < j {
        assert(ignored(s.ignore, entry_path(top, top.next as int)));
        assert(same_walks(s, s2)) by {
            assert forall|i: int| 0 <= i < s2.dirs.len() implies {
                &&& (#[trigger] s2.dirs[i]).source_dir == s.dirs[i].source_dir
                &&& s2.dirs[i].target_dir == s.dirs[i].target_dir
                &&& s2.dirs[i].rel == s.dirs[i].rel
                &&& s2.dirs[i].next <= s2.dirs[i].names.len()
            } by {
                if i < s.dirs.len() - 1 {
                    assert(s2.dirs[i] == s.dirs[i]);
                }
            }
        }
        lemma_same_walks(s, s2);
        assert(s2.dirs.last() == WalkView { next: top.next + 1, ..top });
        assert forall|k: int| s2.dirs.last().next <= k < j implies ignored(s2.ignore, #[trigger] entry_path(s2.dirs.last(), k)) by {
            assert(entry_path(s2.dirs.last(), k) == entry_path(top, k));
        }
        assert(entry_path(s2.dirs.last(), j) == entry_path(top, j));
        law_entries_in_order(s2, j);
    } else {
        assert(entry_path(top, j) == path_join(top.source_dir, top.names[top.next as int]));
    }
}

/// A directory whose remaining entries are all ignored is closed without
/// another request about it: the traversal goes on with its parent (or
/// fails with the error that cut its listing short).
pub proof fn law_exhausted_directory_closes(s: TraversalView)
    requires
        wf_core(s),
        s.dirs.len() > 0,
        forall|k: int| s.dirs.last().next <= k < s.dirs.last().names.len()
            ==> ignored(s.ignore, #[trigger] entry_path(s.dirs.last(), k)),
    ensures
        ({
            let top = s.dirs.last();
            let done = TraversalView {
                dirs: s.dirs.drop_last().push(WalkView { next: top.names.len(), ..top }),
                ..s
            };
            advance(s) == match top.failure {
                Some(err) => finished(done, Err(ErrorView::ReadFileError { source_path: top.source_dir, err })),
                None => advance(TraversalView { dirs: s.dirs.drop_last(), ..s }),
            }
        }),
    decreases s.dirs.last().names.len() - s.dirs.last().next,
{
    let top = s.dirs.last();
    if top.next < top.names.len() {
        let s2 = TraversalView {
            dirs: s.dirs.drop_last().push(WalkView { next: top.next + 1, ..top }),
            ..s
        };
        assert(ignored(s.ignore, entry_path(top, top.next as int)));
        assert(same_walks(s, s2)) by {
            assert forall|i: int| 0 <= i < s2.dirs.len() implies {
                &&& (#[trigger] s2.dirs[i]).source_dir == s.dirs[i].source_dir
                &&& s2.dirs[i].target_dir == s.dirs[i].target_dir
                &&& s2.dirs[i].rel == s.dirs[i].rel
                &&& s2.dirs[i].next <= s2.dirs[i].names.len()
            } by {
                if i < s.dirs.len() - 1 {
                    assert(s2.dirs[i] == s.dirs[i]);
                }
            }
        }
        lemma_same_walks(s, s2);
        assert(s2.dirs.last() == WalkView { next: top.next + 1, ..top });
        assert forall|k: int| s2.dirs.last().next <= k < s2.dirs.last().names.len()
            implies ignored(s2.ignore, #[trigger] entry_path(s2.dirs.last(), k)) by {
            assert(entry_path(s2.dirs.last(), k) == entry_path(top, k));
        }
        law_exhausted_directory_closes(s2);
        assert(s2.dirs.drop_last() =~= s.dirs.drop_last());
        assert(s2.dirs.drop_last().push(WalkView { next: top.names.len(), ..s2.dirs.last() })
            =~= s.dirs.drop_last().push(WalkView { next: top.names.len(), ..top }));
    } else {
        assert(s.dirs.drop_last().push(WalkView { next: top.names.len(), ..top }) =~= s.dirs);
    }
}

} // verus!
