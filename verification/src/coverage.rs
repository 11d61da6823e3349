use vstd::prelude::*;

use crate::errors::ErrorView;
use crate::paths::{path_file_name, path_join};
use crate::pattern::ignored;
use crate::traverse::{
    accepts_spec, advance, entries_left, final_path, initial, lemma_same_walks, lemma_step_wf,
    open_dirs, same_walks, sources_left, staged_pair, staging_path, staging_root, step_spec, wf, wf_core, Reply,
    ReplyView, Request, RequestView, Stage, TraversalView, WalkView,
};

verus! {

/// A file system that does not change while it is backed up, as the
/// traversal sees it: which paths exist, which are directories, the entry
/// names of each directory in the order they are read, and a depth that
/// every subdirectory has below its parent (the tree is finite).
pub struct FsModel {
    pub exists: spec_fn(Seq<char>) -> bool,
    pub is_dir: spec_fn(Seq<char>) -> bool,
    pub listing: spec_fn(Seq<char>) -> Seq<Seq<char>>,
    pub depth: spec_fn(Seq<char>) -> nat,
}

/// Copy commands `(source, target)`.
pub type Copies = Seq<(Seq<char>, Seq<char>)>;

/// The directory tree of `fs` is finite: a subdirectory lies deeper than the
/// directory that lists it.
pub open spec fn finite_tree(fs: FsModel) -> bool {
    forall|dir: Seq<char>, name: Seq<char>|
        #![trigger (fs.listing)(dir).contains(name), (fs.is_dir)(path_join(dir, name))]
        (fs.is_dir)(dir) && (fs.listing)(dir).contains(name) && (fs.is_dir)(path_join(dir, name))
            ==> (fs.depth)(path_join(dir, name)) < (fs.depth)(dir)
}

pub open spec fn left(len: nat, i: int) -> nat {
    if 0 <= i < len { (len - i) as nat } else { 0 }
}

/// The copy commands for the entry `i` of the directory `dir`, copied into
/// `tdir`: none for an ignored entry, those of its tree for a subdirectory,
/// one for anything else.
pub open spec fn entry_copies(fs: FsModel, ignore: Option<Seq<char>>, dir: Seq<char>, tdir: Seq<char>, i: int) -> Copies
    decreases (fs.depth)(dir), left((fs.listing)(dir).len(), i), 0nat,
{
    if 0 <= i < (fs.listing)(dir).len() {
        let name = (fs.listing)(dir)[i];
        let entry = path_join(dir, name);
        if ignored(ignore, entry) {
            Seq::empty()
        } else if (fs.is_dir)(entry) {
            if (fs.depth)(entry) < (fs.depth)(dir) {
                dir_copies_from(fs, ignore, entry, path_join(tdir, name), 0)
            } else {
                Seq::empty()
            }
        } else {
            seq![(entry, path_join(tdir, name))]
        }
    } else {
        Seq::empty()
    }
}

/// The copy commands for the entries `i..` of the directory `dir`, in order.
pub open spec fn dir_copies_from(fs: FsModel, ignore: Option<Seq<char>>, dir: Seq<char>, tdir: Seq<char>, i: int) -> Copies
    decreases (fs.depth)(dir), left((fs.listing)(dir).len(), i), 1nat,
{
    if 0 <= i < (fs.listing)(dir).len() {
        entry_copies(fs, ignore, dir, tdir, i) + dir_copies_from(fs, ignore, dir, tdir, i + 1)
    } else {
        Seq::empty()
    }
}

/// The copy commands for the source `path`: none when ignored, the tree of a
/// directory copied into its staging root, or the file copied to its final
/// place.
pub open spec fn source_copies(fs: FsModel, ignore: Option<Seq<char>>, target: Seq<char>, path: Seq<char>) -> Copies {
    if ignored(ignore, path) {
        Seq::empty()
    } else {
        match path_file_name(path) {
            Some(name) => if (fs.is_dir)(path) {
                dir_copies_from(fs, ignore, path, staging_root(target, name), 0)
            } else {
                seq![(path, final_path(target, name))]
            },
            None => Seq::empty(),
        }
    }
}

/// The copy commands for the sources `i..`, in order.
pub open spec fn sources_copies(fs: FsModel, ignore: Option<Seq<char>>, target: Seq<char>, sources: Seq<Seq<char>>, i: int) -> Copies
    decreases left(sources.len(), i),
{
    if 0 <= i < sources.len() {
        source_copies(fs, ignore, target, sources[i]) + sources_copies(fs, ignore, target, sources, i + 1)
    } else {
        Seq::empty()
    }
}

/// Every copy command a backup of `sources` into `target` makes on `fs`.
pub open spec fn expected_copies(fs: FsModel, ignore: Option<Seq<char>>, target: Seq<char>, sources: Seq<Seq<char>>) -> Copies {
    sources_copies(fs, ignore, target, sources, 0)
}

/// The answer `fs` gives to what the traversal in state `s` asked.
pub open spec fn reply_for(fs: FsModel, s: TraversalView) -> ReplyView {
    match s.stage {
        Stage::SourceExists(path) => Reply::Answer((fs.exists)(path)),
        Stage::SourceKind(path, _) => Reply::Answer((fs.is_dir)(path)),
        Stage::StagingExists(_, name) => Reply::Answer((fs.exists)(staging_path(s.target, name))),
        Stage::DirExists => Reply::Answer((fs.exists)(s.dirs.last().target_dir)),
        Stage::DirListed => Reply::Listing((fs.listing)(s.dirs.last().source_dir), None),
        Stage::EntryKind(path, _) => Reply::Answer((fs.is_dir)(path)),
        _ => Reply::Proceed,
    }
}

/// The copy command a request makes, if it is one.
pub open spec fn sent(request: RequestView) -> Copies {
    match request {
        Request::Send(from, to) => seq![(from, to)],
        _ => Seq::empty(),
    }
}

/// Runs the traversal from `s` for at most `fuel` steps against `fs`: the
/// copy commands it sends, and the state it stops in.
pub open spec fn run(fs: FsModel, s: TraversalView, fuel: nat) -> (Copies, TraversalView)
    decreases fuel,
{
    if fuel == 0 || s.stage is Finished {
        (Seq::empty(), s)
    } else {
        let (s2, request) = step_spec(s, reply_for(fs, s));
        let (rest, last) = run(fs, s2, (fuel - 1) as nat);
        (sent(request) + rest, last)
    }
}

// ---------------------------------------------------------------------------
// What is still to come from a state
// ---------------------------------------------------------------------------

/// The copy commands still to come from the open directories, innermost
/// first.
pub open spec fn frames_copies(fs: FsModel, ignore: Option<Seq<char>>, dirs: Seq<WalkView>) -> Copies
    decreases dirs.len(),
{
    if dirs.len() == 0 {
        Seq::empty()
    } else {
        dir_copies_from(fs, ignore, dirs.last().source_dir, dirs.last().target_dir, dirs.last().next as int)
            + frames_copies(fs, ignore, dirs.drop_last())
    }
}

pub open spec fn core_copies(fs: FsModel, s: TraversalView) -> Copies {
    frames_copies(fs, s.ignore, s.dirs) + sources_copies(fs, s.ignore, s.target, s.sources, s.next_source as int)
}

/// The copy commands still to come from state `s`.
pub open spec fn pending(fs: FsModel, s: TraversalView) -> Copies {
    match s.stage {
        Stage::Finished => Seq::empty(),
        Stage::SourceExists(path) => source_copies(fs, s.ignore, s.target, path) + core_copies(fs, s),
        Stage::SourceKind(path, _) => source_copies(fs, s.ignore, s.target, path) + core_copies(fs, s),
        Stage::StagingExists(path, name) =>
            dir_copies_from(fs, s.ignore, path, staging_root(s.target, name), 0) + core_copies(fs, s),
        Stage::StagingRemoved(path, name) =>
            dir_copies_from(fs, s.ignore, path, staging_root(s.target, name), 0) + core_copies(fs, s),
        Stage::EntryKind(_, _) => entry_copies(
            fs,
            s.ignore,
            s.dirs.last().source_dir,
            s.dirs.last().target_dir,
            s.dirs.last().next - 1,
        ) + core_copies(fs, s),
        _ => core_copies(fs, s),
    }
}

/// The open directories of `s` as `fs` has them: each is a directory, each
/// listed one (all of them when `top_listed`, else all but the innermost)
/// holds what `fs` lists, each is the entry its parent is at, and the
/// outermost is the directory source being walked, copied into its staging
/// root.
pub open spec fn frames_ok(fs: FsModel, s: TraversalView, top_listed: bool) -> bool {
    &&& forall|i: int| 0 <= i < s.dirs.len() ==> (fs.is_dir)(#[trigger] s.dirs[i].source_dir)
    &&& forall|i: int| 0 <= i < s.dirs.len() && (top_listed || i < s.dirs.len() - 1) ==> {
        &&& (#[trigger] s.dirs[i]).names == (fs.listing)(s.dirs[i].source_dir)
        &&& s.dirs[i].failure is None
    }
    &&& forall|i: int| 1 <= i < s.dirs.len() ==> {
        let parent = s.dirs[i - 1];
        let name = (fs.listing)(parent.source_dir)[parent.next - 1];
        &&& 1 <= parent.next <= (fs.listing)(parent.source_dir).len()
        &&& (#[trigger] s.dirs[i]).source_dir == path_join(parent.source_dir, name)
        &&& s.dirs[i].target_dir == path_join(parent.target_dir, name)
    }
    &&& s.dirs.len() > 0 ==> ({
        let (path, name) = s.current.unwrap();
        &&& s.dirs[0].source_dir == path
        &&& s.dirs[0].target_dir == staging_root(s.target, name)
    })
}

/// What the stage of `s` waits for, as `fs` has it.
pub open spec fn stage_ok(fs: FsModel, s: TraversalView) -> bool {
    match s.stage {
        Stage::SourceExists(path) => s.next_source >= 1 && s.sources[s.next_source - 1] == path,
        Stage::SourceKind(path, name) => s.next_source >= 1 && s.sources[s.next_source - 1] == path,
        Stage::StagingExists(path, name) => (fs.is_dir)(path),
        Stage::StagingRemoved(path, name) => (fs.is_dir)(path),
        Stage::EntryKind(path, name) => {
            let top = s.dirs.last();
            &&& 1 <= top.next <= (fs.listing)(top.source_dir).len()
            &&& name == (fs.listing)(top.source_dir)[top.next - 1]
        },
        _ => true,
    }
}

/// How the state of a traversal driven by `fs` relates to `fs`.
pub open spec fn faithful(fs: FsModel, s: TraversalView) -> bool {
    &&& frames_ok(fs, s, !(s.stage is DirExists || s.stage is DirCreated || s.stage is DirListed))
    &&& stage_ok(fs, s)
}

/// The sources a backup can start on: each one that is not ignored exists
/// and has a file name.
pub open spec fn sound_sources(fs: FsModel, ignore: Option<Seq<char>>, sources: Seq<Seq<char>>) -> bool {
    forall|i: int| 0 <= i < sources.len() && !ignored(ignore, #[trigger] sources[i]) ==> {
        &&& (fs.exists)(sources[i])
        &&& path_file_name(sources[i]) is Some
    }
}

// ---------------------------------------------------------------------------
// Proof that a run sends exactly the expected copy commands
// ---------------------------------------------------------------------------

proof fn lemma_frames_replace_top(fs: FsModel, ignore: Option<Seq<char>>, dirs: Seq<WalkView>, w: WalkView)
    requires
        dirs.len() > 0,
    ensures
        frames_copies(fs, ignore, dirs.drop_last().push(w))
            == dir_copies_from(fs, ignore, w.source_dir, w.target_dir, w.next as int)
                + frames_copies(fs, ignore, dirs.drop_last()),
{
    assert(dirs.drop_last().push(w).drop_last() =~= dirs.drop_last());
}

proof fn lemma_frames_push(fs: FsModel, ignore: Option<Seq<char>>, dirs: Seq<WalkView>, w: WalkView)
    ensures
        frames_copies(fs, ignore, dirs.push(w))
            == dir_copies_from(fs, ignore, w.source_dir, w.target_dir, w.next as int) + frames_copies(fs, ignore, dirs),
{
    assert(dirs.push(w).drop_last() =~= dirs);
}

/// `s2` keeps the open directories of `s` but perhaps the counter of the
/// innermost one, and closes none or the innermost one.
proof fn lemma_frames_ok_kept(fs: FsModel, s: TraversalView, s2: TraversalView)
    requires
        frames_ok(fs, s, true),
        s2.target == s.target,
        s2.current == s.current,
        s2.dirs.len() == s.dirs.len() || s2.dirs.len() + 1 == s.dirs.len(),
        forall|i: int| 0 <= i < s2.dirs.len() ==> {
            &&& (#[trigger] s2.dirs[i]).source_dir == s.dirs[i].source_dir
            &&& s2.dirs[i].target_dir == s.dirs[i].target_dir
            &&& s2.dirs[i].names == s.dirs[i].names
            &&& s2.dirs[i].failure == s.dirs[i].failure
            &&& (i < s2.dirs.len() - 1 || s2.dirs.len() < s.dirs.len() ==> s2.dirs[i].next == s.dirs[i].next)
        },
    ensures
        frames_ok(fs, s2, true),
{
    assert forall|i: int| 1 <= i < s2.dirs.len() implies {
        let parent = s2.dirs[i - 1];
        let name = (fs.listing)(parent.source_dir)[parent.next - 1];
        &&& 1 <= parent.next <= (fs.listing)(parent.source_dir).len()
        &&& (#[trigger] s2.dirs[i]).source_dir == path_join(parent.source_dir, name)
        &&& s2.dirs[i].target_dir == path_join(parent.target_dir, name)
    } by {
        assert(s2.dirs[i - 1].next == s.dirs[i - 1].next);
        assert(s2.dirs[i - 1].source_dir == s.dirs[i - 1].source_dir);
        assert(s.dirs[i].source_dir == s2.dirs[i].source_dir);
    }
    assert forall|i: int| 0 <= i < s2.dirs.len() implies (fs.is_dir)(#[trigger] s2.dirs[i].source_dir) by {
        assert(s.dirs[i].source_dir == s2.dirs[i].source_dir);
    }
    assert forall|i: int| 0 <= i < s2.dirs.len() implies {
        &&& (#[trigger] s2.dirs[i]).names == (fs.listing)(s2.dirs[i].source_dir)
        &&& s2.dirs[i].failure is None
    } by {
        assert(s.dirs[i].names == (fs.listing)(s.dirs[i].source_dir));
    }
    if s2.dirs.len() > 0 {
        assert(s2.dirs[0].source_dir == s.dirs[0].source_dir);
    }
}

proof fn lemma_advance_copies(fs: FsModel, s: TraversalView)
    requires
        wf_core(s),
        frames_ok(fs, s, true),
    ensures
        core_copies(fs, s) == pending(fs, advance(s).0),
        faithful(fs, advance(s).0),
        !(advance(s).1 is Finish) || advance(s).1 matches Request::Finish(Ok(_)),
        advance(s).1 is TryExists || advance(s).1 is Inspect || advance(s).1 is Finish,
        advance(s).0.sources == s.sources,
        advance(s).0.ignore == s.ignore,
    decreases sources_left(s), open_dirs(s), entries_left(s),
{
    let rest = sources_copies(fs, s.ignore, s.target, s.sources, s.next_source as int);
    if s.dirs.len() > 0 {
        let top = s.dirs.last();
        assert(top == s.dirs[s.dirs.len() - 1]);
        assert(top.names == (fs.listing)(top.source_dir));
        if top.next < top.names.len() {
            let name = top.names[top.next as int];
            let path = path_join(top.source_dir, name);
            let top2 = WalkView { next: top.next + 1, ..top };
            let s2 = TraversalView { dirs: s.dirs.drop_last().push(top2), ..s };
            assert(same_walks(s, s2));
            lemma_same_walks(s, s2);
            lemma_frames_ok_kept(fs, s, s2);
            lemma_frames_replace_top(fs, s.ignore, s.dirs, top2);
            assert(frames_copies(fs, s.ignore, s.dirs) == dir_copies_from(fs, s.ignore, top.source_dir, top.target_dir, top.next as int)
                + frames_copies(fs, s.ignore, s.dirs.drop_last()));
            let here = entry_copies(fs, s.ignore, top.source_dir, top.target_dir, top.next as int);
            assert(dir_copies_from(fs, s.ignore, top.source_dir, top.target_dir, top.next as int)
                == here + dir_copies_from(fs, s.ignore, top.source_dir, top.target_dir, top.next + 1int));
            if ignored(s.ignore, path) {
                assert(here =~= Seq::empty());
                assert(core_copies(fs, s) =~= core_copies(fs, s2));
                lemma_advance_copies(fs, s2);
            } else {
                let s3 = TraversalView { stage: Stage::EntryKind(path, name), ..s2 };
                assert(s3.dirs.last() == top2);
                assert(core_copies(fs, s) =~= here + core_copies(fs, s2));
                assert(pending(fs, s3) == here + core_copies(fs, s3));
            }
        } else if top.failure is Some {
        } else {
            let s2 = TraversalView { dirs: s.dirs.drop_last(), ..s };
            assert(same_walks(s, s2));
            lemma_same_walks(s, s2);
            lemma_frames_ok_kept(fs, s, s2);
            assert(dir_copies_from(fs, s.ignore, top.source_dir, top.target_dir, top.next as int) =~= Seq::empty());
            assert(core_copies(fs, s) =~= core_copies(fs, s2));
            lemma_advance_copies(fs, s2);
        }
    } else if s.current is Some {
        let name = s.current.unwrap().1;
        let s2 = TraversalView {
            swaps: s.swaps.push((staging_path(s.target, name), final_path(s.target, name))),
            current: None,
            ..s
        };
        assert(wf_core(s2)) by {
            assert forall|i: int| 0 <= i < s2.swaps.len() implies staged_pair(s2.sources, s2.target, #[trigger] s2.swaps[i]) by {
                if i < s.swaps.len() {
                    assert(s2.swaps[i] == s.swaps[i]);
                } else {
                    let (path, n) = s.current.unwrap();
                    assert(s.sources.contains(path) && path_file_name(path) == Some(n));
                    assert(s2.swaps[i] == (staging_path(s2.target, n), final_path(s2.target, n)));
                }
            }
        }
        assert(core_copies(fs, s) =~= core_copies(fs, s2));
        lemma_advance_copies(fs, s2);
    } else if s.next_source < s.sources.len() {
        let path = s.sources[s.next_source as int];
        let s2 = TraversalView { next_source: s.next_source + 1, ..s };
        assert(same_walks(s, s2));
        lemma_same_walks(s, s2);
        assert(rest == source_copies(fs, s.ignore, s.target, path)
            + sources_copies(fs, s.ignore, s.target, s.sources, s.next_source + 1int));
        if ignored(s.ignore, path) {
            assert(source_copies(fs, s.ignore, s.target, path) =~= Seq::empty());
            assert(core_copies(fs, s) =~= core_copies(fs, s2));
            lemma_advance_copies(fs, s2);
        } else {
            let s3 = TraversalView { stage: Stage::SourceExists(path), ..s2 };
            assert(core_copies(fs, s) =~= source_copies(fs, s.ignore, s.target, path) + core_copies(fs, s3));
        }
    } else {
        assert(core_copies(fs, s) =~= Seq::empty());
    }
}

proof fn lemma_step_copies(fs: FsModel, s: TraversalView)
    requires
        wf(s),
        faithful(fs, s),
        finite_tree(fs),
        sound_sources(fs, s.ignore, s.sources),
        !(s.stage is Finished),
    ensures
        accepts_spec(s, reply_for(fs, s)),
        pending(fs, s) == sent(step_spec(s, reply_for(fs, s)).1) + pending(fs, step_spec(s, reply_for(fs, s)).0),
        faithful(fs, step_spec(s, reply_for(fs, s)).0),
        !(step_spec(s, reply_for(fs, s)).1 is Finish) || step_spec(s, reply_for(fs, s)).1 matches Request::Finish(Ok(_)),
        step_spec(s, reply_for(fs, s)).0.sources == s.sources,
        step_spec(s, reply_for(fs, s)).0.ignore == s.ignore,
{
    let reply = reply_for(fs, s);
    let (s2, request) = step_spec(s, reply);
    match s.stage {
        Stage::Ready => {
            lemma_advance_copies(fs, s);
            assert(sent(request) =~= Seq::empty());
        },
        Stage::Sent => {
            lemma_advance_copies(fs, s);
            assert(sent(request) =~= Seq::empty());
        },
        Stage::SourceExists(path) => {
            let i = choose|i: int| 0 <= i < s.sources.len() && s.sources[i] == path;
            assert(!ignored(s.ignore, s.sources[i]));
            assert((fs.exists)(path) && path_file_name(path) is Some);
            assert(sent(request) =~= Seq::empty());
        },
        Stage::SourceKind(path, name) => {
            if (fs.is_dir)(path) {
                assert(sent(request) =~= Seq::empty());
            } else {
                assert(source_copies(fs, s.ignore, s.target, path) == seq![(path, final_path(s.target, name))]);
                assert(sent(request) == seq![(path, final_path(s.target, name))]);
            }
        },
        Stage::StagingExists(path, name) => {
            assert(sent(request) =~= Seq::empty());
            if !(fs.exists)(staging_path(s.target, name)) {
                lemma_begin_walk_copies(fs, s, path, name);
            }
        },
        Stage::StagingRemoved(path, name) => {
            assert(sent(request) =~= Seq::empty());
            lemma_begin_walk_copies(fs, s, path, name);
        },
        Stage::DirExists => {
            assert(sent(request) =~= Seq::empty());
        },
        Stage::DirCreated => {
            assert(sent(request) =~= Seq::empty());
        },
        Stage::DirListed => {
            let top = s.dirs.last();
            let listing = (fs.listing)(top.source_dir);
            let top2 = WalkView { names: listing, failure: None, ..top };
            let s3 = TraversalView { dirs: s.dirs.drop_last().push(top2), ..s };
            assert(top == s.dirs[s.dirs.len() - 1]);
            assert(same_walks(s, s3)) by {
                assert forall|i: int| 0 <= i < s3.dirs.len() implies {
                    &&& (#[trigger] s3.dirs[i]).source_dir == s.dirs[i].source_dir
                    &&& s3.dirs[i].target_dir == s.dirs[i].target_dir
                    &&& s3.dirs[i].rel == s.dirs[i].rel
                    &&& s3.dirs[i].next <= s3.dirs[i].names.len()
                } by {
                    if i < s.dirs.len() - 1 {
                        assert(s3.dirs[i] == s.dirs[i]);
                    }
                }
            }
            lemma_same_walks(s, s3);
            assert(frames_ok(fs, s3, true)) by {
                assert forall|i: int| 1 <= i < s3.dirs.len() implies {
                    let parent = s3.dirs[i - 1];
                    let name = (fs.listing)(parent.source_dir)[parent.next - 1];
                    &&& 1 <= parent.next <= (fs.listing)(parent.source_dir).len()
                    &&& (#[trigger] s3.dirs[i]).source_dir == path_join(parent.source_dir, name)
                    &&& s3.dirs[i].target_dir == path_join(parent.target_dir, name)
                } by {
                    assert(s3.dirs[i - 1] == s.dirs[i - 1]);
                    assert(s.dirs[i].source_dir == s3.dirs[i].source_dir);
                }
                assert forall|i: int| 0 <= i < s3.dirs.len() implies (fs.is_dir)(#[trigger] s3.dirs[i].source_dir) by {
                    assert(s.dirs[i].source_dir == s3.dirs[i].source_dir);
                }
                assert forall|i: int| 0 <= i < s3.dirs.len() implies {
                    &&& (#[trigger] s3.dirs[i]).names == (fs.listing)(s3.dirs[i].source_dir)
                    &&& s3.dirs[i].failure is None
                } by {
                    if i < s.dirs.len() - 1 {
                        assert(s3.dirs[i] == s.dirs[i]);
                    }
                }
                if s3.dirs.len() > 0 {
                    assert(s3.dirs[0].source_dir == s.dirs[0].source_dir);
                }
            }
            lemma_frames_replace_top(fs, s.ignore, s.dirs, top2);
            lemma_frames_replace_top(fs, s.ignore, s.dirs, top);
            assert(s.dirs.drop_last().push(top) =~= s.dirs);
            assert(core_copies(fs, s3) == core_copies(fs, s));
            lemma_advance_copies(fs, s3);
            assert(sent(request) =~= Seq::empty());
        },
        Stage::EntryKind(path, name) => {
            let top = s.dirs.last();
            assert(top == s.dirs[s.dirs.len() - 1]);
            let i = top.next - 1;
            assert(path == path_join(top.source_dir, name));
            if (fs.is_dir)(path) {
                assert((fs.listing)(top.source_dir).contains(name)) by {
                    assert((fs.listing)(top.source_dir)[i] == name);
                }
                assert((fs.depth)(path) < (fs.depth)(top.source_dir));
                assert(entry_copies(fs, s.ignore, top.source_dir, top.target_dir, i)
                    == dir_copies_from(fs, s.ignore, path, path_join(top.target_dir, name), 0));
                lemma_descend_copies(fs, s, path, name);
                assert(sent(request) =~= Seq::empty());
            } else {
                assert(entry_copies(fs, s.ignore, top.source_dir, top.target_dir, i)
                    == seq![(path, path_join(top.target_dir, name))]);
                assert(sent(request) == seq![(path, path_join(top.target_dir, name))]);
            }
        },
        Stage::Finished => {},
    }
}

proof fn lemma_begin_walk_copies(fs: FsModel, s: TraversalView, path: Seq<char>, name: Seq<char>)
    requires
        wf(s),
        faithful(fs, s),
        s.stage == Stage::<Seq<char>>::StagingExists(path, name) || s.stage == Stage::<Seq<char>>::StagingRemoved(path, name),
    ensures
        pending(fs, s) == pending(fs, crate::traverse::begin_walk(s, path, name).0),
        faithful(fs, crate::traverse::begin_walk(s, path, name).0),
{
    let s2 = crate::traverse::begin_walk(s, path, name).0;
    let w = s2.dirs.last();
    assert(s.dirs.len() == 0);
    assert(s2.dirs =~= seq![w]);
    lemma_frames_push(fs, s.ignore, s.dirs, w);
    assert(frames_copies(fs, s.ignore, s.dirs) =~= Seq::empty());
    assert(pending(fs, s) =~= pending(fs, s2));
}

proof fn lemma_descend_copies(fs: FsModel, s: TraversalView, path: Seq<char>, name: Seq<char>)
    requires
        wf(s),
        faithful(fs, s),
        s.stage == Stage::<Seq<char>>::EntryKind(path, name),
        (fs.is_dir)(path),
    ensures
        pending(fs, crate::traverse::descend(s, path, name).0)
            == dir_copies_from(fs, s.ignore, path, path_join(s.dirs.last().target_dir, name), 0) + core_copies(fs, s),
        faithful(fs, crate::traverse::descend(s, path, name).0),
{
    let s2 = crate::traverse::descend(s, path, name).0;
    let top = s.dirs.last();
    let w = s2.dirs.last();
    assert(top == s.dirs[s.dirs.len() - 1]);
    lemma_frames_push(fs, s.ignore, s.dirs, w);
    assert(pending(fs, s2) =~= dir_copies_from(fs, s.ignore, path, path_join(top.target_dir, name), 0) + core_copies(fs, s));
    assert forall|i: int| 1 <= i < s2.dirs.len() implies {
        let parent = s2.dirs[i - 1];
        let n = (fs.listing)(parent.source_dir)[parent.next - 1];
        &&& 1 <= parent.next <= (fs.listing)(parent.source_dir).len()
        &&& (#[trigger] s2.dirs[i]).source_dir == path_join(parent.source_dir, n)
        &&& s2.dirs[i].target_dir == path_join(parent.target_dir, n)
    } by {
        assert(s2.dirs[i - 1] == s.dirs[i - 1]);
        if i < s.dirs.len() {
            assert(s2.dirs[i] == s.dirs[i]);
        }
    }
    assert forall|i: int| 0 <= i < s2.dirs.len() implies (fs.is_dir)(#[trigger] s2.dirs[i].source_dir) by {
        if i < s.dirs.len() {
            assert(s2.dirs[i] == s.dirs[i]);
        }
    }
    assert forall|i: int| 0 <= i < s2.dirs.len() && i < s2.dirs.len() - 1 implies {
        &&& (#[trigger] s2.dirs[i]).names == (fs.listing)(s2.dirs[i].source_dir)
        &&& s2.dirs[i].failure is None
    } by {
        assert(s2.dirs[i] == s.dirs[i]);
    }
    assert(s2.dirs[0] == s.dirs[0]);
}

/// Copy mirrors the file system completely. Driven by a file system that
/// does not change under it and answers every request, a traversal sends,
/// in order, exactly the copy commands of `expected_copies`: one for each
/// file and link that the ignore pattern lets through, in every directory
/// source at every depth, each to its mirrored place in the staging
/// directory, and one for each file source to its final place. At any
/// point, what it has sent and what is still to come make up that list;
/// once it has finished, it has sent all of it.
pub proof fn law_backs_up_every_file(
    fs: FsModel,
    sources: Seq<Seq<char>>,
    target: Seq<char>,
    ignore: Option<Seq<char>>,
    fuel: nat,
)
    requires
        finite_tree(fs),
        sound_sources(fs, ignore, sources),
    ensures
        ({
            let (copies, last) = run(fs, initial(sources, target, ignore), fuel);
            &&& copies + pending(fs, last) == expected_copies(fs, ignore, target, sources)
            &&& last.stage is Finished ==> copies == expected_copies(fs, ignore, target, sources)
        }),
{
    let s0 = initial(sources, target, ignore);
    assert(frames_copies(fs, ignore, s0.dirs) =~= Seq::empty());
    assert(pending(fs, s0) =~= expected_copies(fs, ignore, target, sources));
    lemma_run_copies(fs, s0, fuel);
    let (copies, last) = run(fs, s0, fuel);
    if last.stage is Finished {
        assert(copies + pending(fs, last) =~= copies);
    }
}

#[verifier::rlimit(50)]
proof fn lemma_run_copies(fs: FsModel, s: TraversalView, fuel: nat)
    requires
        wf(s),
        faithful(fs, s),
        finite_tree(fs),
        sound_sources(fs, s.ignore, s.sources),
    ensures
        run(fs, s, fuel).0 + pending(fs, run(fs, s, fuel).1) == pending(fs, s),
    decreases fuel,
{
    if fuel == 0 || s.stage is Finished {
        assert(Seq::<(Seq<char>, Seq<char>)>::empty() + pending(fs, s) =~= pending(fs, s));
    } else {
        let step = step_spec(s, reply_for(fs, s));
        let s2 = step.0;
        lemma_step_copies(fs, s);
        lemma_step_wf(s, reply_for(fs, s));
        lemma_run_copies(fs, s2, (fuel - 1) as nat);
        let tail = run(fs, s2, (fuel - 1) as nat);
        assert(run(fs, s, fuel).0 == sent(step.1) + tail.0);
        assert(run(fs, s, fuel).1 == tail.1);
        assert(sent(step.1) + tail.0 + pending(fs, tail.1) =~= sent(step.1) + (tail.0 + pending(fs, tail.1)));
    }
}

// ---------------------------------------------------------------------------
// A run finishes
// ---------------------------------------------------------------------------

/// An upper bound on the steps the entry `i` of `dir` takes: none when it
/// is ignored, two for a file (look at it, send it), one more than its tree
/// for a subdirectory.
pub open spec fn entry_cost(fs: FsModel, ignore: Option<Seq<char>>, dir: Seq<char>, i: int) -> nat
    decreases (fs.depth)(dir), left((fs.listing)(dir).len(), i), 0nat,
{
    if 0 <= i < (fs.listing)(dir).len() {
        let entry = path_join(dir, (fs.listing)(dir)[i]);
        if ignored(ignore, entry) {
            0
        } else if (fs.is_dir)(entry) {
            if (fs.depth)(entry) < (fs.depth)(dir) {
                4 + dir_cost_from(fs, ignore, entry, 0)
            } else {
                1
            }
        } else {
            2
        }
    } else {
        0
    }
}

/// An upper bound on the steps the entries `i..` of `dir` take.
pub open spec fn dir_cost_from(fs: FsModel, ignore: Option<Seq<char>>, dir: Seq<char>, i: int) -> nat
    decreases (fs.depth)(dir), left((fs.listing)(dir).len(), i), 1nat,
{
    if 0 <= i < (fs.listing)(dir).len() {
        entry_cost(fs, ignore, dir, i) + dir_cost_from(fs, ignore, dir, i + 1)
    } else {
        0
    }
}

/// An upper bound on the steps the source `path` takes.
pub open spec fn source_cost(fs: FsModel, ignore: Option<Seq<char>>, path: Seq<char>) -> nat {
    if ignored(ignore, path) {
        0
    } else if (fs.is_dir)(path) {
        7 + dir_cost_from(fs, ignore, path, 0)
    } else {
        3
    }
}

/// An upper bound on the steps the sources `i..` take.
pub open spec fn sources_cost(fs: FsModel, ignore: Option<Seq<char>>, sources: Seq<Seq<char>>, i: int) -> nat
    decreases left(sources.len(), i),
{
    if 0 <= i < sources.len() {
        source_cost(fs, ignore, sources[i]) + sources_cost(fs, ignore, sources, i + 1)
    } else {
        0
    }
}

pub open spec fn frames_cost(fs: FsModel, ignore: Option<Seq<char>>, dirs: Seq<WalkView>) -> nat
    decreases dirs.len(),
{
    if dirs.len() == 0 {
        0
    } else {
        dir_cost_from(fs, ignore, dirs.last().source_dir, dirs.last().next as int) + frames_cost(fs, ignore, dirs.drop_last())
    }
}

pub open spec fn core_cost(fs: FsModel, s: TraversalView) -> nat {
    frames_cost(fs, s.ignore, s.dirs) + sources_cost(fs, s.ignore, s.sources, s.next_source as int)
}

/// An upper bound on the steps a traversal in state `s` still takes.
pub open spec fn cost(fs: FsModel, s: TraversalView) -> nat {
    match s.stage {
        Stage::Finished => 0,
        Stage::Ready => 1 + core_cost(fs, s),
        Stage::SourceExists(path) => source_cost(fs, s.ignore, path) + core_cost(fs, s),
        Stage::SourceKind(path, _) => (source_cost(fs, s.ignore, path) - 1) as nat + core_cost(fs, s),
        Stage::StagingExists(path, _) => 5 + dir_cost_from(fs, s.ignore, path, 0) + core_cost(fs, s),
        Stage::StagingRemoved(path, _) => 4 + dir_cost_from(fs, s.ignore, path, 0) + core_cost(fs, s),
        Stage::Sent => 1 + core_cost(fs, s),
        Stage::DirExists => 3 + core_cost(fs, s),
        Stage::DirCreated => 2 + core_cost(fs, s),
        Stage::DirListed => 1 + core_cost(fs, s),
        Stage::EntryKind(_, _) => entry_cost(fs, s.ignore, s.dirs.last().source_dir, s.dirs.last().next - 1)
            + core_cost(fs, s),
    }
}

proof fn lemma_frames_cost_replace_top(fs: FsModel, ignore: Option<Seq<char>>, dirs: Seq<WalkView>, w: WalkView)
    requires
        dirs.len() > 0,
    ensures
        frames_cost(fs, ignore, dirs.drop_last().push(w))
            == dir_cost_from(fs, ignore, w.source_dir, w.next as int) + frames_cost(fs, ignore, dirs.drop_last()),
{
    assert(dirs.drop_last().push(w).drop_last() =~= dirs.drop_last());
}

proof fn lemma_frames_cost_push(fs: FsModel, ignore: Option<Seq<char>>, dirs: Seq<WalkView>, w: WalkView)
    ensures
        frames_cost(fs, ignore, dirs.push(w)) == dir_cost_from(fs, ignore, w.source_dir, w.next as int) + frames_cost(fs, ignore, dirs),
{
    assert(dirs.push(w).drop_last() =~= dirs);
}

proof fn lemma_advance_cost(fs: FsModel, s: TraversalView)
    requires
        wf_core(s),
        frames_ok(fs, s, true),
    ensures
        cost(fs, advance(s).0) <= core_cost(fs, s),
    decreases sources_left(s), open_dirs(s), entries_left(s),
{
    if s.dirs.len() > 0 {
        let top = s.dirs.last();
        assert(top == s.dirs[s.dirs.len() - 1]);
        assert(top.names == (fs.listing)(top.source_dir));
        if top.next < top.names.len() {
            let name = top.names[top.next as int];
            let path = path_join(top.source_dir, name);
            let top2 = WalkView { next: top.next + 1, ..top };
            let s2 = TraversalView { dirs: s.dirs.drop_last().push(top2), ..s };
            assert(same_walks(s, s2));
            lemma_same_walks(s, s2);
            lemma_frames_ok_kept(fs, s, s2);
            lemma_frames_cost_replace_top(fs, s.ignore, s.dirs, top2);
            assert(frames_cost(fs, s.ignore, s.dirs) == dir_cost_from(fs, s.ignore, top.source_dir, top.next as int)
                + frames_cost(fs, s.ignore, s.dirs.drop_last()));
            if ignored(s.ignore, path) {
                lemma_advance_cost(fs, s2);
            } else {
                let s3 = TraversalView { stage: Stage::EntryKind(path, name), ..s2 };
                assert(s3.dirs.last() == top2);
            }
        } else if top.failure is Some {
        } else {
            let s2 = TraversalView { dirs: s.dirs.drop_last(), ..s };
            assert(same_walks(s, s2));
            lemma_same_walks(s, s2);
            lemma_frames_ok_kept(fs, s, s2);
            lemma_advance_cost(fs, s2);
        }
    } else if s.current is Some {
        let name = s.current.unwrap().1;
        let s2 = TraversalView {
            swaps: s.swaps.push((staging_path(s.target, name), final_path(s.target, name))),
            current: None,
            ..s
        };
        assert(wf_core(s2)) by {
            assert forall|i: int| 0 <= i < s2.swaps.len() implies staged_pair(s2.sources, s2.target, #[trigger] s2.swaps[i]) by {
                if i < s.swaps.len() {
                    assert(s2.swaps[i] == s.swaps[i]);
                } else {
                    let (path, n) = s.current.unwrap();
                    assert(s.sources.contains(path) && path_file_name(path) == Some(n));
                    assert(s2.swaps[i] == (staging_path(s2.target, n), final_path(s2.target, n)));
                }
            }
        }
        lemma_advance_cost(fs, s2);
    } else if s.next_source < s.sources.len() {
        let path = s.sources[s.next_source as int];
        let s2 = TraversalView { next_source: s.next_source + 1, ..s };
        assert(same_walks(s, s2));
        lemma_same_walks(s, s2);
        if ignored(s.ignore, path) {
            lemma_advance_cost(fs, s2);
        }
    }
}

proof fn lemma_step_cost(fs: FsModel, s: TraversalView)
    requires
        wf(s),
        faithful(fs, s),
        finite_tree(fs),
        sound_sources(fs, s.ignore, s.sources),
        !(s.stage is Finished),
    ensures
        cost(fs, step_spec(s, reply_for(fs, s)).0) < cost(fs, s),
{
    match s.stage {
        Stage::Ready => lemma_advance_cost(fs, s),
        Stage::Sent => lemma_advance_cost(fs, s),
        Stage::SourceExists(path) => {
            let i = choose|i: int| 0 <= i < s.sources.len() && s.sources[i] == path;
            assert(!ignored(s.ignore, s.sources[i]));
        },
        Stage::StagingExists(path, name) => {
            let s2 = crate::traverse::begin_walk(s, path, name).0;
            assert(s.dirs.len() == 0);
            lemma_frames_cost_push(fs, s.ignore, s.dirs, s2.dirs.last());
            assert(s2.dirs =~= s.dirs.push(s2.dirs.last()));
        },
        Stage::StagingRemoved(path, name) => {
            let s2 = crate::traverse::begin_walk(s, path, name).0;
            assert(s.dirs.len() == 0);
            lemma_frames_cost_push(fs, s.ignore, s.dirs, s2.dirs.last());
            assert(s2.dirs =~= s.dirs.push(s2.dirs.last()));
        },
        Stage::DirListed => {
            let top = s.dirs.last();
            let listing = (fs.listing)(top.source_dir);
            let top2 = WalkView { names: listing, failure: None, ..top };
            let s3 = TraversalView { dirs: s.dirs.drop_last().push(top2), ..s };
            assert(top == s.dirs[s.dirs.len() - 1]);
            assert(same_walks(s, s3)) by {
                assert forall|i: int| 0 <= i < s3.dirs.len() implies {
                    &&& (#[trigger] s3.dirs[i]).source_dir == s.dirs[i].source_dir
                    &&& s3.dirs[i].target_dir == s.dirs[i].target_dir
                    &&& s3.dirs[i].rel == s.dirs[i].rel
                    &&& s3.dirs[i].next <= s3.dirs[i].names.len()
                } by {
                    if i < s.dirs.len() - 1 {
                        assert(s3.dirs[i] == s.dirs[i]);
                    }
                }
            }
            lemma_same_walks(s, s3);
            lemma_listing_frames_ok(fs, s);
            lemma_frames_cost_replace_top(fs, s.ignore, s.dirs, top2);
            lemma_frames_cost_replace_top(fs, s.ignore, s.dirs, top);
            assert(s.dirs.drop_last().push(top) =~= s.dirs);
            lemma_advance_cost(fs, s3);
        },
        Stage::EntryKind(path, name) => {
            let top = s.dirs.last();
            assert(top == s.dirs[s.dirs.len() - 1]);
            let i = top.next - 1;
            if (fs.is_dir)(path) {
                assert((fs.listing)(top.source_dir).contains(name)) by {
                    assert((fs.listing)(top.source_dir)[i] == name);
                }
                let s2 = crate::traverse::descend(s, path, name).0;
                lemma_frames_cost_push(fs, s.ignore, s.dirs, s2.dirs.last());
                assert(s2.dirs =~= s.dirs.push(s2.dirs.last()));
            }
        },
        _ => {},
    }
}

proof fn lemma_listing_frames_ok(fs: FsModel, s: TraversalView)
    requires
        wf(s),
        faithful(fs, s),
        s.stage is DirListed,
    ensures
        frames_ok(fs, TraversalView {
            dirs: s.dirs.drop_last().push(WalkView { names: (fs.listing)(s.dirs.last().source_dir), failure: None, ..s.dirs.last() }),
            ..s
        }, true),
{
    let top = s.dirs.last();
    let s3 = TraversalView {
        dirs: s.dirs.drop_last().push(WalkView { names: (fs.listing)(top.source_dir), failure: None, ..top }),
        ..s
    };
    assert forall|i: int| 1 <= i < s3.dirs.len() implies {
        let parent = s3.dirs[i - 1];
        let name = (fs.listing)(parent.source_dir)[parent.next - 1];
        &&& 1 <= parent.next <= (fs.listing)(parent.source_dir).len()
        &&& (#[trigger] s3.dirs[i]).source_dir == path_join(parent.source_dir, name)
        &&& s3.dirs[i].target_dir == path_join(parent.target_dir, name)
    } by {
        assert(s3.dirs[i - 1] == s.dirs[i - 1]);
        assert(s.dirs[i].source_dir == s3.dirs[i].source_dir);
    }
    assert forall|i: int| 0 <= i < s3.dirs.len() implies (fs.is_dir)(#[trigger] s3.dirs[i].source_dir) by {
        assert(s.dirs[i].source_dir == s3.dirs[i].source_dir);
    }
    assert forall|i: int| 0 <= i < s3.dirs.len() implies {
        &&& (#[trigger] s3.dirs[i]).names == (fs.listing)(s3.dirs[i].source_dir)
        &&& s3.dirs[i].failure is None
    } by {
        if i < s.dirs.len() - 1 {
            assert(s3.dirs[i] == s.dirs[i]);
        }
    }
    if s3.dirs.len() > 0 {
        assert(s3.dirs[0].source_dir == s.dirs[0].source_dir);
    }
}

proof fn lemma_cost_positive(fs: FsModel, s: TraversalView)
    requires
        wf(s),
        faithful(fs, s),
        sound_sources(fs, s.ignore, s.sources),
        !(s.stage is Finished),
    ensures
        cost(fs, s) > 0,
{
    match s.stage {
        Stage::SourceExists(path) => {
            let i = choose|i: int| 0 <= i < s.sources.len() && s.sources[i] == path;
            assert(!ignored(s.ignore, s.sources[i]));
        },
        Stage::SourceKind(path, _) => {
            let i = choose|i: int| 0 <= i < s.sources.len() && s.sources[i] == path;
            assert(!ignored(s.ignore, s.sources[i]));
        },
        Stage::EntryKind(path, name) => {
            let top = s.dirs.last();
            assert(top == s.dirs[s.dirs.len() - 1]);
            assert(path == path_join(top.source_dir, (fs.listing)(top.source_dir)[top.next - 1]));
        },
        _ => {},
    }
}

proof fn lemma_run_finishes(fs: FsModel, s: TraversalView, fuel: nat)
    requires
        wf(s),
        faithful(fs, s),
        finite_tree(fs),
        sound_sources(fs, s.ignore, s.sources),
        cost(fs, s) <= fuel,
    ensures
        run(fs, s, fuel).1.stage is Finished,
    decreases fuel,
{
    if !(s.stage is Finished) {
        lemma_cost_positive(fs, s);
        let s2 = step_spec(s, reply_for(fs, s)).0;
        lemma_step_cost(fs, s);
        lemma_step_copies(fs, s);
        lemma_step_wf(s, reply_for(fs, s));
        lemma_run_finishes(fs, s2, (fuel - 1) as nat);
        assert(run(fs, s, fuel).1 == run(fs, s2, (fuel - 1) as nat).1);
    }
}

/// A traversal driven by a file system that does not change under it
/// finishes: within `cost` steps of the start it has handed out its outcome,
/// and has then sent every expected copy command.
pub proof fn law_run_finishes(fs: FsModel, sources: Seq<Seq<char>>, target: Seq<char>, ignore: Option<Seq<char>>)
    requires
        finite_tree(fs),
        sound_sources(fs, ignore, sources),
    ensures
        ({
            let (copies, last) = run(fs, initial(sources, target, ignore), cost(fs, initial(sources, target, ignore)));
            &&& last.stage is Finished
            &&& copies == expected_copies(fs, ignore, target, sources)
        }),
{
    let s0 = initial(sources, target, ignore);
    lemma_run_finishes(fs, s0, cost(fs, s0));
    law_backs_up_every_file(fs, sources, target, ignore, cost(fs, s0));
}

// ---------------------------------------------------------------------------
// The staged pairs a run hands back
// ---------------------------------------------------------------------------

/// The staged pair of the source `path`: one for a directory source that
/// the ignore pattern lets through, none for anything else.
pub open spec fn source_swaps(fs: FsModel, ignore: Option<Seq<char>>, target: Seq<char>, path: Seq<char>) -> Seq<(Seq<char>, Seq<char>)> {
    if !ignored(ignore, path) && (fs.is_dir)(path) {
        match path_file_name(path) {
            Some(name) => seq![(staging_path(target, name), final_path(target, name))],
            None => Seq::empty(),
        }
    } else {
        Seq::empty()
    }
}

/// The staged pairs of the sources `i..`, in order.
pub open spec fn sources_swaps(fs: FsModel, ignore: Option<Seq<char>>, target: Seq<char>, sources: Seq<Seq<char>>, i: int) -> Seq<(Seq<char>, Seq<char>)>
    decreases left(sources.len(), i),
{
    if 0 <= i < sources.len() {
        source_swaps(fs, ignore, target, sources[i]) + sources_swaps(fs, ignore, target, sources, i + 1)
    } else {
        Seq::empty()
    }
}

/// The staged pairs a backup of `sources` into `target` hands back: one
/// `(staging_path(target, n), final_path(target, n))` for each directory
/// source named `n` that is not ignored, in the order of the sources.
pub open spec fn expected_swaps(fs: FsModel, ignore: Option<Seq<char>>, target: Seq<char>, sources: Seq<Seq<char>>) -> Seq<(Seq<char>, Seq<char>)> {
    sources_swaps(fs, ignore, target, sources, 0)
}

/// The pairs still to come from the directory source being walked and the
/// sources not yet looked at.
pub open spec fn core_swaps(fs: FsModel, s: TraversalView) -> Seq<(Seq<char>, Seq<char>)> {
    let walked: Seq<(Seq<char>, Seq<char>)> = match s.current {
        Some((_, name)) => seq![(staging_path(s.target, name), final_path(s.target, name))],
        None => Seq::empty(),
    };
    walked + sources_swaps(fs, s.ignore, s.target, s.sources, s.next_source as int)
}

/// The pairs still to come from state `s`.
pub open spec fn pending_swaps(fs: FsModel, s: TraversalView) -> Seq<(Seq<char>, Seq<char>)> {
    match s.stage {
        Stage::Finished => Seq::empty(),
        Stage::SourceExists(path) => source_swaps(fs, s.ignore, s.target, path) + core_swaps(fs, s),
        Stage::SourceKind(path, _) => source_swaps(fs, s.ignore, s.target, path) + core_swaps(fs, s),
        Stage::StagingExists(_, name) =>
            seq![(staging_path(s.target, name), final_path(s.target, name))] + core_swaps(fs, s),
        Stage::StagingRemoved(_, name) =>
            seq![(staging_path(s.target, name), final_path(s.target, name))] + core_swaps(fs, s),
        _ => core_swaps(fs, s),
    }
}

/// The outcome a traversal from `s`, driven by `fs`, hands out within
/// `fuel` steps, if it gets there.
pub open spec fn run_outcome(fs: FsModel, s: TraversalView, fuel: nat) -> Option<Result<Seq<(Seq<char>, Seq<char>)>, ErrorView>>
    decreases fuel,
{
    if fuel == 0 || s.stage is Finished {
        None
    } else {
        let (s2, request) = step_spec(s, reply_for(fs, s));
        match request {
            Request::Finish(outcome) => Some(outcome),
            _ => run_outcome(fs, s2, (fuel - 1) as nat),
        }
    }
}

proof fn lemma_advance_swaps(fs: FsModel, s: TraversalView)
    requires
        wf_core(s),
        frames_ok(fs, s, true),
    ensures
        advance(s).1 is Finish ==> advance(s).1 == RequestView::Finish(Ok(s.swaps + core_swaps(fs, s))),
        !(advance(s).1 is Finish) ==> {
            &&& !(advance(s).0.stage is Finished)
            &&& advance(s).0.swaps + pending_swaps(fs, advance(s).0) == s.swaps + core_swaps(fs, s)
        },
    decreases sources_left(s), open_dirs(s), entries_left(s),
{
    if s.dirs.len() > 0 {
        let top = s.dirs.last();
        assert(top == s.dirs[s.dirs.len() - 1]);
        if top.next < top.names.len() {
            let name = top.names[top.next as int];
            let path = path_join(top.source_dir, name);
            let top2 = WalkView { next: top.next + 1, ..top };
            let s2 = TraversalView { dirs: s.dirs.drop_last().push(top2), ..s };
            assert(same_walks(s, s2));
            lemma_same_walks(s, s2);
            lemma_frames_ok_kept(fs, s, s2);
            if ignored(s.ignore, path) {
                lemma_advance_swaps(fs, s2);
            }
        } else if top.failure is Some {
        } else {
            let s2 = TraversalView { dirs: s.dirs.drop_last(), ..s };
            assert(same_walks(s, s2));
            lemma_same_walks(s, s2);
            lemma_frames_ok_kept(fs, s, s2);
            lemma_advance_swaps(fs, s2);
        }
    } else if s.current is Some {
        let name = s.current.unwrap().1;
        let pair = (staging_path(s.target, name), final_path(s.target, name));
        let s2 = TraversalView { swaps: s.swaps.push(pair), current: None, ..s };
        assert(wf_core(s2)) by {
            assert forall|i: int| 0 <= i < s2.swaps.len() implies staged_pair(s2.sources, s2.target, #[trigger] s2.swaps[i]) by {
                if i < s.swaps.len() {
                    assert(s2.swaps[i] == s.swaps[i]);
                } else {
                    let (path, n) = s.current.unwrap();
                    assert(s.sources.contains(path) && path_file_name(path) == Some(n));
                    assert(s2.swaps[i] == (staging_path(s2.target, n), final_path(s2.target, n)));
                }
            }
        }
        lemma_advance_swaps(fs, s2);
        assert(s2.swaps + core_swaps(fs, s2) =~= s.swaps + core_swaps(fs, s));
    } else if s.next_source < s.sources.len() {
        let path = s.sources[s.next_source as int];
        let s2 = TraversalView { next_source: s.next_source + 1, ..s };
        assert(same_walks(s, s2));
        lemma_same_walks(s, s2);
        assert(sources_swaps(fs, s.ignore, s.target, s.sources, s.next_source as int)
            == source_swaps(fs, s.ignore, s.target, path) + sources_swaps(fs, s.ignore, s.target, s.sources, s.next_source + 1int));
        if ignored(s.ignore, path) {
            assert(source_swaps(fs, s.ignore, s.target, path) =~= Seq::empty());
            assert(core_swaps(fs, s) =~= core_swaps(fs, s2));
            lemma_advance_swaps(fs, s2);
        } else {
            let s3 = TraversalView { stage: Stage::SourceExists(path), ..s2 };
            assert(core_swaps(fs, s) =~= source_swaps(fs, s.ignore, s.target, path) + core_swaps(fs, s3));
        }
    } else {
        assert(core_swaps(fs, s) =~= Seq::empty());
        assert(s.swaps + core_swaps(fs, s) =~= s.swaps);
    }
}

proof fn lemma_step_swaps(fs: FsModel, s: TraversalView)
    requires
        wf(s),
        faithful(fs, s),
        sound_sources(fs, s.ignore, s.sources),
        !(s.stage is Finished),
    ensures
        ({
            let (s2, request) = step_spec(s, reply_for(fs, s));
            &&& request is Finish ==> request == RequestView::Finish(Ok(s.swaps + pending_swaps(fs, s)))
            &&& !(request is Finish) ==> {
                &&& !(s2.stage is Finished)
                &&& s2.swaps + pending_swaps(fs, s2) == s.swaps + pending_swaps(fs, s)
            }
        }),
{
    let reply = reply_for(fs, s);
    let (s2, request) = step_spec(s, reply);
    match s.stage {
        Stage::Ready => lemma_advance_swaps(fs, s),
        Stage::Sent => lemma_advance_swaps(fs, s),
        Stage::SourceExists(path) => {
            let i = choose|i: int| 0 <= i < s.sources.len() && s.sources[i] == path;
            assert(!ignored(s.ignore, s.sources[i]));
            assert((fs.exists)(path) && path_file_name(path) is Some);
        },
        Stage::SourceKind(path, name) => {
            assert(path_file_name(path) == Some(name));
            if (fs.is_dir)(path) {
                assert(s.swaps + pending_swaps(fs, s) =~= s2.swaps + pending_swaps(fs, s2));
            } else {
                assert(source_swaps(fs, s.ignore, s.target, path) =~= Seq::empty());
                assert(s.swaps + pending_swaps(fs, s) =~= s2.swaps + pending_swaps(fs, s2));
            }
        },
        Stage::StagingExists(path, name) => {
            assert(s.current is None);
            assert(s.swaps + pending_swaps(fs, s) =~= s2.swaps + pending_swaps(fs, s2));
        },
        Stage::StagingRemoved(path, name) => {
            assert(s.current is None);
            assert(s.swaps + pending_swaps(fs, s) =~= s2.swaps + pending_swaps(fs, s2));
        },
        Stage::DirListed => {
            let top = s.dirs.last();
            let listing = (fs.listing)(top.source_dir);
            let top2 = WalkView { names: listing, failure: None, ..top };
            let s3 = TraversalView { dirs: s.dirs.drop_last().push(top2), ..s };
            assert(top == s.dirs[s.dirs.len() - 1]);
            assert(same_walks(s, s3)) by {
                assert forall|i: int| 0 <= i < s3.dirs.len() implies {
                    &&& (#[trigger] s3.dirs[i]).source_dir == s.dirs[i].source_dir
                    &&& s3.dirs[i].target_dir == s.dirs[i].target_dir
                    &&& s3.dirs[i].rel == s.dirs[i].rel
                    &&& s3.dirs[i].next <= s3.dirs[i].names.len()
                } by {
                    if i < s.dirs.len() - 1 {
                        assert(s3.dirs[i] == s.dirs[i]);
                    }
                }
            }
            lemma_same_walks(s, s3);
            lemma_listing_frames_ok(fs, s);
            lemma_advance_swaps(fs, s3);
            assert(core_swaps(fs, s3) == core_swaps(fs, s));
        },
        _ => {},
    }
}

proof fn lemma_run_outcome(fs: FsModel, s: TraversalView, fuel: nat)
    requires
        wf(s),
        faithful(fs, s),
        finite_tree(fs),
        sound_sources(fs, s.ignore, s.sources),
        !(s.stage is Finished),
        cost(fs, s) <= fuel,
    ensures
        run_outcome(fs, s, fuel) == Some(Ok::<Seq<(Seq<char>, Seq<char>)>, ErrorView>(s.swaps + pending_swaps(fs, s))),
    decreases fuel,
{
    lemma_cost_positive(fs, s);
    let (s2, request) = step_spec(s, reply_for(fs, s));
    lemma_step_swaps(fs, s);
    if !(request is Finish) {
        lemma_step_cost(fs, s);
        lemma_step_copies(fs, s);
        lemma_step_wf(s, reply_for(fs, s));
        lemma_run_outcome(fs, s2, (fuel - 1) as nat);
    }
}

/// A backup that succeeds swaps in every walked directory source. Driven
/// by a file system that does not change under it, a traversal hands back
/// exactly the pairs of `expected_swaps`: for each directory source named
/// `n` that the ignore pattern lets through, in the order of the sources,
/// the pair `(staging_path(target, n), final_path(target, n))`, and nothing
/// else.
pub proof fn law_returns_every_staged_pair(fs: FsModel, sources: Seq<Seq<char>>, target: Seq<char>, ignore: Option<Seq<char>>)
    requires
        finite_tree(fs),
        sound_sources(fs, ignore, sources),
    ensures
        run_outcome(fs, initial(sources, target, ignore), cost(fs, initial(sources, target, ignore)))
            == Some(Ok::<Seq<(Seq<char>, Seq<char>)>, ErrorView>(expected_swaps(fs, ignore, target, sources))),
{
    let s0 = initial(sources, target, ignore);
    assert(core_swaps(fs, s0) =~= expected_swaps(fs, ignore, target, sources));
    assert(s0.swaps + pending_swaps(fs, s0) =~= expected_swaps(fs, ignore, target, sources));
    lemma_run_outcome(fs, s0, cost(fs, s0));
}

} // verus!
