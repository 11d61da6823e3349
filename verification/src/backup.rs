use vstd::prelude::*;

use crate::errors::{debug_quoted, error_message, quote_debug, FSErrors};
use crate::traverse::{pairs_view, Swaps};

verus! {

/// A piece of file-system work asked while swapping staged directories into
/// place.
pub enum SwapRequest<P> {
    /// `Path::exists` of a final directory: answer `Answer`.
    Exists(P),
    /// `fs::remove_dir_all` of a final directory: answer `Proceed` or `Failed`.
    RemoveDirAll(P),
    /// `fs::rename(staging, final)`: answer `Proceed` or `Failed`.
    Rename(P, P),
    /// The backup run is over.
    Done,
}

/// The answer to the last swap request; `Proceed` also ends the collection
/// of copy results.
pub enum SwapReply<P> {
    Proceed,
    Answer(bool),
    Failed(P),
}

impl View for SwapRequest<String> {
    type V = SwapRequest<Seq<char>>;

    open spec fn view(&self) -> SwapRequest<Seq<char>> {
        match self {
            SwapRequest::Exists(p) => SwapRequest::Exists(p@),
            SwapRequest::RemoveDirAll(p) => SwapRequest::RemoveDirAll(p@),
            SwapRequest::Rename(a, b) => SwapRequest::Rename(a@, b@),
            SwapRequest::Done => SwapRequest::Done,
        }
    }
}

impl View for SwapReply<String> {
    type V = SwapReply<Seq<char>>;

    open spec fn view(&self) -> SwapReply<Seq<char>> {
        match self {
            SwapReply::Proceed => SwapReply::Proceed,
            SwapReply::Answer(b) => SwapReply::Answer(*b),
            SwapReply::Failed(e) => SwapReply::Failed(e@),
        }
    }
}

/// Where a backup run stands.
#[derive(Clone, Copy, PartialEq, Eq, Structural)]
pub enum Phase {
    /// The copy results are still coming in.
    Collecting,
    /// Asked whether the final directory of the current pair exists.
    CheckingFinal,
    /// Asked to remove the final directory of the current pair.
    RemovingFinal,
    /// Asked to rename the staging directory of the current pair.
    Renaming,
    /// Everything is done.
    Finished,
}

/// The mathematical state of a backup run: how many files were copied, the
/// error text gathered so far, the staged pairs to swap (`next` of them
/// taken up) and the phase.
#[verifier::ext_equal]
pub struct BackupView {
    pub files_count: nat,
    pub error_message: Seq<char>,
    pub swaps: Seq<(Seq<char>, Seq<char>)>,
    pub next: nat,
    pub phase: Phase,
}

/// The text added for a copy that failed with `err`: its `{:?}` form and a
/// line break.
pub open spec fn copy_failure_line(err: Seq<char>) -> Seq<char> {
    debug_quoted(err) + seq!['\n']
}

/// The text added when the previous backup `final_dir` cannot be removed.
pub open spec fn removal_failure_line(final_dir: Seq<char>, err: Seq<char>) -> Seq<char> {
    "Failed removing previous backup `"@ + final_dir + "`: "@ + err + seq!['\n']
}

/// The text added when `staging` cannot be renamed to `final_dir`.
pub open spec fn rename_failure_line(staging: Seq<char>, final_dir: Seq<char>, err: Seq<char>) -> Seq<char> {
    "Failed swapping staged backup `"@ + staging + "` into `"@ + final_dir + "`: "@ + err + seq!['\n']
}

/// The state after the traversal's outcome: its pairs when it succeeded, its
/// error's message when it failed.
pub open spec fn run_start(outcome: Result<Seq<(Seq<char>, Seq<char>)>, crate::errors::ErrorView>) -> BackupView {
    match outcome {
        Ok(swaps) => BackupView { files_count: 0, error_message: Seq::empty(), swaps, next: 0, phase: Phase::Collecting },
        Err(e) => BackupView { files_count: 0, error_message: error_message(e), swaps: Seq::empty(), next: 0, phase: Phase::Collecting },
    }
}

/// The state after one copy result came in: a success is counted, a failure
/// adds its line to the error text.
pub open spec fn record_spec(s: BackupView, result: Result<(), Seq<char>>) -> BackupView {
    match result {
        Ok(()) => BackupView { files_count: s.files_count + 1, ..s },
        Err(e) => BackupView { error_message: s.error_message + copy_failure_line(e), ..s },
    }
}

/// Takes up the next staged pair, or finishes.
pub open spec fn next_pair(s: BackupView) -> (BackupView, SwapRequest<Seq<char>>) {
    if s.next < s.swaps.len() {
        (
            BackupView { next: s.next + 1, phase: Phase::CheckingFinal, ..s },
            SwapRequest::Exists(s.swaps[s.next as int].1),
        )
    } else {
        (BackupView { phase: Phase::Finished, ..s }, SwapRequest::Done)
    }
}

/// The pair being swapped.
pub open spec fn current_pair(s: BackupView) -> (Seq<char>, Seq<char>) {
    s.swaps[s.next - 1]
}

pub open spec fn swap_accepts(s: BackupView, reply: SwapReply<Seq<char>>) -> bool {
    match s.phase {
        Phase::Collecting => reply is Proceed,
        Phase::CheckingFinal => reply is Answer,
        Phase::RemovingFinal | Phase::Renaming => reply is Proceed || reply is Failed,
        Phase::Finished => false,
    }
}

/// One step of the swap phase. Each staged directory replaces its final
/// directory: an existing final directory is removed first; when that fails
/// the staged copy is left in place and the failure noted.
pub open spec fn swap_step(s: BackupView, reply: SwapReply<Seq<char>>) -> (BackupView, SwapRequest<Seq<char>>) {
    match s.phase {
        Phase::Collecting => next_pair(s),
        Phase::CheckingFinal => match reply {
            SwapReply::Answer(true) => (
                BackupView { phase: Phase::RemovingFinal, ..s },
                SwapRequest::RemoveDirAll(current_pair(s).1),
            ),
            _ => (
                BackupView { phase: Phase::Renaming, ..s },
                SwapRequest::Rename(current_pair(s).0, current_pair(s).1),
            ),
        },
        Phase::RemovingFinal => match reply {
            SwapReply::Failed(e) => next_pair(
                BackupView { error_message: s.error_message + removal_failure_line(current_pair(s).1, e), ..s },
            ),
            _ => (
                BackupView { phase: Phase::Renaming, ..s },
                SwapRequest::Rename(current_pair(s).0, current_pair(s).1),
            ),
        },
        Phase::Renaming => match reply {
            SwapReply::Failed(e) => next_pair(
                BackupView {
                    error_message: s.error_message + rename_failure_line(current_pair(s).0, current_pair(s).1, e),
                    ..s
                },
            ),
            _ => next_pair(s),
        },
        Phase::Finished => (s, SwapRequest::Done),
    }
}

pub open spec fn run_wf(s: BackupView) -> bool {
    &&& s.next <= s.swaps.len()
    &&& (s.phase is CheckingFinal || s.phase is RemovingFinal || s.phase is Renaming) ==> s.next > 0
    &&& s.phase is Collecting ==> s.next == 0
    &&& s.phase is Finished ==> s.next == s.swaps.len()
}

/// A backup run after the traversal: it counts the copy results as they come
/// in, then swaps every staged directory into place, and gathers the error
/// text of the run.
pub struct BackupRun {
    files_count: usize,
    error_message: String,
    swaps: Swaps,
    next: usize,
    phase: Phase,
}

impl View for BackupRun {
    type V = BackupView;

    closed spec fn view(&self) -> BackupView {
        BackupView {
            files_count: self.files_count as nat,
            error_message: self.error_message@,
            swaps: pairs_view(self.swaps@),
            next: self.next as nat,
            phase: self.phase,
        }
    }
}

impl SwapReply<String> {
    fn is_proceed(&self) -> (b: bool)
        ensures
            b == (self@ is Proceed),
    {
        match self {
            SwapReply::Proceed => true,
            _ => false,
        }
    }

    fn is_answer(&self) -> (b: bool)
        ensures
            b == (self@ is Answer),
    {
        match self {
            SwapReply::Answer(_) => true,
            _ => false,
        }
    }
}

impl BackupRun {
    /// Starts a run from the traversal's outcome: the staged pairs to swap,
    /// or the error that stopped the traversal, whose message opens the
    /// error text.
    pub fn new(outcome: Result<Swaps, FSErrors>) -> (run: BackupRun)
        ensures
            run@ == run_start(match outcome {
                Ok(swaps) => Ok(pairs_view(swaps@)),
                Err(e) => Err(e@),
            }),
            run_wf(run@),
    {
        match outcome {
            Ok(swaps) => BackupRun { files_count: 0, error_message: String::new(), swaps, next: 0, phase: Phase::Collecting },
            Err(e) => {
                let run = BackupRun {
                    files_count: 0,
                    error_message: e.message(),
                    swaps: Vec::new(),
                    next: 0,
                    phase: Phase::Collecting,
                };
                proof {
                    assert(pairs_view(run.swaps@) =~= Seq::empty());
                }
                run
            },
        }
    }

    /// The number of files copied so far.
    pub fn files_count(&self) -> (count: usize)
        ensures
            count == self@.files_count,
    {
        self.files_count
    }

    /// The error text gathered so far.
    pub fn error_message(&self) -> (text: &String)
        ensures
            text@ == self@.error_message,
    {
        &self.error_message
    }

    /// Whether the run still takes copy results.
    pub fn is_collecting(&self) -> (b: bool)
        ensures
            b == (self@.phase == Phase::Collecting),
    {
        self.phase == Phase::Collecting
    }

    /// Records the result of one copy command.
    pub fn record_copy(&mut self, result: Result<(), String>)
        requires
            old(self)@.phase == Phase::Collecting,
            old(self)@.files_count < usize::MAX,
        ensures
            final(self)@ == record_spec(old(self)@, match result {
                Ok(()) => Ok(()),
                Err(e) => Err(e@),
            }),
    {
        match result {
            Ok(()) => {
                self.files_count = self.files_count + 1;
            },
            Err(err) => {
                let quoted = quote_debug(err.as_str());
                self.error_message.append(quoted.as_str());
                self.error_message.append("\n");
                proof {
                    reveal_strlit("\n");
                }
            },
        }
    }

    /// Whether `reply` answers what the run asked last.
    pub fn accepts(&self, reply: &SwapReply<String>) -> (ok: bool)
        ensures
            ok == swap_accepts(self@, reply@),
    {
        match self.phase {
            Phase::Collecting => reply.is_proceed(),
            Phase::CheckingFinal => reply.is_answer(),
            Phase::RemovingFinal | Phase::Renaming => !reply.is_answer(),
            Phase::Finished => false,
        }
    }

    fn next_pair(&mut self) -> (request: SwapRequest<String>)
        ensures
            (final(self)@, request@) == next_pair(old(self)@),
    {
        if self.next < self.swaps.len() {
            let final_dir = self.swaps[self.next].1.clone();
            self.next = self.next + 1;
            self.phase = Phase::CheckingFinal;
            SwapRequest::Exists(final_dir)
        } else {
            self.phase = Phase::Finished;
            SwapRequest::Done
        }
    }

    /// Takes the answer to the last request and returns the next one. The
    /// first `Proceed`, while collecting, says that every copy result is in
    /// and starts the swaps.
    pub fn step(&mut self, reply: SwapReply<String>) -> (request: SwapRequest<String>)
        requires
            run_wf(old(self)@),
            swap_accepts(old(self)@, reply@),
        ensures
            (final(self)@, request@) == swap_step(old(self)@, reply@),
            run_wf(final(self)@),
    {
        match self.phase {
            Phase::Collecting => self.next_pair(),
            Phase::CheckingFinal => {
                let i = self.next - 1;
                match reply {
                    SwapReply::Answer(true) => {
                        self.phase = Phase::RemovingFinal;
                        SwapRequest::RemoveDirAll(self.swaps[i].1.clone())
                    },
                    _ => {
                        self.phase = Phase::Renaming;
                        SwapRequest::Rename(self.swaps[i].0.clone(), self.swaps[i].1.clone())
                    },
                }
            },
            Phase::RemovingFinal => {
                let i = self.next - 1;
                match reply {
                    SwapReply::Failed(err) => {
                        let final_dir = self.swaps[i].1.clone();
                        self.error_message.append("Failed removing previous backup `");
                        self.error_message.append(final_dir.as_str());
                        self.error_message.append("`: ");
                        self.error_message.append(err.as_str());
                        self.error_message.append("\n");
                        proof {
                            reveal_strlit("\n");
                        }
                        self.next_pair()
                    },
                    _ => {
                        self.phase = Phase::Renaming;
                        SwapRequest::Rename(self.swaps[i].0.clone(), self.swaps[i].1.clone())
                    },
                }
            },
            Phase::Renaming => {
                let i = self.next - 1;
                match reply {
                    SwapReply::Failed(err) => {
                        let staging = self.swaps[i].0.clone();
                        let final_dir = self.swaps[i].1.clone();
                        self.error_message.append("Failed swapping staged backup `");
                        self.error_message.append(staging.as_str());
                        self.error_message.append("` into `");
                        self.error_message.append(final_dir.as_str());
                        self.error_message.append("`: ");
                        self.error_message.append(err.as_str());
                        self.error_message.append("\n");
                        proof {
                            reveal_strlit("\n");
                        }
                        self.next_pair()
                    },
                    _ => self.next_pair(),
                }
            },
            Phase::Finished => SwapRequest::Done,
        }
    }
}

// ---------------------------------------------------------------------------
// Laws of a backup run
// ---------------------------------------------------------------------------

/// The state after the copy results `results` came in, in order.
pub open spec fn record_all(s: BackupView, results: Seq<Result<(), Seq<char>>>) -> BackupView
    decreases results.len(),
{
    if results.len() == 0 {
        s
    } else {
        record_spec(record_all(s, results.drop_last()), results.last())
    }
}

/// How many of `results` are successes.
pub open spec fn count_ok(results: Seq<Result<(), Seq<char>>>) -> nat
    decreases results.len(),
{
    if results.len() == 0 {
        0
    } else {
        count_ok(results.drop_last()) + if results.last() is Ok { 1nat } else { 0nat }
    }
}

/// The failure lines of `results`, in order.
pub open spec fn failure_text(results: Seq<Result<(), Seq<char>>>) -> Seq<char>
    decreases results.len(),
{
    if results.len() == 0 {
        Seq::empty()
    } else {
        failure_text(results.drop_last()) + match results.last() {
            Ok(()) => Seq::empty(),
            Err(e) => copy_failure_line(e),
        }
    }
}

/// Collecting copy results counts exactly the successful copies and appends,
/// in order, one line per failed copy; nothing else of the run changes.
pub proof fn law_collect_counts(s: BackupView, results: Seq<Result<(), Seq<char>>>)
    ensures
        record_all(s, results) == (BackupView {
            files_count: s.files_count + count_ok(results),
            error_message: s.error_message + failure_text(results),
            ..s
        }),
    decreases results.len(),
{
    if results.len() == 0 {
        assert(s.error_message + failure_text(results) =~= s.error_message);
    } else {
        law_collect_counts(s, results.drop_last());
        let prev = failure_text(results.drop_last());
        match results.last() {
            Ok(()) => {
                assert(s.error_message + prev + Seq::<char>::empty() =~= s.error_message + prev);
            },
            Err(e) => {
                assert(s.error_message + prev + copy_failure_line(e) =~= s.error_message + (prev + copy_failure_line(e)));
            },
        }
    }
}

/// No directory is removed or renamed while copy results are still being
/// collected: swapping starts only after the collection was declared over,
/// and only on the pair taken up.
pub proof fn law_swaps_after_copies(s: BackupView, reply: SwapReply<Seq<char>>)
    requires
        run_wf(s),
        swap_accepts(s, reply),
    ensures
        swap_step(s, reply).1 is RemoveDirAll || swap_step(s, reply).1 is Rename ==> {
            &&& s.phase != Phase::Collecting
            &&& 0 < s.next <= s.swaps.len()
        },
        s.phase == Phase::Collecting ==> swap_step(s, reply).1 is Exists || swap_step(s, reply).1 is Done,
{
}

/// Only final directories are removed, and only right after they were found
/// to exist; a staged copy is renamed onto its final place only when that
/// place is free or was just cleared.
pub proof fn law_swap_order(s: BackupView, reply: SwapReply<Seq<char>>)
    requires
        run_wf(s),
        swap_accepts(s, reply),
    ensures
        swap_step(s, reply).1 matches SwapRequest::RemoveDirAll(p) ==> {
            &&& p == current_pair(s).1
            &&& s.phase == Phase::CheckingFinal
            &&& reply == SwapReply::<Seq<char>>::Answer(true)
        },
        swap_step(s, reply).1 matches SwapRequest::Rename(staging, final_dir) ==> {
            &&& (staging, final_dir) == current_pair(s)
            &&& {
                ||| s.phase == Phase::CheckingFinal && reply == SwapReply::<Seq<char>>::Answer(false)
                ||| s.phase == Phase::RemovingFinal && reply is Proceed
            }
        },
{
}

/// When the previous backup cannot be removed, its staged replacement is not
/// renamed: the failure is noted and the run moves on to the next pair.
pub proof fn law_failed_removal_keeps_previous(s: BackupView, err: Seq<char>)
    requires
        run_wf(s),
        s.phase == Phase::RemovingFinal,
    ensures
        !(swap_step(s, SwapReply::Failed(err)).1 is Rename),
        !(swap_step(s, SwapReply::Failed(err)).1 is RemoveDirAll),
        swap_step(s, SwapReply::Failed(err)).0.error_message
            == s.error_message + removal_failure_line(current_pair(s).1, err),
{
}

/// A run ends only once every staged pair was taken up, and a staged copy
/// that was renamed into place is followed by the next pair, when one is
/// left.
pub proof fn law_done_after_every_pair(s: BackupView, reply: SwapReply<Seq<char>>)
    requires
        run_wf(s),
        swap_accepts(s, reply),
    ensures
        swap_step(s, reply).1 is Done ==> {
            &&& s.next == s.swaps.len()
            &&& swap_step(s, reply).0.next == s.swaps.len()
            &&& swap_step(s, reply).0.phase == Phase::Finished
        },
        s.phase == Phase::Renaming && reply is Proceed && s.next < s.swaps.len() ==> {
            &&& swap_step(s, reply).1 == SwapRequest::Exists(s.swaps[s.next as int].1)
            &&& swap_step(s, reply).0.next == s.next + 1
        },
{
}

// ---------------------------------------------------------------------------
// What a whole swap phase does
// ---------------------------------------------------------------------------

/// How the file system answers the swaps: whether a final directory
/// exists, the error of removing it and the error of renaming a staging
/// directory onto it (`None` when the work succeeds).
pub struct SwapModel {
    pub exists: spec_fn(Seq<char>) -> bool,
    pub remove_error: spec_fn(Seq<char>) -> Option<Seq<char>>,
    pub rename_error: spec_fn(Seq<char>, Seq<char>) -> Option<Seq<char>>,
}

/// The answer of `m` to `request`.
pub open spec fn swap_answer(m: SwapModel, request: SwapRequest<Seq<char>>) -> SwapReply<Seq<char>> {
    match request {
        SwapRequest::Exists(p) => SwapReply::Answer((m.exists)(p)),
        SwapRequest::RemoveDirAll(p) => match (m.remove_error)(p) {
            Some(e) => SwapReply::Failed(e),
            None => SwapReply::Proceed,
        },
        SwapRequest::Rename(a, b) => match (m.rename_error)(a, b) {
            Some(e) => SwapReply::Failed(e),
            None => SwapReply::Proceed,
        },
        SwapRequest::Done => SwapReply::Proceed,
    }
}

/// The requests a run makes from state `s` when given `reply` and then
/// answered by `m`, up to and including its `Done`, within `fuel` steps,
/// and the state it is left in.
pub open spec fn swap_run(s: BackupView, reply: SwapReply<Seq<char>>, m: SwapModel, fuel: nat) -> (Seq<SwapRequest<Seq<char>>>, BackupView)
    decreases fuel,
{
    if fuel == 0 {
        (Seq::empty(), s)
    } else {
        let (s2, request) = swap_step(s, reply);
        if request is Done {
            (seq![request], s2)
        } else {
            let rest = swap_run(s2, swap_answer(m, request), m, (fuel - 1) as nat);
            (seq![request] + rest.0, rest.1)
        }
    }
}

/// The work of swapping `(staging, final_dir)` into place: look for the
/// final directory, remove it when it is there, and rename the staging
/// directory onto it unless the removal failed.
pub open spec fn pair_requests(pair: (Seq<char>, Seq<char>), m: SwapModel) -> Seq<SwapRequest<Seq<char>>> {
    let (staging, final_dir) = pair;
    seq![SwapRequest::Exists(final_dir)] + if (m.exists)(final_dir) {
        seq![SwapRequest::RemoveDirAll(final_dir)] + if (m.remove_error)(final_dir) is Some {
            Seq::empty()
        } else {
            seq![SwapRequest::Rename(staging, final_dir)]
        }
    } else {
        seq![SwapRequest::Rename(staging, final_dir)]
    }
}

/// The error text that swapping `pair` adds: the failed removal of the
/// previous backup, or else the failed rename, or nothing.
pub open spec fn pair_errors(pair: (Seq<char>, Seq<char>), m: SwapModel) -> Seq<char> {
    let (staging, final_dir) = pair;
    if (m.exists)(final_dir) && (m.remove_error)(final_dir) is Some {
        removal_failure_line(final_dir, (m.remove_error)(final_dir).unwrap())
    } else {
        match (m.rename_error)(staging, final_dir) {
            Some(e) => rename_failure_line(staging, final_dir, e),
            None => Seq::empty(),
        }
    }
}

/// The work of swapping the pairs `i..` of `swaps` in order, and the end.
pub open spec fn swaps_requests(swaps: Seq<(Seq<char>, Seq<char>)>, i: int, m: SwapModel) -> Seq<SwapRequest<Seq<char>>>
    decreases swaps.len() - i,
{
    if 0 <= i < swaps.len() {
        pair_requests(swaps[i], m) + swaps_requests(swaps, i + 1, m)
    } else {
        seq![SwapRequest::Done]
    }
}

/// The error text of swapping the pairs `i..` of `swaps`, in order.
pub open spec fn swaps_errors(swaps: Seq<(Seq<char>, Seq<char>)>, i: int, m: SwapModel) -> Seq<char>
    decreases swaps.len() - i,
{
    if 0 <= i < swaps.len() {
        pair_errors(swaps[i], m) + swaps_errors(swaps, i + 1, m)
    } else {
        Seq::empty()
    }
}

/// From any state whose step goes on with the pairs of `t` from `t.next`
/// on, the run does the work of each of those pairs and ends.
#[verifier::rlimit(30)]
proof fn lemma_swap_run(s: BackupView, reply: SwapReply<Seq<char>>, t: BackupView, m: SwapModel, fuel: nat)
    requires
        swap_step(s, reply) == next_pair(t),
        t.next <= t.swaps.len(),
        fuel >= 3 * (t.swaps.len() - t.next) + 1,
    ensures
        swap_run(s, reply, m, fuel) == (
            swaps_requests(t.swaps, t.next as int, m),
            BackupView {
                error_message: t.error_message + swaps_errors(t.swaps, t.next as int, m),
                next: t.swaps.len(),
                phase: Phase::Finished,
                ..t
            },
        ),
    decreases t.swaps.len() - t.next,
{
    let n = t.swaps.len();
    if t.next == n {
        assert(t.error_message + swaps_errors(t.swaps, t.next as int, m) =~= t.error_message);
    } else {
        let i = t.next as int;
        let (staging, final_dir) = t.swaps[i];
        let t1 = BackupView { next: t.next + 1, phase: Phase::CheckingFinal, ..t };
        assert(next_pair(t) == (t1, SwapRequest::Exists(final_dir)));
        assert(current_pair(t1) == (staging, final_dir));
        let rest = swaps_requests(t.swaps, i + 1, m);
        let rest_errors = swaps_errors(t.swaps, i + 1, m);
        if (m.exists)(final_dir) {
            let t2 = BackupView { phase: Phase::RemovingFinal, ..t1 };
            assert(swap_step(t1, SwapReply::Answer(true)) == (t2, SwapRequest::RemoveDirAll(final_dir)));
            match (m.remove_error)(final_dir) {
                Some(e) => {
                    let t3 = BackupView { error_message: t1.error_message + removal_failure_line(final_dir, e), ..t2 };
                    lemma_swap_run(t2, SwapReply::Failed(e), t3, m, (fuel - 2) as nat);
                    assert(swap_run(t1, SwapReply::Answer(true), m, (fuel - 1) as nat).0
                        == seq![SwapRequest::RemoveDirAll(final_dir)] + rest);
                    assert(swap_run(s, reply, m, fuel).0 =~= swaps_requests(t.swaps, i, m));
                    assert(t3.error_message + rest_errors =~= t.error_message + swaps_errors(t.swaps, i, m));
                },
                None => {
                    let t3 = BackupView { phase: Phase::Renaming, ..t2 };
                    assert(swap_step(t2, SwapReply::Proceed) == (t3, SwapRequest::Rename(staging, final_dir)));
                    let r = swap_answer(m, SwapRequest::Rename(staging, final_dir));
                    let t4 = match r {
                        SwapReply::Failed(e) => BackupView {
                            error_message: t3.error_message + rename_failure_line(staging, final_dir, e),
                            ..t3
                        },
                        _ => t3,
                    };
                    lemma_swap_run(t3, r, t4, m, (fuel - 3) as nat);
                    assert(swap_run(t2, SwapReply::Proceed, m, (fuel - 2) as nat).0
                        == seq![SwapRequest::Rename(staging, final_dir)] + rest);
                    assert(swap_run(t1, SwapReply::Answer(true), m, (fuel - 1) as nat).0
                        == seq![SwapRequest::RemoveDirAll(final_dir)] + (seq![SwapRequest::Rename(staging, final_dir)] + rest));
                    assert(swap_run(s, reply, m, fuel).0 =~= swaps_requests(t.swaps, i, m));
                    assert(t4.error_message + rest_errors =~= t.error_message + swaps_errors(t.swaps, i, m));
                },
            }
        } else {
            let t3 = BackupView { phase: Phase::Renaming, ..t1 };
            assert(swap_step(t1, SwapReply::Answer(false)) == (t3, SwapRequest::Rename(staging, final_dir)));
            let r = swap_answer(m, SwapRequest::Rename(staging, final_dir));
            let t4 = match r {
                SwapReply::Failed(e) => BackupView {
                    error_message: t3.error_message + rename_failure_line(staging, final_dir, e),
                    ..t3
                },
                _ => t3,
            };
            lemma_swap_run(t3, r, t4, m, (fuel - 2) as nat);
            assert(swap_run(t1, SwapReply::Answer(false), m, (fuel - 1) as nat).0
                == seq![SwapRequest::Rename(staging, final_dir)] + rest);
            assert(swap_run(s, reply, m, fuel).0 =~= swaps_requests(t.swaps, i, m));
            assert(t4.error_message + rest_errors =~= t.error_message + swaps_errors(t.swaps, i, m));
        }
    }
}

/// Every staged directory is swapped into place, in order. Once the copy
/// results are in, a run does for each staged pair, in turn, exactly the
/// work of `pair_requests` (look for the final directory, remove it when it
/// is there, rename the staged copy onto it unless the removal failed), and
/// only then says it is done; the error text gathered while collecting is
/// followed by the failures of the swaps, in order.
pub proof fn law_swaps_every_pair(s: BackupView, m: SwapModel)
    requires
        run_wf(s),
        s.phase == Phase::Collecting,
    ensures
        swap_run(s, SwapReply::Proceed, m, 3 * s.swaps.len() + 1) == (
            swaps_requests(s.swaps, 0, m),
            BackupView {
                error_message: s.error_message + swaps_errors(s.swaps, 0, m),
                next: s.swaps.len(),
                phase: Phase::Finished,
                ..s
            },
        ),
{
    lemma_swap_run(s, SwapReply::Proceed, s, m, 3 * s.swaps.len() + 1);
}

} // verus!
