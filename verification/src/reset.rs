//! The plan of a data reset: whether it may run, and what becomes of each
//! data directory.
//!
//! A reset refuses to run while another process of the same program is alive,
//! since that process would go on serving the files that were removed.

use vstd::prelude::*;
use vstd::string::*;

use crate::text;

verus! {

/// Name of the program, as the process table shows it.
pub const BIN_NAME: &'static str = "ai-memory";

/// What is said at the end of a dry run.
pub const DRY_RUN_NOTE: &'static str = "(dry-run; pass --confirm to wipe)";

/// Number of data directories.
pub const SUBDIR_COUNT: usize = 3;

/// One row of the process table that bears the name of the program.
#[derive(Debug, Clone, Copy, PartialEq, Eq, Structural)]
pub struct ProcessEntry {
    /// Process or thread id.
    pub pid: u32,
    /// Is this a thread of a process, rather than the process itself?
    pub is_thread: bool,
}

/// The ids of the processes other than `me`, in the order of the table.
pub open spec fn sibling_pids(processes: Seq<ProcessEntry>, me: u32) -> Seq<u32> {
    processes.filter(|p: ProcessEntry| !p.is_thread && p.pid != me).map_values(
        |p: ProcessEntry| p.pid,
    )
}

/// The ids of the processes other than `me`. Threads are listed beside their
/// process under the same name, so only process leaders count.
pub fn sibling_processes(processes: &[ProcessEntry], me: u32) -> (r: Vec<u32>)
    ensures
        r@ == sibling_pids(processes@, me),
{
    let n: usize = processes.len();
    let mut out: Vec<u32> = Vec::new();
    let mut i: usize = 0;
    proof {
        reveal(Seq::filter);
        assert(out@ =~= sibling_pids(processes@.take(0), me));
    }
    while i < n
        invariant
            i <= n == processes@.len(),
            out@ == sibling_pids(processes@.take(i as int), me),
        decreases n - i,
    {
        let p: ProcessEntry = processes[i];
        let ghost before = out@;
        proof {
            reveal(Seq::filter);
            assert(processes@.take(i + 1).drop_last() =~= processes@.take(i as int));
        }
        if !p.is_thread && p.pid != me {
            out.push(p.pid);
            assert(sibling_pids(processes@.take(i + 1), me) =~= before.push(p.pid));
        }
        i = i + 1;
    }
    assert(processes@.take(n as int) =~= processes@);
    out
}

/// Process ids in decimal, separated by a comma and a space.
pub open spec fn pid_list(pids: Seq<u32>) -> Seq<char>
    decreases pids.len(),
{
    if pids.len() == 0 {
        Seq::empty()
    } else if pids.len() == 1 {
        text::decimal(pids[0] as nat)
    } else {
        pid_list(pids.drop_last()) + ", "@ + text::decimal(pids.last() as nat)
    }
}

/// Why a reset is refused while these processes run.
pub open spec fn refusal_text(pids: Seq<u32>) -> Seq<char> {
    "refusing to reset: "@ + text::decimal(pids.len())
        + " other ai-memory process(es) running (pids: ["@ + pid_list(pids)
        + "]). Stop them first, then re-run."@
}

/// Why a reset is refused while these processes run.
pub fn refusal_message(pids: &[u32]) -> (r: String)
    ensures
        r@ == refusal_text(pids@),
{
    let n: usize = pids.len();
    let mut buf: String = String::new();
    buf.append("refusing to reset: ");
    text::push_decimal(&mut buf, n as u64);
    buf.append(" other ai-memory process(es) running (pids: [");
    let ghost head = buf@;
    let mut i: usize = 0;
    assert(buf@ =~= head + pid_list(pids@.take(0)));
    while i < n
        invariant
            i <= n == pids@.len(),
            buf@ == head + pid_list(pids@.take(i as int)),
        decreases n - i,
    {
        if i > 0 {
            buf.append(", ");
        }
        text::push_decimal(&mut buf, pids[i] as u64);
        proof {
            assert(pids@.take(i + 1).drop_last() =~= pids@.take(i as int));
            assert(buf@ =~= head + pid_list(pids@.take(i + 1)));
        }
        i = i + 1;
    }
    assert(pids@.take(n as int) =~= pids@);
    buf.append("]). Stop them first, then re-run.");
    assert(buf@ =~= refusal_text(pids@));
    buf
}

/// What a reset does.
#[derive(Debug, Clone, Copy, PartialEq, Eq, Structural)]
pub enum ResetMode {
    /// Say what would be removed.
    DryRun,
    /// Remove it.
    Wipe,
}

/// What becomes of one data directory.
#[derive(Debug, Clone, Copy, PartialEq, Eq, Structural)]
pub enum SubdirAction {
    /// Nothing: there is no such directory.
    Leave,
    /// Say that it would be removed.
    Report,
    /// Remove it with all it holds, and create it empty.
    Recreate,
}

/// A reset under way. An action that fails ends it, with the error of that
/// action.
#[derive(Debug, Clone, PartialEq, Eq)]
pub struct ResetState<E> {
    /// What the reset does.
    pub mode: ResetMode,
    /// Number of directories dealt with so far.
    pub next: usize,
    /// The error of the action that failed, if one did.
    pub failure: Option<E>,
}

/// Why a reset that began did not end well.
#[derive(Debug, Clone, PartialEq, Eq)]
pub enum ResetError<E> {
    /// It was a dry run; the note says how to have it wipe.
    Unconfirmed(&'static str),
    /// An action failed with this error.
    Failed(E),
}

/// The name of a data directory, by its place in the order of removal.
pub open spec fn subdir_name(i: int) -> Option<Seq<char>> {
    if i == 0 {
        Some("wiki"@)
    } else if i == 1 {
        Some("db"@)
    } else if i == 2 {
        Some("raw"@)
    } else {
        None
    }
}

/// Begin a reset. Refused, with the reason, while siblings run; without
/// `confirm` it is a dry run.
pub fn begin_reset<E>(siblings: &[u32], confirm: bool) -> (r: Result<ResetState<E>, String>)
    ensures
        r is Err <==> siblings@.len() > 0,
        r matches Err(message) ==> message@ == refusal_text(siblings@),
        r matches Ok(state) ==> state == ResetState::<E>::start(
            if confirm {
                ResetMode::Wipe
            } else {
                ResetMode::DryRun
            },
        ),
{
    if siblings.len() > 0 {
        return Err(refusal_message(siblings));
    }
    let mode: ResetMode = if confirm {
        ResetMode::Wipe
    } else {
        ResetMode::DryRun
    };
    Ok(ResetState { mode, next: 0, failure: None })
}

impl<E> ResetState<E> {
    /// No directory has been dealt with.
    pub open spec fn start(mode: ResetMode) -> ResetState<E> {
        ResetState { mode, next: 0, failure: None }
    }

    /// Is there no directory left to deal with?
    pub open spec fn is_ended(self) -> bool {
        self.failure is Some || self.next >= SUBDIR_COUNT
    }

    /// The name of the directory at hand, if there is one.
    pub open spec fn at_hand(self) -> Option<Seq<char>> {
        if self.is_ended() {
            None
        } else {
            subdir_name(self.next as int)
        }
    }

    /// What becomes of the directory at hand, given whether it exists.
    pub open spec fn action(self, present: bool) -> SubdirAction {
        if self.is_ended() || !present {
            SubdirAction::Leave
        } else if self.mode == ResetMode::Wipe {
            SubdirAction::Recreate
        } else {
            SubdirAction::Report
        }
    }

    /// Does a reset that ends here end well?
    pub open spec fn ends_well(self) -> bool {
        self.failure is None && self.mode == ResetMode::Wipe
    }

    /// The reset after the action on the directory at hand gave `result`.
    pub open spec fn recorded(self, result: Result<(), E>) -> ResetState<E> {
        if self.is_ended() {
            self
        } else {
            match result {
                Ok(()) => ResetState { next: (self.next + 1) as usize, ..self },
                Err(e) => ResetState { failure: Some(e), ..self },
            }
        }
    }

    /// The directory at hand; `None` once all have been dealt with or an
    /// action has failed.
    pub fn subdir(&self) -> (r: Option<&'static str>)
        ensures
            r.deep_view() == self.at_hand(),
    {
        if self.failure.is_some() {
            return None;
        }
        match self.next {
            0 => Some("wiki"),
            1 => Some("db"),
            2 => Some("raw"),
            _ => None,
        }
    }

    /// What to do with the directory at hand, given whether it exists.
    pub fn step(&self, present: bool) -> (r: SubdirAction)
        ensures
            r == self.action(present),
    {
        if !present || self.failure.is_some() || self.next >= SUBDIR_COUNT {
            return SubdirAction::Leave;
        }
        match self.mode {
            ResetMode::Wipe => SubdirAction::Recreate,
            ResetMode::DryRun => SubdirAction::Report,
        }
    }

    /// Take note of how the action on the directory at hand ended: turn to the
    /// next directory, or end the reset if it failed.
    pub fn record(&mut self, result: Result<(), E>)
        ensures
            *final(self) == old(self).recorded(result),
    {
        if self.failure.is_some() || self.next >= SUBDIR_COUNT {
            return;
        }
        match result {
            Ok(()) => {
                self.next = self.next + 1;
            },
            Err(e) => {
                self.failure = Some(e);
            },
        }
    }

    /// How the reset ends: with the error of the action that failed, if one
    /// did; else with an error if it was a dry run; else well.
    pub fn outcome(self) -> (r: Result<(), ResetError<E>>)
        ensures
            r is Ok <==> self.ends_well(),
            r matches Err(ResetError::Failed(e)) ==> self.failure == Some(e),
            r matches Err(ResetError::Unconfirmed(note)) ==> self.failure is None && self.mode
                == ResetMode::DryRun && note@ == DRY_RUN_NOTE@,
    {
        if let Some(e) = self.failure {
            return Err(ResetError::Failed(e));
        }
        match self.mode {
            ResetMode::Wipe => Ok(()),
            ResetMode::DryRun => Err(ResetError::Unconfirmed(DRY_RUN_NOTE)),
        }
    }
}

/// The line that a dry run says of an existing directory.
pub fn would_remove(path: &str) -> (r: String)
    ensures
        r@ == "would remove "@ + path@,
{
    let mut r: String = "would remove ".to_owned();
    r.append(path);
    r
}

/// Where a reset stands after the actions on its directories gave `results`.
pub open spec fn reached<E>(mode: ResetMode, results: Seq<Result<(), E>>) -> ResetState<E>
    decreases results.len(),
{
    if results.len() == 0 {
        ResetState::start(mode)
    } else {
        reached(mode, results.drop_last()).recorded(results.last())
    }
}

/// Did all of these actions go well?
pub open spec fn all_well<E>(results: Seq<Result<(), E>>) -> bool {
    forall|i: int| 0 <= i < results.len() ==> #[trigger] results[i] is Ok
}

proof fn lemma_reached<E>(mode: ResetMode, results: Seq<Result<(), E>>)
    requires
        all_well(results),
    ensures
        reached(mode, results) == (ResetState::<E> {
            mode,
            next: if results.len() < SUBDIR_COUNT {
                results.len() as usize
            } else {
                SUBDIR_COUNT
            },
            failure: None,
        }),
    decreases results.len(),
{
    if results.len() > 0 {
        let front = results.drop_last();
        assert forall|i: int| 0 <= i < front.len() implies #[trigger] front[i] is Ok by {
            assert(front[i] == results[i]);
        }
        lemma_reached(mode, front);
    }
}

/// A reset that has ended stays as it is, has no directory at hand and acts on
/// none; so no action follows one that failed.
pub proof fn law_no_action_follows_the_end<E>(
    state: ResetState<E>,
    result: Result<(), E>,
    present: bool,
)
    requires
        state.is_ended(),
    ensures
        state.recorded(result) == state,
        state.at_hand() is None,
        state.action(present) == SubdirAction::Leave,
{
}

/// If the actions before place `k` went well and the one at `k` failed, then
/// whatever is reported later the reset stands at `k` with that error: the
/// directories before `k` have been dealt with, those behind it are left
/// alone.
pub proof fn law_first_failure_ends_the_reset<E>(
    mode: ResetMode,
    results: Seq<Result<(), E>>,
    k: int,
    present: bool,
)
    requires
        0 <= k < results.len(),
        k < SUBDIR_COUNT,
        all_well(results.take(k)),
        results[k] is Err,
    ensures
        reached(mode, results) == (ResetState::<E> {
            mode,
            next: k as usize,
            failure: Some(results[k]->Err_0),
        }),
        reached(mode, results).at_hand() is None,
        reached(mode, results).action(present) == SubdirAction::Leave,
        !reached(mode, results).ends_well(),
    decreases results.len(),
{
    let front = results.drop_last();
    if k == results.len() - 1 {
        assert(front =~= results.take(k));
        lemma_reached(mode, front);
    } else {
        assert(front.take(k) =~= results.take(k));
        assert(front[k] == results[k]);
        law_first_failure_ends_the_reset(mode, front, k, present);
    }
}

/// As long as all goes well, the directories come up in their order, each once:
/// after `results.len()` actions the one at that place is at hand, until none
/// is left and nothing has failed.
pub proof fn law_directories_come_up_in_order<E>(mode: ResetMode, results: Seq<Result<(), E>>)
    requires
        all_well(results),
    ensures
        reached(mode, results).failure is None,
        reached(mode, results).at_hand() == subdir_name(results.len() as int),
        reached(mode, results).is_ended() <==> results.len() >= SUBDIR_COUNT,
{
    lemma_reached(mode, results);
}

proof fn lemma_reached_mode<E>(mode: ResetMode, results: Seq<Result<(), E>>)
    ensures
        reached(mode, results).mode == mode,
    decreases results.len(),
{
    if results.len() > 0 {
        lemma_reached_mode(mode, results.drop_last());
    }
}

/// A dry run never removes anything, whatever exists and whatever happened
/// before. It reports the directories that exist, and never ends well.
pub proof fn law_dry_run_removes_nothing<E>(results: Seq<Result<(), E>>, present: bool)
    ensures
        reached(ResetMode::DryRun, results).action(present) != SubdirAction::Recreate,
        all_well(results) && results.len() < SUBDIR_COUNT ==> (reached(
            ResetMode::DryRun,
            results,
        ).action(present) == SubdirAction::Report <==> present),
        !reached(ResetMode::DryRun, results).ends_well(),
{
    lemma_reached_mode(ResetMode::DryRun, results);
    if all_well(results) {
        lemma_reached(ResetMode::DryRun, results);
    }
}

/// A confirmed reset recreates the directories that exist, and no others, and
/// ends well, as long as all goes well.
pub proof fn law_wipe_recreates_what_exists<E>(results: Seq<Result<(), E>>, present: bool)
    requires
        all_well(results),
    ensures
        reached(ResetMode::Wipe, results).action(present) == SubdirAction::Recreate <==> present
            && results.len() < SUBDIR_COUNT,
        reached(ResetMode::Wipe, results).action(present) != SubdirAction::Report,
        reached(ResetMode::Wipe, results).ends_well(),
{
    lemma_reached(ResetMode::Wipe, results);
}

/// The process itself and its threads are no siblings; every other process
/// leader of the table is one.
pub proof fn law_siblings_are_the_other_leaders(
    processes: Seq<ProcessEntry>,
    me: u32,
    pid: u32,
)
    ensures
        sibling_pids(processes, me).contains(pid) <==> pid != me && exists|i: int|
            0 <= i < processes.len() && !(#[trigger] processes[i]).is_thread && processes[i].pid
                == pid,
{
    let keep = |p: ProcessEntry| !p.is_thread && p.pid != me;
    let kept = processes.filter(keep);
    let pids = sibling_pids(processes, me);
    if pids.contains(pid) {
        let k = choose|k: int| 0 <= k < pids.len() && pids[k] == pid;
        assert(kept[k].pid == pid);
        assert(keep(kept[k]));
        processes.lemma_filter_contains_rev(keep, kept[k]);
        let i = choose|i: int| 0 <= i < processes.len() && processes[i] == kept[k];
        assert(!processes[i].is_thread);
    }
    if pid != me && exists|i: int|
        0 <= i < processes.len() && !(#[trigger] processes[i]).is_thread && processes[i].pid == pid {
        let i = choose|i: int|
            0 <= i < processes.len() && !(#[trigger] processes[i]).is_thread && processes[i].pid
                == pid;
        assert(keep(processes[i]));
        assert(kept.contains(processes[i]));
        let k = choose|k: int| 0 <= k < kept.len() && kept[k] == processes[i];
        assert(pids[k] == pid);
    }
}

/// One more row of the process table adds its id at the end of the siblings if
/// it is a process leader other than this process, and nothing otherwise.
pub proof fn law_one_more_process(processes: Seq<ProcessEntry>, row: ProcessEntry, me: u32)
    ensures
        !row.is_thread && row.pid != me ==> sibling_pids(processes.push(row), me) == sibling_pids(
            processes,
            me,
        ).push(row.pid),
        row.is_thread || row.pid == me ==> sibling_pids(processes.push(row), me) == sibling_pids(
            processes,
            me,
        ),
        sibling_pids(Seq::empty(), me) == Seq::<u32>::empty(),
{
    reveal(Seq::filter);
    assert(processes.push(row).drop_last() =~= processes);
    let pids = sibling_pids(processes, me);
    let more = sibling_pids(processes.push(row), me);
    if !row.is_thread && row.pid != me {
        assert(more =~= pids.push(row.pid));
    } else {
        assert(more =~= pids);
    }
    assert(sibling_pids(Seq::empty(), me) =~= Seq::<u32>::empty());
}

/// How the ids are listed: each in decimal, a comma and a space between two.
pub proof fn law_one_more_listed_pid(pids: Seq<u32>, pid: u32)
    ensures
        pid_list(Seq::empty()) == Seq::<char>::empty(),
        pid_list(seq![pid]) == text::decimal(pid as nat),
        pids.len() > 0 ==> pid_list(pids.push(pid)) == pid_list(pids) + seq![',', ' ']
            + text::decimal(pid as nat),
{
    reveal_strlit(", ");
    assert(", "@ =~= seq![',', ' ']);
    assert(pids.push(pid).drop_last() =~= pids);
}

/// A refusal tells how many processes run and which, whatever their number.
pub proof fn law_refusal_tells_every_pid(pids: Seq<u32>)
    ensures
        refusal_text(pids) == "refusing to reset: "@ + text::decimal(pids.len())
            + " other ai-memory process(es) running (pids: ["@ + pid_list(pids)
            + "]). Stop them first, then re-run."@,
{
}

/// The data directories, in the order in which they come up.
pub proof fn law_the_data_directories(i: int)
    ensures
        subdir_name(0) == Some("wiki"@),
        subdir_name(1) == Some("db"@),
        subdir_name(2) == Some("raw"@),
        i < 0 || i > 2 ==> subdir_name(i) is None,
{
}

/// What a reset under way does at each of its three directories: it acts on
/// the one at hand if that exists, by its mode; it turns to the next one after
/// an action that went well; and after one that failed it keeps the error and
/// stops. It ends well only if it wiped and nothing failed.
pub proof fn law_reset_takes_one_directory_at_a_time<E>(mode: ResetMode, next: usize, e: E)
    requires
        next < 3,
    ensures
        ({
            let state = ResetState::<E> { mode, next, failure: None };
            &&& state.at_hand() == subdir_name(next as int)
            &&& state.action(false) == SubdirAction::Leave
            &&& mode == ResetMode::Wipe ==> state.action(true) == SubdirAction::Recreate
            &&& mode == ResetMode::DryRun ==> state.action(true) == SubdirAction::Report
            &&& state.recorded(Ok(())) == (ResetState::<E> {
                mode,
                next: (next + 1) as usize,
                failure: None,
            })
            &&& state.recorded(Err(e)) == (ResetState::<E> { mode, next, failure: Some(e) })
            &&& state.ends_well() <==> mode == ResetMode::Wipe
        }),
        ResetState::<E>::start(mode) == (ResetState::<E> { mode, next: 0, failure: None }),
{
}

/// A reset has ended if and only if an action failed or all three directories
/// have been dealt with; one that failed does not end well.
pub proof fn law_when_a_reset_has_ended<E>(state: ResetState<E>, present: bool)
    ensures
        state.is_ended() <==> state.failure is Some || state.next >= 3,
        state.failure is Some || state.next >= 3 ==> state.at_hand() is None && state.action(
            present,
        ) == SubdirAction::Leave,
        state.ends_well() <==> state.failure is None && state.mode == ResetMode::Wipe,
{
}

} // verus!
