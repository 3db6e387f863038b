//! The steps of the foreground watcher, from opening the store to shutting
//! down.
//!
//! Every step is outside work; the order in which they follow, and what a
//! failure leads to, is decided here.

use vstd::prelude::*;
use vstd::string::*;

verus! {

/// What the watcher command does next.
#[derive(Debug, Clone, Copy, PartialEq, Eq, Structural)]
pub enum WatchStep {
    /// Open the store of the data directory.
    OpenStore,
    /// Get or create the workspace.
    EnsureWorkspace,
    /// Get or create the project in the workspace.
    EnsureProject,
    /// Open the wiki over the store's writer.
    OpenWiki,
    /// Install the filesystem hooks and start to watch.
    StartWatcher,
    /// Wait for the interrupt that ends the command.
    AwaitInterrupt,
    /// Shut the watcher down.
    Shutdown,
    /// Nothing: the command has ended well.
    Done,
    /// Nothing: the command has ended with the error of the last step.
    Failed,
}

impl WatchStep {
    /// The place of a step in the order of work; of the two ends, the place
    /// behind it.
    pub open spec fn place(self) -> nat {
        match self {
            WatchStep::OpenStore => 0,
            WatchStep::EnsureWorkspace => 1,
            WatchStep::EnsureProject => 2,
            WatchStep::OpenWiki => 3,
            WatchStep::StartWatcher => 4,
            WatchStep::AwaitInterrupt => 5,
            WatchStep::Shutdown => 6,
            WatchStep::Done => 7,
            WatchStep::Failed => 7,
        }
    }

    /// Is there nothing left to do?
    pub open spec fn is_end(self) -> bool {
        self == WatchStep::Done || self == WatchStep::Failed
    }

    /// What follows a step that went well, or failed.
    pub open spec fn follow(self, ok: bool) -> WatchStep {
        if self.is_end() {
            self
        } else if !ok {
            WatchStep::Failed
        } else {
            match self {
                WatchStep::OpenStore => WatchStep::EnsureWorkspace,
                WatchStep::EnsureWorkspace => WatchStep::EnsureProject,
                WatchStep::EnsureProject => WatchStep::OpenWiki,
                WatchStep::OpenWiki => WatchStep::StartWatcher,
                WatchStep::StartWatcher => WatchStep::AwaitInterrupt,
                WatchStep::AwaitInterrupt => WatchStep::Shutdown,
                _ => WatchStep::Done,
            }
        }
    }

    /// What follows a step that went well, or failed. An end stays an end.
    #[must_use]
    pub fn after(self, ok: bool) -> (r: WatchStep)
        ensures
            r == self.follow(ok),
    {
        match self {
            WatchStep::Done => WatchStep::Done,
            WatchStep::Failed => WatchStep::Failed,
            _ => {
                if !ok {
                    return WatchStep::Failed;
                }
                match self {
                    WatchStep::OpenStore => WatchStep::EnsureWorkspace,
                    WatchStep::EnsureWorkspace => WatchStep::EnsureProject,
                    WatchStep::EnsureProject => WatchStep::OpenWiki,
                    WatchStep::OpenWiki => WatchStep::StartWatcher,
                    WatchStep::StartWatcher => WatchStep::AwaitInterrupt,
                    WatchStep::AwaitInterrupt => WatchStep::Shutdown,
                    _ => WatchStep::Done,
                }
            },
        }
    }
}

/// What a failure to open the store is reported with.
pub fn store_context(data_dir: &str) -> (r: String)
    ensures
        r@ == "opening store at "@ + data_dir@,
{
    let mut r: String = "opening store at ".to_owned();
    r.append(data_dir);
    r
}

/// Where the command stands after steps with these outcomes.
pub open spec fn reached(outcomes: Seq<bool>) -> WatchStep
    decreases outcomes.len(),
{
    if outcomes.len() == 0 {
        WatchStep::OpenStore
    } else {
        reached(outcomes.drop_last()).follow(outcomes.last())
    }
}

/// Every step that goes well leads to the next one, and the command ends
/// within seven steps.
pub proof fn law_steps_follow_in_order(step: WatchStep)
    ensures
        !step.is_end() ==> step.follow(true).place() == step.place() + 1,
        !step.is_end() ==> step.follow(false) == WatchStep::Failed,
        step.is_end() <==> step.place() == 7,
{
}

/// The watcher is shut down if and only if every step before went well, so a
/// watcher that never started is never shut down.
pub proof fn law_shutdown_follows_success_only(outcomes: Seq<bool>)
    ensures
        reached(outcomes) == WatchStep::Shutdown <==> outcomes.len() == 6 && forall|i: int|
            0 <= i < outcomes.len() ==> #[trigger] outcomes[i],
        reached(outcomes) == WatchStep::Done <==> outcomes.len() >= 7 && forall|i: int|
            0 <= i < 7 ==> #[trigger] outcomes[i],
{
    lemma_reached(outcomes);
}

proof fn lemma_reached(outcomes: Seq<bool>)
    ensures
        reached(outcomes) == WatchStep::Failed <==> exists|i: int|
            0 <= i < outcomes.len() && i < 7 && !(#[trigger] outcomes[i]),
        reached(outcomes) != WatchStep::Failed ==> reached(outcomes).place() == if outcomes.len()
            < 7 {
            outcomes.len()
        } else {
            7
        },
    decreases outcomes.len(),
{
    if outcomes.len() > 0 {
        let front = outcomes.drop_last();
        lemma_reached(front);
        assert forall|i: int| 0 <= i < front.len() implies front[i] == #[trigger] outcomes[i] by {}
        if reached(front) == WatchStep::Failed {
            let i = choose|i: int| 0 <= i < front.len() && i < 7 && !(#[trigger] front[i]);
            assert(!outcomes[i]);
        }
        if exists|i: int| 0 <= i < outcomes.len() && i < 7 && !(#[trigger] outcomes[i]) {
            let i = choose|i: int| 0 <= i < outcomes.len() && i < 7 && !(#[trigger] outcomes[i]);
            if i < front.len() {
                assert(!front[i]);
            }
        }
        if reached(front) != WatchStep::Failed && reached(outcomes) == WatchStep::Failed {
            assert(!outcomes[outcomes.len() - 1]);
        }
    }
}

/// The whole order of work: the store, the workspace, the project, the wiki,
/// the watcher, the interrupt, the shutdown; a failure on the way ends it, and
/// an end stays what it is.
pub proof fn law_the_order_of_work(ok: bool)
    ensures
        WatchStep::OpenStore.follow(true) == WatchStep::EnsureWorkspace,
        WatchStep::EnsureWorkspace.follow(true) == WatchStep::EnsureProject,
        WatchStep::EnsureProject.follow(true) == WatchStep::OpenWiki,
        WatchStep::OpenWiki.follow(true) == WatchStep::StartWatcher,
        WatchStep::StartWatcher.follow(true) == WatchStep::AwaitInterrupt,
        WatchStep::AwaitInterrupt.follow(true) == WatchStep::Shutdown,
        WatchStep::Shutdown.follow(true) == WatchStep::Done,
        WatchStep::Done.follow(ok) == WatchStep::Done,
        WatchStep::Failed.follow(ok) == WatchStep::Failed,
        forall|step: WatchStep|
            step != WatchStep::Done ==> #[trigger] step.follow(false) == WatchStep::Failed,
{
}

} // verus!
