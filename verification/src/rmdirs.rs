//! The privilege-isolated deletion engine, in two halves.
//!
//! The model half states what batch deletion means on a snapshot of existing
//! paths, and that it is idempotent and tolerant of missing directories.
//!
//! The protocol half is the parent's supervision of the helper process as a
//! step function from phase and event to the next phase, with the action each
//! phase prescribes. The caller performs the actions (pipe, spawn, uid-map
//! write, wakeup, wait) and reports each outcome back; the ordering argument
//! — the uid/gid mapping is written before the child is woken — is proved of
//! the step function itself.

use vstd::prelude::*;
use vstd::string::*;

verus! {

// ---------------------------------------------------------------------------
// The deletion model.
// ---------------------------------------------------------------------------

/// `p` lies in the tree rooted at `d`: it is `d` itself or has `d/` as a
/// prefix.
pub open spec fn same_or_under(p: Seq<char>, d: Seq<char>) -> bool {
    p == d || (p.len() > d.len() && p.take(d.len() as int) == d && p[d.len() as int] == '/')
}

/// Some requested directory's tree holds `p`.
pub open spec fn covered(dirs: Seq<Seq<char>>, p: Seq<char>) -> bool {
    exists|i: int| 0 <= i < dirs.len() && same_or_under(p, dirs[i])
}

/// Deleting a batch of directory trees from a snapshot of existing paths:
/// exactly the paths inside some requested tree disappear.
pub open spec fn remove_trees(fs: Set<Seq<char>>, dirs: Seq<Seq<char>>) -> Set<Seq<char>> {
    Set::new(|p: Seq<char>| fs.contains(p) && !covered(dirs, p))
}

/// An empty batch is a no-op that succeeds.
pub proof fn lemma_remove_trees_empty_batch(fs: Set<Seq<char>>)
    ensures
        remove_trees(fs, Seq::empty()) =~= fs,
{
}

/// Deleting the same batch twice changes nothing the second time.
pub proof fn lemma_remove_trees_idempotent(fs: Set<Seq<char>>, dirs: Seq<Seq<char>>)
    ensures
        remove_trees(remove_trees(fs, dirs), dirs) =~= remove_trees(fs, dirs),
{
}

/// A requested directory with nothing on disk under it changes nothing:
/// a batch that includes already-nonexistent paths removes only the
/// existing ones.
pub proof fn lemma_remove_trees_missing_harmless(
    fs: Set<Seq<char>>,
    dirs: Seq<Seq<char>>,
    d: Seq<char>,
)
    requires
        forall|p: Seq<char>| fs.contains(p) ==> !same_or_under(p, d),
    ensures
        remove_trees(fs, dirs.push(d)) =~= remove_trees(fs, dirs),
{
    assert forall|p: Seq<char>|
        remove_trees(fs, dirs.push(d)).contains(p) == remove_trees(fs, dirs).contains(p) by {
        if fs.contains(p) {
            if covered(dirs, p) {
                let i = choose|i: int| 0 <= i < dirs.len() && same_or_under(p, dirs[i]);
                assert(dirs.push(d)[i] == dirs[i]);
                assert(covered(dirs.push(d), p));
            }
            if covered(dirs.push(d), p) {
                let i = choose|i: int| 0 <= i < dirs.push(d).len() && same_or_under(p, dirs.push(d)[i]);
                if i < dirs.len() {
                    assert(covered(dirs, p));
                } else {
                    assert(same_or_under(p, d));
                }
            }
        }
    }
}

/// Deletion never invents paths: what remains was there before.
pub proof fn lemma_remove_trees_subset(fs: Set<Seq<char>>, dirs: Seq<Seq<char>>)
    ensures
        forall|p: Seq<char>| remove_trees(fs, dirs).contains(p) ==> fs.contains(p),
{
}

// ---------------------------------------------------------------------------
// Helper-mode decisions.
// ---------------------------------------------------------------------------

/// What one recursive removal attempt came to, as the helper sees it.
pub enum RemoveOutcome {
    /// The tree is gone.
    Removed,
    /// The path did not exist; the caller may have raced another cleanup.
    Missing,
    /// The operating system refused; the text is its error.
    Failed(String),
}

/// A missing path is tolerated; only a refusal stops the helper.
pub fn removal_fatal(outcome: &RemoveOutcome) -> (r: bool)
    ensures
        r == (outcome is Failed),
{
    match outcome {
        RemoveOutcome::Failed(_) => true,
        RemoveOutcome::Removed => false,
        RemoveOutcome::Missing => false,
    }
}

/// The helper's per-directory diagnostic line.
pub fn removal_error(dir: &str, err: &str) -> (r: String)
    ensures
        r@ == ("Error removing ")@ + dir@ + (": ")@ + err@,
{
    let mut s: String = "Error removing ".to_owned();
    s.append(dir);
    s.append(": ");
    s.append(err);
    s
}

// ---------------------------------------------------------------------------
// The supervision protocol.
// ---------------------------------------------------------------------------

/// The helper subcommand the runner re-invokes itself with.
pub open spec fn rm_subcommand() -> Seq<char> {
    seq!['_', '_', 'r', 'm']
}

/// The helper's argument list: the internal subcommand followed by the
/// directories to remove, in order.
pub fn rm_helper_args(dirs: &Vec<String>) -> (r: Vec<String>)
    ensures
        r.deep_view() =~= seq![rm_subcommand()] + dirs.deep_view(),
{
    let mut args: Vec<String> = Vec::new();
    args.push("__rm".to_owned());
    proof {
        reveal_strlit("__rm");
        assert(("__rm")@ =~= rm_subcommand());
        assert(args.deep_view() =~~= seq![rm_subcommand()]);
    }
    let mut k: usize = 0;
    while k < dirs.len()
        invariant
            k <= dirs.len(),
            args.deep_view() =~= seq![rm_subcommand()] + dirs.deep_view().take(k as int),
        decreases dirs.len() - k,
    {
        let ghost old_deep = args.deep_view();
        args.push(dirs[k].clone());
        proof {
            assert(args.deep_view() =~= old_deep.push(dirs.deep_view()[k as int]));
            assert(args.deep_view() =~= seq![rm_subcommand()] + dirs.deep_view().take(k + 1));
        }
        k = k + 1;
    }
    proof {
        assert(dirs.deep_view().take(dirs.len() as int) =~= dirs.deep_view());
    }
    args
}

/// Where the parent stands in the supervision of one deletion batch.
#[derive(Clone, Copy, Debug, PartialEq, Eq, Structural)]
pub enum RmPhase {
    /// Nothing done yet.
    Start,
    /// The synchronization pipe exists.
    PipeOpen,
    /// The helper exists, blocked on the pipe, with no mapped identity yet.
    Spawned,
    /// The helper's uid/gid mapping is on disk; it is safe to wake it.
    MapWritten,
    /// The wakeup was sent; the helper may now touch the filesystem.
    Woken,
    /// The helper exited with status zero.
    Done,
    /// A step failed or the helper exited nonzero.
    Failed,
}

/// What the caller reports after performing a prescribed action.
#[derive(Clone, Copy, Debug, PartialEq, Eq, Structural)]
pub enum RmEvent {
    Succeeded,
    Failed,
    ChildExited(i32),
}

/// The outside work each phase prescribes.
#[derive(Clone, Copy, Debug, PartialEq, Eq, Structural)]
pub enum RmAction {
    OpenPipe,
    SpawnHelper,
    WriteUidMap,
    SendWakeup,
    AwaitChild,
}

/// One protocol step. The only path into `Woken` runs through
/// `MapWritten`, and the only path into `MapWritten` is a successful
/// uid-map write from `Spawned`: the handshake cannot be skipped.
pub open spec fn rm_advance_spec(phase: RmPhase, event: RmEvent) -> RmPhase {
    match (phase, event) {
        (RmPhase::Start, RmEvent::Succeeded) => RmPhase::PipeOpen,
        (RmPhase::PipeOpen, RmEvent::Succeeded) => RmPhase::Spawned,
        (RmPhase::Spawned, RmEvent::Succeeded) => RmPhase::MapWritten,
        (RmPhase::MapWritten, RmEvent::Succeeded) => RmPhase::Woken,
        (RmPhase::Woken, RmEvent::ChildExited(status)) => if status == 0 {
            RmPhase::Done
        } else {
            RmPhase::Failed
        },
        _ => RmPhase::Failed,
    }
}

/// Advances the protocol exactly as `rm_advance_spec` describes.
pub fn rm_advance(phase: RmPhase, event: RmEvent) -> (r: RmPhase)
    ensures
        r == rm_advance_spec(phase, event),
{
    match (phase, event) {
        (RmPhase::Start, RmEvent::Succeeded) => RmPhase::PipeOpen,
        (RmPhase::PipeOpen, RmEvent::Succeeded) => RmPhase::Spawned,
        (RmPhase::Spawned, RmEvent::Succeeded) => RmPhase::MapWritten,
        (RmPhase::MapWritten, RmEvent::Succeeded) => RmPhase::Woken,
        (RmPhase::Woken, RmEvent::ChildExited(status)) => if status == 0 {
            RmPhase::Done
        } else {
            RmPhase::Failed
        },
        _ => RmPhase::Failed,
    }
}

/// The action the current phase prescribes, or nothing when the run is
/// over.
pub fn rm_next_action(phase: &RmPhase) -> (r: Option<RmAction>)
    ensures
        match phase {
            RmPhase::Start => r == Some(RmAction::OpenPipe),
            RmPhase::PipeOpen => r == Some(RmAction::SpawnHelper),
            RmPhase::Spawned => r == Some(RmAction::WriteUidMap),
            RmPhase::MapWritten => r == Some(RmAction::SendWakeup),
            RmPhase::Woken => r == Some(RmAction::AwaitChild),
            RmPhase::Done => r is None,
            RmPhase::Failed => r is None,
        },
{
    match phase {
        RmPhase::Start => Some(RmAction::OpenPipe),
        RmPhase::PipeOpen => Some(RmAction::SpawnHelper),
        RmPhase::Spawned => Some(RmAction::WriteUidMap),
        RmPhase::MapWritten => Some(RmAction::SendWakeup),
        RmPhase::Woken => Some(RmAction::AwaitChild),
        RmPhase::Done => None,
        RmPhase::Failed => None,
    }
}

/// Whether a finished run succeeded: only a zero helper exit status does.
pub fn rm_outcome(phase: &RmPhase) -> (r: Option<bool>)
    ensures
        match phase {
            RmPhase::Done => r == Some(true),
            RmPhase::Failed => r == Some(false),
            _ => r is None,
        },
{
    match phase {
        RmPhase::Done => Some(true),
        RmPhase::Failed => Some(false),
        _ => None,
    }
}

/// The phase after a sequence of reported events, starting from `Start`.
pub open spec fn rm_run(events: Seq<RmEvent>) -> RmPhase
    decreases events.len(),
{
    if events.len() == 0 {
        RmPhase::Start
    } else {
        rm_advance_spec(rm_run(events.drop_last()), events.last())
    }
}

/// The ordering invariant of the handshake: in any run that has sent the
/// wakeup, the step just before the wakeup was the successful uid/gid
/// mapping write, performed on the already-spawned helper. The helper
/// blocks on the pipe until the wakeup, so its filesystem work begins only
/// after its mapping is in place.
pub proof fn lemma_map_written_before_wakeup(events: Seq<RmEvent>)
    requires
        rm_run(events) is Woken,
    ensures
        events.len() >= 2,
        rm_run(events.take(events.len() - 1)) is MapWritten,
        events[events.len() - 1] is Succeeded,
        rm_run(events.take(events.len() - 2)) is Spawned,
        events[events.len() - 2] is Succeeded,
{
    let n = events.len() as int;
    assert(n >= 1);
    let prefix = events.drop_last();
    assert(rm_advance_spec(rm_run(prefix), events.last()) is Woken);
    assert(rm_run(prefix) is MapWritten && events.last() is Succeeded);
    assert(prefix.len() >= 1);
    let prefix2 = prefix.drop_last();
    assert(rm_advance_spec(rm_run(prefix2), prefix.last()) is MapWritten);
    assert(rm_run(prefix2) is Spawned && prefix.last() is Succeeded);
    assert(events.take(n - 1) =~= prefix);
    assert(events.take(n - 2) =~= prefix2);
    assert(events[n - 2] == prefix.last());
}

/// A run that ended successfully went through the wakeup, and so through
/// the mapping write before it.
pub proof fn lemma_success_implies_handshake(events: Seq<RmEvent>)
    requires
        rm_run(events) is Done,
    ensures
        events.len() >= 3,
        rm_run(events.take(events.len() - 1)) is Woken,
        rm_run(events.take(events.len() - 2)) is MapWritten,
        rm_run(events.take(events.len() - 3)) is Spawned,
    decreases events.len(),
{
    let n = events.len() as int;
    assert(n >= 1);
    let prefix = events.drop_last();
    assert(rm_advance_spec(rm_run(prefix), events.last()) is Done);
    assert(rm_run(prefix) is Woken);
    lemma_map_written_before_wakeup(prefix);
    assert(events.take(n - 1) =~= prefix);
    assert(events.take(n - 2) =~= prefix.take(prefix.len() - 1));
    assert(events.take(n - 3) =~= prefix.take(prefix.len() - 2));
}

} // verus!
