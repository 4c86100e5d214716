//! The namespace orchestration: the supervisor's setup pipeline as a
//! state machine, the handshake rule that the command runner starts only
//! after every overlay is live, and the wrapper's exit-code rules.
//!
//! The supervisor hands out one action at a time; the process that runs
//! the pipeline performs it (unshare, id maps, mount propagation, pipe,
//! fork, opening each source directory, mounting each overlay, the pipe
//! handshake, waiting) and feeds the outcome back.

use vstd::prelude::*;

use crate::logfmt::spec_dec;
use crate::logfmt::u64_to_dec;
use crate::planner::MountPoint;

verus! {

/// What the orchestrator runs: the overlay mounts and the user command
/// with its arguments.
pub struct NamespaceConfig {
    pub mount_points: Vec<MountPoint>,
    pub command: String,
    pub args: Vec<String>,
}

impl NamespaceConfig {
    /// With no mounts there is nothing to interpose on: the sandbox is
    /// bypassed and the command runs directly.
    pub fn needs_sandbox(&self) -> (r: bool)
        ensures
            r == (self.mount_points@.len() > 0),
    {
        self.mount_points.len() > 0
    }
}

/// The exit code of a sandbox setup failure.
pub const EXIT_SETUP_FAILURE: i32 = 126;

/// The exit code of a command that could not be executed.
pub const EXIT_EXEC_FAILURE: i32 = 127;

/// How a waited-for child ended.
#[derive(Clone, Copy, Debug, PartialEq, Eq, Structural)]
pub enum WaitOutcome {
    Exited(i32),
    Signaled(i32),
    Other,
}

/// The exit code the wrapper propagates for a child: the child's own
/// code, `128 + signal` for a signaled child, and 1 otherwise.
pub open spec fn spec_wait_exit_code(w: WaitOutcome) -> int {
    match w {
        WaitOutcome::Exited(c) => c as int,
        WaitOutcome::Signaled(s) => 128 + s,
        WaitOutcome::Other => 1,
    }
}

/// Maps a wait outcome to the exit code the wrapper propagates.
pub fn wait_exit_code(w: &WaitOutcome) -> (r: i32)
    requires
        *w matches WaitOutcome::Signaled(s) ==> 0 <= s <= 64,
    ensures
        r as int == spec_wait_exit_code(*w),
{
    match w {
        WaitOutcome::Exited(c) => *c,
        WaitOutcome::Signaled(s) => 128 + *s,
        WaitOutcome::Other => 1,
    }
}

/// One line of a uid or gid map: the id mapped to itself, for a range of
/// one.
pub fn id_map_line(id: u32) -> (r: String)
    ensures
        r@ == spec_dec(id as int) + seq![' '] + spec_dec(id as int) + " 1\n"@,
{
    let mut s = u64_to_dec(id as u64);
    s.append(" ");
    s.append(u64_to_dec(id as u64).as_str());
    s.append(" 1\n");
    proof {
        reveal_strlit(" ");
        assert(" "@ =~= seq![' ']);
        assert(s@ =~= spec_dec(id as int) + seq![' '] + spec_dec(id as int) + " 1\n"@);
    }
    s
}

/// One step of the supervisor's setup pipeline.
#[derive(Clone, Copy, Debug, PartialEq, Eq, Structural)]
pub enum SetupAction {
    /// Create the user and mount namespace.
    Unshare,
    /// Write the setgroups, uid-map and gid-map files.
    WriteIdMaps,
    /// Make mount propagation private below the root.
    MountPrivate,
    /// Create the handshake pipe.
    CreatePipe,
    /// Fork the command runner, which blocks on the pipe.
    ForkRunner,
    /// Open the source directory of mount `idx` by its absolute path;
    /// nothing is mounted yet, so the path still names the real
    /// directory.
    OpenSource { idx: usize },
    /// Construct the overlay of mount `idx` around its pre-captured
    /// source descriptor and mount it on the target.
    MountOverlay { idx: usize },
    /// Write the ready byte and close the pipe: the runner may proceed.
    ReleaseRunner,
    /// Wait for the runner and feed its exit code back.
    WaitRunner,
    /// Setup failed after the fork: release the runner through the pipe,
    /// terminate it and wait for it.
    AbortRunner,
    /// Tear down the overlays and exit with this code.
    Exit { code: i32 },
}

/// The action that follows `cur` when it ended with `ok`, for a pipeline
/// of `n` mounts; `code` is the exit code a wait reported. A failure
/// before the fork exits directly; a failure after it aborts the runner
/// first; the runner is released only after the last overlay is mounted.
pub open spec fn spec_step(n: int, cur: SetupAction, ok: bool, code: i32) -> SetupAction {
    match cur {
        SetupAction::Unshare => if ok {
            SetupAction::WriteIdMaps
        } else {
            SetupAction::Exit { code: EXIT_SETUP_FAILURE }
        },
        SetupAction::WriteIdMaps => if ok {
            SetupAction::MountPrivate
        } else {
            SetupAction::Exit { code: EXIT_SETUP_FAILURE }
        },
        SetupAction::MountPrivate => if ok {
            SetupAction::CreatePipe
        } else {
            SetupAction::Exit { code: EXIT_SETUP_FAILURE }
        },
        SetupAction::CreatePipe => if ok {
            SetupAction::ForkRunner
        } else {
            SetupAction::Exit { code: EXIT_SETUP_FAILURE }
        },
        SetupAction::ForkRunner => if ok {
            SetupAction::OpenSource { idx: 0 }
        } else {
            SetupAction::Exit { code: EXIT_SETUP_FAILURE }
        },
        SetupAction::OpenSource { idx } => if !ok {
            SetupAction::AbortRunner
        } else if idx + 1 < n {
            SetupAction::OpenSource { idx: (idx + 1) as usize }
        } else {
            SetupAction::MountOverlay { idx: 0 }
        },
        SetupAction::MountOverlay { idx } => if !ok {
            SetupAction::AbortRunner
        } else if idx + 1 < n {
            SetupAction::MountOverlay { idx: (idx + 1) as usize }
        } else {
            SetupAction::ReleaseRunner
        },
        SetupAction::ReleaseRunner => SetupAction::WaitRunner,
        SetupAction::WaitRunner => SetupAction::Exit { code },
        SetupAction::AbortRunner => SetupAction::Exit { code: EXIT_SETUP_FAILURE },
        SetupAction::Exit { code } => SetupAction::Exit { code },
    }
}

/// The supervisor's state: the number of overlay mounts and the action it
/// last handed out.
pub struct Supervisor {
    pub n_mounts: usize,
    pub pending: SetupAction,
}

impl Supervisor {
    /// Mount indexes stay below the number of mounts.
    pub open spec fn wf(&self) -> bool {
        &&& self.n_mounts >= 1
        &&& (self.pending matches SetupAction::OpenSource { idx } ==> idx < self.n_mounts)
        &&& (self.pending matches SetupAction::MountOverlay { idx } ==> idx < self.n_mounts)
    }

    /// A supervisor for `n_mounts` overlay mounts; the pipeline starts by
    /// creating the namespaces.
    pub fn new(n_mounts: usize) -> (r: Supervisor)
        requires
            n_mounts >= 1,
        ensures
            r.wf(),
            r.n_mounts == n_mounts,
            r.pending == SetupAction::Unshare,
    {
        Supervisor { n_mounts, pending: SetupAction::Unshare }
    }

    /// Feeds back the outcome of the pending action and hands out the
    /// next one; `code` is meaningful only after a wait.
    pub fn step(&mut self, ok: bool, code: i32) -> (a: SetupAction)
        requires
            old(self).wf(),
            !(old(self).pending matches SetupAction::Exit { .. }),
        ensures
            final(self).wf(),
            final(self).n_mounts == old(self).n_mounts,
            final(self).pending == a,
            a == spec_step(old(self).n_mounts as int, old(self).pending, ok, code),
    {
        let n = self.n_mounts;
        let next = match self.pending {
            SetupAction::Unshare => if ok {
                SetupAction::WriteIdMaps
            } else {
                SetupAction::Exit { code: EXIT_SETUP_FAILURE }
            },
            SetupAction::WriteIdMaps => if ok {
                SetupAction::MountPrivate
            } else {
                SetupAction::Exit { code: EXIT_SETUP_FAILURE }
            },
            SetupAction::MountPrivate => if ok {
                SetupAction::CreatePipe
            } else {
                SetupAction::Exit { code: EXIT_SETUP_FAILURE }
            },
            SetupAction::CreatePipe => if ok {
                SetupAction::ForkRunner
            } else {
                SetupAction::Exit { code: EXIT_SETUP_FAILURE }
            },
            SetupAction::ForkRunner => if ok {
                SetupAction::OpenSource { idx: 0 }
            } else {
                SetupAction::Exit { code: EXIT_SETUP_FAILURE }
            },
            SetupAction::OpenSource { idx } => if !ok {
                SetupAction::AbortRunner
            } else if idx + 1 < n {
                SetupAction::OpenSource { idx: idx + 1 }
            } else {
                SetupAction::MountOverlay { idx: 0 }
            },
            SetupAction::MountOverlay { idx } => if !ok {
                SetupAction::AbortRunner
            } else if idx + 1 < n {
                SetupAction::MountOverlay { idx: idx + 1 }
            } else {
                SetupAction::ReleaseRunner
            },
            SetupAction::ReleaseRunner => SetupAction::WaitRunner,
            SetupAction::WaitRunner => SetupAction::Exit { code },
            SetupAction::AbortRunner => SetupAction::Exit { code: EXIT_SETUP_FAILURE },
            SetupAction::Exit { code } => SetupAction::Exit { code },
        };
        self.pending = next;
        next
    }
}

/// The runner is released only when the whole pipeline has succeeded: the
/// step that hands out the release is the successful mount of the last
/// overlay.
pub proof fn lemma_release_only_after_all_mounted(n: int, cur: SetupAction, ok: bool, code: i32)
    requires
        1 <= n <= usize::MAX,
        cur matches SetupAction::MountOverlay { idx } ==> idx < n,
    ensures
        spec_step(n, cur, ok, code) == SetupAction::ReleaseRunner ==> (ok && cur
            == (SetupAction::MountOverlay { idx: (n - 1) as usize })),
{
    if spec_step(n, cur, ok, code) == SetupAction::ReleaseRunner {
        match cur {
            SetupAction::MountOverlay { idx } => {
                assert(!(idx + 1 < n));
            },
            _ => {},
        }
    }
}

/// A failure before the runner is forked exits directly with the setup
/// code; a failure while opening sources or mounting overlays aborts the
/// runner first, and the abort also exits with the setup code.
pub proof fn lemma_failure_exits_with_setup_code(n: int, cur: SetupAction, code: i32)
    ensures
        (cur == SetupAction::Unshare || cur == SetupAction::WriteIdMaps || cur
            == SetupAction::MountPrivate || cur == SetupAction::CreatePipe || cur
            == SetupAction::ForkRunner) ==> spec_step(n, cur, false, code)
            == (SetupAction::Exit { code: EXIT_SETUP_FAILURE }),
        (cur matches SetupAction::OpenSource { .. } || cur matches SetupAction::MountOverlay {
            ..
        }) ==> spec_step(n, cur, false, code) == SetupAction::AbortRunner,
        spec_step(n, SetupAction::AbortRunner, false, code) == (SetupAction::Exit {
            code: EXIT_SETUP_FAILURE,
        }),
{
}

} // verus!
