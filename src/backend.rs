use vstd::prelude::*;

verus! {

/// Where inference runs.
#[derive(Clone, Copy, Debug, PartialEq, Eq, Structural)]
pub enum Backend {
    /// The session was built with GPU acceleration.
    Accelerated,
    /// The accelerated build failed and a CPU-only session was built instead.
    CpuFallback,
}

/// The one-time start-up of the inference session: first an accelerated
/// build, then, only if that fails, a CPU-only build.
#[derive(Clone, Copy, Debug, PartialEq, Eq, Structural)]
pub enum InitStep {
    /// Build the session with GPU acceleration next.
    BuildAccelerated,
    /// Build a CPU-only session next.
    BuildCpu,
    /// A session was built, on the backend named.
    Ready(Backend),
    /// Both builds failed.
    Failed,
}

impl InitStep {
    /// No build is left to attempt.
    pub open spec fn is_final(self) -> bool {
        self is Ready || self is Failed
    }
}

/// The step after `step`, given whether the build it asked for succeeded.
pub open spec fn step_after(step: InitStep, built: bool) -> InitStep {
    match step {
        InitStep::BuildAccelerated => if built {
            InitStep::Ready(Backend::Accelerated)
        } else {
            InitStep::BuildCpu
        },
        InitStep::BuildCpu => if built {
            InitStep::Ready(Backend::CpuFallback)
        } else {
            InitStep::Failed
        },
        _ => step,
    }
}

/// Where start-up begins.
pub fn first_step() -> (r: InitStep)
    ensures
        r == InitStep::BuildAccelerated,
{
    InitStep::BuildAccelerated
}

/// Advances the start-up once the build that `step` asked for has been
/// attempted; `built` says whether it succeeded. A final step stays as it is.
pub fn next_step(step: InitStep, built: bool) -> (r: InitStep)
    ensures
        r == step_after(step, built),
{
    match step {
        InitStep::BuildAccelerated => if built {
            InitStep::Ready(Backend::Accelerated)
        } else {
            InitStep::BuildCpu
        },
        InitStep::BuildCpu => if built {
            InitStep::Ready(Backend::CpuFallback)
        } else {
            InitStep::Failed
        },
        _ => step,
    }
}

/// Start-up makes at most two build attempts and then has a result; it ends
/// in `Failed` only when both attempts failed, and falls back to the CPU only
/// when the accelerated build failed.
pub proof fn lemma_startup_ends_within_two_attempts(first: bool, second: bool)
    ensures
        step_after(step_after(InitStep::BuildAccelerated, first), second).is_final(),
        step_after(step_after(InitStep::BuildAccelerated, first), second) == InitStep::Failed
            <==> !first && !second,
        step_after(step_after(InitStep::BuildAccelerated, first), second) == InitStep::Ready(
            Backend::CpuFallback,
        ) <==> !first && second,
        first ==> step_after(InitStep::BuildAccelerated, first) == InitStep::Ready(
            Backend::Accelerated,
        ),
{
}

} // verus!
