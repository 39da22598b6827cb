use vstd::prelude::*;

verus! {

/// The steps that build the in-memory root, in the order they run.
#[derive(Clone, Copy, Debug, PartialEq, Eq, Structural)]
pub enum StagingStep {
    /// Mount a tmpfs at the root.
    MountRoot,
    /// Create `etc/` and the `etc/mtab` link to `/proc/mounts`.
    MakeEtc,
    /// Mount `proc` at `proc/`.
    MountProc,
    /// Mount a tmpfs at `tmp/`.
    MountTmp,
    /// Mount `sysfs` at `sys/`.
    MountSys,
    /// Mount `devtmpfs` at `dev/`.
    MountDev,
    /// The kernel has no devtmpfs: mount a tmpfs at `dev/` instead.
    MountDevFallback,
    /// Copy the host's `/dev` into the tmpfs at `dev/`.
    CopyDev,
    /// Remove a copied `dev/pts/` so that it can be mounted afresh.
    ClearPts,
    /// Mount `devpts` at `dev/pts/`.
    MountPts,
    /// Create the mount point for the old root.
    MakeOldRoot,
    /// Copy the artifacts into the root.
    CopyFiles,
    /// The root is built.
    Finished,
    /// A step failed; the root must be cleaned up.
    Failed,
}

/// The step after `s`, given whether `s` succeeded. A failed devtmpfs mount
/// falls back to a tmpfs with a copy of `/dev`; any other failure is final.
pub open spec fn next_step(s: StagingStep, ok: bool) -> StagingStep {
    match s {
        StagingStep::Finished => StagingStep::Finished,
        StagingStep::Failed => StagingStep::Failed,
        StagingStep::MountDev => if ok {
            StagingStep::MountPts
        } else {
            StagingStep::MountDevFallback
        },
        _ => if !ok {
            StagingStep::Failed
        } else {
            match s {
                StagingStep::MountRoot => StagingStep::MakeEtc,
                StagingStep::MakeEtc => StagingStep::MountProc,
                StagingStep::MountProc => StagingStep::MountTmp,
                StagingStep::MountTmp => StagingStep::MountSys,
                StagingStep::MountSys => StagingStep::MountDev,
                StagingStep::MountDevFallback => StagingStep::CopyDev,
                StagingStep::CopyDev => StagingStep::ClearPts,
                StagingStep::ClearPts => StagingStep::MountPts,
                StagingStep::MountPts => StagingStep::MakeOldRoot,
                StagingStep::MakeOldRoot => StagingStep::CopyFiles,
                _ => StagingStep::Finished,
            }
        },
    }
}

/// How many steps at most are left before the build ends.
pub open spec fn steps_left(s: StagingStep) -> nat {
    match s {
        StagingStep::MountRoot => 12,
        StagingStep::MakeEtc => 11,
        StagingStep::MountProc => 10,
        StagingStep::MountTmp => 9,
        StagingStep::MountSys => 8,
        StagingStep::MountDev => 7,
        StagingStep::MountDevFallback => 6,
        StagingStep::CopyDev => 5,
        StagingStep::ClearPts => 4,
        StagingStep::MountPts => 3,
        StagingStep::MakeOldRoot => 2,
        StagingStep::CopyFiles => 1,
        StagingStep::Finished => 0,
        StagingStep::Failed => 0,
    }
}

/// The step after `s`, given whether `s` succeeded.
pub fn next(s: StagingStep, ok: bool) -> (r: StagingStep)
    ensures
        r == next_step(s, ok),
{
    match s {
        StagingStep::Finished => StagingStep::Finished,
        StagingStep::Failed => StagingStep::Failed,
        StagingStep::MountDev => if ok {
            StagingStep::MountPts
        } else {
            StagingStep::MountDevFallback
        },
        _ => if !ok {
            StagingStep::Failed
        } else {
            match s {
                StagingStep::MountRoot => StagingStep::MakeEtc,
                StagingStep::MakeEtc => StagingStep::MountProc,
                StagingStep::MountProc => StagingStep::MountTmp,
                StagingStep::MountTmp => StagingStep::MountSys,
                StagingStep::MountSys => StagingStep::MountDev,
                StagingStep::MountDevFallback => StagingStep::CopyDev,
                StagingStep::CopyDev => StagingStep::ClearPts,
                StagingStep::ClearPts => StagingStep::MountPts,
                StagingStep::MountPts => StagingStep::MakeOldRoot,
                StagingStep::MakeOldRoot => StagingStep::CopyFiles,
                _ => StagingStep::Finished,
            }
        },
    }
}

/// The build ends: every step that has not ended brings it closer to the end.
pub proof fn lemma_staging_ends(s: StagingStep, ok: bool)
    ensures
        !(s == StagingStep::Finished || s == StagingStep::Failed) ==> steps_left(next_step(s, ok))
            < steps_left(s),
        steps_left(s) == 0 <==> (s == StagingStep::Finished || s == StagingStep::Failed),
{
}

/// Both ways of setting up `dev/` end in the same place: whether the devtmpfs
/// mount succeeds, or fails and the tmpfs copy of `/dev` succeeds, the next
/// step mounts `devpts` at `dev/pts/`.
pub proof fn lemma_dev_paths_meet()
    ensures
        next_step(StagingStep::MountDev, true) == StagingStep::MountPts,
        next_step(
            next_step(next_step(next_step(StagingStep::MountDev, false), true), true),
            true,
        ) == StagingStep::MountPts,
{
}

} // verus!
