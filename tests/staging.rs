use takeover::staging::{next, StagingStep};

fn walk(failures: &[StagingStep]) -> Vec<StagingStep> {
    let mut step = StagingStep::MountRoot;
    let mut seen = vec![step];
    while step != StagingStep::Finished && step != StagingStep::Failed {
        step = next(step, !failures.contains(&step));
        seen.push(step);
    }
    seen
}

#[test]
fn devtmpfs_path() {
    assert_eq!(
        walk(&[]),
        vec![
            StagingStep::MountRoot,
            StagingStep::MakeEtc,
            StagingStep::MountProc,
            StagingStep::MountTmp,
            StagingStep::MountSys,
            StagingStep::MountDev,
            StagingStep::MountPts,
            StagingStep::MakeOldRoot,
            StagingStep::CopyFiles,
            StagingStep::Finished,
        ]
    );
}

#[test]
fn devtmpfs_failure_falls_back_to_copy() {
    let seen = walk(&[StagingStep::MountDev]);
    assert_eq!(
        &seen[5..],
        &[
            StagingStep::MountDev,
            StagingStep::MountDevFallback,
            StagingStep::CopyDev,
            StagingStep::ClearPts,
            StagingStep::MountPts,
            StagingStep::MakeOldRoot,
            StagingStep::CopyFiles,
            StagingStep::Finished,
        ]
    );
}

#[test]
fn failed_mount_is_final() {
    assert_eq!(walk(&[StagingStep::MountProc]).last(), Some(&StagingStep::Failed));
    assert_eq!(walk(&[StagingStep::MountDev, StagingStep::CopyDev]).last(), Some(&StagingStep::Failed));
    assert_eq!(walk(&[StagingStep::CopyFiles]).len(), 10);
    assert_eq!(next(StagingStep::Failed, true), StagingStep::Failed);
    assert_eq!(next(StagingStep::Finished, false), StagingStep::Finished);
}
