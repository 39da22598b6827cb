use vstd::prelude::*;

use crate::block_device::{copy_bytes, is_path_prefix, SLASH};
use crate::error::MigErrorKind;

verus! {

/// A mount made while building the in-memory root.
#[derive(Debug)]
pub struct MountRecord {
    pub mountpoint: Vec<u8>,
    pub fs_type: Vec<u8>,
}

/// A Wi-Fi network to be rendered into a network-manager connection file.
#[derive(Debug)]
pub struct WifiConfig {
    pub ssid: Vec<u8>,
    pub psk: Vec<u8>,
}

/// What cleanup must undo: the mount points to release, in this order, and
/// the directory to remove afterwards.
#[derive(Debug)]
pub struct CleanupPlan {
    pub unmounts: Vec<Vec<u8>>,
    pub remove_dir: Option<Vec<u8>>,
}

/// The byte strings of a list.
pub open spec fn paths_view(v: Seq<Vec<u8>>) -> Seq<Seq<u8>> {
    v.map_values(|p: Vec<u8>| p@)
}

/// The mount points of a list of mount records.
pub open spec fn mountpoints(v: Seq<MountRecord>) -> Seq<Seq<u8>> {
    v.map_values(|m: MountRecord| m.mountpoint@)
}

/// Releases the mounts of `plan` one by one from a stack of mounts, where only
/// the most recent mount can be released. `None` when the plan names a mount
/// that is not on top.
pub open spec fn apply_unmounts(stack: Seq<Seq<u8>>, plan: Seq<Seq<u8>>) -> Option<Seq<Seq<u8>>>
    decreases plan.len(),
{
    if plan.len() == 0 {
        Some(stack)
    } else if stack.len() > 0 && stack.last() == plan[0] {
        apply_unmounts(stack.drop_last(), plan.drop_first())
    } else {
        None
    }
}

/// The session state of Stage 1.
pub struct MigrateInfo {
    pub image_path: Vec<u8>,
    pub config_path: Vec<u8>,
    pub nwmgr_files: Vec<Vec<u8>>,
    pub wifis: Vec<WifiConfig>,
    pub log_level: Vec<u8>,
    pub to_dir: Option<Vec<u8>>,
    pub mounts: Vec<MountRecord>,
}

impl MigrateInfo {
    /// Every recorded mount lies beneath the in-memory root; there are no
    /// mounts before the root is set.
    pub open spec fn wf(&self) -> bool {
        &&& self.to_dir is None ==> self.mounts@.len() == 0
        &&& self.to_dir is Some ==> forall|i: int|
            0 <= i < self.mounts@.len() ==> is_path_prefix(self.to_dir->0@, #[trigger] self.mounts@[i].mountpoint@)
    }

    /// The in-memory root, once set.
    pub open spec fn root(&self) -> Option<Seq<u8>> {
        match self.to_dir {
            Some(d) => Some(d@),
            None => None,
        }
    }

    /// The recorded mounts, oldest first.
    pub open spec fn mount_stack(&self) -> Seq<Seq<u8>> {
        mountpoints(self.mounts@)
    }

    /// A session with the given inputs, no in-memory root and no mounts.
    pub fn new(
        image_path: Vec<u8>,
        config_path: Vec<u8>,
        nwmgr_files: Vec<Vec<u8>>,
        wifis: Vec<WifiConfig>,
        log_level: Vec<u8>,
    ) -> (r: MigrateInfo)
        ensures
            r.wf(),
            r.root() is None,
            r.mount_stack().len() == 0,
            r.image_path@ == image_path@,
            r.config_path@ == config_path@,
            r.nwmgr_files@ == nwmgr_files@,
            r.wifis@ == wifis@,
            r.log_level@ == log_level@,
    {
        MigrateInfo {
            image_path,
            config_path,
            nwmgr_files,
            wifis,
            log_level,
            to_dir: None,
            mounts: Vec::new(),
        }
    }

    pub fn get_image_path(&self) -> (r: &Vec<u8>)
        ensures
            r@ == self.image_path@,
    {
        &self.image_path
    }

    pub fn get_config_path(&self) -> (r: &Vec<u8>)
        ensures
            r@ == self.config_path@,
    {
        &self.config_path
    }

    pub fn get_nwmgr_files(&self) -> (r: &Vec<Vec<u8>>)
        ensures
            r@ == self.nwmgr_files@,
    {
        &self.nwmgr_files
    }

    pub fn get_wifis(&self) -> (r: &Vec<WifiConfig>)
        ensures
            r@ == self.wifis@,
    {
        &self.wifis
    }

    pub fn get_log_level(&self) -> (r: &Vec<u8>)
        ensures
            r@ == self.log_level@,
    {
        &self.log_level
    }

    pub fn get_to_dir(&self) -> (r: &Option<Vec<u8>>)
        ensures
            *r == self.to_dir,
    {
        &self.to_dir
    }

    /// Sets the in-memory root. It is set once and never changes after.
    pub fn set_to_dir(&mut self, dir: Vec<u8>)
        requires
            old(self).wf(),
            old(self).root() is None,
        ensures
            final(self).wf(),
            final(self).root() == Some(dir@),
            final(self).mount_stack() == old(self).mount_stack(),
            final(self).image_path == old(self).image_path,
            final(self).config_path == old(self).config_path,
            final(self).nwmgr_files == old(self).nwmgr_files,
            final(self).wifis == old(self).wifis,
            final(self).log_level == old(self).log_level,
    {
        self.to_dir = Some(dir);
    }

    /// The path `rel` beneath the in-memory root.
    pub fn path_under_root(&self, rel: &Vec<u8>) -> (r: Vec<u8>)
        requires
            self.root() is Some,
        ensures
            r@ == self.root()->0 + seq![SLASH] + rel@,
            is_path_prefix(self.root()->0, r@),
    {
        let root = self.to_dir.as_ref().unwrap();
        let mut r = copy_bytes(root);
        r.push(SLASH);
        let mut i: usize = 0;
        while i < rel.len()
            invariant
                i <= rel.len(),
                r@ == root@ + seq![SLASH] + rel@.subrange(0, i as int),
            decreases rel.len() - i,
        {
            r.push(rel[i]);
            i = i + 1;
            assert(r@ =~= root@ + seq![SLASH] + rel@.subrange(0, i as int));
        }
        assert(rel@.subrange(0, rel.len() as int) == rel@);
        assert(r@.subrange(0, root@.len() as int) =~= root@);
        assert(r@[root@.len() as int] == SLASH);
        r
    }

    /// Records a mount made at `mountpoint`, which lies beneath the in-memory
    /// root. Refuses, with `MountFailed`, a mount point elsewhere or a session
    /// without a root.
    pub fn record_mount(&mut self, mountpoint: Vec<u8>, fs_type: Vec<u8>) -> (r: Result<(), MigErrorKind>)
        requires
            old(self).wf(),
        ensures
            final(self).wf(),
            final(self).root() == old(self).root(),
            (old(self).root() is Some && is_path_prefix(old(self).root()->0, mountpoint@)) <==> r is Ok,
            r is Ok ==> final(self).mount_stack() == old(self).mount_stack().push(mountpoint@),
            r is Err ==> final(self).mount_stack() == old(self).mount_stack() && r->Err_0
                == MigErrorKind::MountFailed,
    {
        let beneath = match &self.to_dir {
            Some(root) => crate::block_device::path_starts_with(&mountpoint, root),
            None => false,
        };
        if !beneath {
            return Err(MigErrorKind::MountFailed);
        }
        let ghost old_mounts = self.mounts@;
        self.mounts.push(MountRecord { mountpoint, fs_type });
        assert(mountpoints(self.mounts@) =~= mountpoints(old_mounts).push(self.mounts@.last().mountpoint@));
        Ok(())
    }

    /// Ends the session after a failed preparation: hands back the mount
    /// points to release, most recent first, and the in-memory root to remove,
    /// and leaves a session with neither.
    pub fn umount_all(&mut self) -> (r: CleanupPlan)
        requires
            old(self).wf(),
        ensures
            final(self).wf(),
            final(self).root() is None,
            final(self).mount_stack().len() == 0,
            paths_view(r.unmounts@) == old(self).mount_stack().reverse(),
            r.remove_dir == old(self).to_dir,
    {
        let ghost stack = self.mount_stack();
        let mut unmounts: Vec<Vec<u8>> = Vec::new();
        while self.mounts.len() > 0
            invariant
                self.mount_stack() == stack.subrange(0, self.mounts@.len() as int),
                paths_view(unmounts@) == stack.subrange(self.mounts@.len() as int, stack.len() as int).reverse(),
                self.mounts@.len() <= stack.len(),
                self.to_dir == old(self).to_dir,
            decreases self.mounts.len(),
        {
            let ghost n = self.mounts@.len() as int;
            let ghost before = self.mounts@;
            let ghost old_unmounts = unmounts@;
            let record = self.mounts.pop().unwrap();
            assert(mountpoints(before)[n - 1] == before[n - 1].mountpoint@);
            assert(stack.subrange(0, n)[n - 1] == stack[n - 1]);
            unmounts.push(record.mountpoint);
            assert(self.mount_stack() =~= stack.subrange(0, n - 1));
            assert(paths_view(unmounts@) =~= paths_view(old_unmounts).push(stack[n - 1]));
            assert(paths_view(unmounts@) =~= stack.subrange(n - 1, stack.len() as int).reverse());
        }
        assert(stack.subrange(0, stack.len() as int) == stack);
        let remove_dir = self.to_dir.take();
        CleanupPlan { unmounts, remove_dir }
    }
}

/// Cleanup leaves nothing mounted: releasing the mounts in the order that
/// cleanup hands back, each is on top of the stack when its turn comes, and
/// the stack ends empty.
pub proof fn lemma_cleanup_releases_all(stack: Seq<Seq<u8>>)
    ensures
        apply_unmounts(stack, stack.reverse()) == Some(Seq::<Seq<u8>>::empty()),
    decreases stack.len(),
{
    if stack.len() > 0 {
        let rev = stack.reverse();
        assert(rev[0] == stack.last());
        assert(rev.drop_first() =~= stack.drop_last().reverse());
        lemma_cleanup_releases_all(stack.drop_last());
    } else {
        assert(stack.reverse() =~= Seq::<Seq<u8>>::empty());
        assert(stack =~= Seq::<Seq<u8>>::empty());
    }
}

/// After cleanup of any session, the recorded mounts are all released, none
/// is left recorded, and the in-memory root is the directory to remove.
pub proof fn lemma_cleanup_duality(before: MigrateInfo, after: MigrateInfo, plan: CleanupPlan)
    requires
        before.wf(),
        after.root() is None,
        after.mount_stack().len() == 0,
        paths_view(plan.unmounts@) == before.mount_stack().reverse(),
        plan.remove_dir == before.to_dir,
    ensures
        apply_unmounts(before.mount_stack(), paths_view(plan.unmounts@)) == Some(Seq::<Seq<u8>>::empty()),
        after.mount_stack().len() == 0,
        before.root() is Some ==> plan.remove_dir is Some && plan.remove_dir->0@ == before.root()->0,
{
    lemma_cleanup_releases_all(before.mount_stack());
}

} // verus!
