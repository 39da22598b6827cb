use vstd::prelude::*;

use crate::error::MigErrorKind;
use crate::fields::{copy_range, find_byte, split_at_byte, SPACE};

verus! {

/// The path separator `/`.
pub const SLASH: u8 = 47;

/// `base` is a prefix of `path` by whole components. Paths are taken as the
/// kernel reports mount points: absolute, without a trailing separator except
/// for `/` itself.
pub open spec fn is_path_prefix(base: Seq<u8>, path: Seq<u8>) -> bool {
    &&& base.len() <= path.len()
    &&& path.subrange(0, base.len() as int) == base
    &&& (base.len() == path.len() || (base.len() > 0 && base.last() == SLASH) || path[base.len() as int]
        == SLASH)
}

proof fn lemma_prefix_transitive(a: Seq<u8>, b: Seq<u8>, c: Seq<u8>)
    requires
        is_path_prefix(a, b),
        is_path_prefix(b, c),
    ensures
        is_path_prefix(a, c),
{
    assert(c.subrange(0, a.len() as int) == c.subrange(0, b.len() as int).subrange(0, a.len() as int));
    if a.len() < b.len() && !(a.len() > 0 && a.last() == SLASH) {
        assert(b[a.len() as int] == c.subrange(0, b.len() as int)[a.len() as int]);
    }
}

proof fn lemma_prefix_antisymmetric(a: Seq<u8>, b: Seq<u8>)
    requires
        is_path_prefix(a, b),
        is_path_prefix(b, a),
    ensures
        a == b,
{
    assert(b.subrange(0, b.len() as int) == b);
}

/// Copies a byte string.
pub fn copy_bytes(v: &Vec<u8>) -> (r: Vec<u8>)
    ensures
        r@ == v@,
{
    let mut r: Vec<u8> = Vec::new();
    let mut i: usize = 0;
    while i < v.len()
        invariant
            i <= v.len(),
            r@ == v@.subrange(0, i as int),
        decreases v.len() - i,
    {
        r.push(v[i]);
        i = i + 1;
    }
    assert(v@.subrange(0, v.len() as int) == v@);
    r
}

/// Whether `path` lies at or beneath `base`, by whole components.
pub fn path_starts_with(path: &Vec<u8>, base: &Vec<u8>) -> (r: bool)
    ensures
        r == is_path_prefix(base@, path@),
{
    if base.len() > path.len() {
        return false;
    }
    let mut i: usize = 0;
    while i < base.len()
        invariant
            base.len() <= path.len(),
            i <= base.len(),
            forall|k: int| 0 <= k < i ==> path@[k] == base@[k],
        decreases base.len() - i,
    {
        if path[i] != base[i] {
            assert(path@.subrange(0, base.len() as int)[i as int] != base@[i as int]);
            return false;
        }
        i = i + 1;
    }
    assert(path@.subrange(0, base.len() as int) == base@);
    base.len() == path.len() || (base.len() > 0 && base[base.len() - 1] == SLASH) || path[base.len()]
        == SLASH
}

/// Where a device is mounted, and as what.
#[derive(Debug)]
pub struct MountInfo {
    pub mountpoint: Vec<u8>,
    pub fs_type: Vec<u8>,
}

/// A block device or partition. `parent` holds the name of the disk that a
/// partition belongs to: a key into the same inventory, not an owned value.
#[derive(Debug)]
pub struct Device {
    pub name: Vec<u8>,
    pub dev_path: Vec<u8>,
    pub parent: Option<Vec<u8>>,
    pub mount: Option<MountInfo>,
}

/// One entry of the unmount plan handed to Stage 2.
#[derive(Debug)]
pub struct UmountPart {
    pub dev_name: Vec<u8>,
    pub mountpoint: Vec<u8>,
    pub fs_type: Vec<u8>,
}

/// The contents of an unmount entry: device path, mount point, file system type.
pub type PartView = (Seq<u8>, Seq<u8>, Seq<u8>);

impl View for UmountPart {
    type V = PartView;

    open spec fn view(&self) -> PartView {
        (self.dev_name@, self.mountpoint@, self.fs_type@)
    }
}

/// The entries of a list of unmount parts.
pub open spec fn parts_view(v: Seq<UmountPart>) -> Seq<PartView> {
    v.map_values(|p: UmountPart| p@)
}

/// `d` is a mounted partition of the device called `flash_name`.
pub open spec fn is_flash_partition(d: Device, flash_name: Seq<u8>) -> bool {
    &&& d.parent is Some
    &&& d.parent->0@ == flash_name
    &&& d.mount is Some
}

/// The unmount entry of a mounted device.
pub open spec fn part_of(d: Device) -> PartView {
    (d.dev_path@, d.mount->0.mountpoint@, d.mount->0.fs_type@)
}

/// Inserts `x` before the first entry that lies beneath it, or appends it.
pub open spec fn insert_ordered(list: Seq<PartView>, x: PartView) -> Seq<PartView>
    decreases list.len(),
{
    if list.len() == 0 {
        seq![x]
    } else if is_path_prefix(x.1, list[0].1) {
        seq![x] + list
    } else {
        seq![list[0]] + insert_ordered(list.drop_first(), x)
    }
}

/// The index at which `insert_ordered` places `x`.
pub open spec fn insert_index(list: Seq<PartView>, x: PartView) -> int
    decreases list.len(),
{
    if list.len() == 0 {
        0
    } else if is_path_prefix(x.1, list[0].1) {
        0
    } else {
        1 + insert_index(list.drop_first(), x)
    }
}

/// The plan before its final reversal: parents before the mounts beneath them.
pub open spec fn plan_outer_first(devices: Seq<Device>, flash_name: Seq<u8>) -> Seq<PartView>
    decreases devices.len(),
{
    if devices.len() == 0 {
        Seq::empty()
    } else {
        let rest = plan_outer_first(devices.drop_last(), flash_name);
        if is_flash_partition(devices.last(), flash_name) {
            insert_ordered(rest, part_of(devices.last()))
        } else {
            rest
        }
    }
}

/// The unmount plan for the partitions of `flash_name`, deepest mounts first.
pub open spec fn umount_plan(devices: Seq<Device>, flash_name: Seq<u8>) -> Seq<PartView> {
    plan_outer_first(devices, flash_name).reverse()
}

/// No entry lies beneath an earlier one.
pub open spec fn outer_first(list: Seq<PartView>) -> bool {
    forall|i: int, j: int| 0 <= i < j < list.len() ==> !is_path_prefix(#[trigger] list[j].1, #[trigger] list[i].1)
}

/// No entry's mount point is a prefix of a later entry's mount point.
pub open spec fn deepest_first(list: Seq<PartView>) -> bool {
    forall|i: int, j: int| 0 <= i < j < list.len() ==> !is_path_prefix(#[trigger] list[i].1, #[trigger] list[j].1)
}

/// The mounted partitions of `flash_name` have pairwise distinct mount points.
pub open spec fn distinct_flash_mounts(devices: Seq<Device>, flash_name: Seq<u8>) -> bool {
    forall|i: int, j: int|
        0 <= i < j < devices.len() && is_flash_partition(#[trigger] devices[i], flash_name)
            && is_flash_partition(#[trigger] devices[j], flash_name) ==> devices[i].mount->0.mountpoint@
            != devices[j].mount->0.mountpoint@
}

proof fn lemma_insert_index(list: Seq<PartView>, x: PartView)
    ensures
        0 <= insert_index(list, x) <= list.len(),
        insert_ordered(list, x) == list.insert(insert_index(list, x), x),
        forall|i: int| 0 <= i < insert_index(list, x) ==> !is_path_prefix(x.1, #[trigger] list[i].1),
        insert_index(list, x) < list.len() ==> is_path_prefix(x.1, list[insert_index(list, x)].1),
    decreases list.len(),
{
    if list.len() > 0 && !is_path_prefix(x.1, list[0].1) {
        let tail = list.drop_first();
        lemma_insert_index(tail, x);
        assert(insert_ordered(list, x) =~= list.insert(insert_index(list, x), x));
        assert forall|i: int| 0 <= i < insert_index(list, x) implies !is_path_prefix(x.1, #[trigger] list[i].1) by {
            if i > 0 {
                assert(list[i] == tail[i - 1]);
            }
        }
    } else if list.len() > 0 {
        assert(insert_ordered(list, x) =~= list.insert(0, x));
    } else {
        assert(insert_ordered(list, x) =~= list.insert(0, x));
    }
}

proof fn lemma_insert_keeps_order(list: Seq<PartView>, x: PartView)
    requires
        outer_first(list),
        forall|i: int| 0 <= i < list.len() ==> (#[trigger] list[i]).1 != x.1,
    ensures
        outer_first(insert_ordered(list, x)),
{
    lemma_insert_index(list, x);
    let k = insert_index(list, x);
    let new = list.insert(k, x);
    assert forall|i: int, j: int| 0 <= i < j < new.len() implies !is_path_prefix(#[trigger] new[j].1, #[trigger] new[i].1) by {
        if i == k {
            assert(new[j] == list[j - 1]);
            if is_path_prefix(list[j - 1].1, x.1) {
                lemma_prefix_transitive(list[j - 1].1, x.1, list[k].1);
                if j - 1 == k {
                    lemma_prefix_antisymmetric(list[k].1, x.1);
                }
            }
        } else if j == k {
            assert(new[i] == list[i]);
        } else {
            let oi = if i < k { i } else { i - 1 };
            let oj = if j < k { j } else { j - 1 };
            assert(new[i] == list[oi]);
            assert(new[j] == list[oj]);
        }
    }
}

proof fn lemma_insert_contents(list: Seq<PartView>, x: PartView)
    ensures
        forall|y: PartView| #[trigger] insert_ordered(list, x).contains(y) <==> (list.contains(y) || y == x),
{
    lemma_insert_index(list, x);
    let k = insert_index(list, x);
    let new = list.insert(k, x);
    assert forall|y: PartView| #[trigger] new.contains(y) <==> (list.contains(y) || y == x) by {
        if new.contains(y) {
            let i = choose|i: int| 0 <= i < new.len() && new[i] == y;
            if i < k {
                assert(list[i] == y);
            } else if i > k {
                assert(list[i - 1] == y);
            }
        }
        if list.contains(y) {
            let i = choose|i: int| 0 <= i < list.len() && list[i] == y;
            if i < k {
                assert(new[i] == y);
            } else {
                assert(new[i + 1] == y);
            }
        }
        if y == x {
            assert(new[k] == y);
        }
    }
}

/// The plan holds only entries of mounted partitions of the flash device, and
/// keeps parents before the mounts beneath them.
proof fn lemma_plan_outer_first(devices: Seq<Device>, flash_name: Seq<u8>)
    requires
        distinct_flash_mounts(devices, flash_name),
    ensures
        outer_first(plan_outer_first(devices, flash_name)),
        forall|y: PartView| #[trigger] plan_outer_first(devices, flash_name).contains(y) ==> exists|j: int|
            0 <= j < devices.len() && is_flash_partition(devices[j], flash_name) && y == part_of(
                #[trigger] devices[j],
            ),
    decreases devices.len(),
{
    if devices.len() > 0 {
        let init = devices.drop_last();
        let n = devices.len() - 1;
        assert forall|i: int, j: int|
            0 <= i < j < init.len() && is_flash_partition(#[trigger] init[i], flash_name)
                && is_flash_partition(#[trigger] init[j], flash_name) implies init[i].mount->0.mountpoint@
            != init[j].mount->0.mountpoint@ by {
            assert(init[i] == devices[i] && init[j] == devices[j]);
        }
        lemma_plan_outer_first(init, flash_name);
        let rest = plan_outer_first(init, flash_name);
        if is_flash_partition(devices.last(), flash_name) {
            let x = part_of(devices.last());
            assert forall|i: int| 0 <= i < rest.len() implies (#[trigger] rest[i]).1 != x.1 by {
                assert(rest.contains(rest[i]));
                let j = choose|j: int|
                    0 <= j < init.len() && is_flash_partition(init[j], flash_name) && rest[i] == part_of(
                        #[trigger] init[j],
                    );
                assert(init[j] == devices[j]);
                assert(devices[n] == devices.last());
            }
            lemma_insert_keeps_order(rest, x);
            lemma_insert_contents(rest, x);
            assert forall|y: PartView| #[trigger] plan_outer_first(devices, flash_name).contains(y) implies exists|j: int|
                0 <= j < devices.len() && is_flash_partition(devices[j], flash_name) && y == part_of(
                    #[trigger] devices[j],
                ) by {
                if rest.contains(y) {
                    let j = choose|j: int|
                        0 <= j < init.len() && is_flash_partition(init[j], flash_name) && y == part_of(
                            #[trigger] init[j],
                        );
                    assert(init[j] == devices[j]);
                } else {
                    assert(devices[n] == devices.last());
                }
            }
        } else {
            assert forall|y: PartView| #[trigger] plan_outer_first(devices, flash_name).contains(y) implies exists|j: int|
                0 <= j < devices.len() && is_flash_partition(devices[j], flash_name) && y == part_of(
                    #[trigger] devices[j],
                ) by {
                let j = choose|j: int|
                    0 <= j < init.len() && is_flash_partition(init[j], flash_name) && y == part_of(
                        #[trigger] init[j],
                    );
                assert(init[j] == devices[j]);
            }
        }
    }
}

/// Stage 2 can release the plan in order: whenever the mounted partitions of
/// the flash device have distinct mount points, no entry's mount point is a
/// prefix of a later entry's mount point, so mounts beneath a mount point are
/// released before it.
pub proof fn lemma_umount_plan_deepest_first(devices: Seq<Device>, flash_name: Seq<u8>)
    requires
        distinct_flash_mounts(devices, flash_name),
    ensures
        deepest_first(umount_plan(devices, flash_name)),
{
    lemma_plan_outer_first(devices, flash_name);
    let p = plan_outer_first(devices, flash_name);
    let r = umount_plan(devices, flash_name);
    assert forall|i: int, j: int| 0 <= i < j < r.len() implies !is_path_prefix(#[trigger] r[i].1, #[trigger] r[j].1) by {
        assert(r[i] == p[p.len() - 1 - i]);
        assert(r[j] == p[p.len() - 1 - j]);
    }
}

fn part_from(device: &Device) -> (r: UmountPart)
    requires
        device.mount is Some,
    ensures
        r@ == part_of(*device),
{
    let mount = device.mount.as_ref().unwrap();
    UmountPart {
        dev_name: copy_bytes(&device.dev_path),
        mountpoint: copy_bytes(&mount.mountpoint),
        fs_type: copy_bytes(&mount.fs_type),
    }
}

fn is_partition_of(device: &Device, flash_name: &Vec<u8>) -> (r: bool)
    ensures
        r == is_flash_partition(*device, flash_name@),
{
    match &device.parent {
        Some(parent) => {
            device.mount.is_some() && bytes_equal(parent, flash_name)
        },
        None => false,
    }
}

/// Byte-wise equality of two byte strings.
pub fn bytes_equal(a: &Vec<u8>, b: &Vec<u8>) -> (r: bool)
    ensures
        r == (a@ == b@),
{
    if a.len() != b.len() {
        return false;
    }
    let mut i: usize = 0;
    while i < a.len()
        invariant
            a.len() == b.len(),
            i <= a.len(),
            forall|k: int| 0 <= k < i ==> a@[k] == b@[k],
        decreases a.len() - i,
    {
        if a[i] != b[i] {
            return false;
        }
        i = i + 1;
    }
    assert(a@ =~= b@);
    true
}

/// Collects the mounted partitions of the device called `flash_name` into the
/// unmount plan for Stage 2. Each entry goes before the first entry that lies
/// beneath its mount point, or at the end; the list is then reversed so that
/// the deepest mounts come first.
pub fn plan_umounts(devices: &Vec<Device>, flash_name: &Vec<u8>) -> (r: Vec<UmountPart>)
    ensures
        parts_view(r@) == umount_plan(devices@, flash_name@),
        distinct_flash_mounts(devices@, flash_name@) ==> deepest_first(parts_view(r@)),
{
    let mut outer_first_parts: Vec<UmountPart> = Vec::new();
    let mut d: usize = 0;
    while d < devices.len()
        invariant
            d <= devices.len(),
            parts_view(outer_first_parts@) == plan_outer_first(devices@.subrange(0, d as int), flash_name@),
        decreases devices.len() - d,
    {
        let ghost before = parts_view(outer_first_parts@);
        assert(devices@.subrange(0, d + 1).drop_last() == devices@.subrange(0, d as int));
        let device = &devices[d];
        if is_partition_of(device, flash_name) {
            let part = part_from(device);
            let mut idx: usize = 0;
            let mut found = false;
            while idx < outer_first_parts.len()
                invariant_except_break
                    !found,
                invariant
                    idx <= outer_first_parts.len(),
                    before == parts_view(outer_first_parts@),
                    part@ == part_of(*device),
                    forall|i: int| 0 <= i < idx ==> !is_path_prefix(part@.1, #[trigger] before[i].1),
                ensures
                    idx <= outer_first_parts.len(),
                    forall|i: int| 0 <= i < idx ==> !is_path_prefix(part@.1, #[trigger] before[i].1),
                    found ==> idx < outer_first_parts.len() && is_path_prefix(part@.1, before[idx as int].1),
                    !found ==> idx == outer_first_parts.len(),
                decreases outer_first_parts.len() - idx,
            {
                if path_starts_with(&outer_first_parts[idx].mountpoint, &part.mountpoint) {
                    found = true;
                    break;
                }
                idx = idx + 1;
            }
            proof {
                lemma_insert_index(before, part@);
                let k = insert_index(before, part@);
                if k < idx {
                    assert(!is_path_prefix(part@.1, before[k].1));
                }
                if idx < k {
                    assert(!is_path_prefix(part@.1, before[idx as int].1));
                }
                assert(k == idx);
            }
            let ghost part_view = part@;
            if found {
                outer_first_parts.insert(idx, part);
            } else {
                outer_first_parts.push(part);
            }
            assert(parts_view(outer_first_parts@) =~= before.insert(idx as int, part_view));
        }
        d = d + 1;
    }
    assert(devices@.subrange(0, devices.len() as int) == devices@);
    let ghost outer = parts_view(outer_first_parts@);
    let mut r: Vec<UmountPart> = Vec::new();
    while outer_first_parts.len() > 0
        invariant
            outer_first_parts@.len() <= outer.len(),
            parts_view(outer_first_parts@) == outer.subrange(0, outer_first_parts@.len() as int),
            parts_view(r@) == outer.subrange(outer_first_parts@.len() as int, outer.len() as int).reverse(),
        decreases outer_first_parts.len(),
    {
        let ghost n = outer_first_parts@.len() as int;
        let ghost old_parts = outer_first_parts@;
        let ghost old_r = r@;
        let part = outer_first_parts.pop().unwrap();
        assert(parts_view(old_parts)[n - 1] == old_parts[n - 1]@);
        assert(outer.subrange(0, n)[n - 1] == outer[n - 1]);
        assert(part@ == outer[n - 1]);
        r.push(part);
        assert(parts_view(outer_first_parts@) =~= outer.subrange(0, n - 1));
        assert(parts_view(r@) =~= parts_view(old_r).push(part@));
        assert(parts_view(r@) =~= outer.subrange(n - 1, outer.len() as int).reverse());
    }
    assert(outer.subrange(0, outer.len() as int) == outer);
    proof {
        if distinct_flash_mounts(devices@, flash_name@) {
            lemma_umount_plan_deepest_first(devices@, flash_name@);
        }
    }
    r
}

/// The block devices of the host, and which of them backs `/`.
pub struct BlockDeviceInfo {
    pub devices: Vec<Device>,
    pub root_index: usize,
}

/// The source, mount point and file system type at the start of a line of
/// the kernel's mount table (`source mountpoint fstype options dump pass`),
/// if the line has them.
pub open spec fn mount_line_fields(t: Seq<u8>) -> Option<(Seq<u8>, Seq<u8>, Seq<u8>)> {
    match split_at_byte(t, SPACE) {
        Some((a, r1)) => match split_at_byte(r1, SPACE) {
            Some((b, r2)) => match split_at_byte(r2, SPACE) {
                Some((c, _)) => Some((a, b, c)),
                None => None,
            },
            None => None,
        },
        None => None,
    }
}

/// Reads the source device and the mount of one line of the kernel's mount
/// table.
pub fn parse_mount_line(line: &Vec<u8>) -> (r: Option<(Vec<u8>, MountInfo)>)
    ensures
        r is Some <==> mount_line_fields(line@) is Some,
        r is Some ==> ({
            let (source, mount) = r->0;
            mount_line_fields(line@) == Some((source@, mount.mountpoint@, mount.fs_type@))
        }),
{
    let len = line.len();
    assert(line@.subrange(0, len as int) =~= line@);
    let s1 = find_byte(line, 0, len, SPACE);
    if s1 == len {
        return None;
    }
    let s2 = find_byte(line, s1 + 1, len, SPACE);
    if s2 == len {
        return None;
    }
    let s3 = find_byte(line, s2 + 1, len, SPACE);
    if s3 == len {
        return None;
    }
    let source = copy_range(line, 0, s1);
    let mountpoint = copy_range(line, s1 + 1, s2);
    let fs_type = copy_range(line, s2 + 1, s3);
    Some((source, MountInfo { mountpoint, fs_type }))
}

/// `d` is mounted at `/`.
pub open spec fn is_root_mount(d: Device) -> bool {
    d.mount is Some && d.mount->0.mountpoint@ == seq![SLASH]
}

fn mounted_at_root(d: &Device) -> (r: bool)
    ensures
        r == is_root_mount(*d),
{
    match &d.mount {
        Some(m) => {
            let r = m.mountpoint.len() == 1 && m.mountpoint[0] == SLASH;
            assert(r ==> m.mountpoint@ =~= seq![SLASH]);
            assert(m.mountpoint@ == seq![SLASH] ==> m.mountpoint@.len() == 1 && m.mountpoint@[0] == SLASH);
            r
        },
        None => false,
    }
}

/// The index of the first device mounted at `/`.
fn find_root_mount(devices: &Vec<Device>) -> (r: Option<usize>)
    ensures
        r is None ==> forall|i: int| 0 <= i < devices@.len() ==> !is_root_mount(#[trigger] devices@[i]),
        r is Some ==> r->0 < devices@.len() && is_root_mount(devices@[r->0 as int]) && forall|i: int|
            0 <= i < r->0 ==> !is_root_mount(#[trigger] devices@[i]),
{
    let mut i: usize = 0;
    while i < devices.len()
        invariant
            i <= devices@.len(),
            forall|k: int| 0 <= k < i ==> !is_root_mount(#[trigger] devices@[k]),
        decreases devices.len() - i,
    {
        if mounted_at_root(&devices[i]) {
            return Some(i);
        }
        i = i + 1;
    }
    None
}

/// The index of the first device called `name`.
fn find_by_name(devices: &Vec<Device>, name: &Vec<u8>) -> (r: Option<usize>)
    ensures
        r is None ==> forall|i: int| 0 <= i < devices@.len() ==> (#[trigger] devices@[i]).name@ != name@,
        r is Some ==> r->0 < devices@.len() && devices@[r->0 as int].name@ == name@ && forall|i: int|
            0 <= i < r->0 ==> (#[trigger] devices@[i]).name@ != name@,
{
    let mut i: usize = 0;
    while i < devices.len()
        invariant
            i <= devices@.len(),
            forall|k: int| 0 <= k < i ==> (#[trigger] devices@[k]).name@ != name@,
        decreases devices.len() - i,
    {
        if bytes_equal(&devices[i].name, name) {
            return Some(i);
        }
        i = i + 1;
    }
    None
}

impl BlockDeviceInfo {
    /// Builds the inventory from the enumerated devices. The root device is
    /// the disk that owns the first partition mounted at `/`, or that device
    /// itself when it has no parent. `None` when nothing is mounted at `/` or
    /// the owning disk is not among the devices.
    pub fn from_devices(devices: Vec<Device>) -> (r: Option<BlockDeviceInfo>)
        ensures
            r is Some ==> r->0.wf() && r->0.devices@ == devices@,
            r is Some <==> exists|i: int|
                0 <= i < devices@.len() && is_root_mount(#[trigger] devices@[i]) && (forall|k: int|
                    0 <= k < i ==> !is_root_mount(#[trigger] devices@[k])) && (devices@[i].parent is None
                    || exists|j: int| 0 <= j < devices@.len() && (#[trigger] devices@[j]).name@ == devices@[i].parent->0@),
            r is Some ==> exists|i: int|
                0 <= i < devices@.len() && is_root_mount(#[trigger] devices@[i]) && (forall|k: int|
                    0 <= k < i ==> !is_root_mount(#[trigger] devices@[k])) && (devices@[i].parent is None
                    ==> r->0.root_index == i) && (devices@[i].parent is Some ==> devices@[r->0.root_index as int].name@
                    == devices@[i].parent->0@ && forall|k: int| 0 <= k < r->0.root_index ==> (#[trigger] devices@[k]).name@
                    != devices@[i].parent->0@),
    {
        let root_part = match find_root_mount(&devices) {
            Some(i) => i,
            None => return None,
        };
        let root_index = match &devices[root_part].parent {
            Some(parent) => match find_by_name(&devices, parent) {
                Some(j) => j,
                None => {
                    assert forall|i: int|
                        0 <= i < devices@.len() && is_root_mount(#[trigger] devices@[i]) && (forall|k: int|
                            0 <= k < i ==> !is_root_mount(#[trigger] devices@[k])) implies !(devices@[i].parent is None
                            || exists|j: int| 0 <= j < devices@.len() && (#[trigger] devices@[j]).name@ == devices@[i].parent->0@) by {
                        if i < root_part {
                        } else if i > root_part {
                            assert(!is_root_mount(devices@[root_part as int]));
                        }
                    }
                    return None;
                },
            },
            None => root_part,
        };
        Some(BlockDeviceInfo { devices, root_index })
    }

    /// The inventory names a root device.
    pub open spec fn wf(&self) -> bool {
        self.root_index < self.devices@.len()
    }

    /// Builds an inventory; refuses a root index outside the device list.
    pub fn new(devices: Vec<Device>, root_index: usize) -> (r: Option<BlockDeviceInfo>)
        ensures
            root_index < devices@.len() <==> r is Some,
            r is Some ==> r->0.devices@ == devices@ && r->0.root_index == root_index && r->0.wf(),
    {
        if root_index < devices.len() {
            Some(BlockDeviceInfo { devices, root_index })
        } else {
            None
        }
    }

    /// The devices, in the order they were enumerated.
    pub fn get_devices(&self) -> (r: &Vec<Device>)
        ensures
            r@ == self.devices@,
    {
        &self.devices
    }

    /// The device that backs `/`.
    pub fn get_root_device(&self) -> (r: &Device)
        requires
            self.wf(),
        ensures
            *r == self.devices@[self.root_index as int],
    {
        &self.devices[self.root_index]
    }

    /// The index of the first device whose path is `dev_path`.
    pub fn find_device(&self, dev_path: &Vec<u8>) -> (r: Option<usize>)
        ensures
            r is None ==> forall|i: int| 0 <= i < self.devices@.len() ==> (#[trigger] self.devices@[i]).dev_path@ != dev_path@,
            r is Some ==> r->0 < self.devices@.len() && self.devices@[r->0 as int].dev_path@ == dev_path@
                && forall|i: int| 0 <= i < r->0 ==> (#[trigger] self.devices@[i]).dev_path@ != dev_path@,
    {
        let mut i: usize = 0;
        while i < self.devices.len()
            invariant
                i <= self.devices@.len(),
                forall|k: int| 0 <= k < i ==> (#[trigger] self.devices@[k]).dev_path@ != dev_path@,
            decreases self.devices.len() - i,
        {
            if bytes_equal(&self.devices[i].dev_path, dev_path) {
                return Some(i);
            }
            i = i + 1;
        }
        None
    }

    /// The device to flash: the one named by `flash_to` when given, else the
    /// root device. A named device absent from the inventory is `MissingInput`.
    pub fn select_flash_device(&self, flash_to: &Option<Vec<u8>>) -> (r: Result<usize, MigErrorKind>)
        requires
            self.wf(),
        ensures
            flash_to is None ==> r == Ok::<usize, MigErrorKind>(self.root_index),
            flash_to is Some ==> {
                &&& (exists|i: int| 0 <= i < self.devices@.len() && (#[trigger] self.devices@[i]).dev_path@ == flash_to->0@) <==> r is Ok
                &&& r is Ok ==> r->Ok_0 < self.devices@.len() && self.devices@[r->Ok_0 as int].dev_path@ == flash_to->0@
                &&& r is Err ==> r->Err_0 == MigErrorKind::MissingInput
            },
    {
        match flash_to {
            None => Ok(self.root_index),
            Some(path) => match self.find_device(path) {
                Some(i) => Ok(i),
                None => Err(MigErrorKind::MissingInput),
            },
        }
    }

    /// The unmount plan for the device at `flash_index`.
    pub fn umount_parts(&self, flash_index: usize) -> (r: Vec<UmountPart>)
        requires
            flash_index < self.devices@.len(),
        ensures
            parts_view(r@) == umount_plan(self.devices@, self.devices@[flash_index as int].name@),
            distinct_flash_mounts(self.devices@, self.devices@[flash_index as int].name@) ==> deepest_first(parts_view(r@)),
    {
        plan_umounts(&self.devices, &self.devices[flash_index].name)
    }
}

} // verus!
