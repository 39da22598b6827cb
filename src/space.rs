use vstd::prelude::*;

use crate::error::MigErrorKind;
use crate::fields::SPACE;

verus! {

/// Fixed slack of 10 MiB, added to the required space and again to the
/// free-memory comparison.
pub const XTRA_FS_SIZE: u64 = 10485760;

/// Sum of a sequence of file sizes.
pub open spec fn sum_sizes(s: Seq<u64>) -> int
    decreases s.len(),
{
    if s.len() == 0 {
        0
    } else {
        sum_sizes(s.drop_last()) + s.last() as int
    }
}

/// Bytes the in-memory root needs: busybox twice, the image, the config,
/// every network-manager file, the running executable, and the slack.
pub open spec fn required_space_spec(
    busybox_size: u64,
    image_size: u64,
    config_size: u64,
    nwmgr_sizes: Seq<u64>,
    exe_size: u64,
) -> int {
    2 * busybox_size as int + XTRA_FS_SIZE as int + image_size as int + config_size as int
        + sum_sizes(nwmgr_sizes) + exe_size as int
}

/// Whether `free` bytes of memory can hold `required` bytes plus the slack.
pub open spec fn fits_in_memory(required: int, free: int) -> bool {
    free >= required + XTRA_FS_SIZE as int
}

proof fn lemma_sum_sizes_nonneg(s: Seq<u64>)
    ensures
        sum_sizes(s) >= 0,
    decreases s.len(),
{
    if s.len() > 0 {
        lemma_sum_sizes_nonneg(s.drop_last());
    }
}

/// Adds `size` to a running total; `None` stands for a total beyond `u64`.
fn add_size(total: Option<u64>, size: u64) -> (r: Option<u64>)
    ensures
        total is None ==> r is None,
        total is Some && total->0 + size <= u64::MAX ==> r == Some((total->0 + size) as u64),
        total is Some && total->0 + size > u64::MAX ==> r is None,
{
    match total {
        Some(t) => t.checked_add(size),
        None => None,
    }
}

/// Computes the space the in-memory root needs. A total that does not fit in
/// a `u64` exceeds any amount of free memory, so it is reported as
/// `InsufficientMemory`.
pub fn required_space(
    busybox_size: u64,
    image_size: u64,
    config_size: u64,
    nwmgr_sizes: &Vec<u64>,
    exe_size: u64,
) -> (r: Result<u64, MigErrorKind>)
    ensures
        required_space_spec(busybox_size, image_size, config_size, nwmgr_sizes@, exe_size)
            <= u64::MAX ==> r == Ok::<u64, MigErrorKind>(
            required_space_spec(busybox_size, image_size, config_size, nwmgr_sizes@, exe_size)
                as u64,
        ),
        required_space_spec(busybox_size, image_size, config_size, nwmgr_sizes@, exe_size)
            > u64::MAX ==> r == Err::<u64, MigErrorKind>(MigErrorKind::InsufficientMemory),
{
    let mut total = add_size(Some(busybox_size), busybox_size);
    total = add_size(total, XTRA_FS_SIZE);
    total = add_size(total, image_size);
    total = add_size(total, config_size);
    let ghost fixed = 2 * busybox_size as int + XTRA_FS_SIZE as int + image_size as int
        + config_size as int;
    assert(total is Some ==> total->0 == fixed);
    assert(total is None ==> fixed > u64::MAX);
    let mut i: usize = 0;
    while i < nwmgr_sizes.len()
        invariant
            i <= nwmgr_sizes.len(),
            fixed >= 0,
            total is Some ==> total->0 == fixed + sum_sizes(nwmgr_sizes@.subrange(0, i as int)),
            total is None ==> fixed + sum_sizes(nwmgr_sizes@.subrange(0, i as int)) > u64::MAX,
        decreases nwmgr_sizes.len() - i,
    {
        assert(nwmgr_sizes@.subrange(0, i + 1).drop_last() == nwmgr_sizes@.subrange(0, i as int));
        proof {
            lemma_sum_sizes_nonneg(nwmgr_sizes@.subrange(0, i as int));
        }
        total = add_size(total, nwmgr_sizes[i]);
        i = i + 1;
    }
    assert(nwmgr_sizes@.subrange(0, nwmgr_sizes.len() as int) == nwmgr_sizes@);
    proof {
        lemma_sum_sizes_nonneg(nwmgr_sizes@);
    }
    total = add_size(total, exe_size);
    match total {
        Some(t) => Ok(t),
        None => Err(MigErrorKind::InsufficientMemory),
    }
}

/// Compares free memory against the required space plus the slack.
pub fn check_memory(required: u64, mem_free: u64) -> (r: Result<(), MigErrorKind>)
    ensures
        fits_in_memory(required as int, mem_free as int) ==> r == Ok::<(), MigErrorKind>(()),
        !fits_in_memory(required as int, mem_free as int) ==> r == Err::<(), MigErrorKind>(
            MigErrorKind::InsufficientMemory,
        ),
{
    if required > u64::MAX - XTRA_FS_SIZE || mem_free < required + XTRA_FS_SIZE {
        Err(MigErrorKind::InsufficientMemory)
    } else {
        Ok(())
    }
}

/// The checks that precede any directory or mount: both required inputs are
/// present (a size of `None` stands for an absent or unreadable file), and
/// free memory holds everything that will be copied. Returns the required
/// space.
pub fn preflight(
    image_size: Option<u64>,
    config_size: Option<u64>,
    nwmgr_sizes: &Vec<u64>,
    busybox_size: u64,
    exe_size: u64,
    mem_free: u64,
) -> (r: Result<u64, MigErrorKind>)
    ensures
        image_size is None || config_size is None ==> r == Err::<u64, MigErrorKind>(
            MigErrorKind::MissingInput,
        ),
        image_size is Some && config_size is Some ==> {
            let req = required_space_spec(
                busybox_size,
                image_size->0,
                config_size->0,
                nwmgr_sizes@,
                exe_size,
            );
            &&& fits_in_memory(req, mem_free as int) ==> r == Ok::<u64, MigErrorKind>(req as u64)
            &&& !fits_in_memory(req, mem_free as int) ==> r == Err::<u64, MigErrorKind>(
                MigErrorKind::InsufficientMemory,
            )
        },
{
    let image = match image_size {
        Some(s) => s,
        None => return Err(MigErrorKind::MissingInput),
    };
    let config = match config_size {
        Some(s) => s,
        None => return Err(MigErrorKind::MissingInput),
    };
    let ghost spec_req = required_space_spec(busybox_size, image, config, nwmgr_sizes@, exe_size);
    proof {
        lemma_sum_sizes_nonneg(nwmgr_sizes@);
    }
    let req = match required_space(busybox_size, image, config, nwmgr_sizes, exe_size) {
        Ok(req) => req,
        Err(e) => {
            assert(!fits_in_memory(spec_req, mem_free as int));
            return Err(e);
        },
    };
    assert(req as int == spec_req);
    match check_memory(req, mem_free) {
        Ok(()) => Ok(req),
        Err(e) => Err(e),
    }
}

/// `MemFree:`, the key of the free-memory line of the kernel's memory info.
pub open spec fn mem_free_key() -> Seq<u8> {
    seq![77u8, 101u8, 109u8, 70u8, 114u8, 101u8, 101u8, 58u8]
}

/// ` kB`, the unit that follows the value.
pub open spec fn kb_unit() -> Seq<u8> {
    seq![32u8, 107u8, 66u8]
}

pub open spec fn is_digit(c: u8) -> bool {
    48 <= c <= 57
}

/// Number of leading spaces of `s`.
pub open spec fn spaces_len(s: Seq<u8>) -> nat
    decreases s.len(),
{
    if s.len() > 0 && s[0] == SPACE {
        1 + spaces_len(s.drop_first())
    } else {
        0
    }
}

/// Number of leading decimal digits of `s`.
pub open spec fn digits_len(s: Seq<u8>) -> nat
    decreases s.len(),
{
    if s.len() > 0 && is_digit(s[0]) {
        1 + digits_len(s.drop_first())
    } else {
        0
    }
}

/// The value of a run of decimal digits.
pub open spec fn digits_value(s: Seq<u8>) -> int
    decreases s.len(),
{
    if s.len() == 0 {
        0
    } else {
        digits_value(s.drop_last()) * 10 + (s.last() - 48)
    }
}

/// The free memory in KiB that a line `MemFree: <digits> kB` states; the
/// unit may be missing.
pub open spec fn mem_free_kb(line: Seq<u8>) -> Option<int> {
    if line.len() >= 8 && line.subrange(0, 8) == mem_free_key() {
        let r = line.subrange(8, line.len() as int);
        let r2 = r.subrange(spaces_len(r) as int, r.len() as int);
        let d = digits_len(r2);
        let tail = r2.subrange(d as int, r2.len() as int);
        if d > 0 && (tail.len() == 0 || tail == kb_unit()) {
            Some(digits_value(r2.subrange(0, d as int)))
        } else {
            None
        }
    } else {
        None
    }
}

proof fn lemma_digits_value_nonneg(s: Seq<u8>)
    requires
        forall|i: int| 0 <= i < s.len() ==> is_digit(#[trigger] s[i]),
    ensures
        digits_value(s) >= 0,
    decreases s.len(),
{
    if s.len() > 0 {
        lemma_digits_value_nonneg(s.drop_last());
    }
}

proof fn lemma_run_len(s: Seq<u8>, i: int, spaces: bool)
    requires
        0 <= i < s.len(),
        spaces ==> s[i] == SPACE,
        !spaces ==> is_digit(s[i]),
    ensures
        spaces ==> spaces_len(s.subrange(i, s.len() as int)) == 1 + spaces_len(s.subrange(i + 1, s.len() as int)),
        !spaces ==> digits_len(s.subrange(i, s.len() as int)) == 1 + digits_len(s.subrange(i + 1, s.len() as int)),
{
    assert(s.subrange(i, s.len() as int).drop_first() =~= s.subrange(i + 1, s.len() as int));
}

/// Reads the free memory, in bytes, from the `MemFree:` line of the kernel's
/// memory info. `None` for another line, a malformed one, or a value whose
/// byte count does not fit in a `u64`.
pub fn parse_mem_free(line: &Vec<u8>) -> (r: Option<u64>)
    ensures
        r is Some <==> (mem_free_kb(line@) is Some && mem_free_kb(line@)->0 * 1024 <= u64::MAX),
        r is Some ==> r->0 == mem_free_kb(line@)->0 * 1024,
{
    let key: [u8; 8] = [77, 101, 109, 70, 114, 101, 101, 58];
    let len = line.len();
    if len < 8 {
        return None;
    }
    let mut k: usize = 0;
    while k < 8
        invariant
            k <= 8,
            len == line@.len(),
            len >= 8,
            key@ == mem_free_key(),
            forall|i: int| 0 <= i < k ==> line@[i] == key@[i],
        decreases 8 - k,
    {
        if line[k] != key[k] {
            assert(line@.subrange(0, 8)[k as int] != mem_free_key()[k as int]);
            return None;
        }
        k = k + 1;
    }
    assert(line@.subrange(0, 8) =~= mem_free_key());
    let ghost r = line@.subrange(8, len as int);
    let mut i: usize = 8;
    while i < len && line[i] == SPACE
        invariant
            8 <= i <= len,
            len == line@.len(),
            r == line@.subrange(8, len as int),
            spaces_len(r) == (i - 8) + spaces_len(line@.subrange(i as int, len as int)),
        decreases len - i,
    {
        proof {
            lemma_run_len(line@, i as int, true);
        }
        i = i + 1;
    }
    let start = i;
    let ghost r2 = line@.subrange(start as int, len as int);
    assert(spaces_len(line@.subrange(i as int, len as int)) == 0);
    assert(r.subrange(spaces_len(r) as int, r.len() as int) =~= r2);
    let mut value: u64 = 0;
    let mut overflow = false;
    while i < len && 48 <= line[i] && line[i] <= 57
        invariant
            start <= i <= len,
            len == line@.len(),
            r2 == line@.subrange(start as int, len as int),
            digits_len(r2) == (i - start) + digits_len(line@.subrange(i as int, len as int)),
            forall|j: int| start <= j < i ==> is_digit(#[trigger] line@[j]),
            !overflow ==> value as int == digits_value(line@.subrange(start as int, i as int)),
            overflow ==> digits_value(line@.subrange(start as int, i as int)) > u64::MAX,
        decreases len - i,
    {
        proof {
            lemma_run_len(line@, i as int, false);
            let p = line@.subrange(start as int, i + 1);
            assert(p.drop_last() =~= line@.subrange(start as int, i as int));
            lemma_digits_value_nonneg(line@.subrange(start as int, i as int));
        }
        let d = (line[i] - 48) as u64;
        if !overflow {
            if value > (u64::MAX - d) / 10 {
                overflow = true;
            } else {
                value = value * 10 + d;
            }
        }
        i = i + 1;
    }
    let end = i;
    let ghost d = digits_len(r2);
    assert(digits_len(line@.subrange(i as int, len as int)) == 0);
    assert(d == end - start);
    assert(r2.subrange(0, d as int) =~= line@.subrange(start as int, end as int));
    assert(r2.subrange(d as int, r2.len() as int) =~= line@.subrange(end as int, len as int));
    if end == start {
        return None;
    }
    let tail_ok = end == len || (len - end == 3 && line[end] == 32 && line[end + 1] == 107 && line[end + 2] == 66);
    proof {
        let tail = line@.subrange(end as int, len as int);
        if len - end == 3 && line@[end as int] == 32 && line@[end + 1] == 107 && line@[end + 2] == 66 {
            assert(tail =~= kb_unit());
        }
        if tail == kb_unit() {
            assert(tail[0] == 32 && tail[1] == 107 && tail[2] == 66);
        }
    }
    if !tail_ok {
        return None;
    }
    if overflow || value > u64::MAX / 1024 {
        proof {
            let digits = line@.subrange(start as int, end as int);
            assert forall|j: int| 0 <= j < digits.len() implies is_digit(#[trigger] digits[j]) by {
                assert(digits[j] == line@[start + j]);
            }
        }
        return None;
    }
    Some(value * 1024)
}

} // verus!
