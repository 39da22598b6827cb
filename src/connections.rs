use vstd::prelude::*;

verus! {

/// ASCII `0`.
pub const DIGIT_ZERO: u8 = 48;

/// The decimal digits of `n`, most significant first, without leading zeros.
pub open spec fn decimal(n: nat) -> Seq<u8>
    decreases n,
{
    if n < 10 {
        seq![(DIGIT_ZERO + n) as u8]
    } else {
        decimal(n / 10).push((DIGIT_ZERO + n % 10) as u8)
    }
}

/// The decimal digits of `n`, padded with zeros to at least two.
pub open spec fn two_digits(n: nat) -> Seq<u8> {
    if n < 10 {
        seq![DIGIT_ZERO, (DIGIT_ZERO + n) as u8]
    } else {
        decimal(n)
    }
}

/// `balena-`, the stem of every staged connection file.
pub open spec fn connection_stem() -> Seq<u8> {
    seq![98u8, 97u8, 108u8, 101u8, 110u8, 97u8, 45u8]
}

/// The name of the `n`-th staged network-manager connection file, counting from 1.
pub open spec fn connection_file_name(n: nat) -> Seq<u8> {
    connection_stem() + two_digits(n)
}

proof fn lemma_decimal_shape(n: nat)
    ensures
        decimal(n).len() >= 1,
        n >= 10 ==> decimal(n).len() >= 2,
        n >= 1 ==> decimal(n)[0] != DIGIT_ZERO,
        forall|i: int| 0 <= i < decimal(n).len() ==> DIGIT_ZERO <= #[trigger] decimal(n)[i] < DIGIT_ZERO + 10,
    decreases n,
{
    if n >= 10 {
        lemma_decimal_shape(n / 10);
        let d = decimal(n / 10);
        assert forall|i: int| 0 <= i < decimal(n).len() implies DIGIT_ZERO <= #[trigger] decimal(n)[i] < DIGIT_ZERO + 10 by {
            if i < d.len() {
                assert(decimal(n)[i] == d[i]);
            }
        }
    }
}

proof fn lemma_decimal_injective(a: nat, b: nat)
    requires
        decimal(a) == decimal(b),
    ensures
        a == b,
    decreases a,
{
    lemma_decimal_shape(a);
    lemma_decimal_shape(b);
    if a >= 10 && b >= 10 {
        assert(decimal(a / 10) == decimal(a).drop_last());
        assert(decimal(b / 10) == decimal(b).drop_last());
        lemma_decimal_injective(a / 10, b / 10);
        assert(decimal(a).last() == decimal(b).last());
        assert(decimal(a).last() == (DIGIT_ZERO + a % 10) as u8);
        assert(decimal(b).last() == (DIGIT_ZERO + b % 10) as u8);
        assert(((DIGIT_ZERO + a % 10) as u8) as int == DIGIT_ZERO + a % 10);
        assert(((DIGIT_ZERO + b % 10) as u8) as int == DIGIT_ZERO + b % 10);
        assert(a % 10 == b % 10);
        assert(a == 10 * (a / 10) + a % 10);
        assert(b == 10 * (b / 10) + b % 10);
    } else if a >= 10 {
        assert(decimal(b).len() == 1);
    } else if b >= 10 {
        assert(decimal(a).len() == 1);
    } else {
        assert(decimal(a)[0] == decimal(b)[0]);
    }
}

/// Distinct numbers give distinct connection file names.
pub proof fn lemma_connection_file_name_injective(a: nat, b: nat)
    requires
        connection_file_name(a) == connection_file_name(b),
    ensures
        a == b,
{
    let sa = two_digits(a);
    let sb = two_digits(b);
    assert(sa == connection_file_name(a).subrange(7, connection_file_name(a).len() as int));
    assert(sb == connection_file_name(b).subrange(7, connection_file_name(b).len() as int));
    lemma_decimal_shape(a);
    lemma_decimal_shape(b);
    if a < 10 && b < 10 {
        assert(sa[1] == sb[1]);
    } else if a < 10 {
        assert(sa[0] == sb[0]);
    } else if b < 10 {
        assert(sa[0] == sb[0]);
    } else {
        lemma_decimal_injective(a, b);
    }
}

fn push_decimal(out: &mut Vec<u8>, n: u64)
    ensures
        final(out)@ == old(out)@ + decimal(n as nat),
    decreases n,
{
    if n >= 10 {
        push_decimal(out, n / 10);
    }
    out.push(DIGIT_ZERO + (n % 10) as u8);
    assert(decimal(n as nat) =~= if n < 10 {
        seq![(DIGIT_ZERO + n) as u8]
    } else {
        decimal((n / 10) as nat).push((DIGIT_ZERO + n % 10) as u8)
    });
}

/// The file name `balena-NN` of the `n`-th staged connection file: `NN` is
/// `n` in decimal, padded with a zero to two digits.
pub fn connection_file_name_exec(n: u64) -> (r: Vec<u8>)
    ensures
        r@ == connection_file_name(n as nat),
{
    let mut r: Vec<u8> = Vec::new();
    r.push(98u8);
    r.push(97u8);
    r.push(108u8);
    r.push(101u8);
    r.push(110u8);
    r.push(97u8);
    r.push(45u8);
    assert(r@ =~= connection_stem());
    if n < 10 {
        r.push(DIGIT_ZERO);
    }
    push_decimal(&mut r, n);
    assert(r@ =~= connection_file_name(n as nat));
    r
}

/// The names of the connection files staged for `n_nwmgr` network-manager
/// files followed by `n_wifi` Wi-Fi records: one counter runs through both,
/// so the Wi-Fi files continue where the network-manager files end.
pub fn connection_file_names(n_nwmgr: u64, n_wifi: u64) -> (r: Vec<Vec<u8>>)
    requires
        n_nwmgr + n_wifi <= usize::MAX,
    ensures
        r@.len() == n_nwmgr + n_wifi,
        forall|i: int| 0 <= i < r@.len() ==> (#[trigger] r@[i])@ == connection_file_name((i + 1) as nat),
{
    let total: u64 = n_nwmgr + n_wifi;
    let mut r: Vec<Vec<u8>> = Vec::new();
    let mut k: u64 = 0;
    while k < total
        invariant
            total == n_nwmgr + n_wifi,
            k <= total,
            r@.len() == k,
            forall|i: int| 0 <= i < r@.len() ==> (#[trigger] r@[i])@ == connection_file_name((i + 1) as nat),
        decreases total - k,
    {
        r.push(connection_file_name_exec(k + 1));
        k = k + 1;
    }
    r
}

/// Staged connection files are numbered `balena-01` to `balena-(N+M)`
/// without gaps, and no two of them share a name.
pub proof fn lemma_connection_names_gapless(names: Seq<Seq<u8>>, n_nwmgr: nat, n_wifi: nat)
    requires
        names.len() == n_nwmgr + n_wifi,
        forall|i: int| 0 <= i < names.len() ==> #[trigger] names[i] == connection_file_name((i + 1) as nat),
    ensures
        forall|k: nat| 1 <= k <= n_nwmgr + n_wifi ==> names.contains(#[trigger] connection_file_name(k)),
        forall|i: int, j: int| 0 <= i < j < names.len() ==> #[trigger] names[i] != #[trigger] names[j],
{
    assert forall|k: nat| 1 <= k <= n_nwmgr + n_wifi implies names.contains(#[trigger] connection_file_name(k)) by {
        assert(names[k - 1] == connection_file_name(k));
    }
    assert forall|i: int, j: int| 0 <= i < j < names.len() implies #[trigger] names[i] != #[trigger] names[j] by {
        if names[i] == names[j] {
            lemma_connection_file_name_injective((i + 1) as nat, (j + 1) as nat);
        }
    }
}

} // verus!
