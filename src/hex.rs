use vstd::prelude::*;

verus! {

/// The lowercase hex digit for a value below 16.
pub open spec fn hex_digit(v: u8) -> u8 {
    if v < 10 {
        (48 + v) as u8
    } else {
        (87 + v) as u8
    }
}

/// The value of a lowercase hex digit.
pub open spec fn hex_value(c: u8) -> Option<u8> {
    if 48 <= c <= 57 {
        Some((c - 48) as u8)
    } else if 97 <= c <= 102 {
        Some((c - 87) as u8)
    } else {
        None
    }
}

/// Each byte as two lowercase hex digits, high half first.
pub open spec fn hex_encode(s: Seq<u8>) -> Seq<u8>
    decreases s.len(),
{
    if s.len() == 0 {
        Seq::empty()
    } else {
        hex_encode(s.drop_last()).push(hex_digit(s.last() / 16)).push(hex_digit(s.last() % 16))
    }
}

/// The bytes whose hex form is `t`, if `t` is one.
pub open spec fn hex_decode(t: Seq<u8>) -> Option<Seq<u8>>
    decreases t.len(),
{
    if t.len() == 0 {
        Some(Seq::empty())
    } else if t.len() == 1 {
        None
    } else {
        match (
            hex_decode(t.subrange(0, t.len() - 2)),
            hex_value(t[t.len() - 2]),
            hex_value(t[t.len() - 1]),
        ) {
            (Some(prefix), Some(hi), Some(lo)) => Some(prefix.push((hi * 16 + lo) as u8)),
            _ => None,
        }
    }
}

pub proof fn lemma_hex_encode_shape(s: Seq<u8>)
    ensures
        hex_encode(s).len() == 2 * s.len(),
        forall|i: int| 0 <= i < hex_encode(s).len() ==> (#[trigger] hex_value(hex_encode(s)[i])) is Some,
    decreases s.len(),
{
    if s.len() > 0 {
        lemma_hex_encode_shape(s.drop_last());
        let p = hex_encode(s.drop_last());
        let b = s.last();
        assert(hex_value(hex_digit(b / 16)) is Some);
        assert(hex_value(hex_digit(b % 16)) is Some);
        assert forall|i: int| 0 <= i < hex_encode(s).len() implies (#[trigger] hex_value(hex_encode(s)[i])) is Some by {
            if i < p.len() {
                assert(hex_encode(s)[i] == p[i]);
            }
        }
    }
}

/// Decoding the hex form of a byte string gives the byte string back.
pub proof fn lemma_hex_round_trip(s: Seq<u8>)
    ensures
        hex_decode(hex_encode(s)) == Some(s),
    decreases s.len(),
{
    if s.len() > 0 {
        lemma_hex_round_trip(s.drop_last());
        lemma_hex_encode_shape(s.drop_last());
        let t = hex_encode(s);
        let b = s.last();
        assert(t.subrange(0, t.len() - 2) =~= hex_encode(s.drop_last()));
        assert(hex_value(hex_digit(b / 16)) == Some((b / 16) as u8));
        assert(hex_value(hex_digit(b % 16)) == Some((b % 16) as u8));
        assert(((b / 16) as u8 * 16 + (b % 16) as u8) as u8 == b);
        assert(s.drop_last().push(b) =~= s);
    }
}

/// A decoding that fails on a prefix of whole pairs fails on the whole.
pub proof fn lemma_hex_decode_prefix_fails(t: Seq<u8>, n: int)
    requires
        0 <= n <= t.len(),
        n % 2 == 0,
        t.len() % 2 == 0,
        hex_decode(t.subrange(0, n)) is None,
    ensures
        hex_decode(t) is None,
    decreases t.len() - n,
{
    if n < t.len() {
        let u = t.subrange(0, n + 2);
        assert(u.subrange(0, u.len() - 2) =~= t.subrange(0, n));
        lemma_hex_decode_prefix_fails(t, n + 2);
    } else {
        assert(t.subrange(0, n) =~= t);
    }
}

pub proof fn lemma_hex_decode_odd(t: Seq<u8>)
    requires
        t.len() % 2 == 1,
    ensures
        hex_decode(t) is None,
    decreases t.len(),
{
    if t.len() > 1 {
        lemma_hex_decode_odd(t.subrange(0, t.len() - 2));
    }
}

fn digit_of(v: u8) -> (r: u8)
    requires
        v < 16,
    ensures
        r == hex_digit(v),
{
    if v < 10 {
        48 + v
    } else {
        87 + v
    }
}

fn value_of(c: u8) -> (r: Option<u8>)
    ensures
        r == hex_value(c),
{
    if 48 <= c && c <= 57 {
        Some(c - 48)
    } else if 97 <= c && c <= 102 {
        Some(c - 87)
    } else {
        None
    }
}

/// Appends the hex form of `s` to `out`.
pub fn push_hex(out: &mut Vec<u8>, s: &Vec<u8>)
    ensures
        final(out)@ == old(out)@ + hex_encode(s@),
{
    let mut i: usize = 0;
    while i < s.len()
        invariant
            i <= s.len(),
            out@ == old(out)@ + hex_encode(s@.subrange(0, i as int)),
        decreases s.len() - i,
    {
        let b = s[i];
        out.push(digit_of(b / 16));
        out.push(digit_of(b % 16));
        assert(s@.subrange(0, i + 1).drop_last() =~= s@.subrange(0, i as int));
        i = i + 1;
        assert(out@ =~= old(out)@ + hex_encode(s@.subrange(0, i as int)));
    }
    assert(s@.subrange(0, s.len() as int) =~= s@);
}

/// Decodes the hex text `b[start..end]`.
pub fn decode_hex_range(b: &Vec<u8>, start: usize, end: usize) -> (r: Option<Vec<u8>>)
    requires
        start <= end <= b@.len(),
    ensures
        r is Some <==> hex_decode(b@.subrange(start as int, end as int)) is Some,
        r is Some ==> Some(r->0@) == hex_decode(b@.subrange(start as int, end as int)),
{
    let ghost t = b@.subrange(start as int, end as int);
    if (end - start) % 2 == 1 {
        proof {
            lemma_hex_decode_odd(t);
        }
        return None;
    }
    let mut out: Vec<u8> = Vec::new();
    let mut i: usize = start;
    while i < end
        invariant
            start <= i <= end,
            end <= b@.len(),
            (i - start) % 2 == 0,
            (end - start) % 2 == 0,
            t == b@.subrange(start as int, end as int),
            hex_decode(t.subrange(0, i - start)) == Some(out@),
        decreases end - i,
    {
        let ghost n = (i - start) as int;
        let hi = value_of(b[i]);
        let lo = value_of(b[i + 1]);
        let ghost u = t.subrange(0, n + 2);
        assert(u.subrange(0, u.len() - 2) =~= t.subrange(0, n));
        assert(u[u.len() - 2] == b@[i as int]);
        assert(u[u.len() - 1] == b@[i + 1]);
        match (hi, lo) {
            (Some(h), Some(l)) => {
                out.push(h * 16 + l);
            },
            _ => {
                proof {
                    lemma_hex_decode_prefix_fails(t, n + 2);
                }
                return None;
            },
        }
        i = i + 2;
    }
    assert(t.subrange(0, end - start) =~= t);
    Some(out)
}

} // verus!
