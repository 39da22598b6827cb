use vstd::prelude::*;

verus! {

/// Line separator.
pub const NEWLINE: u8 = 10;
/// Field separator.
pub const SPACE: u8 = 32;

/// Length of the leading run of `s` that holds no `sep`.
pub open spec fn field_len(s: Seq<u8>, sep: u8) -> nat
    decreases s.len(),
{
    if s.len() == 0 {
        0
    } else if s[0] == sep {
        0
    } else {
        1 + field_len(s.drop_first(), sep)
    }
}

/// Splits `s` at its first `sep`, if there is one.
pub open spec fn split_at_byte(s: Seq<u8>, sep: u8) -> Option<(Seq<u8>, Seq<u8>)> {
    let n = field_len(s, sep);
    if n < s.len() {
        Some((s.subrange(0, n as int), s.subrange(n as int + 1, s.len() as int)))
    } else {
        None
    }
}

pub proof fn lemma_field_len_split(t: Seq<u8>, sep: u8, rest: Seq<u8>)
    requires
        forall|i: int| 0 <= i < t.len() ==> t[i] != sep,
    ensures
        field_len(t + seq![sep] + rest, sep) == t.len(),
        split_at_byte(t + seq![sep] + rest, sep) == Some((t, rest)),
    decreases t.len(),
{
    let s = t + seq![sep] + rest;
    if t.len() > 0 {
        assert(s.drop_first() =~= t.drop_first() + seq![sep] + rest);
        lemma_field_len_split(t.drop_first(), sep, rest);
    } else {
        assert(s[0] == sep);
    }
    assert(s.subrange(0, t.len() as int) =~= t);
    assert(s.subrange(t.len() as int + 1, s.len() as int) =~= rest);
}

/// The first index in `b[start..end]` holding `sep`, or `end`.
pub fn find_byte(b: &Vec<u8>, start: usize, end: usize, sep: u8) -> (r: usize)
    requires
        start <= end <= b@.len(),
    ensures
        start <= r <= end,
        r == start + field_len(b@.subrange(start as int, end as int), sep),
        split_at_byte(b@.subrange(start as int, end as int), sep) == if r < end {
            Some((b@.subrange(start as int, r as int), b@.subrange(r + 1, end as int)))
        } else {
            None::<(Seq<u8>, Seq<u8>)>
        },
{
    let ghost whole = b@.subrange(start as int, end as int);
    let mut i: usize = start;
    while i < end
        invariant
            start <= i <= end,
            end <= b@.len(),
            whole == b@.subrange(start as int, end as int),
            field_len(whole, sep) == (i - start) + field_len(b@.subrange(i as int, end as int), sep),
        ensures
            start <= i <= end,
            field_len(whole, sep) == (i - start) + field_len(b@.subrange(i as int, end as int), sep),
            i < end ==> b@[i as int] == sep,
        decreases end - i,
    {
        if b[i] == sep {
            break;
        }
        assert(b@.subrange(i as int, end as int).drop_first() =~= b@.subrange(i + 1, end as int));
        i = i + 1;
    }
    let ghost n = field_len(whole, sep);
    if i < end {
        assert(b@.subrange(i as int, end as int)[0] == sep);
        assert(whole.subrange(0, n as int) =~= b@.subrange(start as int, i as int));
        assert(whole.subrange(n as int + 1, whole.len() as int) =~= b@.subrange(i + 1, end as int));
    }
    i
}

/// The bytes `b[start..end]`.
pub fn copy_range(b: &Vec<u8>, start: usize, end: usize) -> (r: Vec<u8>)
    requires
        start <= end <= b@.len(),
    ensures
        r@ == b@.subrange(start as int, end as int),
{
    let mut r: Vec<u8> = Vec::new();
    let mut i: usize = start;
    while i < end
        invariant
            start <= i <= end,
            end <= b@.len(),
            r@ == b@.subrange(start as int, i as int),
        decreases end - i,
    {
        r.push(b[i]);
        i = i + 1;
        assert(r@ =~= b@.subrange(start as int, i as int));
    }
    r
}

} // verus!
