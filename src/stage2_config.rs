use vstd::prelude::*;

use crate::block_device::{copy_bytes, parts_view, PartView, UmountPart};
use crate::error::MigErrorKind;
use crate::fields::{field_len, find_byte, lemma_field_len_split, split_at_byte, NEWLINE, SPACE};
use crate::hex::{decode_hex_range, hex_decode, hex_encode, hex_value, lemma_hex_encode_shape, lemma_hex_round_trip, push_hex};

verus! {

/// Marks a present log device.
pub const PLUS: u8 = 43;
/// Marks an absent log device.
pub const MINUS: u8 = 45;
/// A false flag.
pub const ZERO: u8 = 48;
/// A true flag.
pub const ONE: u8 = 49;

/// The handoff from Stage 1 to Stage 2.
#[derive(Debug)]
pub struct Stage2Config {
    pub log_dev: Option<Vec<u8>>,
    pub log_level: Vec<u8>,
    pub flash_dev: Vec<u8>,
    pub pretend: bool,
    pub umount_parts: Vec<UmountPart>,
    pub flash_external: bool,
}

/// The contents of a handoff configuration.
pub struct Stage2ConfigView {
    pub log_dev: Option<Seq<u8>>,
    pub log_level: Seq<u8>,
    pub flash_dev: Seq<u8>,
    pub pretend: bool,
    pub umount_parts: Seq<PartView>,
    pub flash_external: bool,
}

impl View for Stage2Config {
    type V = Stage2ConfigView;

    open spec fn view(&self) -> Stage2ConfigView {
        Stage2ConfigView {
            log_dev: match self.log_dev {
                Some(d) => Some(d@),
                None => None,
            },
            log_level: self.log_level@,
            flash_dev: self.flash_dev@,
            pretend: self.pretend,
            umount_parts: parts_view(self.umount_parts@),
            flash_external: self.flash_external,
        }
    }
}

/// `t` followed by a newline and `rest`.
pub open spec fn line(t: Seq<u8>, rest: Seq<u8>) -> Seq<u8> {
    t + seq![NEWLINE] + rest
}

pub open spec fn flag_text(b: bool) -> Seq<u8> {
    if b {
        seq![ONE]
    } else {
        seq![ZERO]
    }
}

pub open spec fn parse_flag(t: Seq<u8>) -> Option<bool> {
    if t == seq![ONE] {
        Some(true)
    } else if t == seq![ZERO] {
        Some(false)
    } else {
        None
    }
}

pub open spec fn log_dev_text(d: Option<Seq<u8>>) -> Seq<u8> {
    match d {
        Some(p) => seq![PLUS] + hex_encode(p),
        None => seq![MINUS],
    }
}

pub open spec fn parse_log_dev(t: Seq<u8>) -> Option<Option<Seq<u8>>> {
    if t == seq![MINUS] {
        Some(None)
    } else if t.len() >= 1 && t[0] == PLUS {
        match hex_decode(t.drop_first()) {
            Some(p) => Some(Some(p)),
            None => None,
        }
    } else {
        None
    }
}

/// An unmount entry as one line: device, mount point and file system type
/// in hex, separated by spaces.
pub open spec fn part_text(p: PartView) -> Seq<u8> {
    hex_encode(p.0) + seq![SPACE] + hex_encode(p.1) + seq![SPACE] + hex_encode(p.2)
}

pub open spec fn parse_part(t: Seq<u8>) -> Option<PartView> {
    match split_at_byte(t, SPACE) {
        Some((a, r1)) => match split_at_byte(r1, SPACE) {
            Some((b, c)) => match (hex_decode(a), hex_decode(b), hex_decode(c)) {
                (Some(x), Some(y), Some(z)) => Some((x, y, z)),
                _ => None,
            },
            None => None,
        },
        None => None,
    }
}

pub open spec fn parts_text(ps: Seq<PartView>) -> Seq<u8>
    decreases ps.len(),
{
    if ps.len() == 0 {
        Seq::empty()
    } else {
        line(part_text(ps[0]), parts_text(ps.drop_first()))
    }
}

pub open spec fn parse_parts(s: Seq<u8>) -> Option<Seq<PartView>>
    decreases s.len(),
{
    if s.len() == 0 {
        Some(Seq::empty())
    } else {
        let n = field_len(s, NEWLINE);
        if n >= s.len() {
            None
        } else {
            match (parse_part(s.subrange(0, n as int)), parse_parts(s.subrange(n as int + 1, s.len() as int))) {
                (Some(p), Some(ps)) => Some(seq![p] + ps),
                _ => None,
            }
        }
    }
}

/// The handoff text: log level, flash device, log device, the two flags, then
/// one line per unmount entry; every line ends with a newline.
pub open spec fn encode_config(c: Stage2ConfigView) -> Seq<u8> {
    line(
        hex_encode(c.log_level),
        line(
            hex_encode(c.flash_dev),
            line(
                log_dev_text(c.log_dev),
                line(flag_text(c.pretend), line(flag_text(c.flash_external), parts_text(c.umount_parts))),
            ),
        ),
    )
}

/// The configuration whose five header lines and unmount lines are given.
pub open spec fn decode_fields(
    l1: Seq<u8>,
    l2: Seq<u8>,
    l3: Seq<u8>,
    l4: Seq<u8>,
    l5: Seq<u8>,
    rest: Seq<u8>,
) -> Option<Stage2ConfigView> {
    match (hex_decode(l1), hex_decode(l2), parse_log_dev(l3), parse_flag(l4), parse_flag(l5), parse_parts(rest)) {
        (Some(level), Some(flash), Some(log_dev), Some(pretend), Some(ext), Some(parts)) => Some(
            Stage2ConfigView {
                log_dev: log_dev,
                log_level: level,
                flash_dev: flash,
                pretend: pretend,
                umount_parts: parts,
                flash_external: ext,
            },
        ),
        _ => None,
    }
}

/// The configuration that the handoff text `s` describes, if it is one.
pub open spec fn decode_config(s: Seq<u8>) -> Option<Stage2ConfigView> {
    match split_at_byte(s, NEWLINE) {
        None => None,
        Some((l1, r1)) => match split_at_byte(r1, NEWLINE) {
            None => None,
            Some((l2, r2)) => match split_at_byte(r2, NEWLINE) {
                None => None,
                Some((l3, r3)) => match split_at_byte(r3, NEWLINE) {
                    None => None,
                    Some((l4, r4)) => match split_at_byte(r4, NEWLINE) {
                        None => None,
                        Some((l5, r5)) => decode_fields(l1, l2, l3, l4, l5, r5),
                    },
                },
            },
        },
    }
}

proof fn lemma_hex_free_of(s: Seq<u8>, c: u8)
    requires
        hex_value(c) is None,
    ensures
        forall|i: int| 0 <= i < hex_encode(s).len() ==> hex_encode(s)[i] != c,
{
    lemma_hex_encode_shape(s);
    assert forall|i: int| 0 <= i < hex_encode(s).len() implies hex_encode(s)[i] != c by {
        assert(hex_value(hex_encode(s)[i]) is Some);
    }
}

proof fn lemma_part_round_trip(p: PartView)
    ensures
        parse_part(part_text(p)) == Some(p),
        forall|i: int| 0 <= i < part_text(p).len() ==> part_text(p)[i] != NEWLINE,
{
    lemma_hex_free_of(p.0, SPACE);
    lemma_hex_free_of(p.1, SPACE);
    lemma_hex_free_of(p.0, NEWLINE);
    lemma_hex_free_of(p.1, NEWLINE);
    lemma_hex_free_of(p.2, NEWLINE);
    lemma_hex_round_trip(p.0);
    lemma_hex_round_trip(p.1);
    lemma_hex_round_trip(p.2);
    let t = part_text(p);
    let r1 = hex_encode(p.1) + seq![SPACE] + hex_encode(p.2);
    assert(t =~= hex_encode(p.0) + seq![SPACE] + r1);
    lemma_field_len_split(hex_encode(p.0), SPACE, r1);
    lemma_field_len_split(hex_encode(p.1), SPACE, hex_encode(p.2));
}

proof fn lemma_parts_round_trip(ps: Seq<PartView>)
    ensures
        parse_parts(parts_text(ps)) == Some(ps),
    decreases ps.len(),
{
    if ps.len() > 0 {
        lemma_part_round_trip(ps[0]);
        lemma_parts_round_trip(ps.drop_first());
        let s = parts_text(ps);
        lemma_field_len_split(part_text(ps[0]), NEWLINE, parts_text(ps.drop_first()));
        assert(seq![ps[0]] + ps.drop_first() =~= ps);
    } else {
        assert(parts_text(ps) =~= Seq::<u8>::empty());
        assert(ps =~= Seq::<PartView>::empty());
    }
}

/// What Stage 2 reads back is what Stage 1 wrote: decoding the handoff text of
/// any configuration gives that configuration, field for field.
pub proof fn lemma_config_round_trip(c: Stage2ConfigView)
    ensures
        decode_config(encode_config(c)) == Some(c),
{
    lemma_hex_free_of(c.log_level, NEWLINE);
    lemma_hex_free_of(c.flash_dev, NEWLINE);
    lemma_hex_round_trip(c.log_level);
    lemma_hex_round_trip(c.flash_dev);
    let r5 = parts_text(c.umount_parts);
    let r4 = line(flag_text(c.flash_external), r5);
    let r3 = line(flag_text(c.pretend), r4);
    let r2 = line(log_dev_text(c.log_dev), r3);
    let r1 = line(hex_encode(c.flash_dev), r2);
    lemma_field_len_split(hex_encode(c.log_level), NEWLINE, r1);
    lemma_field_len_split(hex_encode(c.flash_dev), NEWLINE, r2);
    match c.log_dev {
        Some(d) => {
            lemma_hex_free_of(d, NEWLINE);
            lemma_hex_round_trip(d);
            let t = log_dev_text(c.log_dev);
            assert(t.drop_first() =~= hex_encode(d));
            assert forall|i: int| 0 <= i < t.len() implies t[i] != NEWLINE by {
                if i > 0 {
                    assert(t[i] == hex_encode(d)[i - 1]);
                }
            }
            assert(t != seq![MINUS]) by {
                assert(t[0] == PLUS);
            }
        },
        None => {},
    }
    lemma_field_len_split(log_dev_text(c.log_dev), NEWLINE, r3);
    lemma_field_len_split(flag_text(c.pretend), NEWLINE, r4);
    lemma_field_len_split(flag_text(c.flash_external), NEWLINE, r5);
    lemma_parts_round_trip(c.umount_parts);
}

proof fn lemma_parts_text_push(ps: Seq<PartView>, p: PartView)
    ensures
        parts_text(ps.push(p)) == parts_text(ps) + part_text(p) + seq![NEWLINE],
    decreases ps.len(),
{
    assert(ps.push(p)[0] == if ps.len() == 0 { p } else { ps[0] });
    if ps.len() == 0 {
        let q = ps.push(p);
        assert(q.drop_first() =~= Seq::<PartView>::empty());
        assert(parts_text(q.drop_first()) =~= Seq::<u8>::empty());
        assert(parts_text(ps) =~= Seq::<u8>::empty());
        assert(parts_text(q) == line(part_text(p), parts_text(q.drop_first())));
        assert(parts_text(q) =~= parts_text(ps) + part_text(p) + seq![NEWLINE]);
    } else {
        let q = ps.push(p);
        assert(q.drop_first() =~= ps.drop_first().push(p));
        lemma_parts_text_push(ps.drop_first(), p);
        assert(parts_text(q) == line(part_text(ps[0]), parts_text(ps.drop_first().push(p))));
        assert(parts_text(ps) == line(part_text(ps[0]), parts_text(ps.drop_first())));
        assert(parts_text(q) =~= parts_text(ps) + part_text(p) + seq![NEWLINE]);
    }
}

/// Prepends `acc` to a parse result.
pub open spec fn prepend_parts(acc: Seq<PartView>, r: Option<Seq<PartView>>) -> Option<Seq<PartView>> {
    match r {
        Some(ps) => Some(acc + ps),
        None => None,
    }
}

impl Stage2Config {
    /// The handoff text of this configuration.
    pub fn serialize(&self) -> (r: Vec<u8>)
        ensures
            r@ == encode_config(self@),
    {
        let mut out: Vec<u8> = Vec::new();
        push_hex(&mut out, &self.log_level);
        out.push(NEWLINE);
        push_hex(&mut out, &self.flash_dev);
        out.push(NEWLINE);
        match &self.log_dev {
            Some(d) => {
                out.push(PLUS);
                push_hex(&mut out, d);
            },
            None => {
                out.push(MINUS);
            },
        }
        out.push(NEWLINE);
        out.push(if self.pretend { ONE } else { ZERO });
        out.push(NEWLINE);
        out.push(if self.flash_external { ONE } else { ZERO });
        out.push(NEWLINE);
        let ghost header = out@;
        let ghost c = self@;
        assert(header =~= hex_encode(c.log_level) + seq![NEWLINE] + hex_encode(c.flash_dev) + seq![NEWLINE]
            + log_dev_text(c.log_dev) + seq![NEWLINE] + flag_text(c.pretend) + seq![NEWLINE] + flag_text(
            c.flash_external,
        ) + seq![NEWLINE]);
        let parts = &self.umount_parts;
        let mut i: usize = 0;
        assert(parts_text(parts_view(parts@).subrange(0, 0)) =~= Seq::<u8>::empty());
        while i < parts.len()
            invariant
                i <= parts@.len(),
                c == self@,
                parts == &self.umount_parts,
                out@ == header + parts_text(parts_view(parts@).subrange(0, i as int)),
            decreases parts.len() - i,
        {
            let part = &parts[i];
            let ghost before = out@;
            push_hex(&mut out, &part.dev_name);
            out.push(SPACE);
            push_hex(&mut out, &part.mountpoint);
            out.push(SPACE);
            push_hex(&mut out, &part.fs_type);
            out.push(NEWLINE);
            proof {
                let pv = parts_view(parts@);
                assert(pv.subrange(0, i + 1) =~= pv.subrange(0, i as int).push(part@));
                lemma_parts_text_push(pv.subrange(0, i as int), part@);
                assert(out@ =~= before + part_text(part@) + seq![NEWLINE]);
            }
            i = i + 1;
        }
        assert(parts_view(parts@).subrange(0, parts@.len() as int) =~= c.umount_parts);
        assert(out@ =~= encode_config(c));
        out
    }

    /// Reads a configuration back from its handoff text. Text that is not the
    /// handoff text of any configuration is a `Serialization` error.
    pub fn parse(b: &Vec<u8>) -> (r: Result<Stage2Config, MigErrorKind>)
        ensures
            r is Ok <==> decode_config(b@) is Some,
            r is Ok ==> decode_config(b@) == Some(r->Ok_0@),
            r is Err ==> r->Err_0 == MigErrorKind::Serialization,
    {
        let len = b.len();
        assert(b@.subrange(0, len as int) =~= b@);
        let e1 = find_byte(b, 0, len, NEWLINE);
        if e1 == len {
            return Err(MigErrorKind::Serialization);
        }
        let ghost r1 = b@.subrange(e1 + 1, len as int);
        assert(split_at_byte(b@, NEWLINE) == Some((b@.subrange(0, e1 as int), r1)));
        let e2 = find_byte(b, e1 + 1, len, NEWLINE);
        if e2 == len {
            assert(decode_config(b@) is None);
            return Err(MigErrorKind::Serialization);
        }
        let ghost r2 = b@.subrange(e2 + 1, len as int);
        assert(split_at_byte(r1, NEWLINE) == Some((b@.subrange(e1 + 1, e2 as int), r2)));
        let e3 = find_byte(b, e2 + 1, len, NEWLINE);
        if e3 == len {
            assert(decode_config(b@) is None);
            return Err(MigErrorKind::Serialization);
        }
        let ghost r3 = b@.subrange(e3 + 1, len as int);
        assert(split_at_byte(r2, NEWLINE) == Some((b@.subrange(e2 + 1, e3 as int), r3)));
        let e4 = find_byte(b, e3 + 1, len, NEWLINE);
        if e4 == len {
            assert(decode_config(b@) is None);
            return Err(MigErrorKind::Serialization);
        }
        let ghost r4 = b@.subrange(e4 + 1, len as int);
        assert(split_at_byte(r3, NEWLINE) == Some((b@.subrange(e3 + 1, e4 as int), r4)));
        let e5 = find_byte(b, e4 + 1, len, NEWLINE);
        if e5 == len {
            assert(decode_config(b@) is None);
            return Err(MigErrorKind::Serialization);
        }
        assert(split_at_byte(r4, NEWLINE) == Some((b@.subrange(e4 + 1, e5 as int), b@.subrange(e5 + 1, len as int))));
        assert(decode_config(b@) == decode_fields(
            b@.subrange(0, e1 as int),
            b@.subrange(e1 + 1, e2 as int),
            b@.subrange(e2 + 1, e3 as int),
            b@.subrange(e3 + 1, e4 as int),
            b@.subrange(e4 + 1, e5 as int),
            b@.subrange(e5 + 1, b@.len() as int),
        ));
        parse_fields(b, e1, e2, e3, e4, e5)
    }
}

fn parse_fields(b: &Vec<u8>, e1: usize, e2: usize, e3: usize, e4: usize, e5: usize) -> (r: Result<
    Stage2Config,
    MigErrorKind,
>)
    requires
        e1 < e2 < e3 < e4 < e5 < b@.len(),
    ensures
        ({
            let d = decode_fields(
                b@.subrange(0, e1 as int),
                b@.subrange(e1 + 1, e2 as int),
                b@.subrange(e2 + 1, e3 as int),
                b@.subrange(e3 + 1, e4 as int),
                b@.subrange(e4 + 1, e5 as int),
                b@.subrange(e5 + 1, b@.len() as int),
            );
            &&& r is Ok <==> d is Some
            &&& r is Ok ==> d == Some(r->Ok_0@)
            &&& r is Err ==> r->Err_0 == MigErrorKind::Serialization
        }),
{
    let len = b.len();
        let log_level = match decode_hex_range(b, 0, e1) {
            Some(v) => v,
            None => return Err(MigErrorKind::Serialization),
        };
        let flash_dev = match decode_hex_range(b, e1 + 1, e2) {
            Some(v) => v,
            None => return Err(MigErrorKind::Serialization),
        };
        let ghost l3 = b@.subrange(e2 + 1, e3 as int);
        let log_dev = if e3 == e2 + 2 && b[e2 + 1] == MINUS {
            assert(l3 =~= seq![MINUS]);
            None
        } else if e3 > e2 + 1 && b[e2 + 1] == PLUS {
            assert(l3.drop_first() =~= b@.subrange(e2 + 2, e3 as int));
            assert(l3[0] == PLUS);
            assert(l3 != seq![MINUS]);
            match decode_hex_range(b, e2 + 2, e3) {
                Some(v) => Some(v),
                None => return Err(MigErrorKind::Serialization),
            }
        } else {
            assert(parse_log_dev(l3) is None) by {
                if l3 == seq![MINUS] {
                    assert(l3[0] == b@[e2 + 1]);
                }
                if l3.len() >= 1 {
                    assert(l3[0] == b@[e2 + 1]);
                }
            }
            return Err(MigErrorKind::Serialization);
        };
        let pretend = match parse_flag_range(b, e3 + 1, e4) {
            Some(f) => f,
            None => return Err(MigErrorKind::Serialization),
        };
        let flash_external = match parse_flag_range(b, e4 + 1, e5) {
            Some(f) => f,
            None => return Err(MigErrorKind::Serialization),
        };
        let umount_parts = match parse_parts_range(b, e5 + 1) {
            Some(v) => v,
            None => return Err(MigErrorKind::Serialization),
        };
        Ok(Stage2Config { log_dev, log_level, flash_dev, pretend, umount_parts, flash_external })
}

fn parse_flag_range(b: &Vec<u8>, start: usize, end: usize) -> (r: Option<bool>)
    requires
        start <= end <= b@.len(),
    ensures
        r == parse_flag(b@.subrange(start as int, end as int)),
{
    let ghost t = b@.subrange(start as int, end as int);
    if end - start == 1 && b[start] == ONE {
        assert(t =~= seq![ONE]);
        Some(true)
    } else if end - start == 1 && b[start] == ZERO {
        assert(t =~= seq![ZERO]);
        assert(t != seq![ONE]) by {
            assert(seq![ONE][0] == ONE);
        }
        Some(false)
    } else {
        assert(t != seq![ONE] && t != seq![ZERO]) by {
            if t.len() == 1 {
                assert(t[0] == b@[start as int]);
            }
        }
        None
    }
}

/// Parses the unmount lines `b[start..]`.
fn parse_parts_range(b: &Vec<u8>, start: usize) -> (r: Option<Vec<UmountPart>>)
    requires
        start <= b@.len(),
    ensures
        r is Some <==> parse_parts(b@.subrange(start as int, b@.len() as int)) is Some,
        r is Some ==> parse_parts(b@.subrange(start as int, b@.len() as int)) == Some(parts_view(r->0@)),
{
    let len = b.len();
    let mut acc: Vec<UmountPart> = Vec::new();
    let mut pos: usize = start;
    while pos < len
        invariant
            start <= pos <= len,
            len == b@.len(),
            parse_parts(b@.subrange(start as int, len as int)) == prepend_parts(
                parts_view(acc@),
                parse_parts(b@.subrange(pos as int, len as int)),
            ),
        decreases len - pos,
    {
        let ghost s = b@.subrange(pos as int, len as int);
        let e = find_byte(b, pos, len, NEWLINE);
        if e == len {
            return None;
        }
        let ghost l = b@.subrange(pos as int, e as int);
        let s1 = find_byte(b, pos, e, SPACE);
        if s1 == e {
            assert(parse_part(l) is None);
            return None;
        }
        let s2 = find_byte(b, s1 + 1, e, SPACE);
        if s2 == e {
            assert(parse_part(l) is None);
            return None;
        }
        let dev_name = decode_hex_range(b, pos, s1);
        let mountpoint = decode_hex_range(b, s1 + 1, s2);
        let fs_type = decode_hex_range(b, s2 + 1, e);
        match (dev_name, mountpoint, fs_type) {
            (Some(dev_name), Some(mountpoint), Some(fs_type)) => {
                let part = UmountPart { dev_name, mountpoint, fs_type };
                let ghost old_acc = acc@;
                assert(parse_part(l) == Some(part@));
                acc.push(part);
                assert(parts_view(acc@) =~= parts_view(old_acc) + seq![part@]);
                pos = e + 1;
                proof {
                    let rest = parse_parts(b@.subrange(pos as int, len as int));
                    match rest {
                        Some(ps) => {
                            assert(parts_view(old_acc) + (seq![part@] + ps) =~= parts_view(acc@) + ps);
                        },
                        None => {},
                    }
                }
            },
            _ => {
                assert(parse_part(l) is None);
                return None;
            },
        }
    }
    assert(b@.subrange(pos as int, len as int) =~= Seq::<u8>::empty());
    assert(parts_view(acc@) + Seq::<PartView>::empty() =~= parts_view(acc@));
    Some(acc)
}

} // verus!
