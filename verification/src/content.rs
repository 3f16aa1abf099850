//! Content decoders: interpret the raw content bytes of an element according
//! to its declared ASN.1 type, and the primitive parsers that combine one
//! header with one content decoder.

use vstd::prelude::*;
use crate::obj::{DerClass, DerContent, DerObject, ErrorKind, SpecContent, SpecDer, StrKind, TimeValue, X509Error};
use crate::tlv::{spec_read_header, read_header, TAG_ACC_LIMIT};

verus! {

/// One executable parse result against its mirror.
pub open spec fn obj_matches(
    r: Result<(DerObject, usize), X509Error>,
    sr: Result<(SpecDer, int), (ErrorKind, int)>,
) -> bool {
    match r {
        Ok((o, np)) => sr == Ok::<(SpecDer, int), (ErrorKind, int)>((o@, np as int)),
        Err(e) => sr == Err::<(SpecDer, int), (ErrorKind, int)>((e.kind, e.offset as int)),
    }
}

/// Copies the window `start .. end` out of the buffer.
pub(crate) fn copy_range(s: &[u8], start: usize, end: usize) -> (v: Vec<u8>)
    requires
        start <= end <= s@.len(),
    ensures
        v@ == s@.subrange(start as int, end as int),
{
    let mut v: Vec<u8> = Vec::new();
    let mut i: usize = start;
    while i < end
        invariant
            start <= i <= end <= s@.len(),
            v@ == s@.subrange(start as int, i as int),
        decreases end - i,
    {
        v.push(s[i]);
        proof {
            assert(s@.subrange(start as int, i + 1 as int) =~= s@.subrange(
                start as int,
                i as int,
            ).push(s@[i as int]));
        }
        i = i + 1;
    }
    v
}

// ---------------------------------------------------------------- BOOLEAN

/// BOOLEAN content: exactly one byte, 0x00 or 0xFF under DER.
pub open spec fn spec_content_bool(s: Seq<u8>, cs: int, ce: int) -> Result<bool, (ErrorKind, int)> {
    if ce - cs != 1 {
        Err((ErrorKind::InvalidEncoding, cs))
    } else if s[cs] == 0 {
        Ok(false)
    } else if s[cs] == 255 {
        Ok(true)
    } else {
        Err((ErrorKind::InvalidEncoding, cs))
    }
}

// ---------------------------------------------------------------- INTEGER

/// INTEGER content: at least one byte, minimally encoded two's complement.
pub open spec fn spec_content_integer(s: Seq<u8>, cs: int, ce: int) -> Result<
    Seq<u8>,
    (ErrorKind, int),
> {
    if ce - cs < 1 {
        Err((ErrorKind::InvalidEncoding, cs))
    } else if ce - cs >= 2 && s[cs] == 0 && s[cs + 1] < 128 {
        Err((ErrorKind::InvalidEncoding, cs))
    } else if ce - cs >= 2 && s[cs] == 255 && s[cs + 1] >= 128 {
        Err((ErrorKind::InvalidEncoding, cs))
    } else {
        Ok(s.subrange(cs, ce))
    }
}

// ---------------------------------------------------------------- OID

/// The first content byte packs the first two arcs as `40 * X + Y`.
pub open spec fn spec_oid_first(b: u8) -> (u64, u64) {
    if b < 80 {
        ((b as int / 40) as u64, (b as int % 40) as u64)
    } else {
        (2u64, (b - 80) as u64)
    }
}

/// Remaining arcs: base-128 big-endian continuation encoding.  A final byte
/// with its continuation bit still set is a truncated arc.
pub open spec fn spec_oid_rest(
    s: Seq<u8>,
    pos: int,
    ce: int,
    acc: u64,
    mid: bool,
    arcs: Seq<u64>,
) -> Result<Seq<u64>, (ErrorKind, int)>
    decreases ce - pos,
{
    if pos >= ce {
        if mid {
            Err((ErrorKind::InvalidEncoding, pos))
        } else {
            Ok(arcs)
        }
    } else {
        let b = s[pos];
        if acc > TAG_ACC_LIMIT {
            Err((ErrorKind::InvalidEncoding, pos))
        } else {
            let acc2 = (acc * 128 + (b as int % 128)) as u64;
            if b < 128 {
                spec_oid_rest(s, pos + 1, ce, 0, false, arcs.push(acc2))
            } else {
                spec_oid_rest(s, pos + 1, ce, acc2, true, arcs)
            }
        }
    }
}

/// OBJECT IDENTIFIER content.
pub open spec fn spec_content_oid(s: Seq<u8>, cs: int, ce: int) -> Result<
    Seq<u64>,
    (ErrorKind, int),
> {
    if ce <= cs {
        Err((ErrorKind::InvalidEncoding, cs))
    } else {
        let (a0, a1) = spec_oid_first(s[cs]);
        spec_oid_rest(s, cs + 1, ce, 0, false, seq![a0, a1])
    }
}

fn oid_rest(s: &[u8], pos: usize, ce: usize, acc: u64, mid: bool, arcs: Vec<u64>) -> (r: Result<
    Vec<u64>,
    X509Error,
>)
    requires
        pos <= ce <= s@.len(),
    ensures
        match r {
            Ok(v) => spec_oid_rest(s@, pos as int, ce as int, acc, mid, arcs@) == Ok::<
                Seq<u64>,
                (ErrorKind, int),
            >(v@),
            Err(e) => spec_oid_rest(s@, pos as int, ce as int, acc, mid, arcs@) == Err::<
                Seq<u64>,
                (ErrorKind, int),
            >((e.kind, e.offset as int)),
        },
    decreases ce - pos,
{
    if pos >= ce {
        if mid {
            Err(X509Error { kind: ErrorKind::InvalidEncoding, offset: pos })
        } else {
            Ok(arcs)
        }
    } else {
        let b = s[pos];
        if acc > TAG_ACC_LIMIT {
            Err(X509Error { kind: ErrorKind::InvalidEncoding, offset: pos })
        } else {
            assert(acc * 128 + 127 <= u64::MAX) by (nonlinear_arith)
                requires acc <= (u64::MAX - 127) / 128,
            ;
            let acc2: u64 = acc * 128 + (b % 128) as u64;
            if b < 128 {
                let mut arcs2 = arcs;
                arcs2.push(acc2);
                oid_rest(s, pos + 1, ce, 0, false, arcs2)
            } else {
                oid_rest(s, pos + 1, ce, acc2, true, arcs)
            }
        }
    }
}

// ---------------------------------------------------------------- BIT STRING

/// BIT STRING content: an unused-bit count 0..=7, then the bit data; a
/// nonzero unused count needs at least one data octet.
pub open spec fn spec_content_bits(s: Seq<u8>, cs: int, ce: int) -> Result<
    (u8, Seq<u8>),
    (ErrorKind, int),
> {
    if ce - cs < 1 {
        Err((ErrorKind::InvalidEncoding, cs))
    } else if s[cs] > 7 {
        Err((ErrorKind::InvalidEncoding, cs))
    } else if s[cs] > 0 && ce - cs == 1 {
        Err((ErrorKind::InvalidEncoding, cs))
    } else {
        Ok((s[cs], s.subrange(cs + 1, ce)))
    }
}

// ---------------------------------------------------------------- strings

/// The PrintableString character set.
pub open spec fn spec_printable_char(b: u8) -> bool {
    (65 <= b <= 90) || (97 <= b <= 122) || (48 <= b <= 57) || b == 32 || b == 39 || (40 <= b <= 41)
        || (43 <= b <= 47) || b == 58 || b == 61 || b == 63
}

/// First offset at which a byte is not printable, if any.
pub open spec fn spec_printable(s: Seq<u8>, pos: int, ce: int) -> Result<(), (ErrorKind, int)>
    decreases ce - pos,
{
    if pos >= ce {
        Ok(())
    } else if !spec_printable_char(s[pos]) {
        Err((ErrorKind::InvalidEncoding, pos))
    } else {
        spec_printable(s, pos + 1, ce)
    }
}

/// Character-string content: raw bytes, with PrintableString restricted to
/// its character set.
pub open spec fn spec_content_charstr(s: Seq<u8>, cs: int, ce: int, kind: StrKind) -> Result<
    Seq<u8>,
    (ErrorKind, int),
> {
    if kind == StrKind::Printable {
        match spec_printable(s, cs, ce) {
            Err(e) => Err(e),
            Ok(_) => Ok(s.subrange(cs, ce)),
        }
    } else {
        Ok(s.subrange(cs, ce))
    }
}

fn printable(s: &[u8], pos: usize, ce: usize) -> (r: Result<(), X509Error>)
    requires
        pos <= ce <= s@.len(),
    ensures
        match r {
            Ok(_) => spec_printable(s@, pos as int, ce as int) == Ok::<(), (ErrorKind, int)>(()),
            Err(e) => spec_printable(s@, pos as int, ce as int) == Err::<(), (ErrorKind, int)>(
                (e.kind, e.offset as int),
            ),
        },
    decreases ce - pos,
{
    if pos >= ce {
        Ok(())
    } else {
        let b = s[pos];
        let ok = (65 <= b && b <= 90) || (97 <= b && b <= 122) || (48 <= b && b <= 57) || b == 32
            || b == 39 || (40 <= b && b <= 41) || (43 <= b && b <= 47) || b == 58 || b == 61 || b
            == 63;
        if !ok {
            Err(X509Error { kind: ErrorKind::InvalidEncoding, offset: pos })
        } else {
            printable(s, pos + 1, ce)
        }
    }
}

// ---------------------------------------------------------------- times

pub open spec fn spec_is_digit(b: u8) -> bool {
    48 <= b <= 57
}

pub open spec fn spec_digit(b: u8) -> int {
    b as int - 48
}

/// `n` ASCII digits starting at `p`.
pub open spec fn spec_digits(s: Seq<u8>, p: int, n: int) -> bool
    decreases n,
{
    if n <= 0 {
        true
    } else {
        spec_is_digit(s[p]) && spec_digits(s, p + 1, n - 1)
    }
}

/// The number written by the two digits at `p`.
pub open spec fn spec_two(s: Seq<u8>, p: int) -> int {
    10 * spec_digit(s[p]) + spec_digit(s[p + 1])
}

fn check_digits(s: &[u8], p: usize, n: usize) -> (r: bool)
    requires
        p + n <= s@.len(),
    ensures
        r == spec_digits(s@, p as int, n as int),
        r ==> forall|i: int| p <= i < p + n ==> spec_is_digit(s@[i]),
    decreases n,
{
    if n == 0 {
        true
    } else {
        let b = s[p];
        if 48 <= b && b <= 57 {
            check_digits(s, p + 1, n - 1)
        } else {
            false
        }
    }
}

fn two(s: &[u8], p: usize) -> (v: u8)
    requires
        p + 2 <= s@.len(),
        spec_is_digit(s@[p as int]),
        spec_is_digit(s@[p as int + 1]),
    ensures
        v as int == spec_two(s@, p as int),
        v <= 99,
{
    (s[p] - 48) * 10 + (s[p + 1] - 48)
}

/// The MMDDHHMMSS digits and the `Z` or `+HHMM`/`-HHMM` suffix shared by both
/// time types; `year` was decoded by the caller.
pub open spec fn spec_time_tail(
    s: Seq<u8>,
    p: int,
    ce: int,
    errpos: int,
    generalized: bool,
    year: int,
) -> Result<TimeValue, (ErrorKind, int)> {
    if ce - p != 11 && ce - p != 15 {
        Err((ErrorKind::InvalidEncoding, errpos))
    } else if !spec_digits(s, p, 10) {
        Err((ErrorKind::InvalidEncoding, errpos))
    } else {
        let month = spec_two(s, p);
        let day = spec_two(s, p + 2);
        let hour = spec_two(s, p + 4);
        let minute = spec_two(s, p + 6);
        let second = spec_two(s, p + 8);
        if !(1 <= month <= 12 && 1 <= day <= 31 && hour <= 23 && minute <= 59 && second <= 59) {
            Err((ErrorKind::InvalidEncoding, errpos))
        } else if ce - p == 11 {
            if s[p + 10] == 90 {
                Ok(
                    TimeValue {
                        generalized,
                        year: year as u16,
                        month: month as u8,
                        day: day as u8,
                        hour: hour as u8,
                        minute: minute as u8,
                        second: second as u8,
                        offset_minutes: 0,
                    },
                )
            } else {
                Err((ErrorKind::InvalidEncoding, errpos))
            }
        } else {
            if (s[p + 10] == 43 || s[p + 10] == 45) && spec_digits(s, p + 11, 4) {
                let oh = spec_two(s, p + 11);
                let om = spec_two(s, p + 13);
                if oh <= 23 && om <= 59 {
                    let mins = 60 * oh + om;
                    Ok(
                        TimeValue {
                            generalized,
                            year: year as u16,
                            month: month as u8,
                            day: day as u8,
                            hour: hour as u8,
                            minute: minute as u8,
                            second: second as u8,
                            offset_minutes: if s[p + 10] == 45 {
                                (-mins) as i32
                            } else {
                                mins as i32
                            },
                        },
                    )
                } else {
                    Err((ErrorKind::InvalidEncoding, errpos))
                }
            } else {
                Err((ErrorKind::InvalidEncoding, errpos))
            }
        }
    }
}

/// UTCTime (`YYMMDDHHMMSS` plus suffix, two-digit year) or GeneralizedTime
/// (four-digit year).  A two-digit year 50..=99 means 1950..=1999, 00..=49
/// means 2000..=2049.
pub open spec fn spec_content_time(s: Seq<u8>, cs: int, ce: int, generalized: bool) -> Result<
    TimeValue,
    (ErrorKind, int),
> {
    if generalized {
        if ce - cs >= 4 && spec_digits(s, cs, 4) {
            let year = 1000 * spec_digit(s[cs]) + 100 * spec_digit(s[cs + 1]) + 10 * spec_digit(
                s[cs + 2],
            ) + spec_digit(s[cs + 3]);
            spec_time_tail(s, cs + 4, ce, cs, true, year)
        } else {
            Err((ErrorKind::InvalidEncoding, cs))
        }
    } else {
        if ce - cs >= 2 && spec_digits(s, cs, 2) {
            let yy = spec_two(s, cs);
            let year = if yy >= 50 {
                1900 + yy
            } else {
                2000 + yy
            };
            spec_time_tail(s, cs + 2, ce, cs, false, year)
        } else {
            Err((ErrorKind::InvalidEncoding, cs))
        }
    }
}

fn time_tail(s: &[u8], p: usize, ce: usize, errpos: usize, generalized: bool, year: u16) -> (r:
    Result<TimeValue, X509Error>)
    requires
        p <= ce <= s@.len(),
    ensures
        match r {
            Ok(t) => spec_time_tail(s@, p as int, ce as int, errpos as int, generalized, year as int)
                == Ok::<TimeValue, (ErrorKind, int)>(t),
            Err(e) => spec_time_tail(
                s@,
                p as int,
                ce as int,
                errpos as int,
                generalized,
                year as int,
            ) == Err::<TimeValue, (ErrorKind, int)>((e.kind, e.offset as int)),
        },
{
    if ce - p != 11 && ce - p != 15 {
        Err(X509Error { kind: ErrorKind::InvalidEncoding, offset: errpos })
    } else if !check_digits(s, p, 10) {
        Err(X509Error { kind: ErrorKind::InvalidEncoding, offset: errpos })
    } else {
        let month = two(s, p);
        let day = two(s, p + 2);
        let hour = two(s, p + 4);
        let minute = two(s, p + 6);
        let second = two(s, p + 8);
        if !(1 <= month && month <= 12 && 1 <= day && day <= 31 && hour <= 23 && minute <= 59
            && second <= 59) {
            Err(X509Error { kind: ErrorKind::InvalidEncoding, offset: errpos })
        } else if ce - p == 11 {
            if s[p + 10] == 90 {
                Ok(
                    TimeValue {
                        generalized,
                        year,
                        month,
                        day,
                        hour,
                        minute,
                        second,
                        offset_minutes: 0,
                    },
                )
            } else {
                Err(X509Error { kind: ErrorKind::InvalidEncoding, offset: errpos })
            }
        } else {
            let sgn = s[p + 10];
            if (sgn == 43 || sgn == 45) && check_digits(s, p + 11, 4) {
                let oh = two(s, p + 11);
                let om = two(s, p + 13);
                if oh <= 23 && om <= 59 {
                    let mins: i32 = 60 * (oh as i32) + (om as i32);
                    Ok(
                        TimeValue {
                            generalized,
                            year,
                            month,
                            day,
                            hour,
                            minute,
                            second,
                            offset_minutes: if sgn == 45 {
                                -mins
                            } else {
                                mins
                            },
                        },
                    )
                } else {
                    Err(X509Error { kind: ErrorKind::InvalidEncoding, offset: errpos })
                }
            } else {
                Err(X509Error { kind: ErrorKind::InvalidEncoding, offset: errpos })
            }
        }
    }
}

// ------------------------------------------------------- primitive parsers

/// The universal tag number of each character-string type.
pub open spec fn spec_tag_of_kind(kind: StrKind) -> u64 {
    match kind {
        StrKind::Utf8 => 12u64,
        StrKind::Printable => 19u64,
        StrKind::Ia5 => 22u64,
        StrKind::T61 => 20u64,
        StrKind::Bmp => 30u64,
    }
}

/// BOOLEAN element.
pub open spec fn spec_parse_bool(s: Seq<u8>, pos: int, end: int) -> Result<
    (SpecDer, int),
    (ErrorKind, int),
> {
    match spec_read_header(s, pos, end) {
        Err(e) => Err(e),
        Ok(((cls, cons, tag, len, cstart), cend)) => {
            if !(cls == DerClass::Universal && !cons && tag == 1) {
                Err((ErrorKind::UnexpectedTag, pos))
            } else {
                match spec_content_bool(s, cstart, cend) {
                    Err(e) => Err(e),
                    Ok(b) => Ok(
                        (
                            SpecDer {
                                class: cls,
                                constructed: false,
                                tag,
                                length: len as nat,
                                content: SpecContent::Boolean(b),
                            },
                            cend,
                        ),
                    ),
                }
            }
        },
    }
}

pub(crate) fn parse_bool(s: &[u8], pos: usize, end: usize) -> (r: Result<
    (DerObject, usize),
    X509Error,
>)
    requires
        pos <= end <= s@.len(),
    ensures
        obj_matches(r, spec_parse_bool(s@, pos as int, end as int)),
        r matches Ok((o, np)) ==> pos < np <= end,
{
    match read_header(s, pos, end) {
        Err(e) => Err(e),
        Ok((h, cend)) => {
            if !(matches!(h.class, DerClass::Universal) && !h.constructed && h.tag == 1) {
                Err(X509Error { kind: ErrorKind::UnexpectedTag, offset: pos })
            } else {
                let cs = h.cstart;
                if cend - cs != 1 {
                    Err(X509Error { kind: ErrorKind::InvalidEncoding, offset: cs })
                } else if s[cs] == 0 {
                    Ok(
                        (
                            DerObject {
                                class: h.class,
                                constructed: false,
                                tag: h.tag,
                                length: h.len,
                                content: DerContent::Boolean(false),
                            },
                            cend,
                        ),
                    )
                } else if s[cs] == 255 {
                    Ok(
                        (
                            DerObject {
                                class: h.class,
                                constructed: false,
                                tag: h.tag,
                                length: h.len,
                                content: DerContent::Boolean(true),
                            },
                            cend,
                        ),
                    )
                } else {
                    Err(X509Error { kind: ErrorKind::InvalidEncoding, offset: cs })
                }
            }
        },
    }
}

/// INTEGER element.
pub open spec fn spec_parse_integer(s: Seq<u8>, pos: int, end: int) -> Result<
    (SpecDer, int),
    (ErrorKind, int),
> {
    match spec_read_header(s, pos, end) {
        Err(e) => Err(e),
        Ok(((cls, cons, tag, len, cstart), cend)) => {
            if !(cls == DerClass::Universal && !cons && tag == 2) {
                Err((ErrorKind::UnexpectedTag, pos))
            } else {
                match spec_content_integer(s, cstart, cend) {
                    Err(e) => Err(e),
                    Ok(v) => Ok(
                        (
                            SpecDer {
                                class: cls,
                                constructed: false,
                                tag,
                                length: len as nat,
                                content: SpecContent::Integer(v),
                            },
                            cend,
                        ),
                    ),
                }
            }
        },
    }
}

pub(crate) fn parse_integer(s: &[u8], pos: usize, end: usize) -> (r: Result<
    (DerObject, usize),
    X509Error,
>)
    requires
        pos <= end <= s@.len(),
    ensures
        obj_matches(r, spec_parse_integer(s@, pos as int, end as int)),
        r matches Ok((o, np)) ==> pos < np <= end,
{
    match read_header(s, pos, end) {
        Err(e) => Err(e),
        Ok((h, cend)) => {
            if !(matches!(h.class, DerClass::Universal) && !h.constructed && h.tag == 2) {
                Err(X509Error { kind: ErrorKind::UnexpectedTag, offset: pos })
            } else {
                let cs = h.cstart;
                if cend - cs < 1 {
                    Err(X509Error { kind: ErrorKind::InvalidEncoding, offset: cs })
                } else if cend - cs >= 2 && s[cs] == 0 && s[cs + 1] < 128 {
                    Err(X509Error { kind: ErrorKind::InvalidEncoding, offset: cs })
                } else if cend - cs >= 2 && s[cs] == 255 && s[cs + 1] >= 128 {
                    Err(X509Error { kind: ErrorKind::InvalidEncoding, offset: cs })
                } else {
                    let v = copy_range(s, cs, cend);
                    Ok(
                        (
                            DerObject {
                                class: h.class,
                                constructed: false,
                                tag: h.tag,
                                length: h.len,
                                content: DerContent::Integer(v),
                            },
                            cend,
                        ),
                    )
                }
            }
        },
    }
}

/// OBJECT IDENTIFIER element.
pub open spec fn spec_parse_oid(s: Seq<u8>, pos: int, end: int) -> Result<
    (SpecDer, int),
    (ErrorKind, int),
> {
    match spec_read_header(s, pos, end) {
        Err(e) => Err(e),
        Ok(((cls, cons, tag, len, cstart), cend)) => {
            if !(cls == DerClass::Universal && !cons && tag == 6) {
                Err((ErrorKind::UnexpectedTag, pos))
            } else {
                match spec_content_oid(s, cstart, cend) {
                    Err(e) => Err(e),
                    Ok(v) => Ok(
                        (
                            SpecDer {
                                class: cls,
                                constructed: false,
                                tag,
                                length: len as nat,
                                content: SpecContent::Oid(v),
                            },
                            cend,
                        ),
                    ),
                }
            }
        },
    }
}

pub(crate) fn parse_oid(s: &[u8], pos: usize, end: usize) -> (r: Result<
    (DerObject, usize),
    X509Error,
>)
    requires
        pos <= end <= s@.len(),
    ensures
        obj_matches(r, spec_parse_oid(s@, pos as int, end as int)),
        r matches Ok((o, np)) ==> pos < np <= end,
{
    match read_header(s, pos, end) {
        Err(e) => Err(e),
        Ok((h, cend)) => {
            if !(matches!(h.class, DerClass::Universal) && !h.constructed && h.tag == 6) {
                Err(X509Error { kind: ErrorKind::UnexpectedTag, offset: pos })
            } else {
                let cs = h.cstart;
                if cend <= cs {
                    Err(X509Error { kind: ErrorKind::InvalidEncoding, offset: cs })
                } else {
                    let b = s[cs];
                    let (a0, a1): (u64, u64) = if b < 80 {
                        ((b / 40) as u64, (b % 40) as u64)
                    } else {
                        (2u64, (b - 80) as u64)
                    };
                    let mut arcs: Vec<u64> = Vec::new();
                    arcs.push(a0);
                    arcs.push(a1);
                    proof {
                        assert(arcs@ =~= seq![a0, a1]);
                    }
                    match oid_rest(s, cs + 1, cend, 0, false, arcs) {
                        Err(e) => Err(e),
                        Ok(v) => Ok(
                            (
                                DerObject {
                                    class: h.class,
                                    constructed: false,
                                    tag: h.tag,
                                    length: h.len,
                                    content: DerContent::Oid(v),
                                },
                                cend,
                            ),
                        ),
                    }
                }
            }
        },
    }
}

/// BIT STRING element.
pub open spec fn spec_parse_bitstring(s: Seq<u8>, pos: int, end: int) -> Result<
    (SpecDer, int),
    (ErrorKind, int),
> {
    match spec_read_header(s, pos, end) {
        Err(e) => Err(e),
        Ok(((cls, cons, tag, len, cstart), cend)) => {
            if !(cls == DerClass::Universal && !cons && tag == 3) {
                Err((ErrorKind::UnexpectedTag, pos))
            } else {
                match spec_content_bits(s, cstart, cend) {
                    Err(e) => Err(e),
                    Ok((u, v)) => Ok(
                        (
                            SpecDer {
                                class: cls,
                                constructed: false,
                                tag,
                                length: len as nat,
                                content: SpecContent::BitString(u, v),
                            },
                            cend,
                        ),
                    ),
                }
            }
        },
    }
}

pub(crate) fn parse_bitstring(s: &[u8], pos: usize, end: usize) -> (r: Result<
    (DerObject, usize),
    X509Error,
>)
    requires
        pos <= end <= s@.len(),
    ensures
        obj_matches(r, spec_parse_bitstring(s@, pos as int, end as int)),
        r matches Ok((o, np)) ==> pos < np <= end,
{
    match read_header(s, pos, end) {
        Err(e) => Err(e),
        Ok((h, cend)) => {
            if !(matches!(h.class, DerClass::Universal) && !h.constructed && h.tag == 3) {
                Err(X509Error { kind: ErrorKind::UnexpectedTag, offset: pos })
            } else {
                let cs = h.cstart;
                if cend - cs < 1 {
                    Err(X509Error { kind: ErrorKind::InvalidEncoding, offset: cs })
                } else if s[cs] > 7 {
                    Err(X509Error { kind: ErrorKind::InvalidEncoding, offset: cs })
                } else if s[cs] > 0 && cend - cs == 1 {
                    Err(X509Error { kind: ErrorKind::InvalidEncoding, offset: cs })
                } else {
                    let v = copy_range(s, cs + 1, cend);
                    Ok(
                        (
                            DerObject {
                                class: h.class,
                                constructed: false,
                                tag: h.tag,
                                length: h.len,
                                content: DerContent::BitString(s[cs], v),
                            },
                            cend,
                        ),
                    )
                }
            }
        },
    }
}

/// OCTET STRING element.
pub open spec fn spec_parse_octetstring(s: Seq<u8>, pos: int, end: int) -> Result<
    (SpecDer, int),
    (ErrorKind, int),
> {
    match spec_read_header(s, pos, end) {
        Err(e) => Err(e),
        Ok(((cls, cons, tag, len, cstart), cend)) => {
            if !(cls == DerClass::Universal && !cons && tag == 4) {
                Err((ErrorKind::UnexpectedTag, pos))
            } else {
                Ok(
                    (
                        SpecDer {
                            class: cls,
                            constructed: false,
                            tag,
                            length: len as nat,
                            content: SpecContent::OctetString(s.subrange(cstart, cend)),
                        },
                        cend,
                    ),
                )
            }
        },
    }
}

pub(crate) fn parse_octetstring(s: &[u8], pos: usize, end: usize) -> (r: Result<
    (DerObject, usize),
    X509Error,
>)
    requires
        pos <= end <= s@.len(),
    ensures
        obj_matches(r, spec_parse_octetstring(s@, pos as int, end as int)),
        r matches Ok((o, np)) ==> pos < np <= end,
{
    match read_header(s, pos, end) {
        Err(e) => Err(e),
        Ok((h, cend)) => {
            if !(matches!(h.class, DerClass::Universal) && !h.constructed && h.tag == 4) {
                Err(X509Error { kind: ErrorKind::UnexpectedTag, offset: pos })
            } else {
                let v = copy_range(s, h.cstart, cend);
                Ok(
                    (
                        DerObject {
                            class: h.class,
                            constructed: false,
                            tag: h.tag,
                            length: h.len,
                            content: DerContent::OctetString(v),
                        },
                        cend,
                    ),
                )
            }
        },
    }
}

/// Character-string element of the given kind.
pub open spec fn spec_parse_charstr(s: Seq<u8>, pos: int, end: int, kind: StrKind) -> Result<
    (SpecDer, int),
    (ErrorKind, int),
> {
    match spec_read_header(s, pos, end) {
        Err(e) => Err(e),
        Ok(((cls, cons, tag, len, cstart), cend)) => {
            if !(cls == DerClass::Universal && !cons && tag == spec_tag_of_kind(kind)) {
                Err((ErrorKind::UnexpectedTag, pos))
            } else {
                match spec_content_charstr(s, cstart, cend, kind) {
                    Err(e) => Err(e),
                    Ok(v) => Ok(
                        (
                            SpecDer {
                                class: cls,
                                constructed: false,
                                tag,
                                length: len as nat,
                                content: SpecContent::CharString(kind, v),
                            },
                            cend,
                        ),
                    ),
                }
            }
        },
    }
}

pub(crate) fn parse_charstr(s: &[u8], pos: usize, end: usize, kind: StrKind) -> (r: Result<
    (DerObject, usize),
    X509Error,
>)
    requires
        pos <= end <= s@.len(),
    ensures
        obj_matches(r, spec_parse_charstr(s@, pos as int, end as int, kind)),
        r matches Ok((o, np)) ==> pos < np <= end,
{
    let want: u64 = match kind {
        StrKind::Utf8 => 12,
        StrKind::Printable => 19,
        StrKind::Ia5 => 22,
        StrKind::T61 => 20,
        StrKind::Bmp => 30,
    };
    match read_header(s, pos, end) {
        Err(e) => Err(e),
        Ok((h, cend)) => {
            if !(matches!(h.class, DerClass::Universal) && !h.constructed && h.tag == want) {
                Err(X509Error { kind: ErrorKind::UnexpectedTag, offset: pos })
            } else {
                if matches!(kind, StrKind::Printable) {
                    match printable(s, h.cstart, cend) {
                        Err(e) => {
                            return Err(e);
                        },
                        Ok(_) => {},
                    }
                }
                let v = copy_range(s, h.cstart, cend);
                Ok(
                    (
                        DerObject {
                            class: h.class,
                            constructed: false,
                            tag: h.tag,
                            length: h.len,
                            content: DerContent::CharString(kind, v),
                        },
                        cend,
                    ),
                )
            }
        },
    }
}

/// UTCTime or GeneralizedTime element.
pub open spec fn spec_parse_time(s: Seq<u8>, pos: int, end: int, generalized: bool) -> Result<
    (SpecDer, int),
    (ErrorKind, int),
> {
    match spec_read_header(s, pos, end) {
        Err(e) => Err(e),
        Ok(((cls, cons, tag, len, cstart), cend)) => {
            if !(cls == DerClass::Universal && !cons && tag == (if generalized {
                24u64
            } else {
                23u64
            })) {
                Err((ErrorKind::UnexpectedTag, pos))
            } else {
                match spec_content_time(s, cstart, cend, generalized) {
                    Err(e) => Err(e),
                    Ok(t) => Ok(
                        (
                            SpecDer {
                                class: cls,
                                constructed: false,
                                tag,
                                length: len as nat,
                                content: SpecContent::Time(t),
                            },
                            cend,
                        ),
                    ),
                }
            }
        },
    }
}

pub(crate) fn parse_time(s: &[u8], pos: usize, end: usize, generalized: bool) -> (r: Result<
    (DerObject, usize),
    X509Error,
>)
    requires
        pos <= end <= s@.len(),
    ensures
        obj_matches(r, spec_parse_time(s@, pos as int, end as int, generalized)),
        r matches Ok((o, np)) ==> pos < np <= end,
{
    let want: u64 = if generalized {
        24
    } else {
        23
    };
    match read_header(s, pos, end) {
        Err(e) => Err(e),
        Ok((h, cend)) => {
            if !(matches!(h.class, DerClass::Universal) && !h.constructed && h.tag == want) {
                Err(X509Error { kind: ErrorKind::UnexpectedTag, offset: pos })
            } else {
                let cs = h.cstart;
                let t = if generalized {
                    if cend - cs >= 4 && check_digits(s, cs, 4) {
                        let year: u16 = (s[cs] - 48) as u16 * 1000 + (s[cs + 1] - 48) as u16 * 100
                            + (s[cs + 2] - 48) as u16 * 10 + (s[cs + 3] - 48) as u16;
                        time_tail(s, cs + 4, cend, cs, true, year)
                    } else {
                        Err(X509Error { kind: ErrorKind::InvalidEncoding, offset: cs })
                    }
                } else {
                    if cend - cs >= 2 && check_digits(s, cs, 2) {
                        let yy: u16 = two(s, cs) as u16;
                        let year: u16 = if yy >= 50 {
                            1900 + yy
                        } else {
                            2000 + yy
                        };
                        time_tail(s, cs + 2, cend, cs, false, year)
                    } else {
                        Err(X509Error { kind: ErrorKind::InvalidEncoding, offset: cs })
                    }
                };
                match t {
                    Err(e) => Err(e),
                    Ok(tv) => Ok(
                        (
                            DerObject {
                                class: h.class,
                                constructed: false,
                                tag: h.tag,
                                length: h.len,
                                content: DerContent::Time(tv),
                            },
                            cend,
                        ),
                    ),
                }
            }
        },
    }
}

/// A BIT STRING carried under an IMPLICIT context-specific tag: the header
/// must show the given context tag, primitive; the content follows the BIT
/// STRING grammar.
pub open spec fn spec_parse_implicit_bits(s: Seq<u8>, pos: int, end: int, ctx: u64) -> Result<
    (SpecDer, int),
    (ErrorKind, int),
> {
    match spec_read_header(s, pos, end) {
        Err(e) => Err(e),
        Ok(((cls, cons, tag, len, cstart), cend)) => {
            if !(cls == DerClass::ContextSpecific && !cons && tag == ctx) {
                Err((ErrorKind::UnexpectedTag, pos))
            } else {
                match spec_content_bits(s, cstart, cend) {
                    Err(e) => Err(e),
                    Ok((u, v)) => Ok(
                        (
                            SpecDer {
                                class: cls,
                                constructed: false,
                                tag,
                                length: len as nat,
                                content: SpecContent::BitString(u, v),
                            },
                            cend,
                        ),
                    ),
                }
            }
        },
    }
}

pub(crate) fn parse_implicit_bits(s: &[u8], pos: usize, end: usize, ctx: u64) -> (r: Result<
    (DerObject, usize),
    X509Error,
>)
    requires
        pos <= end <= s@.len(),
    ensures
        obj_matches(r, spec_parse_implicit_bits(s@, pos as int, end as int, ctx)),
        r matches Ok((o, np)) ==> pos < np <= end,
{
    match read_header(s, pos, end) {
        Err(e) => Err(e),
        Ok((h, cend)) => {
            if !(matches!(h.class, DerClass::ContextSpecific) && !h.constructed && h.tag == ctx) {
                Err(X509Error { kind: ErrorKind::UnexpectedTag, offset: pos })
            } else {
                let cs = h.cstart;
                if cend - cs < 1 {
                    Err(X509Error { kind: ErrorKind::InvalidEncoding, offset: cs })
                } else if s[cs] > 7 {
                    Err(X509Error { kind: ErrorKind::InvalidEncoding, offset: cs })
                } else if s[cs] > 0 && cend - cs == 1 {
                    Err(X509Error { kind: ErrorKind::InvalidEncoding, offset: cs })
                } else {
                    let v = copy_range(s, cs + 1, cend);
                    Ok(
                        (
                            DerObject {
                                class: h.class,
                                constructed: false,
                                tag: h.tag,
                                length: h.len,
                                content: DerContent::BitString(s[cs], v),
                            },
                            cend,
                        ),
                    )
                }
            }
        },
    }
}

} // verus!
