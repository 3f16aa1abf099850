//! The primitive decoder: reads the tag and length of one TLV element from a
//! byte cursor, enforcing DER's canonical length rules.
//!
//! Every function works on a window `pos .. end` of the buffer and never
//! inspects a byte at or beyond `end`.  Each executable function is specified
//! against a mathematical mirror over `Seq<u8>`.

use vstd::prelude::*;
use crate::obj::{DerClass, ErrorKind, X509Error};

verus! {

/// Largest accumulator to which one more base-128 digit can be appended
/// without overflowing a `u64`.
pub const TAG_ACC_LIMIT: u64 = (u64::MAX - 127) / 128;

/// Largest accumulator to which one more base-256 digit can be appended
/// without overflowing a `usize`.
pub const LEN_ACC_LIMIT: usize = (usize::MAX - 255) / 256;

/// Tag class encoded in the top two bits of the identifier octet.
pub open spec fn spec_class_of(b: u8) -> DerClass {
    let c = b as int / 64;
    if c == 0 {
        DerClass::Universal
    } else if c == 1 {
        DerClass::Application
    } else if c == 2 {
        DerClass::ContextSpecific
    } else {
        DerClass::Private
    }
}

/// Constructed flag: bit 5 of the identifier octet.
pub open spec fn spec_constructed_of(b: u8) -> bool {
    (b as int / 32) % 2 == 1
}

/// The low five bits of the identifier octet.
pub open spec fn spec_low_tag(b: u8) -> int {
    b as int % 32
}

/// Remaining octets of a multi-byte tag number: base-128 big-endian digits,
/// high bit set on every octet but the last.
pub open spec fn spec_read_tagnum(s: Seq<u8>, pos: int, end: int, acc: u64) -> Result<
    (u64, int),
    (ErrorKind, int),
>
    decreases end - pos,
{
    if pos >= end {
        Err((ErrorKind::TruncatedInput, pos))
    } else {
        let b = s[pos];
        if acc > TAG_ACC_LIMIT {
            Err((ErrorKind::InvalidEncoding, pos))
        } else {
            let acc2 = (acc * 128 + (b as int % 128)) as u64;
            if b < 128 {
                Ok((acc2, pos + 1))
            } else {
                spec_read_tagnum(s, pos + 1, end, acc2)
            }
        }
    }
}

/// The identifier octet(s): class, constructed flag, and tag number.
pub open spec fn spec_read_tag(s: Seq<u8>, pos: int, end: int) -> Result<
    ((DerClass, bool, u64), int),
    (ErrorKind, int),
> {
    if pos >= end {
        Err((ErrorKind::TruncatedInput, pos))
    } else {
        let b = s[pos];
        if spec_low_tag(b) < 31 {
            Ok(((spec_class_of(b), spec_constructed_of(b), spec_low_tag(b) as u64), pos + 1))
        } else {
            match spec_read_tagnum(s, pos + 1, end, 0) {
                Ok((t, np)) => Ok(((spec_class_of(b), spec_constructed_of(b), t), np)),
                Err(e) => Err(e),
            }
        }
    }
}

/// `count` further length octets, big-endian base 256; `errpos` is where an
/// overflow is reported.
pub open spec fn spec_len_bytes(s: Seq<u8>, pos: int, count: int, acc: int, errpos: int) -> Result<
    (int, int),
    (ErrorKind, int),
>
    decreases count,
{
    if count <= 0 {
        Ok((acc, pos))
    } else if acc > LEN_ACC_LIMIT as int {
        Err((ErrorKind::InvalidLength, errpos))
    } else {
        spec_len_bytes(s, pos + 1, count - 1, acc * 256 + s[pos], errpos)
    }
}

/// The length octets under DER: short form for 0..=127; otherwise long form,
/// which must be definite, minimal, and representable.
pub open spec fn spec_read_len(s: Seq<u8>, pos: int, end: int) -> Result<
    (int, int),
    (ErrorKind, int),
> {
    if pos >= end {
        Err((ErrorKind::TruncatedInput, pos))
    } else {
        let b = s[pos];
        if b < 128 {
            Ok((b as int, pos + 1))
        } else {
            let count = b as int - 128;
            if count == 0 {
                // BER indefinite length, forbidden under DER.
                Err((ErrorKind::InvalidLength, pos))
            } else if pos + 1 + count > end {
                Err((ErrorKind::TruncatedInput, pos))
            } else if s[pos + 1] == 0 {
                // Leading zero octet: not the minimal encoding.
                Err((ErrorKind::InvalidLength, pos))
            } else if count == 1 && s[pos + 1] < 128 {
                // Value below 128 must use the short form.
                Err((ErrorKind::InvalidLength, pos))
            } else {
                spec_len_bytes(s, pos + 1, count, 0, pos)
            }
        }
    }
}

/// A whole header: tag, then length, then a check that the declared content
/// lies inside the window.  On success the tuple carries class, constructed
/// flag, tag number, content length and content start; the second component
/// is the end of the element.
pub open spec fn spec_read_header(s: Seq<u8>, pos: int, end: int) -> Result<
    ((DerClass, bool, u64, int, int), int),
    (ErrorKind, int),
> {
    match spec_read_tag(s, pos, end) {
        Err(e) => Err(e),
        Ok(((cls, cons, tag), p1)) => match spec_read_len(s, p1, end) {
            Err(e) => Err(e),
            Ok((len, cstart)) => {
                if cstart + len > end {
                    Err((ErrorKind::TruncatedInput, cstart))
                } else {
                    Ok(((cls, cons, tag, len, cstart), cstart + len))
                }
            },
        },
    }
}

/// A decoded tag-and-length header.
#[derive(Debug, Clone, Copy, PartialEq, Eq, Structural)]
pub struct Header {
    pub class: DerClass,
    pub constructed: bool,
    pub tag: u64,
    /// Declared byte count of the content.
    pub len: usize,
    /// Offset at which the content begins.
    pub cstart: usize,
}

impl Header {
    /// The mirror tuple this header corresponds to.
    pub open spec fn spec(self) -> (DerClass, bool, u64, int, int) {
        (self.class, self.constructed, self.tag, self.len as int, self.cstart as int)
    }
}

fn class_of(b: u8) -> (c: DerClass)
    ensures
        c == spec_class_of(b),
{
    let v: u8 = b / 64;
    if v == 0 {
        DerClass::Universal
    } else if v == 1 {
        DerClass::Application
    } else if v == 2 {
        DerClass::ContextSpecific
    } else {
        DerClass::Private
    }
}

fn read_tagnum(s: &[u8], pos: usize, end: usize, acc: u64) -> (r: Result<(u64, usize), X509Error>)
    requires
        pos <= end <= s@.len(),
    ensures
        match r {
            Ok((t, np)) => spec_read_tagnum(s@, pos as int, end as int, acc) == Ok::<
                (u64, int),
                (ErrorKind, int),
            >((t, np as int)) && pos < np <= end,
            Err(e) => spec_read_tagnum(s@, pos as int, end as int, acc) == Err::<
                (u64, int),
                (ErrorKind, int),
            >((e.kind, e.offset as int)),
        },
    decreases end - pos,
{
    if pos >= end {
        Err(X509Error { kind: ErrorKind::TruncatedInput, offset: pos })
    } else {
        let b = s[pos];
        if acc > TAG_ACC_LIMIT {
            Err(X509Error { kind: ErrorKind::InvalidEncoding, offset: pos })
        } else {
            assert(acc * 128 + 127 <= u64::MAX) by (nonlinear_arith)
                requires acc <= (u64::MAX - 127) / 128,
            ;
            let acc2: u64 = acc * 128 + (b % 128) as u64;
            if b < 128 {
                Ok((acc2, pos + 1))
            } else {
                read_tagnum(s, pos + 1, end, acc2)
            }
        }
    }
}

fn read_tag(s: &[u8], pos: usize, end: usize) -> (r: Result<((DerClass, bool, u64), usize), X509Error>)
    requires
        pos <= end <= s@.len(),
    ensures
        match r {
            Ok((t, np)) => spec_read_tag(s@, pos as int, end as int) == Ok::<
                ((DerClass, bool, u64), int),
                (ErrorKind, int),
            >((t, np as int)) && pos < np <= end,
            Err(e) => spec_read_tag(s@, pos as int, end as int) == Err::<
                ((DerClass, bool, u64), int),
                (ErrorKind, int),
            >((e.kind, e.offset as int)),
        },
{
    if pos >= end {
        Err(X509Error { kind: ErrorKind::TruncatedInput, offset: pos })
    } else {
        let b = s[pos];
        let cls = class_of(b);
        let cons: bool = (b / 32) % 2 == 1;
        let low: u8 = b % 32;
        if low < 31 {
            Ok(((cls, cons, low as u64), pos + 1))
        } else {
            match read_tagnum(s, pos + 1, end, 0) {
                Ok((t, np)) => Ok(((cls, cons, t), np)),
                Err(e) => Err(e),
            }
        }
    }
}

fn len_bytes(s: &[u8], pos: usize, count: usize, acc: usize, errpos: usize) -> (r: Result<
    (usize, usize),
    X509Error,
>)
    requires
        pos + count <= s@.len(),
    ensures
        match r {
            Ok((v, np)) => spec_len_bytes(
                s@,
                pos as int,
                count as int,
                acc as int,
                errpos as int,
            ) == Ok::<(int, int), (ErrorKind, int)>((v as int, np as int)) && np == pos + count,
            Err(e) => spec_len_bytes(s@, pos as int, count as int, acc as int, errpos as int)
                == Err::<(int, int), (ErrorKind, int)>((e.kind, e.offset as int)),
        },
    decreases count,
{
    if count == 0 {
        Ok((acc, pos))
    } else if acc > LEN_ACC_LIMIT {
        Err(X509Error { kind: ErrorKind::InvalidLength, offset: errpos })
    } else {
        assert(acc * 256 + 255 <= usize::MAX) by (nonlinear_arith)
            requires acc <= (usize::MAX - 255) / 256,
        ;
        let acc2: usize = acc * 256 + s[pos] as usize;
        len_bytes(s, pos + 1, count - 1, acc2, errpos)
    }
}

fn read_len(s: &[u8], pos: usize, end: usize) -> (r: Result<(usize, usize), X509Error>)
    requires
        pos <= end <= s@.len(),
    ensures
        match r {
            Ok((v, np)) => spec_read_len(s@, pos as int, end as int) == Ok::<
                (int, int),
                (ErrorKind, int),
            >((v as int, np as int)) && pos < np <= end,
            Err(e) => spec_read_len(s@, pos as int, end as int) == Err::<
                (int, int),
                (ErrorKind, int),
            >((e.kind, e.offset as int)),
        },
{
    if pos >= end {
        Err(X509Error { kind: ErrorKind::TruncatedInput, offset: pos })
    } else {
        let b = s[pos];
        if b < 128 {
            Ok((b as usize, pos + 1))
        } else {
            let count: usize = (b - 128) as usize;
            if count == 0 {
                Err(X509Error { kind: ErrorKind::InvalidLength, offset: pos })
            } else if count > end - (pos + 1) {
                Err(X509Error { kind: ErrorKind::TruncatedInput, offset: pos })
            } else if s[pos + 1] == 0 {
                Err(X509Error { kind: ErrorKind::InvalidLength, offset: pos })
            } else if count == 1 && s[pos + 1] < 128 {
                Err(X509Error { kind: ErrorKind::InvalidLength, offset: pos })
            } else {
                len_bytes(s, pos + 1, count, 0, pos)
            }
        }
    }
}

/// Reads one element's tag and length.  On success the content occupies
/// `h.cstart .. h.cstart + h.len`, which lies inside `pos .. end`, and the
/// returned position is the end of the whole element.
pub(crate) fn read_header(s: &[u8], pos: usize, end: usize) -> (r: Result<
    (Header, usize),
    X509Error,
>)
    requires
        pos <= end <= s@.len(),
    ensures
        match r {
            Ok((h, cend)) => spec_read_header(s@, pos as int, end as int) == Ok::<
                ((DerClass, bool, u64, int, int), int),
                (ErrorKind, int),
            >((h.spec(), cend as int)) && pos + 2 <= h.cstart && h.cstart + h.len == cend
                && cend <= end,
            Err(e) => spec_read_header(s@, pos as int, end as int) == Err::<
                ((DerClass, bool, u64, int, int), int),
                (ErrorKind, int),
            >((e.kind, e.offset as int)),
        },
{
    match read_tag(s, pos, end) {
        Err(e) => Err(e),
        Ok(((cls, cons, tag), p1)) => match read_len(s, p1, end) {
            Err(e) => Err(e),
            Ok((len, cstart)) => {
                if len > end - cstart {
                    Err(X509Error { kind: ErrorKind::TruncatedInput, offset: cstart })
                } else {
                    Ok((Header { class: cls, constructed: cons, tag, len, cstart }, cstart + len))
                }
            },
        },
    }
}

} // verus!
