//! The X.509 certificate grammar: composite combinators (SEQUENCE, SET OF,
//! OPTIONAL, CHOICE, IMPLICIT/EXPLICIT tagging) assembled into the full
//! `Certificate` schema.
//!
//! A CHOICE or an OPTIONAL recovers only from a tag mismatch reported at the
//! position it started from; truncation and malformed content always
//! propagate.  An OPTIONAL whose position already sits at the end of the
//! enclosing content region is absent without reading anything.

use vstd::prelude::*;
use crate::obj::{
    DerClass, DerContent, DerObject, ErrorKind, SpecContent, SpecDer, StrKind, X509Error,
    lemma_view_list_props, spec_absent, view_list, view_obj, MAX_DEPTH,
};
use crate::tlv::{spec_read_header, read_header};
use crate::content::{
    obj_matches, spec_parse_bool, parse_bool, spec_parse_integer, parse_integer, spec_parse_oid,
    parse_oid, spec_parse_bitstring, parse_bitstring, spec_parse_octetstring, parse_octetstring,
    spec_parse_charstr, parse_charstr, spec_parse_time, parse_time, spec_parse_implicit_bits,
    parse_implicit_bits,
};
use crate::any::{spec_parse_any, parse_any};

verus! {

/// A failure an OPTIONAL or a CHOICE may recover from: a tag or class
/// mismatch reported at the very position the attempt started from.
pub open spec fn spec_recoverable(k: ErrorKind, off: int, pos: int) -> bool {
    k == ErrorKind::UnexpectedTag && off == pos
}

// ------------------------------------------------------------- CHOICE

/// DirectoryString: the first of UTF8String, PrintableString, IA5String,
/// T61String, BMPString that accepts the element; the error of the last
/// alternative is reported when every alternative mismatches.
pub open spec fn spec_parse_dirstring(s: Seq<u8>, pos: int, end: int) -> Result<
    (SpecDer, int),
    (ErrorKind, int),
> {
    match spec_parse_charstr(s, pos, end, StrKind::Utf8) {
        Ok(r) => Ok(r),
        Err((k1, o1)) => if !spec_recoverable(k1, o1, pos) {
            Err((k1, o1))
        } else {
            match spec_parse_charstr(s, pos, end, StrKind::Printable) {
                Ok(r) => Ok(r),
                Err((k2, o2)) => if !spec_recoverable(k2, o2, pos) {
                    Err((k2, o2))
                } else {
                    match spec_parse_charstr(s, pos, end, StrKind::Ia5) {
                        Ok(r) => Ok(r),
                        Err((k3, o3)) => if !spec_recoverable(k3, o3, pos) {
                            Err((k3, o3))
                        } else {
                            match spec_parse_charstr(s, pos, end, StrKind::T61) {
                                Ok(r) => Ok(r),
                                Err((k4, o4)) => if !spec_recoverable(k4, o4, pos) {
                                    Err((k4, o4))
                                } else {
                                    spec_parse_charstr(s, pos, end, StrKind::Bmp)
                                },
                            }
                        },
                    }
                },
            }
        },
    }
}

fn parse_dirstring(s: &[u8], pos: usize, end: usize) -> (r: Result<(DerObject, usize), X509Error>)
    requires
        pos <= end <= s@.len(),
    ensures
        obj_matches(r, spec_parse_dirstring(s@, pos as int, end as int)),
        r matches Ok((o, np)) ==> pos < np <= end,
{
    match parse_charstr(s, pos, end, StrKind::Utf8) {
        Ok(r) => Ok(r),
        Err(e1) => if !(matches!(e1.kind, ErrorKind::UnexpectedTag) && e1.offset == pos) {
            Err(e1)
        } else {
            match parse_charstr(s, pos, end, StrKind::Printable) {
                Ok(r) => Ok(r),
                Err(e2) => if !(matches!(e2.kind, ErrorKind::UnexpectedTag) && e2.offset == pos) {
                    Err(e2)
                } else {
                    match parse_charstr(s, pos, end, StrKind::Ia5) {
                        Ok(r) => Ok(r),
                        Err(e3) => if !(matches!(e3.kind, ErrorKind::UnexpectedTag) && e3.offset
                            == pos) {
                            Err(e3)
                        } else {
                            match parse_charstr(s, pos, end, StrKind::T61) {
                                Ok(r) => Ok(r),
                                Err(e4) => if !(matches!(e4.kind, ErrorKind::UnexpectedTag)
                                    && e4.offset == pos) {
                                    Err(e4)
                                } else {
                                    parse_charstr(s, pos, end, StrKind::Bmp)
                                },
                            }
                        },
                    }
                },
            }
        },
    }
}

/// Time: UTCTime, else GeneralizedTime.
pub open spec fn spec_parse_time_choice(s: Seq<u8>, pos: int, end: int) -> Result<
    (SpecDer, int),
    (ErrorKind, int),
> {
    match spec_parse_time(s, pos, end, false) {
        Ok(r) => Ok(r),
        Err((k1, o1)) => if !spec_recoverable(k1, o1, pos) {
            Err((k1, o1))
        } else {
            spec_parse_time(s, pos, end, true)
        },
    }
}

fn parse_time_choice(s: &[u8], pos: usize, end: usize) -> (r: Result<(DerObject, usize), X509Error>)
    requires
        pos <= end <= s@.len(),
    ensures
        obj_matches(r, spec_parse_time_choice(s@, pos as int, end as int)),
        r matches Ok((o, np)) ==> pos < np <= end,
{
    match parse_time(s, pos, end, false) {
        Ok(r) => Ok(r),
        Err(e1) => if !(matches!(e1.kind, ErrorKind::UnexpectedTag) && e1.offset == pos) {
            Err(e1)
        } else {
            parse_time(s, pos, end, true)
        },
    }
}

// ------------------------------------------------------------- OPTIONAL

/// OPTIONAL BOOLEAN: absent at the region end or on a tag mismatch in place.
pub open spec fn spec_opt_bool(s: Seq<u8>, pos: int, end: int) -> Result<
    (SpecDer, int),
    (ErrorKind, int),
> {
    if pos == end {
        Ok((spec_absent(), pos))
    } else {
        match spec_parse_bool(s, pos, end) {
            Ok(r) => Ok(r),
            Err((k, off)) => if spec_recoverable(k, off, pos) {
                Ok((spec_absent(), pos))
            } else {
                Err((k, off))
            },
        }
    }
}

fn parse_opt_bool(s: &[u8], pos: usize, end: usize) -> (r: Result<(DerObject, usize), X509Error>)
    requires
        pos <= end <= s@.len(),
    ensures
        obj_matches(r, spec_opt_bool(s@, pos as int, end as int)),
        r matches Ok((o, np)) ==> pos <= np <= end,
{
    if pos == end {
        Ok((DerObject::absent(), pos))
    } else {
        match parse_bool(s, pos, end) {
            Ok(r) => Ok(r),
            Err(e) => if matches!(e.kind, ErrorKind::UnexpectedTag) && e.offset == pos {
                Ok((DerObject::absent(), pos))
            } else {
                Err(e)
            },
        }
    }
}

/// OPTIONAL ANY: absent only at the region end or on a tag mismatch in place.
pub open spec fn spec_opt_any(s: Seq<u8>, pos: int, end: int, depth: int) -> Result<
    (SpecDer, int),
    (ErrorKind, int),
> {
    if pos == end {
        Ok((spec_absent(), pos))
    } else {
        match spec_parse_any(s, pos, end, depth) {
            Ok(r) => Ok(r),
            Err((k, off)) => if spec_recoverable(k, off, pos) {
                Ok((spec_absent(), pos))
            } else {
                Err((k, off))
            },
        }
    }
}

fn parse_opt_any(s: &[u8], pos: usize, end: usize, depth: usize) -> (r: Result<
    (DerObject, usize),
    X509Error,
>)
    requires
        pos <= end <= s@.len(),
    ensures
        obj_matches(r, spec_opt_any(s@, pos as int, end as int, depth as int)),
        r matches Ok((o, np)) ==> pos <= np <= end,
{
    if pos == end {
        Ok((DerObject::absent(), pos))
    } else {
        match parse_any(s, pos, end, depth) {
            Ok(r) => Ok(r),
            Err(e) => if matches!(e.kind, ErrorKind::UnexpectedTag) && e.offset == pos {
                Ok((DerObject::absent(), pos))
            } else {
                Err(e)
            },
        }
    }
}

/// OPTIONAL IMPLICIT-tagged BIT STRING.
pub open spec fn spec_opt_implicit_bits(s: Seq<u8>, pos: int, end: int, ctx: u64) -> Result<
    (SpecDer, int),
    (ErrorKind, int),
> {
    if pos == end {
        Ok((spec_absent(), pos))
    } else {
        match spec_parse_implicit_bits(s, pos, end, ctx) {
            Ok(r) => Ok(r),
            Err((k, off)) => if spec_recoverable(k, off, pos) {
                Ok((spec_absent(), pos))
            } else {
                Err((k, off))
            },
        }
    }
}

fn parse_opt_implicit_bits(s: &[u8], pos: usize, end: usize, ctx: u64) -> (r: Result<
    (DerObject, usize),
    X509Error,
>)
    requires
        pos <= end <= s@.len(),
    ensures
        obj_matches(r, spec_opt_implicit_bits(s@, pos as int, end as int, ctx)),
        r matches Ok((o, np)) ==> pos <= np <= end,
{
    if pos == end {
        Ok((DerObject::absent(), pos))
    } else {
        match parse_implicit_bits(s, pos, end, ctx) {
            Ok(r) => Ok(r),
            Err(e) => if matches!(e.kind, ErrorKind::UnexpectedTag) && e.offset == pos {
                Ok((DerObject::absent(), pos))
            } else {
                Err(e)
            },
        }
    }
}

// --------------------------------------------- AttributeTypeAndValue, Name

/// AttributeTypeAndValue: SEQUENCE { OID, DirectoryString }.
pub open spec fn spec_parse_attr(s: Seq<u8>, pos: int, end: int, depth: int) -> Result<
    (SpecDer, int),
    (ErrorKind, int),
> {
    match spec_read_header(s, pos, end) {
        Err(e) => Err(e),
        Ok(((cls, cons, tag, len, cstart), cend)) => {
            if !(cls == DerClass::Universal && cons && tag == 16) {
                Err((ErrorKind::UnexpectedTag, pos))
            } else if depth <= 0 {
                Err((ErrorKind::DepthExceeded, pos))
            } else {
                match spec_parse_oid(s, cstart, cend) {
                    Err(e) => Err(e),
                    Ok((o1, p1)) => match spec_parse_dirstring(s, p1, cend) {
                        Err(e) => Err(e),
                        Ok((o2, p2)) => if p2 != cend {
                            Err((ErrorKind::TrailingData, p2))
                        } else {
                            Ok(
                                (
                                    SpecDer {
                                        class: cls,
                                        constructed: true,
                                        tag,
                                        length: len as nat,
                                        content: SpecContent::Constructed(seq![o1, o2]),
                                    },
                                    cend,
                                ),
                            )
                        },
                    },
                }
            }
        },
    }
}

fn parse_attr(s: &[u8], pos: usize, end: usize, depth: usize) -> (r: Result<
    (DerObject, usize),
    X509Error,
>)
    requires
        pos <= end <= s@.len(),
    ensures
        obj_matches(r, spec_parse_attr(s@, pos as int, end as int, depth as int)),
        r matches Ok((o, np)) ==> pos < np <= end,
{
    let (h, cend) = match read_header(s, pos, end) {
        Ok(x) => x,
        Err(e) => return Err(e),
    };
    if !(matches!(h.class, DerClass::Universal) && h.constructed && h.tag == 16) {
        return Err(X509Error { kind: ErrorKind::UnexpectedTag, offset: pos });
    }
    if depth == 0 {
        return Err(X509Error { kind: ErrorKind::DepthExceeded, offset: pos });
    }
    let (o1, p1) = match parse_oid(s, h.cstart, cend) {
        Ok(x) => x,
        Err(e) => return Err(e),
    };
    let (o2, p2) = match parse_dirstring(s, p1, cend) {
        Ok(x) => x,
        Err(e) => return Err(e),
    };
    if p2 != cend {
        return Err(X509Error { kind: ErrorKind::TrailingData, offset: p2 });
    }
    let mut cv: Vec<DerObject> = Vec::new();
    cv.push(o1);
    cv.push(o2);
    proof {
        assert(cv@ =~= seq![o1, o2]);
        lemma_view_list_props(cv@);
        assert(view_list(cv@) =~= seq![view_obj(o1), view_obj(o2)]);
    }
    Ok(
        (
            DerObject {
                class: h.class,
                constructed: true,
                tag: h.tag,
                length: h.len,
                content: DerContent::Constructed(cv),
            },
            cend,
        ),
    )
}

/// SET OF / SEQUENCE OF repetition body: elements until the window is
/// exhausted; a partial final element (a truncation) is trailing data.
pub open spec fn spec_parse_attr_list(s: Seq<u8>, pos: int, end: int, depth: int) -> Result<
    (Seq<SpecDer>, int),
    (ErrorKind, int),
>
    decreases (if pos <= end { end - pos + 1 } else { 0 }),
{
    if pos >= end {
        Ok((Seq::empty(), pos))
    } else {
        match spec_parse_attr(s, pos, end, depth) {
            Err((k, off)) => if k == ErrorKind::TruncatedInput {
                Err((ErrorKind::TrailingData, off))
            } else {
                Err((k, off))
            },
            Ok((o, np)) => if !(pos < np <= end) {
                Err((ErrorKind::TruncatedInput, pos))
            } else {
                match spec_parse_attr_list(s, np, end, depth) {
                    Err(e) => Err(e),
                    Ok((rest, np2)) => Ok((seq![o] + rest, np2)),
                }
            },
        }
    }
}

fn parse_attr_list(s: &[u8], pos: usize, end: usize, depth: usize) -> (r: Result<
    (Vec<DerObject>, usize),
    X509Error,
>)
    requires
        pos <= end <= s@.len(),
    ensures
        match r {
            Ok((v, np)) => spec_parse_attr_list(s@, pos as int, end as int, depth as int) == Ok::<
                (Seq<SpecDer>, int),
                (ErrorKind, int),
            >((view_list(v@), np as int)) && pos <= np <= end,
            Err(e) => spec_parse_attr_list(s@, pos as int, end as int, depth as int) == Err::<
                (Seq<SpecDer>, int),
                (ErrorKind, int),
            >((e.kind, e.offset as int)),
        },
    decreases end - pos,
{
    if pos >= end {
        let v: Vec<DerObject> = Vec::new();
        proof {
            assert(view_list(v@) =~= Seq::<SpecDer>::empty());
        }
        Ok((v, pos))
    } else {
        match parse_attr(s, pos, end, depth) {
            Err(e) => if matches!(e.kind, ErrorKind::TruncatedInput) {
                Err(X509Error { kind: ErrorKind::TrailingData, offset: e.offset })
            } else {
                Err(e)
            },
            Ok((o, np)) => {
                match parse_attr_list(s, np, end, depth) {
                    Err(e) => Err(e),
                    Ok((rest, np2)) => {
                        let ghost r0 = rest@;
                        let mut v = rest;
                        v.insert(0, o);
                        proof {
                            assert(v@[0] == o);
                            assert(v@.subrange(1, v@.len() as int) =~= r0);
                            assert(view_list(v@) == seq![view_obj(o)] + view_list(r0));
                        }
                        Ok((v, np2))
                    },
                }
            },
        }
    }
}

/// RelativeDistinguishedName: SET OF AttributeTypeAndValue.
pub open spec fn spec_parse_rdn(s: Seq<u8>, pos: int, end: int, depth: int) -> Result<
    (SpecDer, int),
    (ErrorKind, int),
> {
    match spec_read_header(s, pos, end) {
        Err(e) => Err(e),
        Ok(((cls, cons, tag, len, cstart), cend)) => {
            if !(cls == DerClass::Universal && cons && tag == 17) {
                Err((ErrorKind::UnexpectedTag, pos))
            } else if depth <= 0 {
                Err((ErrorKind::DepthExceeded, pos))
            } else {
                match spec_parse_attr_list(s, cstart, cend, depth - 1) {
                    Err(e) => Err(e),
                    Ok((children, _np)) => Ok(
                        (
                            SpecDer {
                                class: cls,
                                constructed: true,
                                tag,
                                length: len as nat,
                                content: SpecContent::Constructed(children),
                            },
                            cend,
                        ),
                    ),
                }
            }
        },
    }
}

fn parse_rdn(s: &[u8], pos: usize, end: usize, depth: usize) -> (r: Result<
    (DerObject, usize),
    X509Error,
>)
    requires
        pos <= end <= s@.len(),
    ensures
        obj_matches(r, spec_parse_rdn(s@, pos as int, end as int, depth as int)),
        r matches Ok((o, np)) ==> pos < np <= end,
{
    let (h, cend) = match read_header(s, pos, end) {
        Ok(x) => x,
        Err(e) => return Err(e),
    };
    if !(matches!(h.class, DerClass::Universal) && h.constructed && h.tag == 17) {
        return Err(X509Error { kind: ErrorKind::UnexpectedTag, offset: pos });
    }
    if depth == 0 {
        return Err(X509Error { kind: ErrorKind::DepthExceeded, offset: pos });
    }
    match parse_attr_list(s, h.cstart, cend, depth - 1) {
        Err(e) => Err(e),
        Ok((children, _np)) => Ok(
            (
                DerObject {
                    class: h.class,
                    constructed: true,
                    tag: h.tag,
                    length: h.len,
                    content: DerContent::Constructed(children),
                },
                cend,
            ),
        ),
    }
}

/// The repetition body of a Name.
pub open spec fn spec_parse_rdn_list(s: Seq<u8>, pos: int, end: int, depth: int) -> Result<
    (Seq<SpecDer>, int),
    (ErrorKind, int),
>
    decreases (if pos <= end { end - pos + 1 } else { 0 }),
{
    if pos >= end {
        Ok((Seq::empty(), pos))
    } else {
        match spec_parse_rdn(s, pos, end, depth) {
            Err((k, off)) => if k == ErrorKind::TruncatedInput {
                Err((ErrorKind::TrailingData, off))
            } else {
                Err((k, off))
            },
            Ok((o, np)) => if !(pos < np <= end) {
                Err((ErrorKind::TruncatedInput, pos))
            } else {
                match spec_parse_rdn_list(s, np, end, depth) {
                    Err(e) => Err(e),
                    Ok((rest, np2)) => Ok((seq![o] + rest, np2)),
                }
            },
        }
    }
}

fn parse_rdn_list(s: &[u8], pos: usize, end: usize, depth: usize) -> (r: Result<
    (Vec<DerObject>, usize),
    X509Error,
>)
    requires
        pos <= end <= s@.len(),
    ensures
        match r {
            Ok((v, np)) => spec_parse_rdn_list(s@, pos as int, end as int, depth as int) == Ok::<
                (Seq<SpecDer>, int),
                (ErrorKind, int),
            >((view_list(v@), np as int)) && pos <= np <= end,
            Err(e) => spec_parse_rdn_list(s@, pos as int, end as int, depth as int) == Err::<
                (Seq<SpecDer>, int),
                (ErrorKind, int),
            >((e.kind, e.offset as int)),
        },
    decreases end - pos,
{
    if pos >= end {
        let v: Vec<DerObject> = Vec::new();
        proof {
            assert(view_list(v@) =~= Seq::<SpecDer>::empty());
        }
        Ok((v, pos))
    } else {
        match parse_rdn(s, pos, end, depth) {
            Err(e) => if matches!(e.kind, ErrorKind::TruncatedInput) {
                Err(X509Error { kind: ErrorKind::TrailingData, offset: e.offset })
            } else {
                Err(e)
            },
            Ok((o, np)) => {
                match parse_rdn_list(s, np, end, depth) {
                    Err(e) => Err(e),
                    Ok((rest, np2)) => {
                        let ghost r0 = rest@;
                        let mut v = rest;
                        v.insert(0, o);
                        proof {
                            assert(v@[0] == o);
                            assert(v@.subrange(1, v@.len() as int) =~= r0);
                            assert(view_list(v@) == seq![view_obj(o)] + view_list(r0));
                        }
                        Ok((v, np2))
                    },
                }
            },
        }
    }
}

/// Name: SEQUENCE OF RelativeDistinguishedName.
pub open spec fn spec_parse_name(s: Seq<u8>, pos: int, end: int, depth: int) -> Result<
    (SpecDer, int),
    (ErrorKind, int),
> {
    match spec_read_header(s, pos, end) {
        Err(e) => Err(e),
        Ok(((cls, cons, tag, len, cstart), cend)) => {
            if !(cls == DerClass::Universal && cons && tag == 16) {
                Err((ErrorKind::UnexpectedTag, pos))
            } else if depth <= 0 {
                Err((ErrorKind::DepthExceeded, pos))
            } else {
                match spec_parse_rdn_list(s, cstart, cend, depth - 1) {
                    Err(e) => Err(e),
                    Ok((children, _np)) => Ok(
                        (
                            SpecDer {
                                class: cls,
                                constructed: true,
                                tag,
                                length: len as nat,
                                content: SpecContent::Constructed(children),
                            },
                            cend,
                        ),
                    ),
                }
            }
        },
    }
}

fn parse_name(s: &[u8], pos: usize, end: usize, depth: usize) -> (r: Result<
    (DerObject, usize),
    X509Error,
>)
    requires
        pos <= end <= s@.len(),
    ensures
        obj_matches(r, spec_parse_name(s@, pos as int, end as int, depth as int)),
        r matches Ok((o, np)) ==> pos < np <= end,
{
    let (h, cend) = match read_header(s, pos, end) {
        Ok(x) => x,
        Err(e) => return Err(e),
    };
    if !(matches!(h.class, DerClass::Universal) && h.constructed && h.tag == 16) {
        return Err(X509Error { kind: ErrorKind::UnexpectedTag, offset: pos });
    }
    if depth == 0 {
        return Err(X509Error { kind: ErrorKind::DepthExceeded, offset: pos });
    }
    match parse_rdn_list(s, h.cstart, cend, depth - 1) {
        Err(e) => Err(e),
        Ok((children, _np)) => Ok(
            (
                DerObject {
                    class: h.class,
                    constructed: true,
                    tag: h.tag,
                    length: h.len,
                    content: DerContent::Constructed(children),
                },
                cend,
            ),
        ),
    }
}

// ------------------------------------------------ Validity, version, AlgId

/// Validity: SEQUENCE { Time, Time }.
pub open spec fn spec_parse_validity(s: Seq<u8>, pos: int, end: int, depth: int) -> Result<
    (SpecDer, int),
    (ErrorKind, int),
> {
    match spec_read_header(s, pos, end) {
        Err(e) => Err(e),
        Ok(((cls, cons, tag, len, cstart), cend)) => {
            if !(cls == DerClass::Universal && cons && tag == 16) {
                Err((ErrorKind::UnexpectedTag, pos))
            } else if depth <= 0 {
                Err((ErrorKind::DepthExceeded, pos))
            } else {
                match spec_parse_time_choice(s, cstart, cend) {
                    Err(e) => Err(e),
                    Ok((o1, p1)) => match spec_parse_time_choice(s, p1, cend) {
                        Err(e) => Err(e),
                        Ok((o2, p2)) => if p2 != cend {
                            Err((ErrorKind::TrailingData, p2))
                        } else {
                            Ok(
                                (
                                    SpecDer {
                                        class: cls,
                                        constructed: true,
                                        tag,
                                        length: len as nat,
                                        content: SpecContent::Constructed(seq![o1, o2]),
                                    },
                                    cend,
                                ),
                            )
                        },
                    },
                }
            }
        },
    }
}

#[verifier::rlimit(100)]
#[verifier::spinoff_prover]
fn parse_validity(s: &[u8], pos: usize, end: usize, depth: usize) -> (r: Result<
    (DerObject, usize),
    X509Error,
>)
    requires
        pos <= end <= s@.len(),
    ensures
        obj_matches(r, spec_parse_validity(s@, pos as int, end as int, depth as int)),
        r matches Ok((o, np)) ==> pos < np <= end,
{
    let (h, cend) = match read_header(s, pos, end) {
        Ok(x) => x,
        Err(e) => return Err(e),
    };
    if !(matches!(h.class, DerClass::Universal) && h.constructed && h.tag == 16) {
        return Err(X509Error { kind: ErrorKind::UnexpectedTag, offset: pos });
    }
    if depth == 0 {
        return Err(X509Error { kind: ErrorKind::DepthExceeded, offset: pos });
    }
    let (o1, p1) = match parse_time_choice(s, h.cstart, cend) {
        Ok(x) => x,
        Err(e) => return Err(e),
    };
    let (o2, p2) = match parse_time_choice(s, p1, cend) {
        Ok(x) => x,
        Err(e) => return Err(e),
    };
    if p2 != cend {
        return Err(X509Error { kind: ErrorKind::TrailingData, offset: p2 });
    }
    let mut cv: Vec<DerObject> = Vec::new();
    cv.push(o1);
    cv.push(o2);
    proof {
        assert(cv@ =~= seq![o1, o2]);
        lemma_view_list_props(cv@);
        assert(view_list(cv@) =~= seq![view_obj(o1), view_obj(o2)]);
    }
    Ok(
        (
            DerObject {
                class: h.class,
                constructed: true,
                tag: h.tag,
                length: h.len,
                content: DerContent::Constructed(cv),
            },
            cend,
        ),
    )
}

/// version: EXPLICIT [0] wrapping one INTEGER that must fill the content.
pub open spec fn spec_parse_version(s: Seq<u8>, pos: int, end: int, depth: int) -> Result<
    (SpecDer, int),
    (ErrorKind, int),
> {
    match spec_read_header(s, pos, end) {
        Err(e) => Err(e),
        Ok(((cls, cons, tag, len, cstart), cend)) => {
            if !(cls == DerClass::ContextSpecific && cons && tag == 0) {
                Err((ErrorKind::UnexpectedTag, pos))
            } else if depth <= 0 {
                Err((ErrorKind::DepthExceeded, pos))
            } else {
                match spec_parse_integer(s, cstart, cend) {
                    Err(e) => Err(e),
                    Ok((o1, p1)) => if p1 != cend {
                        Err((ErrorKind::TrailingData, p1))
                    } else {
                        Ok(
                            (
                                SpecDer {
                                    class: cls,
                                    constructed: true,
                                    tag,
                                    length: len as nat,
                                    content: SpecContent::Constructed(seq![o1]),
                                },
                                cend,
                            ),
                        )
                    },
                }
            }
        },
    }
}

fn parse_version_at(s: &[u8], pos: usize, end: usize, depth: usize) -> (r: Result<
    (DerObject, usize),
    X509Error,
>)
    requires
        pos <= end <= s@.len(),
    ensures
        obj_matches(r, spec_parse_version(s@, pos as int, end as int, depth as int)),
        r matches Ok((o, np)) ==> pos < np <= end,
{
    let (h, cend) = match read_header(s, pos, end) {
        Ok(x) => x,
        Err(e) => return Err(e),
    };
    if !(matches!(h.class, DerClass::ContextSpecific) && h.constructed && h.tag == 0) {
        return Err(X509Error { kind: ErrorKind::UnexpectedTag, offset: pos });
    }
    if depth == 0 {
        return Err(X509Error { kind: ErrorKind::DepthExceeded, offset: pos });
    }
    let (o1, p1) = match parse_integer(s, h.cstart, cend) {
        Ok(x) => x,
        Err(e) => return Err(e),
    };
    if p1 != cend {
        return Err(X509Error { kind: ErrorKind::TrailingData, offset: p1 });
    }
    let mut cv: Vec<DerObject> = Vec::new();
    cv.push(o1);
    proof {
        assert(cv@ =~= seq![o1]);
        lemma_view_list_props(cv@);
        assert(view_list(cv@) =~= seq![view_obj(o1)]);
    }
    Ok(
        (
            DerObject {
                class: h.class,
                constructed: true,
                tag: h.tag,
                length: h.len,
                content: DerContent::Constructed(cv),
            },
            cend,
        ),
    )
}

/// AlgorithmIdentifier: SEQUENCE { OID, OPTIONAL ANY parameters }.
pub open spec fn spec_parse_alg_id(s: Seq<u8>, pos: int, end: int, depth: int) -> Result<
    (SpecDer, int),
    (ErrorKind, int),
> {
    match spec_read_header(s, pos, end) {
        Err(e) => Err(e),
        Ok(((cls, cons, tag, len, cstart), cend)) => {
            if !(cls == DerClass::Universal && cons && tag == 16) {
                Err((ErrorKind::UnexpectedTag, pos))
            } else if depth <= 0 {
                Err((ErrorKind::DepthExceeded, pos))
            } else {
                match spec_parse_oid(s, cstart, cend) {
                    Err(e) => Err(e),
                    Ok((o1, p1)) => match spec_opt_any(s, p1, cend, depth - 1) {
                        Err(e) => Err(e),
                        Ok((o2, p2)) => if p2 != cend {
                            Err((ErrorKind::TrailingData, p2))
                        } else {
                            Ok(
                                (
                                    SpecDer {
                                        class: cls,
                                        constructed: true,
                                        tag,
                                        length: len as nat,
                                        content: SpecContent::Constructed(seq![o1, o2]),
                                    },
                                    cend,
                                ),
                            )
                        },
                    },
                }
            }
        },
    }
}

fn parse_alg_id(s: &[u8], pos: usize, end: usize, depth: usize) -> (r: Result<
    (DerObject, usize),
    X509Error,
>)
    requires
        pos <= end <= s@.len(),
    ensures
        obj_matches(r, spec_parse_alg_id(s@, pos as int, end as int, depth as int)),
        r matches Ok((o, np)) ==> pos < np <= end,
{
    let (h, cend) = match read_header(s, pos, end) {
        Ok(x) => x,
        Err(e) => return Err(e),
    };
    if !(matches!(h.class, DerClass::Universal) && h.constructed && h.tag == 16) {
        return Err(X509Error { kind: ErrorKind::UnexpectedTag, offset: pos });
    }
    if depth == 0 {
        return Err(X509Error { kind: ErrorKind::DepthExceeded, offset: pos });
    }
    let (o1, p1) = match parse_oid(s, h.cstart, cend) {
        Ok(x) => x,
        Err(e) => return Err(e),
    };
    let (o2, p2) = match parse_opt_any(s, p1, cend, depth - 1) {
        Ok(x) => x,
        Err(e) => return Err(e),
    };
    if p2 != cend {
        return Err(X509Error { kind: ErrorKind::TrailingData, offset: p2 });
    }
    let mut cv: Vec<DerObject> = Vec::new();
    cv.push(o1);
    cv.push(o2);
    proof {
        assert(cv@ =~= seq![o1, o2]);
        lemma_view_list_props(cv@);
        assert(view_list(cv@) =~= seq![view_obj(o1), view_obj(o2)]);
    }
    Ok(
        (
            DerObject {
                class: h.class,
                constructed: true,
                tag: h.tag,
                length: h.len,
                content: DerContent::Constructed(cv),
            },
            cend,
        ),
    )
}

/// SubjectPublicKeyInfo: SEQUENCE { AlgorithmIdentifier, BIT STRING }.
pub open spec fn spec_parse_spki(s: Seq<u8>, pos: int, end: int, depth: int) -> Result<
    (SpecDer, int),
    (ErrorKind, int),
> {
    match spec_read_header(s, pos, end) {
        Err(e) => Err(e),
        Ok(((cls, cons, tag, len, cstart), cend)) => {
            if !(cls == DerClass::Universal && cons && tag == 16) {
                Err((ErrorKind::UnexpectedTag, pos))
            } else if depth <= 0 {
                Err((ErrorKind::DepthExceeded, pos))
            } else {
                match spec_parse_alg_id(s, cstart, cend, depth - 1) {
                    Err(e) => Err(e),
                    Ok((o1, p1)) => match spec_parse_bitstring(s, p1, cend) {
                        Err(e) => Err(e),
                        Ok((o2, p2)) => if p2 != cend {
                            Err((ErrorKind::TrailingData, p2))
                        } else {
                            Ok(
                                (
                                    SpecDer {
                                        class: cls,
                                        constructed: true,
                                        tag,
                                        length: len as nat,
                                        content: SpecContent::Constructed(seq![o1, o2]),
                                    },
                                    cend,
                                ),
                            )
                        },
                    },
                }
            }
        },
    }
}

fn parse_spki(s: &[u8], pos: usize, end: usize, depth: usize) -> (r: Result<
    (DerObject, usize),
    X509Error,
>)
    requires
        pos <= end <= s@.len(),
    ensures
        obj_matches(r, spec_parse_spki(s@, pos as int, end as int, depth as int)),
        r matches Ok((o, np)) ==> pos < np <= end,
{
    let (h, cend) = match read_header(s, pos, end) {
        Ok(x) => x,
        Err(e) => return Err(e),
    };
    if !(matches!(h.class, DerClass::Universal) && h.constructed && h.tag == 16) {
        return Err(X509Error { kind: ErrorKind::UnexpectedTag, offset: pos });
    }
    if depth == 0 {
        return Err(X509Error { kind: ErrorKind::DepthExceeded, offset: pos });
    }
    let (o1, p1) = match parse_alg_id(s, h.cstart, cend, depth - 1) {
        Ok(x) => x,
        Err(e) => return Err(e),
    };
    let (o2, p2) = match parse_bitstring(s, p1, cend) {
        Ok(x) => x,
        Err(e) => return Err(e),
    };
    if p2 != cend {
        return Err(X509Error { kind: ErrorKind::TrailingData, offset: p2 });
    }
    let mut cv: Vec<DerObject> = Vec::new();
    cv.push(o1);
    cv.push(o2);
    proof {
        assert(cv@ =~= seq![o1, o2]);
        lemma_view_list_props(cv@);
        assert(view_list(cv@) =~= seq![view_obj(o1), view_obj(o2)]);
    }
    Ok(
        (
            DerObject {
                class: h.class,
                constructed: true,
                tag: h.tag,
                length: h.len,
                content: DerContent::Constructed(cv),
            },
            cend,
        ),
    )
}

// ------------------------------------------------------------- Extensions

/// Extension: SEQUENCE { OID, OPTIONAL BOOLEAN critical, OCTET STRING }.
pub open spec fn spec_parse_extension(s: Seq<u8>, pos: int, end: int, depth: int) -> Result<
    (SpecDer, int),
    (ErrorKind, int),
> {
    match spec_read_header(s, pos, end) {
        Err(e) => Err(e),
        Ok(((cls, cons, tag, len, cstart), cend)) => {
            if !(cls == DerClass::Universal && cons && tag == 16) {
                Err((ErrorKind::UnexpectedTag, pos))
            } else if depth <= 0 {
                Err((ErrorKind::DepthExceeded, pos))
            } else {
                match spec_parse_oid(s, cstart, cend) {
                    Err(e) => Err(e),
                    Ok((o1, p1)) => match spec_opt_bool(s, p1, cend) {
                        Err(e) => Err(e),
                        Ok((o2, p2)) => match spec_parse_octetstring(s, p2, cend) {
                            Err(e) => Err(e),
                            Ok((o3, p3)) => if p3 != cend {
                                Err((ErrorKind::TrailingData, p3))
                            } else {
                                Ok(
                                    (
                                        SpecDer {
                                            class: cls,
                                            constructed: true,
                                            tag,
                                            length: len as nat,
                                            content: SpecContent::Constructed(seq![o1, o2, o3]),
                                        },
                                        cend,
                                    ),
                                )
                            },
                        },
                    },
                }
            }
        },
    }
}

fn parse_extension(s: &[u8], pos: usize, end: usize, depth: usize) -> (r: Result<
    (DerObject, usize),
    X509Error,
>)
    requires
        pos <= end <= s@.len(),
    ensures
        obj_matches(r, spec_parse_extension(s@, pos as int, end as int, depth as int)),
        r matches Ok((o, np)) ==> pos < np <= end,
{
    let (h, cend) = match read_header(s, pos, end) {
        Ok(x) => x,
        Err(e) => return Err(e),
    };
    if !(matches!(h.class, DerClass::Universal) && h.constructed && h.tag == 16) {
        return Err(X509Error { kind: ErrorKind::UnexpectedTag, offset: pos });
    }
    if depth == 0 {
        return Err(X509Error { kind: ErrorKind::DepthExceeded, offset: pos });
    }
    let (o1, p1) = match parse_oid(s, h.cstart, cend) {
        Ok(x) => x,
        Err(e) => return Err(e),
    };
    let (o2, p2) = match parse_opt_bool(s, p1, cend) {
        Ok(x) => x,
        Err(e) => return Err(e),
    };
    let (o3, p3) = match parse_octetstring(s, p2, cend) {
        Ok(x) => x,
        Err(e) => return Err(e),
    };
    if p3 != cend {
        return Err(X509Error { kind: ErrorKind::TrailingData, offset: p3 });
    }
    let mut cv: Vec<DerObject> = Vec::new();
    cv.push(o1);
    cv.push(o2);
    cv.push(o3);
    proof {
        assert(cv@ =~= seq![o1, o2, o3]);
        lemma_view_list_props(cv@);
        assert(view_list(cv@) =~= seq![view_obj(o1), view_obj(o2), view_obj(o3)]);
    }
    Ok(
        (
            DerObject {
                class: h.class,
                constructed: true,
                tag: h.tag,
                length: h.len,
                content: DerContent::Constructed(cv),
            },
            cend,
        ),
    )
}

/// The repetition body of the extension list.
pub open spec fn spec_parse_ext_list(s: Seq<u8>, pos: int, end: int, depth: int) -> Result<
    (Seq<SpecDer>, int),
    (ErrorKind, int),
>
    decreases (if pos <= end { end - pos + 1 } else { 0 }),
{
    if pos >= end {
        Ok((Seq::empty(), pos))
    } else {
        match spec_parse_extension(s, pos, end, depth) {
            Err((k, off)) => if k == ErrorKind::TruncatedInput {
                Err((ErrorKind::TrailingData, off))
            } else {
                Err((k, off))
            },
            Ok((o, np)) => if !(pos < np <= end) {
                Err((ErrorKind::TruncatedInput, pos))
            } else {
                match spec_parse_ext_list(s, np, end, depth) {
                    Err(e) => Err(e),
                    Ok((rest, np2)) => Ok((seq![o] + rest, np2)),
                }
            },
        }
    }
}

fn parse_ext_list(s: &[u8], pos: usize, end: usize, depth: usize) -> (r: Result<
    (Vec<DerObject>, usize),
    X509Error,
>)
    requires
        pos <= end <= s@.len(),
    ensures
        match r {
            Ok((v, np)) => spec_parse_ext_list(s@, pos as int, end as int, depth as int) == Ok::<
                (Seq<SpecDer>, int),
                (ErrorKind, int),
            >((view_list(v@), np as int)) && pos <= np <= end,
            Err(e) => spec_parse_ext_list(s@, pos as int, end as int, depth as int) == Err::<
                (Seq<SpecDer>, int),
                (ErrorKind, int),
            >((e.kind, e.offset as int)),
        },
    decreases end - pos,
{
    if pos >= end {
        let v: Vec<DerObject> = Vec::new();
        proof {
            assert(view_list(v@) =~= Seq::<SpecDer>::empty());
        }
        Ok((v, pos))
    } else {
        match parse_extension(s, pos, end, depth) {
            Err(e) => if matches!(e.kind, ErrorKind::TruncatedInput) {
                Err(X509Error { kind: ErrorKind::TrailingData, offset: e.offset })
            } else {
                Err(e)
            },
            Ok((o, np)) => {
                match parse_ext_list(s, np, end, depth) {
                    Err(e) => Err(e),
                    Ok((rest, np2)) => {
                        let ghost r0 = rest@;
                        let mut v = rest;
                        v.insert(0, o);
                        proof {
                            assert(v@[0] == o);
                            assert(v@.subrange(1, v@.len() as int) =~= r0);
                            assert(view_list(v@) == seq![view_obj(o)] + view_list(r0));
                        }
                        Ok((v, np2))
                    },
                }
            },
        }
    }
}

/// SEQUENCE OF Extension.
pub open spec fn spec_parse_ext_seq(s: Seq<u8>, pos: int, end: int, depth: int) -> Result<
    (SpecDer, int),
    (ErrorKind, int),
> {
    match spec_read_header(s, pos, end) {
        Err(e) => Err(e),
        Ok(((cls, cons, tag, len, cstart), cend)) => {
            if !(cls == DerClass::Universal && cons && tag == 16) {
                Err((ErrorKind::UnexpectedTag, pos))
            } else if depth <= 0 {
                Err((ErrorKind::DepthExceeded, pos))
            } else {
                match spec_parse_ext_list(s, cstart, cend, depth - 1) {
                    Err(e) => Err(e),
                    Ok((children, _np)) => Ok(
                        (
                            SpecDer {
                                class: cls,
                                constructed: true,
                                tag,
                                length: len as nat,
                                content: SpecContent::Constructed(children),
                            },
                            cend,
                        ),
                    ),
                }
            }
        },
    }
}

fn parse_ext_seq(s: &[u8], pos: usize, end: usize, depth: usize) -> (r: Result<
    (DerObject, usize),
    X509Error,
>)
    requires
        pos <= end <= s@.len(),
    ensures
        obj_matches(r, spec_parse_ext_seq(s@, pos as int, end as int, depth as int)),
        r matches Ok((o, np)) ==> pos < np <= end,
{
    let (h, cend) = match read_header(s, pos, end) {
        Ok(x) => x,
        Err(e) => return Err(e),
    };
    if !(matches!(h.class, DerClass::Universal) && h.constructed && h.tag == 16) {
        return Err(X509Error { kind: ErrorKind::UnexpectedTag, offset: pos });
    }
    if depth == 0 {
        return Err(X509Error { kind: ErrorKind::DepthExceeded, offset: pos });
    }
    match parse_ext_list(s, h.cstart, cend, depth - 1) {
        Err(e) => Err(e),
        Ok((children, _np)) => Ok(
            (
                DerObject {
                    class: h.class,
                    constructed: true,
                    tag: h.tag,
                    length: h.len,
                    content: DerContent::Constructed(children),
                },
                cend,
            ),
        ),
    }
}

/// Extensions: EXPLICIT [3] wrapping one SEQUENCE OF Extension that must
/// fill the content.
pub open spec fn spec_parse_extensions(s: Seq<u8>, pos: int, end: int, depth: int) -> Result<
    (SpecDer, int),
    (ErrorKind, int),
> {
    match spec_read_header(s, pos, end) {
        Err(e) => Err(e),
        Ok(((cls, cons, tag, len, cstart), cend)) => {
            if !(cls == DerClass::ContextSpecific && cons && tag == 3) {
                Err((ErrorKind::UnexpectedTag, pos))
            } else if depth <= 0 {
                Err((ErrorKind::DepthExceeded, pos))
            } else {
                match spec_parse_ext_seq(s, cstart, cend, depth - 1) {
                    Err(e) => Err(e),
                    Ok((o1, p1)) => if p1 != cend {
                        Err((ErrorKind::TrailingData, p1))
                    } else {
                        Ok(
                            (
                                SpecDer {
                                    class: cls,
                                    constructed: true,
                                    tag,
                                    length: len as nat,
                                    content: SpecContent::Constructed(seq![o1]),
                                },
                                cend,
                            ),
                        )
                    },
                }
            }
        },
    }
}

fn parse_extensions(s: &[u8], pos: usize, end: usize, depth: usize) -> (r: Result<
    (DerObject, usize),
    X509Error,
>)
    requires
        pos <= end <= s@.len(),
    ensures
        obj_matches(r, spec_parse_extensions(s@, pos as int, end as int, depth as int)),
        r matches Ok((o, np)) ==> pos < np <= end,
{
    let (h, cend) = match read_header(s, pos, end) {
        Ok(x) => x,
        Err(e) => return Err(e),
    };
    if !(matches!(h.class, DerClass::ContextSpecific) && h.constructed && h.tag == 3) {
        return Err(X509Error { kind: ErrorKind::UnexpectedTag, offset: pos });
    }
    if depth == 0 {
        return Err(X509Error { kind: ErrorKind::DepthExceeded, offset: pos });
    }
    let (o1, p1) = match parse_ext_seq(s, h.cstart, cend, depth - 1) {
        Ok(x) => x,
        Err(e) => return Err(e),
    };
    if p1 != cend {
        return Err(X509Error { kind: ErrorKind::TrailingData, offset: p1 });
    }
    let mut cv: Vec<DerObject> = Vec::new();
    cv.push(o1);
    proof {
        assert(cv@ =~= seq![o1]);
        lemma_view_list_props(cv@);
        assert(view_list(cv@) =~= seq![view_obj(o1)]);
    }
    Ok(
        (
            DerObject {
                class: h.class,
                constructed: true,
                tag: h.tag,
                length: h.len,
                content: DerContent::Constructed(cv),
            },
            cend,
        ),
    )
}

/// OPTIONAL Extensions.
pub open spec fn spec_opt_extensions(s: Seq<u8>, pos: int, end: int, depth: int) -> Result<
    (SpecDer, int),
    (ErrorKind, int),
> {
    if pos == end {
        Ok((spec_absent(), pos))
    } else {
        match spec_parse_extensions(s, pos, end, depth) {
            Ok(r) => Ok(r),
            Err((k, off)) => if spec_recoverable(k, off, pos) {
                Ok((spec_absent(), pos))
            } else {
                Err((k, off))
            },
        }
    }
}

fn parse_opt_extensions(s: &[u8], pos: usize, end: usize, depth: usize) -> (r: Result<
    (DerObject, usize),
    X509Error,
>)
    requires
        pos <= end <= s@.len(),
    ensures
        obj_matches(r, spec_opt_extensions(s@, pos as int, end as int, depth as int)),
        r matches Ok((o, np)) ==> pos <= np <= end,
{
    if pos == end {
        Ok((DerObject::absent(), pos))
    } else {
        match parse_extensions(s, pos, end, depth) {
            Ok(r) => Ok(r),
            Err(e) => if matches!(e.kind, ErrorKind::UnexpectedTag) && e.offset == pos {
                Ok((DerObject::absent(), pos))
            } else {
                Err(e)
            },
        }
    }
}

// -------------------------------------------------- TBSCertificate

/// The first five TBSCertificate fields: version, serialNumber,
/// AlgorithmIdentifier, issuer Name, Validity.
#[verifier::opaque]
pub open spec fn spec_parse_tbs_front(s: Seq<u8>, pos: int, end: int, depth: int) -> Result<
    ((SpecDer, SpecDer, SpecDer, SpecDer, SpecDer), int),
    (ErrorKind, int),
> {
    match spec_parse_version(s, pos, end, depth) {
        Err(e) => Err(e),
        Ok((o1, p1)) => match spec_parse_integer(s, p1, end) {
            Err(e) => Err(e),
            Ok((o2, p2)) => match spec_parse_alg_id(s, p2, end, depth) {
                Err(e) => Err(e),
                Ok((o3, p3)) => match spec_parse_name(s, p3, end, depth) {
                    Err(e) => Err(e),
                    Ok((o4, p4)) => match spec_parse_validity(s, p4, end, depth) {
                        Err(e) => Err(e),
                        Ok((o5, p5)) => Ok(((o1, o2, o3, o4, o5), p5)),
                    },
                },
            },
        },
    }
}

/// The last five TBSCertificate fields: subject Name,
/// SubjectPublicKeyInfo, the two IMPLICIT-tagged unique identifiers and the
/// Extensions, the last three optional.
#[verifier::opaque]
pub open spec fn spec_parse_tbs_back(s: Seq<u8>, pos: int, end: int, depth: int) -> Result<
    ((SpecDer, SpecDer, SpecDer, SpecDer, SpecDer), int),
    (ErrorKind, int),
> {
    match spec_parse_name(s, pos, end, depth) {
        Err(e) => Err(e),
        Ok((o6, p6)) => match spec_parse_spki(s, p6, end, depth) {
            Err(e) => Err(e),
            Ok((o7, p7)) => match spec_opt_implicit_bits(s, p7, end, 1) {
                Err(e) => Err(e),
                Ok((o8, p8)) => match spec_opt_implicit_bits(s, p8, end, 2) {
                    Err(e) => Err(e),
                    Ok((o9, p9)) => match spec_opt_extensions(s, p9, end, depth) {
                        Err(e) => Err(e),
                        Ok((o10, p10)) => Ok(((o6, o7, o8, o9, o10), p10)),
                    },
                },
            },
        },
    }
}

/// TBSCertificate: the signed portion of the certificate, ten fields in
/// declared order, the last three optional.
pub open spec fn spec_parse_tbs(s: Seq<u8>, pos: int, end: int, depth: int) -> Result<
    (SpecDer, int),
    (ErrorKind, int),
> {
    match spec_read_header(s, pos, end) {
        Err(e) => Err(e),
        Ok(((cls, cons, tag, len, cstart), cend)) => {
            if !(cls == DerClass::Universal && cons && tag == 16) {
                Err((ErrorKind::UnexpectedTag, pos))
            } else if depth <= 0 {
                Err((ErrorKind::DepthExceeded, pos))
            } else {
                match spec_parse_tbs_front(s, cstart, cend, depth - 1) {
                    Err(e) => Err(e),
                    Ok(((o1, o2, o3, o4, o5), p5)) => match spec_parse_tbs_back(
                        s,
                        p5,
                        cend,
                        depth - 1,
                    ) {
                        Err(e) => Err(e),
                        Ok(((o6, o7, o8, o9, o10), p10)) => if p10 != cend {
                            Err((ErrorKind::TrailingData, p10))
                        } else {
                            Ok(
                                (
                                    SpecDer {
                                        class: cls,
                                        constructed: true,
                                        tag,
                                        length: len as nat,
                                        content: SpecContent::Constructed(
                                            seq![o1, o2, o3, o4, o5, o6, o7, o8, o9, o10],
                                        ),
                                    },
                                    cend,
                                ),
                            )
                        },
                    },
                }
            }
        },
    }
}

#[verifier::rlimit(100)]
#[verifier::spinoff_prover]
fn parse_tbs_front(s: &[u8], pos: usize, end: usize, depth: usize) -> (r: Result<
    ((DerObject, DerObject, DerObject, DerObject, DerObject), usize),
    X509Error,
>)
    requires
        pos <= end <= s@.len(),
    ensures
        match r {
            Ok(((o1, o2, o3, o4, o5), np)) => spec_parse_tbs_front(
                s@,
                pos as int,
                end as int,
                depth as int,
            ) == Ok::<((SpecDer, SpecDer, SpecDer, SpecDer, SpecDer), int), (ErrorKind, int)>(
                ((o1@, o2@, o3@, o4@, o5@), np as int),
            ) && pos < np <= end,
            Err(e) => spec_parse_tbs_front(s@, pos as int, end as int, depth as int) == Err::<
                ((SpecDer, SpecDer, SpecDer, SpecDer, SpecDer), int),
                (ErrorKind, int),
            >((e.kind, e.offset as int)),
        },
{
    proof {
        reveal(spec_parse_tbs_front);
    }
    let (o1, p1) = match parse_version_at(s, pos, end, depth) {
        Ok(x) => x,
        Err(e) => return Err(e),
    };
    let (o2, p2) = match parse_integer(s, p1, end) {
        Ok(x) => x,
        Err(e) => return Err(e),
    };
    let (o3, p3) = match parse_alg_id(s, p2, end, depth) {
        Ok(x) => x,
        Err(e) => return Err(e),
    };
    let (o4, p4) = match parse_name(s, p3, end, depth) {
        Ok(x) => x,
        Err(e) => return Err(e),
    };
    let (o5, p5) = match parse_validity(s, p4, end, depth) {
        Ok(x) => x,
        Err(e) => return Err(e),
    };
    Ok(((o1, o2, o3, o4, o5), p5))
}

#[verifier::rlimit(100)]
#[verifier::spinoff_prover]
fn parse_tbs_back(s: &[u8], pos: usize, end: usize, depth: usize) -> (r: Result<
    ((DerObject, DerObject, DerObject, DerObject, DerObject), usize),
    X509Error,
>)
    requires
        pos <= end <= s@.len(),
    ensures
        match r {
            Ok(((o6, o7, o8, o9, o10), np)) => spec_parse_tbs_back(
                s@,
                pos as int,
                end as int,
                depth as int,
            ) == Ok::<((SpecDer, SpecDer, SpecDer, SpecDer, SpecDer), int), (ErrorKind, int)>(
                ((o6@, o7@, o8@, o9@, o10@), np as int),
            ) && pos < np <= end,
            Err(e) => spec_parse_tbs_back(s@, pos as int, end as int, depth as int) == Err::<
                ((SpecDer, SpecDer, SpecDer, SpecDer, SpecDer), int),
                (ErrorKind, int),
            >((e.kind, e.offset as int)),
        },
{
    proof {
        reveal(spec_parse_tbs_back);
    }
    let (o6, p6) = match parse_name(s, pos, end, depth) {
        Ok(x) => x,
        Err(e) => return Err(e),
    };
    let (o7, p7) = match parse_spki(s, p6, end, depth) {
        Ok(x) => x,
        Err(e) => return Err(e),
    };
    let (o8, p8) = match parse_opt_implicit_bits(s, p7, end, 1) {
        Ok(x) => x,
        Err(e) => return Err(e),
    };
    let (o9, p9) = match parse_opt_implicit_bits(s, p8, end, 2) {
        Ok(x) => x,
        Err(e) => return Err(e),
    };
    let (o10, p10) = match parse_opt_extensions(s, p9, end, depth) {
        Ok(x) => x,
        Err(e) => return Err(e),
    };
    Ok(((o6, o7, o8, o9, o10), p10))
}

#[verifier::rlimit(100)]
#[verifier::spinoff_prover]
fn parse_tbs_at(s: &[u8], pos: usize, end: usize, depth: usize) -> (r: Result<
    (DerObject, usize),
    X509Error,
>)
    requires
        pos <= end <= s@.len(),
    ensures
        obj_matches(r, spec_parse_tbs(s@, pos as int, end as int, depth as int)),
        r matches Ok((o, np)) ==> pos < np <= end,
{
    let (h, cend) = match read_header(s, pos, end) {
        Ok(x) => x,
        Err(e) => return Err(e),
    };
    if !(matches!(h.class, DerClass::Universal) && h.constructed && h.tag == 16) {
        return Err(X509Error { kind: ErrorKind::UnexpectedTag, offset: pos });
    }
    if depth == 0 {
        return Err(X509Error { kind: ErrorKind::DepthExceeded, offset: pos });
    }
    let ((o1, o2, o3, o4, o5), p5) = match parse_tbs_front(s, h.cstart, cend, depth - 1) {
        Ok(x) => x,
        Err(e) => return Err(e),
    };
    let ((o6, o7, o8, o9, o10), p10) = match parse_tbs_back(s, p5, cend, depth - 1) {
        Ok(x) => x,
        Err(e) => return Err(e),
    };
    if p10 != cend {
        return Err(X509Error { kind: ErrorKind::TrailingData, offset: p10 });
    }
    let ghost gs = seq![o1, o2, o3, o4, o5, o6, o7, o8, o9, o10];
    let mut cv: Vec<DerObject> = Vec::new();
    cv.push(o1);
    cv.push(o2);
    cv.push(o3);
    cv.push(o4);
    cv.push(o5);
    cv.push(o6);
    cv.push(o7);
    cv.push(o8);
    cv.push(o9);
    cv.push(o10);
    proof {
        assert(cv@ =~= gs);
        lemma_view_list_props(cv@);
        assert(view_list(cv@) =~= seq![
            view_obj(o1),
            view_obj(o2),
            view_obj(o3),
            view_obj(o4),
            view_obj(o5),
            view_obj(o6),
            view_obj(o7),
            view_obj(o8),
            view_obj(o9),
            view_obj(o10),
        ]);
    }
    Ok(
        (
            DerObject {
                class: h.class,
                constructed: true,
                tag: h.tag,
                length: h.len,
                content: DerContent::Constructed(cv),
            },
            cend,
        ),
    )
}


// ------------------------------------------------------- Certificate

/// Certificate: SEQUENCE { TBSCertificate, AlgorithmIdentifier, BIT STRING },
/// the three top-level fields in declared order.
pub open spec fn spec_parse_cert(s: Seq<u8>, pos: int, end: int, depth: int) -> Result<
    ((SpecDer, SpecDer, SpecDer), int),
    (ErrorKind, int),
> {
    match spec_read_header(s, pos, end) {
        Err(e) => Err(e),
        Ok(((cls, cons, tag, len, cstart), cend)) => {
            if !(cls == DerClass::Universal && cons && tag == 16) {
                Err((ErrorKind::UnexpectedTag, pos))
            } else if depth <= 0 {
                Err((ErrorKind::DepthExceeded, pos))
            } else {
                match spec_parse_tbs(s, cstart, cend, depth - 1) {
                    Err(e) => Err(e),
                    Ok((o1, p1)) => match spec_parse_alg_id(s, p1, cend, depth - 1) {
                        Err(e) => Err(e),
                        Ok((o2, p2)) => match spec_parse_bitstring(s, p2, cend) {
                            Err(e) => Err(e),
                            Ok((o3, p3)) => if p3 != cend {
                                Err((ErrorKind::TrailingData, p3))
                            } else {
                                Ok(((o1, o2, o3), cend))
                            },
                        },
                    },
                }
            }
        },
    }
}

fn parse_cert_at(s: &[u8], pos: usize, end: usize, depth: usize) -> (r: Result<
    ((DerObject, DerObject, DerObject), usize),
    X509Error,
>)
    requires
        pos <= end <= s@.len(),
    ensures
        match r {
            Ok(((t, a, g), np)) => spec_parse_cert(s@, pos as int, end as int, depth as int)
                == Ok::<((SpecDer, SpecDer, SpecDer), int), (ErrorKind, int)>(
                ((t@, a@, g@), np as int),
            ) && pos < np <= end,
            Err(e) => spec_parse_cert(s@, pos as int, end as int, depth as int) == Err::<
                ((SpecDer, SpecDer, SpecDer), int),
                (ErrorKind, int),
            >((e.kind, e.offset as int)),
        },
{
    let (h, cend) = match read_header(s, pos, end) {
        Ok(x) => x,
        Err(e) => return Err(e),
    };
    if !(matches!(h.class, DerClass::Universal) && h.constructed && h.tag == 16) {
        return Err(X509Error { kind: ErrorKind::UnexpectedTag, offset: pos });
    }
    if depth == 0 {
        return Err(X509Error { kind: ErrorKind::DepthExceeded, offset: pos });
    }
    let (o1, p1) = match parse_tbs_at(s, h.cstart, cend, depth - 1) {
        Ok(x) => x,
        Err(e) => return Err(e),
    };
    let (o2, p2) = match parse_alg_id(s, p1, cend, depth - 1) {
        Ok(x) => x,
        Err(e) => return Err(e),
    };
    let (o3, p3) = match parse_bitstring(s, p2, cend) {
        Ok(x) => x,
        Err(e) => return Err(e),
    };
    if p3 != cend {
        return Err(X509Error { kind: ErrorKind::TrailingData, offset: p3 });
    }
    Ok(((o1, o2, o3), cend))
}

/// Mathematical mirror of `X509Certificate`.
pub struct SpecCert {
    pub tbs: SpecDer,
    pub alg: SpecDer,
    pub sig: SpecDer,
}

/// The decoded certificate: its three top-level fields, in declared order.
#[derive(Debug)]
#[allow(non_snake_case)]
pub struct X509Certificate {
    pub tbsCertificate: DerObject,
    pub signatureAlgorithm: DerObject,
    pub signatureValue: DerObject,
}

impl View for X509Certificate {
    type V = SpecCert;

    open spec fn view(&self) -> SpecCert {
        SpecCert {
            tbs: self.tbsCertificate@,
            alg: self.signatureAlgorithm@,
            sig: self.signatureValue@,
        }
    }
}

impl X509Certificate {
    /// Assembles the certificate from the decoded children of the outer
    /// SEQUENCE, taken in declared order: tbsCertificate first,
    /// signatureAlgorithm second, signatureValue third.  Anything but exactly
    /// three children is a `SequenceArity` failure, reported at offset 0.
    pub fn new(v: Vec<DerObject>) -> (r: Result<X509Certificate, X509Error>)
        ensures
            v@.len() == 3 ==> (r matches Ok(c) && c@ == (SpecCert {
                tbs: v@[0]@,
                alg: v@[1]@,
                sig: v@[2]@,
            })),
            v@.len() != 3 ==> r == Err::<X509Certificate, X509Error>(
                X509Error { kind: ErrorKind::SequenceArity, offset: 0 },
            ),
    {
        if v.len() != 3 {
            return Err(X509Error { kind: ErrorKind::SequenceArity, offset: 0 });
        }
        let mut v = v;
        let tbs = v.remove(0);
        let alg = v.remove(0);
        let sig = v.remove(0);
        Ok(X509Certificate { tbsCertificate: tbs, signatureAlgorithm: alg, signatureValue: sig })
    }
}

// ------------------------------------------------------- entry points

/// Parses one DER-encoded certificate from the front of the buffer.  On
/// success the result carries the certificate and the exact count of
/// unconsumed trailing bytes.
pub fn x509_parser(i: &[u8]) -> (r: Result<(X509Certificate, usize), X509Error>)
    ensures
        match r {
            Ok((c, trailing)) => trailing <= i@.len() && spec_parse_cert(
                i@,
                0,
                i@.len() as int,
                MAX_DEPTH as int,
            ) == Ok::<((SpecDer, SpecDer, SpecDer), int), (ErrorKind, int)>(
                ((c@.tbs, c@.alg, c@.sig), i@.len() - trailing as int),
            ),
            Err(e) => spec_parse_cert(i@, 0, i@.len() as int, MAX_DEPTH as int) == Err::<
                ((SpecDer, SpecDer, SpecDer), int),
                (ErrorKind, int),
            >((e.kind, e.offset as int)),
        },
{
    let len = i.len();
    match parse_cert_at(i, 0, len, MAX_DEPTH) {
        Err(e) => Err(e),
        Ok(((t, a, g), np)) => {
            let mut v: Vec<DerObject> = Vec::new();
            v.push(t);
            v.push(a);
            v.push(g);
            match X509Certificate::new(v) {
                Err(e) => Err(e),
                Ok(c) => Ok((c, len - np)),
            }
        },
    }
}

/// Parses the EXPLICIT [0] version field; returns the node and the count of
/// unconsumed trailing bytes.
pub fn parse_version(i: &[u8]) -> (r: Result<(DerObject, usize), X509Error>)
    ensures
        match r {
            Ok((o, trailing)) => trailing <= i@.len() && spec_parse_version(
                i@,
                0,
                i@.len() as int,
                MAX_DEPTH as int,
            ) == Ok::<(SpecDer, int), (ErrorKind, int)>((o@, i@.len() - trailing as int)),
            Err(e) => spec_parse_version(i@, 0, i@.len() as int, MAX_DEPTH as int) == Err::<
                (SpecDer, int),
                (ErrorKind, int),
            >((e.kind, e.offset as int)),
        },
{
    let len = i.len();
    match parse_version_at(i, 0, len, MAX_DEPTH) {
        Err(e) => Err(e),
        Ok((o, np)) => Ok((o, len - np)),
    }
}

/// Parses one TBSCertificate; returns the node and the count of unconsumed
/// trailing bytes.
#[verifier::rlimit(60)]
#[verifier::spinoff_prover]
pub fn parse_tbs_certificate(i: &[u8]) -> (r: Result<(DerObject, usize), X509Error>)
    ensures
        match r {
            Ok((o, trailing)) => trailing <= i@.len() && spec_parse_tbs(
                i@,
                0,
                i@.len() as int,
                MAX_DEPTH as int,
            ) == Ok::<(SpecDer, int), (ErrorKind, int)>((o@, i@.len() - trailing as int)),
            Err(e) => spec_parse_tbs(i@, 0, i@.len() as int, MAX_DEPTH as int) == Err::<
                (SpecDer, int),
                (ErrorKind, int),
            >((e.kind, e.offset as int)),
        },
{
    let len = i.len();
    match parse_tbs_at(i, 0, len, MAX_DEPTH) {
        Err(e) => Err(e),
        Ok((o, np)) => Ok((o, len - np)),
    }
}

/// Parses one AlgorithmIdentifier; returns the node and the count of
/// unconsumed trailing bytes.
pub fn parse_algorithm_identifier(i: &[u8]) -> (r: Result<(DerObject, usize), X509Error>)
    ensures
        match r {
            Ok((o, trailing)) => trailing <= i@.len() && spec_parse_alg_id(
                i@,
                0,
                i@.len() as int,
                MAX_DEPTH as int,
            ) == Ok::<(SpecDer, int), (ErrorKind, int)>((o@, i@.len() - trailing as int)),
            Err(e) => spec_parse_alg_id(i@, 0, i@.len() as int, MAX_DEPTH as int) == Err::<
                (SpecDer, int),
                (ErrorKind, int),
            >((e.kind, e.offset as int)),
        },
{
    let len = i.len();
    match parse_alg_id(i, 0, len, MAX_DEPTH) {
        Err(e) => Err(e),
        Ok((o, np)) => Ok((o, len - np)),
    }
}

/// Parses the signature value, a BIT STRING; returns the node and the count
/// of unconsumed trailing bytes.
pub fn parse_signature_value(i: &[u8]) -> (r: Result<(DerObject, usize), X509Error>)
    ensures
        match r {
            Ok((o, trailing)) => trailing <= i@.len() && spec_parse_bitstring(
                i@,
                0,
                i@.len() as int,
            ) == Ok::<(SpecDer, int), (ErrorKind, int)>((o@, i@.len() - trailing as int)),
            Err(e) => spec_parse_bitstring(i@, 0, i@.len() as int) == Err::<
                (SpecDer, int),
                (ErrorKind, int),
            >((e.kind, e.offset as int)),
        },
{
    let len = i.len();
    match parse_bitstring(i, 0, len) {
        Err(e) => Err(e),
        Ok((o, np)) => Ok((o, len - np)),
    }
}

} // verus!
