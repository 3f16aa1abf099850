//! The generic DER parser: decodes one element of any type, recursing through
//! constructed content with an explicit depth bound.

use vstd::prelude::*;
use crate::obj::{DerClass, DerContent, DerObject, ErrorKind, SpecContent, SpecDer, StrKind, X509Error, view_list, view_obj, MAX_DEPTH};
use crate::tlv::{spec_read_header, read_header};
use crate::content::{
    obj_matches, copy_range, spec_parse_bool, parse_bool, spec_parse_integer, parse_integer,
    spec_parse_oid, parse_oid, spec_parse_bitstring, parse_bitstring, spec_parse_octetstring,
    parse_octetstring, spec_parse_charstr, parse_charstr, spec_parse_time, parse_time,
};

verus! {

/// One element of any type: a primitive of a known universal tag is decoded
/// by its type's grammar, any other primitive is kept as raw bytes, and a
/// constructed element holds the elements its content consists of.
pub open spec fn spec_parse_any(s: Seq<u8>, pos: int, end: int, depth: int) -> Result<
    (SpecDer, int),
    (ErrorKind, int),
>
    decreases depth, 0int,
{
    match spec_read_header(s, pos, end) {
        Err(e) => Err(e),
        Ok(((cls, cons, tag, len, cstart), cend)) => {
            if cons {
                if depth <= 0 {
                    Err((ErrorKind::DepthExceeded, pos))
                } else {
                    match spec_parse_any_list(s, cstart, cend, depth - 1) {
                        Err(e) => Err(e),
                        Ok((children, _np)) => Ok(
                            (
                                SpecDer {
                                    class: cls,
                                    constructed: true,
                                    tag,
                                    length: len as nat,
                                    content: SpecContent::Constructed(children),
                                },
                                cend,
                            ),
                        ),
                    }
                }
            } else if cls == DerClass::Universal && tag == 1 {
                spec_parse_bool(s, pos, end)
            } else if cls == DerClass::Universal && tag == 2 {
                spec_parse_integer(s, pos, end)
            } else if cls == DerClass::Universal && tag == 3 {
                spec_parse_bitstring(s, pos, end)
            } else if cls == DerClass::Universal && tag == 4 {
                spec_parse_octetstring(s, pos, end)
            } else if cls == DerClass::Universal && tag == 5 {
                if len != 0 {
                    Err((ErrorKind::InvalidEncoding, cstart))
                } else {
                    Ok(
                        (
                            SpecDer {
                                class: cls,
                                constructed: false,
                                tag,
                                length: 0,
                                content: SpecContent::Null,
                            },
                            cend,
                        ),
                    )
                }
            } else if cls == DerClass::Universal && tag == 6 {
                spec_parse_oid(s, pos, end)
            } else if cls == DerClass::Universal && tag == 12 {
                spec_parse_charstr(s, pos, end, StrKind::Utf8)
            } else if cls == DerClass::Universal && tag == 19 {
                spec_parse_charstr(s, pos, end, StrKind::Printable)
            } else if cls == DerClass::Universal && tag == 20 {
                spec_parse_charstr(s, pos, end, StrKind::T61)
            } else if cls == DerClass::Universal && tag == 22 {
                spec_parse_charstr(s, pos, end, StrKind::Ia5)
            } else if cls == DerClass::Universal && tag == 30 {
                spec_parse_charstr(s, pos, end, StrKind::Bmp)
            } else if cls == DerClass::Universal && tag == 23 {
                spec_parse_time(s, pos, end, false)
            } else if cls == DerClass::Universal && tag == 24 {
                spec_parse_time(s, pos, end, true)
            } else {
                Ok(
                    (
                        SpecDer {
                            class: cls,
                            constructed: false,
                            tag,
                            length: len as nat,
                            content: SpecContent::Raw(s.subrange(cstart, cend)),
                        },
                        cend,
                    ),
                )
            }
        },
    }
}

/// Elements applied one after the other until the window is exhausted; the
/// window must be consumed exactly.
pub open spec fn spec_parse_any_list(s: Seq<u8>, pos: int, end: int, depth: int) -> Result<
    (Seq<SpecDer>, int),
    (ErrorKind, int),
>
    decreases depth, (if pos <= end { end - pos + 1 } else { 0 }),
{
    if pos >= end {
        Ok((Seq::empty(), pos))
    } else {
        match spec_parse_any(s, pos, end, depth) {
            Err(e) => Err(e),
            Ok((o, np)) => {
                if !(pos < np <= end) {
                    // an element always advances the cursor inside its window
                    Err((ErrorKind::TruncatedInput, pos))
                } else {
                    match spec_parse_any_list(s, np, end, depth) {
                        Err(e) => Err(e),
                        Ok((rest, np2)) => Ok((seq![o] + rest, np2)),
                    }
                }
            },
        }
    }
}

pub(crate) fn parse_any(s: &[u8], pos: usize, end: usize, depth: usize) -> (r: Result<
    (DerObject, usize),
    X509Error,
>)
    requires
        pos <= end <= s@.len(),
    ensures
        obj_matches(r, spec_parse_any(s@, pos as int, end as int, depth as int)),
        r matches Ok((o, np)) ==> pos < np <= end,
    decreases depth, 0int,
{
    match read_header(s, pos, end) {
        Err(e) => Err(e),
        Ok((h, cend)) => {
            if h.constructed {
                if depth == 0 {
                    Err(X509Error { kind: ErrorKind::DepthExceeded, offset: pos })
                } else {
                    match parse_any_list(s, h.cstart, cend, depth - 1) {
                        Err(e) => Err(e),
                        Ok((children, _np)) => Ok(
                            (
                                DerObject {
                                    class: h.class,
                                    constructed: true,
                                    tag: h.tag,
                                    length: h.len,
                                    content: DerContent::Constructed(children),
                                },
                                cend,
                            ),
                        ),
                    }
                }
            } else if matches!(h.class, DerClass::Universal) && h.tag == 1 {
                parse_bool(s, pos, end)
            } else if matches!(h.class, DerClass::Universal) && h.tag == 2 {
                parse_integer(s, pos, end)
            } else if matches!(h.class, DerClass::Universal) && h.tag == 3 {
                parse_bitstring(s, pos, end)
            } else if matches!(h.class, DerClass::Universal) && h.tag == 4 {
                parse_octetstring(s, pos, end)
            } else if matches!(h.class, DerClass::Universal) && h.tag == 5 {
                if h.len != 0 {
                    Err(X509Error { kind: ErrorKind::InvalidEncoding, offset: h.cstart })
                } else {
                    Ok(
                        (
                            DerObject {
                                class: h.class,
                                constructed: false,
                                tag: h.tag,
                                length: 0,
                                content: DerContent::Null,
                            },
                            cend,
                        ),
                    )
                }
            } else if matches!(h.class, DerClass::Universal) && h.tag == 6 {
                parse_oid(s, pos, end)
            } else if matches!(h.class, DerClass::Universal) && h.tag == 12 {
                parse_charstr(s, pos, end, StrKind::Utf8)
            } else if matches!(h.class, DerClass::Universal) && h.tag == 19 {
                parse_charstr(s, pos, end, StrKind::Printable)
            } else if matches!(h.class, DerClass::Universal) && h.tag == 20 {
                parse_charstr(s, pos, end, StrKind::T61)
            } else if matches!(h.class, DerClass::Universal) && h.tag == 22 {
                parse_charstr(s, pos, end, StrKind::Ia5)
            } else if matches!(h.class, DerClass::Universal) && h.tag == 30 {
                parse_charstr(s, pos, end, StrKind::Bmp)
            } else if matches!(h.class, DerClass::Universal) && h.tag == 23 {
                parse_time(s, pos, end, false)
            } else if matches!(h.class, DerClass::Universal) && h.tag == 24 {
                parse_time(s, pos, end, true)
            } else {
                let v = copy_range(s, h.cstart, cend);
                Ok(
                    (
                        DerObject {
                            class: h.class,
                            constructed: false,
                            tag: h.tag,
                            length: h.len,
                            content: DerContent::Raw(v),
                        },
                        cend,
                    ),
                )
            }
        },
    }
}

pub(crate) fn parse_any_list(s: &[u8], pos: usize, end: usize, depth: usize) -> (r: Result<
    (Vec<DerObject>, usize),
    X509Error,
>)
    requires
        pos <= end <= s@.len(),
    ensures
        match r {
            Ok((v, np)) => spec_parse_any_list(s@, pos as int, end as int, depth as int) == Ok::<
                (Seq<SpecDer>, int),
                (ErrorKind, int),
            >((view_list(v@), np as int)) && pos <= np <= end,
            Err(e) => spec_parse_any_list(s@, pos as int, end as int, depth as int) == Err::<
                (Seq<SpecDer>, int),
                (ErrorKind, int),
            >((e.kind, e.offset as int)),
        },
    decreases depth, (if pos <= end { end - pos + 1int } else { 0int }),
{
    if pos >= end {
        let v: Vec<DerObject> = Vec::new();
        proof {
            assert(view_list(v@) =~= Seq::<SpecDer>::empty());
        }
        Ok((v, pos))
    } else {
        match parse_any(s, pos, end, depth) {
            Err(e) => Err(e),
            Ok((o, np)) => {
                match parse_any_list(s, np, end, depth) {
                    Err(e) => Err(e),
                    Ok((rest, np2)) => {
                        let ghost r0 = rest@;
                        let mut v = rest;
                        v.insert(0, o);
                        proof {
                            assert(v@[0] == o);
                            assert(v@.subrange(1, v@.len() as int) =~= r0);
                            assert(view_list(v@) == seq![view_obj(o)] + view_list(r0));
                        }
                        Ok((v, np2))
                    },
                }
            },
        }
    }
}

/// Parses one DER element of any type from the front of the buffer; returns
/// the node and the count of unconsumed trailing bytes.
pub fn parse_der(i: &[u8]) -> (r: Result<(DerObject, usize), X509Error>)
    ensures
        match r {
            Ok((o, trailing)) => trailing <= i@.len() && spec_parse_any(
                i@,
                0,
                i@.len() as int,
                MAX_DEPTH as int,
            ) == Ok::<(SpecDer, int), (ErrorKind, int)>((o@, i@.len() - trailing as int)),
            Err(e) => spec_parse_any(i@, 0, i@.len() as int, MAX_DEPTH as int) == Err::<
                (SpecDer, int),
                (ErrorKind, int),
            >((e.kind, e.offset as int)),
        },
{
    let len = i.len();
    match parse_any(i, 0, len, MAX_DEPTH) {
        Err(e) => Err(e),
        Ok((o, np)) => Ok((o, len - np)),
    }
}

} // verus!
