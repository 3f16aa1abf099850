//! Locality of the decoders: every parser's result depends only on the bytes
//! of its window.  These lemmas culminate in the idempotence law: reparsing
//! the byte range a successful top-level parse consumed yields the identical
//! tree.

use vstd::prelude::*;
use crate::obj::{ErrorKind, StrKind};
use crate::tlv::{
    spec_len_bytes, spec_read_header, spec_read_len, spec_read_tag, spec_read_tagnum,
};
use crate::content::{
    spec_content_time, spec_digits, spec_oid_rest, spec_parse_bool, spec_parse_bitstring,
    spec_parse_charstr, spec_parse_implicit_bits, spec_parse_integer, spec_parse_octetstring,
    spec_parse_oid, spec_parse_time, spec_printable, spec_time_tail,
};
use crate::any::{spec_parse_any, spec_parse_any_list};
use crate::x509::{
    spec_opt_any, spec_opt_bool, spec_opt_extensions, spec_opt_implicit_bits, spec_parse_alg_id,
    spec_parse_attr, spec_parse_attr_list, spec_parse_cert, spec_parse_dirstring,
    spec_parse_ext_list, spec_parse_ext_seq, spec_parse_extension, spec_parse_extensions,
    spec_parse_name, spec_parse_rdn, spec_parse_rdn_list, spec_parse_spki, spec_parse_tbs,
    spec_parse_tbs_back, spec_parse_tbs_front, spec_parse_time_choice, spec_parse_validity,
    spec_parse_version,
};

verus! {

/// The two buffers agree on every byte of `lo .. hi`.
pub open spec fn agree(s: Seq<u8>, t: Seq<u8>, lo: int, hi: int) -> bool {
    forall|i: int| #![trigger s[i]] #![trigger t[i]] lo <= i < hi ==> s[i] == t[i]
}

// ----------------------------------------------------------- bounds

pub proof fn lemma_tagnum_bounds(s: Seq<u8>, pos: int, end: int, acc: u64)
    requires
        spec_read_tagnum(s, pos, end, acc) is Ok,
    ensures
        pos < spec_read_tagnum(s, pos, end, acc)->Ok_0.1 <= end,
    decreases end - pos,
{
    if pos < end && !(acc > crate::tlv::TAG_ACC_LIMIT) && s[pos] >= 128 {
        let acc2 = (acc as int * 128 + (s[pos] as int % 128)) as u64;
        lemma_tagnum_bounds(s, pos + 1, end, acc2);
    }
}

pub proof fn lemma_len_bytes_props(s: Seq<u8>, pos: int, count: int, acc: int, errpos: int)
    requires
        spec_len_bytes(s, pos, count, acc, errpos) is Ok,
        count >= 0,
        acc >= 0,
    ensures
        spec_len_bytes(s, pos, count, acc, errpos)->Ok_0.1 == pos + count,
        spec_len_bytes(s, pos, count, acc, errpos)->Ok_0.0 >= 0,
    decreases count,
{
    if count > 0 && !(acc > crate::tlv::LEN_ACC_LIMIT as int) {
        lemma_len_bytes_props(s, pos + 1, count - 1, acc * 256 + s[pos], errpos);
    }
}

/// On success a header occupies `pos .. cstart`, and the element it
/// announces occupies `pos .. cend` inside the window.
pub proof fn lemma_header_bounds(s: Seq<u8>, pos: int, end: int)
    requires
        spec_read_header(s, pos, end) is Ok,
    ensures
        ({
            let ((cls, cons, tag, len, cstart), cend) = spec_read_header(s, pos, end)->Ok_0;
            &&& pos < cstart
            &&& 0 <= len
            &&& cstart + len == cend
            &&& cend <= end
            &&& pos < end
        }),
{
    let tr = spec_read_tag(s, pos, end);
    assert(tr is Ok);
    let p1 = tr->Ok_0.1;
    if s[pos] as int % 32 >= 31 {
        lemma_tagnum_bounds(s, pos + 1, end, 0);
    }
    assert(pos < p1 <= end);
    let lr = spec_read_len(s, p1, end);
    assert(lr is Ok);
    if s[p1] >= 128 {
        let count = s[p1] as int - 128;
        lemma_len_bytes_props(s, p1 + 1, count, 0, p1);
    }
}

// ----------------------------------------------------------- header frames

pub proof fn frame_tagnum(s: Seq<u8>, t: Seq<u8>, pos: int, end: int, acc: u64)
    requires
        agree(s, t, pos, end),
    ensures
        spec_read_tagnum(t, pos, end, acc) == spec_read_tagnum(s, pos, end, acc),
    decreases end - pos,
{
    if pos < end {
        assert(s[pos] == t[pos]);
        if !(acc > crate::tlv::TAG_ACC_LIMIT) {
            let acc2 = (acc as int * 128 + (s[pos] as int % 128)) as u64;
            if s[pos] >= 128 {
                frame_tagnum(s, t, pos + 1, end, acc2);
            }
        }
    }
}

pub proof fn frame_read_tag(s: Seq<u8>, t: Seq<u8>, pos: int, end: int)
    requires
        agree(s, t, pos, end),
    ensures
        spec_read_tag(t, pos, end) == spec_read_tag(s, pos, end),
{
    if pos < end {
        assert(s[pos] == t[pos]);
        frame_tagnum(s, t, pos + 1, end, 0);
    }
}

pub proof fn frame_len_bytes(s: Seq<u8>, t: Seq<u8>, pos: int, count: int, acc: int, errpos: int)
    requires
        agree(s, t, pos, pos + count),
    ensures
        spec_len_bytes(t, pos, count, acc, errpos) == spec_len_bytes(s, pos, count, acc, errpos),
    decreases count,
{
    if count > 0 && !(acc > crate::tlv::LEN_ACC_LIMIT as int) {
        assert(s[pos] == t[pos]);
        frame_len_bytes(s, t, pos + 1, count - 1, acc * 256 + s[pos], errpos);
    }
}

pub proof fn frame_read_len(s: Seq<u8>, t: Seq<u8>, pos: int, end: int)
    requires
        agree(s, t, pos, end),
    ensures
        spec_read_len(t, pos, end) == spec_read_len(s, pos, end),
{
    if pos < end {
        assert(s[pos] == t[pos]);
        if s[pos] >= 128 {
            let count = s[pos] as int - 128;
            if count != 0 && pos + 1 + count <= end {
                assert(s[pos + 1] == t[pos + 1]);
                frame_len_bytes(s, t, pos + 1, count, 0, pos);
            }
        }
    }
}

/// The header read at `pos` is the same on any buffer that agrees on the
/// window.
pub proof fn frame_read_header(s: Seq<u8>, t: Seq<u8>, pos: int, end: int)
    requires
        agree(s, t, pos, end),
    ensures
        spec_read_header(t, pos, end) == spec_read_header(s, pos, end),
{
    frame_read_tag(s, t, pos, end);
    if spec_read_tag(s, pos, end) is Ok {
        let p1 = spec_read_tag(s, pos, end)->Ok_0.1;
        assert(pos < end);
        if s[pos] as int % 32 >= 31 {
            lemma_tagnum_bounds(s, pos + 1, end, 0);
        }
        assert(pos < p1);
        frame_read_len(s, t, p1, end);
    }
}

/// Widening or narrowing the window beyond a successfully announced element
/// does not change the header: its reads and checks stay inside
/// `pos .. cend`.
pub proof fn frame_read_header_window(s: Seq<u8>, t: Seq<u8>, pos: int, end: int, end2: int)
    requires
        spec_read_header(s, pos, end) is Ok,
        spec_read_header(s, pos, end)->Ok_0.1 <= end2,
        agree(s, t, pos, spec_read_header(s, pos, end)->Ok_0.1),
    ensures
        spec_read_header(t, pos, end2) == spec_read_header(s, pos, end),
{
    let ((cls, cons, tag, len, cstart), cend) = spec_read_header(s, pos, end)->Ok_0;
    lemma_header_bounds(s, pos, end);
    let p1 = spec_read_tag(s, pos, end)->Ok_0.1;
    assert(pos < end);
    if s[pos] as int % 32 >= 31 {
        lemma_tagnum_bounds(s, pos + 1, end, 0);
    }
    assert(pos < p1 <= end);
    // the length read starts at p1 and ends at cstart <= cend
    assert(spec_read_len(s, p1, end) is Ok);
    assert(p1 < end);
    if s[p1] >= 128 {
        let count = s[p1] as int - 128;
        lemma_len_bytes_props(s, p1 + 1, count, 0, p1);
    }
    assert(p1 < cstart <= cend);
    frame_tag_window(s, t, pos, end, end2, cend);
    frame_len_window(s, t, p1, end, end2, cend);
}

/// A successful tag read within an element's span is window-insensitive.
proof fn frame_tag_window(s: Seq<u8>, t: Seq<u8>, pos: int, end: int, end2: int, cend: int)
    requires
        spec_read_tag(s, pos, end) is Ok,
        spec_read_tag(s, pos, end)->Ok_0.1 <= cend <= end2,
        spec_read_tag(s, pos, end)->Ok_0.1 <= end,
        agree(s, t, pos, cend),
    ensures
        spec_read_tag(t, pos, end2) == spec_read_tag(s, pos, end),
{
    let np = spec_read_tag(s, pos, end)->Ok_0.1;
    assert(pos < end);
    if s[pos] as int % 32 >= 31 {
        lemma_tagnum_bounds(s, pos + 1, end, 0);
    }
    assert(pos < np);
    assert(pos < cend);
    assert(s[pos] == t[pos]);
    assert(pos < end2);
    if s[pos] as int % 32 >= 31 {
        frame_tagnum_window(s, t, pos + 1, end, end2, cend, 0);
    }
}

proof fn frame_tagnum_window(
    s: Seq<u8>,
    t: Seq<u8>,
    pos: int,
    end: int,
    end2: int,
    cend: int,
    acc: u64,
)
    requires
        spec_read_tagnum(s, pos, end, acc) is Ok,
        spec_read_tagnum(s, pos, end, acc)->Ok_0.1 <= cend <= end2,
        agree(s, t, pos, cend),
    ensures
        spec_read_tagnum(t, pos, end2, acc) == spec_read_tagnum(s, pos, end, acc),
    decreases end - pos,
{
    lemma_tagnum_bounds(s, pos, end, acc);
    assert(pos < end);
    assert(pos < cend);
    assert(pos < end2);
    assert(s[pos] == t[pos]);
    if !(acc > crate::tlv::TAG_ACC_LIMIT) {
        let acc2 = (acc as int * 128 + (s[pos] as int % 128)) as u64;
        if s[pos] >= 128 {
            frame_tagnum_window(s, t, pos + 1, end, end2, cend, acc2);
        }
    }
}

/// A successful length read within an element's span is window-insensitive.
proof fn frame_len_window(s: Seq<u8>, t: Seq<u8>, pos: int, end: int, end2: int, cend: int)
    requires
        spec_read_len(s, pos, end) is Ok,
        spec_read_len(s, pos, end)->Ok_0.1 <= cend <= end2,
        spec_read_len(s, pos, end)->Ok_0.1 <= end,
        agree(s, t, pos, cend),
    ensures
        spec_read_len(t, pos, end2) == spec_read_len(s, pos, end),
{
    assert(pos < end);
    let np = spec_read_len(s, pos, end)->Ok_0.1;
    if s[pos] >= 128 {
        let count = s[pos] as int - 128;
        lemma_len_bytes_props(s, pos + 1, count, 0, pos);
        assert(np == pos + 1 + count);
    }
    assert(pos < np);
    assert(pos < cend);
    assert(s[pos] == t[pos]);
    assert(pos < end2);
    if s[pos] >= 128 {
        let count = s[pos] as int - 128;
        assert(pos + 1 + count <= end2);
        assert(s[pos + 1] == t[pos + 1]);
        frame_len_bytes(s, t, pos + 1, count, 0, pos);
    }
}

// ----------------------------------------------------------- content frames

proof fn frame_oid_rest(
    s: Seq<u8>,
    t: Seq<u8>,
    pos: int,
    ce: int,
    acc: u64,
    mid: bool,
    arcs: Seq<u64>,
)
    requires
        agree(s, t, pos, ce),
    ensures
        spec_oid_rest(t, pos, ce, acc, mid, arcs) == spec_oid_rest(s, pos, ce, acc, mid, arcs),
    decreases ce - pos,
{
    if pos < ce {
        assert(s[pos] == t[pos]);
        if !(acc > crate::tlv::TAG_ACC_LIMIT) {
            let acc2 = (acc as int * 128 + (s[pos] as int % 128)) as u64;
            if s[pos] < 128 {
                frame_oid_rest(s, t, pos + 1, ce, 0, false, arcs.push(acc2));
            } else {
                frame_oid_rest(s, t, pos + 1, ce, acc2, true, arcs);
            }
        }
    }
}

proof fn frame_printable(s: Seq<u8>, t: Seq<u8>, pos: int, ce: int)
    requires
        agree(s, t, pos, ce),
    ensures
        spec_printable(t, pos, ce) == spec_printable(s, pos, ce),
    decreases ce - pos,
{
    if pos < ce {
        assert(s[pos] == t[pos]);
        frame_printable(s, t, pos + 1, ce);
    }
}

proof fn frame_digits(s: Seq<u8>, t: Seq<u8>, p: int, n: int)
    requires
        agree(s, t, p, p + n),
    ensures
        spec_digits(t, p, n) == spec_digits(s, p, n),
    decreases n,
{
    if n > 0 {
        assert(s[p] == t[p]);
        frame_digits(s, t, p + 1, n - 1);
    }
}

proof fn frame_time_tail(
    s: Seq<u8>,
    t: Seq<u8>,
    p: int,
    ce: int,
    errpos: int,
    generalized: bool,
    year: int,
)
    requires
        agree(s, t, p, ce),
    ensures
        spec_time_tail(t, p, ce, errpos, generalized, year) == spec_time_tail(
            s,
            p,
            ce,
            errpos,
            generalized,
            year,
        ),
{
    if ce - p == 11 || ce - p == 15 {
        frame_digits(s, t, p, 10);
        assert(s[p + 10] == t[p + 10]);
        if ce - p == 15 {
            frame_digits(s, t, p + 11, 4);
        }
    }
}

proof fn frame_content_time(s: Seq<u8>, t: Seq<u8>, cs: int, ce: int, generalized: bool)
    requires
        agree(s, t, cs, ce),
    ensures
        spec_content_time(t, cs, ce, generalized) == spec_content_time(s, cs, ce, generalized),
{
    if generalized {
        if ce - cs >= 4 {
            frame_digits(s, t, cs, 4);
            frame_time_tail(s, t, cs + 4, ce, cs, true,
                1000 * (s[cs] as int - 48) + 100 * (s[cs + 1] as int - 48) + 10 * (s[cs + 2] as int
                    - 48) + (s[cs + 3] as int - 48));
        }
    } else {
        if ce - cs >= 2 {
            frame_digits(s, t, cs, 2);
            let yy = 10 * (s[cs] as int - 48) + (s[cs + 1] as int - 48);
            let year = if yy >= 50 { 1900 + yy } else { 2000 + yy };
            frame_time_tail(s, t, cs + 2, ce, cs, false, year);
        }
    }
}

// ----------------------------------------------------------- primitives

pub proof fn frame_parse_bool(s: Seq<u8>, t: Seq<u8>, pos: int, end: int)
    requires
        0 <= pos,
        end <= s.len(),
        end <= t.len(),
        agree(s, t, pos, end),
    ensures
        spec_parse_bool(t, pos, end) == spec_parse_bool(s, pos, end),
        spec_parse_bool(s, pos, end) matches Ok((o, np)) ==> pos < np <= end,
{
    frame_read_header(s, t, pos, end);
    if spec_read_header(s, pos, end) is Ok {
        lemma_header_bounds(s, pos, end);
        let ((cls, cons, tag, len, cstart), cend) = spec_read_header(s, pos, end)->Ok_0;
        if cend - cstart == 1 {
            assert(s[cstart] == t[cstart]);
        }
    }
}

pub proof fn frame_parse_integer(s: Seq<u8>, t: Seq<u8>, pos: int, end: int)
    requires
        0 <= pos,
        end <= s.len(),
        end <= t.len(),
        agree(s, t, pos, end),
    ensures
        spec_parse_integer(t, pos, end) == spec_parse_integer(s, pos, end),
        spec_parse_integer(s, pos, end) matches Ok((o, np)) ==> pos < np <= end,
{
    frame_read_header(s, t, pos, end);
    if spec_read_header(s, pos, end) is Ok {
        lemma_header_bounds(s, pos, end);
        let ((cls, cons, tag, len, cstart), cend) = spec_read_header(s, pos, end)->Ok_0;
        if cend - cstart >= 1 {
            assert(s[cstart] == t[cstart]);
        }
        if cend - cstart >= 2 {
            assert(s[cstart + 1] == t[cstart + 1]);
        }
        assert(s.subrange(cstart, cend) =~= t.subrange(cstart, cend));
    }
}

pub proof fn frame_parse_oid(s: Seq<u8>, t: Seq<u8>, pos: int, end: int)
    requires
        0 <= pos,
        end <= s.len(),
        end <= t.len(),
        agree(s, t, pos, end),
    ensures
        spec_parse_oid(t, pos, end) == spec_parse_oid(s, pos, end),
        spec_parse_oid(s, pos, end) matches Ok((o, np)) ==> pos < np <= end,
{
    frame_read_header(s, t, pos, end);
    if spec_read_header(s, pos, end) is Ok {
        lemma_header_bounds(s, pos, end);
        let ((cls, cons, tag, len, cstart), cend) = spec_read_header(s, pos, end)->Ok_0;
        if cend > cstart {
            assert(s[cstart] == t[cstart]);
            let (a0, a1) = crate::content::spec_oid_first(s[cstart]);
            frame_oid_rest(s, t, cstart + 1, cend, 0, false, seq![a0, a1]);
        }
    }
}

pub proof fn frame_parse_bitstring(s: Seq<u8>, t: Seq<u8>, pos: int, end: int)
    requires
        0 <= pos,
        end <= s.len(),
        end <= t.len(),
        agree(s, t, pos, end),
    ensures
        spec_parse_bitstring(t, pos, end) == spec_parse_bitstring(s, pos, end),
        spec_parse_bitstring(s, pos, end) matches Ok((o, np)) ==> pos < np <= end,
{
    frame_read_header(s, t, pos, end);
    if spec_read_header(s, pos, end) is Ok {
        lemma_header_bounds(s, pos, end);
        let ((cls, cons, tag, len, cstart), cend) = spec_read_header(s, pos, end)->Ok_0;
        if cend - cstart >= 1 {
            assert(s[cstart] == t[cstart]);
            assert(s.subrange(cstart + 1, cend) =~= t.subrange(cstart + 1, cend));
        }
    }
}

pub proof fn frame_parse_implicit_bits(s: Seq<u8>, t: Seq<u8>, pos: int, end: int, ctx: u64)
    requires
        0 <= pos,
        end <= s.len(),
        end <= t.len(),
        agree(s, t, pos, end),
    ensures
        spec_parse_implicit_bits(t, pos, end, ctx) == spec_parse_implicit_bits(s, pos, end, ctx),
        spec_parse_implicit_bits(s, pos, end, ctx) matches Ok((o, np)) ==> pos < np <= end,
{
    frame_read_header(s, t, pos, end);
    if spec_read_header(s, pos, end) is Ok {
        lemma_header_bounds(s, pos, end);
        let ((cls, cons, tag, len, cstart), cend) = spec_read_header(s, pos, end)->Ok_0;
        if cend - cstart >= 1 {
            assert(s[cstart] == t[cstart]);
            assert(s.subrange(cstart + 1, cend) =~= t.subrange(cstart + 1, cend));
        }
    }
}

pub proof fn frame_parse_octetstring(s: Seq<u8>, t: Seq<u8>, pos: int, end: int)
    requires
        0 <= pos,
        end <= s.len(),
        end <= t.len(),
        agree(s, t, pos, end),
    ensures
        spec_parse_octetstring(t, pos, end) == spec_parse_octetstring(s, pos, end),
        spec_parse_octetstring(s, pos, end) matches Ok((o, np)) ==> pos < np <= end,
{
    frame_read_header(s, t, pos, end);
    if spec_read_header(s, pos, end) is Ok {
        lemma_header_bounds(s, pos, end);
        let ((cls, cons, tag, len, cstart), cend) = spec_read_header(s, pos, end)->Ok_0;
        assert(s.subrange(cstart, cend) =~= t.subrange(cstart, cend));
    }
}

pub proof fn frame_parse_charstr(s: Seq<u8>, t: Seq<u8>, pos: int, end: int, kind: StrKind)
    requires
        0 <= pos,
        end <= s.len(),
        end <= t.len(),
        agree(s, t, pos, end),
    ensures
        spec_parse_charstr(t, pos, end, kind) == spec_parse_charstr(s, pos, end, kind),
        spec_parse_charstr(s, pos, end, kind) matches Ok((o, np)) ==> pos < np <= end,
{
    frame_read_header(s, t, pos, end);
    if spec_read_header(s, pos, end) is Ok {
        lemma_header_bounds(s, pos, end);
        let ((cls, cons, tag, len, cstart), cend) = spec_read_header(s, pos, end)->Ok_0;
        frame_printable(s, t, cstart, cend);
        assert(s.subrange(cstart, cend) =~= t.subrange(cstart, cend));
    }
}

pub proof fn frame_parse_time(s: Seq<u8>, t: Seq<u8>, pos: int, end: int, generalized: bool)
    requires
        0 <= pos,
        end <= s.len(),
        end <= t.len(),
        agree(s, t, pos, end),
    ensures
        spec_parse_time(t, pos, end, generalized) == spec_parse_time(s, pos, end, generalized),
        spec_parse_time(s, pos, end, generalized) matches Ok((o, np)) ==> pos < np <= end,
{
    frame_read_header(s, t, pos, end);
    if spec_read_header(s, pos, end) is Ok {
        lemma_header_bounds(s, pos, end);
        let ((cls, cons, tag, len, cstart), cend) = spec_read_header(s, pos, end)->Ok_0;
        frame_content_time(s, t, cstart, cend, generalized);
    }
}

// ----------------------------------------------------------- generic ANY

pub proof fn frame_any(s: Seq<u8>, t: Seq<u8>, pos: int, end: int, depth: int)
    requires
        0 <= pos,
        end <= s.len(),
        end <= t.len(),
        agree(s, t, pos, end),
    ensures
        spec_parse_any(t, pos, end, depth) == spec_parse_any(s, pos, end, depth),
        spec_parse_any(s, pos, end, depth) matches Ok((o, np)) ==> pos < np <= end,
    decreases depth, 0int,
{
    frame_read_header(s, t, pos, end);
    if spec_read_header(s, pos, end) is Ok {
        lemma_header_bounds(s, pos, end);
        let ((cls, cons, tag, len, cstart), cend) = spec_read_header(s, pos, end)->Ok_0;
        if cons {
            if depth > 0 {
                frame_any_list(s, t, cstart, cend, depth - 1);
            }
        } else if cls == crate::obj::DerClass::Universal && tag == 1 {
            frame_parse_bool(s, t, pos, end);
        } else if cls == crate::obj::DerClass::Universal && tag == 2 {
            frame_parse_integer(s, t, pos, end);
        } else if cls == crate::obj::DerClass::Universal && tag == 3 {
            frame_parse_bitstring(s, t, pos, end);
        } else if cls == crate::obj::DerClass::Universal && tag == 4 {
            frame_parse_octetstring(s, t, pos, end);
        } else if cls == crate::obj::DerClass::Universal && tag == 6 {
            frame_parse_oid(s, t, pos, end);
        } else if cls == crate::obj::DerClass::Universal && tag == 12 {
            frame_parse_charstr(s, t, pos, end, StrKind::Utf8);
        } else if cls == crate::obj::DerClass::Universal && tag == 19 {
            frame_parse_charstr(s, t, pos, end, StrKind::Printable);
        } else if cls == crate::obj::DerClass::Universal && tag == 20 {
            frame_parse_charstr(s, t, pos, end, StrKind::T61);
        } else if cls == crate::obj::DerClass::Universal && tag == 22 {
            frame_parse_charstr(s, t, pos, end, StrKind::Ia5);
        } else if cls == crate::obj::DerClass::Universal && tag == 30 {
            frame_parse_charstr(s, t, pos, end, StrKind::Bmp);
        } else if cls == crate::obj::DerClass::Universal && tag == 23 {
            frame_parse_time(s, t, pos, end, false);
        } else if cls == crate::obj::DerClass::Universal && tag == 24 {
            frame_parse_time(s, t, pos, end, true);
        } else {
            assert(s.subrange(cstart, cend) =~= t.subrange(cstart, cend));
        }
    }
}

pub proof fn frame_any_list(s: Seq<u8>, t: Seq<u8>, pos: int, end: int, depth: int)
    requires
        0 <= pos <= end,
        end <= s.len(),
        end <= t.len(),
        agree(s, t, pos, end),
    ensures
        spec_parse_any_list(t, pos, end, depth) == spec_parse_any_list(s, pos, end, depth),
        spec_parse_any_list(s, pos, end, depth) matches Ok((v, np)) ==> pos <= np <= end,
    decreases depth, (if pos <= end { end - pos + 1int } else { 0int }),
{
    if pos < end {
        frame_any(s, t, pos, end, depth);
        if spec_parse_any(s, pos, end, depth) is Ok {
            let (o, np) = spec_parse_any(s, pos, end, depth)->Ok_0;
            if pos < np <= end {
                frame_any_list(s, t, np, end, depth);
            }
        }
    }
}

// ----------------------------------------------------------- CHOICE, OPTIONAL

pub proof fn frame_dirstring(s: Seq<u8>, t: Seq<u8>, pos: int, end: int)
    requires
        0 <= pos,
        end <= s.len(),
        end <= t.len(),
        agree(s, t, pos, end),
    ensures
        spec_parse_dirstring(t, pos, end) == spec_parse_dirstring(s, pos, end),
        spec_parse_dirstring(s, pos, end) matches Ok((o, np)) ==> pos < np <= end,
{
    frame_parse_charstr(s, t, pos, end, StrKind::Utf8);
    frame_parse_charstr(s, t, pos, end, StrKind::Printable);
    frame_parse_charstr(s, t, pos, end, StrKind::Ia5);
    frame_parse_charstr(s, t, pos, end, StrKind::T61);
    frame_parse_charstr(s, t, pos, end, StrKind::Bmp);
}

pub proof fn frame_time_choice(s: Seq<u8>, t: Seq<u8>, pos: int, end: int)
    requires
        0 <= pos,
        end <= s.len(),
        end <= t.len(),
        agree(s, t, pos, end),
    ensures
        spec_parse_time_choice(t, pos, end) == spec_parse_time_choice(s, pos, end),
        spec_parse_time_choice(s, pos, end) matches Ok((o, np)) ==> pos < np <= end,
{
    frame_parse_time(s, t, pos, end, false);
    frame_parse_time(s, t, pos, end, true);
}

pub proof fn frame_opt_bool(s: Seq<u8>, t: Seq<u8>, pos: int, end: int)
    requires
        0 <= pos <= end,
        end <= s.len(),
        end <= t.len(),
        agree(s, t, pos, end),
    ensures
        spec_opt_bool(t, pos, end) == spec_opt_bool(s, pos, end),
        spec_opt_bool(s, pos, end) matches Ok((o, np)) ==> pos <= np <= end,
{
    if pos != end {
        frame_parse_bool(s, t, pos, end);
    }
}

pub proof fn frame_opt_any(s: Seq<u8>, t: Seq<u8>, pos: int, end: int, depth: int)
    requires
        0 <= pos <= end,
        end <= s.len(),
        end <= t.len(),
        agree(s, t, pos, end),
    ensures
        spec_opt_any(t, pos, end, depth) == spec_opt_any(s, pos, end, depth),
        spec_opt_any(s, pos, end, depth) matches Ok((o, np)) ==> pos <= np <= end,
{
    if pos != end {
        frame_any(s, t, pos, end, depth);
    }
}

pub proof fn frame_opt_implicit_bits(s: Seq<u8>, t: Seq<u8>, pos: int, end: int, ctx: u64)
    requires
        0 <= pos <= end,
        end <= s.len(),
        end <= t.len(),
        agree(s, t, pos, end),
    ensures
        spec_opt_implicit_bits(t, pos, end, ctx) == spec_opt_implicit_bits(s, pos, end, ctx),
        spec_opt_implicit_bits(s, pos, end, ctx) matches Ok((o, np)) ==> pos <= np <= end,
{
    if pos != end {
        frame_parse_implicit_bits(s, t, pos, end, ctx);
    }
}

// ----------------------------------------------------------- grammar frames

pub proof fn frame_attr(s: Seq<u8>, t: Seq<u8>, pos: int, end: int, depth: int)
    requires
        0 <= pos,
        end <= s.len(),
        end <= t.len(),
        agree(s, t, pos, end),
    ensures
        spec_parse_attr(t, pos, end, depth) == spec_parse_attr(s, pos, end, depth),
        spec_parse_attr(s, pos, end, depth) matches Ok((o, np)) ==> pos < np <= end,
{
    frame_read_header(s, t, pos, end);
    if spec_read_header(s, pos, end) is Ok {
        lemma_header_bounds(s, pos, end);
        let ((cls, cons, tag, len, cstart), cend) = spec_read_header(s, pos, end)->Ok_0;
        frame_parse_oid(s, t, cstart, cend);
        if spec_parse_oid(s, cstart, cend) is Ok {
            let (o1, p1) = spec_parse_oid(s, cstart, cend)->Ok_0;
            frame_dirstring(s, t, p1, cend);
        }
    }
}

pub proof fn frame_attr_list(s: Seq<u8>, t: Seq<u8>, pos: int, end: int, depth: int)
    requires
        0 <= pos <= end,
        end <= s.len(),
        end <= t.len(),
        agree(s, t, pos, end),
    ensures
        spec_parse_attr_list(t, pos, end, depth) == spec_parse_attr_list(s, pos, end, depth),
        spec_parse_attr_list(s, pos, end, depth) matches Ok((v, np)) ==> pos <= np <= end,
    decreases end - pos,
{
    if pos < end {
        frame_attr(s, t, pos, end, depth);
        if spec_parse_attr(s, pos, end, depth) is Ok {
            let (o, np) = spec_parse_attr(s, pos, end, depth)->Ok_0;
            if pos < np <= end {
                frame_attr_list(s, t, np, end, depth);
            }
        }
    }
}

pub proof fn frame_rdn(s: Seq<u8>, t: Seq<u8>, pos: int, end: int, depth: int)
    requires
        0 <= pos,
        end <= s.len(),
        end <= t.len(),
        agree(s, t, pos, end),
    ensures
        spec_parse_rdn(t, pos, end, depth) == spec_parse_rdn(s, pos, end, depth),
        spec_parse_rdn(s, pos, end, depth) matches Ok((o, np)) ==> pos < np <= end,
{
    frame_read_header(s, t, pos, end);
    if spec_read_header(s, pos, end) is Ok {
        lemma_header_bounds(s, pos, end);
        let ((cls, cons, tag, len, cstart), cend) = spec_read_header(s, pos, end)->Ok_0;
        frame_attr_list(s, t, cstart, cend, depth - 1);
    }
}

pub proof fn frame_rdn_list(s: Seq<u8>, t: Seq<u8>, pos: int, end: int, depth: int)
    requires
        0 <= pos <= end,
        end <= s.len(),
        end <= t.len(),
        agree(s, t, pos, end),
    ensures
        spec_parse_rdn_list(t, pos, end, depth) == spec_parse_rdn_list(s, pos, end, depth),
        spec_parse_rdn_list(s, pos, end, depth) matches Ok((v, np)) ==> pos <= np <= end,
    decreases end - pos,
{
    if pos < end {
        frame_rdn(s, t, pos, end, depth);
        if spec_parse_rdn(s, pos, end, depth) is Ok {
            let (o, np) = spec_parse_rdn(s, pos, end, depth)->Ok_0;
            if pos < np <= end {
                frame_rdn_list(s, t, np, end, depth);
            }
        }
    }
}

pub proof fn frame_name(s: Seq<u8>, t: Seq<u8>, pos: int, end: int, depth: int)
    requires
        0 <= pos,
        end <= s.len(),
        end <= t.len(),
        agree(s, t, pos, end),
    ensures
        spec_parse_name(t, pos, end, depth) == spec_parse_name(s, pos, end, depth),
        spec_parse_name(s, pos, end, depth) matches Ok((o, np)) ==> pos < np <= end,
{
    frame_read_header(s, t, pos, end);
    if spec_read_header(s, pos, end) is Ok {
        lemma_header_bounds(s, pos, end);
        let ((cls, cons, tag, len, cstart), cend) = spec_read_header(s, pos, end)->Ok_0;
        frame_rdn_list(s, t, cstart, cend, depth - 1);
    }
}

pub proof fn frame_validity(s: Seq<u8>, t: Seq<u8>, pos: int, end: int, depth: int)
    requires
        0 <= pos,
        end <= s.len(),
        end <= t.len(),
        agree(s, t, pos, end),
    ensures
        spec_parse_validity(t, pos, end, depth) == spec_parse_validity(s, pos, end, depth),
        spec_parse_validity(s, pos, end, depth) matches Ok((o, np)) ==> pos < np <= end,
{
    frame_read_header(s, t, pos, end);
    if spec_read_header(s, pos, end) is Ok {
        lemma_header_bounds(s, pos, end);
        let ((cls, cons, tag, len, cstart), cend) = spec_read_header(s, pos, end)->Ok_0;
        frame_time_choice(s, t, cstart, cend);
        if spec_parse_time_choice(s, cstart, cend) is Ok {
            let (o1, p1) = spec_parse_time_choice(s, cstart, cend)->Ok_0;
            frame_time_choice(s, t, p1, cend);
        }
    }
}

pub proof fn frame_version(s: Seq<u8>, t: Seq<u8>, pos: int, end: int, depth: int)
    requires
        0 <= pos,
        end <= s.len(),
        end <= t.len(),
        agree(s, t, pos, end),
    ensures
        spec_parse_version(t, pos, end, depth) == spec_parse_version(s, pos, end, depth),
        spec_parse_version(s, pos, end, depth) matches Ok((o, np)) ==> pos < np <= end,
{
    frame_read_header(s, t, pos, end);
    if spec_read_header(s, pos, end) is Ok {
        lemma_header_bounds(s, pos, end);
        let ((cls, cons, tag, len, cstart), cend) = spec_read_header(s, pos, end)->Ok_0;
        frame_parse_integer(s, t, cstart, cend);
    }
}

pub proof fn frame_alg_id(s: Seq<u8>, t: Seq<u8>, pos: int, end: int, depth: int)
    requires
        0 <= pos,
        end <= s.len(),
        end <= t.len(),
        agree(s, t, pos, end),
    ensures
        spec_parse_alg_id(t, pos, end, depth) == spec_parse_alg_id(s, pos, end, depth),
        spec_parse_alg_id(s, pos, end, depth) matches Ok((o, np)) ==> pos < np <= end,
{
    frame_read_header(s, t, pos, end);
    if spec_read_header(s, pos, end) is Ok {
        lemma_header_bounds(s, pos, end);
        let ((cls, cons, tag, len, cstart), cend) = spec_read_header(s, pos, end)->Ok_0;
        frame_parse_oid(s, t, cstart, cend);
        if spec_parse_oid(s, cstart, cend) is Ok {
            let (o1, p1) = spec_parse_oid(s, cstart, cend)->Ok_0;
            frame_opt_any(s, t, p1, cend, depth - 1);
        }
    }
}

pub proof fn frame_spki(s: Seq<u8>, t: Seq<u8>, pos: int, end: int, depth: int)
    requires
        0 <= pos,
        end <= s.len(),
        end <= t.len(),
        agree(s, t, pos, end),
    ensures
        spec_parse_spki(t, pos, end, depth) == spec_parse_spki(s, pos, end, depth),
        spec_parse_spki(s, pos, end, depth) matches Ok((o, np)) ==> pos < np <= end,
{
    frame_read_header(s, t, pos, end);
    if spec_read_header(s, pos, end) is Ok {
        lemma_header_bounds(s, pos, end);
        let ((cls, cons, tag, len, cstart), cend) = spec_read_header(s, pos, end)->Ok_0;
        frame_alg_id(s, t, cstart, cend, depth - 1);
        if spec_parse_alg_id(s, cstart, cend, depth - 1) is Ok {
            let (o1, p1) = spec_parse_alg_id(s, cstart, cend, depth - 1)->Ok_0;
            frame_parse_bitstring(s, t, p1, cend);
        }
    }
}

pub proof fn frame_extension(s: Seq<u8>, t: Seq<u8>, pos: int, end: int, depth: int)
    requires
        0 <= pos,
        end <= s.len(),
        end <= t.len(),
        agree(s, t, pos, end),
    ensures
        spec_parse_extension(t, pos, end, depth) == spec_parse_extension(s, pos, end, depth),
        spec_parse_extension(s, pos, end, depth) matches Ok((o, np)) ==> pos < np <= end,
{
    frame_read_header(s, t, pos, end);
    if spec_read_header(s, pos, end) is Ok {
        lemma_header_bounds(s, pos, end);
        let ((cls, cons, tag, len, cstart), cend) = spec_read_header(s, pos, end)->Ok_0;
        frame_parse_oid(s, t, cstart, cend);
        if spec_parse_oid(s, cstart, cend) is Ok {
            let (o1, p1) = spec_parse_oid(s, cstart, cend)->Ok_0;
            frame_opt_bool(s, t, p1, cend);
            if spec_opt_bool(s, p1, cend) is Ok {
                let (o2, p2) = spec_opt_bool(s, p1, cend)->Ok_0;
                frame_parse_octetstring(s, t, p2, cend);
            }
        }
    }
}

pub proof fn frame_ext_list(s: Seq<u8>, t: Seq<u8>, pos: int, end: int, depth: int)
    requires
        0 <= pos <= end,
        end <= s.len(),
        end <= t.len(),
        agree(s, t, pos, end),
    ensures
        spec_parse_ext_list(t, pos, end, depth) == spec_parse_ext_list(s, pos, end, depth),
        spec_parse_ext_list(s, pos, end, depth) matches Ok((v, np)) ==> pos <= np <= end,
    decreases end - pos,
{
    if pos < end {
        frame_extension(s, t, pos, end, depth);
        if spec_parse_extension(s, pos, end, depth) is Ok {
            let (o, np) = spec_parse_extension(s, pos, end, depth)->Ok_0;
            if pos < np <= end {
                frame_ext_list(s, t, np, end, depth);
            }
        }
    }
}

pub proof fn frame_ext_seq(s: Seq<u8>, t: Seq<u8>, pos: int, end: int, depth: int)
    requires
        0 <= pos,
        end <= s.len(),
        end <= t.len(),
        agree(s, t, pos, end),
    ensures
        spec_parse_ext_seq(t, pos, end, depth) == spec_parse_ext_seq(s, pos, end, depth),
        spec_parse_ext_seq(s, pos, end, depth) matches Ok((o, np)) ==> pos < np <= end,
{
    frame_read_header(s, t, pos, end);
    if spec_read_header(s, pos, end) is Ok {
        lemma_header_bounds(s, pos, end);
        let ((cls, cons, tag, len, cstart), cend) = spec_read_header(s, pos, end)->Ok_0;
        frame_ext_list(s, t, cstart, cend, depth - 1);
    }
}

pub proof fn frame_extensions(s: Seq<u8>, t: Seq<u8>, pos: int, end: int, depth: int)
    requires
        0 <= pos,
        end <= s.len(),
        end <= t.len(),
        agree(s, t, pos, end),
    ensures
        spec_parse_extensions(t, pos, end, depth) == spec_parse_extensions(s, pos, end, depth),
        spec_parse_extensions(s, pos, end, depth) matches Ok((o, np)) ==> pos < np <= end,
{
    frame_read_header(s, t, pos, end);
    if spec_read_header(s, pos, end) is Ok {
        lemma_header_bounds(s, pos, end);
        let ((cls, cons, tag, len, cstart), cend) = spec_read_header(s, pos, end)->Ok_0;
        frame_ext_seq(s, t, cstart, cend, depth - 1);
    }
}

pub proof fn frame_opt_extensions(s: Seq<u8>, t: Seq<u8>, pos: int, end: int, depth: int)
    requires
        0 <= pos <= end,
        end <= s.len(),
        end <= t.len(),
        agree(s, t, pos, end),
    ensures
        spec_opt_extensions(t, pos, end, depth) == spec_opt_extensions(s, pos, end, depth),
        spec_opt_extensions(s, pos, end, depth) matches Ok((o, np)) ==> pos <= np <= end,
{
    if pos != end {
        frame_extensions(s, t, pos, end, depth);
    }
}

#[verifier::rlimit(100)]
#[verifier::spinoff_prover]
pub proof fn frame_tbs_front(s: Seq<u8>, t: Seq<u8>, pos: int, end: int, depth: int)
    requires
        0 <= pos <= end,
        end <= s.len(),
        end <= t.len(),
        agree(s, t, pos, end),
    ensures
        spec_parse_tbs_front(t, pos, end, depth) == spec_parse_tbs_front(s, pos, end, depth),
        spec_parse_tbs_front(s, pos, end, depth) matches Ok((os, np)) ==> pos < np <= end,
{
    reveal(spec_parse_tbs_front);
    frame_version(s, t, pos, end, depth);
    if spec_parse_version(s, pos, end, depth) is Ok {
        let (o1, p1) = spec_parse_version(s, pos, end, depth)->Ok_0;
        frame_parse_integer(s, t, p1, end);
        if spec_parse_integer(s, p1, end) is Ok {
            let (o2, p2) = spec_parse_integer(s, p1, end)->Ok_0;
            frame_alg_id(s, t, p2, end, depth);
            if spec_parse_alg_id(s, p2, end, depth) is Ok {
                let (o3, p3) = spec_parse_alg_id(s, p2, end, depth)->Ok_0;
                frame_name(s, t, p3, end, depth);
                if spec_parse_name(s, p3, end, depth) is Ok {
                    let (o4, p4) = spec_parse_name(s, p3, end, depth)->Ok_0;
                    frame_validity(s, t, p4, end, depth);
                }
            }
        }
    }
}

#[verifier::rlimit(100)]
#[verifier::spinoff_prover]
pub proof fn frame_tbs_back(s: Seq<u8>, t: Seq<u8>, pos: int, end: int, depth: int)
    requires
        0 <= pos <= end,
        end <= s.len(),
        end <= t.len(),
        agree(s, t, pos, end),
    ensures
        spec_parse_tbs_back(t, pos, end, depth) == spec_parse_tbs_back(s, pos, end, depth),
        spec_parse_tbs_back(s, pos, end, depth) matches Ok((os, np)) ==> pos < np <= end,
{
    reveal(spec_parse_tbs_back);
    frame_name(s, t, pos, end, depth);
    if spec_parse_name(s, pos, end, depth) is Ok {
        let (o6, p6) = spec_parse_name(s, pos, end, depth)->Ok_0;
        frame_spki(s, t, p6, end, depth);
        if spec_parse_spki(s, p6, end, depth) is Ok {
            let (o7, p7) = spec_parse_spki(s, p6, end, depth)->Ok_0;
            frame_opt_implicit_bits(s, t, p7, end, 1);
            if spec_opt_implicit_bits(s, p7, end, 1) is Ok {
                let (o8, p8) = spec_opt_implicit_bits(s, p7, end, 1)->Ok_0;
                frame_opt_implicit_bits(s, t, p8, end, 2);
                if spec_opt_implicit_bits(s, p8, end, 2) is Ok {
                    let (o9, p9) = spec_opt_implicit_bits(s, p8, end, 2)->Ok_0;
                    frame_opt_extensions(s, t, p9, end, depth);
                }
            }
        }
    }
}

#[verifier::rlimit(100)]
#[verifier::spinoff_prover]
pub proof fn frame_tbs(s: Seq<u8>, t: Seq<u8>, pos: int, end: int, depth: int)
    requires
        0 <= pos,
        end <= s.len(),
        end <= t.len(),
        agree(s, t, pos, end),
    ensures
        spec_parse_tbs(t, pos, end, depth) == spec_parse_tbs(s, pos, end, depth),
        spec_parse_tbs(s, pos, end, depth) matches Ok((o, np)) ==> pos < np <= end,
{
    frame_read_header(s, t, pos, end);
    if spec_read_header(s, pos, end) is Ok {
        lemma_header_bounds(s, pos, end);
        let ((cls, cons, tag, len, cstart), cend) = spec_read_header(s, pos, end)->Ok_0;
        frame_tbs_front(s, t, cstart, cend, depth - 1);
        if spec_parse_tbs_front(s, cstart, cend, depth - 1) is Ok {
            let (os, p5) = spec_parse_tbs_front(s, cstart, cend, depth - 1)->Ok_0;
            frame_tbs_back(s, t, p5, cend, depth - 1);
        }
    }
}

#[verifier::rlimit(100)]
#[verifier::spinoff_prover]
pub proof fn frame_cert(s: Seq<u8>, t: Seq<u8>, pos: int, end: int, depth: int)
    requires
        0 <= pos,
        end <= s.len(),
        end <= t.len(),
        agree(s, t, pos, end),
    ensures
        spec_parse_cert(t, pos, end, depth) == spec_parse_cert(s, pos, end, depth),
        spec_parse_cert(s, pos, end, depth) matches Ok((c, np)) ==> pos < np <= end,
{
    frame_read_header(s, t, pos, end);
    if spec_read_header(s, pos, end) is Ok {
        lemma_header_bounds(s, pos, end);
        let ((cls, cons, tag, len, cstart), cend) = spec_read_header(s, pos, end)->Ok_0;
        frame_tbs(s, t, cstart, cend, depth - 1);
        if spec_parse_tbs(s, cstart, cend, depth - 1) is Ok {
            let (o1, p1) = spec_parse_tbs(s, cstart, cend, depth - 1)->Ok_0;
            frame_alg_id(s, t, p1, cend, depth - 1);
            if spec_parse_alg_id(s, p1, cend, depth - 1) is Ok {
                let (o2, p2) = spec_parse_alg_id(s, p1, cend, depth - 1)->Ok_0;
                frame_parse_bitstring(s, t, p2, cend);
            }
        }
    }
}

/// A successful certificate parse depends only on the bytes it consumed: the
/// same result comes from any buffer that carries those bytes at the same
/// positions, under any window that still covers them.
#[verifier::rlimit(100)]
#[verifier::spinoff_prover]
pub proof fn frame_cert_window(s: Seq<u8>, t: Seq<u8>, pos: int, end: int, end2: int, depth: int)
    requires
        0 <= pos,
        end <= s.len(),
        spec_parse_cert(s, pos, end, depth) is Ok,
        spec_parse_cert(s, pos, end, depth)->Ok_0.1 <= end2 <= t.len(),
        agree(s, t, pos, spec_parse_cert(s, pos, end, depth)->Ok_0.1),
    ensures
        spec_parse_cert(t, pos, end2, depth) == spec_parse_cert(s, pos, end, depth),
{
    let np = spec_parse_cert(s, pos, end, depth)->Ok_0.1;
    lemma_header_bounds(s, pos, end);
    let ((cls, cons, tag, len, cstart), cend) = spec_read_header(s, pos, end)->Ok_0;
    assert(np == cend);
    frame_read_header_window(s, t, pos, end, end2);
    frame_tbs(s, t, cstart, cend, depth - 1);
    let (o1, p1) = spec_parse_tbs(s, cstart, cend, depth - 1)->Ok_0;
    frame_alg_id(s, t, p1, cend, depth - 1);
    let (o2, p2) = spec_parse_alg_id(s, p1, cend, depth - 1)->Ok_0;
    frame_parse_bitstring(s, t, p2, cend);
}

/// Idempotence: reparsing exactly the byte range a successful top-level
/// parse consumed yields the identical three fields, consuming all of it.
pub proof fn lemma_x509_idempotent(s: Seq<u8>, depth: int)
    requires
        spec_parse_cert(s, 0, s.len() as int, depth) is Ok,
    ensures
        ({
            let n = spec_parse_cert(s, 0, s.len() as int, depth)->Ok_0.1;
            spec_parse_cert(s.take(n), 0, n, depth) == spec_parse_cert(
                s,
                0,
                s.len() as int,
                depth,
            )
        }),
{
    let n = spec_parse_cert(s, 0, s.len() as int, depth)->Ok_0.1;
    lemma_header_bounds(s, 0, s.len() as int);
    let tt = s.take(n);
    assert(agree(s, tt, 0, n));
    frame_cert_window(s, tt, 0, s.len() as int, n, depth);
}

} // verus!
