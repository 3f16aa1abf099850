//! Laws of the decoder, stated and proved over the mathematical mirrors:
//! what the length grammar accepts, that OPTIONAL never moves the cursor on
//! a recoverable mismatch, and that a SEQUENCE's fields consume its declared
//! content exactly.

use vstd::prelude::*;
use crate::obj::{ErrorKind, SpecDer, lemma_pow256_mono, pow256, spec_absent};
use crate::tlv::{spec_len_bytes, spec_read_len, spec_read_header, LEN_ACC_LIMIT};
use crate::content::{spec_parse_bool, spec_parse_bitstring, spec_parse_implicit_bits};
use crate::any::{spec_parse_any, spec_parse_any_list};
use crate::x509::{
    spec_opt_any, spec_opt_bool, spec_opt_extensions, spec_opt_implicit_bits, spec_parse_alg_id,
    spec_parse_attr, spec_parse_attr_list, spec_parse_cert, spec_parse_ext_list,
    spec_parse_extension, spec_parse_extensions, spec_parse_rdn, spec_parse_rdn_list,
    spec_parse_tbs, spec_parse_time_choice, spec_parse_validity,
};

verus! {

// ----------------------------------------------------------- length octets

/// Every single-byte short-form length octet decodes to its own value:
/// a first length byte below 128 yields exactly that length and consumes
/// exactly one byte.
pub proof fn lemma_short_form_length(s: Seq<u8>, pos: int, end: int)
    requires
        0 <= pos < end <= s.len(),
        s[pos] < 128,
    ensures
        spec_read_len(s, pos, end) == Ok::<(int, int), (ErrorKind, int)>(
            (s[pos] as int, pos + 1),
        ),
{
}

/// The indefinite-length octet 0x80 is rejected as `InvalidLength`.
pub proof fn lemma_indefinite_length_rejected(s: Seq<u8>, pos: int, end: int)
    requires
        0 <= pos < end <= s.len(),
        s[pos] == 0x80,
    ensures
        spec_read_len(s, pos, end) == Err::<(int, int), (ErrorKind, int)>(
            (ErrorKind::InvalidLength, pos),
        ),
{
}

/// A long-form length whose first length octet is zero is not minimal
/// (the same value fits in fewer octets) and is rejected.
pub proof fn lemma_leading_zero_length_rejected(s: Seq<u8>, pos: int, end: int)
    requires
        0 <= pos < end <= s.len(),
        s[pos] > 0x80,
        pos + 1 + (s[pos] - 0x80) <= end,
        s[pos + 1] == 0,
    ensures
        spec_read_len(s, pos, end) == Err::<(int, int), (ErrorKind, int)>(
            (ErrorKind::InvalidLength, pos),
        ),
{
}

/// A one-octet long form carrying a value below 128 is not minimal (the
/// short form exists) and is rejected.
pub proof fn lemma_long_form_small_value_rejected(s: Seq<u8>, pos: int, end: int)
    requires
        0 <= pos < end <= s.len(),
        s[pos] == 0x81,
        pos + 2 <= end,
        s[pos + 1] < 128,
    ensures
        spec_read_len(s, pos, end) == Err::<(int, int), (ErrorKind, int)>(
            (ErrorKind::InvalidLength, pos),
        ),
{
}

// ----------------------------------------------------------- OPTIONAL

/// OPTIONAL BOOLEAN: a tag mismatch in place yields the absent marker and
/// leaves the cursor unchanged, so a subsequent parser starts at the same
/// position.
pub proof fn lemma_opt_bool_mismatch(s: Seq<u8>, pos: int, end: int)
    requires
        pos != end,
        spec_parse_bool(s, pos, end) == Err::<(SpecDer, int), (ErrorKind, int)>(
            (ErrorKind::UnexpectedTag, pos),
        ),
    ensures
        spec_opt_bool(s, pos, end) == Ok::<(SpecDer, int), (ErrorKind, int)>(
            (spec_absent(), pos),
        ),
{
}

/// OPTIONAL ANY: a tag mismatch in place yields the absent marker and leaves
/// the cursor unchanged.
pub proof fn lemma_opt_any_mismatch(s: Seq<u8>, pos: int, end: int, depth: int)
    requires
        pos != end,
        spec_parse_any(s, pos, end, depth) == Err::<(SpecDer, int), (ErrorKind, int)>(
            (ErrorKind::UnexpectedTag, pos),
        ),
    ensures
        spec_opt_any(s, pos, end, depth) == Ok::<(SpecDer, int), (ErrorKind, int)>(
            (spec_absent(), pos),
        ),
{
}

/// OPTIONAL IMPLICIT-tagged BIT STRING: a tag mismatch in place yields the
/// absent marker and leaves the cursor unchanged.
pub proof fn lemma_opt_implicit_bits_mismatch(s: Seq<u8>, pos: int, end: int, ctx: u64)
    requires
        pos != end,
        spec_parse_implicit_bits(s, pos, end, ctx) == Err::<(SpecDer, int), (ErrorKind, int)>(
            (ErrorKind::UnexpectedTag, pos),
        ),
    ensures
        spec_opt_implicit_bits(s, pos, end, ctx) == Ok::<(SpecDer, int), (ErrorKind, int)>(
            (spec_absent(), pos),
        ),
{
}

/// OPTIONAL Extensions: a tag mismatch in place yields the absent marker and
/// leaves the cursor unchanged.
pub proof fn lemma_opt_extensions_mismatch(s: Seq<u8>, pos: int, end: int, depth: int)
    requires
        pos != end,
        spec_parse_extensions(s, pos, end, depth) == Err::<(SpecDer, int), (ErrorKind, int)>(
            (ErrorKind::UnexpectedTag, pos),
        ),
    ensures
        spec_opt_extensions(s, pos, end, depth) == Ok::<(SpecDer, int), (ErrorKind, int)>(
            (spec_absent(), pos),
        ),
{
}

/// An OPTIONAL never recovers from anything but the mismatch in place: every
/// other failure of the attempted parser propagates unchanged.
pub proof fn lemma_opt_bool_propagates(s: Seq<u8>, pos: int, end: int, k: ErrorKind, off: int)
    requires
        pos != end,
        spec_parse_bool(s, pos, end) == Err::<(SpecDer, int), (ErrorKind, int)>((k, off)),
        !(k == ErrorKind::UnexpectedTag && off == pos),
    ensures
        spec_opt_bool(s, pos, end) == Err::<(SpecDer, int), (ErrorKind, int)>((k, off)),
{
}

// ------------------------------------------------- non-lossy consumption

/// On a successful Validity parse, the two Time fields are contiguous, the
/// second ends exactly at the content end, and together they consume exactly
/// the SEQUENCE's declared content length.
pub proof fn lemma_validity_fields_partition(s: Seq<u8>, pos: int, end: int, depth: int)
    requires
        spec_parse_validity(s, pos, end, depth) is Ok,
    ensures
        spec_read_header(s, pos, end) is Ok,
        ({
            let ((cls, cons, tag, len, cstart), cend) = spec_read_header(s, pos, end)->Ok_0;
            &&& spec_parse_time_choice(s, cstart, cend) is Ok
            &&& {
                let (o1, p1) = spec_parse_time_choice(s, cstart, cend)->Ok_0;
                &&& spec_parse_time_choice(s, p1, cend) is Ok
                &&& {
                    let (o2, p2) = spec_parse_time_choice(s, p1, cend)->Ok_0;
                    &&& p2 == cend
                    &&& (p1 - cstart) + (p2 - p1) == len
                }
            }
        }),
{
}

/// On a successful Certificate parse, the three field parsers run one after
/// the other, the last ends exactly at the content end, and together they
/// consume exactly the outer SEQUENCE's declared content length: no gap, no
/// overrun.
pub proof fn lemma_cert_fields_partition(s: Seq<u8>, pos: int, end: int, depth: int)
    requires
        spec_parse_cert(s, pos, end, depth) is Ok,
    ensures
        spec_read_header(s, pos, end) is Ok,
        ({
            let ((cls, cons, tag, len, cstart), cend) = spec_read_header(s, pos, end)->Ok_0;
            &&& spec_parse_tbs(s, cstart, cend, depth - 1) is Ok
            &&& {
                let (o1, p1) = spec_parse_tbs(s, cstart, cend, depth - 1)->Ok_0;
                &&& spec_parse_alg_id(s, p1, cend, depth - 1) is Ok
                &&& {
                    let (o2, p2) = spec_parse_alg_id(s, p1, cend, depth - 1)->Ok_0;
                    &&& spec_parse_bitstring(s, p2, cend) is Ok
                    &&& {
                        let (o3, p3) = spec_parse_bitstring(s, p2, cend)->Ok_0;
                        &&& p3 == cend
                        &&& (p1 - cstart) + (p2 - p1) + (p3 - p2) == len
                    }
                }
            }
        }),
{
}

// ------------------------------------------------- length round trip

/// Big-endian octets of a length value, most significant first, without a
/// leading zero octet; empty for zero.
pub open spec fn spec_be_bytes(l: nat) -> Seq<u8>
    decreases l,
{
    if l == 0 {
        Seq::empty()
    } else {
        spec_be_bytes(l / 256).push((l % 256) as u8)
    }
}

/// The minimal DER encoding of a length: the short form below 128, else the
/// count octet and the value's big-endian octets.
pub open spec fn spec_encode_len(l: nat) -> Seq<u8> {
    if l < 128 {
        seq![l as u8]
    } else {
        seq![(128 + spec_be_bytes(l).len()) as u8] + spec_be_bytes(l)
    }
}

proof fn lemma_be_bytes_props(l: nat)
    ensures
        (l == 0) <==> (spec_be_bytes(l).len() == 0),
        l >= 1 ==> spec_be_bytes(l)[0] as int != 0,
        spec_be_bytes(l).len() == 1 ==> spec_be_bytes(l)[0] as int == l,
        l >= 1 ==> pow256((spec_be_bytes(l).len() - 1) as nat) <= l,
    decreases l,
{
    if l > 0 {
        lemma_be_bytes_props(l / 256);
        if l / 256 == 0 {
            assert(spec_be_bytes(l) =~= seq![(l % 256) as u8]);
        } else {
            let n = spec_be_bytes(l).len();
            assert(spec_be_bytes(l)[0] == spec_be_bytes(l / 256)[0]);
            assert(pow256((n - 1) as nat) == 256 * pow256((n - 2) as nat));
            assert(256 * pow256((n - 2) as nat) <= 256 * (l / 256)) by (nonlinear_arith)
                requires pow256((n - 2) as nat) <= l / 256,
            ;
            assert(256 * (l / 256) <= l) by (nonlinear_arith)
                requires l >= 0,
            ;
        }
    }
}

proof fn lemma_len_bytes_snoc(s: Seq<u8>, pos: int, count: int, acc: int, e: int)
    requires
        count >= 0,
        acc >= 0,
        spec_len_bytes(s, pos, count, acc, e) is Ok,
        spec_len_bytes(s, pos, count, acc, e)->Ok_0.0 <= LEN_ACC_LIMIT as int,
    ensures
        spec_len_bytes(s, pos, count + 1, acc, e) == Ok::<(int, int), (ErrorKind, int)>(
            (
                spec_len_bytes(s, pos, count, acc, e)->Ok_0.0 * 256 + s[pos + count],
                pos + count + 1,
            ),
        ),
    decreases count,
{
    if count > 0 {
        lemma_len_bytes_snoc(s, pos + 1, count - 1, acc * 256 + s[pos], e);
    } else {
        assert(spec_len_bytes(s, pos + 1, 0, acc * 256 + s[pos], e) == Ok::<
            (int, int),
            (ErrorKind, int),
        >((acc * 256 + s[pos], pos + 1)));
    }
}

proof fn lemma_read_back_be(s: Seq<u8>, pos: int, l: nat, e: int)
    requires
        1 <= l <= usize::MAX as nat,
        0 <= pos,
        pos + spec_be_bytes(l).len() <= s.len(),
        s.subrange(pos, pos + spec_be_bytes(l).len() as int) == spec_be_bytes(l),
    ensures
        spec_len_bytes(s, pos, spec_be_bytes(l).len() as int, 0, e) == Ok::<
            (int, int),
            (ErrorKind, int),
        >((l as int, pos + spec_be_bytes(l).len())),
    decreases l,
{
    let n = spec_be_bytes(l).len() as int;
    assert(l > 0);
    lemma_be_bytes_props(l);
    if l / 256 == 0 {
        assert(spec_be_bytes(0nat).len() == 0);
        assert(n == 1);
        assert(s.subrange(pos, pos + 1)[0] == spec_be_bytes(l)[0]);
        assert(s.subrange(pos, pos + 1)[0] == s[pos]);
        assert(s[pos] as int == l);
        assert(spec_len_bytes(s, pos + 1, 0, s[pos] as int, e) == Ok::<
            (int, int),
            (ErrorKind, int),
        >((s[pos] as int, pos + 1)));
    } else {
        assert(spec_be_bytes(l / 256) =~= spec_be_bytes(l).drop_last());
        assert(s.subrange(pos, pos + n - 1) =~= spec_be_bytes(l / 256)) by {
            assert forall|i: int| 0 <= i < n - 1 implies #[trigger] s.subrange(pos, pos + n - 1)[i]
                == spec_be_bytes(l / 256)[i] by {
                assert(s.subrange(pos, pos + n)[i] == spec_be_bytes(l)[i]);
            }
        }
        lemma_read_back_be(s, pos, l / 256, e);
        assert(usize::MAX as int == 0xFFFF_FFFF || usize::MAX as int == 0xFFFF_FFFF_FFFF_FFFF);
        assert(l / 256 <= usize::MAX as int / 256) by (nonlinear_arith)
            requires 0 <= l <= usize::MAX as nat,
        ;
        assert(l as int / 256 <= LEN_ACC_LIMIT as int);
        lemma_len_bytes_snoc(s, pos, n - 1, 0, e);
        assert(s.subrange(pos, pos + n)[n - 1] == spec_be_bytes(l)[n - 1]);
        assert(s[pos + n - 1] as int == l % 256);
        assert((l as int / 256) * 256 + l as int % 256 == l as int) by (nonlinear_arith);
    }
}

/// For every length of 128 or more that the machine can represent, the
/// minimal long-form encoding decodes back to exactly that length and
/// consumes exactly its own octets.
pub proof fn lemma_long_form_round_trip(s: Seq<u8>, pos: int, end: int, l: int)
    requires
        128 <= l <= usize::MAX as int,
        0 <= pos,
        pos + spec_encode_len(l as nat).len() <= end <= s.len(),
        s.subrange(pos, pos + spec_encode_len(l as nat).len() as int) == spec_encode_len(l as nat),
    ensures
        spec_read_len(s, pos, end) == Ok::<(int, int), (ErrorKind, int)>(
            (l, pos + spec_encode_len(l as nat).len()),
        ),
{
    let enc = spec_encode_len(l as nat);
    let be = spec_be_bytes(l as nat);
    let n = be.len() as int;
    lemma_be_bytes_props(l as nat);
    assert(n >= 1);
    // the value needs at most eight octets on this machine
    assert(pow256(0) == 1);
    assert(pow256(1) == 256);
    assert(pow256(2) == 65536);
    assert(pow256(3) == 16777216);
    assert(pow256(4) == 4294967296);
    assert(pow256(5) == 1099511627776);
    assert(pow256(6) == 281474976710656);
    assert(pow256(7) == 72057594037927936);
    assert(pow256(8) == 18446744073709551616);
    assert(usize::MAX as int == 0xFFFF_FFFF || usize::MAX as int == 0xFFFF_FFFF_FFFF_FFFF);
    if n > 8 {
        lemma_pow256_mono(8, (n - 1) as nat);
        assert(false);
    }
    assert(enc == seq![(128 + be.len()) as u8] + be);
    assert(enc.len() == 1 + n);
    assert(enc[0] == (128 + be.len()) as u8);
    assert(128 + n <= 255);
    assert(s.subrange(pos, pos + enc.len() as int) == enc);
    assert(s.subrange(pos, pos + 1 + n) == s.subrange(pos, pos + enc.len() as int));
    assert(s.subrange(pos, pos + 1 + n)[0] == enc[0]);
    assert(s.subrange(pos, pos + 1 + n)[0] == s[pos]);
    assert((128 + be.len()) as u8 as int == 128 + n);
    assert(s[pos] as int == 128 + n);
    assert forall|i: int| 0 <= i < n implies #[trigger] s.subrange(pos + 1, pos + 1 + n)[i]
        == be[i] by {
        assert(s.subrange(pos + 1, pos + 1 + n)[i] == s[pos + 1 + i]);
        assert(s.subrange(pos, pos + 1 + n)[i + 1] == s[pos + 1 + i]);
        assert(s.subrange(pos, pos + 1 + n)[i + 1] == enc[i + 1]);
        assert(enc[i + 1] == (seq![(128 + be.len()) as u8] + be)[i + 1]);
        assert(enc[i + 1] == be[i]);
    }
    assert(s.subrange(pos + 1, pos + 1 + n) =~= be);
    assert(s[pos + 1] == be[0]);
    if n == 1 {
        assert(s[pos + 1] as int == l);
    }
    lemma_read_back_be(s, pos + 1, l as nat, pos);
}

// ------------------------------------------------- generic non-lossy lists

/// The generic constructed-content parser consumes its window exactly: on
/// success the elements end precisely at the content end, with no gap and no
/// overrun.
pub proof fn lemma_any_list_exact(s: Seq<u8>, pos: int, end: int, depth: int)
    requires
        pos <= end,
        spec_parse_any_list(s, pos, end, depth) is Ok,
    ensures
        spec_parse_any_list(s, pos, end, depth)->Ok_0.1 == end,
    decreases end - pos,
{
    if pos < end {
        let (o, np) = spec_parse_any(s, pos, end, depth)->Ok_0;
        if spec_parse_any(s, pos, end, depth) is Ok && pos < np <= end {
            lemma_any_list_exact(s, np, end, depth);
        }
    }
}

/// SET OF AttributeTypeAndValue consumes its window exactly.
pub proof fn lemma_attr_list_exact(s: Seq<u8>, pos: int, end: int, depth: int)
    requires
        pos <= end,
        spec_parse_attr_list(s, pos, end, depth) is Ok,
    ensures
        spec_parse_attr_list(s, pos, end, depth)->Ok_0.1 == end,
    decreases end - pos,
{
    if pos < end {
        let (o, np) = spec_parse_attr(s, pos, end, depth)->Ok_0;
        if spec_parse_attr(s, pos, end, depth) is Ok && pos < np <= end {
            lemma_attr_list_exact(s, np, end, depth);
        }
    }
}

/// SEQUENCE OF RelativeDistinguishedName consumes its window exactly.
pub proof fn lemma_rdn_list_exact(s: Seq<u8>, pos: int, end: int, depth: int)
    requires
        pos <= end,
        spec_parse_rdn_list(s, pos, end, depth) is Ok,
    ensures
        spec_parse_rdn_list(s, pos, end, depth)->Ok_0.1 == end,
    decreases end - pos,
{
    if pos < end {
        let (o, np) = spec_parse_rdn(s, pos, end, depth)->Ok_0;
        if spec_parse_rdn(s, pos, end, depth) is Ok && pos < np <= end {
            lemma_rdn_list_exact(s, np, end, depth);
        }
    }
}

/// SEQUENCE OF Extension consumes its window exactly.
pub proof fn lemma_ext_list_exact(s: Seq<u8>, pos: int, end: int, depth: int)
    requires
        pos <= end,
        spec_parse_ext_list(s, pos, end, depth) is Ok,
    ensures
        spec_parse_ext_list(s, pos, end, depth)->Ok_0.1 == end,
    decreases end - pos,
{
    if pos < end {
        let (o, np) = spec_parse_extension(s, pos, end, depth)->Ok_0;
        if spec_parse_extension(s, pos, end, depth) is Ok && pos < np <= end {
            lemma_ext_list_exact(s, np, end, depth);
        }
    }
}

} // verus!
