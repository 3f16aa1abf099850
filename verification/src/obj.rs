//! The decoded tree: `DerObject` nodes, their content variants, and the
//! typed failures every decoder returns.

use vstd::prelude::*;
use vstd::string::StringExecFns;

verus! {

/// Maximum nesting depth of constructed elements the decoders accept before
/// failing with `DepthExceeded`.  Constructed nesting is grammatically
/// unbounded, so adversarial input must not be allowed to exhaust the stack.
pub const MAX_DEPTH: usize = 50;

/// Tag class of a DER element: the top two bits of the identifier octet.
#[derive(Debug, Clone, Copy, PartialEq, Eq, Structural)]
pub enum DerClass {
    Universal,
    Application,
    ContextSpecific,
    Private,
}

/// Which ASN.1 character-string type a string value was declared as.
#[derive(Debug, Clone, Copy, PartialEq, Eq, Structural)]
pub enum StrKind {
    Utf8,
    Printable,
    Ia5,
    T61,
    Bmp,
}

/// Calendar fields decoded from a UTCTime or GeneralizedTime value.
#[derive(Debug, Clone, Copy, PartialEq, Eq, Structural)]
pub struct TimeValue {
    /// True for GeneralizedTime, false for UTCTime.
    pub generalized: bool,
    pub year: u16,
    pub month: u8,
    pub day: u8,
    pub hour: u8,
    pub minute: u8,
    pub second: u8,
    /// Offset from UTC in minutes; 0 for the `Z` suffix.
    pub offset_minutes: i32,
}

/// The kind of a decoding failure.
#[derive(Debug, Clone, Copy, PartialEq, Eq, Structural)]
pub enum ErrorKind {
    /// Fewer bytes remain than the tag, length, or declared content require.
    TruncatedInput,
    /// Indefinite length, non-minimal length encoding, or length overflow.
    InvalidLength,
    /// Tag class or number mismatch against a mandatory grammar position.
    UnexpectedTag,
    /// Content violates the canonical grammar of its declared type.
    InvalidEncoding,
    /// Unconsumed bytes remain after a composite parse completed.
    TrailingData,
    /// A fixed-arity SEQUENCE produced the wrong number of elements.
    SequenceArity,
    /// The recursion guard tripped.
    DepthExceeded,
}

/// A decoding failure: its kind and the byte offset at which it occurred.
#[derive(Debug, Clone, Copy, PartialEq, Eq, Structural)]
pub struct X509Error {
    pub kind: ErrorKind,
    pub offset: usize,
}

/// The decoded content of a DER element: one closed variant per content kind.
#[derive(Debug, PartialEq, Eq)]
pub enum DerContent {
    Boolean(bool),
    /// Raw big-endian two's-complement bytes, minimally encoded.
    Integer(Vec<u8>),
    /// Unused-bit count of the final octet, then the bit data.
    BitString(u8, Vec<u8>),
    OctetString(Vec<u8>),
    Null,
    /// Arcs of an OBJECT IDENTIFIER, first two arcs already split.
    Oid(Vec<u64>),
    /// Raw bytes of a character-string value plus its declared type.
    CharString(StrKind, Vec<u8>),
    Time(TimeValue),
    /// Primitive content of a type the decoder assigns no finer shape.
    Raw(Vec<u8>),
    /// Marker for an OPTIONAL field that was not present.
    Absent,
    /// Ordered children of a constructed element.
    Constructed(Vec<DerObject>),
}

/// One node of the decoded DER tree.
#[derive(Debug, PartialEq, Eq)]
pub struct DerObject {
    pub class: DerClass,
    pub constructed: bool,
    pub tag: u64,
    /// Exact number of content bytes the element declared and consumed.
    pub length: usize,
    pub content: DerContent,
}

/// Mathematical mirror of `DerContent`.
pub enum SpecContent {
    Boolean(bool),
    Integer(Seq<u8>),
    BitString(u8, Seq<u8>),
    OctetString(Seq<u8>),
    Null,
    Oid(Seq<u64>),
    CharString(StrKind, Seq<u8>),
    Time(TimeValue),
    Raw(Seq<u8>),
    Absent,
    Constructed(Seq<SpecDer>),
}

/// Mathematical mirror of `DerObject`.
pub struct SpecDer {
    pub class: DerClass,
    pub constructed: bool,
    pub tag: u64,
    pub length: nat,
    pub content: SpecContent,
}

/// View of a sequence of nodes, element by element.
pub open spec fn view_list(s: Seq<DerObject>) -> Seq<SpecDer>
    decreases s,
{
    if s.len() == 0 {
        Seq::empty()
    } else {
        seq![view_obj(s[0])] + view_list(s.subrange(1, s.len() as int))
    }
}

/// View of one content variant.
pub open spec fn view_content(c: DerContent) -> SpecContent
    decreases c,
{
    match c {
        DerContent::Boolean(b) => SpecContent::Boolean(b),
        DerContent::Integer(v) => SpecContent::Integer(v@),
        DerContent::BitString(u, v) => SpecContent::BitString(u, v@),
        DerContent::OctetString(v) => SpecContent::OctetString(v@),
        DerContent::Null => SpecContent::Null,
        DerContent::Oid(v) => SpecContent::Oid(v@),
        DerContent::CharString(k, v) => SpecContent::CharString(k, v@),
        DerContent::Time(t) => SpecContent::Time(t),
        DerContent::Raw(v) => SpecContent::Raw(v@),
        DerContent::Absent => SpecContent::Absent,
        DerContent::Constructed(cs) => SpecContent::Constructed(view_list(cs@)),
    }
}

/// View of one node, recursing through constructed children.
pub open spec fn view_obj(o: DerObject) -> SpecDer
    decreases o,
{
    SpecDer {
        class: o.class,
        constructed: o.constructed,
        tag: o.tag,
        length: o.length as nat,
        content: view_content(o.content),
    }
}

impl View for DerObject {
    type V = SpecDer;

    open spec fn view(&self) -> SpecDer {
        view_obj(*self)
    }
}

/// The view of a node list has the same length and views each node in place.
pub proof fn lemma_view_list_props(s: Seq<DerObject>)
    ensures
        view_list(s).len() == s.len(),
        forall|i: int| 0 <= i < s.len() ==> view_list(s)[i] == view_obj(s[i]),
    decreases s,
{
    if s.len() != 0 {
        lemma_view_list_props(s.subrange(1, s.len() as int));
    }
}

/// The view of the absent-field placeholder.
pub open spec fn spec_absent() -> SpecDer {
    SpecDer {
        class: DerClass::Universal,
        constructed: false,
        tag: 0,
        length: 0,
        content: SpecContent::Absent,
    }
}

impl DerObject {
    /// Placeholder node recording that an OPTIONAL field was not present.
    pub fn absent() -> (r: DerObject)
        ensures
            r@ == spec_absent(),
    {
        DerObject {
            class: DerClass::Universal,
            constructed: false,
            tag: 0,
            length: 0,
            content: DerContent::Absent,
        }
    }
}

// --------------------------------------------------------- INTEGER value

/// Powers of 256.
pub open spec fn pow256(n: nat) -> int
    decreases n,
{
    if n == 0 {
        1
    } else {
        256 * pow256((n - 1) as nat)
    }
}

/// The big-endian value of a byte string.
pub open spec fn spec_be_value(b: Seq<u8>) -> int
    decreases b.len(),
{
    if b.len() == 0 {
        0
    } else {
        spec_be_value(b.drop_last()) * 256 + b.last()
    }
}

pub proof fn lemma_pow256_pos(n: nat)
    ensures
        pow256(n) >= 1,
    decreases n,
{
    if n > 0 {
        lemma_pow256_pos((n - 1) as nat);
    }
}

pub proof fn lemma_pow256_mono(a: nat, b: nat)
    requires
        a <= b,
    ensures
        1 <= pow256(a) <= pow256(b),
    decreases b,
{
    lemma_pow256_pos(a);
    if a < b {
        lemma_pow256_mono(a, (b - 1) as nat);
    }
}

/// A string of `n` bytes denotes a value below `256^n`.
pub proof fn lemma_be_value_bound(b: Seq<u8>)
    ensures
        0 <= spec_be_value(b) < pow256(b.len()),
    decreases b.len(),
{
    if b.len() != 0 {
        lemma_be_value_bound(b.drop_last());
        assert(spec_be_value(b.drop_last()) * 256 + 255 < pow256(b.len())) by (nonlinear_arith)
            requires
                0 <= spec_be_value(b.drop_last()) < pow256((b.len() - 1) as nat),
                pow256(b.len()) == 256 * pow256((b.len() - 1) as nat),
        ;
    }
}

impl DerObject {
    /// The numeric value of an INTEGER node, when it is non-negative and
    /// fits a `u64`: content of one to eight bytes with the sign bit clear.
    pub fn as_u64(&self) -> (r: Option<u64>)
        ensures
            match r {
                Some(v) => (self@.content matches SpecContent::Integer(b) && 1 <= b.len() <= 8
                    && b[0] < 128 && v as int == spec_be_value(b)),
                None => !(self@.content matches SpecContent::Integer(b) && 1 <= b.len() <= 8
                    && b[0] < 128),
            },
    {
        match &self.content {
            DerContent::Integer(bs) => {
                if bs.len() >= 1 && bs.len() <= 8 && bs[0] < 128 {
                    let mut acc: u64 = 0;
                    let mut i: usize = 0;
                    while i < bs.len()
                        invariant
                            i <= bs@.len() <= 8,
                            acc as int == spec_be_value(bs@.take(i as int)),
                        decreases bs@.len() - i,
                    {
                        proof {
                            lemma_be_value_bound(bs@.take(i as int));
                            lemma_pow256_mono(i as nat, 7);
                            assert(pow256(0) == 1);
                            assert(pow256(1) == 256);
                            assert(pow256(2) == 65536);
                            assert(pow256(3) == 16777216);
                            assert(pow256(4) == 4294967296);
                            assert(pow256(5) == 1099511627776);
                            assert(pow256(6) == 281474976710656);
                            assert(pow256(7) == 72057594037927936);
                            assert(bs@.take(i + 1 as int).drop_last() =~= bs@.take(i as int));
                            assert(bs@.take(i + 1 as int).last() == bs@[i as int]);
                        }
                        acc = acc * 256 + bs[i] as u64;
                        i = i + 1;
                    }
                    proof {
                        assert(bs@.take(bs@.len() as int) =~= bs@);
                    }
                    Some(acc)
                } else {
                    None
                }
            },
            _ => None,
        }
    }
}

// --------------------------------------------------------- tree rendering

/// The word naming a content kind in the rendered tree.
pub open spec fn spec_label(c: SpecContent) -> Seq<char> {
    match c {
        SpecContent::Boolean(_) => "BOOLEAN"@,
        SpecContent::Integer(_) => "INTEGER"@,
        SpecContent::BitString(_, _) => "BIT STRING"@,
        SpecContent::OctetString(_) => "OCTET STRING"@,
        SpecContent::Null => "NULL"@,
        SpecContent::Oid(_) => "OBJECT IDENTIFIER"@,
        SpecContent::CharString(_, _) => "STRING"@,
        SpecContent::Time(_) => "TIME"@,
        SpecContent::Raw(_) => "RAW"@,
        SpecContent::Absent => "ABSENT"@,
        SpecContent::Constructed(_) => "CONSTRUCTED"@,
    }
}

/// `n` spaces.
pub open spec fn spec_spaces(n: int) -> Seq<char>
    decreases n,
{
    if n <= 0 {
        Seq::empty()
    } else {
        spec_spaces(n - 1).push(' ')
    }
}

/// The child indentation: one `step` deeper, saturating at the type's limit.
pub open spec fn spec_deeper(indent: int, step: int) -> int {
    if indent + step > usize::MAX as int {
        usize::MAX as int
    } else {
        indent + step
    }
}

/// One line per node: the indentation, the kind of the node, a line break,
/// then the children one step deeper.
pub open spec fn spec_render(o: SpecDer, indent: int, step: int) -> Seq<char>
    decreases o,
{
    spec_spaces(indent) + spec_label(o.content) + seq!['\n'] + (match o.content {
        SpecContent::Constructed(cs) => spec_render_list(cs, spec_deeper(indent, step), step),
        _ => Seq::empty(),
    })
}

/// The rendering of a list of nodes, one after the other.
pub open spec fn spec_render_list(cs: Seq<SpecDer>, indent: int, step: int) -> Seq<char>
    decreases cs,
{
    if cs.len() == 0 {
        Seq::empty()
    } else {
        spec_render_list(cs.drop_last(), indent, step) + spec_render(cs.last(), indent, step)
    }
}

fn spaces(n: usize) -> (r: String)
    ensures
        r@ == spec_spaces(n as int),
{
    let mut out = String::new();
    let mut i: usize = 0;
    while i < n
        invariant
            i <= n,
            out@ == spec_spaces(i as int),
        decreases n - i,
    {
        out.append(" ");
        proof {
            reveal_strlit(" ");
            assert(spec_spaces(i as int) + " "@ =~= spec_spaces(i as int).push(' '));
        }
        i = i + 1;
    }
    out
}

fn label_of(c: &DerContent) -> (r: &'static str)
    ensures
        r@ == spec_label(view_content(*c)),
{
    match c {
        DerContent::Boolean(_) => "BOOLEAN",
        DerContent::Integer(_) => "INTEGER",
        DerContent::BitString(_, _) => "BIT STRING",
        DerContent::OctetString(_) => "OCTET STRING",
        DerContent::Null => "NULL",
        DerContent::Oid(_) => "OBJECT IDENTIFIER",
        DerContent::CharString(_, _) => "STRING",
        DerContent::Time(_) => "TIME",
        DerContent::Raw(_) => "RAW",
        DerContent::Absent => "ABSENT",
        DerContent::Constructed(_) => "CONSTRUCTED",
    }
}

impl DerObject {
    /// Renders the node as an indented tree for diagnostics: one line per
    /// node at the given indentation, children one `step` deeper.
    pub fn as_pretty(&self, indent: usize, step: usize) -> (r: String)
        ensures
            r@ == spec_render(self@, indent as int, step as int),
        decreases *self,
    {
        let mut out = spaces(indent);
        out.append(label_of(&self.content));
        out.append("\n");
        let ghost head = spec_spaces(indent as int) + spec_label(view_content(self.content))
            + seq!['\n'];
        proof {
            reveal_strlit("\n");
            assert("\n"@ =~= seq!['\n']);
            assert(out@ =~= head);
        }
        match &self.content {
            DerContent::Constructed(cs) => {
                let deeper: usize = if step > usize::MAX - indent {
                    usize::MAX
                } else {
                    indent + step
                };
                let ghost vl = view_list(cs@);
                proof {
                    lemma_view_list_props(cs@);
                }
                let mut i: usize = 0;
                while i < cs.len()
                    invariant
                        i <= cs@.len(),
                        self.content == DerContent::Constructed(*cs),
                        vl == view_list(cs@),
                        vl.len() == cs@.len(),
                        forall|j: int| 0 <= j < cs@.len() ==> vl[j] == view_obj(cs@[j]),
                        deeper as int == spec_deeper(indent as int, step as int),
                        out@ == head + spec_render_list(
                            vl.take(i as int),
                            deeper as int,
                            step as int,
                        ),
                    decreases cs@.len() - i,
                {
                    proof {
                        assert(decreases_to!(*self => self.content));
                        assert(self.content->Constructed_0 == *cs);
                        assert(decreases_to!(self.content => self.content->Constructed_0));
                        assert(decreases_to!(*cs => cs@));
                        assert(decreases_to!(cs@ => cs@[i as int]));
                        assert(decreases_to!(*self => cs@[i as int]));
                    }
                    let line = cs[i].as_pretty(deeper, step);
                    out.append(line.as_str());
                    proof {
                        assert(vl.take(i + 1 as int).drop_last() =~= vl.take(i as int));
                        assert(vl.take(i + 1 as int).last() == vl[i as int]);
                    }
                    i = i + 1;
                }
                proof {
                    assert(vl.take(cs@.len() as int) =~= vl);
                }
            },
            _ => {
                proof {
                    assert(spec_render(self@, indent as int, step as int) == head);
                }
            },
        }
        out
    }
}

} // verus!
