//! Assemblies: reusable byte structures made of literal islands, delimiter
//! anchors, slots and spans of substrate objects; their extraction
//! candidates, admissibility rules and promotion queue.

use vstd::prelude::*;
use crate::chpmt::{
    MemoryPlane, ObjectDependency, ObjectKind, ObjectLifecycleMeta, ObjectVersion, RouteFamily,
    SparseCue,
};
use crate::compress::fnv1a;
use crate::index::{bytes_less, bytes_lex_lt};
use crate::kernels::{gf2_fingerprint, gf2_fingerprint_spec};
use crate::schema::{dependencies_view, dependency_view};
use crate::wire::{push_u32_le, u32_le};
use crate::num::{rotate_left_u64, rotl64};
use crate::source::SourceKind;

verus! {

#[derive(Debug, Clone, Copy, PartialEq, Eq, PartialOrd, Ord, Hash, Default)]
pub struct AssemblyId(pub u64);

#[derive(Debug, Clone, Copy, PartialEq, Eq, Hash, Default, Structural)]
pub enum AssemblyKind {
    #[default]
    ContiguousMotif,
    DiscontinuousFieldGroup,
    DelimiterBounded,
    SlotBearing,
}

impl AssemblyKind {
    /// The wire code of the kind.
    pub open spec fn code_spec(self) -> u8 {
        match self {
            AssemblyKind::ContiguousMotif => 1,
            AssemblyKind::DiscontinuousFieldGroup => 2,
            AssemblyKind::DelimiterBounded => 3,
            AssemblyKind::SlotBearing => 4,
        }
    }

    pub fn code(self) -> (c: u8)
        ensures
            c == self.code_spec(),
    {
        match self {
            AssemblyKind::ContiguousMotif => 1,
            AssemblyKind::DiscontinuousFieldGroup => 2,
            AssemblyKind::DelimiterBounded => 3,
            AssemblyKind::SlotBearing => 4,
        }
    }
}

#[derive(Debug, Clone, Copy, PartialEq, Eq, Hash, Default, Structural)]
pub struct RoleSignature {
    pub role_bits: u64,
    pub delimiter_role_bits: u64,
    pub slot_role_bits: u64,
}

#[derive(Debug, Clone, Copy, PartialEq, Eq, Hash, Default, Structural)]
pub struct SlotDescriptor {
    pub slot_index: u16,
    pub role_bits: u64,
    pub min_len: u32,
    pub max_len: u32,
    pub required: bool,
}

/// A span of a substrate object that an assembly body refers to.
#[derive(Debug, Clone, PartialEq, Eq)]
pub enum AssemblyComponentRef {
    AtomFragment { object_id: String, start: u32, len: u32 },
    ExactBlock { object_id: String, start: u32, len: u32 },
    ExactBundle { object_id: String, start: u32, len: u32 },
    ExactRange { object_id: String, start: u32, len: u32 },
    ResidualBuffer { object_id: String, start: u32, len: u32 },
}

impl AssemblyComponentRef {
    /// The kind of object the span lies in.
    pub open spec fn kind_spec(&self) -> ObjectKind {
        match self {
            AssemblyComponentRef::AtomFragment { .. } => ObjectKind::AtomFragment,
            AssemblyComponentRef::ExactBlock { .. } => ObjectKind::ExactBlock,
            AssemblyComponentRef::ExactBundle { .. } => ObjectKind::ExactBundle,
            AssemblyComponentRef::ExactRange { .. } => ObjectKind::ExactRange,
            AssemblyComponentRef::ResidualBuffer { .. } => ObjectKind::ResidualBuffer,
        }
    }

    /// The span's length in bytes.
    pub open spec fn len_spec(&self) -> u32 {
        match self {
            AssemblyComponentRef::AtomFragment { len, .. } => *len,
            AssemblyComponentRef::ExactBlock { len, .. } => *len,
            AssemblyComponentRef::ExactBundle { len, .. } => *len,
            AssemblyComponentRef::ExactRange { len, .. } => *len,
            AssemblyComponentRef::ResidualBuffer { len, .. } => *len,
        }
    }

    /// The span's start offset.
    pub open spec fn start_spec(&self) -> u32 {
        match self {
            AssemblyComponentRef::AtomFragment { start, .. } => *start,
            AssemblyComponentRef::ExactBlock { start, .. } => *start,
            AssemblyComponentRef::ExactBundle { start, .. } => *start,
            AssemblyComponentRef::ExactRange { start, .. } => *start,
            AssemblyComponentRef::ResidualBuffer { start, .. } => *start,
        }
    }

    /// The id of the object the span lies in.
    pub open spec fn id_spec(&self) -> String {
        match self {
            AssemblyComponentRef::AtomFragment { object_id, .. } => *object_id,
            AssemblyComponentRef::ExactBlock { object_id, .. } => *object_id,
            AssemblyComponentRef::ExactBundle { object_id, .. } => *object_id,
            AssemblyComponentRef::ExactRange { object_id, .. } => *object_id,
            AssemblyComponentRef::ResidualBuffer { object_id, .. } => *object_id,
        }
    }

    pub fn object_kind(&self) -> (k: ObjectKind)
        ensures
            k == self.kind_spec(),
    {
        match self {
            AssemblyComponentRef::AtomFragment { .. } => ObjectKind::AtomFragment,
            AssemblyComponentRef::ExactBlock { .. } => ObjectKind::ExactBlock,
            AssemblyComponentRef::ExactBundle { .. } => ObjectKind::ExactBundle,
            AssemblyComponentRef::ExactRange { .. } => ObjectKind::ExactRange,
            AssemblyComponentRef::ResidualBuffer { .. } => ObjectKind::ResidualBuffer,
        }
    }

    pub fn byte_len(&self) -> (n: u32)
        ensures
            n == self.len_spec(),
    {
        match self {
            AssemblyComponentRef::AtomFragment { len, .. } => *len,
            AssemblyComponentRef::ExactBlock { len, .. } => *len,
            AssemblyComponentRef::ExactBundle { len, .. } => *len,
            AssemblyComponentRef::ExactRange { len, .. } => *len,
            AssemblyComponentRef::ResidualBuffer { len, .. } => *len,
        }
    }

    fn parts(&self) -> (r: (&String, u32, u32))
        ensures
            *r.0 == self.id_spec(),
            r.1 == self.start_spec(),
            r.2 == self.len_spec(),
    {
        match self {
            AssemblyComponentRef::AtomFragment { object_id, start, len } => (object_id, *start, *len),
            AssemblyComponentRef::ExactBlock { object_id, start, len } => (object_id, *start, *len),
            AssemblyComponentRef::ExactBundle { object_id, start, len } => (object_id, *start, *len),
            AssemblyComponentRef::ExactRange { object_id, start, len } => (object_id, *start, *len),
            AssemblyComponentRef::ResidualBuffer { object_id, start, len } => (object_id, *start, *len),
        }
    }
}

#[derive(Debug, Clone, PartialEq, Eq, Default)]
pub struct DependencyClosure {
    pub version: ObjectVersion,
    pub dependencies: Vec<ObjectDependency>,
}

/// One piece of an assembly body.
#[derive(Debug, Clone, PartialEq, Eq)]
pub enum AssemblyBodyNode {
    DelimiterAnchor { bytes: Vec<u8> },
    LiteralIsland { bytes: Vec<u8> },
    SubstrateSpan { reference: AssemblyComponentRef },
    SlotPlaceholder { slot_index: u16, role_bits: u64, bytes: Vec<u8> },
    MotifLink { motif_hash: u64, bytes: Vec<u8> },
    TypedBoundary { label: String, bytes: Vec<u8> },
}

/// A length, capped at `u32::MAX`.
pub open spec fn clamp_u32(n: nat) -> u32 {
    if n > u32::MAX {
        u32::MAX
    } else {
        n as u32
    }
}

fn clamp_len(n: usize) -> (r: u32)
    ensures
        r == clamp_u32(n as nat),
{
    if n > 0xffff_ffffusize {
        0xffff_ffffu32
    } else {
        n as u32
    }
}

/// The bytes a node carries inline; empty for a substrate span.
pub open spec fn node_inline_bytes(node: AssemblyBodyNode) -> Seq<u8> {
    match node {
        AssemblyBodyNode::DelimiterAnchor { bytes } => bytes@,
        AssemblyBodyNode::LiteralIsland { bytes } => bytes@,
        AssemblyBodyNode::SubstrateSpan { .. } => Seq::empty(),
        AssemblyBodyNode::SlotPlaceholder { bytes, .. } => bytes@,
        AssemblyBodyNode::MotifLink { bytes, .. } => bytes@,
        AssemblyBodyNode::TypedBoundary { bytes, .. } => bytes@,
    }
}

/// The number of bytes a node stands for.
pub open spec fn node_output_len(node: AssemblyBodyNode) -> u32 {
    match node {
        AssemblyBodyNode::SubstrateSpan { reference } => reference.len_spec(),
        _ => clamp_u32(node_inline_bytes(node).len()),
    }
}

/// The number of bytes a node carries inline.
pub open spec fn node_inline_len(node: AssemblyBodyNode) -> u32 {
    match node {
        AssemblyBodyNode::SubstrateSpan { .. } => 0,
        _ => node_output_len(node),
    }
}

/// The bytes of a literal island, as a length; zero for other nodes.
pub open spec fn node_literal_len(node: AssemblyBodyNode) -> u32 {
    match node {
        AssemblyBodyNode::LiteralIsland { bytes } => clamp_u32(bytes@.len()),
        _ => 0,
    }
}

/// Whether a node is structure rather than a literal island.
pub open spec fn node_is_structural(node: AssemblyBodyNode) -> bool {
    !(node is LiteralIsland)
}

/// How much a node counts toward the support of its assembly.
pub open spec fn node_support_weight(node: AssemblyBodyNode) -> u32 {
    match node {
        AssemblyBodyNode::LiteralIsland { .. } => 0,
        AssemblyBodyNode::DelimiterAnchor { bytes } => max_u32_spec(clamp_u32(bytes@.len()), 1),
        AssemblyBodyNode::TypedBoundary { bytes, .. } => max_u32_spec(clamp_u32(bytes@.len()), 1),
        AssemblyBodyNode::SlotPlaceholder { bytes, .. } => max_u32_spec(clamp_u32(bytes@.len()), 4),
        AssemblyBodyNode::MotifLink { bytes, .. } => max_u32_spec(clamp_u32(bytes@.len()), 4),
        AssemblyBodyNode::SubstrateSpan { reference } => max_u32_spec(reference.len_spec(), 4),
    }
}

pub open spec fn max_u32_spec(a: u32, b: u32) -> u32 {
    if a >= b {
        a
    } else {
        b
    }
}

impl AssemblyBodyNode {
    fn inline_bytes(&self) -> (b: Option<&Vec<u8>>)
        ensures
            match b {
                Some(v) => !(*self is SubstrateSpan) && v@ == node_inline_bytes(*self),
                None => *self is SubstrateSpan,
            },
    {
        match self {
            AssemblyBodyNode::DelimiterAnchor { bytes } => Some(bytes),
            AssemblyBodyNode::LiteralIsland { bytes } => Some(bytes),
            AssemblyBodyNode::SubstrateSpan { .. } => None,
            AssemblyBodyNode::SlotPlaceholder { bytes, .. } => Some(bytes),
            AssemblyBodyNode::MotifLink { bytes, .. } => Some(bytes),
            AssemblyBodyNode::TypedBoundary { bytes, .. } => Some(bytes),
        }
    }

    pub fn output_len(&self) -> (n: u32)
        ensures
            n == node_output_len(*self),
    {
        match self {
            AssemblyBodyNode::SubstrateSpan { reference } => reference.byte_len(),
            _ => {
                let bytes = self.inline_bytes().unwrap();
                clamp_len(bytes.len())
            },
        }
    }

    pub fn inline_bytes_len(&self) -> (n: u32)
        ensures
            n == node_inline_len(*self),
    {
        match self {
            AssemblyBodyNode::SubstrateSpan { .. } => 0,
            _ => self.output_len(),
        }
    }

    pub fn is_structural(&self) -> (b: bool)
        ensures
            b == node_is_structural(*self),
    {
        match self {
            AssemblyBodyNode::LiteralIsland { .. } => false,
            _ => true,
        }
    }

    pub fn support_weight(&self) -> (w: u32)
        ensures
            w == node_support_weight(*self),
    {
        match self {
            AssemblyBodyNode::LiteralIsland { .. } => 0,
            AssemblyBodyNode::DelimiterAnchor { bytes } => {
                let n = clamp_len(bytes.len());
                if n >= 1 { n } else { 1 }
            },
            AssemblyBodyNode::TypedBoundary { bytes, .. } => {
                let n = clamp_len(bytes.len());
                if n >= 1 { n } else { 1 }
            },
            AssemblyBodyNode::SlotPlaceholder { bytes, .. } => {
                let n = clamp_len(bytes.len());
                if n >= 4 { n } else { 4 }
            },
            AssemblyBodyNode::MotifLink { bytes, .. } => {
                let n = clamp_len(bytes.len());
                if n >= 4 { n } else { 4 }
            },
            AssemblyBodyNode::SubstrateSpan { reference } => {
                let n = reference.byte_len();
                if n >= 4 { n } else { 4 }
            },
        }
    }

    pub fn as_component_ref(&self) -> (r: Option<&AssemblyComponentRef>)
        ensures
            match *self {
                AssemblyBodyNode::SubstrateSpan { reference } => r == Some(&reference),
                _ => r is None,
            },
    {
        match self {
            AssemblyBodyNode::SubstrateSpan { reference } => Some(reference),
            _ => None,
        }
    }
}

/// The sum of `f` over the nodes.
pub open spec fn sum_nodes(nodes: Seq<AssemblyBodyNode>, f: spec_fn(AssemblyBodyNode) -> u32) -> nat
    decreases nodes.len(),
{
    if nodes.len() == 0 {
        0
    } else {
        sum_nodes(nodes.drop_last(), f) + f(nodes.last()) as nat
    }
}

/// The number of nodes that satisfy `p`.
pub open spec fn count_nodes(nodes: Seq<AssemblyBodyNode>, p: spec_fn(AssemblyBodyNode) -> bool) -> nat
    decreases nodes.len(),
{
    if nodes.len() == 0 {
        0
    } else {
        count_nodes(nodes.drop_last(), p) + if p(nodes.last()) {
            1nat
        } else {
            0nat
        }
    }
}

pub open spec fn is_span_node(node: AssemblyBodyNode) -> bool {
    node is SubstrateSpan
}

/// FNV-1a over the first 256 bytes.
pub open spec fn rolling_hash_spec(bytes: Seq<u8>) -> u64 {
    fnv1a(bytes.take(if bytes.len() < 256 { bytes.len() as int } else { 256 }))
}

/// The shape hash of one node mixed into `hash`.
pub open spec fn shape_step(hash: u64, node: AssemblyBodyNode) -> u64 {
    let d: u64 = match node {
        AssemblyBodyNode::DelimiterAnchor { .. } => 1,
        AssemblyBodyNode::LiteralIsland { .. } => 2,
        AssemblyBodyNode::SubstrateSpan { .. } => 3,
        AssemblyBodyNode::SlotPlaceholder { .. } => 4,
        AssemblyBodyNode::MotifLink { .. } => 5,
        AssemblyBodyNode::TypedBoundary { .. } => 6,
    };
    let h = rotl64(hash ^ vstd::wrapping::u64_specs::wrapping_mul(d, 0x100000001b3u64), 11);
    match node {
        AssemblyBodyNode::DelimiterAnchor { bytes } => h ^ rolling_hash_spec(bytes@),
        AssemblyBodyNode::LiteralIsland { bytes } => h ^ rolling_hash_spec(bytes@),
        AssemblyBodyNode::TypedBoundary { bytes, .. } => h ^ rolling_hash_spec(bytes@),
        AssemblyBodyNode::SubstrateSpan { reference } => {
            let h1 = h ^ rotl64(reference.kind_spec().code_spec() as u64, 7);
            let h2 = h1 ^ rolling_hash_spec(vstd::utf8::encode_utf8(reference.id_spec()@));
            let h3 = h2 ^ rotl64(reference.start_spec() as u64, 17);
            h3 ^ rotl64(reference.len_spec() as u64, 29)
        },
        AssemblyBodyNode::SlotPlaceholder { slot_index, role_bits, bytes } => {
            let h1 = h ^ rotl64(slot_index as u64, 13);
            let h2 = h1 ^ rotl64(role_bits, 23);
            h2 ^ rolling_hash_spec(bytes@)
        },
        AssemblyBodyNode::MotifLink { motif_hash, bytes } => {
            let h1 = h ^ rotl64(motif_hash, 19);
            h1 ^ rolling_hash_spec(bytes@)
        },
    }
}

/// The shape hash of the nodes, folded from the left.
pub open spec fn shape_hash(nodes: Seq<AssemblyBodyNode>) -> u64
    decreases nodes.len(),
{
    if nodes.len() == 0 {
        0x9e3779b97f4a7c15u64
    } else {
        shape_step(shape_hash(nodes.drop_last()), nodes.last())
    }
}

/// FNV-1a over at most the first 256 bytes.
pub fn rolling_assembly_hash(bytes: &[u8]) -> (h: u64)
    ensures
        h == rolling_hash_spec(bytes@),
{
    let n: usize = if bytes.len() < 256 { bytes.len() } else { 256 };
    let mut hash: u64 = 0xcbf29ce484222325;
    let mut i: usize = 0;
    while i < n
        invariant
            n <= bytes@.len(),
            n == (if bytes@.len() < 256 { bytes@.len() as int } else { 256 }),
            i <= n,
            hash == fnv1a(bytes@.take(i as int)),
        decreases n - i,
    {
        proof {
            assert(bytes@.take(i + 1).drop_last() =~= bytes@.take(i as int));
        }
        hash = (hash ^ (bytes[i] as u64)).wrapping_mul(0x100000001b3);
        i = i + 1;
    }
    hash
}

/// The nodes of an assembly, in output order.
#[derive(Debug, Clone, PartialEq, Eq, Default)]
pub struct AssemblyBody {
    pub nodes: Vec<AssemblyBodyNode>,
}

impl AssemblyBody {
    pub open spec fn output_total(&self) -> nat {
        sum_nodes(self.nodes@, |n: AssemblyBodyNode| node_output_len(n))
    }

    pub open spec fn literal_total(&self) -> nat {
        sum_nodes(self.nodes@, |n: AssemblyBodyNode| node_literal_len(n))
    }

    pub open spec fn inline_total(&self) -> nat {
        sum_nodes(self.nodes@, |n: AssemblyBodyNode| node_inline_len(n))
    }

    pub open spec fn structural_count(&self) -> nat {
        count_nodes(self.nodes@, |n: AssemblyBodyNode| node_is_structural(n))
    }

    pub open spec fn span_count(&self) -> nat {
        count_nodes(self.nodes@, |n: AssemblyBodyNode| is_span_node(n))
    }

    pub fn from_literal(bytes: Vec<u8>) -> (b: Self)
        ensures
            bytes@.len() == 0 ==> b.nodes@.len() == 0,
            bytes@.len() > 0 ==> b.nodes@ == seq![AssemblyBodyNode::LiteralIsland { bytes }],
    {
        if bytes.len() == 0 {
            AssemblyBody { nodes: Vec::new() }
        } else {
            let mut nodes: Vec<AssemblyBodyNode> = Vec::new();
            nodes.push(AssemblyBodyNode::LiteralIsland { bytes });
            AssemblyBody { nodes }
        }
    }

    /// The number of bytes the body stands for.
    pub fn output_len(&self) -> (n: u32)
        requires
            self.output_total() <= u32::MAX,
        ensures
            n == self.output_total(),
    {
        let mut total: u32 = 0;
        let mut i: usize = 0;
        while i < self.nodes.len()
            invariant
                i <= self.nodes@.len(),
                self.output_total() <= u32::MAX,
                total == sum_nodes(self.nodes@.take(i as int), |n: AssemblyBodyNode| node_output_len(n)),
            decreases self.nodes@.len() - i,
        {
            proof {
                assert(self.nodes@.take(i + 1).drop_last() =~= self.nodes@.take(i as int));
                lemma_sum_nodes_prefix(self.nodes@, i + 1, |n: AssemblyBodyNode| node_output_len(n));
            }
            total = total + self.nodes[i].output_len();
            i = i + 1;
        }
        assert(self.nodes@.take(i as int) =~= self.nodes@);
        total
    }

    /// The bytes held in literal islands.
    pub fn literal_len(&self) -> (n: u32)
        requires
            self.literal_total() <= u32::MAX,
        ensures
            n == self.literal_total(),
    {
        let mut total: u32 = 0;
        let mut i: usize = 0;
        while i < self.nodes.len()
            invariant
                i <= self.nodes@.len(),
                self.literal_total() <= u32::MAX,
                total == sum_nodes(self.nodes@.take(i as int), |n: AssemblyBodyNode| node_literal_len(n)),
            decreases self.nodes@.len() - i,
        {
            proof {
                assert(self.nodes@.take(i + 1).drop_last() =~= self.nodes@.take(i as int));
                lemma_sum_nodes_prefix(self.nodes@, i + 1, |n: AssemblyBodyNode| node_literal_len(n));
            }
            let add: u32 = match &self.nodes[i] {
                AssemblyBodyNode::LiteralIsland { bytes } => clamp_len(bytes.len()),
                _ => 0,
            };
            total = total + add;
            i = i + 1;
        }
        assert(self.nodes@.take(i as int) =~= self.nodes@);
        total
    }

    /// The bytes carried inline by all nodes.
    pub fn inline_len(&self) -> (n: u32)
        requires
            self.inline_total() <= u32::MAX,
        ensures
            n == self.inline_total(),
    {
        let mut total: u32 = 0;
        let mut i: usize = 0;
        while i < self.nodes.len()
            invariant
                i <= self.nodes@.len(),
                self.inline_total() <= u32::MAX,
                total == sum_nodes(self.nodes@.take(i as int), |n: AssemblyBodyNode| node_inline_len(n)),
            decreases self.nodes@.len() - i,
        {
            proof {
                assert(self.nodes@.take(i + 1).drop_last() =~= self.nodes@.take(i as int));
                lemma_sum_nodes_prefix(self.nodes@, i + 1, |n: AssemblyBodyNode| node_inline_len(n));
            }
            total = total + self.nodes[i].inline_bytes_len();
            i = i + 1;
        }
        assert(self.nodes@.take(i as int) =~= self.nodes@);
        total
    }

    pub fn structural_component_count(&self) -> (n: usize)
        ensures
            n == self.structural_count(),
    {
        let mut count: usize = 0;
        let mut i: usize = 0;
        while i < self.nodes.len()
            invariant
                i <= self.nodes@.len(),
                count == count_nodes(self.nodes@.take(i as int), |n: AssemblyBodyNode| node_is_structural(n)),
                count <= i,
            decreases self.nodes@.len() - i,
        {
            proof {
                assert(self.nodes@.take(i + 1).drop_last() =~= self.nodes@.take(i as int));
            }
            if self.nodes[i].is_structural() {
                count = count + 1;
            }
            i = i + 1;
        }
        assert(self.nodes@.take(i as int) =~= self.nodes@);
        count
    }

    pub fn dependency_component_count(&self) -> (n: usize)
        ensures
            n == self.span_count(),
    {
        let mut count: usize = 0;
        let mut i: usize = 0;
        while i < self.nodes.len()
            invariant
                i <= self.nodes@.len(),
                count == count_nodes(self.nodes@.take(i as int), |n: AssemblyBodyNode| is_span_node(n)),
                count <= i,
            decreases self.nodes@.len() - i,
        {
            proof {
                assert(self.nodes@.take(i + 1).drop_last() =~= self.nodes@.take(i as int));
            }
            match &self.nodes[i] {
                AssemblyBodyNode::SubstrateSpan { .. } => {
                    count = count + 1;
                },
                _ => {},
            }
            i = i + 1;
        }
        assert(self.nodes@.take(i as int) =~= self.nodes@);
        count
    }

    /// A hash of the body's node kinds and contents, in order.
    pub fn body_shape_hash(&self) -> (h: u64)
        ensures
            h == shape_hash(self.nodes@),
    {
        let mut hash: u64 = 0x9e3779b97f4a7c15;
        let mut i: usize = 0;
        while i < self.nodes.len()
            invariant
                i <= self.nodes@.len(),
                hash == shape_hash(self.nodes@.take(i as int)),
            decreases self.nodes@.len() - i,
        {
            proof {
                assert(self.nodes@.take(i + 1).drop_last() =~= self.nodes@.take(i as int));
            }
            hash = shape_step_exec(hash, &self.nodes[i]);
            i = i + 1;
        }
        assert(self.nodes@.take(i as int) =~= self.nodes@);
        hash
    }

    /// Whether the body has structure and is not all literal.
    pub fn is_structural(&self) -> (b: bool)
        requires
            self.output_total() <= u32::MAX,
        ensures
            b == (self.structural_count() > 0 && self.literal_total() < self.output_total()),
    {
        proof {
            lemma_literal_le_output(self.nodes@);
        }
        self.structural_component_count() > 0 && self.literal_len() < self.output_len()
    }
}

fn shape_step_exec(hash: u64, node: &AssemblyBodyNode) -> (h: u64)
    ensures
        h == shape_step(hash, *node),
{
    let d: u64 = match node {
        AssemblyBodyNode::DelimiterAnchor { .. } => 1,
        AssemblyBodyNode::LiteralIsland { .. } => 2,
        AssemblyBodyNode::SubstrateSpan { .. } => 3,
        AssemblyBodyNode::SlotPlaceholder { .. } => 4,
        AssemblyBodyNode::MotifLink { .. } => 5,
        AssemblyBodyNode::TypedBoundary { .. } => 6,
    };
    let h = rotate_left_u64(hash ^ d.wrapping_mul(0x100000001b3), 11);
    match node {
        AssemblyBodyNode::DelimiterAnchor { bytes } => h ^ rolling_assembly_hash(bytes.as_slice()),
        AssemblyBodyNode::LiteralIsland { bytes } => h ^ rolling_assembly_hash(bytes.as_slice()),
        AssemblyBodyNode::TypedBoundary { bytes, .. } => h ^ rolling_assembly_hash(bytes.as_slice()),
        AssemblyBodyNode::SubstrateSpan { reference } => {
            let (object_id, start, len) = reference.parts();
            let h1 = h ^ rotate_left_u64(reference.object_kind().code() as u64, 7);
            let h2 = h1 ^ rolling_assembly_hash(object_id.as_str().as_bytes());
            let h3 = h2 ^ rotate_left_u64(start as u64, 17);
            h3 ^ rotate_left_u64(len as u64, 29)
        },
        AssemblyBodyNode::SlotPlaceholder { slot_index, role_bits, bytes } => {
            let h1 = h ^ rotate_left_u64(*slot_index as u64, 13);
            let h2 = h1 ^ rotate_left_u64(*role_bits, 23);
            h2 ^ rolling_assembly_hash(bytes.as_slice())
        },
        AssemblyBodyNode::MotifLink { motif_hash, bytes } => {
            let h1 = h ^ rotate_left_u64(*motif_hash, 19);
            h1 ^ rolling_assembly_hash(bytes.as_slice())
        },
    }
}

proof fn lemma_sum_nodes_prefix(nodes: Seq<AssemblyBodyNode>, k: int, f: spec_fn(AssemblyBodyNode) -> u32)
    requires
        0 <= k <= nodes.len(),
    ensures
        sum_nodes(nodes.take(k), f) <= sum_nodes(nodes, f),
    decreases nodes.len() - k,
{
    if k < nodes.len() {
        lemma_sum_nodes_prefix(nodes, k + 1, f);
        assert(nodes.take(k + 1).drop_last() =~= nodes.take(k));
    } else {
        assert(nodes.take(k) =~= nodes);
    }
}

proof fn lemma_literal_le_output(nodes: Seq<AssemblyBodyNode>)
    ensures
        sum_nodes(nodes, |n: AssemblyBodyNode| node_literal_len(n)) <= sum_nodes(
            nodes,
            |n: AssemblyBodyNode| node_output_len(n),
        ),
    decreases nodes.len(),
{
    if nodes.len() > 0 {
        lemma_literal_le_output(nodes.drop_last());
    }
}

#[derive(Debug, Clone, Copy, PartialEq, Eq, Default, Structural)]
pub struct AssemblySupportVote {
    pub role_bits: u64,
    pub delimiter_bits: u64,
    pub slot_bits: u64,
    pub overlap_bytes: u32,
    pub support_bytes: u32,
}

#[derive(Debug, Clone, Copy, PartialEq, Eq, Default, Structural)]
pub struct AssemblyAgreementSummary {
    pub agreement_score: u32,
    pub literal_burden: u32,
    pub ambiguity: u32,
    pub support: u32,
    pub support_count: u32,
    pub estimated_wire_cost: u32,
    pub decode_burden: u32,
    pub synchronization_cost: u32,
}

#[derive(Debug, Clone, PartialEq, Eq, Default)]
pub struct AssemblyReuseSignature {
    pub version: ObjectVersion,
    pub body_shape_hash: u64,
    pub dependency_fingerprint: u64,
    pub output_len: u32,
}

#[derive(Debug, Clone, PartialEq, Eq, Default)]
pub struct Assembly {
    pub assembly_id: AssemblyId,
    pub source_kind: SourceKind,
    pub assembly_kind: AssemblyKind,
    pub role_signature: RoleSignature,
    pub slots: Vec<SlotDescriptor>,
    pub body: AssemblyBody,
    pub dependency_closure: DependencyClosure,
    pub cue: SparseCue,
    pub lifecycle: ObjectLifecycleMeta,
    pub canonical_length_min: u32,
    pub canonical_length_max: u32,
}

#[derive(Debug, Clone, PartialEq, Eq, Default)]
pub struct AssemblyExtractionCandidate {
    pub assembly_kind: AssemblyKind,
    pub role_signature: RoleSignature,
    pub slots: Vec<SlotDescriptor>,
    pub body: AssemblyBody,
    pub dependency_closure: DependencyClosure,
    pub cue: SparseCue,
    pub canonical_length_min: u32,
    pub canonical_length_max: u32,
    pub structural_hash: u64,
    pub support_votes: Vec<AssemblySupportVote>,
    pub agreement: AssemblyAgreementSummary,
}

/// Bounds on what the extractors look for.
#[derive(Debug, Clone, Copy, PartialEq, Eq, Default, Structural)]
pub struct AssemblyExtractionConfig {
    pub min_motif_len: u16,
    pub max_motif_len: u16,
    pub max_gap_bytes: u16,
    pub max_slots: u16,
}

impl AssemblyExtractionConfig {
    pub fn bounded_default() -> (c: Self)
        ensures
            c == (AssemblyExtractionConfig {
                min_motif_len: 4,
                max_motif_len: 32,
                max_gap_bytes: 24,
                max_slots: 4,
            }),
    {
        AssemblyExtractionConfig { min_motif_len: 4, max_motif_len: 32, max_gap_bytes: 24, max_slots: 4 }
    }
}

impl AssemblyExtractionCandidate {
    pub fn predicted_bytes(&self) -> (n: u32)
        requires
            self.body.output_total() <= u32::MAX,
        ensures
            n == self.body.output_total(),
    {
        self.body.output_len()
    }

    pub fn residual_bytes(&self) -> (n: u32)
        ensures
            n == self.agreement.literal_burden,
    {
        self.agreement.literal_burden
    }

    pub fn expansion_depth(&self) -> (d: u8)
        ensures
            d == (if self.agreement.decode_burden > 255 {
                255
            } else {
                self.agreement.decode_burden
            }),
    {
        if self.agreement.decode_burden > 255 {
            255
        } else {
            self.agreement.decode_burden as u8
        }
    }

    pub fn estimated_decode_cost(&self) -> (n: u32)
        ensures
            n == self.agreement.decode_burden,
    {
        self.agreement.decode_burden
    }

    pub fn support_gain(&self) -> (n: u32)
        ensures
            n == self.agreement.support,
    {
        self.agreement.support
    }

    pub fn support_count(&self) -> (n: u32)
        ensures
            n == self.agreement.support_count,
    {
        self.agreement.support_count
    }

    pub fn support_vote_count(&self) -> (n: u32)
        ensures
            n == clamp_u32(self.support_votes@.len()),
    {
        clamp_len(self.support_votes.len())
    }

    pub fn agreement_score(&self) -> (n: u32)
        ensures
            n == self.agreement.agreement_score,
    {
        self.agreement.agreement_score
    }

    pub fn ambiguity_score(&self) -> (n: u32)
        ensures
            n == self.agreement.ambiguity,
    {
        self.agreement.ambiguity
    }

    pub fn dependency_sync_risk(&self) -> (n: u32)
        ensures
            n == self.agreement.synchronization_cost,
    {
        self.agreement.synchronization_cost
    }

    pub fn estimated_route_wire_cost(&self) -> (n: u32)
        ensures
            n == self.agreement.estimated_wire_cost,
    {
        self.agreement.estimated_wire_cost
    }

    /// The facts the admissibility rule looks at, for this candidate.
    pub fn admissibility_input(&self, ambiguity_score: u32, dependencies_available: bool) -> (r: AssemblyAdmissibilityInput)
        requires
            self.body.output_total() <= u32::MAX,
        ensures
            r.ambiguity_score == ambiguity_score,
            r.dependencies_available == dependencies_available,
            r.expansion_depth == (if self.agreement.decode_burden > 255 {
                255
            } else {
                self.agreement.decode_burden
            }),
            r.residual_bytes == self.agreement.literal_burden,
            r.predicted_bytes == self.body.output_total(),
            r.contract_min_len == self.canonical_length_min,
            r.contract_max_len == self.canonical_length_max,
    {
        AssemblyAdmissibilityInput {
            ambiguity_score,
            dependencies_available,
            expansion_depth: self.expansion_depth(),
            residual_bytes: self.residual_bytes(),
            predicted_bytes: self.predicted_bytes(),
            contract_min_len: self.canonical_length_min,
            contract_max_len: self.canonical_length_max,
        }
    }
}

#[derive(Debug, Clone, Copy, PartialEq, Eq, Default, Structural)]
pub struct AssemblyAdmissibilityPolicy {
    pub ambiguity_cap: u32,
    pub max_expansion_depth: u8,
    pub max_residual_dominance_percent: u8,
}

impl AssemblyAdmissibilityPolicy {
    pub fn bounded_default() -> (p: Self)
        ensures
            p == (AssemblyAdmissibilityPolicy {
                ambiguity_cap: 32,
                max_expansion_depth: 4,
                max_residual_dominance_percent: 70,
            }),
    {
        AssemblyAdmissibilityPolicy { ambiguity_cap: 32, max_expansion_depth: 4, max_residual_dominance_percent: 70 }
    }
}

#[derive(Debug, Clone, Copy, PartialEq, Eq, Default, Structural)]
pub struct AssemblyAdmissibilityInput {
    pub ambiguity_score: u32,
    pub dependencies_available: bool,
    pub expansion_depth: u8,
    pub residual_bytes: u32,
    pub predicted_bytes: u32,
    pub contract_min_len: u32,
    pub contract_max_len: u32,
}

#[derive(Debug, Clone, Copy, PartialEq, Eq, Structural)]
pub enum AssemblyAdmissibilityFailure {
    AmbiguityCap,
    DependencyUnavailable,
    ExpansionDepthExceeded,
    ResidualDominant,
    LengthContractInvalid,
}

/// The percentage of the predicted bytes that are residual, as computed in
/// `u32` arithmetic with a saturating multiply.
pub open spec fn residual_percent(input: AssemblyAdmissibilityInput) -> u32 {
    let total: u32 = if input.predicted_bytes >= 1 { input.predicted_bytes } else { 1 };
    (crate::num::sat_mul_u32(input.residual_bytes, 100) / total) as u32
}

/// Which rule, if any, an assembly route breaks; rules are checked in order.
pub open spec fn eligibility_spec(policy: AssemblyAdmissibilityPolicy, input: AssemblyAdmissibilityInput) -> Result<(), AssemblyAdmissibilityFailure> {
    if input.ambiguity_score > policy.ambiguity_cap {
        Err(AssemblyAdmissibilityFailure::AmbiguityCap)
    } else if !input.dependencies_available {
        Err(AssemblyAdmissibilityFailure::DependencyUnavailable)
    } else if input.expansion_depth > policy.max_expansion_depth {
        Err(AssemblyAdmissibilityFailure::ExpansionDepthExceeded)
    } else if input.contract_min_len > input.contract_max_len || input.predicted_bytes
        < input.contract_min_len || input.predicted_bytes > input.contract_max_len {
        Err(AssemblyAdmissibilityFailure::LengthContractInvalid)
    } else if residual_percent(input) > policy.max_residual_dominance_percent as u32 {
        Err(AssemblyAdmissibilityFailure::ResidualDominant)
    } else {
        Ok(())
    }
}

/// Whether an assembly route may be taken under a policy.
pub fn assembly_route_eligibility(policy: AssemblyAdmissibilityPolicy, input: AssemblyAdmissibilityInput) -> (r: Result<(), AssemblyAdmissibilityFailure>)
    ensures
        r == eligibility_spec(policy, input),
{
    if input.ambiguity_score > policy.ambiguity_cap {
        return Err(AssemblyAdmissibilityFailure::AmbiguityCap);
    }
    if !input.dependencies_available {
        return Err(AssemblyAdmissibilityFailure::DependencyUnavailable);
    }
    if input.expansion_depth > policy.max_expansion_depth {
        return Err(AssemblyAdmissibilityFailure::ExpansionDepthExceeded);
    }
    if input.contract_min_len > input.contract_max_len || input.predicted_bytes < input.contract_min_len
        || input.predicted_bytes > input.contract_max_len {
        return Err(AssemblyAdmissibilityFailure::LengthContractInvalid);
    }
    let total: u32 = if input.predicted_bytes >= 1 { input.predicted_bytes } else { 1 };
    let pct: u32 = crate::num::saturating_mul_u32(input.residual_bytes, 100) / total;
    if pct > policy.max_residual_dominance_percent as u32 {
        return Err(AssemblyAdmissibilityFailure::ResidualDominant);
    }
    Ok(())
}

/// What an eligibility verdict means. A route over the ambiguity cap is
/// refused for that; within the cap, a route whose dependencies are missing
/// is refused for that; then one expanded too deeply; then one whose length
/// contract is empty or misses the predicted length. An admitted route has
/// its dependencies, stays within the cap and the depth, predicts a length
/// inside its contract, and its residual (as a saturated percentage of the
/// predicted bytes, at least one) stays within the policy's share; a route
/// with no residual that passes the other rules is admitted.
pub proof fn lemma_eligibility_rules(policy: AssemblyAdmissibilityPolicy, input: AssemblyAdmissibilityInput)
    ensures
        input.ambiguity_score > policy.ambiguity_cap ==> eligibility_spec(policy, input) == Err::<
            (),
            AssemblyAdmissibilityFailure,
        >(AssemblyAdmissibilityFailure::AmbiguityCap),
        input.ambiguity_score <= policy.ambiguity_cap && !input.dependencies_available ==> eligibility_spec(
            policy,
            input,
        ) == Err::<(), AssemblyAdmissibilityFailure>(AssemblyAdmissibilityFailure::DependencyUnavailable),
        input.ambiguity_score <= policy.ambiguity_cap && input.dependencies_available && input.expansion_depth
            > policy.max_expansion_depth ==> eligibility_spec(policy, input) == Err::<(), AssemblyAdmissibilityFailure>(
            AssemblyAdmissibilityFailure::ExpansionDepthExceeded,
        ),
        input.ambiguity_score <= policy.ambiguity_cap && input.dependencies_available && input.expansion_depth
            <= policy.max_expansion_depth && !(input.contract_min_len <= input.predicted_bytes
            <= input.contract_max_len) ==> eligibility_spec(policy, input) == Err::<(), AssemblyAdmissibilityFailure>(
            AssemblyAdmissibilityFailure::LengthContractInvalid,
        ),
        eligibility_spec(policy, input) is Ok ==> {
            let total: int = if input.predicted_bytes >= 1 { input.predicted_bytes as int } else { 1 };
            let scaled: int = if input.residual_bytes * 100 > u32::MAX { u32::MAX as int } else { input.residual_bytes * 100 };
            &&& input.dependencies_available
            &&& input.ambiguity_score <= policy.ambiguity_cap
            &&& input.expansion_depth <= policy.max_expansion_depth
            &&& input.contract_min_len <= input.predicted_bytes <= input.contract_max_len
            &&& scaled / total <= policy.max_residual_dominance_percent
        },
        ({
            let total: int = if input.predicted_bytes >= 1 { input.predicted_bytes as int } else { 1 };
            let scaled: int = if input.residual_bytes * 100 > u32::MAX { u32::MAX as int } else { input.residual_bytes * 100 };
            &&& input.dependencies_available
            &&& input.ambiguity_score <= policy.ambiguity_cap
            &&& input.expansion_depth <= policy.max_expansion_depth
            &&& input.contract_min_len <= input.predicted_bytes <= input.contract_max_len
            &&& scaled / total > policy.max_residual_dominance_percent
        }) ==> eligibility_spec(policy, input) == Err::<(), AssemblyAdmissibilityFailure>(
            AssemblyAdmissibilityFailure::ResidualDominant,
        ),
        input.dependencies_available && input.ambiguity_score <= policy.ambiguity_cap && input.expansion_depth
            <= policy.max_expansion_depth && input.contract_min_len <= input.predicted_bytes <= input.contract_max_len
            && input.residual_bytes == 0 ==> eligibility_spec(policy, input) is Ok,
        ({
            let total: int = if input.predicted_bytes >= 1 { input.predicted_bytes as int } else { 1 };
            let scaled: int = if input.residual_bytes * 100 > u32::MAX { u32::MAX as int } else { input.residual_bytes * 100 };
            &&& input.dependencies_available
            &&& input.ambiguity_score <= policy.ambiguity_cap
            &&& input.expansion_depth <= policy.max_expansion_depth
            &&& input.contract_min_len <= input.predicted_bytes <= input.contract_max_len
            &&& scaled / total <= policy.max_residual_dominance_percent
        }) ==> eligibility_spec(policy, input) is Ok,
{
    let total: u32 = if input.predicted_bytes >= 1 { input.predicted_bytes } else { 1 };
    assert(total >= 1);
    if input.residual_bytes == 0 {
        assert(crate::num::sat_mul_u32(input.residual_bytes, 100) == 0);
        assert(0u32 / total == 0) by (nonlinear_arith)
            requires
                total >= 1,
        ;
    }
}

/// A looser policy (a cap, depth and residual share at least as large)
/// admits every route a stricter one admits.
pub proof fn lemma_eligibility_monotone(
    strict: AssemblyAdmissibilityPolicy,
    loose: AssemblyAdmissibilityPolicy,
    input: AssemblyAdmissibilityInput,
)
    requires
        strict.ambiguity_cap <= loose.ambiguity_cap,
        strict.max_expansion_depth <= loose.max_expansion_depth,
        strict.max_residual_dominance_percent <= loose.max_residual_dominance_percent,
        eligibility_spec(strict, input) is Ok,
    ensures
        eligibility_spec(loose, input) is Ok,
{
}

#[derive(Debug, Clone, Copy, PartialEq, Eq, Default)]
pub struct AssemblyPromotionQueueEntry {
    pub assembly_id: AssemblyId,
    pub source_kind: SourceKind,
    pub ambiguity_score: u32,
    pub estimated_wire_savings: u32,
    pub support_count: u32,
    pub lifecycle: ObjectLifecycleMeta,
    pub cue: SparseCue,
}

/// `a` comes strictly before `b` in the queue: more savings first, then less
/// ambiguity, then more support, then the smaller id.
pub open spec fn assembly_entry_before(a: AssemblyPromotionQueueEntry, b: AssemblyPromotionQueueEntry) -> bool {
    ||| a.estimated_wire_savings > b.estimated_wire_savings
    ||| a.estimated_wire_savings == b.estimated_wire_savings && a.ambiguity_score < b.ambiguity_score
    ||| a.estimated_wire_savings == b.estimated_wire_savings && a.ambiguity_score == b.ambiguity_score
        && a.support_count > b.support_count
    ||| a.estimated_wire_savings == b.estimated_wire_savings && a.ambiguity_score == b.ambiguity_score
        && a.support_count == b.support_count && a.assembly_id.0 < b.assembly_id.0
}

/// Where `x` goes in `s`: before the first entry it comes strictly before.
pub open spec fn assembly_insert_pos(s: Seq<AssemblyPromotionQueueEntry>, x: AssemblyPromotionQueueEntry) -> nat
    decreases s.len(),
{
    if s.len() == 0 {
        0
    } else if assembly_entry_before(x, s[0]) {
        0
    } else {
        1 + assembly_insert_pos(s.drop_first(), x)
    }
}

/// The entries in queue order, equal entries in their original order.
pub open spec fn assembly_sorted(s: Seq<AssemblyPromotionQueueEntry>) -> Seq<AssemblyPromotionQueueEntry>
    decreases s.len(),
{
    if s.len() == 0 {
        s
    } else {
        let t = assembly_sorted(s.drop_last());
        t.insert(assembly_insert_pos(t, s.last()) as int, s.last())
    }
}

/// The entries that are ready to promote, in order.
pub open spec fn assembly_ready(s: Seq<AssemblyPromotionQueueEntry>, ambiguity_cap: u32, min_support: u32, ready: bool) -> Seq<AssemblyPromotionQueueEntry>
    decreases s.len(),
{
    if s.len() == 0 {
        s
    } else {
        let rest = assembly_ready(s.drop_last(), ambiguity_cap, min_support, ready);
        let e = s.last();
        if (e.ambiguity_score <= ambiguity_cap && e.support_count >= min_support) == ready {
            rest.push(e)
        } else {
            rest
        }
    }
}

proof fn lemma_assembly_insert_pos_bound(s: Seq<AssemblyPromotionQueueEntry>, x: AssemblyPromotionQueueEntry)
    ensures
        assembly_insert_pos(s, x) <= s.len(),
    decreases s.len(),
{
    if s.len() > 0 {
        lemma_assembly_insert_pos_bound(s.drop_first(), x);
    }
}

proof fn lemma_assembly_sorted_len(s: Seq<AssemblyPromotionQueueEntry>)
    ensures
        assembly_sorted(s).len() == s.len(),
    decreases s.len(),
{
    if s.len() > 0 {
        lemma_assembly_sorted_len(s.drop_last());
        lemma_assembly_insert_pos_bound(assembly_sorted(s.drop_last()), s.last());
    }
}

fn assembly_find_pos(v: &Vec<AssemblyPromotionQueueEntry>, x: AssemblyPromotionQueueEntry) -> (p: usize)
    ensures
        p == assembly_insert_pos(v@, x),
        p <= v@.len(),
{
    let mut i: usize = 0;
    assert(v@.subrange(0, v@.len() as int) =~= v@);
    while i < v.len()
        invariant
            i <= v@.len(),
            assembly_insert_pos(v@, x) == i + assembly_insert_pos(v@.subrange(i as int, v@.len() as int), x),
        decreases v@.len() - i,
    {
        let e = v[i];
        proof {
            let rest = v@.subrange(i as int, v@.len() as int);
            assert(rest[0] == e);
            assert(rest.drop_first() =~= v@.subrange(i + 1, v@.len() as int));
        }
        let before: bool = x.estimated_wire_savings > e.estimated_wire_savings || (
        x.estimated_wire_savings == e.estimated_wire_savings && (x.ambiguity_score < e.ambiguity_score
            || (x.ambiguity_score == e.ambiguity_score && (x.support_count > e.support_count || (
        x.support_count == e.support_count && x.assembly_id.0 < e.assembly_id.0)))));
        if before {
            return i;
        }
        i = i + 1;
    }
    proof {
        assert(v@.subrange(i as int, v@.len() as int).len() == 0);
    }
    i
}

/// Candidates waiting for promotion, best first.
#[derive(Debug, Clone, PartialEq, Eq, Default)]
pub struct AssemblyPromotionQueue {
    pub pending: Vec<AssemblyPromotionQueueEntry>,
}

impl AssemblyPromotionQueue {
    /// Adds an entry and puts the queue in order (a stable sort).
    pub fn push(&mut self, entry: AssemblyPromotionQueueEntry)
        ensures
            final(self).pending@ == assembly_sorted(old(self).pending@.push(entry)),
    {
        self.pending.push(entry);
        let ghost all = self.pending@;
        let mut out: Vec<AssemblyPromotionQueueEntry> = Vec::new();
        let mut i: usize = 0;
        while i < self.pending.len()
            invariant
                all == self.pending@,
                i <= all.len(),
                out@ == assembly_sorted(all.take(i as int)),
            decreases all.len() - i,
        {
            proof {
                assert(all.take(i + 1).drop_last() =~= all.take(i as int));
                lemma_assembly_sorted_len(all.take(i as int));
            }
            let e = self.pending[i];
            let p = assembly_find_pos(&out, e);
            out.insert(p, e);
            i = i + 1;
        }
        assert(all.take(i as int) =~= all);
        self.pending = out;
    }

    /// Takes out the entries within the ambiguity cap with enough support, in
    /// queue order; the rest stay, in order.
    pub fn promote_ready(&mut self, ambiguity_cap: u32, min_support: u32) -> (promoted: Vec<AssemblyPromotionQueueEntry>)
        ensures
            promoted@ == assembly_ready(old(self).pending@, ambiguity_cap, min_support, true),
            final(self).pending@ == assembly_ready(old(self).pending@, ambiguity_cap, min_support, false),
    {
        let mut promoted: Vec<AssemblyPromotionQueueEntry> = Vec::new();
        let mut retained: Vec<AssemblyPromotionQueueEntry> = Vec::new();
        let mut i: usize = 0;
        while i < self.pending.len()
            invariant
                i <= self.pending@.len(),
                promoted@ == assembly_ready(self.pending@.take(i as int), ambiguity_cap, min_support, true),
                retained@ == assembly_ready(self.pending@.take(i as int), ambiguity_cap, min_support, false),
            decreases self.pending@.len() - i,
        {
            proof {
                assert(self.pending@.take(i + 1).drop_last() =~= self.pending@.take(i as int));
            }
            let e = self.pending[i];
            if e.ambiguity_score <= ambiguity_cap && e.support_count >= min_support {
                promoted.push(e);
            } else {
                retained.push(e);
            }
            i = i + 1;
        }
        assert(self.pending@.take(i as int) =~= self.pending@);
        self.pending = retained;
        promoted
    }
}

// ---------------------------------------------------------------------------
// Reuse signatures
// ---------------------------------------------------------------------------

/// Dependency `a` sorts strictly before `b`: by kind code, then id bytes,
/// then required revision.
pub open spec fn dependency_before(a: (ObjectKind, Seq<char>, u32), b: (ObjectKind, Seq<char>, u32)) -> bool {
    if a.0.code_spec() != b.0.code_spec() {
        a.0.code_spec() < b.0.code_spec()
    } else if vstd::utf8::encode_utf8(a.1) != vstd::utf8::encode_utf8(b.1) {
        bytes_lex_lt(vstd::utf8::encode_utf8(a.1), vstd::utf8::encode_utf8(b.1))
    } else {
        a.2 < b.2
    }
}

pub open spec fn dependency_insert_pos(s: Seq<(ObjectKind, Seq<char>, u32)>, x: (ObjectKind, Seq<char>, u32)) -> nat
    decreases s.len(),
{
    if s.len() == 0 {
        0
    } else if dependency_before(x, s[0]) {
        0
    } else {
        1 + dependency_insert_pos(s.drop_first(), x)
    }
}

/// The dependencies sorted, equal ones in their original order.
pub open spec fn dependencies_sorted(s: Seq<(ObjectKind, Seq<char>, u32)>) -> Seq<(ObjectKind, Seq<char>, u32)>
    decreases s.len(),
{
    if s.len() == 0 {
        s
    } else {
        let t = dependencies_sorted(s.drop_last());
        t.insert(dependency_insert_pos(t, s.last()) as int, s.last())
    }
}

proof fn lemma_dependency_insert_pos_bound(s: Seq<(ObjectKind, Seq<char>, u32)>, x: (ObjectKind, Seq<char>, u32))
    ensures
        dependency_insert_pos(s, x) <= s.len(),
    decreases s.len(),
{
    if s.len() > 0 {
        lemma_dependency_insert_pos_bound(s.drop_first(), x);
    }
}

proof fn lemma_dependencies_sorted_len(s: Seq<(ObjectKind, Seq<char>, u32)>)
    ensures
        dependencies_sorted(s).len() == s.len(),
    decreases s.len(),
{
    if s.len() > 0 {
        lemma_dependencies_sorted_len(s.drop_last());
        lemma_dependency_insert_pos_bound(dependencies_sorted(s.drop_last()), s.last());
    }
}

/// The bytes fingerprinted for sorted dependencies: for each, its kind
/// code, its revision little-endian, its id and a 0xff separator.
pub open spec fn dependency_material(s: Seq<(ObjectKind, Seq<char>, u32)>) -> Seq<u8>
    decreases s.len(),
{
    if s.len() == 0 {
        Seq::empty()
    } else {
        let d = s.last();
        dependency_material(s.drop_last()) + seq![d.0.code_spec()] + u32_le(d.2) + vstd::utf8::encode_utf8(d.1) + seq![0xffu8]
    }
}

/// The fingerprint of the dependencies: the GF(2) fingerprint of their
/// material once sorted.
pub open spec fn dependency_fingerprint_spec(deps: Seq<ObjectDependency>, clmul_available: bool) -> u64 {
    gf2_fingerprint_spec(dependency_material(dependencies_sorted(dependencies_view(deps))), clmul_available)
}

fn dependency_before_exec(a: &ObjectDependency, b: &ObjectDependency) -> (r: bool)
    ensures
        r == dependency_before(dependency_view(*a), dependency_view(*b)),
{
    let ca = a.object_kind.code();
    let cb = b.object_kind.code();
    if ca != cb {
        return ca < cb;
    }
    let ia = a.object_id.as_str().as_bytes();
    let ib = b.object_id.as_str().as_bytes();
    if !crate::compress::bytes_equal(ia, ib) {
        return bytes_less(ia, ib);
    }
    a.required_revision < b.required_revision
}

fn dependency_find_pos(v: &Vec<ObjectDependency>, x: &ObjectDependency) -> (p: usize)
    ensures
        p == dependency_insert_pos(dependencies_view(v@), dependency_view(*x)),
{
    let ghost cv = dependencies_view(v@);
    let mut i: usize = 0;
    assert(cv.subrange(0, cv.len() as int) =~= cv);
    while i < v.len()
        invariant
            i <= v@.len(),
            cv == dependencies_view(v@),
            dependency_insert_pos(cv, dependency_view(*x)) == i + dependency_insert_pos(cv.subrange(i as int, cv.len() as int), dependency_view(*x)),
        decreases v@.len() - i,
    {
        proof {
            let rest = cv.subrange(i as int, cv.len() as int);
            assert(rest[0] == cv[i as int]);
            assert(rest.drop_first() =~= cv.subrange(i + 1, cv.len() as int));
        }
        if dependency_before_exec(x, &v[i]) {
            return i;
        }
        i = i + 1;
    }
    proof {
        assert(cv.subrange(i as int, cv.len() as int).len() == 0);
    }
    i
}

/// The GF(2) fingerprint of the dependencies' material, taken in sorted
/// order.
pub fn assembly_dependency_fingerprint(dependencies: &[ObjectDependency], clmul_available: bool) -> (h: u64)
    ensures
        h == dependency_fingerprint_spec(dependencies@, clmul_available),
{
    let ghost full = dependencies_view(dependencies@);
    let mut sorted: Vec<ObjectDependency> = Vec::new();
    let mut i: usize = 0;
    while i < dependencies.len()
        invariant
            i <= dependencies@.len(),
            full == dependencies_view(dependencies@),
            dependencies_view(sorted@) == dependencies_sorted(full.take(i as int)),
        decreases dependencies@.len() - i,
    {
        let d = &dependencies[i];
        let x = ObjectDependency { object_kind: d.object_kind, object_id: d.object_id.clone(), required_revision: d.required_revision };
        let ghost xv = dependency_view(x);
        proof {
            assert(xv == full[i as int]);
            assert(full.take(i + 1).drop_last() =~= full.take(i as int));
            assert(full.take(i + 1).last() == xv);
            lemma_dependencies_sorted_len(full.take(i as int));
            lemma_dependency_insert_pos_bound(dependencies_view(sorted@), xv);
        }
        let p = dependency_find_pos(&sorted, &x);
        let ghost before = sorted@;
        sorted.insert(p, x);
        proof {
            assert(dependencies_view(sorted@) =~= dependencies_view(before).insert(p as int, xv));
        }
        i = i + 1;
    }
    assert(full.take(i as int) =~= full);
    let ghost sv = dependencies_view(sorted@);
    let mut material: Vec<u8> = Vec::new();
    let mut k: usize = 0;
    while k < sorted.len()
        invariant
            k <= sorted@.len(),
            sv == dependencies_view(sorted@),
            material@ == dependency_material(sv.take(k as int)),
        decreases sorted@.len() - k,
    {
        let d = &sorted[k];
        proof {
            assert(sv.take(k + 1).drop_last() =~= sv.take(k as int));
            assert(sv.take(k + 1).last() == dependency_view(*d));
        }
        material.push(d.object_kind.code());
        push_u32_le(&mut material, d.required_revision);
        crate::wire::append_bytes(&mut material, d.object_id.as_str().as_bytes());
        material.push(0xff);
        k = k + 1;
    }
    assert(sv.take(k as int) =~= sv);
    gf2_fingerprint(material.as_slice(), clmul_available)
}

/// The reuse signature of a body with its dependencies.
pub open spec fn reuse_signature_spec(version: ObjectVersion, body: AssemblyBody, deps: Seq<ObjectDependency>, clmul_available: bool) -> (ObjectVersion, u64, u64, nat) {
    (version, shape_hash(body.nodes@), dependency_fingerprint_spec(deps, clmul_available), body.output_total())
}

pub fn assembly_reuse_signature_from_parts(
    version: ObjectVersion,
    body: &AssemblyBody,
    dependencies: &[ObjectDependency],
    clmul_available: bool,
) -> (r: AssemblyReuseSignature)
    requires
        body.output_total() <= u32::MAX,
    ensures
        (r.version, r.body_shape_hash, r.dependency_fingerprint, r.output_len as nat) == reuse_signature_spec(version, *body, dependencies@, clmul_available),
{
    AssemblyReuseSignature {
        version,
        body_shape_hash: body.body_shape_hash(),
        dependency_fingerprint: assembly_dependency_fingerprint(dependencies, clmul_available),
        output_len: body.output_len(),
    }
}

pub fn assembly_reuse_signature(assembly: &Assembly, clmul_available: bool) -> (r: AssemblyReuseSignature)
    requires
        assembly.body.output_total() <= u32::MAX,
    ensures
        (r.version, r.body_shape_hash, r.dependency_fingerprint, r.output_len as nat) == reuse_signature_spec(
            assembly.dependency_closure.version,
            assembly.body,
            assembly.dependency_closure.dependencies@,
            clmul_available,
        ),
{
    assembly_reuse_signature_from_parts(
        assembly.dependency_closure.version,
        &assembly.body,
        assembly.dependency_closure.dependencies.as_slice(),
        clmul_available,
    )
}

} // verus!
