//! Assembly extraction: cue derivation from raw bytes, the support votes and
//! agreement summary of a candidate body, and the extractors that propose
//! contiguous motifs, delimiter-bounded segments, field groups and
//! slot-bearing structures from a payload.

use vstd::prelude::*;
use crate::assembly::{
    AssemblyAgreementSummary, AssemblyBody, AssemblyBodyNode, AssemblyExtractionCandidate,
    AssemblyKind, AssemblySupportVote, DependencyClosure, RoleSignature, SlotDescriptor, clamp_u32,
    count_nodes, is_span_node, node_literal_len, node_output_len, rolling_assembly_hash,
    rolling_hash_spec, sum_nodes,
};
use crate::chpmt::{ObjectDependency, SparseCue};
use crate::num::{sat_add_u32, sat_mul_u32, sat_sub_u32, saturating_mul_u32};
use crate::source::SourceKind;

verus! {

// ---------------------------------------------------------------------------
// Byte classes
// ---------------------------------------------------------------------------

/// The delimiter class bit of a byte; zero for a non-delimiter.
pub open spec fn delimiter_bit_spec(b: u8) -> u64 {
    if b == 0x0a {
        1
    } else if b == 0x0d {
        2
    } else if b == 0x09 {
        4
    } else if b == 0x2c {
        8
    } else if b == 0x3b {
        16
    } else if b == 0x3a {
        32
    } else if b == 0x7c {
        64
    } else if b == 0x7b || b == 0x7d {
        128
    } else if b == 0x5b || b == 0x5d {
        256
    } else if b == 0x28 || b == 0x29 {
        512
    } else if b == 0x22 || b == 0x27 {
        1024
    } else {
        0
    }
}

pub fn delimiter_bit(b: u8) -> (r: u64)
    ensures
        r == delimiter_bit_spec(b),
{
    if b == 0x0a {
        1
    } else if b == 0x0d {
        2
    } else if b == 0x09 {
        4
    } else if b == 0x2c {
        8
    } else if b == 0x3b {
        16
    } else if b == 0x3a {
        32
    } else if b == 0x7c {
        64
    } else if b == 0x7b || b == 0x7d {
        128
    } else if b == 0x5b || b == 0x5d {
        256
    } else if b == 0x28 || b == 0x29 {
        512
    } else if b == 0x22 || b == 0x27 {
        1024
    } else {
        0
    }
}

pub open spec fn is_delimiter_spec(b: u8) -> bool {
    delimiter_bit_spec(b) != 0
}

pub fn is_delimiter(b: u8) -> (r: bool)
    ensures
        r == is_delimiter_spec(b),
{
    delimiter_bit(b) != 0
}

/// The closing bracket of an opening one.
pub open spec fn matching_close_spec(open: u8) -> u8 {
    if open == 0x7b {
        0x7d
    } else if open == 0x5b {
        0x5d
    } else if open == 0x28 {
        0x29
    } else if open == 0x3c {
        0x3e
    } else {
        open
    }
}

pub fn matching_close(open: u8) -> (r: u8)
    ensures
        r == matching_close_spec(open),
{
    if open == 0x7b {
        0x7d
    } else if open == 0x5b {
        0x5d
    } else if open == 0x28 {
        0x29
    } else if open == 0x3c {
        0x3e
    } else {
        open
    }
}

/// The length class of a byte count, from 0 (empty) to 6 (over 128).
pub open spec fn length_bucket_spec(len: nat) -> u32 {
    if len == 0 {
        0
    } else if len <= 8 {
        1
    } else if len <= 16 {
        2
    } else if len <= 32 {
        3
    } else if len <= 64 {
        4
    } else if len <= 128 {
        5
    } else {
        6
    }
}

pub fn length_bucket(len: usize) -> (r: u32)
    ensures
        r == length_bucket_spec(len as nat),
{
    if len == 0 {
        0
    } else if len <= 8 {
        1
    } else if len <= 16 {
        2
    } else if len <= 32 {
        3
    } else if len <= 64 {
        4
    } else if len <= 128 {
        5
    } else {
        6
    }
}

/// The role bits of one byte: letter 1, digit 2, ASCII whitespace 4,
/// `_` or `-` 8.
pub open spec fn byte_role_spec(b: u8) -> u64 {
    (if (0x41 <= b <= 0x5a) || (0x61 <= b <= 0x7a) { 1u64 } else { 0u64 }) | (if 0x30 <= b <= 0x39 {
        2u64
    } else {
        0u64
    }) | (if b == 0x20 || b == 0x09 || b == 0x0a || b == 0x0c || b == 0x0d {
        4u64
    } else {
        0u64
    }) | (if b == 0x5f || b == 0x2d {
        8u64
    } else {
        0u64
    })
}

fn byte_role(b: u8) -> (r: u64)
    ensures
        r == byte_role_spec(b),
{
    let alpha: u64 = if (0x41 <= b && b <= 0x5a) || (0x61 <= b && b <= 0x7a) { 1 } else { 0 };
    let digit: u64 = if 0x30 <= b && b <= 0x39 { 2 } else { 0 };
    let space: u64 = if b == 0x20 || b == 0x09 || b == 0x0a || b == 0x0c || b == 0x0d { 4 } else { 0 };
    let mark: u64 = if b == 0x5f || b == 0x2d { 8 } else { 0 };
    alpha | digit | space | mark
}

/// The OR of `f` over the bytes.
pub open spec fn or_bits(s: Seq<u8>, f: spec_fn(u8) -> u64) -> u64
    decreases s.len(),
{
    if s.len() == 0 {
        0
    } else {
        or_bits(s.drop_last(), f) | f(s.last())
    }
}

/// The delimiter bits of every byte, ORed.
pub open spec fn delimiter_bits_of(s: Seq<u8>) -> u64 {
    or_bits(s, |b: u8| delimiter_bit_spec(b))
}

pub fn delimiter_bits_for_bytes(bytes: &[u8]) -> (r: u64)
    ensures
        r == delimiter_bits_of(bytes@),
{
    let mut acc: u64 = 0;
    let mut i: usize = 0;
    while i < bytes.len()
        invariant
            i <= bytes@.len(),
            acc == delimiter_bits_of(bytes@.take(i as int)),
        decreases bytes@.len() - i,
    {
        proof {
            assert(bytes@.take(i + 1).drop_last() =~= bytes@.take(i as int));
        }
        acc = acc | delimiter_bit(bytes[i]);
        i = i + 1;
    }
    assert(bytes@.take(i as int) =~= bytes@);
    acc
}

/// The cue of a byte string: the exact-state family bit, role and
/// delimiter bits over the first 64 bytes, the length-bucket bit and the low
/// 16 bits of the rolling hash.
pub open spec fn sparse_cue_of(bytes: Seq<u8>) -> SparseCue {
    let head = bytes.take(if bytes.len() < 64 { bytes.len() as int } else { 64 });
    SparseCue {
        family_bits: 1,
        role_bits: or_bits(head, |b: u8| byte_role_spec(b)),
        delimiter_bits: delimiter_bits_of(head),
        length_bucket_bits: if bytes.len() == 0 { 0 } else { 1u64 << length_bucket_spec(bytes.len()) },
        temporal_bits: rolling_hash_spec(bytes) & 0xffff,
    }
}

/// The cue of a payload of the given kind; every kind is indexed under the
/// exact-state family.
pub fn derive_sparse_cue_from_bytes(source_kind: SourceKind, bytes: &[u8]) -> (c: SparseCue)
    ensures
        c == sparse_cue_of(bytes@),
{
    let family = source_kind.cue_family();
    let plane = family.plane.code();
    let route = family.route_family.code();
    let family_bits: u64 = (plane as u64) | (route as u64);
    assert(plane == 1 && route == 1);
    assert(family_bits == 1) by (bit_vector)
        requires
            plane == 1u8 && route == 1u8 && family_bits == (plane as u64) | (route as u64);
    let n: usize = if bytes.len() < 64 { bytes.len() } else { 64 };
    let ghost head = bytes@.take(n as int);
    let mut role_bits: u64 = 0;
    let mut delimiter_bits: u64 = 0;
    let mut i: usize = 0;
    while i < n
        invariant
            n <= bytes@.len(),
            head == bytes@.take(n as int),
            i <= n,
            role_bits == or_bits(head.take(i as int), |b: u8| byte_role_spec(b)),
            delimiter_bits == delimiter_bits_of(head.take(i as int)),
        decreases n - i,
    {
        proof {
            assert(head.take(i + 1).drop_last() =~= head.take(i as int));
            assert(head.take(i + 1).last() == bytes@[i as int]);
        }
        let b = bytes[i];
        role_bits = role_bits | byte_role(b);
        delimiter_bits = delimiter_bits | delimiter_bit(b);
        i = i + 1;
    }
    assert(head.take(i as int) =~= head);
    let len_bucket_bits: u64 = if bytes.len() == 0 { 0 } else { 1u64 << length_bucket(bytes.len()) };
    let temporal_bits = rolling_assembly_hash(bytes) & 0xffff;
    SparseCue::new(family_bits, role_bits, delimiter_bits, len_bucket_bits, temporal_bits)
}

// ---------------------------------------------------------------------------
// Support votes and agreement
// ---------------------------------------------------------------------------

/// The role bits of the first slot with this index, or `fallback`.
pub open spec fn slot_bits_for(slots: Seq<SlotDescriptor>, index: u16, fallback: u64) -> u64
    decreases slots.len(),
{
    if slots.len() == 0 {
        fallback
    } else if slots[0].slot_index == index {
        slots[0].role_bits
    } else {
        slot_bits_for(slots.drop_first(), index, fallback)
    }
}

/// The vote a node casts for its assembly; a literal island casts none.
pub open spec fn node_vote(node: AssemblyBodyNode, rs: RoleSignature, slots: Seq<SlotDescriptor>) -> Option<AssemblySupportVote> {
    match node {
        AssemblyBodyNode::LiteralIsland { .. } => None,
        AssemblyBodyNode::DelimiterAnchor { bytes } => Some(AssemblySupportVote {
            role_bits: rs.role_bits,
            delimiter_bits: delimiter_bits_of(bytes@),
            slot_bits: 0,
            overlap_bytes: clamp_u32(bytes@.len()),
            support_bytes: clamp_u32(bytes@.len()),
        }),
        AssemblyBodyNode::SubstrateSpan { reference } => Some(AssemblySupportVote {
            role_bits: rs.role_bits,
            delimiter_bits: rs.delimiter_role_bits,
            slot_bits: rs.slot_role_bits,
            overlap_bytes: reference.len_spec(),
            support_bytes: reference.len_spec(),
        }),
        AssemblyBodyNode::SlotPlaceholder { slot_index, role_bits, bytes } => Some(AssemblySupportVote {
            role_bits,
            delimiter_bits: rs.delimiter_role_bits,
            slot_bits: slot_bits_for(slots, slot_index, role_bits),
            overlap_bytes: clamp_u32(bytes@.len()),
            support_bytes: clamp_u32(bytes@.len()),
        }),
        AssemblyBodyNode::MotifLink { bytes, .. } => Some(AssemblySupportVote {
            role_bits: rs.role_bits,
            delimiter_bits: rs.delimiter_role_bits,
            slot_bits: rs.slot_role_bits,
            overlap_bytes: clamp_u32(bytes@.len()),
            support_bytes: clamp_u32(bytes@.len()),
        }),
        AssemblyBodyNode::TypedBoundary { bytes, .. } => Some(AssemblySupportVote {
            role_bits: rs.role_bits,
            delimiter_bits: delimiter_bits_of(bytes@),
            slot_bits: rs.slot_role_bits,
            overlap_bytes: clamp_u32(bytes@.len()),
            support_bytes: clamp_u32(bytes@.len()),
        }),
    }
}

/// The votes of the nodes, in node order.
pub open spec fn votes_for(nodes: Seq<AssemblyBodyNode>, rs: RoleSignature, slots: Seq<SlotDescriptor>) -> Seq<AssemblySupportVote>
    decreases nodes.len(),
{
    if nodes.len() == 0 {
        Seq::empty()
    } else {
        let rest = votes_for(nodes.drop_last(), rs, slots);
        match node_vote(nodes.last(), rs, slots) {
            Some(v) => rest.push(v),
            None => rest,
        }
    }
}

fn clamp_len32(n: usize) -> (r: u32)
    ensures
        r == clamp_u32(n as nat),
{
    if n > 0xffff_ffffusize {
        0xffff_ffffu32
    } else {
        n as u32
    }
}

fn slot_bits_lookup(slots: &[SlotDescriptor], index: u16, fallback: u64) -> (r: u64)
    ensures
        r == slot_bits_for(slots@, index, fallback),
{
    let mut i: usize = 0;
    assert(slots@.skip(0) =~= slots@);
    while i < slots.len()
        invariant
            i <= slots@.len(),
            slot_bits_for(slots@, index, fallback) == slot_bits_for(slots@.skip(i as int), index, fallback),
        decreases slots@.len() - i,
    {
        proof {
            let rest = slots@.skip(i as int);
            assert(rest[0] == slots@[i as int]);
            assert(rest.drop_first() =~= slots@.skip(i + 1));
        }
        if slots[i].slot_index == index {
            return slots[i].role_bits;
        }
        i = i + 1;
    }
    fallback
}

fn node_vote_exec(node: &AssemblyBodyNode, rs: RoleSignature, slots: &[SlotDescriptor]) -> (r: Option<AssemblySupportVote>)
    ensures
        r == node_vote(*node, rs, slots@),
{
    match node {
        AssemblyBodyNode::LiteralIsland { .. } => None,
        AssemblyBodyNode::DelimiterAnchor { bytes } => Some(AssemblySupportVote {
            role_bits: rs.role_bits,
            delimiter_bits: delimiter_bits_for_bytes(bytes.as_slice()),
            slot_bits: 0,
            overlap_bytes: clamp_len32(bytes.len()),
            support_bytes: clamp_len32(bytes.len()),
        }),
        AssemblyBodyNode::SubstrateSpan { reference } => Some(AssemblySupportVote {
            role_bits: rs.role_bits,
            delimiter_bits: rs.delimiter_role_bits,
            slot_bits: rs.slot_role_bits,
            overlap_bytes: reference.byte_len(),
            support_bytes: reference.byte_len(),
        }),
        AssemblyBodyNode::SlotPlaceholder { slot_index, role_bits, bytes } => Some(AssemblySupportVote {
            role_bits: *role_bits,
            delimiter_bits: rs.delimiter_role_bits,
            slot_bits: slot_bits_lookup(slots, *slot_index, *role_bits),
            overlap_bytes: clamp_len32(bytes.len()),
            support_bytes: clamp_len32(bytes.len()),
        }),
        AssemblyBodyNode::MotifLink { bytes, .. } => Some(AssemblySupportVote {
            role_bits: rs.role_bits,
            delimiter_bits: rs.delimiter_role_bits,
            slot_bits: rs.slot_role_bits,
            overlap_bytes: clamp_len32(bytes.len()),
            support_bytes: clamp_len32(bytes.len()),
        }),
        AssemblyBodyNode::TypedBoundary { bytes, .. } => Some(AssemblySupportVote {
            role_bits: rs.role_bits,
            delimiter_bits: delimiter_bits_for_bytes(bytes.as_slice()),
            slot_bits: rs.slot_role_bits,
            overlap_bytes: clamp_len32(bytes.len()),
            support_bytes: clamp_len32(bytes.len()),
        }),
    }
}

/// The votes of a body's nodes, in node order.
pub fn derive_assembly_support_votes(body: &AssemblyBody, role_signature: RoleSignature, slots: &[SlotDescriptor]) -> (r: Vec<AssemblySupportVote>)
    ensures
        r@ == votes_for(body.nodes@, role_signature, slots@),
{
    let mut votes: Vec<AssemblySupportVote> = Vec::new();
    let mut i: usize = 0;
    while i < body.nodes.len()
        invariant
            i <= body.nodes@.len(),
            votes@ == votes_for(body.nodes@.take(i as int), role_signature, slots@),
        decreases body.nodes@.len() - i,
    {
        proof {
            assert(body.nodes@.take(i + 1).drop_last() =~= body.nodes@.take(i as int));
        }
        match node_vote_exec(&body.nodes[i], role_signature, slots) {
            Some(v) => votes.push(v),
            None => {},
        }
        i = i + 1;
    }
    assert(body.nodes@.take(i as int) =~= body.nodes@);
    votes
}

/// The sum of the votes' support bytes.
pub open spec fn support_sum(v: Seq<AssemblySupportVote>) -> nat
    decreases v.len(),
{
    if v.len() == 0 {
        0
    } else {
        support_sum(v.drop_last()) + v.last().support_bytes as nat
    }
}

/// The sum of the votes' overlap bytes.
pub open spec fn overlap_sum(v: Seq<AssemblySupportVote>) -> nat
    decreases v.len(),
{
    if v.len() == 0 {
        0
    } else {
        overlap_sum(v.drop_last()) + v.last().overlap_bytes as nat
    }
}

/// The number of slots that are not required.
pub open spec fn optional_slot_count(s: Seq<SlotDescriptor>) -> nat
    decreases s.len(),
{
    if s.len() == 0 {
        0
    } else {
        optional_slot_count(s.drop_last()) + if s.last().required { 0nat } else { 1nat }
    }
}

pub open spec fn is_motif_node(n: AssemblyBodyNode) -> bool {
    n is MotifLink
}

pub open spec fn is_delimiter_node(n: AssemblyBodyNode) -> bool {
    n is DelimiterAnchor
}

pub open spec fn is_decoded_node(n: AssemblyBodyNode) -> bool {
    !(n is LiteralIsland) && !(n is DelimiterAnchor)
}

/// What summarizing a body gives, when none of the unsaturated sums and
/// products overflows.
pub open spec fn agreement_spec(
    nodes: Seq<AssemblyBodyNode>,
    slots: Seq<SlotDescriptor>,
    dependency_count: nat,
    votes: Seq<AssemblySupportVote>,
) -> AssemblyAgreementSummary {
    let literal_burden = sum_nodes(nodes, |n: AssemblyBodyNode| node_literal_len(n)) as u32;
    let output = sum_nodes(nodes, |n: AssemblyBodyNode| node_output_len(n)) as u32;
    let support_count = clamp_u32(votes.len());
    let support_bytes = support_sum(votes) as u32;
    let overlap_bytes = overlap_sum(votes) as u32;
    let optional_slot_penalty = (clamp_u32(optional_slot_count(slots)) * 4) as u32;
    let motif_count = count_nodes(nodes, |n: AssemblyBodyNode| is_motif_node(n));
    let motif_penalty = (clamp_u32(if motif_count == 0 { 0 } else { (motif_count - 1) as nat }) * 3) as u32;
    let residual_penalty: u32 = if output == 0 { 0 } else { (sat_mul_u32(literal_burden, 32) / output) as u32 };
    let ambiguity = sat_add_u32(sat_add_u32(optional_slot_penalty, motif_penalty), residual_penalty);
    let decode_burden = clamp_u32(count_nodes(nodes, |n: AssemblyBodyNode| is_decoded_node(n)));
    let synchronization_cost = sat_add_u32(
        sat_mul_u32(clamp_u32(dependency_count), 6),
        (clamp_u32(count_nodes(nodes, |n: AssemblyBodyNode| is_span_node(n))) * 2) as u32,
    );
    let support = sat_add_u32(support_bytes, sat_mul_u32(support_count, 4));
    let estimated_wire_cost = sat_add_u32(
        sat_add_u32(sat_add_u32(literal_burden, decode_burden), synchronization_cost),
        clamp_u32(count_nodes(nodes, |n: AssemblyBodyNode| is_delimiter_node(n))),
    );
    let score = sat_sub_u32(
        sat_sub_u32(sat_sub_u32(sat_sub_u32(sat_add_u32(support, (overlap_bytes / 2) as u32), ambiguity), (literal_burden / 2) as u32), (synchronization_cost / 2) as u32),
        0,
    );
    AssemblyAgreementSummary {
        agreement_score: if score < 1 { 1 } else { score },
        literal_burden,
        ambiguity,
        support,
        support_count,
        estimated_wire_cost,
        decode_burden,
        synchronization_cost,
    }
}

/// The limits under which summarizing a body does not overflow.
pub open spec fn agreement_fits(nodes: Seq<AssemblyBodyNode>, slots: Seq<SlotDescriptor>, votes: Seq<AssemblySupportVote>) -> bool {
    &&& sum_nodes(nodes, |n: AssemblyBodyNode| node_literal_len(n)) <= u32::MAX
    &&& sum_nodes(nodes, |n: AssemblyBodyNode| node_output_len(n)) <= u32::MAX
    &&& support_sum(votes) <= u32::MAX
    &&& overlap_sum(votes) <= u32::MAX
    &&& clamp_u32(optional_slot_count(slots)) * 4 <= u32::MAX
    &&& clamp_u32(count_nodes(nodes, |n: AssemblyBodyNode| is_motif_node(n))) * 3 <= u32::MAX
    &&& clamp_u32(count_nodes(nodes, |n: AssemblyBodyNode| is_span_node(n))) * 2 <= u32::MAX
}

fn count_matching(nodes: &Vec<AssemblyBodyNode>, which: u8) -> (n: usize)
    requires
        which < 3,
    ensures
        which == 0 ==> n == count_nodes(nodes@, |x: AssemblyBodyNode| is_motif_node(x)),
        which == 1 ==> n == count_nodes(nodes@, |x: AssemblyBodyNode| is_delimiter_node(x)),
        which == 2 ==> n == count_nodes(nodes@, |x: AssemblyBodyNode| is_decoded_node(x)),
{
    let ghost p: spec_fn(AssemblyBodyNode) -> bool = if which == 0 {
        |x: AssemblyBodyNode| is_motif_node(x)
    } else if which == 1 {
        |x: AssemblyBodyNode| is_delimiter_node(x)
    } else {
        |x: AssemblyBodyNode| is_decoded_node(x)
    };
    let mut n: usize = 0;
    let mut i: usize = 0;
    while i < nodes.len()
        invariant
            i <= nodes@.len(),
            n <= i,
            n == count_nodes(nodes@.take(i as int), p),
            which == 0 ==> p == |x: AssemblyBodyNode| is_motif_node(x),
            which == 1 ==> p == |x: AssemblyBodyNode| is_delimiter_node(x),
            which == 2 ==> p == |x: AssemblyBodyNode| is_decoded_node(x),
            which < 3,
        decreases nodes@.len() - i,
    {
        proof {
            assert(nodes@.take(i + 1).drop_last() =~= nodes@.take(i as int));
        }
        let hit = match &nodes[i] {
            AssemblyBodyNode::MotifLink { .. } => which == 0 || which == 2,
            AssemblyBodyNode::DelimiterAnchor { .. } => which == 1,
            AssemblyBodyNode::LiteralIsland { .. } => false,
            _ => which == 2,
        };
        if hit {
            n = n + 1;
        }
        i = i + 1;
    }
    assert(nodes@.take(i as int) =~= nodes@);
    n
}

/// The agreement summary of a candidate body.
pub fn summarize_assembly_agreement(
    body: &AssemblyBody,
    slots: &[SlotDescriptor],
    dependencies: &[ObjectDependency],
    support_votes: &[AssemblySupportVote],
) -> (r: AssemblyAgreementSummary)
    requires
        agreement_fits(body.nodes@, slots@, support_votes@),
    ensures
        r == agreement_spec(body.nodes@, slots@, dependencies@.len(), support_votes@),
{
    let literal_burden = body.literal_len();
    let output = body.output_len();
    let support_count = clamp_len32(support_votes.len());
    let mut support_bytes: u32 = 0;
    let mut overlap_bytes: u32 = 0;
    let mut i: usize = 0;
    while i < support_votes.len()
        invariant
            i <= support_votes@.len(),
            support_sum(support_votes@) <= u32::MAX,
            overlap_sum(support_votes@) <= u32::MAX,
            support_bytes == support_sum(support_votes@.take(i as int)),
            overlap_bytes == overlap_sum(support_votes@.take(i as int)),
        decreases support_votes@.len() - i,
    {
        proof {
            assert(support_votes@.take(i + 1).drop_last() =~= support_votes@.take(i as int));
            lemma_vote_sums_prefix(support_votes@, i as int + 1);
        }
        support_bytes = support_bytes + support_votes[i].support_bytes;
        overlap_bytes = overlap_bytes + support_votes[i].overlap_bytes;
        i = i + 1;
    }
    assert(support_votes@.take(i as int) =~= support_votes@);
    let mut optional: usize = 0;
    let mut j: usize = 0;
    while j < slots.len()
        invariant
            j <= slots@.len(),
            optional <= j,
            optional == optional_slot_count(slots@.take(j as int)),
        decreases slots@.len() - j,
    {
        proof {
            assert(slots@.take(j + 1).drop_last() =~= slots@.take(j as int));
        }
        if !slots[j].required {
            optional = optional + 1;
        }
        j = j + 1;
    }
    assert(slots@.take(j as int) =~= slots@);
    let optional_slot_penalty = clamp_len32(optional) * 4;
    let motif_count = count_matching(&body.nodes, 0);
    let motif_penalty = clamp_len32(if motif_count == 0 { 0 } else { motif_count - 1 }) * 3;
    let residual_penalty: u32 = if output == 0 { 0 } else { saturating_mul_u32(literal_burden, 32) / output };
    let ambiguity = optional_slot_penalty.saturating_add(motif_penalty).saturating_add(residual_penalty);
    let decode_burden = clamp_len32(count_matching(&body.nodes, 2));
    let synchronization_cost = saturating_mul_u32(clamp_len32(dependencies.len()), 6).saturating_add(
        clamp_len32(body.dependency_component_count()) * 2,
    );
    let support = support_bytes.saturating_add(saturating_mul_u32(support_count, 4));
    let estimated_wire_cost = literal_burden.saturating_add(decode_burden).saturating_add(
        synchronization_cost,
    ).saturating_add(clamp_len32(count_matching(&body.nodes, 1)));
    let score = support.saturating_add(overlap_bytes / 2).saturating_sub(ambiguity).saturating_sub(
        literal_burden / 2,
    ).saturating_sub(synchronization_cost / 2);
    AssemblyAgreementSummary {
        agreement_score: if score < 1 { 1 } else { score },
        literal_burden,
        ambiguity,
        support,
        support_count,
        estimated_wire_cost,
        decode_burden,
        synchronization_cost,
    }
}

proof fn lemma_vote_sums_prefix(v: Seq<AssemblySupportVote>, n: int)
    requires
        0 <= n <= v.len(),
    ensures
        support_sum(v.take(n)) <= support_sum(v),
        overlap_sum(v.take(n)) <= overlap_sum(v),
    decreases v.len() - n,
{
    if n < v.len() {
        assert(v.take(n + 1).drop_last() =~= v.take(n));
        lemma_vote_sums_prefix(v, n + 1);
    } else {
        assert(v.take(n) =~= v);
    }
}

/// The candidate built from its parts, with the body's votes and agreement.
pub open spec fn candidate_from_parts(
    c: AssemblyExtractionCandidate,
    assembly_kind: AssemblyKind,
    role_signature: RoleSignature,
    slots: Seq<SlotDescriptor>,
    nodes: Seq<AssemblyBodyNode>,
    cue: SparseCue,
    canonical_length_min: u32,
    canonical_length_max: u32,
    structural_hash: u64,
) -> bool {
    &&& c.assembly_kind == assembly_kind
    &&& c.role_signature == role_signature
    &&& c.slots@ == slots
    &&& c.body.nodes@ == nodes
    &&& c.dependency_closure.version == crate::chpmt::ObjectVersion { schema_version: 0, object_revision: 0 }
    &&& c.dependency_closure.dependencies@.len() == 0
    &&& c.cue == cue
    &&& c.canonical_length_min == canonical_length_min
    &&& c.canonical_length_max == canonical_length_max
    &&& c.structural_hash == structural_hash
    &&& c.support_votes@ == votes_for(nodes, role_signature, slots)
    &&& c.agreement == agreement_spec(nodes, slots, 0, votes_for(nodes, role_signature, slots))
}

fn build_assembly_candidate(
    assembly_kind: AssemblyKind,
    role_signature: RoleSignature,
    slots: Vec<SlotDescriptor>,
    nodes: Vec<AssemblyBodyNode>,
    cue: SparseCue,
    canonical_length_min: u32,
    canonical_length_max: u32,
    structural_hash: u64,
) -> (c: AssemblyExtractionCandidate)
    requires
        agreement_fits(nodes@, slots@, votes_for(nodes@, role_signature, slots@)),
    ensures
        candidate_from_parts(c, assembly_kind, role_signature, slots@, nodes@, cue, canonical_length_min, canonical_length_max, structural_hash),
{
    let body = AssemblyBody { nodes };
    let support_votes = derive_assembly_support_votes(&body, role_signature, slots.as_slice());
    let dependency_closure = DependencyClosure {
        version: crate::chpmt::ObjectVersion { schema_version: 0, object_revision: 0 },
        dependencies: Vec::new(),
    };
    let agreement = summarize_assembly_agreement(&body, slots.as_slice(), dependency_closure.dependencies.as_slice(), support_votes.as_slice());
    AssemblyExtractionCandidate {
        assembly_kind,
        role_signature,
        slots,
        body,
        dependency_closure,
        cue,
        canonical_length_min,
        canonical_length_max,
        structural_hash,
        support_votes,
        agreement,
    }
}

// ---------------------------------------------------------------------------
// Node shapes
// ---------------------------------------------------------------------------

/// What a body node holds, as values.
pub enum NodeShape {
    DelimiterAnchor { bytes: Seq<u8> },
    LiteralIsland { bytes: Seq<u8> },
    SubstrateSpan { reference: crate::assembly::AssemblyComponentRef },
    SlotPlaceholder { slot_index: u16, role_bits: u64, bytes: Seq<u8> },
    MotifLink { motif_hash: u64, bytes: Seq<u8> },
    TypedBoundary { label: Seq<char>, bytes: Seq<u8> },
}

pub open spec fn node_shape(n: AssemblyBodyNode) -> NodeShape {
    match n {
        AssemblyBodyNode::DelimiterAnchor { bytes } => NodeShape::DelimiterAnchor { bytes: bytes@ },
        AssemblyBodyNode::LiteralIsland { bytes } => NodeShape::LiteralIsland { bytes: bytes@ },
        AssemblyBodyNode::SubstrateSpan { reference } => NodeShape::SubstrateSpan { reference },
        AssemblyBodyNode::SlotPlaceholder { slot_index, role_bits, bytes } => NodeShape::SlotPlaceholder { slot_index, role_bits, bytes: bytes@ },
        AssemblyBodyNode::MotifLink { motif_hash, bytes } => NodeShape::MotifLink { motif_hash, bytes: bytes@ },
        AssemblyBodyNode::TypedBoundary { label, bytes } => NodeShape::TypedBoundary { label: label@, bytes: bytes@ },
    }
}

pub open spec fn shapes(nodes: Seq<AssemblyBodyNode>) -> Seq<NodeShape> {
    nodes.map_values(|n: AssemblyBodyNode| node_shape(n))
}

/// The first `limit` of `s`.
pub open spec fn first_up_to<T>(s: Seq<T>, limit: nat) -> Seq<T> {
    if s.len() <= limit {
        s
    } else {
        s.take(limit as int)
    }
}

// ---------------------------------------------------------------------------
// Contiguous motifs
// ---------------------------------------------------------------------------

pub open spec fn motif_min_len(config: crate::assembly::AssemblyExtractionConfig) -> nat {
    if config.min_motif_len == 0 { 1 } else { config.min_motif_len as nat }
}

pub open spec fn motif_max_len(config: crate::assembly::AssemblyExtractionConfig) -> nat {
    if config.max_motif_len >= config.min_motif_len { config.max_motif_len as nat } else { config.min_motif_len as nat }
}

/// The motif at `start`: at most `max_len` bytes.
pub open spec fn motif_at(bytes: Seq<u8>, start: nat, max_len: nat) -> Seq<u8> {
    let rem = bytes.len() - start;
    bytes.subrange(start as int, start + if rem < max_len { rem } else { max_len as int })
}

/// Every byte equals the next.
pub open spec fn is_uniform(m: Seq<u8>) -> bool {
    forall|i: int| 0 <= i < m.len() - 1 ==> m[i] == #[trigger] m[i + 1]
}

/// The starts, below `n`, whose motif is at least `min_len` long and not uniform.
pub open spec fn motif_starts(bytes: Seq<u8>, min_len: nat, max_len: nat, n: nat) -> Seq<nat>
    decreases n,
{
    if n == 0 {
        Seq::empty()
    } else {
        let rest = motif_starts(bytes, min_len, max_len, (n - 1) as nat);
        let st = (n - 1) as nat;
        if st < bytes.len() && bytes.len() - st >= min_len && !is_uniform(motif_at(bytes, st, max_len)) {
            rest.push(st)
        } else {
            rest
        }
    }
}

/// The candidate for the motif at `start`.
pub open spec fn motif_candidate(c: AssemblyExtractionCandidate, bytes: Seq<u8>, start: nat, max_len: nat) -> bool {
    let m = motif_at(bytes, start, max_len);
    let cue = sparse_cue_of(m);
    &&& shapes(c.body.nodes@) == seq![NodeShape::MotifLink { motif_hash: rolling_hash_spec(m), bytes: m }]
    &&& candidate_from_parts(
        c,
        AssemblyKind::ContiguousMotif,
        RoleSignature { role_bits: cue.role_bits, delimiter_role_bits: cue.delimiter_bits, slot_role_bits: 0 },
        Seq::empty(),
        c.body.nodes@,
        cue,
        m.len() as u32,
        m.len() as u32,
        rolling_hash_spec(m),
    )
}

fn all_equal_neighbors(m: &[u8]) -> (r: bool)
    ensures
        r == is_uniform(m@),
{
    if m.len() == 0 {
        return true;
    }
    let mut i: usize = 0;
    while i < m.len() - 1
        invariant
            m@.len() > 0,
            i <= m@.len() - 1,
            forall|j: int| 0 <= j < i ==> m@[j] == #[trigger] m@[j + 1],
        decreases m@.len() - i,
    {
        if m[i] != m[i + 1] {
            return false;
        }
        i = i + 1;
    }
    true
}

proof fn lemma_single_node_fits(n: AssemblyBodyNode, rs: RoleSignature)
    requires
        node_inline_len_of(n) <= 0xffff,
        n is MotifLink || n is DelimiterAnchor,
    ensures
        agreement_fits(seq![n], Seq::empty(), votes_for(seq![n], rs, Seq::empty())),
{
    reveal_with_fuel(sum_nodes, 2);
    reveal_with_fuel(count_nodes, 2);
    reveal_with_fuel(votes_for, 2);
    reveal_with_fuel(support_sum, 2);
    reveal_with_fuel(overlap_sum, 2);
    reveal_with_fuel(optional_slot_count, 1);
    assert(seq![n].drop_last() =~= Seq::<AssemblyBodyNode>::empty());
}

pub open spec fn node_inline_len_of(n: AssemblyBodyNode) -> nat {
    crate::assembly::node_inline_bytes(n).len()
}

/// Contiguous motifs: from each start among the first 256 with at least the
/// minimum length left, the motif of up to the maximum length, unless every
/// byte of it equals the next; at most eight.
pub fn extract_contiguous_motif_candidates(
    source_kind: SourceKind,
    bytes: &[u8],
    config: crate::assembly::AssemblyExtractionConfig,
) -> (r: Vec<AssemblyExtractionCandidate>)
    ensures
        ({
            let starts = first_up_to(motif_starts(bytes@, motif_min_len(config), motif_max_len(config), if bytes@.len() < 256 { bytes@.len() } else { 256 }), 8);
            &&& r@.len() == starts.len()
            &&& forall|i: int| 0 <= i < r@.len() ==> motif_candidate(#[trigger] r@[i], bytes@, starts[i], motif_max_len(config))
        }),
{
    let min_len: usize = if config.min_motif_len == 0 { 1 } else { config.min_motif_len as usize };
    let max_len: usize = if config.max_motif_len >= config.min_motif_len { config.max_motif_len as usize } else { config.min_motif_len as usize };
    let scan_cap: usize = if bytes.len() < 256 { bytes.len() } else { 256 };
    let ghost all = motif_starts(bytes@, min_len as nat, max_len as nat, scan_cap as nat);
    let mut out: Vec<AssemblyExtractionCandidate> = Vec::new();
    let ghost mut taken: Seq<nat> = Seq::empty();
    let mut start: usize = 0;
    while start < scan_cap
        invariant
            min_len == motif_min_len(config),
            max_len == motif_max_len(config),
            max_len <= 0xffff,
            scan_cap <= bytes@.len(),
            scan_cap == (if bytes@.len() < 256 { bytes@.len() } else { 256 }),
            all == motif_starts(bytes@, min_len as nat, max_len as nat, scan_cap as nat),
            start <= scan_cap,
            taken == motif_starts(bytes@, min_len as nat, max_len as nat, start as nat),
            taken.len() < 8,
            out@.len() == taken.len(),
            forall|i: int| 0 <= i < out@.len() ==> motif_candidate(#[trigger] out@[i], bytes@, taken[i], max_len as nat),
        decreases scan_cap - start,
    {
        let remaining = bytes.len() - start;
        if remaining < min_len {
            proof {
                lemma_motif_starts_stop(bytes@, min_len as nat, max_len as nat, start as nat, scan_cap as nat);
            }
            return out;
        }
        let len: usize = if remaining < max_len { remaining } else { max_len };
        let motif = crate::wire::copy_range(bytes, start, start + len);
        proof {
            assert(motif@ =~= motif_at(bytes@, start as nat, max_len as nat));
        }
        if !all_equal_neighbors(motif.as_slice()) {
            let cue = derive_sparse_cue_from_bytes(source_kind, motif.as_slice());
            let role_signature = RoleSignature { role_bits: cue.role_bits, delimiter_role_bits: cue.delimiter_bits, slot_role_bits: 0 };
            let h = rolling_assembly_hash(motif.as_slice());
            let ghost mv = motif@;
            let mut nodes: Vec<AssemblyBodyNode> = Vec::new();
            nodes.push(AssemblyBodyNode::MotifLink { motif_hash: h, bytes: motif });
            proof {
                assert(nodes@ =~= seq![nodes@[0]]);
                lemma_single_node_fits(nodes@[0], role_signature);
            }
            let c = build_assembly_candidate(
                AssemblyKind::ContiguousMotif,
                role_signature,
                Vec::new(),
                nodes,
                cue,
                len as u32,
                len as u32,
                h,
            );
            proof {
                assert(shapes(c.body.nodes@) =~= seq![NodeShape::MotifLink { motif_hash: rolling_hash_spec(mv), bytes: mv }]);
                assert(c.slots@ =~= Seq::<SlotDescriptor>::empty());
            }
            let ghost cg = c;
            assert(motif_candidate(cg, bytes@, start as nat, max_len as nat));
            let ghost before_out = out@;
            out.push(c);
            proof {
                taken = taken.push(start as nat);
                assert forall|i: int| 0 <= i < out@.len() implies motif_candidate(#[trigger] out@[i], bytes@, taken[i], max_len as nat) by {
                    if i < before_out.len() {
                        assert(out@[i] == before_out[i]);
                    } else {
                        assert(out@[i] == cg);
                    }
                }
            }
            if out.len() >= 8 {
                proof {
                    assert(motif_starts(bytes@, min_len as nat, max_len as nat, start as nat + 1) == taken);
                    lemma_motif_starts_prefix(bytes@, min_len as nat, max_len as nat, start as nat + 1, scan_cap as nat);
                }
                return out;
            }
        }
        start = start + 1;
    }
    proof {
        if start == scan_cap {
            assert(taken == all);
        }
    }
    out
}

/// Once a start has fewer than `min_len` bytes left, no later start adds one.
proof fn lemma_motif_starts_stop(bytes: Seq<u8>, min_len: nat, max_len: nat, start: nat, n: nat)
    requires
        start <= n,
        n <= bytes.len(),
        bytes.len() - start < min_len,
    ensures
        motif_starts(bytes, min_len, max_len, n) == motif_starts(bytes, min_len, max_len, start),
    decreases n - start,
{
    if n > start {
        lemma_motif_starts_stop(bytes, min_len, max_len, start, (n - 1) as nat);
    }
}

/// The starts below `k` are a prefix of those below `n`.
proof fn lemma_motif_starts_prefix(bytes: Seq<u8>, min_len: nat, max_len: nat, k: nat, n: nat)
    requires
        k <= n,
    ensures
        motif_starts(bytes, min_len, max_len, k).len() <= motif_starts(bytes, min_len, max_len, n).len(),
        motif_starts(bytes, min_len, max_len, n).take(motif_starts(bytes, min_len, max_len, k).len() as int) == motif_starts(bytes, min_len, max_len, k),
    decreases n - k,
{
    if n > k {
        lemma_motif_starts_prefix(bytes, min_len, max_len, k, (n - 1) as nat);
        let a = motif_starts(bytes, min_len, max_len, k);
        let b = motif_starts(bytes, min_len, max_len, (n - 1) as nat);
        let c = motif_starts(bytes, min_len, max_len, n);
        assert(c.take(a.len() as int) =~= b.take(a.len() as int));
    } else {
        let a = motif_starts(bytes, min_len, max_len, k);
        assert(a.take(a.len() as int) =~= a);
    }
}

// ---------------------------------------------------------------------------
// Delimiter-bounded segments
// ---------------------------------------------------------------------------

/// The segments found scanning from `i`: outside a segment a delimiter byte
/// opens one; inside, the same byte closes it, and the end of the input
/// ends it. Each is `(opening index, end index)`; only segments of at least
/// `min_len` bytes are kept.
pub open spec fn delimited_segments(bytes: Seq<u8>, min_len: nat, i: nat, open: Option<nat>) -> Seq<(nat, nat)>
    decreases bytes.len() - i,
{
    if i >= bytes.len() {
        match open {
            Some(p) => if bytes.len() - (p + 1) >= min_len {
                seq![(p, bytes.len())]
            } else {
                Seq::empty()
            },
            None => Seq::empty(),
        }
    } else {
        match open {
            None => if is_delimiter_spec(bytes[i as int]) {
                delimited_segments(bytes, min_len, i + 1, Some(i))
            } else {
                delimited_segments(bytes, min_len, i + 1, None)
            },
            Some(p) => if bytes[i as int] == bytes[p as int] {
                if i - (p + 1) >= min_len {
                    seq![(p, i)] + delimited_segments(bytes, min_len, i + 1, None)
                } else {
                    delimited_segments(bytes, min_len, i + 1, None)
                }
            } else {
                delimited_segments(bytes, min_len, i + 1, Some(p))
            },
        }
    }
}

/// The candidate for the segment opened at `p` and ended at `e`.
pub open spec fn delimited_candidate(c: AssemblyExtractionCandidate, bytes: Seq<u8>, p: nat, e: nat) -> bool {
    let d = bytes[p as int];
    let seg = bytes.subrange(p as int + 1, e as int);
    let cue = sparse_cue_of(seg);
    &&& shapes(c.body.nodes@) == seq![
        NodeShape::DelimiterAnchor { bytes: seq![d] },
        NodeShape::MotifLink { motif_hash: rolling_hash_spec(seg), bytes: seg },
        NodeShape::DelimiterAnchor { bytes: seq![d] },
    ]
    &&& candidate_from_parts(
        c,
        AssemblyKind::DelimiterBounded,
        RoleSignature { role_bits: cue.role_bits, delimiter_role_bits: cue.delimiter_bits | delimiter_bit_spec(d), slot_role_bits: 0 },
        Seq::empty(),
        c.body.nodes@,
        cue,
        (seg.len() + 2) as u32,
        (seg.len() + 2) as u32,
        rolling_hash_spec(seg) ^ ((d as u64) << 48u64),
    )
}

proof fn lemma_three_node_fits(a: AssemblyBodyNode, b: AssemblyBodyNode, c: AssemblyBodyNode, rs: RoleSignature)
    requires
        a is DelimiterAnchor,
        b is MotifLink,
        c is DelimiterAnchor,
        node_inline_len_of(a) == 1,
        node_inline_len_of(c) == 1,
        node_inline_len_of(b) <= 0xffff_0000,
    ensures
        agreement_fits(seq![a, b, c], Seq::empty(), votes_for(seq![a, b, c], rs, Seq::empty())),
{
    reveal_with_fuel(sum_nodes, 4);
    reveal_with_fuel(count_nodes, 4);
    reveal_with_fuel(votes_for, 4);
    reveal_with_fuel(support_sum, 4);
    reveal_with_fuel(overlap_sum, 4);
    let s = seq![a, b, c];
    assert(s.drop_last() =~= seq![a, b]);
    assert(s.drop_last().drop_last() =~= seq![a]);
    assert(s.drop_last().drop_last().drop_last() =~= Seq::<AssemblyBodyNode>::empty());
    let v = votes_for(s, rs, Seq::empty());
    assert(v.drop_last() =~= votes_for(seq![a, b], rs, Seq::empty()));
}

/// Delimiter-bounded segments: each delimiter byte outside a segment opens
/// one, closed by the same byte or the end of the input; segments of at
/// least the minimum length, anchored by the delimiter on both sides; at
/// most eight.
pub fn extract_delimiter_bounded_candidates(
    source_kind: SourceKind,
    bytes: &[u8],
    config: crate::assembly::AssemblyExtractionConfig,
) -> (r: Vec<AssemblyExtractionCandidate>)
    requires
        bytes@.len() <= 0xffff_0000,
    ensures
        ({
            let segs = first_up_to(delimited_segments(bytes@, config.min_motif_len as nat, 0, None), 8);
            &&& r@.len() == segs.len()
            &&& forall|i: int| 0 <= i < r@.len() ==> delimited_candidate(#[trigger] r@[i], bytes@, segs[i].0, segs[i].1)
        }),
{
    let ghost min = config.min_motif_len as nat;
    let ghost target = delimited_segments(bytes@, min, 0, None);
    let mut out: Vec<AssemblyExtractionCandidate> = Vec::new();
    let ghost mut done: Seq<(nat, nat)> = Seq::empty();
    let mut start: usize = 0;
    while start < bytes.len()
        invariant
            bytes@.len() <= 0xffff_0000,
            min == config.min_motif_len as nat,
            target == delimited_segments(bytes@, min, 0, None),
            start <= bytes@.len(),
            done + delimited_segments(bytes@, min, start as nat, None) == target,
            done.len() < 8,
            out@.len() == done.len(),
            forall|i: int| 0 <= i < out@.len() ==> delimited_candidate(#[trigger] out@[i], bytes@, done[i].0, done[i].1),
        decreases bytes@.len() - start,
    {
        let ghost s0 = start;
        while start < bytes.len() && !is_delimiter(bytes[start])
            invariant
                s0 <= start <= bytes@.len(),
                done + delimited_segments(bytes@, min, start as nat, None) == target,
            decreases bytes@.len() - start,
        {
            start = start + 1;
        }
        if start >= bytes.len() {
            proof {
                assert(done =~= target);
            }
            return out;
        }
        let delimiter = bytes[start];
        let segment_start = start + 1;
        let mut end = segment_start;
        while end < bytes.len() && bytes[end] != delimiter
            invariant
                start < bytes@.len(),
                delimiter == bytes@[start as int],
                segment_start == start + 1,
                segment_start <= end <= bytes@.len(),
                delimited_segments(bytes@, min, segment_start as nat, Some(start as nat)) == delimited_segments(bytes@, min, end as nat, Some(start as nat)),
            decreases bytes@.len() - end,
        {
            end = end + 1;
        }
        let ghost emitted = end - segment_start >= min;
        proof {
            assert(delimited_segments(bytes@, min, start as nat, None) == delimited_segments(bytes@, min, segment_start as nat, Some(start as nat)));
            if end >= bytes@.len() {
                assert(delimited_segments(bytes@, min, (end + 1) as nat, None) == Seq::<(nat, nat)>::empty());
            }
            assert(delimited_segments(bytes@, min, start as nat, None) == if emitted {
                seq![(start as nat, end as nat)] + delimited_segments(bytes@, min, (end + 1) as nat, None)
            } else {
                delimited_segments(bytes@, min, (end + 1) as nat, None)
            });
        }
        if end - segment_start >= config.min_motif_len as usize {
            let segment = crate::wire::copy_range(bytes, segment_start, end);
            let ghost sv = segment@;
            let cue = derive_sparse_cue_from_bytes(source_kind, segment.as_slice());
            let role_signature = RoleSignature {
                role_bits: cue.role_bits,
                delimiter_role_bits: cue.delimiter_bits | delimiter_bit(delimiter),
                slot_role_bits: 0,
            };
            let h = rolling_assembly_hash(segment.as_slice());
            let total = (segment.len() + 2) as u32;
            let mut nodes: Vec<AssemblyBodyNode> = Vec::new();
            let mut open_anchor: Vec<u8> = Vec::new();
            open_anchor.push(delimiter);
            let mut close_anchor: Vec<u8> = Vec::new();
            close_anchor.push(delimiter);
            nodes.push(AssemblyBodyNode::DelimiterAnchor { bytes: open_anchor });
            nodes.push(AssemblyBodyNode::MotifLink { motif_hash: h, bytes: segment });
            nodes.push(AssemblyBodyNode::DelimiterAnchor { bytes: close_anchor });
            proof {
                assert(nodes@ =~= seq![nodes@[0], nodes@[1], nodes@[2]]);
                lemma_three_node_fits(nodes@[0], nodes@[1], nodes@[2], role_signature);
            }
            let c = build_assembly_candidate(
                AssemblyKind::DelimiterBounded,
                role_signature,
                Vec::new(),
                nodes,
                cue,
                total,
                total,
                h ^ ((delimiter as u64) << 48u64),
            );
            let ghost cg = c;
            proof {
                assert(shapes(c.body.nodes@) =~= seq![
                    NodeShape::DelimiterAnchor { bytes: seq![delimiter] },
                    NodeShape::MotifLink { motif_hash: rolling_hash_spec(sv), bytes: sv },
                    NodeShape::DelimiterAnchor { bytes: seq![delimiter] },
                ]);
                assert(c.slots@ =~= Seq::<SlotDescriptor>::empty());
                assert(sv =~= bytes@.subrange(start + 1, end as int));
                assert(delimited_candidate(cg, bytes@, start as nat, end as nat));
            }
            let ghost before_out = out@;
            out.push(c);
            proof {
                let d0 = done;
                done = done.push((start as nat, end as nat));
                assert forall|i: int| 0 <= i < out@.len() implies delimited_candidate(#[trigger] out@[i], bytes@, done[i].0, done[i].1) by {
                    if i < before_out.len() {
                        assert(out@[i] == before_out[i]);
                    } else {
                        assert(out@[i] == cg);
                    }
                }
                assert(d0 + (seq![(start as nat, end as nat)] + delimited_segments(bytes@, min, (end + 1) as nat, None)) =~= done + delimited_segments(bytes@, min, (end + 1) as nat, None));
            }
        }
        if end < bytes.len() {
            start = end + 1;
        } else {
            start = bytes.len();
            proof {
                assert(delimited_segments(bytes@, min, start as nat, None) =~= delimited_segments(bytes@, min, (end + 1) as nat, None));
            }
        }
        if out.len() >= 8 {
            proof {
                assert(target.take(8) =~= done);
            }
            return out;
        }
    }
    proof {
        assert(done =~= target);
    }
    out
}

// ---------------------------------------------------------------------------
// Splitting, searching and literal nodes
// ---------------------------------------------------------------------------

/// The pieces of `s` between separator bytes, as `(start, end)` ranges, from
/// position `i` with the current piece starting at `ps`; empty pieces count.
pub open spec fn split_from(s: Seq<u8>, i: nat, ps: nat, slot_seps: bool) -> Seq<(nat, nat)>
    decreases s.len() - i,
{
    if i >= s.len() {
        seq![(ps, s.len())]
    } else if is_sep(slot_seps, s[i as int]) {
        seq![(ps, i)] + split_from(s, i + 1, i + 1, slot_seps)
    } else {
        split_from(s, i + 1, ps, slot_seps)
    }
}

/// A field separator, or with `slot_seps` a separator inside a bracketed
/// structure.
pub open spec fn is_sep(slot_seps: bool, b: u8) -> bool {
    if slot_seps { is_slot_sep(b) } else { is_field_sep(b) }
}

/// Separators between fields: `,` `;` `|` and newline.
pub open spec fn is_field_sep(b: u8) -> bool {
    b == 0x2c || b == 0x3b || b == 0x7c || b == 0x0a
}

/// Separators inside a bracketed structure: `,` `:` `;` `|` and space.
pub open spec fn is_slot_sep(b: u8) -> bool {
    b == 0x2c || b == 0x3a || b == 0x3b || b == 0x7c || b == 0x20
}

/// The first index at or after `k` where `pat` occurs in `s`.
pub open spec fn find_from(s: Seq<u8>, pat: Seq<u8>, k: nat) -> Option<nat>
    decreases s.len() + 1 - k,
{
    if k + pat.len() > s.len() {
        None
    } else if s.subrange(k as int, k + pat.len() as int) == pat {
        Some(k)
    } else {
        find_from(s, pat, k + 1)
    }
}

/// The first piece with at least one byte.
pub open spec fn first_nonempty(ps: Seq<(nat, nat)>) -> Option<(nat, nat)>
    decreases ps.len(),
{
    if ps.len() == 0 {
        None
    } else if ps[0].1 > ps[0].0 {
        Some(ps[0])
    } else {
        first_nonempty(ps.drop_first())
    }
}

/// The node shapes `push_bytes_as_assembly_nodes` adds for `b`: none when
/// empty, a delimiter anchor when every byte is a delimiter, else a literal.
pub open spec fn literal_shapes(b: Seq<u8>) -> Seq<NodeShape> {
    if b.len() == 0 {
        Seq::empty()
    } else if forall|i: int| 0 <= i < b.len() ==> is_delimiter_spec(#[trigger] b[i]) {
        seq![NodeShape::DelimiterAnchor { bytes: b }]
    } else {
        seq![NodeShape::LiteralIsland { bytes: b }]
    }
}

fn push_bytes_as_assembly_nodes(nodes: &mut Vec<AssemblyBodyNode>, bytes: Vec<u8>)
    ensures
        shapes(final(nodes)@) == shapes(old(nodes)@) + literal_shapes(bytes@),
        final(nodes)@.len() == old(nodes)@.len() + literal_shapes(bytes@).len(),
        final(nodes)@.len() <= old(nodes)@.len() + 1,
        forall|i: int| 0 <= i < old(nodes)@.len() ==> final(nodes)@[i] == old(nodes)@[i],
        final(nodes)@.len() == old(nodes)@.len() + 1 ==> (final(nodes)@.last() is DelimiterAnchor || final(nodes)@.last() is LiteralIsland)
            && node_inline_len_of(final(nodes)@.last()) == bytes@.len(),
{
    if bytes.len() == 0 {
        assert(shapes(nodes@) + literal_shapes(bytes@) =~= shapes(nodes@));
        return;
    }
    let mut all_delims = true;
    let mut i: usize = 0;
    while i < bytes.len()
        invariant
            i <= bytes@.len(),
            all_delims == forall|j: int| 0 <= j < i ==> is_delimiter_spec(#[trigger] bytes@[j]),
        decreases bytes@.len() - i,
    {
        if !is_delimiter(bytes[i]) {
            all_delims = false;
        }
        i = i + 1;
    }
    let ghost bv = bytes@;
    let ghost before = nodes@;
    if all_delims {
        nodes.push(AssemblyBodyNode::DelimiterAnchor { bytes });
    } else {
        nodes.push(AssemblyBodyNode::LiteralIsland { bytes });
    }
    assert(shapes(nodes@) =~= shapes(before) + literal_shapes(bv));
}

fn split_ranges(s: &[u8], slot_seps: bool) -> (r: Vec<(usize, usize)>)
    ensures
        ({
            &&& r@.len() == split_from(s@, 0, 0, slot_seps).len()
            &&& forall|i: int| 0 <= i < r@.len() ==> (r@[i].0 as nat, r@[i].1 as nat) == #[trigger] split_from(s@, 0, 0, slot_seps)[i]
            &&& forall|i: int| 0 <= i < r@.len() ==> (#[trigger] r@[i]).0 <= r@[i].1 <= s@.len()
        }),
{
    let ghost target = split_from(s@, 0, 0, slot_seps);
    let mut out: Vec<(usize, usize)> = Vec::new();
    let ghost mut done: Seq<(nat, nat)> = Seq::empty();
    let mut ps: usize = 0;
    let mut i: usize = 0;
    while i < s.len()
        invariant
            target == split_from(s@, 0, 0, slot_seps),
            ps <= i <= s@.len(),
            done + split_from(s@, i as nat, ps as nat, slot_seps) == target,
            out@.len() == done.len(),
            forall|j: int| 0 <= j < out@.len() ==> (out@[j].0 as nat, out@[j].1 as nat) == #[trigger] done[j],
            forall|j: int| 0 <= j < out@.len() ==> (#[trigger] out@[j]).0 <= out@[j].1 <= s@.len(),
        decreases s@.len() - i,
    {
        let b = s[i];
        let is_sep = if slot_seps {
            b == 0x2c || b == 0x3a || b == 0x3b || b == 0x7c || b == 0x20
        } else {
            b == 0x2c || b == 0x3b || b == 0x7c || b == 0x0a
        };
        if is_sep {
            proof {
                let d0 = done;
                done = done.push((ps as nat, i as nat));
                assert(d0 + (seq![(ps as nat, i as nat)] + split_from(s@, i as nat + 1, i as nat + 1, slot_seps)) =~= done + split_from(s@, i as nat + 1, i as nat + 1, slot_seps));
            }
            out.push((ps, i));
            ps = i + 1;
        }
        i = i + 1;
    }
    proof {
        let d0 = done;
        done = done.push((ps as nat, s@.len()));
        assert(d0 + split_from(s@, i as nat, ps as nat, slot_seps) =~= done);
    }
    out.push((ps, s.len()));
    out
}

/// Where `pat` first occurs in `s` at or after `k`.
fn find_subslice(s: &[u8], pat: &[u8], k: usize) -> (r: Option<usize>)
    requires
        k <= s@.len(),
    ensures
        match r {
            Some(x) => find_from(s@, pat@, k as nat) == Some(x as nat) && k <= x && x + pat@.len() <= s@.len(),
            None => find_from(s@, pat@, k as nat) is None,
        },
{
    if pat.len() == 0 {
        assert(s@.subrange(k as int, k as int) =~= pat@);
        return Some(k);
    }
    let mut j: usize = k;
    while j <= s.len() && pat.len() <= s.len() - j
        invariant
            k <= j,
            pat@.len() > 0,
            find_from(s@, pat@, k as nat) == find_from(s@, pat@, j as nat),
        decreases s@.len() + 1 - j,
    {
        let window = crate::wire::copy_range(s, j, j + pat.len());
        if crate::compress::bytes_equal(window.as_slice(), pat) {
            return Some(j);
        }
        j = j + 1;
    }
    None
}

// ---------------------------------------------------------------------------
// Limits under which candidate bodies summarize without overflow
// ---------------------------------------------------------------------------

/// The inline bytes of all nodes, counted.
pub open spec fn nodes_bytes_total(nodes: Seq<AssemblyBodyNode>) -> nat
    decreases nodes.len(),
{
    if nodes.len() == 0 {
        0
    } else {
        nodes_bytes_total(nodes.drop_last()) + node_inline_len_of(nodes.last())
    }
}

pub open spec fn no_spans(nodes: Seq<AssemblyBodyNode>) -> bool {
    forall|i: int| 0 <= i < nodes.len() ==> !((#[trigger] nodes[i]) is SubstrateSpan)
}

proof fn lemma_body_totals(nodes: Seq<AssemblyBodyNode>, rs: RoleSignature, slots: Seq<SlotDescriptor>)
    requires
        no_spans(nodes),
    ensures
        sum_nodes(nodes, |n: AssemblyBodyNode| node_literal_len(n)) <= nodes_bytes_total(nodes),
        sum_nodes(nodes, |n: AssemblyBodyNode| node_output_len(n)) <= nodes_bytes_total(nodes),
        support_sum(votes_for(nodes, rs, slots)) <= nodes_bytes_total(nodes),
        overlap_sum(votes_for(nodes, rs, slots)) <= nodes_bytes_total(nodes),
        count_nodes(nodes, |n: AssemblyBodyNode| is_motif_node(n)) <= nodes.len(),
        count_nodes(nodes, |n: AssemblyBodyNode| is_span_node(n)) == 0,
    decreases nodes.len(),
{
    if nodes.len() > 0 {
        let t = nodes.drop_last();
        assert(no_spans(t)) by {
            assert forall|i: int| 0 <= i < t.len() implies !((#[trigger] t[i]) is SubstrateSpan) by {
                assert(t[i] == nodes[i]);
            }
        }
        lemma_body_totals(t, rs, slots);
        assert(!(nodes[nodes.len() - 1] is SubstrateSpan));
        let v = votes_for(nodes, rs, slots);
        let vt = votes_for(t, rs, slots);
        if node_vote(nodes.last(), rs, slots) is Some {
            assert(v.drop_last() =~= vt);
        }
    }
}

proof fn lemma_optional_slots_bound(s: Seq<SlotDescriptor>)
    ensures
        optional_slot_count(s) <= s.len(),
    decreases s.len(),
{
    if s.len() > 0 {
        lemma_optional_slots_bound(s.drop_last());
    }
}

/// A body without spans, with modest size and few slots, summarizes
/// without overflow.
proof fn lemma_body_fits(nodes: Seq<AssemblyBodyNode>, rs: RoleSignature, slots: Seq<SlotDescriptor>)
    requires
        no_spans(nodes),
        nodes_bytes_total(nodes) <= u32::MAX,
        nodes.len() <= 0x1000_0000,
        slots.len() <= 0x1000_0000,
    ensures
        agreement_fits(nodes, slots, votes_for(nodes, rs, slots)),
{
    lemma_body_totals(nodes, rs, slots);
    lemma_optional_slots_bound(slots);
}

// ---------------------------------------------------------------------------
// Discontinuous field groups
// ---------------------------------------------------------------------------

pub open spec fn field_gap_len(config: crate::assembly::AssemblyExtractionConfig) -> nat {
    if config.max_gap_bytes == 0 { 1 } else { config.max_gap_bytes as nat }
}

/// For the field `bytes[a..b]`: the field, the gap after the field's first
/// occurrence (at most the gap length), and the first non-empty field of
/// that gap; none when either field is empty or short.
pub open spec fn field_group_parts(bytes: Seq<u8>, config: crate::assembly::AssemblyExtractionConfig, a: nat, b: nat) -> Option<(Seq<u8>, Seq<u8>, Seq<u8>)> {
    let left = bytes.subrange(a as int, b as int);
    if left.len() == 0 || left.len() < config.min_motif_len {
        None
    } else {
        let offset: nat = match find_from(bytes, left, 0) {
            Some(o) => o,
            None => 0,
        };
        let gs: int = offset as int + left.len() as int;
        let ge: int = if gs + field_gap_len(config) < bytes.len() { gs + field_gap_len(config) } else { bytes.len() as int };
        let gap = bytes.subrange(gs, ge);
        let right = match first_nonempty(split_from(gap, 0, 0, false)) {
            Some((x, y)) => gap.subrange(x as int, y as int),
            None => Seq::empty(),
        };
        if right.len() < config.min_motif_len {
            None
        } else {
            Some((left, gap, right))
        }
    }
}

/// The indices, below `n`, of the fields that form a group.
pub open spec fn field_group_indices(bytes: Seq<u8>, config: crate::assembly::AssemblyExtractionConfig, n: nat) -> Seq<nat>
    decreases n,
{
    if n == 0 {
        Seq::empty()
    } else {
        let rest = field_group_indices(bytes, config, (n - 1) as nat);
        let ps = split_from(bytes, 0, 0, false);
        let j = (n - 1) as nat;
        if j < ps.len() && field_group_parts(bytes, config, ps[j as int].0, ps[j as int].1) is Some {
            rest.push(j)
        } else {
            rest
        }
    }
}

pub open spec fn bit_at(j: nat) -> u64 {
    1u64 << (if j < 31 { j } else { 31 }) as u64
}

/// The candidate for the group of field `j`.
pub open spec fn field_group_candidate(c: AssemblyExtractionCandidate, bytes: Seq<u8>, config: crate::assembly::AssemblyExtractionConfig, j: nat) -> bool {
    let ps = split_from(bytes, 0, 0, false);
    let (left, gap, right) = field_group_parts(bytes, config, ps[j as int].0, ps[j as int].1)->Some_0;
    let cue = sparse_cue_of(left + right);
    let left_slot = SlotDescriptor { slot_index: 0, role_bits: cue.role_bits | bit_at(j), min_len: 1, max_len: left.len() as u32, required: true };
    let right_slot = SlotDescriptor { slot_index: 1, role_bits: cue.role_bits | bit_at(j + 1), min_len: 1, max_len: right.len() as u32, required: true };
    let gap_literal = gap.take(gap.len() - right.len());
    &&& shapes(c.body.nodes@) == seq![NodeShape::SlotPlaceholder { slot_index: 0, role_bits: left_slot.role_bits, bytes: left }] + literal_shapes(gap_literal)
        + seq![NodeShape::SlotPlaceholder { slot_index: 1, role_bits: right_slot.role_bits, bytes: right }]
    &&& candidate_from_parts(
        c,
        AssemblyKind::DiscontinuousFieldGroup,
        RoleSignature {
            role_bits: cue.role_bits | bit_at(j),
            delimiter_role_bits: cue.delimiter_bits | delimiter_bits_of(gap_literal),
            slot_role_bits: left_slot.role_bits | right_slot.role_bits,
        },
        seq![left_slot, right_slot],
        c.body.nodes@,
        cue,
        (left.len() + right.len()) as u32,
        (left.len() + right.len() + field_gap_len(config)) as u32,
        rolling_hash_spec(left) ^ rolling_hash_spec(right),
    )
}

fn first_nonempty_range(ps: &Vec<(usize, usize)>, limit: usize) -> (r: Option<(usize, usize)>)
    requires
        forall|i: int| 0 <= i < ps@.len() ==> (#[trigger] ps@[i]).0 <= ps@[i].1 <= limit,
    ensures
        r matches Some(p) ==> p.0 <= p.1 <= limit,
        match r {
            Some(p) => first_nonempty(ps@.map_values(|q: (usize, usize)| (q.0 as nat, q.1 as nat))) == Some((p.0 as nat, p.1 as nat)),
            None => first_nonempty(ps@.map_values(|q: (usize, usize)| (q.0 as nat, q.1 as nat))) is None,
        },
{
    let ghost m = ps@.map_values(|q: (usize, usize)| (q.0 as nat, q.1 as nat));
    let mut i: usize = 0;
    assert(m.skip(0) =~= m);
    while i < ps.len()
        invariant
            i <= ps@.len(),
            m == ps@.map_values(|q: (usize, usize)| (q.0 as nat, q.1 as nat)),
            forall|i: int| 0 <= i < ps@.len() ==> (#[trigger] ps@[i]).0 <= ps@[i].1 <= limit,
            first_nonempty(m) == first_nonempty(m.skip(i as int)),
        decreases ps@.len() - i,
    {
        proof {
            let rest = m.skip(i as int);
            assert(rest[0] == m[i as int]);
            assert(rest.drop_first() =~= m.skip(i + 1));
        }
        if ps[i].1 > ps[i].0 {
            return Some(ps[i]);
        }
        i = i + 1;
    }
    None
}

proof fn lemma_field_indices_prefix(bytes: Seq<u8>, config: crate::assembly::AssemblyExtractionConfig, k: nat, n: nat)
    requires
        k <= n,
    ensures
        field_group_indices(bytes, config, k).len() <= field_group_indices(bytes, config, n).len(),
        field_group_indices(bytes, config, n).take(field_group_indices(bytes, config, k).len() as int) == field_group_indices(bytes, config, k),
    decreases n - k,
{
    if n > k {
        lemma_field_indices_prefix(bytes, config, k, (n - 1) as nat);
        let a = field_group_indices(bytes, config, k);
        let b = field_group_indices(bytes, config, (n - 1) as nat);
        let c = field_group_indices(bytes, config, n);
        assert(c.take(a.len() as int) =~= b.take(a.len() as int));
    } else {
        let a = field_group_indices(bytes, config, k);
        assert(a.take(a.len() as int) =~= a);
    }
}

proof fn lemma_field_indices_all(bytes: Seq<u8>, config: crate::assembly::AssemblyExtractionConfig, n: nat)
    requires
        n >= split_from(bytes, 0, 0, false).len(),
    ensures
        field_group_indices(bytes, config, n) == field_group_indices(bytes, config, split_from(bytes, 0, 0, false).len()),
    decreases n,
{
    if n > split_from(bytes, 0, 0, false).len() {
        lemma_field_indices_all(bytes, config, (n - 1) as nat);
    }
}

/// The candidate for a group of fields `left` and `right` with `gap`
/// after `left`, for field `j`.
pub open spec fn field_group_candidate_parts(
    c: AssemblyExtractionCandidate,
    config: crate::assembly::AssemblyExtractionConfig,
    j: nat,
    left: Seq<u8>,
    gap: Seq<u8>,
    right: Seq<u8>,
) -> bool {
    let cue = sparse_cue_of(left + right);
    let left_slot = SlotDescriptor { slot_index: 0, role_bits: cue.role_bits | bit_at(j), min_len: 1, max_len: left.len() as u32, required: true };
    let right_slot = SlotDescriptor { slot_index: 1, role_bits: cue.role_bits | bit_at(j + 1), min_len: 1, max_len: right.len() as u32, required: true };
    let gap_literal = gap.take(gap.len() - right.len());
    &&& shapes(c.body.nodes@) == seq![NodeShape::SlotPlaceholder { slot_index: 0, role_bits: left_slot.role_bits, bytes: left }] + literal_shapes(gap_literal)
        + seq![NodeShape::SlotPlaceholder { slot_index: 1, role_bits: right_slot.role_bits, bytes: right }]
    &&& candidate_from_parts(
        c,
        AssemblyKind::DiscontinuousFieldGroup,
        RoleSignature {
            role_bits: cue.role_bits | bit_at(j),
            delimiter_role_bits: cue.delimiter_bits | delimiter_bits_of(gap_literal),
            slot_role_bits: left_slot.role_bits | right_slot.role_bits,
        },
        seq![left_slot, right_slot],
        c.body.nodes@,
        cue,
        (left.len() + right.len()) as u32,
        (left.len() + right.len() + field_gap_len(config)) as u32,
        rolling_hash_spec(left) ^ rolling_hash_spec(right),
    )
}

/// The candidate for field `j` at `bytes[a..b]`.
pub open spec fn field_group_candidate_at(c: AssemblyExtractionCandidate, bytes: Seq<u8>, config: crate::assembly::AssemblyExtractionConfig, j: nat, a: nat, b: nat) -> bool {
    let (left, gap, right) = field_group_parts(bytes, config, a, b)->Some_0;
    field_group_candidate_parts(c, config, j, left, gap, right)
}

/// The field at `bytes[a..b]`, its gap and the gap's first field, if they
/// form a group.
fn field_group_split(bytes: &[u8], config: crate::assembly::AssemblyExtractionConfig, a: usize, b: usize) -> (r: Option<(Vec<u8>, Vec<u8>, Vec<u8>)>)
    requires
        bytes@.len() <= 0xfffe_0000,
        a <= b <= bytes@.len(),
    ensures
        match r {
            Some((l, g, rt)) => field_group_parts(bytes@, config, a as nat, b as nat) == Some((l@, g@, rt@)) && l@.len() <= bytes@.len()
                && g@.len() <= 0xffff && rt@.len() <= g@.len(),
            None => field_group_parts(bytes@, config, a as nat, b as nat) is None,
        },
{
    if b == a || b - a < config.min_motif_len as usize {
        return None;
    }
    let max_gap: usize = if config.max_gap_bytes == 0 { 1 } else { config.max_gap_bytes as usize };
    let left = crate::wire::copy_range(bytes, a, b);
    let offset = match find_subslice(bytes, left.as_slice(), 0) {
        Some(o) => o,
        None => 0,
    };
    let gs = offset + left.len();
    let ge = if max_gap < bytes.len() - gs { gs + max_gap } else { bytes.len() };
    let gap = crate::wire::copy_range(bytes, gs, ge);
    let gap_pieces = split_ranges(gap.as_slice(), false);
    proof {
        assert(gap_pieces@.map_values(|q: (usize, usize)| (q.0 as nat, q.1 as nat)) =~= split_from(gap@, 0, 0, false));
    }
    let right = match first_nonempty_range(&gap_pieces, gap.len()) {
        Some((x, y)) => crate::wire::copy_range(gap.as_slice(), x, y),
        None => Vec::new(),
    };
    if right.len() < config.min_motif_len as usize {
        return None;
    }
    Some((left, gap, right))
}

/// The candidate built for a group.
#[verifier::rlimit(40)]
fn build_field_group(
    source_kind: SourceKind,
    config: crate::assembly::AssemblyExtractionConfig,
    j: usize,
    left: Vec<u8>,
    gap: Vec<u8>,
    right: Vec<u8>,
) -> (c: AssemblyExtractionCandidate)
    requires
        left@.len() <= 0xfffe_0000,
        gap@.len() <= 0xffff,
        right@.len() <= gap@.len(),
        j < usize::MAX,
    ensures
        field_group_candidate_parts(c, config, j as nat, left@, gap@, right@),
{
    let max_gap: usize = if config.max_gap_bytes == 0 { 1 } else { config.max_gap_bytes as usize };
    let ghost lv = left@;
    let ghost gv = gap@;
    let ghost rv = right@;
    let mut joined = crate::wire::copy_range(left.as_slice(), 0, left.len());
    crate::wire::append_bytes(&mut joined, right.as_slice());
    assert(joined@ =~= lv + rv);
    let cue = derive_sparse_cue_from_bytes(source_kind, joined.as_slice());
    let lshift: u64 = if j < 31 { j as u64 } else { 31 };
    let rshift: u64 = if j + 1 < 31 { (j + 1) as u64 } else { 31 };
    let left_slot = SlotDescriptor { slot_index: 0, role_bits: cue.role_bits | (1u64 << lshift), min_len: 1, max_len: left.len() as u32, required: true };
    let right_slot = SlotDescriptor { slot_index: 1, role_bits: cue.role_bits | (1u64 << rshift), min_len: 1, max_len: right.len() as u32, required: true };
    let gap_literal = crate::wire::copy_range(gap.as_slice(), 0, gap.len() - right.len());
    let ghost glv = gap_literal@;
    assert(glv =~= gv.take(gv.len() - rv.len()));
    let gap_bits = delimiter_bits_for_bytes(gap_literal.as_slice());
    let h = rolling_assembly_hash(left.as_slice()) ^ rolling_assembly_hash(right.as_slice());
    let combined_len = left.len() + right.len();
    let ghost s0 = NodeShape::SlotPlaceholder { slot_index: 0, role_bits: left_slot.role_bits, bytes: lv };
    let ghost s2 = NodeShape::SlotPlaceholder { slot_index: 1, role_bits: right_slot.role_bits, bytes: rv };
    let mut nodes: Vec<AssemblyBodyNode> = Vec::new();
    nodes.push(AssemblyBodyNode::SlotPlaceholder { slot_index: 0, role_bits: left_slot.role_bits, bytes: left });
    let ghost n1 = nodes@;
    assert(shapes(n1) =~= seq![s0]);
    push_bytes_as_assembly_nodes(&mut nodes, gap_literal);
    let ghost n2 = nodes@;
    nodes.push(AssemblyBodyNode::SlotPlaceholder { slot_index: 1, role_bits: right_slot.role_bits, bytes: right });
    proof {
        assert(shapes(nodes@) =~= shapes(n2).push(s2));
        assert(shapes(nodes@) =~= seq![s0] + literal_shapes(glv) + seq![s2]);
    }
    let role_signature = RoleSignature {
        role_bits: cue.role_bits | (1u64 << lshift),
        delimiter_role_bits: cue.delimiter_bits | gap_bits,
        slot_role_bits: left_slot.role_bits | right_slot.role_bits,
    };
    let mut slots: Vec<SlotDescriptor> = Vec::new();
    slots.push(left_slot);
    slots.push(right_slot);
    proof {
        assert(no_spans(nodes@)) by {
            assert forall|i: int| 0 <= i < nodes@.len() implies !((#[trigger] nodes@[i]) is SubstrateSpan) by {
                if i == 0 {
                    assert(nodes@[0] == n1[0]);
                } else if i < n2.len() {
                    assert(nodes@[i] == n2[i]);
                }
            }
        }
        assert(nodes_bytes_total(nodes@) <= lv.len() + glv.len() + rv.len()) by {
            reveal_with_fuel(nodes_bytes_total, 4);
            if n2.len() == 2 {
                assert(nodes@.drop_last() =~= n2);
                assert(n2.drop_last() =~= n1);
                assert(n1.drop_last() =~= Seq::<AssemblyBodyNode>::empty());
            } else {
                assert(nodes@.drop_last() =~= n2);
                assert(n2 =~= n1);
                assert(n1.drop_last() =~= Seq::<AssemblyBodyNode>::empty());
            }
        }
        lemma_body_fits(nodes@, role_signature, slots@);
        assert(bit_at(j as nat) == 1u64 << lshift);
        assert(bit_at(j as nat + 1) == 1u64 << rshift);
    }
    let c = build_assembly_candidate(
        AssemblyKind::DiscontinuousFieldGroup,
        role_signature,
        slots,
        nodes,
        cue,
        combined_len as u32,
        (combined_len + max_gap) as u32,
        h,
    );
    assert(c.slots@ =~= seq![left_slot, right_slot]);
    c
}

/// The group of field `j` at `bytes[a..b]`, if it forms one.
fn field_group_at(
    source_kind: SourceKind,
    bytes: &[u8],
    config: crate::assembly::AssemblyExtractionConfig,
    j: usize,
    a: usize,
    b: usize,
) -> (r: Option<AssemblyExtractionCandidate>)
    requires
        bytes@.len() <= 0xfffe_0000,
        a <= b <= bytes@.len(),
        j < bytes@.len() + 1,
    ensures
        match r {
            Some(c) => field_group_parts(bytes@, config, a as nat, b as nat) is Some && field_group_candidate_at(c, bytes@, config, j as nat, a as nat, b as nat),
            None => field_group_parts(bytes@, config, a as nat, b as nat) is None,
        },
{
    match field_group_split(bytes, config, a, b) {
        Some((left, gap, right)) => Some(build_field_group(source_kind, config, j, left, gap, right)),
        None => None,
    }
}

/// Discontinuous field groups: each non-empty field (split at `,` `;` `|`
/// or newline) at least the minimum length, paired with the first
/// non-empty field in the gap after its first occurrence, when that one is
/// long enough too; at most eight.
pub fn extract_discontinuous_field_group_candidates(
    source_kind: SourceKind,
    bytes: &[u8],
    config: crate::assembly::AssemblyExtractionConfig,
) -> (r: Vec<AssemblyExtractionCandidate>)
    requires
        bytes@.len() <= 0xfffe_0000,
    ensures
        ({
            let idx = first_up_to(field_group_indices(bytes@, config, split_from(bytes@, 0, 0, false).len()), 8);
            &&& r@.len() == idx.len()
            &&& forall|i: int| 0 <= i < r@.len() ==> field_group_candidate(#[trigger] r@[i], bytes@, config, idx[i])
        }),
{
    let pieces = split_ranges(bytes, false);
    let ghost ps = split_from(bytes@, 0, 0, false);
    let mut out: Vec<AssemblyExtractionCandidate> = Vec::new();
    let mut j: usize = 0;
    while j < pieces.len()
        invariant
            bytes@.len() <= 0xfffe_0000,
            ps == split_from(bytes@, 0, 0, false),
            pieces@.len() == ps.len(),
            forall|i: int| 0 <= i < pieces@.len() ==> (pieces@[i].0 as nat, pieces@[i].1 as nat) == #[trigger] ps[i],
            forall|i: int| 0 <= i < pieces@.len() ==> (#[trigger] pieces@[i]).0 <= pieces@[i].1 <= bytes@.len(),
            j <= pieces@.len(),
            field_group_indices(bytes@, config, j as nat).len() < 8,
            out@.len() == field_group_indices(bytes@, config, j as nat).len(),
            forall|i: int| 0 <= i < out@.len() ==> field_group_candidate(#[trigger] out@[i], bytes@, config, field_group_indices(bytes@, config, j as nat)[i]),
        decreases pieces@.len() - j,
    {
        let ghost taken = field_group_indices(bytes@, config, j as nat);
        let (a, b) = pieces[j];
        proof {
            assert(ps[j as int] == (a as nat, b as nat));
            lemma_split_count_bound(bytes@, 0, 0, false);
        }
        match field_group_at(source_kind, bytes, config, j, a, b) {
            Some(c) => {
                let ghost cg = c;
                let ghost before_out = out@;
                out.push(c);
                proof {
                    let t1 = field_group_indices(bytes@, config, j as nat + 1);
                    assert(t1 == taken.push(j as nat));
                    assert forall|i: int| 0 <= i < out@.len() implies field_group_candidate(#[trigger] out@[i], bytes@, config, t1[i]) by {
                        if i < before_out.len() {
                            assert(out@[i] == before_out[i]);
                        } else {
                            assert(out@[i] == cg);
                        }
                    }
                }
            },
            None => {
                assert(field_group_indices(bytes@, config, j as nat + 1) == taken);
            },
        }
        j = j + 1;
        if out.len() >= 8 {
            proof {
                lemma_field_indices_prefix(bytes@, config, j as nat, ps.len());
            }
            return out;
        }
    }
    out
}

proof fn lemma_split_count_bound(s: Seq<u8>, i: nat, ps: nat, slot_seps: bool)
    requires
        i <= s.len(),
    ensures
        split_from(s, i, ps, slot_seps).len() <= s.len() - i + 1,
    decreases s.len() - i,
{
    if i < s.len() {
        lemma_split_count_bound(s, i + 1, if is_sep(slot_seps, s[i as int]) { i + 1 } else { ps }, slot_seps);
    }
}

// ---------------------------------------------------------------------------
// Slot-bearing structures
// ---------------------------------------------------------------------------

/// The label of a bracket boundary: `open:` or `close:` and the bracket.
pub open spec fn bracket_label(opening: bool, b: u8) -> Seq<char> {
    (if opening { "open:"@ } else { "close:"@ }).push(b as char)
}

/// std's `format!` of a text followed by a character.
#[verifier::external_body]
fn format_label(prefix: &str, c: char) -> (r: String)
    ensures
        r@ == prefix@.push(c),
{
    format!("{}{}", prefix, c)
}

/// The label of a bracket boundary.
fn bracket_label_exec(opening: bool, b: u8) -> (r: String)
    ensures
        r@ == bracket_label(opening, b),
{
    let prefix = if opening { "open:" } else { "close:" };
    format_label(prefix, b as char)
}

/// The first index at or after `k` holding byte `x`.
pub open spec fn find_byte(s: Seq<u8>, x: u8, k: nat) -> Option<nat>
    decreases s.len() - k,
{
    if k >= s.len() {
        None
    } else if s[k as int] == x {
        Some(k)
    } else {
        find_byte(s, x, k + 1)
    }
}

fn find_byte_exec(s: &[u8], x: u8, k: usize) -> (r: Option<usize>)
    ensures
        match r {
            Some(i) => find_byte(s@, x, k as nat) == Some(i as nat) && k <= i < s@.len(),
            None => find_byte(s@, x, k as nat) is None,
        },
{
    let mut i: usize = k;
    while i < s.len()
        invariant
            k <= i,
            find_byte(s@, x, k as nat) == find_byte(s@, x, i as nat),
        decreases s@.len() - i,
    {
        if s[i] == x {
            return Some(i);
        }
        i = i + 1;
    }
    None
}

/// The bracketed structures opened by `o` from `cursor`: each opening byte
/// and the first matching closing byte after it.
pub open spec fn bracket_spans(s: Seq<u8>, o: u8, cursor: nat) -> Seq<(nat, nat)>
    decreases s.len() - cursor,
{
    if cursor >= s.len() {
        Seq::empty()
    } else {
        match find_byte(s, o, cursor) {
            None => Seq::empty(),
            Some(oi) => match find_byte(s, matching_close_spec(o), oi + 1) {
                None => Seq::empty(),
                Some(ci) => if ci + 1 > cursor && ci < s.len() {
                    seq![(oi, ci)] + bracket_spans(s, o, ci + 1)
                } else {
                    Seq::empty()
                },
            },
        }
    }
}

/// The ranges with at least one byte, in order.
pub open spec fn nonempty_ranges(ps: Seq<(nat, nat)>) -> Seq<(nat, nat)>
    decreases ps.len(),
{
    if ps.len() == 0 {
        Seq::empty()
    } else if ps.last().1 > ps.last().0 {
        nonempty_ranges(ps.drop_last()).push(ps.last())
    } else {
        nonempty_ranges(ps.drop_last())
    }
}

pub open spec fn slot_cap(max_slots: u16) -> nat {
    if max_slots == 0 { 1 } else { max_slots as nat }
}

/// The non-empty pieces of `inner`, at most `max(max_slots, 1)` of them.
pub open spec fn slot_parts(inner: Seq<u8>, max_slots: u16) -> Seq<(nat, nat)> {
    first_up_to(nonempty_ranges(split_from(inner, 0, 0, true)), slot_cap(max_slots))
}

/// The slot descriptors of the parts.
pub open spec fn slot_descriptors(parts: Seq<(nat, nat)>, cue: SparseCue) -> Seq<SlotDescriptor> {
    Seq::new(parts.len(), |i: int| SlotDescriptor {
        slot_index: i as u16,
        role_bits: cue.role_bits | bit_at(i as nat),
        min_len: 1,
        max_len: (parts[i].1 - parts[i].0) as u32,
        required: true,
    })
}

/// The OR of the slots' role bits.
pub open spec fn slots_role_bits(s: Seq<SlotDescriptor>) -> u64
    decreases s.len(),
{
    if s.len() == 0 {
        0
    } else {
        slots_role_bits(s.drop_last()) | s.last().role_bits
    }
}

/// The node shapes between the brackets, from part `k` with the search at
/// `sc`: each part found at or after the search point, preceded by the bytes
/// before it, then the bytes after the last one.
pub open spec fn slot_body_shapes(inner: Seq<u8>, parts: Seq<(nat, nat)>, slots: Seq<SlotDescriptor>, k: nat, sc: nat) -> Seq<NodeShape>
    decreases parts.len() - k,
{
    if k >= parts.len() {
        literal_shapes(inner.subrange(sc as int, inner.len() as int))
    } else {
        let part = inner.subrange(parts[k as int].0 as int, parts[k as int].1 as int);
        match find_from(inner, part, sc) {
            None => slot_body_shapes(inner, parts, slots, k + 1, sc),
            Some(at) => literal_shapes(inner.subrange(sc as int, at as int)) + seq![
                NodeShape::SlotPlaceholder { slot_index: slots[k as int].slot_index, role_bits: slots[k as int].role_bits, bytes: part },
            ] + slot_body_shapes(inner, parts, slots, k + 1, at + part.len()),
        }
    }
}

/// The candidate for the structure `o` at `oi` closed at `ci`.
pub open spec fn slot_candidate(c: AssemblyExtractionCandidate, bytes: Seq<u8>, config: crate::assembly::AssemblyExtractionConfig, o: u8, oi: nat, ci: nat) -> bool {
    let close = matching_close_spec(o);
    let inner = bytes.subrange(oi as int + 1, ci as int);
    let parts = slot_parts(inner, config.max_slots);
    let cue = sparse_cue_of(inner);
    let slots = slot_descriptors(parts, cue);
    &&& shapes(c.body.nodes@) == seq![NodeShape::TypedBoundary { label: bracket_label(true, o), bytes: seq![o] }]
        + slot_body_shapes(inner, parts, slots, 0, 0) + seq![NodeShape::TypedBoundary { label: bracket_label(false, close), bytes: seq![close] }]
    &&& candidate_from_parts(
        c,
        AssemblyKind::SlotBearing,
        RoleSignature {
            role_bits: cue.role_bits,
            delimiter_role_bits: cue.delimiter_bits | delimiter_bit_spec(o) | delimiter_bit_spec(close),
            slot_role_bits: slots_role_bits(slots),
        },
        slots,
        c.body.nodes@,
        cue,
        (inner.len() + 2) as u32,
        (inner.len() + 2) as u32,
        rolling_hash_spec(inner) ^ ((o as u64) << 56u64),
    )
}

/// Whether the structure at `p` has at least two parts.
pub open spec fn slot_structure_ok(bytes: Seq<u8>, config: crate::assembly::AssemblyExtractionConfig, p: (nat, nat)) -> bool {
    slot_parts(bytes.subrange(p.0 as int + 1, p.1 as int), config.max_slots).len() >= 2
}

/// The spans with at least two parts, in order.
pub open spec fn qualified_spans(bytes: Seq<u8>, config: crate::assembly::AssemblyExtractionConfig, spans: Seq<(nat, nat)>) -> Seq<(nat, nat)>
    decreases spans.len(),
{
    if spans.len() == 0 {
        Seq::empty()
    } else if slot_structure_ok(bytes, config, spans[0]) {
        seq![spans[0]] + qualified_spans(bytes, config, spans.drop_first())
    } else {
        qualified_spans(bytes, config, spans.drop_first())
    }
}

/// The structures of bracket `o` with at least two parts.
pub open spec fn slot_structures(bytes: Seq<u8>, config: crate::assembly::AssemblyExtractionConfig, o: u8) -> Seq<(nat, nat)> {
    qualified_spans(bytes, config, bracket_spans(bytes, o, 0))
}

/// The brackets tried, in order.
pub open spec fn brackets() -> Seq<u8> {
    seq![0x7bu8, 0x5b, 0x28, 0x3c]
}

fn slot_parts_exec(inner: &[u8], max_slots: u16) -> (r: Vec<(usize, usize)>)
    ensures
        r@.len() == slot_parts(inner@, max_slots).len(),
        forall|i: int| 0 <= i < r@.len() ==> (r@[i].0 as nat, r@[i].1 as nat) == #[trigger] slot_parts(inner@, max_slots)[i],
        forall|i: int| 0 <= i < r@.len() ==> (#[trigger] r@[i]).0 < r@[i].1 <= inner@.len(),
        r@.len() <= slot_cap(max_slots),
{
    let pieces = split_ranges(inner, true);
    let ghost ps = split_from(inner@, 0, 0, true);
    let ghost all = nonempty_ranges(ps);
    let cap: usize = if max_slots == 0 { 1 } else { max_slots as usize };
    let mut out: Vec<(usize, usize)> = Vec::new();
    let mut i: usize = 0;
    while i < pieces.len()
        invariant
            ps == split_from(inner@, 0, 0, true),
            all == nonempty_ranges(ps),
            pieces@.len() == ps.len(),
            forall|t: int| 0 <= t < pieces@.len() ==> (pieces@[t].0 as nat, pieces@[t].1 as nat) == #[trigger] ps[t],
            forall|t: int| 0 <= t < pieces@.len() ==> (#[trigger] pieces@[t]).0 <= pieces@[t].1 <= inner@.len(),
            cap == slot_cap(max_slots),
            i <= pieces@.len(),
            out@.len() == nonempty_ranges(ps.take(i as int)).len(),
            out@.len() < cap,
            forall|t: int| 0 <= t < out@.len() ==> (out@[t].0 as nat, out@[t].1 as nat) == #[trigger] nonempty_ranges(ps.take(i as int))[t],
            forall|t: int| 0 <= t < out@.len() ==> (#[trigger] out@[t]).0 < out@[t].1 <= inner@.len(),
        decreases pieces@.len() - i,
    {
        proof {
            assert(ps.take(i + 1).drop_last() =~= ps.take(i as int));
        }
        let (a, b) = pieces[i];
        if b > a {
            out.push((a, b));
            if out.len() >= cap {
                proof {
                    lemma_nonempty_prefix(ps, i as int + 1);
                    assert(slot_parts(inner@, max_slots) =~= nonempty_ranges(ps.take(i + 1)));
                }
                return out;
            }
        }
        i = i + 1;
    }
    proof {
        assert(ps.take(i as int) =~= ps);
    }
    out
}

/// The non-empty ranges of a prefix are a prefix of those of the whole.
proof fn lemma_nonempty_prefix(ps: Seq<(nat, nat)>, n: int)
    requires
        0 <= n <= ps.len(),
    ensures
        nonempty_ranges(ps.take(n)).len() <= nonempty_ranges(ps).len(),
        nonempty_ranges(ps).take(nonempty_ranges(ps.take(n)).len() as int) == nonempty_ranges(ps.take(n)),
    decreases ps.len() - n,
{
    if n < ps.len() {
        lemma_nonempty_prefix(ps, n + 1);
        assert(ps.take(n + 1).drop_last() =~= ps.take(n));
        let a = nonempty_ranges(ps.take(n));
        let b = nonempty_ranges(ps.take(n + 1));
        let c = nonempty_ranges(ps);
        assert(c.take(a.len() as int) =~= b.take(a.len() as int));
    } else {
        assert(ps.take(n) =~= ps);
        let a = nonempty_ranges(ps);
        assert(a.take(a.len() as int) =~= a);
    }
}

proof fn lemma_literal_shapes_total(nodes: Seq<AssemblyBodyNode>, extra: Seq<AssemblyBodyNode>, b: Seq<u8>)
    requires
        shapes(extra) == literal_shapes(b),
        extra.len() <= 1,
        extra.len() == 1 ==> node_inline_len_of(extra[0]) == b.len(),
        b.len() == 0 ==> extra.len() == 0,
    ensures
        nodes_bytes_total(nodes + extra) == nodes_bytes_total(nodes) + b.len(),
{
    assert(shapes(extra).len() == extra.len());
    if extra.len() == 1 {
        assert((nodes + extra).drop_last() =~= nodes);
        assert((nodes + extra).last() == extra[0]);
    } else {
        assert(nodes + extra =~= nodes);
        assert(b.len() == 0);
    }
}

/// The body between a structure's brackets: the parts as slots, with the
/// bytes around them as literal or delimiter nodes.
#[verifier::rlimit(60)]
fn push_slot_body(nodes: &mut Vec<AssemblyBodyNode>, inner: &[u8], parts: &Vec<(usize, usize)>, slots: &Vec<SlotDescriptor>)
    requires
        parts@.len() == slots@.len(),
        forall|i: int| 0 <= i < parts@.len() ==> (#[trigger] parts@[i]).0 < parts@[i].1 <= inner@.len(),
        no_spans(old(nodes)@),
    ensures
        shapes(final(nodes)@) == shapes(old(nodes)@) + slot_body_shapes(
            inner@,
            parts@.map_values(|q: (usize, usize)| (q.0 as nat, q.1 as nat)),
            slots@,
            0,
            0,
        ),
        nodes_bytes_total(final(nodes)@) == nodes_bytes_total(old(nodes)@) + inner@.len(),
        final(nodes)@.len() <= old(nodes)@.len() + 2 * parts@.len() + 1,
        no_spans(final(nodes)@),
{
    let ghost pv = parts@.map_values(|q: (usize, usize)| (q.0 as nat, q.1 as nat));
    let ghost start_nodes = nodes@;
    let ghost target = slot_body_shapes(inner@, pv, slots@, 0, 0);
    let mut sc: usize = 0;
    let mut k: usize = 0;
    while k < parts.len()
        invariant
            parts@.len() == slots@.len(),
            forall|i: int| 0 <= i < parts@.len() ==> (#[trigger] parts@[i]).0 < parts@[i].1 <= inner@.len(),
            pv == parts@.map_values(|q: (usize, usize)| (q.0 as nat, q.1 as nat)),
            target == slot_body_shapes(inner@, pv, slots@, 0, 0),
            k <= parts@.len(),
            sc <= inner@.len(),
            shapes(nodes@) + slot_body_shapes(inner@, pv, slots@, k as nat, sc as nat) == shapes(start_nodes) + target,
            nodes_bytes_total(nodes@) == nodes_bytes_total(start_nodes) + sc,
            nodes@.len() <= start_nodes.len() + 2 * k,
            no_spans(nodes@),
        decreases parts@.len() - k,
    {
        let (a, b) = parts[k];
        let part = crate::wire::copy_range(inner, a, b);
        let ghost partv = part@;
        proof {
            assert(pv[k as int] == (a as nat, b as nat));
        }
        match find_subslice(inner, part.as_slice(), sc) {
            None => {},
            Some(at) => {
                assert(at + partv.len() <= inner@.len());
                let ghost before = nodes@;
                let ghost rest_after = slot_body_shapes(inner@, pv, slots@, k as nat + 1, (at + part.len()) as nat);
                let lit = crate::wire::copy_range(inner, sc, at);
                let ghost litv = lit@;
                push_bytes_as_assembly_nodes(nodes, lit);
                let ghost mid = nodes@;
                proof {
                    let extra = mid.subrange(before.len() as int, mid.len() as int);
                    assert(mid =~= before + extra);
                    assert(shapes(mid) =~= shapes(before) + shapes(extra));
                    assert forall|i: int| 0 <= i < extra.len() implies shapes(extra)[i] == literal_shapes(litv)[i] by {
                        assert(shapes(mid)[before.len() + i] == (shapes(before) + shapes(extra))[before.len() + i]);
                        assert(shapes(mid)[before.len() + i] == (shapes(before) + literal_shapes(litv))[before.len() + i]);
                    }
                    assert(shapes(extra) =~= literal_shapes(litv));
                    if extra.len() == 1 {
                        assert(extra[0] == mid.last());
                    }
                    lemma_literal_shapes_total(before, extra, litv);
                }
                let slot = slots[k];
                let part_len = part.len();
                assert(part_len == partv.len());
                let inner_len = inner.len();
                assert(at + part_len <= inner_len);
                nodes.push(AssemblyBodyNode::SlotPlaceholder { slot_index: slot.slot_index, role_bits: slot.role_bits, bytes: part });
                proof {
                    assert(shapes(nodes@) =~= shapes(mid).push(NodeShape::SlotPlaceholder { slot_index: slot.slot_index, role_bits: slot.role_bits, bytes: partv }));
                    assert(nodes@.drop_last() =~= mid);
                    assert(shapes(nodes@) + rest_after =~= shapes(before) + (literal_shapes(litv) + seq![
                        NodeShape::SlotPlaceholder { slot_index: slot.slot_index, role_bits: slot.role_bits, bytes: partv },
                    ] + rest_after));
                    assert forall|i: int| 0 <= i < nodes@.len() implies !((#[trigger] nodes@[i]) is SubstrateSpan) by {
                        if i < mid.len() {
                            assert(nodes@[i] == mid[i]);
                        }
                    }
                }
                sc = at + part_len;
            },
        }
        k = k + 1;
    }
    let tail = crate::wire::copy_range(inner, sc, inner.len());
    let ghost tailv = tail@;
    let ghost before = nodes@;
    push_bytes_as_assembly_nodes(nodes, tail);
    proof {
        let extra = nodes@.subrange(before.len() as int, nodes@.len() as int);
        assert(nodes@ =~= before + extra);
        assert(shapes(nodes@) =~= shapes(before) + shapes(extra));
        assert forall|i: int| 0 <= i < extra.len() implies shapes(extra)[i] == literal_shapes(tailv)[i] by {
            assert(shapes(nodes@)[before.len() + i] == (shapes(before) + shapes(extra))[before.len() + i]);
            assert(shapes(nodes@)[before.len() + i] == (shapes(before) + literal_shapes(tailv))[before.len() + i]);
        }
        assert(shapes(extra) =~= literal_shapes(tailv));
        if extra.len() == 1 {
            assert(extra[0] == nodes@.last());
        }
        lemma_literal_shapes_total(before, extra, tailv);
        assert forall|i: int| 0 <= i < nodes@.len() implies !((#[trigger] nodes@[i]) is SubstrateSpan) by {
            if i < before.len() {
                assert(nodes@[i] == before[i]);
            }
        }
    }
}

/// The candidate for the structure `o` at `oi` closed at `ci`, when it has
/// at least two parts.
#[verifier::rlimit(60)]
fn build_slot_candidate(
    source_kind: SourceKind,
    bytes: &[u8],
    config: crate::assembly::AssemblyExtractionConfig,
    o: u8,
    oi: usize,
    ci: usize,
) -> (r: Option<AssemblyExtractionCandidate>)
    requires
        oi < ci < bytes@.len(),
        bytes@.len() <= 0xfffe_0000,
    ensures
        match r {
            Some(c) => slot_structure_ok(bytes@, config, (oi as nat, ci as nat)) && slot_candidate(c, bytes@, config, o, oi as nat, ci as nat),
            None => !slot_structure_ok(bytes@, config, (oi as nat, ci as nat)),
        },
{
    let inner = crate::wire::copy_range(bytes, oi + 1, ci);
    let ghost iv = inner@;
    let parts = slot_parts_exec(inner.as_slice(), config.max_slots);
    let ghost pv = parts@.map_values(|q: (usize, usize)| (q.0 as nat, q.1 as nat));
    proof {
        assert(pv =~= slot_parts(iv, config.max_slots));
    }
    if parts.len() < 2 {
        return None;
    }
    let cue = derive_sparse_cue_from_bytes(source_kind, inner.as_slice());
    let ghost sd = slot_descriptors(pv, cue);
    let mut slots: Vec<SlotDescriptor> = Vec::new();
    let mut slot_role_bits: u64 = 0;
    let mut idx: usize = 0;
    while idx < parts.len()
        invariant
            idx <= parts@.len(),
            parts@.len() <= 0xffff,
            pv == parts@.map_values(|q: (usize, usize)| (q.0 as nat, q.1 as nat)),
            forall|i: int| 0 <= i < parts@.len() ==> (#[trigger] parts@[i]).0 < parts@[i].1 <= iv.len(),
            sd == slot_descriptors(pv, cue),
            slots@ == sd.take(idx as int),
            slot_role_bits == slots_role_bits(sd.take(idx as int)),
        decreases parts@.len() - idx,
    {
        let (a, b) = parts[idx];
        let shift: u64 = if idx < 31 { idx as u64 } else { 31 };
        let slot = SlotDescriptor {
            slot_index: idx as u16,
            role_bits: cue.role_bits | (1u64 << shift),
            min_len: 1,
            max_len: (b - a) as u32,
            required: true,
        };
        proof {
            assert(bit_at(idx as nat) == 1u64 << shift);
            assert(sd[idx as int] == slot);
            assert(sd.take(idx + 1) =~= sd.take(idx as int).push(slot));
            assert(sd.take(idx + 1).drop_last() =~= sd.take(idx as int));
        }
        slots.push(slot);
        slot_role_bits = slot_role_bits | slot.role_bits;
        idx = idx + 1;
    }
    assert(sd.take(idx as int) =~= sd);
    let close = matching_close(o);
    let mut open_bytes: Vec<u8> = Vec::new();
    open_bytes.push(o);
    let mut close_bytes: Vec<u8> = Vec::new();
    close_bytes.push(close);
    let ghost so = NodeShape::TypedBoundary { label: bracket_label(true, o), bytes: seq![o] };
    let ghost sc = NodeShape::TypedBoundary { label: bracket_label(false, close), bytes: seq![close] };
    let mut nodes: Vec<AssemblyBodyNode> = Vec::new();
    nodes.push(AssemblyBodyNode::TypedBoundary { label: bracket_label_exec(true, o), bytes: open_bytes });
    let ghost n1 = nodes@;
    proof {
        assert(shapes(n1) =~= seq![so]);
        assert(no_spans(n1));
        reveal_with_fuel(nodes_bytes_total, 2);
        assert(n1.drop_last() =~= Seq::<AssemblyBodyNode>::empty());
        assert(nodes_bytes_total(n1) == 1);
    }
    push_slot_body(&mut nodes, inner.as_slice(), &parts, &slots);
    let ghost n2 = nodes@;
    nodes.push(AssemblyBodyNode::TypedBoundary { label: bracket_label_exec(false, close), bytes: close_bytes });
    proof {
        assert(shapes(nodes@) =~= shapes(n2).push(sc));
        assert(shapes(nodes@) =~= seq![so] + slot_body_shapes(iv, pv, sd, 0, 0) + seq![sc]);
        assert(nodes@.drop_last() =~= n2);
        assert(nodes_bytes_total(nodes@) == iv.len() + 2);
        assert forall|i: int| 0 <= i < nodes@.len() implies !((#[trigger] nodes@[i]) is SubstrateSpan) by {
            if i < n2.len() {
                assert(nodes@[i] == n2[i]);
            }
        }
    }
    let role_signature = RoleSignature {
        role_bits: cue.role_bits,
        delimiter_role_bits: cue.delimiter_bits | delimiter_bit(o) | delimiter_bit(close),
        slot_role_bits,
    };
    proof {
        lemma_body_fits(nodes@, role_signature, slots@);
    }
    let total = inner.len() as u32 + 2;
    let h = rolling_assembly_hash(inner.as_slice()) ^ ((o as u64) << 56u64);
    let c = build_assembly_candidate(AssemblyKind::SlotBearing, role_signature, slots, nodes, cue, total, total, h);
    Some(c)
}

/// The candidates of one bracket, at most eight.
fn slot_candidates_for(
    source_kind: SourceKind,
    bytes: &[u8],
    config: crate::assembly::AssemblyExtractionConfig,
    o: u8,
) -> (r: Vec<AssemblyExtractionCandidate>)
    requires
        bytes@.len() <= 0xfffe_0000,
    ensures
        r@.len() == first_up_to(slot_structures(bytes@, config, o), 8).len(),
        forall|i: int| 0 <= i < r@.len() ==> slot_candidate(#[trigger] r@[i], bytes@, config, o, slot_structures(bytes@, config, o)[i].0, slot_structures(bytes@, config, o)[i].1),
{
    let ghost target = slot_structures(bytes@, config, o);
    let close = matching_close(o);
    let mut out: Vec<AssemblyExtractionCandidate> = Vec::new();
    let ghost mut done: Seq<(nat, nat)> = Seq::empty();
    let mut cursor: usize = 0;
    while cursor < bytes.len()
        invariant
            bytes@.len() <= 0xfffe_0000,
            close == matching_close_spec(o),
            target == slot_structures(bytes@, config, o),
            done + qualified_spans(bytes@, config, bracket_spans(bytes@, o, cursor as nat)) == target,
            done.len() < 8,
            out@.len() == done.len(),
            forall|i: int| 0 <= i < out@.len() ==> slot_candidate(#[trigger] out@[i], bytes@, config, o, done[i].0, done[i].1),
        decreases bytes@.len() - cursor,
    {
        let open_idx = match find_byte_exec(bytes, o, cursor) {
            Some(i) => i,
            None => {
                proof {
                    assert(done =~= target);
                }
                return out;
            },
        };
        let close_idx = match find_byte_exec(bytes, close, open_idx + 1) {
            Some(i) => i,
            None => {
                proof {
                    assert(done =~= target);
                }
                return out;
            },
        };
        let ghost spans = bracket_spans(bytes@, o, cursor as nat);
        let ghost rest = bracket_spans(bytes@, o, close_idx as nat + 1);
        proof {
            assert(spans == seq![(open_idx as nat, close_idx as nat)] + rest);
            assert((seq![(open_idx as nat, close_idx as nat)] + rest).drop_first() =~= rest);
        }
        match build_slot_candidate(source_kind, bytes, config, o, open_idx, close_idx) {
            Some(c) => {
                let ghost cg = c;
                let ghost before_out = out@;
                out.push(c);
                proof {
                    let d0 = done;
                    done = done.push((open_idx as nat, close_idx as nat));
                    assert(d0 + qualified_spans(bytes@, config, spans) =~= done + qualified_spans(bytes@, config, rest));
                    assert forall|i: int| 0 <= i < out@.len() implies slot_candidate(#[trigger] out@[i], bytes@, config, o, done[i].0, done[i].1) by {
                        if i < before_out.len() {
                            assert(out@[i] == before_out[i]);
                        } else {
                            assert(out@[i] == cg);
                        }
                    }
                }
            },
            None => {},
        }
        cursor = close_idx + 1;
        if out.len() >= 8 {
            proof {
                assert(target.take(8) =~= done);
            }
            return out;
        }
    }
    proof {
        assert(bracket_spans(bytes@, o, cursor as nat) == Seq::<(nat, nat)>::empty());
        assert(done =~= target);
    }
    out
}

/// The first bracket, from the `k`th on, that gives any structure.
pub open spec fn slot_bracket_from(bytes: Seq<u8>, config: crate::assembly::AssemblyExtractionConfig, k: nat) -> Option<u8>
    decreases 4 - k,
{
    if k >= 4 {
        None
    } else if slot_structures(bytes, config, brackets()[k as int]).len() > 0 {
        Some(brackets()[k as int])
    } else {
        slot_bracket_from(bytes, config, k + 1)
    }
}

/// Slot-bearing structures: for the first of `{` `[` `(` `<` that gives
/// any, each span from the bracket to its first closing bracket whose inside
/// has at least two non-empty parts (split at `,` `:` `;` `|` or space), the
/// parts as slots; at most eight.
pub fn extract_slot_bearing_candidates(
    source_kind: SourceKind,
    bytes: &[u8],
    config: crate::assembly::AssemblyExtractionConfig,
) -> (r: Vec<AssemblyExtractionCandidate>)
    requires
        bytes@.len() <= 0xfffe_0000,
    ensures
        match slot_bracket_from(bytes@, config, 0) {
            None => r@.len() == 0,
            Some(o) => {
                &&& r@.len() == first_up_to(slot_structures(bytes@, config, o), 8).len()
                &&& forall|i: int| 0 <= i < r@.len() ==> slot_candidate(#[trigger] r@[i], bytes@, config, o, slot_structures(bytes@, config, o)[i].0, slot_structures(bytes@, config, o)[i].1)
            },
        },
{
    let mut k: usize = 0;
    while k < 4
        invariant
            k <= 4,
            bytes@.len() <= 0xfffe_0000,
            slot_bracket_from(bytes@, config, 0) == slot_bracket_from(bytes@, config, k as nat),
        decreases 4 - k,
    {
        let o: u8 = if k == 0 { 0x7b } else if k == 1 { 0x5b } else if k == 2 { 0x28 } else { 0x3c };
        assert(o == brackets()[k as int]);
        let out = slot_candidates_for(source_kind, bytes, config, o);
        if out.len() > 0 {
            return out;
        }
        k = k + 1;
    }
    Vec::new()
}

} // verus!
