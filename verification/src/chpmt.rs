//! Core vocabulary of the cue/object predictive memory: planes, route families,
//! object kinds, sparse cues, route scoring and route feedback.

use vstd::prelude::*;
use crate::num::{count_ones_u64, popcount, sat_add_u32, sat_mul_u32, sat_sub_u32, saturating_mul_u32};
use crate::protocol::RecordType;
use crate::source::SourceKind;

verus! {

#[derive(Debug, Clone, Copy, PartialEq, Eq, Hash, Default, Structural)]
pub enum MemoryPlane {
    #[default]
    AtomSubstrate,
    Assembly,
    Transform,
    Episode,
    Schema,
    Controller,
}

impl MemoryPlane {
    /// The wire code of the plane.
    pub open spec fn code_spec(self) -> u8 {
        match self {
            MemoryPlane::AtomSubstrate => 1,
            MemoryPlane::Assembly => 2,
            MemoryPlane::Transform => 3,
            MemoryPlane::Episode => 4,
            MemoryPlane::Schema => 5,
            MemoryPlane::Controller => 6,
        }
    }

    pub fn code(self) -> (c: u8)
        ensures
            c == self.code_spec(),
    {
        match self {
            MemoryPlane::AtomSubstrate => 1,
            MemoryPlane::Assembly => 2,
            MemoryPlane::Transform => 3,
            MemoryPlane::Episode => 4,
            MemoryPlane::Schema => 5,
            MemoryPlane::Controller => 6,
        }
    }
}

#[derive(Debug, Clone, Copy, PartialEq, Eq, Hash, Default, Structural)]
pub enum RouteFamily {
    #[default]
    DirectState,
    PredictiveConfirm,
    PredictiveCorrect,
    Assembly,
    /// Demoted from the active architecture; kept for wire compatibility.
    Transform,
    Schema,
    Episode,
    Replay,
    ExactAtom,
}

impl RouteFamily {
    /// The wire code of the family.
    pub open spec fn code_spec(self) -> u8 {
        match self {
            RouteFamily::DirectState => 1,
            RouteFamily::PredictiveConfirm => 2,
            RouteFamily::PredictiveCorrect => 3,
            RouteFamily::Assembly => 4,
            RouteFamily::Transform => 5,
            RouteFamily::Schema => 6,
            RouteFamily::Episode => 7,
            RouteFamily::Replay => 8,
            RouteFamily::ExactAtom => 9,
        }
    }

    pub fn code(self) -> (c: u8)
        ensures
            c == self.code_spec(),
    {
        match self {
            RouteFamily::DirectState => 1,
            RouteFamily::PredictiveConfirm => 2,
            RouteFamily::PredictiveCorrect => 3,
            RouteFamily::Assembly => 4,
            RouteFamily::Transform => 5,
            RouteFamily::Schema => 6,
            RouteFamily::Episode => 7,
            RouteFamily::Replay => 8,
            RouteFamily::ExactAtom => 9,
        }
    }
}

#[derive(Debug, Clone, Copy, PartialEq, Eq, Hash, Default, Structural)]
pub enum ControllerRouteFamily {
    #[default]
    DirectState,
    ExactAtom,
    Assembly,
    /// Demoted from the active architecture; kept for wire compatibility.
    Transform,
    EpisodeCompletion,
    SchemaExpansion,
    Hybrid,
}

impl ControllerRouteFamily {
    /// The wire code of the family.
    pub open spec fn code_spec(self) -> u8 {
        match self {
            ControllerRouteFamily::DirectState => 1,
            ControllerRouteFamily::ExactAtom => 2,
            ControllerRouteFamily::Assembly => 3,
            ControllerRouteFamily::Transform => 4,
            ControllerRouteFamily::EpisodeCompletion => 5,
            ControllerRouteFamily::SchemaExpansion => 6,
            ControllerRouteFamily::Hybrid => 7,
        }
    }

    pub fn code(self) -> (c: u8)
        ensures
            c == self.code_spec(),
            1 <= c <= 7,
    {
        match self {
            ControllerRouteFamily::DirectState => 1,
            ControllerRouteFamily::ExactAtom => 2,
            ControllerRouteFamily::Assembly => 3,
            ControllerRouteFamily::Transform => 4,
            ControllerRouteFamily::EpisodeCompletion => 5,
            ControllerRouteFamily::SchemaExpansion => 6,
            ControllerRouteFamily::Hybrid => 7,
        }
    }

    /// The route family that a controller decision is accounted under.
    pub open spec fn route_family_spec(self) -> RouteFamily {
        match self {
            ControllerRouteFamily::DirectState => RouteFamily::DirectState,
            ControllerRouteFamily::ExactAtom => RouteFamily::ExactAtom,
            ControllerRouteFamily::Assembly => RouteFamily::Assembly,
            ControllerRouteFamily::Transform => RouteFamily::Transform,
            ControllerRouteFamily::EpisodeCompletion => RouteFamily::PredictiveConfirm,
            ControllerRouteFamily::SchemaExpansion => RouteFamily::Schema,
            ControllerRouteFamily::Hybrid => RouteFamily::PredictiveCorrect,
        }
    }

    pub fn route_family(self) -> (r: RouteFamily)
        ensures
            r == self.route_family_spec(),
    {
        match self {
            ControllerRouteFamily::DirectState => RouteFamily::DirectState,
            ControllerRouteFamily::ExactAtom => RouteFamily::ExactAtom,
            ControllerRouteFamily::Assembly => RouteFamily::Assembly,
            ControllerRouteFamily::Transform => RouteFamily::Transform,
            ControllerRouteFamily::EpisodeCompletion => RouteFamily::PredictiveConfirm,
            ControllerRouteFamily::SchemaExpansion => RouteFamily::Schema,
            ControllerRouteFamily::Hybrid => RouteFamily::PredictiveCorrect,
        }
    }

    /// The record type that carries a dispatch of this family.
    pub open spec fn dispatch_record_type_spec(self) -> RecordType {
        match self {
            ControllerRouteFamily::DirectState => RecordType::ExactState,
            ControllerRouteFamily::ExactAtom => RecordType::PredictiveConfirm,
            ControllerRouteFamily::Assembly => RecordType::PredictiveConfirm,
            ControllerRouteFamily::EpisodeCompletion => RecordType::PredictiveConfirm,
            ControllerRouteFamily::SchemaExpansion => RecordType::PredictiveCorrect,
            ControllerRouteFamily::Hybrid => RecordType::PredictiveCorrect,
            ControllerRouteFamily::Transform => RecordType::TransformCorrect,
        }
    }

    pub fn dispatch_record_type(self) -> (r: RecordType)
        ensures
            r == self.dispatch_record_type_spec(),
    {
        match self {
            ControllerRouteFamily::DirectState => RecordType::ExactState,
            ControllerRouteFamily::ExactAtom => RecordType::PredictiveConfirm,
            ControllerRouteFamily::Assembly => RecordType::PredictiveConfirm,
            ControllerRouteFamily::EpisodeCompletion => RecordType::PredictiveConfirm,
            ControllerRouteFamily::SchemaExpansion => RecordType::PredictiveCorrect,
            ControllerRouteFamily::Hybrid => RecordType::PredictiveCorrect,
            ControllerRouteFamily::Transform => RecordType::TransformCorrect,
        }
    }
}

#[derive(Debug, Clone, Copy, PartialEq, Eq, Hash, Default, Structural)]
pub enum AssemblyRouteMode {
    #[default]
    DefineAndActivate,
    ReuseReference,
    StructuralHybrid,
}

#[derive(Debug, Clone, Copy, PartialEq, Eq, Hash, Default, Structural)]
pub enum ObjectKind {
    AtomFragment,
    ExactBlock,
    ExactBundle,
    ExactRange,
    ResidualBuffer,
    ExactState,
    SourceDescriptor,
    SparseCue,
    Assembly,
    Transform,
    Schema,
    EpisodeHint,
    ReplayHint,
    Dictionary,
    #[default]
    PredictiveObject,
}

impl ObjectKind {
    /// The wire code of the kind.
    pub open spec fn code_spec(self) -> u8 {
        match self {
            ObjectKind::AtomFragment => 1,
            ObjectKind::ExactBlock => 2,
            ObjectKind::ExactBundle => 3,
            ObjectKind::ExactRange => 4,
            ObjectKind::ResidualBuffer => 5,
            ObjectKind::ExactState => 6,
            ObjectKind::SourceDescriptor => 7,
            ObjectKind::SparseCue => 8,
            ObjectKind::Assembly => 9,
            ObjectKind::Transform => 10,
            ObjectKind::Schema => 11,
            ObjectKind::EpisodeHint => 12,
            ObjectKind::ReplayHint => 13,
            ObjectKind::Dictionary => 14,
            ObjectKind::PredictiveObject => 15,
        }
    }

    pub fn code(self) -> (c: u8)
        ensures
            c == self.code_spec(),
            1 <= c <= 15,
    {
        match self {
            ObjectKind::AtomFragment => 1,
            ObjectKind::ExactBlock => 2,
            ObjectKind::ExactBundle => 3,
            ObjectKind::ExactRange => 4,
            ObjectKind::ResidualBuffer => 5,
            ObjectKind::ExactState => 6,
            ObjectKind::SourceDescriptor => 7,
            ObjectKind::SparseCue => 8,
            ObjectKind::Assembly => 9,
            ObjectKind::Transform => 10,
            ObjectKind::Schema => 11,
            ObjectKind::EpisodeHint => 12,
            ObjectKind::ReplayHint => 13,
            ObjectKind::Dictionary => 14,
            ObjectKind::PredictiveObject => 15,
        }
    }

    /// The storage slug of the kind.
    pub fn storage_slug(self) -> (s: &'static str)
        ensures
            s@ == self.storage_slug_spec(),
    {
        match self {
            ObjectKind::AtomFragment => "atom_fragment",
            ObjectKind::ExactBlock => "exact_block",
            ObjectKind::ExactBundle => "exact_bundle",
            ObjectKind::ExactRange => "exact_range",
            ObjectKind::ResidualBuffer => "residual_buffer",
            ObjectKind::ExactState => "exact_state",
            ObjectKind::SourceDescriptor => "source_descriptor",
            ObjectKind::SparseCue => "sparse_cue",
            ObjectKind::Assembly => "assembly",
            ObjectKind::Transform => "transform",
            ObjectKind::Schema => "schema",
            ObjectKind::EpisodeHint => "episode_hint",
            ObjectKind::ReplayHint => "replay_hint",
            ObjectKind::Dictionary => "dictionary",
            ObjectKind::PredictiveObject => "predictive_object",
        }
    }

    /// The storage slug of the kind, as characters.
    pub open spec fn storage_slug_spec(self) -> Seq<char> {
        match self {
            ObjectKind::AtomFragment => "atom_fragment"@,
            ObjectKind::ExactBlock => "exact_block"@,
            ObjectKind::ExactBundle => "exact_bundle"@,
            ObjectKind::ExactRange => "exact_range"@,
            ObjectKind::ResidualBuffer => "residual_buffer"@,
            ObjectKind::ExactState => "exact_state"@,
            ObjectKind::SourceDescriptor => "source_descriptor"@,
            ObjectKind::SparseCue => "sparse_cue"@,
            ObjectKind::Assembly => "assembly"@,
            ObjectKind::Transform => "transform"@,
            ObjectKind::Schema => "schema"@,
            ObjectKind::EpisodeHint => "episode_hint"@,
            ObjectKind::ReplayHint => "replay_hint"@,
            ObjectKind::Dictionary => "dictionary"@,
            ObjectKind::PredictiveObject => "predictive_object"@,
        }
    }

    /// Whether the kind is one of the five exact substrate kinds.
    pub open spec fn is_substrate_spec(self) -> bool {
        ||| self == ObjectKind::AtomFragment
        ||| self == ObjectKind::ExactBlock
        ||| self == ObjectKind::ExactBundle
        ||| self == ObjectKind::ExactRange
        ||| self == ObjectKind::ResidualBuffer
    }

    pub fn is_substrate(self) -> (b: bool)
        ensures
            b == self.is_substrate_spec(),
    {
        match self {
            ObjectKind::AtomFragment
            | ObjectKind::ExactBlock
            | ObjectKind::ExactBundle
            | ObjectKind::ExactRange
            | ObjectKind::ResidualBuffer => true,
            _ => false,
        }
    }

    /// The substrate capability that stores objects of this kind.
    pub open spec fn substrate_capability_spec(self) -> Option<SubstrateCapability> {
        match self {
            ObjectKind::AtomFragment => Some(SubstrateCapability::AtomFragment),
            ObjectKind::ExactBlock => Some(SubstrateCapability::ExactBlock),
            ObjectKind::ExactBundle => Some(SubstrateCapability::ExactBundle),
            ObjectKind::ExactRange => Some(SubstrateCapability::ExactRange),
            ObjectKind::ResidualBuffer => Some(SubstrateCapability::ResidualBuffer),
            _ => None,
        }
    }

    pub fn substrate_capability(self) -> (c: Option<SubstrateCapability>)
        ensures
            c == self.substrate_capability_spec(),
            c.is_some() == self.is_substrate_spec(),
    {
        match self {
            ObjectKind::AtomFragment => Some(SubstrateCapability::AtomFragment),
            ObjectKind::ExactBlock => Some(SubstrateCapability::ExactBlock),
            ObjectKind::ExactBundle => Some(SubstrateCapability::ExactBundle),
            ObjectKind::ExactRange => Some(SubstrateCapability::ExactRange),
            ObjectKind::ResidualBuffer => Some(SubstrateCapability::ResidualBuffer),
            _ => None,
        }
    }
}

#[derive(Debug, Clone, Copy, PartialEq, Eq, Hash, Default, Structural)]
pub enum SubstrateCapability {
    AtomFragment,
    ExactBlock,
    ExactBundle,
    ExactRange,
    ResidualBuffer,
    #[default]
    CompositeGraph,
}

impl SubstrateCapability {
    /// The mask bit of the capability.
    pub open spec fn bit_spec(self) -> u16 {
        match self {
            SubstrateCapability::AtomFragment => 1,
            SubstrateCapability::ExactBlock => 2,
            SubstrateCapability::ExactBundle => 4,
            SubstrateCapability::ExactRange => 8,
            SubstrateCapability::ResidualBuffer => 16,
            SubstrateCapability::CompositeGraph => 32,
        }
    }

    pub fn bit(self) -> (b: u16)
        ensures
            b == self.bit_spec(),
    {
        match self {
            SubstrateCapability::AtomFragment => 1,
            SubstrateCapability::ExactBlock => 2,
            SubstrateCapability::ExactBundle => 4,
            SubstrateCapability::ExactRange => 8,
            SubstrateCapability::ResidualBuffer => 16,
            SubstrateCapability::CompositeGraph => 32,
        }
    }

    /// Whether a store with this capability can hold objects of `kind`.
    pub open spec fn supports_kind_spec(self, kind: ObjectKind) -> bool {
        if self == SubstrateCapability::CompositeGraph {
            kind.is_substrate_spec()
        } else {
            kind.substrate_capability_spec() == Some(self)
        }
    }

    pub fn supports_kind(self, kind: ObjectKind) -> (b: bool)
        ensures
            b == self.supports_kind_spec(kind),
    {
        match self {
            SubstrateCapability::CompositeGraph => kind.is_substrate(),
            _ => match kind.substrate_capability() {
                Some(capability) => capability == self,
                None => false,
            },
        }
    }
}

#[derive(Debug, Clone, Copy, PartialEq, Eq, Hash, Default, Structural)]
pub struct SubstrateCapabilityMask(pub u16);

impl SubstrateCapabilityMask {
    pub fn empty() -> (m: Self)
        ensures
            m.0 == 0,
    {
        SubstrateCapabilityMask(0)
    }

    pub fn insert(&mut self, capability: SubstrateCapability)
        ensures
            final(self).0 == old(self).0 | capability.bit_spec(),
    {
        self.0 = self.0 | capability.bit();
    }

    pub open spec fn contains_spec(self, capability: SubstrateCapability) -> bool {
        self.0 & capability.bit_spec() != 0
    }

    pub fn contains(self, capability: SubstrateCapability) -> (b: bool)
        ensures
            b == self.contains_spec(capability),
    {
        self.0 & capability.bit() != 0
    }

    /// Whether the mask admits objects of `kind`: the kind is a substrate kind and
    /// either its own capability or the composite capability is present.
    pub open spec fn supports_spec(self, kind: ObjectKind) -> bool {
        match kind.substrate_capability_spec() {
            Some(capability) => self.contains_spec(capability) || self.contains_spec(
                SubstrateCapability::CompositeGraph,
            ),
            None => false,
        }
    }

    pub fn supports(self, kind: ObjectKind) -> (b: bool)
        ensures
            b == self.supports_spec(kind),
    {
        match kind.substrate_capability() {
            Some(capability) => self.contains(capability) || self.contains(
                SubstrateCapability::CompositeGraph,
            ),
            None => false,
        }
    }
}

#[derive(Debug, Clone, Copy, PartialEq, Eq, Hash, Default, Structural)]
pub enum PrecisionBand {
    Exact,
    Tight,
    #[default]
    Balanced,
    Broad,
    Background,
}

#[derive(Debug, Clone, Copy, PartialEq, Eq, Hash, Default, Structural)]
pub struct PrecisionBandValue(pub u16);

impl PrecisionBand {
    /// The score contribution of the band.
    pub open spec fn score_spec(self) -> u16 {
        match self {
            PrecisionBand::Exact => 1000,
            PrecisionBand::Tight => 850,
            PrecisionBand::Balanced => 650,
            PrecisionBand::Broad => 400,
            PrecisionBand::Background => 150,
        }
    }

    pub open spec fn code_spec(self) -> u8 {
        match self {
            PrecisionBand::Exact => 1,
            PrecisionBand::Tight => 2,
            PrecisionBand::Balanced => 3,
            PrecisionBand::Broad => 4,
            PrecisionBand::Background => 5,
        }
    }

    pub fn code(self) -> (c: u8)
        ensures
            c == self.code_spec(),
    {
        match self {
            PrecisionBand::Exact => 1,
            PrecisionBand::Tight => 2,
            PrecisionBand::Balanced => 3,
            PrecisionBand::Broad => 4,
            PrecisionBand::Background => 5,
        }
    }

    pub fn score_value(self) -> (v: PrecisionBandValue)
        ensures
            v.0 == self.score_spec(),
    {
        PrecisionBandValue(
            match self {
                PrecisionBand::Exact => 1000,
                PrecisionBand::Tight => 850,
                PrecisionBand::Balanced => 650,
                PrecisionBand::Broad => 400,
                PrecisionBand::Background => 150,
            },
        )
    }
}

#[derive(Debug, Clone, Copy, PartialEq, Eq, Hash, Default, Structural)]
pub enum PromotionLevel {
    #[default]
    Cold,
    Warm,
    Stable,
    Promoted,
    Canonical,
}

/// What one text-family or image-family endpoint can carry.
#[derive(Debug, Clone, PartialEq, Eq)]
pub struct ChpmtCapabilityDescriptor {
    pub capability_slug: &'static str,
    pub supported_planes: Vec<MemoryPlane>,
    pub supported_object_kinds: Vec<ObjectKind>,
    pub supported_source_kind_bits: u64,
}

impl ChpmtCapabilityDescriptor {
    pub fn supports_source_kind(&self, source_kind: SourceKind) -> (b: bool)
        ensures
            b == (self.supported_source_kind_bits & source_kind.family_bits_spec() != 0),
    {
        self.supported_source_kind_bits & source_kind.family_bits() != 0
    }
}

/// The six planes, in order.
pub open spec fn all_planes() -> Seq<MemoryPlane> {
    seq![
        MemoryPlane::AtomSubstrate,
        MemoryPlane::Assembly,
        MemoryPlane::Transform,
        MemoryPlane::Episode,
        MemoryPlane::Schema,
        MemoryPlane::Controller,
    ]
}

fn all_planes_vec() -> (v: Vec<MemoryPlane>)
    ensures
        v@ == all_planes(),
{
    let v = vec![
        MemoryPlane::AtomSubstrate,
        MemoryPlane::Assembly,
        MemoryPlane::Transform,
        MemoryPlane::Episode,
        MemoryPlane::Schema,
        MemoryPlane::Controller,
    ];
    assert(v@ =~= all_planes());
    v
}

pub fn architecture_text_family_capability_descriptor() -> (d: ChpmtCapabilityDescriptor)
    ensures
        d.capability_slug@ == "text_family_cue_object"@,
        d.supported_planes@ == all_planes(),
        d.supported_object_kinds@ == seq![
            ObjectKind::ExactState,
            ObjectKind::SparseCue,
            ObjectKind::Assembly,
            ObjectKind::Transform,
            ObjectKind::Schema,
            ObjectKind::Dictionary,
            ObjectKind::PredictiveObject,
        ],
        d.supported_source_kind_bits == SourceKind::Text.family_bits_spec()
            | SourceKind::Json.family_bits_spec() | SourceKind::Binary.family_bits_spec(),
{
    let kinds = vec![
        ObjectKind::ExactState,
        ObjectKind::SparseCue,
        ObjectKind::Assembly,
        ObjectKind::Transform,
        ObjectKind::Schema,
        ObjectKind::Dictionary,
        ObjectKind::PredictiveObject,
    ];
    let d = ChpmtCapabilityDescriptor {
        capability_slug: "text_family_cue_object",
        supported_planes: all_planes_vec(),
        supported_object_kinds: kinds,
        supported_source_kind_bits: SourceKind::Text.family_bits() | SourceKind::Json.family_bits()
            | SourceKind::Binary.family_bits(),
    };
    assert(d.supported_object_kinds@ =~= seq![
        ObjectKind::ExactState,
        ObjectKind::SparseCue,
        ObjectKind::Assembly,
        ObjectKind::Transform,
        ObjectKind::Schema,
        ObjectKind::Dictionary,
        ObjectKind::PredictiveObject,
    ]);
    d
}

pub fn architecture_image_family_capability_descriptor() -> (d: ChpmtCapabilityDescriptor)
    ensures
        d.capability_slug@ == "image_family_cue_object"@,
        d.supported_planes@ == all_planes(),
        d.supported_object_kinds@ == seq![
            ObjectKind::ExactState,
            ObjectKind::SparseCue,
            ObjectKind::Assembly,
            ObjectKind::Transform,
            ObjectKind::Schema,
            ObjectKind::PredictiveObject,
        ],
        d.supported_source_kind_bits == SourceKind::Image.family_bits_spec(),
{
    let kinds = vec![
        ObjectKind::ExactState,
        ObjectKind::SparseCue,
        ObjectKind::Assembly,
        ObjectKind::Transform,
        ObjectKind::Schema,
        ObjectKind::PredictiveObject,
    ];
    let d = ChpmtCapabilityDescriptor {
        capability_slug: "image_family_cue_object",
        supported_planes: all_planes_vec(),
        supported_object_kinds: kinds,
        supported_source_kind_bits: SourceKind::Image.family_bits(),
    };
    assert(d.supported_object_kinds@ =~= seq![
        ObjectKind::ExactState,
        ObjectKind::SparseCue,
        ObjectKind::Assembly,
        ObjectKind::Transform,
        ObjectKind::Schema,
        ObjectKind::PredictiveObject,
    ]);
    d
}

/// A sparse, bit-set cue describing the shape of a payload.
#[derive(Debug, Clone, Copy, PartialEq, Eq, Hash, Default, Structural)]
pub struct SparseCue {
    pub family_bits: u64,
    pub role_bits: u64,
    pub delimiter_bits: u64,
    pub length_bucket_bits: u64,
    pub temporal_bits: u64,
}

/// The number of bits two cues share, over all five bit sets.
pub open spec fn cue_overlap(a: SparseCue, b: SparseCue) -> nat {
    popcount(a.family_bits & b.family_bits) + popcount(a.role_bits & b.role_bits) + popcount(
        a.delimiter_bits & b.delimiter_bits,
    ) + popcount(a.length_bucket_bits & b.length_bucket_bits) + popcount(
        a.temporal_bits & b.temporal_bits,
    )
}

/// The index of the lowest set bit of a non-zero `x`.
pub open spec fn lowest_set_bit(x: u64) -> nat
    decreases x,
{
    if x == 0 || x & 1 == 1 {
        0
    } else {
        proof {
            assert(x != 0 ==> x >> 1u64 < x) by (bit_vector);
        }
        1 + lowest_set_bit(x >> 1u64)
    }
}

impl SparseCue {
    pub fn new(
        family_bits: u64,
        role_bits: u64,
        delimiter_bits: u64,
        length_bucket_bits: u64,
        temporal_bits: u64,
    ) -> (c: Self)
        ensures
            c == (SparseCue {
                family_bits,
                role_bits,
                delimiter_bits,
                length_bucket_bits,
                temporal_bits,
            }),
    {
        SparseCue { family_bits, role_bits, delimiter_bits, length_bucket_bits, temporal_bits }
    }

    pub fn is_empty(self) -> (b: bool)
        ensures
            b == (self.family_bits == 0 && self.role_bits == 0 && self.delimiter_bits == 0
                && self.length_bucket_bits == 0 && self.temporal_bits == 0),
    {
        self.family_bits == 0 && self.role_bits == 0 && self.delimiter_bits == 0
            && self.length_bucket_bits == 0 && self.temporal_bits == 0
    }

    pub fn overlap_score(self, other: Self) -> (s: u32)
        ensures
            s == cue_overlap(self, other),
            s <= 320,
    {
        count_ones_u64(self.family_bits & other.family_bits) + count_ones_u64(
            self.role_bits & other.role_bits,
        ) + count_ones_u64(self.delimiter_bits & other.delimiter_bits) + count_ones_u64(
            self.length_bucket_bits & other.length_bucket_bits,
        ) + count_ones_u64(self.temporal_bits & other.temporal_bits)
    }

    pub fn length_bucket_tag(self) -> (t: u8)
        ensures
            t == lowest_set_bit(self.length_bucket_bits),
    {
        let mut bits: u64 = self.length_bucket_bits;
        if bits == 0 {
            return 0;
        }
        let mut n: u64 = 0;
        assert(bits <= (0xffff_ffff_ffff_ffffu64 >> 0u64)) by (bit_vector);
        while bits & 1 == 0
            invariant
                bits != 0,
                n <= 63,
                bits <= (0xffff_ffff_ffff_ffffu64 >> n),
                n + lowest_set_bit(bits) == lowest_set_bit(self.length_bucket_bits),
            decreases bits,
        {
            assert(bits != 0 && bits & 1 == 0 ==> bits >> 1u64 != 0 && bits >> 1u64 < bits)
                by (bit_vector);
            assert(bits & 1 == 0 && bits != 0 && n <= 63 && bits <= (0xffff_ffff_ffff_ffffu64 >> n)
                ==> n + 1 <= 63 && (bits >> 1u64) <= (0xffff_ffff_ffff_ffffu64 >> ((n + 1) as u64)))
                by (bit_vector);
            bits = bits >> 1;
            n = n + 1;
        }
        assert(bits & 1 != 0 ==> bits & 1 == 1) by (bit_vector);
        n as u8
    }
}

#[derive(Debug, Clone, Copy, PartialEq, Eq, Default, Structural)]
pub struct RouteScoreInputs {
    pub wire_cost: u32,
    pub decode_cost: u32,
    pub residual_cost: u32,
    pub sync_risk: u32,
    pub ambiguity: u32,
    pub novelty: u32,
    pub support_gain: u32,
    pub predictive_match_gain: u32,
    pub temporal_continuation_gain: u32,
    pub schema_reuse_gain: u32,
    pub adaptive_prior_gain: u32,
    pub adaptive_failure_penalty: u32,
    pub adaptive_promotion_gain: u32,
    pub adaptive_suppression_penalty: u32,
}

#[derive(Debug, Clone, Copy, PartialEq, Eq, Default, Structural)]
pub struct RouteScoreBreakdown {
    pub base_gains: u32,
    pub base_penalties: u32,
    pub adaptive_prior_gain: u32,
    pub adaptive_failure_penalty: u32,
    pub adaptive_promotion_gain: u32,
    pub adaptive_suppression_penalty: u32,
}

#[derive(Debug, Clone, Copy, PartialEq, Eq, Default, Structural)]
pub struct RouteScore {
    pub total: i32,
    pub precision_band: PrecisionBand,
    pub breakdown: RouteScoreBreakdown,
}

/// Support, predictive, temporal and schema gains plus the band's value, saturating.
pub open spec fn route_base_gains(i: RouteScoreInputs, band: PrecisionBand) -> u32 {
    sat_add_u32(
        sat_add_u32(
            sat_add_u32(
                sat_add_u32(i.support_gain, i.predictive_match_gain),
                i.temporal_continuation_gain,
            ),
            i.schema_reuse_gain,
        ),
        band.score_spec() as u32,
    )
}

/// Wire, decode, residual, sync, ambiguity and novelty costs, saturating.
pub open spec fn route_base_penalties(i: RouteScoreInputs) -> u32 {
    sat_add_u32(
        sat_add_u32(
            sat_add_u32(
                sat_add_u32(sat_add_u32(i.wire_cost, i.decode_cost), i.residual_cost),
                i.sync_risk,
            ),
            i.ambiguity,
        ),
        i.novelty,
    )
}

/// The route score total: the four saturated sums, each read as a signed
/// 32-bit value (wrapping), gains added and penalties taken away, in that order.
pub open spec fn route_total(i: RouteScoreInputs, band: PrecisionBand) -> int {
    (route_base_gains(i, band) as i32) + (sat_add_u32(i.adaptive_prior_gain, i.adaptive_promotion_gain) as i32)
        - (route_base_penalties(i) as i32) - (sat_add_u32(
        i.adaptive_failure_penalty,
        i.adaptive_suppression_penalty,
    ) as i32)
}

/// Whether each step of the route score total stays within `i32`.
pub open spec fn route_score_fits(i: RouteScoreInputs, band: PrecisionBand) -> bool {
    let bg = route_base_gains(i, band) as i32;
    let bp = route_base_penalties(i) as i32;
    let ag = sat_add_u32(i.adaptive_prior_gain, i.adaptive_promotion_gain) as i32;
    let ap = sat_add_u32(i.adaptive_failure_penalty, i.adaptive_suppression_penalty) as i32;
    &&& i32::MIN <= bg + ag <= i32::MAX
    &&& i32::MIN <= bg + ag - bp <= i32::MAX
    &&& i32::MIN <= bg + ag - bp - ap <= i32::MAX
}

/// Scores a candidate route: gains minus penalties, with the breakdown kept.
pub fn score_route(inputs: RouteScoreInputs, precision_band: PrecisionBand) -> (r: RouteScore)
    requires
        route_score_fits(inputs, precision_band),
    ensures
        r.total == route_total(inputs, precision_band),
        r.precision_band == precision_band,
        r.breakdown.base_gains == route_base_gains(inputs, precision_band),
        r.breakdown.base_penalties == route_base_penalties(inputs),
        r.breakdown.adaptive_prior_gain == inputs.adaptive_prior_gain,
        r.breakdown.adaptive_failure_penalty == inputs.adaptive_failure_penalty,
        r.breakdown.adaptive_promotion_gain == inputs.adaptive_promotion_gain,
        r.breakdown.adaptive_suppression_penalty == inputs.adaptive_suppression_penalty,
{
    let base_gains = inputs.support_gain.saturating_add(inputs.predictive_match_gain).saturating_add(
        inputs.temporal_continuation_gain,
    ).saturating_add(inputs.schema_reuse_gain).saturating_add(
        precision_band.score_value().0 as u32,
    );
    let base_penalties = inputs.wire_cost.saturating_add(inputs.decode_cost).saturating_add(
        inputs.residual_cost,
    ).saturating_add(inputs.sync_risk).saturating_add(inputs.ambiguity).saturating_add(
        inputs.novelty,
    );
    let adaptive_gains = inputs.adaptive_prior_gain.saturating_add(inputs.adaptive_promotion_gain);
    let adaptive_penalties = inputs.adaptive_failure_penalty.saturating_add(
        inputs.adaptive_suppression_penalty,
    );
    RouteScore {
        total: (#[verifier::truncate] (base_gains as i32)) + (#[verifier::truncate] (adaptive_gains as i32))
            - (#[verifier::truncate] (base_penalties as i32)) - (#[verifier::truncate] (adaptive_penalties as i32)),
        precision_band,
        breakdown: RouteScoreBreakdown {
            base_gains,
            base_penalties,
            adaptive_prior_gain: inputs.adaptive_prior_gain,
            adaptive_failure_penalty: inputs.adaptive_failure_penalty,
            adaptive_promotion_gain: inputs.adaptive_promotion_gain,
            adaptive_suppression_penalty: inputs.adaptive_suppression_penalty,
        },
    }
}

#[derive(Debug, Clone, Copy, PartialEq, Eq, Default, Structural)]
pub struct RouteFeedbackSummary {
    pub route_family: ControllerRouteFamily,
    pub total_successes: u32,
    pub total_failures: u32,
    pub source_successes: u32,
    pub source_failures: u32,
    pub context_successes: u32,
    pub context_failures: u32,
    pub recent_successes: u32,
    pub recent_failures: u32,
}

/// Ticks within which an outcome counts as recent.
pub const RECENT_TICK_WINDOW: u64 = 256;

impl RouteFeedbackSummary {
    pub open spec fn prior_gain_spec(self) -> u32 {
        let v = sat_add_u32(
            sat_add_u32(self.total_successes / 2, self.source_successes),
            sat_mul_u32(self.context_successes, 2),
        );
        if v < 96 { v } else { 96 }
    }

    pub open spec fn failure_penalty_spec(self) -> u32 {
        let v = sat_add_u32(
            sat_add_u32(self.total_failures / 2, self.source_failures),
            sat_mul_u32(self.context_failures, 2),
        );
        if v < 128 { v } else { 128 }
    }

    pub open spec fn promotion_gain_spec(self) -> u32 {
        if self.recent_successes >= 3 && self.recent_successes > self.recent_failures {
            let v = sat_mul_u32(self.recent_successes, 6);
            if v < 48 { v } else { 48 }
        } else {
            0
        }
    }

    pub open spec fn suppression_penalty_spec(self) -> u32 {
        if self.recent_failures >= 3 && self.recent_failures > self.recent_successes {
            let v = sat_mul_u32(self.recent_failures, 12);
            if v < 160 { v } else { 160 }
        } else {
            0
        }
    }

    pub fn planner_prior_gain(&self) -> (g: u32)
        ensures
            g == self.prior_gain_spec(),
    {
        let v = (self.total_successes / 2).saturating_add(self.source_successes).saturating_add(
            saturating_mul_u32(self.context_successes, 2),
        );
        if v < 96 { v } else { 96 }
    }

    pub fn planner_failure_penalty(&self) -> (p: u32)
        ensures
            p == self.failure_penalty_spec(),
    {
        let v = (self.total_failures / 2).saturating_add(self.source_failures).saturating_add(
            saturating_mul_u32(self.context_failures, 2),
        );
        if v < 128 { v } else { 128 }
    }

    pub fn success_promotion_gain(&self) -> (g: u32)
        ensures
            g == self.promotion_gain_spec(),
    {
        if self.recent_successes >= 3 && self.recent_successes > self.recent_failures {
            let v = saturating_mul_u32(self.recent_successes, 6);
            if v < 48 { v } else { 48 }
        } else {
            0
        }
    }

    pub fn suppression_penalty(&self) -> (p: u32)
        ensures
            p == self.suppression_penalty_spec(),
    {
        if self.recent_failures >= 3 && self.recent_failures > self.recent_successes {
            let v = saturating_mul_u32(self.recent_failures, 12);
            if v < 160 { v } else { 160 }
        } else {
            0
        }
    }

    pub fn suppressed(&self) -> (b: bool)
        ensures
            b == (self.suppression_penalty_spec() >= 72),
    {
        self.suppression_penalty() >= 72
    }
}

#[derive(Debug, Clone, Copy, PartialEq, Eq, Default, Structural)]
pub struct RouteStatistics {
    pub route_family: ControllerRouteFamily,
    pub source_kind: Option<SourceKind>,
    pub context_hash: Option<ContextHash>,
    pub success_count: u32,
    pub failure_count: u32,
    pub last_seen_tick: u64,
}

impl RouteStatistics {
    pub fn record(&mut self, tick: u64, success: bool)
        ensures
            final(self).last_seen_tick == tick,
            final(self).route_family == old(self).route_family,
            final(self).source_kind == old(self).source_kind,
            final(self).context_hash == old(self).context_hash,
            success ==> final(self).success_count == sat_add_u32(old(self).success_count, 1)
                && final(self).failure_count == old(self).failure_count,
            !success ==> final(self).failure_count == sat_add_u32(old(self).failure_count, 1)
                && final(self).success_count == old(self).success_count,
    {
        self.last_seen_tick = tick;
        if success {
            self.success_count = self.success_count.saturating_add(1);
        } else {
            self.failure_count = self.failure_count.saturating_add(1);
        }
    }
}

/// Folds one statistics row into a feedback summary.
pub open spec fn feedback_step(
    summary: RouteFeedbackSummary,
    stat: RouteStatistics,
    route_family: ControllerRouteFamily,
    source_kind: SourceKind,
    context_hash: Option<ContextHash>,
    tick: u64,
) -> RouteFeedbackSummary {
    if stat.route_family != route_family {
        summary
    } else {
        let s1 = RouteFeedbackSummary {
            total_successes: sat_add_u32(summary.total_successes, stat.success_count),
            total_failures: sat_add_u32(summary.total_failures, stat.failure_count),
            ..summary
        };
        let s2 = if stat.source_kind == Some(source_kind) {
            RouteFeedbackSummary {
                source_successes: sat_add_u32(s1.source_successes, stat.success_count),
                source_failures: sat_add_u32(s1.source_failures, stat.failure_count),
                ..s1
            }
        } else {
            s1
        };
        let s3 = if context_hash.is_some() && stat.context_hash == context_hash {
            RouteFeedbackSummary {
                context_successes: sat_add_u32(s2.context_successes, stat.success_count),
                context_failures: sat_add_u32(s2.context_failures, stat.failure_count),
                ..s2
            }
        } else {
            s2
        };
        let elapsed: u64 = if tick < stat.last_seen_tick { 0 } else { (tick - stat.last_seen_tick) as u64 };
        if elapsed <= RECENT_TICK_WINDOW {
            RouteFeedbackSummary {
                recent_successes: sat_add_u32(s3.recent_successes, stat.success_count),
                recent_failures: sat_add_u32(s3.recent_failures, stat.failure_count),
                ..s3
            }
        } else {
            s3
        }
    }
}

/// The feedback summary of the first `n` statistics rows.
pub open spec fn feedback_fold(
    stats: Seq<RouteStatistics>,
    n: nat,
    route_family: ControllerRouteFamily,
    source_kind: SourceKind,
    context_hash: Option<ContextHash>,
    tick: u64,
) -> RouteFeedbackSummary
    decreases n,
{
    if n == 0 {
        RouteFeedbackSummary {
            route_family,
            total_successes: 0,
            total_failures: 0,
            source_successes: 0,
            source_failures: 0,
            context_successes: 0,
            context_failures: 0,
            recent_successes: 0,
            recent_failures: 0,
        }
    } else {
        feedback_step(
            feedback_fold(stats, (n - 1) as nat, route_family, source_kind, context_hash, tick),
            stats[n - 1],
            route_family,
            source_kind,
            context_hash,
            tick,
        )
    }
}

/// Sums the outcome counters of the rows of one route family: all of them, those of
/// the source kind, those of the context, and those seen within the recent window.
pub fn summarize_route_feedback(
    route_family: ControllerRouteFamily,
    source_kind: SourceKind,
    context_hash: Option<ContextHash>,
    tick: u64,
    statistics: &[RouteStatistics],
) -> (r: RouteFeedbackSummary)
    ensures
        r == feedback_fold(
            statistics@,
            statistics@.len(),
            route_family,
            source_kind,
            context_hash,
            tick,
        ),
{
    let mut summary = RouteFeedbackSummary {
        route_family,
        total_successes: 0,
        total_failures: 0,
        source_successes: 0,
        source_failures: 0,
        context_successes: 0,
        context_failures: 0,
        recent_successes: 0,
        recent_failures: 0,
    };
    let mut i: usize = 0;
    while i < statistics.len()
        invariant
            i <= statistics@.len(),
            summary == feedback_fold(
                statistics@,
                i as nat,
                route_family,
                source_kind,
                context_hash,
                tick,
            ),
        decreases statistics@.len() - i,
    {
        let stat = statistics[i];
        if stat.route_family == route_family {
            summary.total_successes = summary.total_successes.saturating_add(stat.success_count);
            summary.total_failures = summary.total_failures.saturating_add(stat.failure_count);
            if stat.source_kind == Some(source_kind) {
                summary.source_successes = summary.source_successes.saturating_add(
                    stat.success_count,
                );
                summary.source_failures = summary.source_failures.saturating_add(
                    stat.failure_count,
                );
            }
            if context_hash.is_some() && stat.context_hash == context_hash {
                summary.context_successes = summary.context_successes.saturating_add(
                    stat.success_count,
                );
                summary.context_failures = summary.context_failures.saturating_add(
                    stat.failure_count,
                );
            }
            if tick.saturating_sub(stat.last_seen_tick) <= RECENT_TICK_WINDOW {
                summary.recent_successes = summary.recent_successes.saturating_add(
                    stat.success_count,
                );
                summary.recent_failures = summary.recent_failures.saturating_add(
                    stat.failure_count,
                );
            }
        }
        i = i + 1;
    }
    summary
}

#[derive(Debug, Clone, Copy, PartialEq, Eq, Hash, Default, Structural)]
pub enum DelimiterClass {
    /// No delimiter bit is set.
    #[default]
    Absent,
    Sparse,
    Structured,
    Dense,
}

impl DelimiterClass {
    pub open spec fn code_spec(self) -> u16 {
        match self {
            DelimiterClass::Absent => 1,
            DelimiterClass::Sparse => 2,
            DelimiterClass::Structured => 3,
            DelimiterClass::Dense => 4,
        }
    }

    pub fn code(self) -> (c: u16)
        ensures
            c == self.code_spec(),
    {
        match self {
            DelimiterClass::Absent => 1,
            DelimiterClass::Sparse => 2,
            DelimiterClass::Structured => 3,
            DelimiterClass::Dense => 4,
        }
    }

    /// Classifies a cue by how many delimiter bits it sets: none, 1-2, 3-5, more.
    pub fn from_cue(cue: SparseCue) -> (c: Self)
        ensures
            c == (if popcount(cue.delimiter_bits) == 0 {
                DelimiterClass::Absent
            } else if popcount(cue.delimiter_bits) <= 2 {
                DelimiterClass::Sparse
            } else if popcount(cue.delimiter_bits) <= 5 {
                DelimiterClass::Structured
            } else {
                DelimiterClass::Dense
            }),
    {
        let active = count_ones_u64(cue.delimiter_bits);
        if active == 0 {
            DelimiterClass::Absent
        } else if active <= 2 {
            DelimiterClass::Sparse
        } else if active <= 5 {
            DelimiterClass::Structured
        } else {
            DelimiterClass::Dense
        }
    }
}

#[derive(Debug, Clone, Copy, PartialEq, Eq, Hash, Default, Structural)]
pub enum SlotShapeBucket {
    /// No slots.
    #[default]
    Empty,
    Narrow,
    Medium,
    Wide,
}

impl SlotShapeBucket {
    pub open spec fn code_spec(self) -> u16 {
        match self {
            SlotShapeBucket::Empty => 1,
            SlotShapeBucket::Narrow => 2,
            SlotShapeBucket::Medium => 3,
            SlotShapeBucket::Wide => 4,
        }
    }

    pub fn code(self) -> (c: u16)
        ensures
            c == self.code_spec(),
    {
        match self {
            SlotShapeBucket::Empty => 1,
            SlotShapeBucket::Narrow => 2,
            SlotShapeBucket::Medium => 3,
            SlotShapeBucket::Wide => 4,
        }
    }

    pub fn from_slot_count(slot_count: usize) -> (b: Self)
        ensures
            b == (if slot_count == 0 {
                SlotShapeBucket::Empty
            } else if slot_count <= 2 {
                SlotShapeBucket::Narrow
            } else if slot_count <= 4 {
                SlotShapeBucket::Medium
            } else {
                SlotShapeBucket::Wide
            }),
    {
        if slot_count == 0 {
            SlotShapeBucket::Empty
        } else if slot_count <= 2 {
            SlotShapeBucket::Narrow
        } else if slot_count <= 4 {
            SlotShapeBucket::Medium
        } else {
            SlotShapeBucket::Wide
        }
    }
}

#[derive(Debug, Clone, Copy, PartialEq, Eq, Hash, Default, Structural)]
pub enum ResidualSizeBucket {
    /// No residual bytes.
    #[default]
    Zero,
    Tiny,
    Small,
    Medium,
    Large,
}

impl ResidualSizeBucket {
    pub open spec fn code_spec(self) -> u16 {
        match self {
            ResidualSizeBucket::Zero => 1,
            ResidualSizeBucket::Tiny => 2,
            ResidualSizeBucket::Small => 3,
            ResidualSizeBucket::Medium => 4,
            ResidualSizeBucket::Large => 5,
        }
    }

    pub fn code(self) -> (c: u16)
        ensures
            c == self.code_spec(),
    {
        match self {
            ResidualSizeBucket::Zero => 1,
            ResidualSizeBucket::Tiny => 2,
            ResidualSizeBucket::Small => 3,
            ResidualSizeBucket::Medium => 4,
            ResidualSizeBucket::Large => 5,
        }
    }

    pub fn from_bytes(bytes: u32) -> (b: Self)
        ensures
            b == (if bytes == 0 {
                ResidualSizeBucket::Zero
            } else if bytes <= 16 {
                ResidualSizeBucket::Tiny
            } else if bytes <= 64 {
                ResidualSizeBucket::Small
            } else if bytes <= 256 {
                ResidualSizeBucket::Medium
            } else {
                ResidualSizeBucket::Large
            }),
    {
        if bytes == 0 {
            ResidualSizeBucket::Zero
        } else if bytes <= 16 {
            ResidualSizeBucket::Tiny
        } else if bytes <= 64 {
            ResidualSizeBucket::Small
        } else if bytes <= 256 {
            ResidualSizeBucket::Medium
        } else {
            ResidualSizeBucket::Large
        }
    }
}

#[derive(Debug, Clone, Copy, PartialEq, Eq, Hash, Default, Structural)]
pub enum SyncStateBucket {
    #[default]
    Stable,
    Warm,
    Risky,
    Repairing,
}

impl SyncStateBucket {
    pub open spec fn code_spec(self) -> u16 {
        match self {
            SyncStateBucket::Stable => 1,
            SyncStateBucket::Warm => 2,
            SyncStateBucket::Risky => 3,
            SyncStateBucket::Repairing => 4,
        }
    }

    pub fn code(self) -> (c: u16)
        ensures
            c == self.code_spec(),
    {
        match self {
            SyncStateBucket::Stable => 1,
            SyncStateBucket::Warm => 2,
            SyncStateBucket::Risky => 3,
            SyncStateBucket::Repairing => 4,
        }
    }

    pub fn from_sync_risk(sync_risk: u32) -> (b: Self)
        ensures
            b == (if sync_risk <= 8 {
                SyncStateBucket::Stable
            } else if sync_risk <= 24 {
                SyncStateBucket::Warm
            } else if sync_risk <= 63 {
                SyncStateBucket::Risky
            } else {
                SyncStateBucket::Repairing
            }),
    {
        if sync_risk <= 8 {
            SyncStateBucket::Stable
        } else if sync_risk <= 24 {
            SyncStateBucket::Warm
        } else if sync_risk <= 63 {
            SyncStateBucket::Risky
        } else {
            SyncStateBucket::Repairing
        }
    }
}

#[derive(Debug, Clone, Copy, PartialEq, Eq, PartialOrd, Ord, Hash, Default, Structural)]
pub struct ContextHash(pub u64);

#[derive(Debug, Clone, Copy, PartialEq, Eq, PartialOrd, Ord, Hash, Default, Structural)]
pub struct LagBucket(pub u16);

impl LagBucket {
    pub open spec fn from_distance_spec(distance: u32) -> u16 {
        if distance <= 1 {
            0
        } else if distance <= 2 {
            1
        } else if distance <= 4 {
            2
        } else if distance <= 8 {
            3
        } else if distance <= 16 {
            4
        } else if distance <= 32 {
            5
        } else {
            6
        }
    }

    /// The logarithmic bucket of a tick distance.
    pub fn from_distance(distance: u32) -> (b: Self)
        ensures
            b.0 == LagBucket::from_distance_spec(distance),
    {
        LagBucket(
            if distance <= 1 {
                0
            } else if distance <= 2 {
                1
            } else if distance <= 4 {
                2
            } else if distance <= 8 {
                3
            } else if distance <= 16 {
                4
            } else if distance <= 32 {
                5
            } else {
                6
            },
        )
    }
}

#[derive(Debug, Clone, Copy, PartialEq, Eq, Hash, Default, Structural)]
pub enum SchemaKind {
    #[default]
    Sequence,
    Template,
    Alternation,
    Permutation,
    Expansion,
}

impl SchemaKind {
    pub open spec fn code_spec(self) -> u16 {
        match self {
            SchemaKind::Sequence => 1,
            SchemaKind::Template => 2,
            SchemaKind::Alternation => 3,
            SchemaKind::Permutation => 4,
            SchemaKind::Expansion => 5,
        }
    }

    pub fn code(self) -> (c: u16)
        ensures
            c == self.code_spec(),
    {
        match self {
            SchemaKind::Sequence => 1,
            SchemaKind::Template => 2,
            SchemaKind::Alternation => 3,
            SchemaKind::Permutation => 4,
            SchemaKind::Expansion => 5,
        }
    }
}

/// Demoted from the active architecture; kept for wire compatibility.
#[derive(Debug, Clone, Copy, PartialEq, Eq, Hash, Default, Structural)]
pub enum TransformKind {
    #[default]
    PrefixInsert,
    SuffixInsert,
    Wrap,
    BoundedInteriorInsert,
    BoundedDelete,
    BoundedSubstitution,
    RepeatedMotifExpansion,
    CopyWithGap,
    SlotSubstitution,
    RolePermutation,
    DelimiterPreservingRewrite,
    LocalMirror,
    BoundedDuplication,
    StridedSelection,
    SpliceFromTwoBases,
    SchemaSlotFill,
    BoundedReorder,
    MotifDuplicateCompress,
    MirrorSymmetry,
    SchemaConditionedExpansion,
    RecursiveMacroExpansion,
    TokenDictionarySubstitution,
}

#[derive(Debug, Clone, Copy, PartialEq, Eq, Hash, Default, Structural)]
pub enum TransformTransducerFamily {
    #[default]
    LegacyPatch,
    SlotBind,
    BoundedSubstitute,
    DelimiterPreservingRewrite,
    BoundedReorder,
    MotifDuplicateCompress,
    RolePermutation,
    MirrorSymmetry,
    SchemaConditionedExpansion,
    RecursiveMacroExpansion,
    TokenDictionary,
}

impl TransformTransducerFamily {
    pub open spec fn code_spec(self) -> u16 {
        match self {
            TransformTransducerFamily::LegacyPatch => 1,
            TransformTransducerFamily::SlotBind => 2,
            TransformTransducerFamily::BoundedSubstitute => 3,
            TransformTransducerFamily::DelimiterPreservingRewrite => 4,
            TransformTransducerFamily::BoundedReorder => 5,
            TransformTransducerFamily::MotifDuplicateCompress => 6,
            TransformTransducerFamily::RolePermutation => 7,
            TransformTransducerFamily::MirrorSymmetry => 8,
            TransformTransducerFamily::SchemaConditionedExpansion => 9,
            TransformTransducerFamily::RecursiveMacroExpansion => 10,
            TransformTransducerFamily::TokenDictionary => 11,
        }
    }

    pub fn code(self) -> (c: u16)
        ensures
            c == self.code_spec(),
    {
        match self {
            TransformTransducerFamily::LegacyPatch => 1,
            TransformTransducerFamily::SlotBind => 2,
            TransformTransducerFamily::BoundedSubstitute => 3,
            TransformTransducerFamily::DelimiterPreservingRewrite => 4,
            TransformTransducerFamily::BoundedReorder => 5,
            TransformTransducerFamily::MotifDuplicateCompress => 6,
            TransformTransducerFamily::RolePermutation => 7,
            TransformTransducerFamily::MirrorSymmetry => 8,
            TransformTransducerFamily::SchemaConditionedExpansion => 9,
            TransformTransducerFamily::RecursiveMacroExpansion => 10,
            TransformTransducerFamily::TokenDictionary => 11,
        }
    }

    /// The transducer family that implements a transform kind.
    pub open spec fn default_for_kind_spec(kind: TransformKind) -> TransformTransducerFamily {
        match kind {
            TransformKind::SlotSubstitution | TransformKind::SchemaSlotFill => TransformTransducerFamily::SlotBind,
            TransformKind::BoundedSubstitution => TransformTransducerFamily::BoundedSubstitute,
            TransformKind::DelimiterPreservingRewrite => TransformTransducerFamily::DelimiterPreservingRewrite,
            TransformKind::RolePermutation => TransformTransducerFamily::RolePermutation,
            TransformKind::BoundedReorder => TransformTransducerFamily::BoundedReorder,
            TransformKind::MotifDuplicateCompress
            | TransformKind::RepeatedMotifExpansion
            | TransformKind::BoundedDuplication => TransformTransducerFamily::MotifDuplicateCompress,
            TransformKind::MirrorSymmetry | TransformKind::LocalMirror => TransformTransducerFamily::MirrorSymmetry,
            TransformKind::SchemaConditionedExpansion => TransformTransducerFamily::SchemaConditionedExpansion,
            TransformKind::RecursiveMacroExpansion => TransformTransducerFamily::RecursiveMacroExpansion,
            TransformKind::TokenDictionarySubstitution => TransformTransducerFamily::TokenDictionary,
            _ => TransformTransducerFamily::LegacyPatch,
        }
    }

    pub fn default_for_kind(kind: TransformKind) -> (f: TransformTransducerFamily)
        ensures
            f == TransformTransducerFamily::default_for_kind_spec(kind),
    {
        match kind {
            TransformKind::SlotSubstitution | TransformKind::SchemaSlotFill => TransformTransducerFamily::SlotBind,
            TransformKind::BoundedSubstitution => TransformTransducerFamily::BoundedSubstitute,
            TransformKind::DelimiterPreservingRewrite => TransformTransducerFamily::DelimiterPreservingRewrite,
            TransformKind::RolePermutation => TransformTransducerFamily::RolePermutation,
            TransformKind::BoundedReorder => TransformTransducerFamily::BoundedReorder,
            TransformKind::MotifDuplicateCompress
            | TransformKind::RepeatedMotifExpansion
            | TransformKind::BoundedDuplication => TransformTransducerFamily::MotifDuplicateCompress,
            TransformKind::MirrorSymmetry | TransformKind::LocalMirror => TransformTransducerFamily::MirrorSymmetry,
            TransformKind::SchemaConditionedExpansion => TransformTransducerFamily::SchemaConditionedExpansion,
            TransformKind::RecursiveMacroExpansion => TransformTransducerFamily::RecursiveMacroExpansion,
            TransformKind::TokenDictionarySubstitution => TransformTransducerFamily::TokenDictionary,
            TransformKind::PrefixInsert
            | TransformKind::SuffixInsert
            | TransformKind::Wrap
            | TransformKind::BoundedInteriorInsert
            | TransformKind::BoundedDelete
            | TransformKind::CopyWithGap
            | TransformKind::StridedSelection
            | TransformKind::SpliceFromTwoBases => TransformTransducerFamily::LegacyPatch,
        }
    }
}

#[derive(Debug, Clone, Copy, PartialEq, Eq, Hash, Default, Structural)]
pub struct ContextTreeSymbol {
    pub route_family: ControllerRouteFamily,
    pub delimiter_class: DelimiterClass,
    pub slot_shape: SlotShapeBucket,
    pub prior_schema_kind: Option<SchemaKind>,
    pub prior_transform_family: Option<TransformTransducerFamily>,
    pub lag_bucket: LagBucket,
    pub residual_bucket: ResidualSizeBucket,
    pub sync_state: SyncStateBucket,
}

impl ContextTreeSymbol {
    /// The eight atoms of the symbol, from the coarsest to the finest.
    pub open spec fn atoms_spec(self) -> Seq<u16> {
        seq![
            self.route_family.code_spec() as u16,
            self.delimiter_class.code_spec(),
            self.slot_shape.code_spec(),
            match self.prior_schema_kind {
                Some(k) => k.code_spec(),
                None => 0,
            },
            match self.prior_transform_family {
                Some(f) => f.code_spec(),
                None => 0,
            },
            self.lag_bucket.0,
            self.residual_bucket.code_spec(),
            self.sync_state.code_spec(),
        ]
    }

    pub(crate) fn atoms(self) -> (a: Vec<u16>)
        ensures
            a@ == self.atoms_spec(),
    {
        let schema: u16 = match self.prior_schema_kind {
            Some(k) => k.code(),
            None => 0,
        };
        let transform: u16 = match self.prior_transform_family {
            Some(f) => f.code(),
            None => 0,
        };
        let mut a: Vec<u16> = Vec::new();
        a.push(self.route_family.code() as u16);
        a.push(self.delimiter_class.code());
        a.push(self.slot_shape.code());
        a.push(schema);
        a.push(transform);
        a.push(self.lag_bucket.0);
        a.push(self.residual_bucket.code());
        a.push(self.sync_state.code());
        assert(a@ =~= self.atoms_spec());
        a
    }
}

#[derive(Debug, Clone, Copy, PartialEq, Eq, Default, Structural)]
pub struct ContextTreeOutcome {
    pub success: bool,
    pub fallback: bool,
    pub sync_failure: bool,
    pub contradiction_mass: u32,
}

#[derive(Debug, Clone, Copy, PartialEq, Eq, Default, Structural)]
pub struct ContextTreeNodeStats {
    pub observations: u32,
    pub successes: u32,
    pub failures: u32,
    pub fallbacks: u32,
    pub sync_failures: u32,
    pub contradiction_mass: u32,
}

impl ContextTreeNodeStats {
    /// The counters after one more outcome.
    pub open spec fn recorded(self, outcome: ContextTreeOutcome) -> ContextTreeNodeStats {
        ContextTreeNodeStats {
            observations: sat_add_u32(self.observations, 1),
            successes: if outcome.success { sat_add_u32(self.successes, 1) } else { self.successes },
            failures: if outcome.success { self.failures } else { sat_add_u32(self.failures, 1) },
            fallbacks: if outcome.fallback { sat_add_u32(self.fallbacks, 1) } else { self.fallbacks },
            sync_failures: if outcome.sync_failure {
                sat_add_u32(self.sync_failures, 1)
            } else {
                self.sync_failures
            },
            contradiction_mass: sat_add_u32(self.contradiction_mass, outcome.contradiction_mass),
        }
    }

    pub fn record(&mut self, outcome: ContextTreeOutcome)
        ensures
            *final(self) == old(self).recorded(outcome),
    {
        self.observations = self.observations.saturating_add(1);
        if outcome.success {
            self.successes = self.successes.saturating_add(1);
        } else {
            self.failures = self.failures.saturating_add(1);
        }
        if outcome.fallback {
            self.fallbacks = self.fallbacks.saturating_add(1);
        }
        if outcome.sync_failure {
            self.sync_failures = self.sync_failures.saturating_add(1);
        }
        self.contradiction_mass = self.contradiction_mass.saturating_add(
            outcome.contradiction_mass,
        );
    }
}

#[derive(Debug, Clone, Copy, PartialEq, Eq, Default, Structural)]
pub struct RouteGovernorSignal {
    pub route_family: ControllerRouteFamily,
    pub prior_gain: u32,
    pub failure_penalty: u32,
    pub suppression_penalty: u32,
    pub residual_penalty: u32,
    pub sync_penalty: u32,
}

#[derive(Debug, Clone, PartialEq, Eq, Default)]
pub struct DependencyClosureGate {
    pub dependencies_present: bool,
    pub version_compatible: bool,
    pub sync_risk: u32,
}

impl DependencyClosureGate {
    pub fn admissible(&self, max_sync_risk: u32) -> (b: bool)
        ensures
            b == (self.dependencies_present && self.version_compatible && self.sync_risk
                <= max_sync_risk),
    {
        self.dependencies_present && self.version_compatible && self.sync_risk <= max_sync_risk
    }
}

#[derive(Debug, Clone, Copy, PartialEq, Eq, Hash, Default, Structural)]
pub struct CueFamily {
    pub plane: MemoryPlane,
    pub route_family: RouteFamily,
    pub object_kind: ObjectKind,
    pub precision_band: PrecisionBand,
}

impl CueFamily {
    pub open spec fn exact_state_spec() -> CueFamily {
        CueFamily {
            plane: MemoryPlane::AtomSubstrate,
            route_family: RouteFamily::DirectState,
            object_kind: ObjectKind::ExactState,
            precision_band: PrecisionBand::Exact,
        }
    }

    pub fn exact_state() -> (f: Self)
        ensures
            f == CueFamily::exact_state_spec(),
    {
        CueFamily {
            plane: MemoryPlane::AtomSubstrate,
            route_family: RouteFamily::DirectState,
            object_kind: ObjectKind::ExactState,
            precision_band: PrecisionBand::Exact,
        }
    }

    pub fn source_descriptor() -> (f: Self)
        ensures
            f == (CueFamily {
                plane: MemoryPlane::AtomSubstrate,
                route_family: RouteFamily::DirectState,
                object_kind: ObjectKind::SourceDescriptor,
                precision_band: PrecisionBand::Exact,
            }),
    {
        CueFamily {
            plane: MemoryPlane::AtomSubstrate,
            route_family: RouteFamily::DirectState,
            object_kind: ObjectKind::SourceDescriptor,
            precision_band: PrecisionBand::Exact,
        }
    }
}

#[derive(Debug, Clone, Copy, PartialEq, Eq, Hash, Default, Structural)]
pub struct StructuralCueSummary {
    pub cue: SparseCue,
    pub source_kind: SourceKind,
    pub plane: MemoryPlane,
    pub route_family: RouteFamily,
    pub object_kind: ObjectKind,
    pub precision_band: PrecisionBand,
}

#[derive(Debug, Clone, Copy, PartialEq, Eq, Hash, Default, Structural)]
pub struct ObjectVersion {
    pub schema_version: u16,
    pub object_revision: u32,
}

#[derive(Debug, Clone, PartialEq, Eq, Hash, Default)]
pub struct ObjectDependency {
    pub object_kind: ObjectKind,
    pub object_id: String,
    pub required_revision: u32,
}

#[derive(Debug, Clone, Copy, PartialEq, Eq, PartialOrd, Ord, Hash, Default, Structural)]
pub struct DynamicFamilyId(pub u32);

#[derive(Debug, Clone, Copy, PartialEq, Eq, PartialOrd, Ord, Hash, Default, Structural)]
pub struct DynamicSubfamilyId(pub u32);

#[derive(Debug, Clone, Copy, PartialEq, Eq, Hash, Default, Structural)]
pub struct ObjectLifecycleMeta {
    pub support_count: u32,
    pub success_count: u32,
    pub failure_count: u32,
    pub salience: u32,
    pub creation_tick: u64,
    pub last_seen_tick: u64,
    pub promotion_level: PromotionLevel,
    pub consolidation_count: u32,
    pub last_consolidated_tick: u64,
    pub ontology_family_id: Option<DynamicFamilyId>,
    pub ontology_subfamily_id: Option<DynamicSubfamilyId>,
}

impl ObjectLifecycleMeta {
    /// The lifecycle of an object never seen: zero counts and ticks, cold,
    /// in no ontology family.
    pub open spec fn blank_spec() -> ObjectLifecycleMeta {
        ObjectLifecycleMeta {
            support_count: 0,
            success_count: 0,
            failure_count: 0,
            salience: 0,
            creation_tick: 0,
            last_seen_tick: 0,
            promotion_level: PromotionLevel::Cold,
            consolidation_count: 0,
            last_consolidated_tick: 0,
            ontology_family_id: None,
            ontology_subfamily_id: None,
        }
    }

    pub fn blank() -> (m: Self)
        ensures
            m == Self::blank_spec(),
    {
        ObjectLifecycleMeta {
            support_count: 0,
            success_count: 0,
            failure_count: 0,
            salience: 0,
            creation_tick: 0,
            last_seen_tick: 0,
            promotion_level: PromotionLevel::Cold,
            consolidation_count: 0,
            last_consolidated_tick: 0,
            ontology_family_id: None,
            ontology_subfamily_id: None,
        }
    }

    /// The lifecycle after one more sighting at `tick`.
    pub open spec fn seen(self, tick: u64, success: bool) -> ObjectLifecycleMeta {
        ObjectLifecycleMeta {
            support_count: sat_add_u32(self.support_count, 1),
            last_seen_tick: tick,
            success_count: if success {
                sat_add_u32(self.success_count, 1)
            } else {
                self.success_count
            },
            failure_count: if success {
                self.failure_count
            } else {
                sat_add_u32(self.failure_count, 1)
            },
            ..self
        }
    }

    pub fn record_seen(self, tick: u64, success: bool) -> (m: Self)
        ensures
            m == self.seen(tick, success),
    {
        let mut m = self;
        m.support_count = m.support_count.saturating_add(1);
        m.last_seen_tick = tick;
        if success {
            m.success_count = m.success_count.saturating_add(1);
        } else {
            m.failure_count = m.failure_count.saturating_add(1);
        }
        m
    }

    pub fn with_promotion_level(self, level: PromotionLevel) -> (m: Self)
        ensures
            m == (ObjectLifecycleMeta { promotion_level: level, ..self }),
    {
        let mut m = self;
        m.promotion_level = level;
        m
    }

    pub fn record_consolidated(self, tick: u64) -> (m: Self)
        ensures
            m == (ObjectLifecycleMeta {
                consolidation_count: sat_add_u32(self.consolidation_count, 1),
                last_consolidated_tick: tick,
                ..self
            }),
    {
        let mut m = self;
        m.consolidation_count = m.consolidation_count.saturating_add(1);
        m.last_consolidated_tick = tick;
        m
    }

    pub fn assign_dynamic_family(
        self,
        family_id: DynamicFamilyId,
        subfamily_id: Option<DynamicSubfamilyId>,
    ) -> (m: Self)
        ensures
            m == (ObjectLifecycleMeta {
                ontology_family_id: Some(family_id),
                ontology_subfamily_id: subfamily_id,
                ..self
            }),
    {
        let mut m = self;
        m.ontology_family_id = Some(family_id);
        m.ontology_subfamily_id = subfamily_id;
        m
    }
}


#[derive(Debug, Clone, Copy, PartialEq, Eq, PartialOrd, Ord, Hash, Default, Structural)]
pub struct DictionaryId(pub u64);

} // verus!
