//! Source kinds and the exact-state material that every data-plane payload carries.

use vstd::prelude::*;
use crate::chpmt::CueFamily;

verus! {

/// The family of a source payload.
#[derive(Debug, Clone, Copy, PartialEq, Eq, Hash, Default, Structural)]
pub enum SourceKind {
    #[default]
    Text,
    Json,
    Binary,
    Image,
}

/// Why a source-kind tag byte was refused.
#[derive(Debug, Clone, Copy, PartialEq, Eq, Structural)]
pub struct UnknownSourceKindTag(pub u8);

impl SourceKind {
    /// The wire tag of the kind.
    pub open spec fn tag_spec(self) -> u8 {
        match self {
            SourceKind::Text => 1,
            SourceKind::Json => 2,
            SourceKind::Binary => 3,
            SourceKind::Image => 4,
        }
    }

    /// The kind that a wire tag names, if any.
    pub open spec fn from_tag_spec(tag: u8) -> Option<SourceKind> {
        if tag == 1 {
            Some(SourceKind::Text)
        } else if tag == 2 {
            Some(SourceKind::Json)
        } else if tag == 3 {
            Some(SourceKind::Binary)
        } else if tag == 4 {
            Some(SourceKind::Image)
        } else {
            None
        }
    }

    /// The cue-family bit of the kind.
    pub open spec fn family_bits_spec(self) -> u64 {
        match self {
            SourceKind::Text => 1,
            SourceKind::Json => 2,
            SourceKind::Binary => 4,
            SourceKind::Image => 8,
        }
    }

    /// The kind's name in configuration and index keys.
    pub open spec fn slug_spec(self) -> Seq<char> {
        match self {
            SourceKind::Text => "text"@,
            SourceKind::Json => "json"@,
            SourceKind::Binary => "binary"@,
            SourceKind::Image => "image"@,
        }
    }

    pub fn slug(self) -> (s: &'static str)
        ensures
            s@ == self.slug_spec(),
    {
        match self {
            SourceKind::Text => "text",
            SourceKind::Json => "json",
            SourceKind::Binary => "binary",
            SourceKind::Image => "image",
        }
    }

    pub fn tag(self) -> (t: u8)
        ensures
            t == self.tag_spec(),
            SourceKind::from_tag_spec(t) == Some(self),
    {
        match self {
            SourceKind::Text => 1,
            SourceKind::Json => 2,
            SourceKind::Binary => 3,
            SourceKind::Image => 4,
        }
    }

    pub fn from_tag(tag: u8) -> (r: Result<SourceKind, UnknownSourceKindTag>)
        ensures
            match SourceKind::from_tag_spec(tag) {
                Some(k) => r == Ok::<SourceKind, UnknownSourceKindTag>(k),
                None => r == Err::<SourceKind, UnknownSourceKindTag>(UnknownSourceKindTag(tag)),
            },
    {
        if tag == 1 {
            Ok(SourceKind::Text)
        } else if tag == 2 {
            Ok(SourceKind::Json)
        } else if tag == 3 {
            Ok(SourceKind::Binary)
        } else if tag == 4 {
            Ok(SourceKind::Image)
        } else {
            Err(UnknownSourceKindTag(tag))
        }
    }

    pub fn family_bits(self) -> (b: u64)
        ensures
            b == self.family_bits_spec(),
    {
        match self {
            SourceKind::Text => 1,
            SourceKind::Json => 2,
            SourceKind::Binary => 4,
            SourceKind::Image => 8,
        }
    }

    /// The cue family under which exact source payloads are indexed.
    pub fn cue_family(self) -> (f: CueFamily)
        ensures
            f == CueFamily::exact_state_spec(),
    {
        CueFamily::exact_state()
    }
}

/// A decoded exact-state payload: the bytes and the kind they were sent as.
#[derive(Debug, Clone, PartialEq, Eq)]
pub struct ExactStateMaterial {
    pub source_kind: SourceKind,
    pub exact_bytes: Vec<u8>,
}

impl ExactStateMaterial {
    pub fn new(source_kind: SourceKind, exact_bytes: Vec<u8>) -> (m: Self)
        ensures
            m.source_kind == source_kind,
            m.exact_bytes@ == exact_bytes@,
    {
        ExactStateMaterial { source_kind, exact_bytes }
    }

    pub fn copy_exact(source_kind: SourceKind, exact_bytes: &[u8]) -> (m: Self)
        ensures
            m.source_kind == source_kind,
            m.exact_bytes@ == exact_bytes@,
    {
        let bytes = crate::wire::copy_range(exact_bytes, 0, exact_bytes.len());
        assert(exact_bytes@.subrange(0, exact_bytes@.len() as int) =~= exact_bytes@);
        ExactStateMaterial { source_kind, exact_bytes: bytes }
    }
}

} // verus!
