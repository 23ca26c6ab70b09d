//! Batch envelopes: one protected transport frame that carries many items,
//! each with its id, source kind and already-compressed payload. The item
//! bound is checked here; the envelope's serialised form is produced and read
//! outside the library.

use vstd::prelude::*;
use crate::protocol::ItemId;
use crate::source::SourceKind;

verus! {

/// The most items one batch may carry.
pub const MAX_BATCH_ITEMS: usize = 1024;

#[derive(Debug, Clone, PartialEq, Eq)]
pub struct BatchItem {
    pub item_id: ItemId,
    pub source_kind: SourceKind,
    pub payload: Vec<u8>,
}

#[derive(Debug, Clone, PartialEq, Eq, Default)]
pub struct BatchEnvelope {
    pub items: Vec<BatchItem>,
}

#[derive(Debug, Clone, PartialEq, Eq)]
pub enum EncodeError {
    TooManyItems { actual: usize, max: usize },
    Postcard(String),
}

#[derive(Debug, Clone, PartialEq, Eq)]
pub enum DecodeError {
    TooManyItems { actual: usize, max: usize },
    Postcard(String),
}

/// The total payload bytes of the items.
pub open spec fn payload_total(items: Seq<BatchItem>) -> nat
    decreases items.len(),
{
    if items.len() == 0 {
        0
    } else {
        payload_total(items.drop_last()) + items.last().payload@.len()
    }
}

proof fn lemma_payload_total_prefix(items: Seq<BatchItem>, k: int)
    requires
        0 <= k <= items.len(),
    ensures
        payload_total(items.take(k)) <= payload_total(items),
    decreases items.len() - k,
{
    if k < items.len() {
        lemma_payload_total_prefix(items, k + 1);
        assert(items.take(k + 1).drop_last() =~= items.take(k));
    } else {
        assert(items.take(k) =~= items);
    }
}

impl BatchEnvelope {
    pub fn new() -> (b: Self)
        ensures
            b.items@.len() == 0,
    {
        BatchEnvelope { items: Vec::new() }
    }

    /// Appends an item.
    pub fn push(&mut self, item_id: ItemId, source_kind: SourceKind, payload: Vec<u8>)
        ensures
            final(self).items@ == old(self).items@.push(BatchItem { item_id, source_kind, payload }),
    {
        self.items.push(BatchItem { item_id, source_kind, payload });
    }

    pub fn len(&self) -> (n: usize)
        ensures
            n == self.items@.len(),
    {
        self.items.len()
    }

    pub fn is_empty(&self) -> (b: bool)
        ensures
            b == (self.items@.len() == 0),
    {
        self.items.len() == 0
    }

    /// The payload bytes of all items, without framing.
    pub fn total_payload_bytes(&self) -> (n: usize)
        requires
            payload_total(self.items@) <= usize::MAX,
        ensures
            n == payload_total(self.items@),
    {
        let mut total: usize = 0;
        let mut i: usize = 0;
        while i < self.items.len()
            invariant
                i <= self.items@.len(),
                payload_total(self.items@) <= usize::MAX,
                total == payload_total(self.items@.take(i as int)),
            decreases self.items@.len() - i,
        {
            proof {
                assert(self.items@.take(i + 1).drop_last() =~= self.items@.take(i as int));
                lemma_payload_total_prefix(self.items@, i + 1);
            }
            total = total + self.items[i].payload.len();
            i = i + 1;
        }
        assert(self.items@.take(i as int) =~= self.items@);
        total
    }

    /// Whether the batch may be encoded: it must hold at most
    /// `MAX_BATCH_ITEMS` items.
    pub fn check_encodable(&self) -> (r: Result<(), EncodeError>)
        ensures
            self.items@.len() <= MAX_BATCH_ITEMS ==> r is Ok,
            self.items@.len() > MAX_BATCH_ITEMS ==> r == Err::<(), EncodeError>(
                EncodeError::TooManyItems { actual: self.items@.len() as usize, max: MAX_BATCH_ITEMS },
            ),
    {
        if self.items.len() > MAX_BATCH_ITEMS {
            return Err(EncodeError::TooManyItems { actual: self.items.len(), max: MAX_BATCH_ITEMS });
        }
        Ok(())
    }

    /// Accepts a decoded batch only if it holds at most `MAX_BATCH_ITEMS` items.
    pub fn check_decoded(self) -> (r: Result<BatchEnvelope, DecodeError>)
        ensures
            self.items@.len() <= MAX_BATCH_ITEMS ==> r == Ok::<BatchEnvelope, DecodeError>(self),
            self.items@.len() > MAX_BATCH_ITEMS ==> r == Err::<BatchEnvelope, DecodeError>(
                DecodeError::TooManyItems { actual: self.items@.len() as usize, max: MAX_BATCH_ITEMS },
            ),
    {
        if self.items.len() > MAX_BATCH_ITEMS {
            return Err(DecodeError::TooManyItems { actual: self.items.len(), max: MAX_BATCH_ITEMS });
        }
        Ok(self)
    }
}

} // verus!
