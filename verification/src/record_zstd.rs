//! Whole-payload zstd compression of a record, marked by a header flag.

use vstd::prelude::*;
use crate::compress::{CompressError, ZSTD_COMPRESSION_LEVEL, ZstdDictionary, zstd_dict_content, zstd_dict_frame, zstd_content, zstd_decode_all, zstd_encode_all, zstd_frame};
use crate::wire::u64_le;
use crate::source::SourceKind;
use crate::protocol::{PAYLOAD_ZSTD, PAYLOAD_ZSTD_DICT, Record, RecordFlags, RecordHeader, WireError};

verus! {

/// Payloads shorter than this are not compressed.
pub const MIN_COMPRESS_SIZE: usize = 50;

/// The zstd level used for record payloads.
pub const RECORD_ZSTD_LEVEL: i32 = 3;

/// The header of a record whose payload was replaced by `len` bytes, with a
/// flag added.
pub open spec fn header_with(h: RecordHeader, flag: u16, len: nat) -> RecordHeader {
    RecordHeader { flags: RecordFlags(h.flags.0 | flag), payload_len: (len % 0x1_0000_0000) as u32, ..h }
}

/// The header of a record whose payload was replaced by `len` bytes, with a
/// flag taken away.
pub open spec fn header_without(h: RecordHeader, flag: u16, len: nat) -> RecordHeader {
    RecordHeader { flags: RecordFlags(h.flags.0 & !flag), payload_len: (len % 0x1_0000_0000) as u32, ..h }
}

/// What decompressing gives for a header and payload: the stored payload
/// when neither compression flag is set; the zstd content under the zstd
/// flag; under the dictionary flag (no dictionary being at hand) the zstd
/// content after the 8-byte dictionary id. `None` where that content cannot
/// be read.
pub open spec fn decompressed_spec(h: RecordHeader, p: Seq<u8>) -> Option<(RecordHeader, Seq<u8>)> {
    if h.flags.contains_spec(PAYLOAD_ZSTD) {
        match zstd_content(p) {
            Some(c) => Some((header_without(h, PAYLOAD_ZSTD, c.len()), c)),
            None => None,
        }
    } else if h.flags.contains_spec(PAYLOAD_ZSTD_DICT) {
        if p.len() < 8 {
            None
        } else {
            match zstd_content(p.subrange(8, p.len() as int)) {
                Some(c) => Some((header_without(h, PAYLOAD_ZSTD_DICT, c.len()), c)),
                None => None,
            }
        }
    } else {
        Some((h, p))
    }
}

/// What `with_dict_frame` gives: see its description.
pub open spec fn dict_choice(
    rec: Record,
    dict_id: u64,
    dict_encoded: Result<Vec<u8>, CompressError>,
    raw_encoded: Result<Vec<u8>, CompressError>,
    r: Record,
) -> bool {
    let len = rec.payload@.len();
    let raw_total: nat = match raw_encoded {
        Ok(c) => c@.len(),
        Err(_) => len,
    };
    let plain = match raw_encoded {
        Ok(c) => if c@.len() < len {
            &&& r.header == header_with(rec.header, PAYLOAD_ZSTD, c@.len())
            &&& r.payload@ == c@
            &&& r.auth_tag == rec.auth_tag
        } else {
            r == rec
        },
        Err(_) => r == rec,
    };
    if len < MIN_COMPRESS_SIZE {
        r == rec
    } else {
        match dict_encoded {
            Ok(dc) => if dc@.len() < len {
                if dc@.len() + 8 < raw_total && dc@.len() + 8 < len {
                    &&& r.payload@ == u64_le(dict_id) + dc@
                    &&& r.header == header_with(rec.header, PAYLOAD_ZSTD_DICT, dc@.len() + 8)
                    &&& r.auth_tag == rec.auth_tag
                } else if raw_total < len {
                    plain
                } else {
                    r == rec
                }
            } else {
                plain
            },
            Err(_) => plain,
        }
    }
}

/// What decompressing gives when `dict` is the dictionary at hand for a
/// payload under the dictionary flag: as `decompressed_spec`, except that
/// with a dictionary the content after the 8-byte id is read with it.
pub open spec fn decompressed_with_dict_spec(h: RecordHeader, p: Seq<u8>, dict: Option<Seq<u8>>) -> Option<(RecordHeader, Seq<u8>)> {
    if !h.flags.contains_spec(PAYLOAD_ZSTD) && h.flags.contains_spec(PAYLOAD_ZSTD_DICT) && p.len() >= 8 && dict is Some {
        match zstd_dict_content(dict->0, p.subrange(8, p.len() as int)) {
            Some(c) => Some((header_without(h, PAYLOAD_ZSTD_DICT, c.len()), c)),
            None => None,
        }
    } else {
        decompressed_spec(h, p)
    }
}

pub open spec fn opt_bytes(d: Option<Vec<u8>>) -> Option<Seq<u8>> {
    match d {
        Some(v) => Some(v@),
        None => None,
    }
}

/// `r` is what decompressing gives with the dictionary `dict` at hand.
pub open spec fn decompressed_as(rec: Record, dict: Option<Seq<u8>>, r: Result<Record, WireError>) -> bool {
    match decompressed_with_dict_spec(rec.header, rec.payload@, dict) {
        Some((h, p)) => r matches Ok(out) && out.header == h && out.payload@ == p && out.auth_tag == rec.auth_tag,
        None => r matches Err(WireError::InvalidPayload(_)),
    }
}

impl Record {
    /// Compresses the payload with zstd when it is at least 50 bytes and the
    /// frame is shorter; the header then carries the zstd flag and the new
    /// length. Otherwise the record comes back unchanged.
    pub fn maybe_compress_zstd(self) -> (r: Record)
        ensures
            self.payload@.len() < MIN_COMPRESS_SIZE ==> r == self,
            r == self || ({
                let frame = zstd_frame(self.payload@, RECORD_ZSTD_LEVEL);
                &&& frame.len() < self.payload@.len()
                &&& self.payload@.len() >= MIN_COMPRESS_SIZE
                &&& r.payload@ == frame
                &&& zstd_content(frame) == Some(self.payload@)
                &&& r.header == header_with(self.header, PAYLOAD_ZSTD, frame.len())
                &&& r.auth_tag == self.auth_tag
            }),
    {
        if self.payload.len() < MIN_COMPRESS_SIZE {
            return self;
        }
        let encoded = zstd_encode_all(self.payload.as_slice(), RECORD_ZSTD_LEVEL);
        self.with_zstd_frame(encoded)
    }

    /// The record after an attempt to compress its payload gave `encoded`:
    /// a payload of at least 50 bytes whose frame came back shorter is
    /// replaced by the frame, the header then carrying the zstd flag and the
    /// frame's length; otherwise (a short payload, a frame no shorter, or a
    /// failed attempt) the record comes back unchanged.
    pub fn with_zstd_frame(self, encoded: Result<Vec<u8>, CompressError>) -> (r: Record)
        ensures
            match encoded {
                Ok(c) => if self.payload@.len() >= MIN_COMPRESS_SIZE && c@.len() < self.payload@.len() {
                    &&& r.header == header_with(self.header, PAYLOAD_ZSTD, c@.len())
                    &&& r.payload@ == c@
                    &&& r.auth_tag == self.auth_tag
                } else {
                    r == self
                },
                Err(_) => r == self,
            },
    {
        if self.payload.len() < MIN_COMPRESS_SIZE {
            return self;
        }
        match encoded {
            Ok(compressed) => {
                if compressed.len() < self.payload.len() {
                    let mut header = self.header;
                    header.flags.insert(PAYLOAD_ZSTD);
                    header.payload_len = ((compressed.len() as u64) % 0x1_0000_0000) as u32;
                    Record { header, payload: compressed, auth_tag: self.auth_tag }
                } else {
                    self
                }
            },
            Err(_) => self,
        }
    }

    /// The record after attempts to compress its payload with a dictionary
    /// (`dict_encoded`) and without (`raw_encoded`): a payload under 50 bytes
    /// stays; when the dictionary frame is shorter than the payload and, with
    /// the 8-byte dictionary id in front, shorter than both the payload and
    /// the plain frame (the payload's own length standing in for a failed
    /// plain attempt), the payload becomes the id and that frame under the
    /// dictionary flag; otherwise the plain frame is taken as
    /// `with_zstd_frame` takes it, except that when the dictionary frame was
    /// shorter but lost and the plain frame is no shorter than the payload,
    /// the record stays.
    pub fn with_dict_frame(
        self,
        dict_id: u64,
        dict_encoded: Result<Vec<u8>, CompressError>,
        raw_encoded: Result<Vec<u8>, CompressError>,
    ) -> (r: Record)
        ensures
            dict_choice(self, dict_id, dict_encoded, raw_encoded, r),
    {
        if self.payload.len() < MIN_COMPRESS_SIZE {
            return self;
        }
        match dict_encoded {
            Ok(dc) => {
                if dc.len() < self.payload.len() {
                    let raw_total: usize = match &raw_encoded {
                        Ok(c) => c.len(),
                        Err(_) => self.payload.len(),
                    };
                    if raw_total > 8 && dc.len() < raw_total - 8 && dc.len() < self.payload.len() - 8 {
                        let mut payload: Vec<u8> = Vec::new();
                        crate::wire::push_u64_le(&mut payload, dict_id);
                        crate::wire::append_bytes(&mut payload, dc.as_slice());
                        let mut header = self.header;
                        header.flags.insert(PAYLOAD_ZSTD_DICT);
                        header.payload_len = ((payload.len() as u64) % 0x1_0000_0000) as u32;
                        Record { header, payload, auth_tag: self.auth_tag }
                    } else if raw_total < self.payload.len() {
                        self.with_zstd_frame(raw_encoded)
                    } else {
                        self
                    }
                } else {
                    self.with_zstd_frame(raw_encoded)
                }
            },
            Err(_) => self.with_zstd_frame(raw_encoded),
        }
    }

    /// Compresses the payload with the dictionary or plainly, whichever is
    /// smaller and actually saves bytes; see `with_dict_frame`.
    pub fn maybe_compress_zstd_with_dict(self, dict: &ZstdDictionary) -> (r: Record)
        ensures
            self.payload@.len() < MIN_COMPRESS_SIZE ==> r == self,
            r == self || ({
                let frame = zstd_frame(self.payload@, RECORD_ZSTD_LEVEL);
                &&& r.payload@ == frame
                &&& r.header == header_with(self.header, PAYLOAD_ZSTD, frame.len())
                &&& r.auth_tag == self.auth_tag
            }) || ({
                let frame = zstd_dict_frame(dict.dict_bytes@, self.payload@, ZSTD_COMPRESSION_LEVEL);
                &&& r.payload@ == u64_le(dict.dict_id.0) + frame
                &&& r.header == header_with(self.header, PAYLOAD_ZSTD_DICT, frame.len() + 8)
                &&& r.auth_tag == self.auth_tag
            }),
    {
        if self.payload.len() < MIN_COMPRESS_SIZE {
            return self;
        }
        let dict_encoded = dict.compress(self.payload.as_slice());
        let raw_encoded = zstd_encode_all(self.payload.as_slice(), RECORD_ZSTD_LEVEL);
        self.with_dict_frame(dict.dict_id.0, dict_encoded, raw_encoded)
    }

    /// Decompresses a payload marked as zstd-compressed (with or without a
    /// dictionary id in front) and clears the flag; an unmarked record comes
    /// back unchanged.
    pub fn maybe_decompress_zstd(self) -> (r: Result<Record, WireError>)
        ensures
            match decompressed_spec(self.header, self.payload@) {
                Some((h, p)) => r matches Ok(out) && out.header == h && out.payload@ == p && out.auth_tag
                    == self.auth_tag,
                None => r matches Err(WireError::InvalidPayload(_)),
            },
    {
        if self.header.flags.contains(PAYLOAD_ZSTD) {
            let decompressed = match zstd_decode_all(self.payload.as_slice()) {
                Ok(d) => d,
                Err(_) => return Err(WireError::InvalidPayload(zstd_failure_text())),
            };
            let mut header = self.header;
            header.flags.remove(PAYLOAD_ZSTD);
            header.payload_len = ((decompressed.len() as u64) % 0x1_0000_0000) as u32;
            Ok(Record { header, payload: decompressed, auth_tag: self.auth_tag })
        } else if self.header.flags.contains(PAYLOAD_ZSTD_DICT) {
            if self.payload.len() < 8 {
                return Err(WireError::InvalidPayload(zstd_failure_text()));
            }
            let rest = crate::wire::copy_range(self.payload.as_slice(), 8, self.payload.len());
            let decompressed = match zstd_decode_all(rest.as_slice()) {
                Ok(d) => d,
                Err(_) => return Err(WireError::InvalidPayload(zstd_failure_text())),
            };
            let mut header = self.header;
            header.flags.remove(PAYLOAD_ZSTD_DICT);
            header.payload_len = ((decompressed.len() as u64) % 0x1_0000_0000) as u32;
            Ok(Record { header, payload: decompressed, auth_tag: self.auth_tag })
        } else {
            Ok(self)
        }
    }
}

impl Record {
    /// Decompresses with `dict` as the dictionary at hand for a payload
    /// under the dictionary flag; see `decompressed_with_dict_spec`.
    pub fn decompress_zstd_with_dictionary(self, dict: Option<Vec<u8>>) -> (r: Result<Record, WireError>)
        ensures
            decompressed_as(self, opt_bytes(dict), r),
    {
        if !self.header.flags.contains(PAYLOAD_ZSTD) && self.header.flags.contains(PAYLOAD_ZSTD_DICT) && self.payload.len() >= 8 {
            match dict {
                Some(d) => {
                    let rest = crate::wire::copy_range(self.payload.as_slice(), 8, self.payload.len());
                    let decompressed = match crate::compress::zstd_decompress_with_dict(d.as_slice(), rest.as_slice()) {
                        Ok(c) => c,
                        Err(_) => return Err(WireError::InvalidPayload(zstd_failure_text())),
                    };
                    let mut header = self.header;
                    header.flags.remove(PAYLOAD_ZSTD_DICT);
                    header.payload_len = ((decompressed.len() as u64) % 0x1_0000_0000) as u32;
                    return Ok(Record { header, payload: decompressed, auth_tag: self.auth_tag });
                },
                None => {},
            }
        }
        self.maybe_decompress_zstd()
    }

    /// Decompresses, asking `dict_provider` for the dictionary of a payload
    /// under the dictionary flag by its id, for a JSON, then a text, then a
    /// binary source; the first dictionary given is used, and without one
    /// the content is read plainly. What is returned is what
    /// `decompress_zstd_with_dictionary` gives with the dictionary found.
    pub fn maybe_decompress_zstd_with_dict_provider<F: Fn(SourceKind, u64) -> Option<Vec<u8>>>(
        self,
        dict_provider: F,
    ) -> (r: Result<Record, WireError>)
        requires
            forall|k: SourceKind, id: u64| call_requires(dict_provider, (k, id)),
        ensures
            exists|d: Option<Seq<u8>>| decompressed_as(self, d, r),
            !self.header.flags.contains_spec(PAYLOAD_ZSTD_DICT) ==> decompressed_as(self, None, r),
    {
        if !self.header.flags.contains(PAYLOAD_ZSTD) && self.header.flags.contains(PAYLOAD_ZSTD_DICT) && self.payload.len() >= 8 {
            let id = crate::wire::read_u64_le(self.payload.as_slice(), 0);
            let mut dict = dict_provider(SourceKind::Json, id);
            if dict.is_none() {
                dict = dict_provider(SourceKind::Text, id);
            }
            if dict.is_none() {
                dict = dict_provider(SourceKind::Binary, id);
            }
            let ghost d = opt_bytes(dict);
            let r = self.decompress_zstd_with_dictionary(dict);
            assert(decompressed_as(self, d, r));
            r
        } else {
            let r = self.decompress_zstd_with_dictionary(None);
            assert(decompressed_as(self, None, r));
            r
        }
    }
}

/// The message of a payload that could not be decompressed.
fn zstd_failure_text() -> (s: String) {
    String::from_str("zstd decompression failed")
}

/// Decompressing what compression gave back yields the original record,
/// when it carried neither compression flag and its header gave the payload
/// length.
pub proof fn lemma_record_zstd_roundtrip(before: Record, after: Record)
    requires
        !before.header.flags.contains_spec(PAYLOAD_ZSTD),
        !before.header.flags.contains_spec(PAYLOAD_ZSTD_DICT),
        before.header.payload_len == before.payload@.len(),
        after == before || ({
            let frame = zstd_frame(before.payload@, RECORD_ZSTD_LEVEL);
            &&& frame.len() < before.payload@.len()
            &&& before.payload@.len() >= MIN_COMPRESS_SIZE
            &&& after.payload@ == frame
            &&& zstd_content(frame) == Some(before.payload@)
            &&& after.header == header_with(before.header, PAYLOAD_ZSTD, frame.len())
            &&& after.auth_tag == before.auth_tag
        }),
    ensures
        decompressed_spec(after.header, after.payload@) == Some((before.header, before.payload@)),
{
    if after != before {
        let f = before.header.flags.0;
        assert((f | PAYLOAD_ZSTD) & PAYLOAD_ZSTD == PAYLOAD_ZSTD) by (bit_vector);
        assert((f & PAYLOAD_ZSTD) != PAYLOAD_ZSTD ==> ((f | PAYLOAD_ZSTD) & !PAYLOAD_ZSTD) == f) by (bit_vector);
        let n = before.payload@.len();
        assert(n % 0x1_0000_0000 == before.header.payload_len);
    }
}

} // verus!
