//! The PalmDOC sub-header: the first 16 bytes of record 0 of a MOBI
//! file, describing how the text records are stored.

use crate::bytes::push_u16_be;
use crate::bytes::push_u32_be;
use crate::bytes::read_u16_be;
use crate::bytes::read_u32_be;
use crate::bytes::spec_u16_be;
use crate::bytes::spec_u16_from_be;
use crate::bytes::spec_u32_be;
use crate::bytes::spec_u32_from_be;
use crate::error::PDBError;
use vstd::prelude::*;

verus! {

/// The 16-byte PalmDOC sub-header.
#[derive(Debug, Clone, Copy, PartialEq, Eq, Structural)]
pub struct PalmDOCHeader {
    /// 1 for no compression, 2 for PalmDOC compression; other values
    /// are unsupported.
    pub compression: u16,
    /// Total decompressed byte length of the text.
    pub text_length: u32,
    /// Number of text records following record 0.
    pub record_count: u16,
    /// Uncompressed bytes per text record before the final partial one.
    pub record_size: u16,
    pub encryption_type: u16,
}

/// The 16 bytes of a serialized PalmDOC sub-header; both reserved
/// fields are written as zero.
pub open spec fn spec_palmdoc_header_bytes(h: PalmDOCHeader) -> Seq<u8> {
    spec_u16_be(h.compression) + spec_u16_be(0u16) + spec_u32_be(h.text_length) + spec_u16_be(
        h.record_count,
    ) + spec_u16_be(h.record_size) + spec_u16_be(h.encryption_type) + spec_u16_be(0u16)
}

/// What parsing the first 16 bytes of `data` yields; the two reserved
/// fields are skipped.
pub open spec fn spec_parse_palmdoc_header(data: Seq<u8>) -> PalmDOCHeader
    recommends
        data.len() >= 16,
{
    PalmDOCHeader {
        compression: spec_u16_from_be(data[0], data[1]),
        text_length: spec_u32_from_be(data[4], data[5], data[6], data[7]),
        record_count: spec_u16_from_be(data[8], data[9]),
        record_size: spec_u16_from_be(data[10], data[11]),
        encryption_type: spec_u16_from_be(data[12], data[13]),
    }
}

impl PalmDOCHeader {
    /// Serializes the sub-header to its 16 wire bytes.
    pub fn to_bytes(&self) -> (r: Vec<u8>)
        ensures
            r@ == spec_palmdoc_header_bytes(*self),
            r@.len() == 16,
    {
        let mut out: Vec<u8> = Vec::new();
        push_u16_be(&mut out, self.compression);
        push_u16_be(&mut out, 0);
        push_u32_be(&mut out, self.text_length);
        push_u16_be(&mut out, self.record_count);
        push_u16_be(&mut out, self.record_size);
        push_u16_be(&mut out, self.encryption_type);
        push_u16_be(&mut out, 0);
        proof {
            assert(out@ =~= spec_palmdoc_header_bytes(*self));
        }
        out
    }

    /// Parses the sub-header at the front of `data`.
    ///
    /// Fails exactly when fewer than 16 bytes are given.
    pub fn from_bytes(data: &[u8]) -> (r: Result<PalmDOCHeader, PDBError>)
        ensures
            data@.len() >= 16 <==> r is Ok,
            r matches Ok(h) ==> h == spec_parse_palmdoc_header(data@),
            r matches Err(e) ==> e == PDBError::MalformedContainer,
    {
        if data.len() < 16 {
            return Err(PDBError::MalformedContainer);
        }
        Ok(
            PalmDOCHeader {
                compression: read_u16_be(data, 0),
                text_length: read_u32_be(data, 4),
                record_count: read_u16_be(data, 8),
                record_size: read_u16_be(data, 10),
                encryption_type: read_u16_be(data, 12),
            },
        )
    }
}

/// Parsing a serialized sub-header restores every field.
pub proof fn lemma_palmdoc_header_round_trip(h: PalmDOCHeader)
    ensures
        spec_parse_palmdoc_header(spec_palmdoc_header_bytes(h)) == h,
{
    crate::bytes::lemma_u16_be_round(h.compression);
    crate::bytes::lemma_u32_be_round(h.text_length);
    crate::bytes::lemma_u16_be_round(h.record_count);
    crate::bytes::lemma_u16_be_round(h.record_size);
    crate::bytes::lemma_u16_be_round(h.encryption_type);
}

} // verus!
