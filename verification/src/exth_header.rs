//! The optional EXTH metadata block that can follow the MOBI header in
//! record 0: an `EXTH` magic, two lengths, then a key-length-value
//! sequence. The entries are validated and walked but kept opaque.

use crate::bytes::read_u32_be;
use crate::bytes::spec_u32_from_be;
use crate::error::PDBError;
use vstd::prelude::*;

verus! {

/// The magic bytes `EXTH`.
pub open spec fn spec_exth_magic() -> Seq<u8> {
    seq![69u8, 88u8, 84u8, 72u8]
}

/// True when `count` length-prefixed entries follow position `i`, each
/// at least 8 bytes long and lying inside `data`.
pub open spec fn spec_exth_entries_valid(data: Seq<u8>, i: int, count: int) -> bool
    decreases count,
{
    if count <= 0 {
        true
    } else {
        &&& 0 <= i
        &&& i + 8 <= data.len()
        &&& {
            let len = spec_u32_from_be(data[i + 4], data[i + 5], data[i + 6], data[i + 7]) as int;
            &&& len >= 8
            &&& i + len <= data.len()
            &&& spec_exth_entries_valid(data, i + len, count - 1)
        }
    }
}

/// True when `data` starts with a decodable EXTH block: the magic, the
/// two lengths, and as many in-bounds entries as the block declares.
pub open spec fn spec_exth_valid(data: Seq<u8>) -> bool {
    &&& data.len() >= 12
    &&& data.subrange(0, 4) == spec_exth_magic()
    &&& spec_exth_entries_valid(
        data,
        12,
        spec_u32_from_be(data[8], data[9], data[10], data[11]) as int,
    )
}

/// The EXTH block's own lengths; the entries are treated as opaque
/// key-length-value data and are not modeled further.
#[derive(Debug, Clone, Copy, PartialEq, Eq, Structural)]
pub struct EXTHHeader {
    pub header_length: u32,
    pub record_count: u32,
}

impl EXTHHeader {
    /// Parses and validates the EXTH block at the front of `data`,
    /// walking every declared entry.
    ///
    /// Fails exactly when the magic is absent, the block is shorter
    /// than its fixed part, or an entry's declared length runs below 8
    /// bytes or past the end of the input.
    pub fn from_bytes(data: &[u8]) -> (r: Result<EXTHHeader, PDBError>)
        ensures
            spec_exth_valid(data@) <==> r is Ok,
            r matches Ok(h) ==> h.header_length == spec_u32_from_be(
                data@[4],
                data@[5],
                data@[6],
                data@[7],
            ) && h.record_count == spec_u32_from_be(data@[8], data@[9], data@[10], data@[11]),
            r matches Err(e) ==> e == PDBError::MalformedContainer,
    {
        if data.len() < 12 {
            return Err(PDBError::MalformedContainer);
        }
        if !(data[0] == 69 && data[1] == 88 && data[2] == 84 && data[3] == 72) {
            proof {
                assert(data@.subrange(0, 4) != spec_exth_magic()) by {
                    if data@.subrange(0, 4) == spec_exth_magic() {
                        assert(data@[0] == data@.subrange(0, 4)[0]);
                        assert(data@[1] == data@.subrange(0, 4)[1]);
                        assert(data@[2] == data@.subrange(0, 4)[2]);
                        assert(data@[3] == data@.subrange(0, 4)[3]);
                    }
                }
            }
            return Err(PDBError::MalformedContainer);
        }
        proof {
            assert(data@.subrange(0, 4) =~= spec_exth_magic());
        }
        let header_length: u32 = read_u32_be(data, 4);
        let record_count: u32 = read_u32_be(data, 8);
        let ghost count = record_count as int;
        let mut k: u32 = 0;
        let mut i: usize = 12;
        while k < record_count
            invariant_except_break
                k <= record_count,
                12 <= i <= data@.len(),
                spec_exth_entries_valid(data@, 12, count) == spec_exth_entries_valid(
                    data@,
                    i as int,
                    count - k,
                ),
                count == record_count as int,
            ensures
                spec_exth_entries_valid(data@, 12, count) <==> !(k < record_count),
            decreases record_count - k,
        {
            if data.len() - i < 8 {
                break ;
            }
            let entry_len: u32 = read_u32_be(data, i + 4);
            if entry_len < 8 {
                break ;
            }
            if (entry_len as usize) > data.len() - i {
                break ;
            }
            i = i + entry_len as usize;
            k = k + 1;
        }
        if k < record_count {
            return Err(PDBError::MalformedContainer);
        }
        Ok(EXTHHeader { header_length, record_count })
    }
}

} // verus!
