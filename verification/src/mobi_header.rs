//! The MOBI header: the variable-position fields of record 0 that
//! follow the PalmDOC sub-header. This codec reads and writes the
//! 232-byte fixed layout; optional index fields hold [`NULL_INDEX`]
//! when absent.

use crate::bytes::copy_range;
use crate::bytes::push_bytes;
use crate::bytes::push_u16_be;
use crate::bytes::push_u32_be;
use crate::bytes::push_zeros;
use crate::bytes::read_u16_be;
use crate::bytes::read_u32_be;
use crate::bytes::spec_u16_be;
use crate::bytes::spec_u16_from_be;
use crate::bytes::spec_u32_be;
use crate::bytes::spec_u32_from_be;
use crate::bytes::spec_zeros;
use crate::error::PDBError;
use vstd::prelude::*;

verus! {

/// The sentinel meaning "this index is absent".
pub const NULL_INDEX: u32 = 0xFFFFFFFF;

/// The MOBI header fields this engine models. The serialized form is
/// 232 bytes; regions it does not model (DRM fields and unknown
/// padding) are written as fixed filler and skipped on read.
#[derive(Debug, Clone)]
pub struct MOBIHeader {
    /// The four magic bytes; always written as `MOBI`.
    pub identifier: Vec<u8>,
    pub header_length: u32,
    pub mobi_type: u32,
    pub text_encoding: u32,
    pub unique_id: u32,
    pub file_version: u32,
    pub orthographic_index: u32,
    pub inflection_index: u32,
    pub index_names: u32,
    pub index_keys: u32,
    pub extra_index0: u32,
    pub extra_index1: u32,
    pub extra_index2: u32,
    pub extra_index3: u32,
    pub extra_index4: u32,
    pub extra_index5: u32,
    /// Index of the first record that is not text.
    pub first_non_book_index: u32,
    pub full_name_offset: u32,
    pub full_name_length: u32,
    pub locale: u32,
    pub input_language: u32,
    pub output_language: u32,
    pub min_version: u32,
    pub first_image_index: u32,
    pub huffman_record_offset: u32,
    pub huffman_record_count: u32,
    pub huffman_table_offset: u32,
    pub huffman_table_length: u32,
    pub exth_flags: u32,
    /// Bit 0: a multibyte trailing-byte count ends every content
    /// record; each further set bit marks one more trailing section.
    pub extra_record_data_flags: u32,
    pub first_content_record_number: u16,
    pub last_content_record_number: u16,
    pub fcis_record_number: u32,
    pub flis_record_number: u32,
}

/// The mathematical value of a [`MOBIHeader`].
pub ghost struct MOBIHeaderV {
    pub identifier: Seq<u8>,
    pub header_length: u32,
    pub mobi_type: u32,
    pub text_encoding: u32,
    pub unique_id: u32,
    pub file_version: u32,
    pub orthographic_index: u32,
    pub inflection_index: u32,
    pub index_names: u32,
    pub index_keys: u32,
    pub extra_index0: u32,
    pub extra_index1: u32,
    pub extra_index2: u32,
    pub extra_index3: u32,
    pub extra_index4: u32,
    pub extra_index5: u32,
    pub first_non_book_index: u32,
    pub full_name_offset: u32,
    pub full_name_length: u32,
    pub locale: u32,
    pub input_language: u32,
    pub output_language: u32,
    pub min_version: u32,
    pub first_image_index: u32,
    pub huffman_record_offset: u32,
    pub huffman_record_count: u32,
    pub huffman_table_offset: u32,
    pub huffman_table_length: u32,
    pub exth_flags: u32,
    pub extra_record_data_flags: u32,
    pub first_content_record_number: u16,
    pub last_content_record_number: u16,
    pub fcis_record_number: u32,
    pub flis_record_number: u32,
}

impl View for MOBIHeader {
    type V = MOBIHeaderV;

    open spec fn view(&self) -> MOBIHeaderV {
        MOBIHeaderV {
            identifier: self.identifier@,
            header_length: self.header_length,
            mobi_type: self.mobi_type,
            text_encoding: self.text_encoding,
            unique_id: self.unique_id,
            file_version: self.file_version,
            orthographic_index: self.orthographic_index,
            inflection_index: self.inflection_index,
            index_names: self.index_names,
            index_keys: self.index_keys,
            extra_index0: self.extra_index0,
            extra_index1: self.extra_index1,
            extra_index2: self.extra_index2,
            extra_index3: self.extra_index3,
            extra_index4: self.extra_index4,
            extra_index5: self.extra_index5,
            first_non_book_index: self.first_non_book_index,
            full_name_offset: self.full_name_offset,
            full_name_length: self.full_name_length,
            locale: self.locale,
            input_language: self.input_language,
            output_language: self.output_language,
            min_version: self.min_version,
            first_image_index: self.first_image_index,
            huffman_record_offset: self.huffman_record_offset,
            huffman_record_count: self.huffman_record_count,
            huffman_table_offset: self.huffman_table_offset,
            huffman_table_length: self.huffman_table_length,
            exth_flags: self.exth_flags,
            extra_record_data_flags: self.extra_record_data_flags,
            first_content_record_number: self.first_content_record_number,
            last_content_record_number: self.last_content_record_number,
            fcis_record_number: self.fcis_record_number,
            flis_record_number: self.flis_record_number,
        }
    }
}

/// The magic bytes `MOBI`.
pub open spec fn spec_mobi_magic() -> Seq<u8> {
    seq![77u8, 79u8, 66u8, 73u8]
}

/// The first 116 bytes of a serialized MOBI header: the magic and the
/// modeled 32-bit fields through the EXTH flags.
pub open spec fn spec_mobi_front_bytes(h: MOBIHeaderV) -> Seq<u8> {
    spec_mobi_magic() + spec_u32_be(h.header_length) + spec_u32_be(h.mobi_type) + spec_u32_be(
        h.text_encoding,
    ) + spec_u32_be(h.unique_id) + spec_u32_be(h.file_version) + spec_u32_be(h.orthographic_index)
        + spec_u32_be(h.inflection_index) + spec_u32_be(h.index_names) + spec_u32_be(h.index_keys)
        + spec_u32_be(h.extra_index0) + spec_u32_be(h.extra_index1) + spec_u32_be(h.extra_index2)
        + spec_u32_be(h.extra_index3) + spec_u32_be(h.extra_index4) + spec_u32_be(h.extra_index5)
        + spec_u32_be(h.first_non_book_index) + spec_u32_be(h.full_name_offset) + spec_u32_be(
        h.full_name_length,
    ) + spec_u32_be(h.locale) + spec_u32_be(h.input_language) + spec_u32_be(h.output_language)
        + spec_u32_be(h.min_version) + spec_u32_be(h.first_image_index) + spec_u32_be(
        h.huffman_record_offset,
    ) + spec_u32_be(h.huffman_record_count) + spec_u32_be(h.huffman_table_offset) + spec_u32_be(
        h.huffman_table_length,
    ) + spec_u32_be(h.exth_flags)
}

/// The last 116 bytes of a serialized MOBI header: fixed filler around
/// the content-record range, the FCIS and FLIS record numbers, and the
/// extra record data flags.
pub open spec fn spec_mobi_back_bytes(h: MOBIHeaderV) -> Seq<u8> {
    spec_zeros(32) + spec_u32_be(NULL_INDEX) + spec_u32_be(NULL_INDEX) + spec_u32_be(NULL_INDEX)
        + spec_u32_be(0u32) + spec_u32_be(0u32) + spec_u32_be(0u32) + spec_u32_be(0u32)
        + spec_u16_be(h.first_content_record_number) + spec_u16_be(h.last_content_record_number)
        + spec_u32_be(1u32) + spec_u32_be(h.fcis_record_number) + spec_u32_be(1u32) + spec_u32_be(
        h.flis_record_number,
    ) + spec_u32_be(1u32) + spec_u32_be(0u32) + spec_u32_be(0u32) + spec_u32_be(NULL_INDEX)
        + spec_u32_be(0u32) + spec_u32_be(NULL_INDEX) + spec_u32_be(NULL_INDEX) + spec_u32_be(
        h.extra_record_data_flags,
    ) + spec_u32_be(NULL_INDEX)
}

/// The 232 bytes of a serialized MOBI header. The magic is written
/// regardless of the identifier held in memory; unknown regions are
/// fixed filler.
pub open spec fn spec_mobi_header_bytes(h: MOBIHeaderV) -> Seq<u8> {
    spec_mobi_front_bytes(h) + spec_mobi_back_bytes(h)
}

/// What parsing the first 232 bytes of `data` yields. The identifier
/// is taken verbatim; DRM fields and unknown regions are skipped.
pub open spec fn spec_parse_mobi_header(data: Seq<u8>) -> MOBIHeaderV
    recommends
        data.len() >= 232,
{
    MOBIHeaderV {
        identifier: data.subrange(0, 4),
        header_length: spec_u32_from_be(data[4], data[5], data[6], data[7]),
        mobi_type: spec_u32_from_be(data[8], data[9], data[10], data[11]),
        text_encoding: spec_u32_from_be(data[12], data[13], data[14], data[15]),
        unique_id: spec_u32_from_be(data[16], data[17], data[18], data[19]),
        file_version: spec_u32_from_be(data[20], data[21], data[22], data[23]),
        orthographic_index: spec_u32_from_be(data[24], data[25], data[26], data[27]),
        inflection_index: spec_u32_from_be(data[28], data[29], data[30], data[31]),
        index_names: spec_u32_from_be(data[32], data[33], data[34], data[35]),
        index_keys: spec_u32_from_be(data[36], data[37], data[38], data[39]),
        extra_index0: spec_u32_from_be(data[40], data[41], data[42], data[43]),
        extra_index1: spec_u32_from_be(data[44], data[45], data[46], data[47]),
        extra_index2: spec_u32_from_be(data[48], data[49], data[50], data[51]),
        extra_index3: spec_u32_from_be(data[52], data[53], data[54], data[55]),
        extra_index4: spec_u32_from_be(data[56], data[57], data[58], data[59]),
        extra_index5: spec_u32_from_be(data[60], data[61], data[62], data[63]),
        first_non_book_index: spec_u32_from_be(data[64], data[65], data[66], data[67]),
        full_name_offset: spec_u32_from_be(data[68], data[69], data[70], data[71]),
        full_name_length: spec_u32_from_be(data[72], data[73], data[74], data[75]),
        locale: spec_u32_from_be(data[76], data[77], data[78], data[79]),
        input_language: spec_u32_from_be(data[80], data[81], data[82], data[83]),
        output_language: spec_u32_from_be(data[84], data[85], data[86], data[87]),
        min_version: spec_u32_from_be(data[88], data[89], data[90], data[91]),
        first_image_index: spec_u32_from_be(data[92], data[93], data[94], data[95]),
        huffman_record_offset: spec_u32_from_be(data[96], data[97], data[98], data[99]),
        huffman_record_count: spec_u32_from_be(data[100], data[101], data[102], data[103]),
        huffman_table_offset: spec_u32_from_be(data[104], data[105], data[106], data[107]),
        huffman_table_length: spec_u32_from_be(data[108], data[109], data[110], data[111]),
        exth_flags: spec_u32_from_be(data[112], data[113], data[114], data[115]),
        first_content_record_number: spec_u16_from_be(data[176], data[177]),
        last_content_record_number: spec_u16_from_be(data[178], data[179]),
        fcis_record_number: spec_u32_from_be(data[184], data[185], data[186], data[187]),
        flis_record_number: spec_u32_from_be(data[192], data[193], data[194], data[195]),
        extra_record_data_flags: spec_u32_from_be(data[224], data[225], data[226], data[227]),
    }
}

impl MOBIHeader {
    /// Serializes the header to its 232 wire bytes, writing the `MOBI`
    /// magic and fixed filler for the regions this engine does not
    /// model.
    #[verifier::rlimit(100)]
    #[verifier::spinoff_prover]
    pub fn to_bytes(&self) -> (r: Vec<u8>)
        ensures
            r@ == spec_mobi_header_bytes(self@),
            r@.len() == 232,
    {
        let mut out: Vec<u8> = self.front_bytes();
        let back = self.back_bytes();
        push_bytes(&mut out, back.as_slice());
        out
    }

    fn front_bytes(&self) -> (r: Vec<u8>)
        ensures
            r@ == spec_mobi_front_bytes(self@),
    {
        let mut out: Vec<u8> = Vec::new();
        let magic: [u8; 4] = [77, 79, 66, 73];
        push_bytes(&mut out, magic.as_slice());
        proof {
            assert(out@ =~= spec_mobi_magic());
        }
        push_u32_be(&mut out, self.header_length);
        push_u32_be(&mut out, self.mobi_type);
        push_u32_be(&mut out, self.text_encoding);
        push_u32_be(&mut out, self.unique_id);
        push_u32_be(&mut out, self.file_version);
        push_u32_be(&mut out, self.orthographic_index);
        push_u32_be(&mut out, self.inflection_index);
        push_u32_be(&mut out, self.index_names);
        push_u32_be(&mut out, self.index_keys);
        push_u32_be(&mut out, self.extra_index0);
        push_u32_be(&mut out, self.extra_index1);
        push_u32_be(&mut out, self.extra_index2);
        push_u32_be(&mut out, self.extra_index3);
        push_u32_be(&mut out, self.extra_index4);
        push_u32_be(&mut out, self.extra_index5);
        push_u32_be(&mut out, self.first_non_book_index);
        push_u32_be(&mut out, self.full_name_offset);
        push_u32_be(&mut out, self.full_name_length);
        push_u32_be(&mut out, self.locale);
        push_u32_be(&mut out, self.input_language);
        push_u32_be(&mut out, self.output_language);
        push_u32_be(&mut out, self.min_version);
        push_u32_be(&mut out, self.first_image_index);
        push_u32_be(&mut out, self.huffman_record_offset);
        push_u32_be(&mut out, self.huffman_record_count);
        push_u32_be(&mut out, self.huffman_table_offset);
        push_u32_be(&mut out, self.huffman_table_length);
        push_u32_be(&mut out, self.exth_flags);
        out
    }

    fn back_bytes(&self) -> (r: Vec<u8>)
        ensures
            r@ == spec_mobi_back_bytes(self@),
    {
        let mut out: Vec<u8> = Vec::new();
        push_zeros(&mut out, 32);
        proof {
            assert(out@ =~= spec_zeros(32));
        }
        push_u32_be(&mut out, NULL_INDEX);
        push_u32_be(&mut out, NULL_INDEX);
        push_u32_be(&mut out, NULL_INDEX);
        push_u32_be(&mut out, 0);
        push_u32_be(&mut out, 0);
        push_u32_be(&mut out, 0);
        push_u32_be(&mut out, 0);
        push_u16_be(&mut out, self.first_content_record_number);
        push_u16_be(&mut out, self.last_content_record_number);
        push_u32_be(&mut out, 1);
        push_u32_be(&mut out, self.fcis_record_number);
        push_u32_be(&mut out, 1);
        push_u32_be(&mut out, self.flis_record_number);
        push_u32_be(&mut out, 1);
        push_u32_be(&mut out, 0);
        push_u32_be(&mut out, 0);
        push_u32_be(&mut out, NULL_INDEX);
        push_u32_be(&mut out, 0);
        push_u32_be(&mut out, NULL_INDEX);
        push_u32_be(&mut out, NULL_INDEX);
        push_u32_be(&mut out, self.extra_record_data_flags);
        push_u32_be(&mut out, NULL_INDEX);
        out
    }

    /// Parses the header at the front of `data`.
    ///
    /// Fails exactly when fewer than 232 bytes are given.
    pub fn from_bytes(data: &[u8]) -> (r: Result<MOBIHeader, PDBError>)
        ensures
            data@.len() >= 232 <==> r is Ok,
            r matches Ok(h) ==> h@ == spec_parse_mobi_header(data@),
            r matches Err(e) ==> e == PDBError::MalformedContainer,
    {
        if data.len() < 232 {
            return Err(PDBError::MalformedContainer);
        }
        Ok(
            MOBIHeader {
                identifier: copy_range(data, 0, 4),
                header_length: read_u32_be(data, 4),
                mobi_type: read_u32_be(data, 8),
                text_encoding: read_u32_be(data, 12),
                unique_id: read_u32_be(data, 16),
                file_version: read_u32_be(data, 20),
                orthographic_index: read_u32_be(data, 24),
                inflection_index: read_u32_be(data, 28),
                index_names: read_u32_be(data, 32),
                index_keys: read_u32_be(data, 36),
                extra_index0: read_u32_be(data, 40),
                extra_index1: read_u32_be(data, 44),
                extra_index2: read_u32_be(data, 48),
                extra_index3: read_u32_be(data, 52),
                extra_index4: read_u32_be(data, 56),
                extra_index5: read_u32_be(data, 60),
                first_non_book_index: read_u32_be(data, 64),
                full_name_offset: read_u32_be(data, 68),
                full_name_length: read_u32_be(data, 72),
                locale: read_u32_be(data, 76),
                input_language: read_u32_be(data, 80),
                output_language: read_u32_be(data, 84),
                min_version: read_u32_be(data, 88),
                first_image_index: read_u32_be(data, 92),
                huffman_record_offset: read_u32_be(data, 96),
                huffman_record_count: read_u32_be(data, 100),
                huffman_table_offset: read_u32_be(data, 104),
                huffman_table_length: read_u32_be(data, 108),
                exth_flags: read_u32_be(data, 112),
                first_content_record_number: read_u16_be(data, 176),
                last_content_record_number: read_u16_be(data, 178),
                fcis_record_number: read_u32_be(data, 184),
                flis_record_number: read_u32_be(data, 192),
                extra_record_data_flags: read_u32_be(data, 224),
            },
        )
    }
}

#[verifier::rlimit(100)]
#[verifier::spinoff_prover]
proof fn lemma_mobi_parse_front(h: MOBIHeaderV)
    ensures
        ({
            let parsed = spec_parse_mobi_header(spec_mobi_header_bytes(h));
            &&& parsed.identifier == spec_mobi_magic()
            &&& parsed.header_length == h.header_length
            &&& parsed.mobi_type == h.mobi_type
            &&& parsed.text_encoding == h.text_encoding
            &&& parsed.unique_id == h.unique_id
            &&& parsed.file_version == h.file_version
            &&& parsed.orthographic_index == h.orthographic_index
            &&& parsed.inflection_index == h.inflection_index
            &&& parsed.index_names == h.index_names
            &&& parsed.index_keys == h.index_keys
            &&& parsed.extra_index0 == h.extra_index0
            &&& parsed.extra_index1 == h.extra_index1
            &&& parsed.extra_index2 == h.extra_index2
            &&& parsed.extra_index3 == h.extra_index3
            &&& parsed.extra_index4 == h.extra_index4
            &&& parsed.extra_index5 == h.extra_index5
            &&& parsed.first_non_book_index == h.first_non_book_index
            &&& parsed.full_name_offset == h.full_name_offset
            &&& parsed.full_name_length == h.full_name_length
            &&& parsed.locale == h.locale
            &&& parsed.input_language == h.input_language
            &&& parsed.output_language == h.output_language
            &&& parsed.min_version == h.min_version
            &&& parsed.first_image_index == h.first_image_index
            &&& parsed.huffman_record_offset == h.huffman_record_offset
            &&& parsed.huffman_record_count == h.huffman_record_count
            &&& parsed.huffman_table_offset == h.huffman_table_offset
            &&& parsed.huffman_table_length == h.huffman_table_length
            &&& parsed.exth_flags == h.exth_flags
        }),
{
    let data = spec_mobi_header_bytes(h);
    let front = spec_mobi_front_bytes(h);
    assert(data.subrange(0, 116) =~= front);
    assert forall|k: int| 0 <= k < 116 implies data[k] == front[k] by {
        assert(data.subrange(0, 116)[k] == data[k]);
    }
    assert(data.subrange(0, 4) =~= spec_mobi_magic());
    crate::bytes::lemma_u32_be_round(h.header_length);
    crate::bytes::lemma_u32_be_round(h.mobi_type);
    crate::bytes::lemma_u32_be_round(h.text_encoding);
    crate::bytes::lemma_u32_be_round(h.unique_id);
    crate::bytes::lemma_u32_be_round(h.file_version);
    crate::bytes::lemma_u32_be_round(h.orthographic_index);
    crate::bytes::lemma_u32_be_round(h.inflection_index);
    crate::bytes::lemma_u32_be_round(h.index_names);
    crate::bytes::lemma_u32_be_round(h.index_keys);
    crate::bytes::lemma_u32_be_round(h.extra_index0);
    crate::bytes::lemma_u32_be_round(h.extra_index1);
    crate::bytes::lemma_u32_be_round(h.extra_index2);
    crate::bytes::lemma_u32_be_round(h.extra_index3);
    crate::bytes::lemma_u32_be_round(h.extra_index4);
    crate::bytes::lemma_u32_be_round(h.extra_index5);
    crate::bytes::lemma_u32_be_round(h.first_non_book_index);
    crate::bytes::lemma_u32_be_round(h.full_name_offset);
    crate::bytes::lemma_u32_be_round(h.full_name_length);
    crate::bytes::lemma_u32_be_round(h.locale);
    crate::bytes::lemma_u32_be_round(h.input_language);
    crate::bytes::lemma_u32_be_round(h.output_language);
    crate::bytes::lemma_u32_be_round(h.min_version);
    crate::bytes::lemma_u32_be_round(h.first_image_index);
    crate::bytes::lemma_u32_be_round(h.huffman_record_offset);
    crate::bytes::lemma_u32_be_round(h.huffman_record_count);
    crate::bytes::lemma_u32_be_round(h.huffman_table_offset);
    crate::bytes::lemma_u32_be_round(h.huffman_table_length);
    crate::bytes::lemma_u32_be_round(h.exth_flags);
}

#[verifier::rlimit(100)]
#[verifier::spinoff_prover]
proof fn lemma_mobi_parse_back(h: MOBIHeaderV)
    ensures
        ({
            let parsed = spec_parse_mobi_header(spec_mobi_header_bytes(h));
            &&& parsed.first_content_record_number == h.first_content_record_number
            &&& parsed.last_content_record_number == h.last_content_record_number
            &&& parsed.fcis_record_number == h.fcis_record_number
            &&& parsed.flis_record_number == h.flis_record_number
            &&& parsed.extra_record_data_flags == h.extra_record_data_flags
        }),
{
    let data = spec_mobi_header_bytes(h);
    let back = spec_mobi_back_bytes(h);
    assert(data.subrange(116, 232) =~= back);
    assert forall|k: int| 116 <= k < 232 implies data[k] == back[k - 116] by {
        assert(data.subrange(116, 232)[k - 116] == data[k]);
    }
    assert(data[176] == back[60]);
    assert(data[177] == back[61]);
    assert(data[178] == back[62]);
    assert(data[179] == back[63]);
    assert(data[184] == back[68]);
    assert(data[185] == back[69]);
    assert(data[186] == back[70]);
    assert(data[187] == back[71]);
    assert(data[192] == back[76]);
    assert(data[193] == back[77]);
    assert(data[194] == back[78]);
    assert(data[195] == back[79]);
    assert(data[224] == back[108]);
    assert(data[225] == back[109]);
    assert(data[226] == back[110]);
    assert(data[227] == back[111]);
    crate::bytes::lemma_u16_be_round(h.first_content_record_number);
    crate::bytes::lemma_u16_be_round(h.last_content_record_number);
    crate::bytes::lemma_u32_be_round(h.fcis_record_number);
    crate::bytes::lemma_u32_be_round(h.flis_record_number);
    crate::bytes::lemma_u32_be_round(h.extra_record_data_flags);
}

/// Parsing a serialized MOBI header restores every modeled field; the
/// identifier comes back as the magic that serialization writes.
pub proof fn lemma_mobi_header_round_trip(h: MOBIHeaderV)
    ensures
        spec_parse_mobi_header(spec_mobi_header_bytes(h)) == (MOBIHeaderV {
            identifier: spec_mobi_magic(),
            ..h
        }),
{
    lemma_mobi_parse_front(h);
    lemma_mobi_parse_back(h);
}

} // verus!
