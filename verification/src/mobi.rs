//! The MOBI reader and its companion writer path: opening an existing
//! file into its PDB, headers, and derived trailer counts; reading
//! content records with their trailing metadata stripped; and
//! assembling a new file whose text records are PalmDOC-compressed,
//! matching the compression mode the PalmDOC sub-header declares.

use crate::bytes::copy_bytes;
use crate::bytes::copy_range;
use crate::bytes::push_bytes;
use crate::bytes::push_u16_be;
use crate::bytes::push_u32_be;
use crate::compression::palmdoc_compress;
use crate::compression::spec_decompress;
use crate::error::PDBError;
use crate::mobi_header::spec_parse_mobi_header;
use crate::mobi_header::MOBIHeader;
use crate::mobi_header::MOBIHeaderV;
use crate::mobi_header::NULL_INDEX;
use crate::mobi_writer::random_u32;
use crate::mobi_writer::spec_eof_bytes;
use crate::mobi_writer::spec_flis_bytes;
use crate::palmdoc_header::spec_parse_palmdoc_header;
use crate::palmdoc_header::PalmDOCHeader;
use crate::pdb::spec_container_valid;
use crate::pdb::spec_parse_header;
use crate::pdb::spec_parse_pdb;
use crate::pdb::spec_rec_end;
use crate::pdb::spec_rec_start;
use crate::pdb::PDBHeader;
use crate::pdb::PDBHeaderV;
use crate::pdb::PDBRecord;
use crate::pdb::PDB;
use crate::pdb::PDBV;
use crate::bytes::spec_u16_be;
use crate::bytes::spec_u32_be;
use crate::timestamp::now_timestamp;
use vstd::prelude::*;

verus! {

/// How many variable-length trailing sections each content record
/// carries: one for every set bit of the flag word above bit 0,
/// counted by repeatedly clearing the lowest such bit.
pub open spec fn spec_trailer_count(flags: u32) -> int
    decreases flags,
    via spec_trailer_count_decreases
{
    if flags <= 1 {
        0
    } else {
        1 + spec_trailer_count(flags & ((flags - 2) as u32))
    }
}

#[via_fn]
proof fn spec_trailer_count_decreases(flags: u32) {
    assert(flags > 1 ==> (flags & ((flags - 2) as u32)) < flags) by (bit_vector);
}

proof fn lemma_trailer_count_le(flags: u32)
    ensures
        0 <= spec_trailer_count(flags) <= flags,
    decreases flags,
{
    if flags > 1 {
        let f2 = flags & ((flags - 2) as u32);
        assert(f2 < flags) by (bit_vector)
            requires
                flags > 1 && f2 == (flags & ((flags - 2) as u32)),
        ;
        lemma_trailer_count_le(f2);
    }
}

/// Counts the trailing sections the low 16 bits of the extra record
/// data flags declare.
pub fn trailer_count(extra_record_data_flags: u32) -> (r: u32)
    ensures
        r == spec_trailer_count(extra_record_data_flags & 0xFFFF),
{
    let mut f: u32 = extra_record_data_flags & 0xFFFF;
    let ghost total = spec_trailer_count(f);
    proof {
        lemma_trailer_count_le(f);
        assert(extra_record_data_flags & 0xFFFF <= 0xFFFF) by (bit_vector);
    }
    let mut c: u32 = 0;
    while f > 1
        invariant
            c + spec_trailer_count(f) == total,
            0 <= spec_trailer_count(f),
            total <= 0xFFFF,
        decreases f,
    {
        c = c + 1;
        proof {
            assert(f > 1 ==> (f & ((f - 2) as u32)) < f) by (bit_vector);
            lemma_trailer_count_le(f & ((f - 2) as u32));
        }
        f = f & (f - 2);
    }
    c
}

/// Whether every content record ends with a multibyte trailing-byte
/// count: bit 0 of the flag word, honored only by headers long enough
/// to carry it.
pub open spec fn spec_multibyte(h: MOBIHeaderV) -> bool {
    h.header_length >= 0xE4 && (h.extra_record_data_flags & 0xFFFF) & 1 == 1
}

/// The trailing-section count the header declares, honored only by
/// headers long enough to carry the flag word.
pub open spec fn spec_trailers(h: MOBIHeaderV) -> int {
    if h.header_length >= 0xE4 {
        spec_trailer_count(h.extra_record_data_flags & 0xFFFF)
    } else {
        0
    }
}

/// The mathematical value of a [`MOBI`].
pub ghost struct MOBIV {
    pub palmdoc_header: PalmDOCHeader,
    pub header: MOBIHeaderV,
    pub pdb: PDBV,
    pub content: Seq<u8>,
    pub multibyte: bool,
    pub trailers: u32,
}

/// An open MOBI file: its container, the two record-0 headers, the
/// content set for writing, and the trailer shape derived from the
/// header flags.
#[derive(Debug, Clone)]
pub struct MOBI {
    pub palmdoc_header: PalmDOCHeader,
    pub header: MOBIHeader,
    pub pdb: PDB,
    pub content: Vec<u8>,
    pub multibyte: bool,
    pub trailers: u32,
}

impl View for MOBI {
    type V = MOBIV;

    open spec fn view(&self) -> MOBIV {
        MOBIV {
            palmdoc_header: self.palmdoc_header,
            header: self.header@,
            pdb: self.pdb@,
            content: self.content@,
            multibyte: self.multibyte,
            trailers: self.trailers,
        }
    }
}

/// The FCIS trailer record this writer path emits, carrying the text
/// length: 44 bytes.
pub open spec fn spec_mobi_fcis_bytes(text_length: u32) -> Seq<u8> {
    seq![70u8, 67u8, 73u8, 83u8] + spec_u32_be(20) + spec_u32_be(16) + spec_u32_be(1)
        + spec_u32_be(0) + spec_u32_be(text_length) + spec_u32_be(0) + spec_u32_be(32)
        + spec_u32_be(4) + spec_u16_be(1) + spec_u16_be(1) + spec_u32_be(0)
}

/// How many text records a content of `len` bytes fills at `rs` bytes
/// per record.
pub open spec fn spec_record_count_of(len: int, rs: int) -> int
    recommends
        rs > 0,
{
    len / rs + if len % rs > 0 {
        1int
    } else {
        0int
    }
}

impl MOBI {
    /// A fresh MOBI that will be written with PalmDOC-compressed text:
    /// every header field starts at its fixed default, the unique id is
    /// random, and the container carries the `BOOK`/`MOBI` codes and
    /// the given name truncated to the 31 bytes the header holds. The
    /// three container timestamps are taken from the clock.
    pub fn new(name: Vec<u8>) -> (r: MOBI)
        ensures
            r@.palmdoc_header == (PalmDOCHeader {
                compression: 2,
                text_length: 0,
                record_count: 0,
                record_size: 4096,
                encryption_type: 0,
            }),
            r@.header == (MOBIHeaderV {
                identifier: crate::mobi_header::spec_mobi_magic(),
                header_length: 232,
                mobi_type: 2,
                text_encoding: 65001,
                unique_id: r@.header.unique_id,
                file_version: 6,
                orthographic_index: NULL_INDEX,
                inflection_index: NULL_INDEX,
                index_names: NULL_INDEX,
                index_keys: NULL_INDEX,
                extra_index0: NULL_INDEX,
                extra_index1: NULL_INDEX,
                extra_index2: NULL_INDEX,
                extra_index3: NULL_INDEX,
                extra_index4: NULL_INDEX,
                extra_index5: NULL_INDEX,
                first_non_book_index: 0,
                full_name_offset: 0,
                full_name_length: 0,
                locale: 9,
                input_language: 0,
                output_language: 0,
                min_version: 6,
                first_image_index: 0,
                huffman_record_offset: 0,
                huffman_record_count: 0,
                huffman_table_offset: 0,
                huffman_table_length: 0,
                exth_flags: 0,
                extra_record_data_flags: 0,
                first_content_record_number: 1,
                last_content_record_number: 0,
                fcis_record_number: 0,
                flis_record_number: 0,
            }),
            r@.pdb.header == (PDBHeaderV {
                name: crate::mobi_writer::spec_writer_pdb_name(name@),
                attributes: 0,
                version: 0,
                creation_time: r@.pdb.header.creation_time,
                modification_time: r@.pdb.header.modification_time,
                last_backup_date: r@.pdb.header.last_backup_date,
                modification_number: 0,
                app_info_id: 0,
                sort_info_id: 0,
                type_: seq![66u8, 79u8, 79u8, 75u8],
                creator: seq![77u8, 79u8, 66u8, 73u8],
                unique_id_seed: 0,
                next_record_list_id: 0,
                number_of_records: 0,
            }),
            r@.pdb.records == Seq::<PDBRecord>::empty(),
            r@.pdb.record_data == Seq::<Seq<u8>>::empty(),
            r@.content == Seq::<u8>::empty(),
            r@.multibyte == false,
            r@.trailers == 0,
    {
        let palmdoc_header = PalmDOCHeader {
            compression: 2,
            text_length: 0,
            record_count: 0,
            record_size: 4096,
            encryption_type: 0,
        };
        let magic: [u8; 4] = [77, 79, 66, 73];
        let header = MOBIHeader {
            identifier: copy_bytes(magic.as_slice()),
            header_length: 232,
            mobi_type: 2,
            text_encoding: 65001,
            unique_id: random_u32(),
            file_version: 6,
            orthographic_index: NULL_INDEX,
            inflection_index: NULL_INDEX,
            index_names: NULL_INDEX,
            index_keys: NULL_INDEX,
            extra_index0: NULL_INDEX,
            extra_index1: NULL_INDEX,
            extra_index2: NULL_INDEX,
            extra_index3: NULL_INDEX,
            extra_index4: NULL_INDEX,
            extra_index5: NULL_INDEX,
            first_non_book_index: 0,
            full_name_offset: 0,
            full_name_length: 0,
            locale: 9,
            input_language: 0,
            output_language: 0,
            min_version: 6,
            first_image_index: 0,
            huffman_record_offset: 0,
            huffman_record_count: 0,
            huffman_table_offset: 0,
            huffman_table_length: 0,
            exth_flags: 0,
            extra_record_data_flags: 0,
            first_content_record_number: 1,
            last_content_record_number: 0,
            fcis_record_number: 0,
            flis_record_number: 0,
        };
        let name31: Vec<u8> = if name.len() <= 31 {
            name
        } else {
            crate::bytes::copy_range(name.as_slice(), 0, 31)
        };
        let tcode: [u8; 4] = [66, 79, 79, 75];
        let ccode: [u8; 4] = [77, 79, 66, 73];
        let pdb_header = PDBHeader {
            name: name31,
            attributes: 0,
            version: 0,
            creation_time: now_timestamp(),
            modification_time: now_timestamp(),
            last_backup_date: now_timestamp(),
            modification_number: 0,
            app_info_id: 0,
            sort_info_id: 0,
            type_: copy_bytes(tcode.as_slice()),
            creator: copy_bytes(ccode.as_slice()),
            unique_id_seed: 0,
            next_record_list_id: 0,
            number_of_records: 0,
        };
        proof {
            assert(pdb_header@.type_ =~= seq![66u8, 79u8, 79u8, 75u8]);
            assert(pdb_header@.creator =~= seq![77u8, 79u8, 66u8, 73u8]);
            assert(header@.identifier =~= crate::mobi_header::spec_mobi_magic());
        }
        let r = MOBI {
            palmdoc_header,
            header,
            pdb: PDB::new(pdb_header),
            content: Vec::new(),
            multibyte: false,
            trailers: 0,
        };
        r
    }

    /// Sets the content to be written: records the decompressed text
    /// length and record count in the PalmDOC sub-header, extends the
    /// content record range by that count, and points the FCIS and
    /// FLIS record numbers past it.
    pub fn set_content(&mut self, content: Vec<u8>)
        requires
            old(self)@.palmdoc_header.record_size > 0,
            content@.len() <= u32::MAX,
            old(self)@.header.last_content_record_number + spec_record_count_of(
                content@.len() as int,
                old(self)@.palmdoc_header.record_size as int,
            ) <= 0xFFFF,
        ensures
            final(self)@.palmdoc_header == (PalmDOCHeader {
                text_length: content@.len() as u32,
                record_count: spec_record_count_of(
                    content@.len() as int,
                    old(self)@.palmdoc_header.record_size as int,
                ) as u16,
                ..old(self)@.palmdoc_header
            }),
            final(self)@.header == (MOBIHeaderV {
                last_content_record_number: (old(self)@.header.last_content_record_number
                    + spec_record_count_of(
                    content@.len() as int,
                    old(self)@.palmdoc_header.record_size as int,
                )) as u16,
                fcis_record_number: (old(self)@.header.last_content_record_number
                    + spec_record_count_of(
                    content@.len() as int,
                    old(self)@.palmdoc_header.record_size as int,
                ) + 1) as u32,
                flis_record_number: (old(self)@.header.last_content_record_number
                    + spec_record_count_of(
                    content@.len() as int,
                    old(self)@.palmdoc_header.record_size as int,
                ) + 2) as u32,
                ..old(self)@.header
            }),
            final(self)@.content == content@,
            final(self)@.pdb == old(self)@.pdb,
            final(self)@.multibyte == old(self)@.multibyte,
            final(self)@.trailers == old(self)@.trailers,
    {
        let rs: usize = self.palmdoc_header.record_size as usize;
        let record_count: usize = content.len() / rs + if content.len() % rs > 0 {
            1
        } else {
            0
        };
        self.palmdoc_header.text_length = content.len() as u32;
        self.header.last_content_record_number = self.header.last_content_record_number
            + record_count as u16;
        self.palmdoc_header.record_count = record_count as u16;
        self.content = content;
        self.header.fcis_record_number = self.header.last_content_record_number as u32 + 1;
        self.header.flis_record_number = self.header.last_content_record_number as u32 + 2;
    }

    /// Appends the FLIS trailer record to the container.
    pub fn add_flis(&mut self) -> (r: Result<(), PDBError>)
        requires
            old(self)@.pdb.header.number_of_records < 0xFFFF,
            old(self)@.pdb.header.unique_id_seed + 2 <= u32::MAX,
        ensures
            r is Ok,
            final(self)@.pdb.header == (PDBHeaderV {
                unique_id_seed: (old(self)@.pdb.header.unique_id_seed + 2) as u32,
                number_of_records: (old(self)@.pdb.header.number_of_records + 1) as u16,
                ..old(self)@.pdb.header
            }),
            final(self)@.pdb.records == old(self)@.pdb.records.push(
                PDBRecord { data_offset: 0, attributes: old(self)@.pdb.header.unique_id_seed },
            ),
            final(self)@.pdb.record_data == old(self)@.pdb.record_data.push(spec_flis_bytes()),
            final(self)@.palmdoc_header == old(self)@.palmdoc_header,
            final(self)@.header == old(self)@.header,
            final(self)@.content == old(self)@.content,
            final(self)@.multibyte == old(self)@.multibyte,
            final(self)@.trailers == old(self)@.trailers,
    {
        let data = crate::mobi_writer::flis();
        self.pdb.add_record(data);
        Ok(())
    }

    /// Appends the FCIS trailer record, carrying the text length.
    pub fn add_fcis(&mut self) -> (r: Result<(), PDBError>)
        requires
            old(self)@.pdb.header.number_of_records < 0xFFFF,
            old(self)@.pdb.header.unique_id_seed + 2 <= u32::MAX,
        ensures
            r is Ok,
            final(self)@.pdb.header == (PDBHeaderV {
                unique_id_seed: (old(self)@.pdb.header.unique_id_seed + 2) as u32,
                number_of_records: (old(self)@.pdb.header.number_of_records + 1) as u16,
                ..old(self)@.pdb.header
            }),
            final(self)@.pdb.records == old(self)@.pdb.records.push(
                PDBRecord { data_offset: 0, attributes: old(self)@.pdb.header.unique_id_seed },
            ),
            final(self)@.pdb.record_data == old(self)@.pdb.record_data.push(
                spec_mobi_fcis_bytes(old(self)@.palmdoc_header.text_length),
            ),
            final(self)@.palmdoc_header == old(self)@.palmdoc_header,
            final(self)@.header == old(self)@.header,
            final(self)@.content == old(self)@.content,
            final(self)@.multibyte == old(self)@.multibyte,
            final(self)@.trailers == old(self)@.trailers,
    {
        let mut data: Vec<u8> = Vec::new();
        let magic: [u8; 4] = [70, 67, 73, 83];
        push_bytes(&mut data, magic.as_slice());
        proof {
            assert(data@ =~= seq![70u8, 67u8, 73u8, 83u8]);
        }
        push_u32_be(&mut data, 20);
        push_u32_be(&mut data, 16);
        push_u32_be(&mut data, 1);
        push_u32_be(&mut data, 0);
        push_u32_be(&mut data, self.palmdoc_header.text_length);
        push_u32_be(&mut data, 0);
        push_u32_be(&mut data, 32);
        push_u32_be(&mut data, 4);
        push_u16_be(&mut data, 1);
        push_u16_be(&mut data, 1);
        push_u32_be(&mut data, 0);
        self.pdb.add_record(data);
        Ok(())
    }

    /// Appends the end-of-file marker record.
    pub fn add_eof(&mut self) -> (r: Result<(), PDBError>)
        requires
            old(self)@.pdb.header.number_of_records < 0xFFFF,
            old(self)@.pdb.header.unique_id_seed + 2 <= u32::MAX,
        ensures
            r is Ok,
            final(self)@.pdb.header == (PDBHeaderV {
                unique_id_seed: (old(self)@.pdb.header.unique_id_seed + 2) as u32,
                number_of_records: (old(self)@.pdb.header.number_of_records + 1) as u16,
                ..old(self)@.pdb.header
            }),
            final(self)@.pdb.records == old(self)@.pdb.records.push(
                PDBRecord { data_offset: 0, attributes: old(self)@.pdb.header.unique_id_seed },
            ),
            final(self)@.pdb.record_data == old(self)@.pdb.record_data.push(spec_eof_bytes()),
            final(self)@.palmdoc_header == old(self)@.palmdoc_header,
            final(self)@.header == old(self)@.header,
            final(self)@.content == old(self)@.content,
            final(self)@.multibyte == old(self)@.multibyte,
            final(self)@.trailers == old(self)@.trailers,
    {
        let data = crate::mobi_writer::eof();
        self.pdb.add_record(data);
        Ok(())
    }
}

/// Record 0 of a decoded container.
pub open spec fn spec_mobi_rec0(data: Seq<u8>) -> Seq<u8> {
    data.subrange(
        spec_rec_start(data, 0),
        spec_rec_end(data, 0, spec_parse_header(data).number_of_records as int),
    )
}

impl MOBI {
    /// Opens an existing MOBI file: decodes the container, the two
    /// record-0 headers, and the trailer shape the header flags
    /// declare.
    ///
    /// Fails with `MalformedContainer` when the container or record 0
    /// is too short or inconsistent, with `TruncatedRecord` when the
    /// container has no record 0, and with `UnsupportedCompression`
    /// when the declared mode is neither "none" nor PalmDOC.
    pub fn from_bytes(data: &[u8]) -> (r: Result<MOBI, PDBError>)
        ensures
            !spec_container_valid(data@) ==> r == Err::<MOBI, PDBError>(
                PDBError::MalformedContainer,
            ),
            spec_container_valid(data@) ==> ({
                let n = spec_parse_header(data@).number_of_records as int;
                let rec0 = spec_mobi_rec0(data@);
                &&& n == 0 ==> r == Err::<MOBI, PDBError>(PDBError::TruncatedRecord)
                &&& n >= 1 && rec0.len() < 248 ==> r == Err::<MOBI, PDBError>(
                    PDBError::MalformedContainer,
                )
                &&& n >= 1 && rec0.len() >= 248 && !(spec_parse_palmdoc_header(rec0).compression
                    == 1 || spec_parse_palmdoc_header(rec0).compression == 2) ==> r == Err::<
                    MOBI,
                    PDBError,
                >(PDBError::UnsupportedCompression)
                &&& n >= 1 && rec0.len() >= 248 && (spec_parse_palmdoc_header(rec0).compression
                    == 1 || spec_parse_palmdoc_header(rec0).compression == 2) ==> (r matches Ok(m)
                    && {
                    &&& m@.palmdoc_header == spec_parse_palmdoc_header(rec0)
                    &&& m@.header == spec_parse_mobi_header(rec0.subrange(16, rec0.len() as int))
                    &&& spec_parse_pdb(data@, m@.pdb)
                    &&& m@.content == Seq::<u8>::empty()
                    &&& m@.multibyte == spec_multibyte(m@.header)
                    &&& m@.trailers == spec_trailers(m@.header)
                })
            }),
    {
        let pdb = match PDB::from_bytes(data) {
            Ok(p) => p,
            Err(e) => {
                return Err(e);
            },
        };
        let rec0 = match pdb.read_record(0) {
            Some(b) => b,
            None => {
                return Err(PDBError::TruncatedRecord);
            },
        };
        let palmdoc_header = match PalmDOCHeader::from_bytes(rec0.as_slice()) {
            Ok(h) => h,
            Err(e) => {
                return Err(e);
            },
        };
        let rest: &[u8] = vstd::slice::slice_subrange(rec0.as_slice(), 16, rec0.len());
        let header = match MOBIHeader::from_bytes(rest) {
            Ok(h) => h,
            Err(e) => {
                return Err(e);
            },
        };
        if palmdoc_header.compression != 1 && palmdoc_header.compression != 2 {
            return Err(PDBError::UnsupportedCompression);
        }
        let (multibyte, trailers): (bool, u32) = if header.header_length >= 0xE4 {
            let flags: u32 = header.extra_record_data_flags & 0xFFFF;
            ((flags & 1) == 1, trailer_count(header.extra_record_data_flags))
        } else {
            (false, 0)
        };
        proof {
            assert((header@.extra_record_data_flags & 0xFFFF) & 1 == header@.extra_record_data_flags
                & 0xFFFF & 1);
        }
        Ok(MOBI { palmdoc_header, header, pdb, content: Vec::new(), multibyte, trailers })
    }
}

/// The content split into records of `rs` bytes, the last one shorter
/// when the content does not divide evenly.
pub open spec fn spec_chunks(content: Seq<u8>, rs: int) -> Seq<Seq<u8>>
    decreases content.len(),
{
    if rs <= 0 || content.len() == 0 {
        Seq::empty()
    } else if content.len() <= rs {
        seq![content]
    } else {
        seq![content.subrange(0, rs)] + spec_chunks(content.subrange(rs, content.len() as int), rs)
    }
}

impl MOBI {
    /// Compresses the content into text records, one per `record_size`
    /// bytes, and appends them to the container: the declared PalmDOC
    /// compression mode and the actual record encoding stay
    /// consistent. Decompressing each appended record yields its chunk
    /// of the content.
    fn serialize_content(&mut self)
        requires
            old(self)@.palmdoc_header.record_size >= 1,
            old(self)@.pdb.header.number_of_records == old(self)@.pdb.records.len(),
            old(self)@.pdb.records.len() == old(self)@.pdb.record_data.len(),
            old(self)@.pdb.header.number_of_records + spec_chunks(
                old(self)@.content,
                old(self)@.palmdoc_header.record_size as int,
            ).len() <= 0xFFFF,
            old(self)@.pdb.header.unique_id_seed + 2 * spec_chunks(
                old(self)@.content,
                old(self)@.palmdoc_header.record_size as int,
            ).len() <= u32::MAX,
        ensures
            ({
                let m = old(self)@;
                let chunks = spec_chunks(m.content, m.palmdoc_header.record_size as int);
                let nch = chunks.len() as int;
                let base = m.pdb.record_data.len() as int;
                &&& final(self)@.palmdoc_header == m.palmdoc_header
                &&& final(self)@.header == m.header
                &&& final(self)@.content == m.content
                &&& final(self)@.multibyte == m.multibyte
                &&& final(self)@.trailers == m.trailers
                &&& final(self)@.pdb.header == (PDBHeaderV {
                    unique_id_seed: (m.pdb.header.unique_id_seed + 2 * nch) as u32,
                    number_of_records: (m.pdb.header.number_of_records + nch) as u16,
                    ..m.pdb.header
                })
                &&& final(self)@.pdb.records.len() == base + nch
                &&& final(self)@.pdb.record_data.len() == base + nch
                &&& forall|j: int|
                    0 <= j < base ==> #[trigger] final(self)@.pdb.record_data[j]
                        == m.pdb.record_data[j]
                &&& forall|j: int|
                    0 <= j < base ==> #[trigger] final(self)@.pdb.records[j] == m.pdb.records[j]
                &&& forall|j: int|
                    base <= j < base + nch ==> #[trigger] final(self)@.pdb.records[j]
                        == (PDBRecord {
                        data_offset: 0,
                        attributes: (m.pdb.header.unique_id_seed + 2 * (j - base)) as u32,
                    })
                &&& forall|j: int|
                    base <= j < base + nch ==> spec_decompress(
                        #[trigger] final(self)@.pdb.record_data[j],
                    ) == chunks[j - base]
                &&& crate::pdb::spec_prefix_data_len(final(self)@.pdb.record_data, base + nch)
                    <= crate::pdb::spec_prefix_data_len(m.pdb.record_data, base) + 2
                    * m.content.len()
            }),
    {
        let ghost m0 = self@;
        let rs: usize = self.palmdoc_header.record_size as usize;
        let ghost chunks = spec_chunks(m0.content, rs as int);
        let ghost nch = chunks.len() as int;
        let ghost base = m0.pdb.record_data.len() as int;
        let ghost p0 = crate::pdb::spec_prefix_data_len(m0.pdb.record_data, base);
        let mut start: usize = 0;
        let mut k: usize = 0;
        proof {
            assert(m0.content.subrange(0, m0.content.len() as int) =~= m0.content);
            assert(chunks.subrange(0, nch) =~= chunks);
        }
        while start < self.content.len()
            invariant
                self@.palmdoc_header == m0.palmdoc_header,
                self@.header == m0.header,
                self@.content == m0.content,
                self@.multibyte == m0.multibyte,
                self@.trailers == m0.trailers,
                rs == m0.palmdoc_header.record_size,
                rs >= 1,
                start <= self@.content.len(),
                0 <= k as int <= nch,
                chunks == spec_chunks(m0.content, rs as int),
                nch == chunks.len(),
                base == m0.pdb.record_data.len(),
                m0.pdb.header.number_of_records == base,
                m0.pdb.records.len() == base,
                m0.pdb.header.number_of_records + nch <= 0xFFFF,
                m0.pdb.header.unique_id_seed + 2 * nch <= u32::MAX,
                p0 == crate::pdb::spec_prefix_data_len(m0.pdb.record_data, base),
                spec_chunks(
                    m0.content.subrange(start as int, m0.content.len() as int),
                    rs as int,
                ) == chunks.subrange(k as int, nch),
                self@.pdb.record_data.len() == base + k,
                self@.pdb.records.len() == base + k,
                self@.pdb.header == (PDBHeaderV {
                    unique_id_seed: (m0.pdb.header.unique_id_seed + 2 * k) as u32,
                    number_of_records: (m0.pdb.header.number_of_records + k) as u16,
                    ..m0.pdb.header
                }),
                forall|j: int|
                    0 <= j < base ==> #[trigger] self@.pdb.record_data[j] == m0.pdb.record_data[j],
                forall|j: int|
                    0 <= j < base ==> #[trigger] self@.pdb.records[j] == m0.pdb.records[j],
                forall|j: int|
                    base <= j < base + k ==> #[trigger] self@.pdb.records[j] == (PDBRecord {
                        data_offset: 0,
                        attributes: (m0.pdb.header.unique_id_seed + 2 * (j - base)) as u32,
                    }),
                forall|j: int|
                    base <= j < base + k ==> spec_decompress(#[trigger] self@.pdb.record_data[j])
                        == chunks[j - base],
                crate::pdb::spec_prefix_data_len(self@.pdb.record_data, base + k) <= p0 + 2
                    * start,
            decreases self@.content.len() - start,
        {
            let ghost suffix = m0.content.subrange(start as int, m0.content.len() as int);
            let len: usize = self.content.len();
            let end: usize = if len - start > rs {
                start + rs
            } else {
                len
            };
            let chunk_vec = copy_range(self.content.as_slice(), start, end);
            let compressed = palmdoc_compress(chunk_vec.as_slice());
            let ghost rd_old = self@.pdb.record_data;
            proof {
                if len - start > rs {
                    assert(chunk_vec@ =~= suffix.subrange(0, rs as int));
                    assert(suffix.subrange(rs as int, suffix.len() as int) =~= m0.content.subrange(
                        end as int,
                        m0.content.len() as int,
                    ));
                } else {
                    assert(chunk_vec@ =~= suffix);
                }
                assert(spec_chunks(suffix, rs as int) == chunks.subrange(k as int, nch));
                assert(suffix.len() > 0);
                assert(spec_chunks(suffix, rs as int).len() >= 1);
                assert((k as int) < nch);
                assert(chunks.subrange(k as int, nch) =~= seq![chunk_vec@] + spec_chunks(
                    m0.content.subrange(end as int, m0.content.len() as int),
                    rs as int,
                ));
                assert(chunks[k as int] == chunks.subrange(k as int, nch)[0]);
                assert(chunks[k as int] == chunk_vec@);
                let rest = spec_chunks(
                    m0.content.subrange(end as int, m0.content.len() as int),
                    rs as int,
                );
                assert(rest.len() == nch - k - 1);
                assert forall|i: int| 0 <= i < nch - (k as int) - 1 implies rest[i]
                    == chunks.subrange(k as int + 1, nch)[i] by {
                    assert(chunks.subrange(k as int + 1, nch)[i] == chunks[k + 1 + i]);
                    assert(chunks[k + 1 + i] == chunks.subrange(k as int, nch)[i + 1]);
                    assert(chunks.subrange(k as int, nch)[i + 1] == (seq![chunk_vec@] + rest)[i
                        + 1]);
                }
                assert(rest =~= chunks.subrange(k as int + 1, nch));
            }
            let ghost cb = compressed@;
            self.pdb.add_record(compressed);
            proof {
                crate::mobi_writer::lemma_prefix_push(rd_old, cb, base + k);
            }
            start = end;
            k = k + 1;
        }
        proof {
            assert(chunks.subrange(k as int, nch) =~= Seq::<Seq<u8>>::empty());
        }
    }
}

/// Relates an assembled MOBI file's container to the value it was
/// built from: the original records stay in front; then record 0 with
/// its two headers and the first non-book index pointing past the text
/// records; then one compressed record per content chunk, each
/// decompressing to its chunk; then the FLIS, FCIS, and end-of-file
/// trailers. Entries take consecutive even ids and the header counters
/// advance accordingly.
pub open spec fn spec_mobi_output(m: MOBIV, p: PDBV) -> bool {
    let n0 = m.pdb.record_data.len() as int;
    let chunks = spec_chunks(m.content, m.palmdoc_header.record_size as int);
    let nch = chunks.len() as int;
    &&& p.header == (PDBHeaderV {
        unique_id_seed: (m.pdb.header.unique_id_seed + 2 * (nch + 4)) as u32,
        number_of_records: (m.pdb.header.number_of_records + nch + 4) as u16,
        ..m.pdb.header
    })
    &&& p.records.len() == n0 + nch + 4
    &&& p.record_data.len() == n0 + nch + 4
    &&& forall|i: int| 0 <= i < n0 ==> #[trigger] p.records[i] == m.pdb.records[i]
    &&& forall|i: int|
        n0 <= i < n0 + nch + 4 ==> #[trigger] p.records[i] == (PDBRecord {
            data_offset: 0,
            attributes: (m.pdb.header.unique_id_seed + 2 * (i - n0)) as u32,
        })
    &&& forall|i: int| 0 <= i < n0 ==> #[trigger] p.record_data[i] == m.pdb.record_data[i]
    &&& p.record_data[n0] == crate::palmdoc_header::spec_palmdoc_header_bytes(m.palmdoc_header)
        + crate::mobi_header::spec_mobi_header_bytes(
        MOBIHeaderV {
            first_non_book_index: (m.palmdoc_header.record_count + 1) as u32,
            ..m.header
        },
    )
    &&& forall|i: int|
        n0 + 1 <= i < n0 + 1 + nch ==> spec_decompress(#[trigger] p.record_data[i]) == chunks[i
            - n0 - 1]
    &&& p.record_data[n0 + 1 + nch] == spec_flis_bytes()
    &&& p.record_data[n0 + 2 + nch] == spec_mobi_fcis_bytes(m.palmdoc_header.text_length)
    &&& p.record_data[n0 + 3 + nch] == spec_eof_bytes()
}

impl MOBI {
    /// Assembles the MOBI file: record 0 holding the PalmDOC
    /// sub-header and the MOBI header (its first non-book index set
    /// past the text records), the PalmDOC-compressed text records,
    /// then the FLIS, FCIS, and end-of-file trailers, encoded as a
    /// PDB.
    ///
    /// Fails exactly when a container header timestamp has no Palm
    /// representation.
    #[verifier::rlimit(100)]
    #[verifier::spinoff_prover]
    pub fn to_bytes(&self) -> (r: Result<Vec<u8>, PDBError>)
        requires
            self@.palmdoc_header.record_size >= 1,
            crate::pdb::wf_pdb(self@.pdb),
            self@.pdb.header.number_of_records + spec_chunks(
                self@.content,
                self@.palmdoc_header.record_size as int,
            ).len() + 4 <= 0xFFFF,
            self@.pdb.header.unique_id_seed + 2 * (spec_chunks(
                self@.content,
                self@.palmdoc_header.record_size as int,
            ).len() + 4) <= u32::MAX,
            78 + 8 * (self@.pdb.records.len() + spec_chunks(
                self@.content,
                self@.palmdoc_header.record_size as int,
            ).len() + 4) + crate::pdb::spec_prefix_data_len(
                self@.pdb.record_data,
                self@.pdb.record_data.len() as int,
            ) + 248 + 2 * self@.content.len() + 84 <= u32::MAX,
        ensures
            crate::pdb::header_times_encodable(self@.pdb.header) <==> r is Ok,
            r matches Err(e) ==> e == PDBError::TimestampOutOfRange,
            r matches Ok(b) ==> exists|p: PDBV|
                b@ == crate::pdb::spec_pdb_bytes(p) && #[trigger] spec_mobi_output(self@, p),
    {
        let ghost m = self@;
        let ghost chunks = spec_chunks(m.content, m.palmdoc_header.record_size as int);
        let ghost nch = chunks.len() as int;
        let ghost n0 = m.pdb.record_data.len() as int;
        let ghost p0 = crate::pdb::spec_prefix_data_len(m.pdb.record_data, n0);
        let hdr_eff = MOBIHeader {
            identifier: copy_bytes(self.header.identifier.as_slice()),
            header_length: self.header.header_length,
            mobi_type: self.header.mobi_type,
            text_encoding: self.header.text_encoding,
            unique_id: self.header.unique_id,
            file_version: self.header.file_version,
            orthographic_index: self.header.orthographic_index,
            inflection_index: self.header.inflection_index,
            index_names: self.header.index_names,
            index_keys: self.header.index_keys,
            extra_index0: self.header.extra_index0,
            extra_index1: self.header.extra_index1,
            extra_index2: self.header.extra_index2,
            extra_index3: self.header.extra_index3,
            extra_index4: self.header.extra_index4,
            extra_index5: self.header.extra_index5,
            first_non_book_index: self.palmdoc_header.record_count as u32 + 1,
            full_name_offset: self.header.full_name_offset,
            full_name_length: self.header.full_name_length,
            locale: self.header.locale,
            input_language: self.header.input_language,
            output_language: self.header.output_language,
            min_version: self.header.min_version,
            first_image_index: self.header.first_image_index,
            huffman_record_offset: self.header.huffman_record_offset,
            huffman_record_count: self.header.huffman_record_count,
            huffman_table_offset: self.header.huffman_table_offset,
            huffman_table_length: self.header.huffman_table_length,
            exth_flags: self.header.exth_flags,
            extra_record_data_flags: self.header.extra_record_data_flags,
            first_content_record_number: self.header.first_content_record_number,
            last_content_record_number: self.header.last_content_record_number,
            fcis_record_number: self.header.fcis_record_number,
            flis_record_number: self.header.flis_record_number,
        };
        proof {
            assert(hdr_eff@ == (MOBIHeaderV {
                first_non_book_index: (m.palmdoc_header.record_count + 1) as u32,
                ..m.header
            }));
        }
        let mut record0 = self.palmdoc_header.to_bytes();
        let hb = hdr_eff.to_bytes();
        push_bytes(&mut record0, hb.as_slice());
        let ghost r0 = record0@;
        let mut output = MOBI {
            palmdoc_header: self.palmdoc_header,
            header: hdr_eff,
            pdb: self.pdb.duplicate(),
            content: copy_bytes(self.content.as_slice()),
            multibyte: self.multibyte,
            trailers: self.trailers,
        };
        let ghost rd0 = output@.pdb.record_data;
        output.pdb.add_record(record0);
        proof {
            crate::mobi_writer::lemma_prefix_push(rd0, r0, n0);
        }
        output.serialize_content();
        let ghost rd_a = output@.pdb.record_data;
        let _ = output.add_flis();
        proof {
            crate::mobi_writer::lemma_prefix_push(rd_a, spec_flis_bytes(), n0 + 1 + nch);
        }
        let ghost rd_b = output@.pdb.record_data;
        let _ = output.add_fcis();
        proof {
            crate::mobi_writer::lemma_prefix_push(
                rd_b,
                spec_mobi_fcis_bytes(m.palmdoc_header.text_length),
                n0 + 2 + nch,
            );
        }
        let ghost rd_c = output@.pdb.record_data;
        let _ = output.add_eof();
        proof {
            crate::mobi_writer::lemma_prefix_push(rd_c, spec_eof_bytes(), n0 + 3 + nch);
            assert(spec_mobi_output(m, output@.pdb));
            assert(crate::pdb::wf_pdb(output@.pdb));
            assert(crate::pdb::spec_total_len(output@.pdb) <= u32::MAX);
        }
        output.pdb.to_bytes()
    }
}

/// One step of the backward variable-length quantity: a byte with its
/// high bit set restarts the value, and every byte contributes its low
/// seven bits.
pub open spec fn spec_vlq_step(n: u32, b: u8) -> u32 {
    ((if b & 128 != 0 {
        0u32
    } else {
        n
    }) << 7) | ((b & 127) as u32)
}

/// The trailing-section length encoded in the last four bytes of a
/// record: a variable-length quantity read toward the end.
pub open spec fn spec_trailing_len(b: Seq<u8>) -> int
    recommends
        b.len() >= 4,
{
    let i = b.len() - 4;
    let n1 = spec_vlq_step(0, b[i]);
    let n2 = spec_vlq_step(n1, b[i + 1]);
    let n3 = spec_vlq_step(n2, b[i + 2]);
    let n4 = spec_vlq_step(n3, b[i + 3]);
    n4 as int
}

/// Strips one trailing section: a record shorter than four bytes is
/// left alone, and a declared length running past the record's start
/// is an error.
pub open spec fn spec_strip_one(b: Seq<u8>) -> Option<Seq<u8>> {
    if b.len() < 4 {
        Some(b)
    } else {
        let n = spec_trailing_len(b);
        if n > b.len() {
            None
        } else {
            Some(b.take(b.len() - n))
        }
    }
}

/// Strips `k` trailing sections in order.
pub open spec fn spec_strip_n(b: Seq<u8>, k: int) -> Option<Seq<u8>>
    decreases k,
{
    if k <= 0 {
        Some(b)
    } else {
        match spec_strip_n(b, k - 1) {
            None => None,
            Some(b2) => spec_strip_one(b2),
        }
    }
}

/// Strips the multibyte trailing bytes: one more than the low two bits
/// of the final byte. An empty record is an error.
pub open spec fn spec_strip_multibyte(b: Seq<u8>) -> Option<Seq<u8>> {
    if b.len() == 0 {
        None
    } else {
        let n = ((b.last() & 3) + 1) as int;
        if n > b.len() {
            None
        } else {
            Some(b.take(b.len() - n))
        }
    }
}

/// What trimming a content record leaves: all declared trailing
/// sections are stripped first, then the multibyte bytes if the header
/// flags them. This order is mandatory.
pub open spec fn spec_read_content(b: Seq<u8>, trailers: int, multibyte: bool) -> Option<Seq<u8>> {
    match spec_strip_n(b, trailers) {
        None => None,
        Some(b2) => if multibyte {
            spec_strip_multibyte(b2)
        } else {
            Some(b2)
        },
    }
}

proof fn lemma_strip_none_mono(b: Seq<u8>, k: int, k2: int)
    requires
        0 <= k <= k2,
        spec_strip_n(b, k) is None,
    ensures
        spec_strip_n(b, k2) is None,
    decreases k2,
{
    if k < k2 {
        lemma_strip_none_mono(b, k, k2 - 1);
    }
}

impl MOBI {
    /// Fetches content record `index` and strips its trailing
    /// metadata: each declared trailing section, then the multibyte
    /// bytes if the header flags them.
    ///
    /// Fails with `TruncatedRecord` when the index has no backing
    /// entry, and with `MalformedContainer` when a declared trailing
    /// length runs past the record's start.
    pub fn read_record(&self, index: u16) -> (r: Result<Vec<u8>, PDBError>)
        ensures
            (index as int) < self@.pdb.record_data.len() <==> !(r == Err::<Vec<u8>, PDBError>(
                PDBError::TruncatedRecord,
            )),
            (index as int) < self@.pdb.record_data.len() ==> match spec_read_content(
                self@.pdb.record_data[index as int],
                self@.trailers as int,
                self@.multibyte,
            ) {
                Some(b) => r matches Ok(rb) && rb@ == b,
                None => r == Err::<Vec<u8>, PDBError>(PDBError::MalformedContainer),
            },
    {
        let mut bytes = match self.pdb.read_record(index) {
            Some(b) => b,
            None => {
                return Err(PDBError::TruncatedRecord);
            },
        };
        let ghost orig = bytes@;
        let mut t: u32 = 0;
        while t < self.trailers
            invariant_except_break
                t <= self.trailers,
                (index as int) < self@.pdb.record_data.len(),
                orig == self@.pdb.record_data[index as int],
                spec_strip_n(orig, t as int) == Some(bytes@),
            ensures
                spec_strip_n(orig, self@.trailers as int) == Some(bytes@),
            decreases self.trailers - t,
        {
            if bytes.len() >= 4 {
                let ghost cur = bytes@;
                let b0: u8 = bytes[bytes.len() - 4];
                let b1: u8 = bytes[bytes.len() - 3];
                let b2: u8 = bytes[bytes.len() - 2];
                let b3: u8 = bytes[bytes.len() - 1];
                let mut num: u32 = 0;
                if b0 & 128 != 0 {
                    num = 0;
                }
                num = (num << 7) | ((b0 & 127) as u32);
                if b1 & 128 != 0 {
                    num = 0;
                }
                num = (num << 7) | ((b1 & 127) as u32);
                if b2 & 128 != 0 {
                    num = 0;
                }
                num = (num << 7) | ((b2 & 127) as u32);
                if b3 & 128 != 0 {
                    num = 0;
                }
                num = (num << 7) | ((b3 & 127) as u32);
                proof {
                    assert(num == spec_trailing_len(cur));
                }
                if (num as usize) > bytes.len() {
                    proof {
                        assert(spec_strip_one(cur) is None);
                        assert(spec_strip_n(orig, t as int + 1) is None);
                        lemma_strip_none_mono(orig, t as int + 1, self@.trailers as int);
                    }
                    return Err(PDBError::MalformedContainer);
                }
                let keep: usize = bytes.len() - num as usize;
                bytes.truncate(keep);
                proof {
                    assert(bytes@ == cur.take(cur.len() - spec_trailing_len(cur)));
                    assert(spec_strip_one(cur) == Some(bytes@));
                }
            }
            t = t + 1;
        }
        if self.multibyte {
            let ghost stripped = bytes@;
            if bytes.len() == 0 {
                return Err(PDBError::MalformedContainer);
            }
            let last: u8 = bytes[bytes.len() - 1];
            proof {
                assert(last & 3 <= 3) by (bit_vector);
            }
            let num: usize = ((last & 3) + 1) as usize;
            if num > bytes.len() {
                return Err(PDBError::MalformedContainer);
            }
            let keep: usize = bytes.len() - num;
            bytes.truncate(keep);
            proof {
                assert(spec_strip_multibyte(stripped) == Some(bytes@));
            }
        }
        Ok(bytes)
    }
}

} // verus!
