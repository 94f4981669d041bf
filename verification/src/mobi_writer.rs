//! The MOBI writer: builds a complete MOBI file from a title, flowing
//! HTML content, and an ordered sequence of raw image blobs.
//!
//! The writer declares no compression in its PalmDOC sub-header and
//! writes the text in raw 4096-byte records, keeping the declared mode
//! and the actual record encoding consistent.

use crate::bytes::copy_bytes;
use crate::bytes::copy_range;
use crate::bytes::push_bytes;
use crate::bytes::push_u16_be;
use crate::bytes::push_u32_be;
use crate::bytes::push_zeros;
use crate::bytes::spec_u16_be;
use crate::bytes::spec_u32_be;
use crate::bytes::spec_zeros;
use crate::error::PDBError;
use crate::mobi_header::spec_mobi_magic;
use crate::mobi_header::NULL_INDEX;
use crate::palmdoc_header::spec_palmdoc_header_bytes;
use crate::palmdoc_header::PalmDOCHeader;
use crate::pdb::spec_pdb_bytes;
use crate::pdb::spec_prefix_data_len;
use crate::pdb::PDBHeader;
use crate::pdb::PDBHeaderV;
use crate::pdb::PDBRecord;
use crate::pdb::PDB;
use crate::pdb::PDBV;
use crate::timestamp::Timestamp;
use vstd::prelude::*;

verus! {

/// Uncompressed bytes per text record.
pub const TEXT_RECORD_SIZE: usize = 4096;

/// The fixed FCIS trailer record, carrying the text length: 48 bytes.
pub open spec fn spec_fcis_bytes(text_length: u32) -> Seq<u8> {
    seq![70u8, 67u8, 73u8, 83u8] + spec_u32_be(20) + spec_u32_be(16) + spec_u32_be(1)
        + spec_u32_be(0) + spec_u32_be(text_length) + spec_u32_be(0) + spec_u32_be(32)
        + spec_u32_be(8) + spec_u32_be(1) + spec_u32_be(1) + spec_u32_be(0)
}

/// The fixed FLIS trailer record: 36 bytes.
pub open spec fn spec_flis_bytes() -> Seq<u8> {
    seq![70u8, 76u8, 73u8, 83u8] + spec_u32_be(8) + spec_u16_be(65) + spec_u16_be(0)
        + spec_u32_be(0) + spec_u32_be(0xFFFFFFFF) + spec_u16_be(1) + spec_u16_be(3)
        + spec_u32_be(3) + spec_u32_be(1) + spec_u32_be(0xFFFFFFFF)
}

/// The four-byte end-of-file marker record.
pub open spec fn spec_eof_bytes() -> Seq<u8> {
    seq![233u8, 142u8, 13u8, 10u8]
}

/// Builds the FCIS trailer record carrying the text length.
pub fn fcis(text_length: u32) -> (r: Vec<u8>)
    ensures
        r@ == spec_fcis_bytes(text_length),
        r@.len() == 48,
{
    let mut out: Vec<u8> = Vec::new();
    let magic: [u8; 4] = [70, 67, 73, 83];
    push_bytes(&mut out, magic.as_slice());
    proof {
        assert(out@ =~= seq![70u8, 67u8, 73u8, 83u8]);
    }
    push_u32_be(&mut out, 20);
    push_u32_be(&mut out, 16);
    push_u32_be(&mut out, 1);
    push_u32_be(&mut out, 0);
    push_u32_be(&mut out, text_length);
    push_u32_be(&mut out, 0);
    push_u32_be(&mut out, 32);
    push_u32_be(&mut out, 8);
    push_u32_be(&mut out, 1);
    push_u32_be(&mut out, 1);
    push_u32_be(&mut out, 0);
    out
}

/// Builds the FLIS trailer record.
pub fn flis() -> (r: Vec<u8>)
    ensures
        r@ == spec_flis_bytes(),
        r@.len() == 36,
{
    let mut out: Vec<u8> = Vec::new();
    let magic: [u8; 4] = [70, 76, 73, 83];
    push_bytes(&mut out, magic.as_slice());
    proof {
        assert(out@ =~= seq![70u8, 76u8, 73u8, 83u8]);
    }
    push_u32_be(&mut out, 8);
    push_u16_be(&mut out, 65);
    push_u16_be(&mut out, 0);
    push_u32_be(&mut out, 0);
    push_u32_be(&mut out, 0xFFFFFFFF);
    push_u16_be(&mut out, 1);
    push_u16_be(&mut out, 3);
    push_u32_be(&mut out, 3);
    push_u32_be(&mut out, 1);
    push_u32_be(&mut out, 0xFFFFFFFF);
    out
}

/// Builds the end-of-file marker record.
pub fn eof() -> (r: Vec<u8>)
    ensures
        r@ == spec_eof_bytes(),
        r@.len() == 4,
{
    let mut out: Vec<u8> = Vec::new();
    out.push(233);
    out.push(142);
    out.push(13);
    out.push(10);
    proof {
        assert(out@ =~= spec_eof_bytes());
    }
    out
}

/// Relies on rand's `random`: a 32-bit value from the thread-local
/// generator. Nothing is promised of the value; it depends on chance.
#[verifier::external_body]
pub(crate) fn random_u32() -> u32 {
    rand::random::<u32>()
}

/// How many text records a content of `len` bytes fills: one per 4096
/// bytes, plus one for the final partial record.
pub open spec fn spec_text_record_count(len: int) -> int {
    len / 4096 + if len % 4096 > 0 {
        1int
    } else {
        0int
    }
}

/// Text record `i`: the 4096-byte slice of the content starting at
/// `4096 * i`, shorter if the content ends first.
pub open spec fn spec_text_chunk(content: Seq<u8>, i: int) -> Seq<u8> {
    if 4096 * (i + 1) <= content.len() {
        content.subrange(4096 * i, 4096 * (i + 1))
    } else {
        content.subrange(4096 * i, content.len() as int)
    }
}

/// The mathematical value of a [`MobiWriter`].
pub ghost struct MobiWriterV {
    pub name: Seq<u8>,
    pub content: Seq<u8>,
    pub images: Seq<Seq<u8>>,
    pub text_record_count: int,
}

/// Accumulates a title, the HTML content, and the image blobs of a
/// MOBI file; `to_bytes` assembles the finished file.
pub struct MobiWriter {
    name: Vec<u8>,
    content: Vec<u8>,
    images: Vec<Vec<u8>>,
    text_record_count: usize,
}

impl View for MobiWriter {
    type V = MobiWriterV;

    closed spec fn view(&self) -> MobiWriterV {
        MobiWriterV {
            name: self.name@,
            content: self.content@,
            images: Seq::new(self.images@.len(), |i: int| self.images@[i]@),
            text_record_count: self.text_record_count as int,
        }
    }
}

/// The stored text record count matches the content.
pub open spec fn writer_wf(w: MobiWriterV) -> bool {
    w.text_record_count == spec_text_record_count(w.content.len() as int)
}

impl MobiWriter {
    /// A writer with the given title and no content or images yet.
    pub fn new(name: Vec<u8>) -> (r: MobiWriter)
        ensures
            r@.name == name@,
            r@.content == Seq::<u8>::empty(),
            r@.images == Seq::<Seq<u8>>::empty(),
            writer_wf(r@),
    {
        let r = MobiWriter { name, content: Vec::new(), images: Vec::new(), text_record_count: 0 };
        proof {
            assert(r@.images =~= Seq::<Seq<u8>>::empty());
        }
        r
    }

    /// How many text records the current content fills.
    pub fn text_record_count(&self) -> (r: usize)
        ensures
            r == spec_text_record_count(self@.content.len() as int),
    {
        (self.content.len() / TEXT_RECORD_SIZE) + if (self.content.len() % TEXT_RECORD_SIZE) != 0 {
            1
        } else {
            0
        }
    }

    /// Replaces the content and recomputes the text record count.
    pub fn set_content(&mut self, content: Vec<u8>)
        ensures
            final(self)@.name == old(self)@.name,
            final(self)@.images == old(self)@.images,
            final(self)@.content == content@,
            writer_wf(final(self)@),
    {
        self.content = content;
        self.text_record_count = self.text_record_count();
        proof {
            assert(final(self)@.images =~= old(self)@.images);
        }
    }

    /// Appends an image blob after the ones already added.
    pub fn add_image(&mut self, image: Vec<u8>)
        ensures
            final(self)@.name == old(self)@.name,
            final(self)@.content == old(self)@.content,
            final(self)@.images == old(self)@.images.push(image@),
            final(self)@.text_record_count == old(self)@.text_record_count,
    {
        self.images.push(image);
        proof {
            assert(final(self)@.images =~= old(self)@.images.push(image@));
        }
    }

    /// The PalmDOC sub-header the writer declares: no compression, the
    /// content length, the text record count, and 4096-byte records.
    pub open spec fn spec_palmdoc(w: MobiWriterV) -> PalmDOCHeader {
        PalmDOCHeader {
            compression: 1,
            text_length: w.content.len() as u32,
            record_count: spec_text_record_count(w.content.len() as int) as u16,
            record_size: 4096,
            encryption_type: 0,
        }
    }

    /// Builds the 16-byte PalmDOC sub-header of record 0.
    pub fn generate_palmdoc(&self) -> (r: Vec<u8>)
        requires
            writer_wf(self@),
            self@.content.len() <= 0xFFFF * 4096,
        ensures
            r@ == spec_palmdoc_header_bytes(Self::spec_palmdoc(self@)),
            r@.len() == 16,
    {
        let header = PalmDOCHeader {
            compression: 1,
            text_length: self.content.len() as u32,
            record_count: self.text_record_count as u16,
            record_size: 4096,
            encryption_type: 0,
        };
        header.to_bytes()
    }
}

/// Zero bytes padding record 0 to a four-byte boundary after the name;
/// a name already on a boundary still gets four.
pub open spec fn spec_name_pad(nlen: int) -> int {
    4 - nlen % 4
}

/// The variable-length MOBI header the writer builds for record 0: the
/// fixed fields, the full name, and padding to a four-byte boundary.
/// The first non-book record follows the text records; the content
/// record range ends at the last image; the FCIS and FLIS record
/// numbers are the next two. The full name offset field is 0x100: 16
/// bytes of PalmDOC sub-header plus the 240 fixed header bytes.
pub open spec fn spec_writer_mobiheader_bytes(w: MobiWriterV, unique_id: u32) -> Seq<u8> {
    let trc = spec_text_record_count(w.content.len() as int);
    let fnbi = (trc + 1) as u32;
    let lci = (trc + w.images.len()) as u32;
    spec_mobi_magic() + spec_u32_be(0xE8) + spec_u32_be(2) + spec_u32_be(65001) + spec_u32_be(
        unique_id,
    ) + spec_u32_be(6) + spec_u32_be(NULL_INDEX) + spec_u32_be(NULL_INDEX) + spec_u32_be(
        NULL_INDEX,
    ) + spec_u32_be(NULL_INDEX) + spec_u32_be(NULL_INDEX) + spec_u32_be(NULL_INDEX) + spec_u32_be(
        NULL_INDEX,
    ) + spec_u32_be(NULL_INDEX) + spec_u32_be(NULL_INDEX) + spec_u32_be(NULL_INDEX) + spec_u32_be(
        fnbi,
    ) + spec_u32_be(0x100) + spec_u32_be(w.name.len() as u32) + spec_u32_be(1033) + spec_u32_be(0)
        + spec_u32_be(0) + spec_u32_be(6) + spec_u32_be(fnbi) + spec_zeros(16) + spec_u32_be(0)
        + spec_zeros(32) + spec_u32_be(NULL_INDEX) + spec_u32_be(NULL_INDEX) + spec_u32_be(
        NULL_INDEX,
    ) + spec_u32_be(0) + spec_u32_be(0) + spec_zeros(8) + spec_u16_be(1) + spec_u16_be(
        lci as u16,
    ) + spec_u32_be(1) + spec_u32_be((lci + 1) as u32) + spec_u32_be(1) + spec_u32_be(
        (lci + 2) as u32,
    ) + spec_u32_be(1) + spec_u32_be(0) + spec_u32_be(0) + spec_u32_be(NULL_INDEX) + spec_u32_be(
        0,
    ) + spec_u32_be(NULL_INDEX) + spec_u32_be(NULL_INDEX) + spec_u32_be(0) + spec_u32_be(
        NULL_INDEX,
    ) + spec_zeros(8) + w.name + spec_zeros(spec_name_pad(w.name.len() as int))
}

impl MobiWriter {
    /// Builds the MOBI header of record 0 around the given unique id:
    /// the first non-book record follows the text records, the content
    /// record range covers text and images, and the FCIS/FLIS record
    /// numbers point past it.
    pub fn generate_mobiheader(&self, unique_id: u32) -> (r: Vec<u8>)
        requires
            writer_wf(self@),
            self@.content.len() <= 0xFFFF * 4096,
            spec_text_record_count(self@.content.len() as int) + self@.images.len() <= 0xFFFF,
            self@.name.len() <= u32::MAX,
        ensures
            r@ == spec_writer_mobiheader_bytes(self@, unique_id),
            r@.len() == 240 + self@.name.len() + spec_name_pad(self@.name.len() as int),
    {
        let first_non_book_index: u32 = self.text_record_count as u32 + 1;
        let last_content_index: u32 = self.text_record_count as u32 + self.images.len() as u32;
        let mut out: Vec<u8> = Vec::new();
        let magic: [u8; 4] = [77, 79, 66, 73];
        push_bytes(&mut out, magic.as_slice());
        proof {
            assert(out@ =~= spec_mobi_magic());
        }
        push_u32_be(&mut out, 0xE8);
        push_u32_be(&mut out, 2);
        push_u32_be(&mut out, 65001);
        push_u32_be(&mut out, unique_id);
        push_u32_be(&mut out, 6);
        push_u32_be(&mut out, NULL_INDEX);
        push_u32_be(&mut out, NULL_INDEX);
        push_u32_be(&mut out, NULL_INDEX);
        push_u32_be(&mut out, NULL_INDEX);
        push_u32_be(&mut out, NULL_INDEX);
        push_u32_be(&mut out, NULL_INDEX);
        push_u32_be(&mut out, NULL_INDEX);
        push_u32_be(&mut out, NULL_INDEX);
        push_u32_be(&mut out, NULL_INDEX);
        push_u32_be(&mut out, NULL_INDEX);
        push_u32_be(&mut out, first_non_book_index);
        push_u32_be(&mut out, 0x100);
        push_u32_be(&mut out, self.name.len() as u32);
        push_u32_be(&mut out, 1033);
        push_u32_be(&mut out, 0);
        push_u32_be(&mut out, 0);
        push_u32_be(&mut out, 6);
        push_u32_be(&mut out, first_non_book_index);
        push_zeros(&mut out, 16);
        push_u32_be(&mut out, 0);
        push_zeros(&mut out, 32);
        push_u32_be(&mut out, NULL_INDEX);
        push_u32_be(&mut out, NULL_INDEX);
        push_u32_be(&mut out, NULL_INDEX);
        push_u32_be(&mut out, 0);
        push_u32_be(&mut out, 0);
        push_zeros(&mut out, 8);
        push_u16_be(&mut out, 1);
        push_u16_be(&mut out, last_content_index as u16);
        push_u32_be(&mut out, 1);
        push_u32_be(&mut out, last_content_index + 1);
        push_u32_be(&mut out, 1);
        push_u32_be(&mut out, last_content_index + 2);
        push_u32_be(&mut out, 1);
        push_u32_be(&mut out, 0);
        push_u32_be(&mut out, 0);
        push_u32_be(&mut out, NULL_INDEX);
        push_u32_be(&mut out, 0);
        push_u32_be(&mut out, NULL_INDEX);
        push_u32_be(&mut out, NULL_INDEX);
        push_u32_be(&mut out, 0);
        push_u32_be(&mut out, NULL_INDEX);
        push_zeros(&mut out, 8);
        push_bytes(&mut out, self.name.as_slice());
        let extra: usize = self.name.len() % 4;
        push_zeros(&mut out, 4 - extra);
        out
    }

    /// Record 0: the PalmDOC sub-header followed by the MOBI header.
    pub fn generate_record0(&self, unique_id: u32) -> (r: Vec<u8>)
        requires
            writer_wf(self@),
            self@.content.len() <= 0xFFFF * 4096,
            spec_text_record_count(self@.content.len() as int) + self@.images.len() <= 0xFFFF,
            self@.name.len() <= u32::MAX,
        ensures
            r@ == spec_palmdoc_header_bytes(Self::spec_palmdoc(self@))
                + spec_writer_mobiheader_bytes(self@, unique_id),
            r@.len() == 256 + self@.name.len() + spec_name_pad(self@.name.len() as int),
    {
        let mut out = self.generate_palmdoc();
        let mobiheader = self.generate_mobiheader(unique_id);
        push_bytes(&mut out, mobiheader.as_slice());
        out
    }

    /// Splits the content into raw text records of at most 4096 bytes.
    pub fn generate_text_records(&self) -> (r: Vec<Vec<u8>>)
        requires
            writer_wf(self@),
            self@.content.len() <= 0xFFFF * 4096,
        ensures
            r@.len() == spec_text_record_count(self@.content.len() as int),
            forall|i: int|
                0 <= i < r@.len() ==> (#[trigger] r@[i])@ == spec_text_chunk(self@.content, i),
    {
        let trc: usize = self.text_record_count;
        let ghost clen = self@.content.len() as int;
        proof {
            vstd::arithmetic::div_mod::lemma_fundamental_div_mod(clen, 4096);
        }
        let mut records: Vec<Vec<u8>> = Vec::new();
        let mut start: usize = 0;
        let mut k: usize = 0;
        while k < trc
            invariant
                writer_wf(self@),
                clen == self@.content.len(),
                clen <= 0xFFFF * 4096,
                trc == spec_text_record_count(clen),
                k <= trc,
                start == 4096 * k,
                k < trc ==> start < clen,
                records@.len() == k,
                forall|i: int|
                    0 <= i < k ==> (#[trigger] records@[i])@ == spec_text_chunk(self@.content, i),
            decreases trc - k,
        {
            let end: usize = if self.content.len() - start >= TEXT_RECORD_SIZE {
                start + TEXT_RECORD_SIZE
            } else {
                self.content.len()
            };
            records.push(copy_range(self.content.as_slice(), start, end));
            k = k + 1;
            start = start + TEXT_RECORD_SIZE;
            proof {
                vstd::arithmetic::div_mod::lemma_fundamental_div_mod(clen, 4096);
            }
        }
        records
    }
}

/// The PDB header name: the title, truncated to the 31 bytes the
/// header field can hold.
pub open spec fn spec_writer_pdb_name(name: Seq<u8>) -> Seq<u8> {
    if name.len() <= 31 {
        name
    } else {
        name.subrange(0, 31)
    }
}

/// How many records the writer emits: record 0, the text records, the
/// images, and the FLIS, FCIS, and end-of-file trailers.
pub open spec fn spec_writer_record_count(w: MobiWriterV) -> int {
    4 + spec_text_record_count(w.content.len() as int) + w.images.len()
}

/// The PDB header of the assembled file: `BOOK`/`MOBI` codes,
/// Unix-epoch timestamps, and the counters that appending every record
/// leaves behind.
pub open spec fn spec_writer_header(w: MobiWriterV) -> PDBHeaderV {
    PDBHeaderV {
        name: spec_writer_pdb_name(w.name),
        attributes: 0,
        version: 0,
        creation_time: Timestamp { seconds: 0 },
        modification_time: Timestamp { seconds: 0 },
        last_backup_date: Timestamp { seconds: 0 },
        modification_number: 0,
        app_info_id: 0,
        sort_info_id: 0,
        type_: seq![66u8, 79u8, 79u8, 75u8],
        creator: seq![77u8, 79u8, 66u8, 73u8],
        unique_id_seed: (2 * spec_writer_record_count(w)) as u32,
        next_record_list_id: 0,
        number_of_records: spec_writer_record_count(w) as u16,
    }
}

/// The blobs of the assembled file, in record order.
pub open spec fn spec_writer_record_data(w: MobiWriterV, unique_id: u32) -> Seq<Seq<u8>> {
    let trc = spec_text_record_count(w.content.len() as int);
    let ni = w.images.len() as int;
    Seq::new(
        (4 + trc + ni) as nat,
        |i: int|
            if i == 0 {
                spec_palmdoc_header_bytes(MobiWriter::spec_palmdoc(w))
                    + spec_writer_mobiheader_bytes(w, unique_id)
            } else if i <= trc {
                spec_text_chunk(w.content, i - 1)
            } else if i <= trc + ni {
                w.images[i - 1 - trc]
            } else if i == trc + ni + 1 {
                spec_flis_bytes()
            } else if i == trc + ni + 2 {
                spec_fcis_bytes(w.content.len() as u32)
            } else {
                spec_eof_bytes()
            },
    )
}

/// The record entries of the assembled file: untrusted zero offsets
/// and the even unique ids that appending assigns.
pub open spec fn spec_writer_records(w: MobiWriterV) -> Seq<PDBRecord> {
    Seq::new(
        spec_writer_record_count(w) as nat,
        |i: int| PDBRecord { data_offset: 0, attributes: (2 * i) as u32 },
    )
}

/// The complete PDB the writer assembles around the given unique id.
pub open spec fn spec_writer_pdb(w: MobiWriterV, unique_id: u32) -> PDBV {
    PDBV {
        header: spec_writer_header(w),
        records: spec_writer_records(w),
        record_data: spec_writer_record_data(w, unique_id),
    }
}

/// The bounds the 16-bit record counters and 32-bit offsets force on
/// the writer's inputs.
pub open spec fn spec_writer_sizes_ok(w: MobiWriterV) -> bool {
    let trc = spec_text_record_count(w.content.len() as int);
    &&& writer_wf(w)
    &&& w.content.len() <= 0xFFFF * 4096
    &&& trc + w.images.len() + 4 <= 0xFFFF
    &&& 78 + 8 * (4 + trc + w.images.len()) + 256 + w.name.len() + 4 + w.content.len()
        + spec_prefix_data_len(w.images, w.images.len() as int) + 88 <= u32::MAX
}

pub(crate) proof fn lemma_prefix_push(blobs: Seq<Seq<u8>>, b: Seq<u8>, m: int)
    requires
        0 <= m <= blobs.len(),
    ensures
        spec_prefix_data_len(blobs.push(b), m) == spec_prefix_data_len(blobs, m),
    decreases m,
{
    if m > 0 {
        lemma_prefix_push(blobs, b, m - 1);
        assert(blobs.push(b)[m - 1] == blobs[m - 1]);
    }
}

impl MobiWriter {
    /// Assembles the MOBI file: record 0, the raw text records, the
    /// images in order, then the FLIS, FCIS, and end-of-file trailer
    /// records, encoded as a PDB. The MOBI header takes a random
    /// unique id, so the result is one of the encodings
    /// `spec_writer_pdb` describes, one for each id.
    pub fn to_bytes(&self) -> (r: Result<Vec<u8>, PDBError>)
        requires
            spec_writer_sizes_ok(self@),
        ensures
            r is Ok,
            r matches Ok(b) ==> exists|uid: u32|
                b@ == spec_pdb_bytes(#[trigger] spec_writer_pdb(self@, uid)),
    {
        let ghost w = self@;
        let ghost clen = w.content.len() as int;
        let ghost trc_g = spec_text_record_count(clen);
        let ghost ni = w.images.len() as int;
        let ghost base = spec_writer_header(w);
        let uid: u32 = random_u32();
        let text_records = self.generate_text_records();
        let name31: Vec<u8> = if self.name.len() <= 31 {
            copy_bytes(self.name.as_slice())
        } else {
            copy_range(self.name.as_slice(), 0, 31)
        };
        let tcode: [u8; 4] = [66, 79, 79, 75];
        let ccode: [u8; 4] = [77, 79, 66, 73];
        let header = PDBHeader {
            name: name31,
            attributes: 0,
            version: 0,
            creation_time: Timestamp { seconds: 0 },
            modification_time: Timestamp { seconds: 0 },
            last_backup_date: Timestamp { seconds: 0 },
            modification_number: 0,
            app_info_id: 0,
            sort_info_id: 0,
            type_: copy_bytes(tcode.as_slice()),
            creator: copy_bytes(ccode.as_slice()),
            unique_id_seed: 0,
            next_record_list_id: 0,
            number_of_records: 0,
        };
        proof {
            assert(header@.type_ =~= base.type_);
            assert(header@.creator =~= base.creator);
        }
        let mut pdb = PDB::new(header);
        proof {
            crate::pdb::lemma_prefix_mono(w.images, 0, ni);
        }
        let record0 = self.generate_record0(uid);
        let ghost r0 = record0@;
        let ghost r0len = r0.len() as int;
        pdb.add_record(record0);
        proof {
            lemma_prefix_push(Seq::<Seq<u8>>::empty(), r0, 0);
        }
        let mut i: usize = 0;
        while i < text_records.len()
            invariant
                spec_writer_sizes_ok(w),
                w == self@,
                clen == w.content.len(),
                trc_g == spec_text_record_count(clen),
                ni == w.images.len(),
                base == spec_writer_header(w),
                text_records@.len() == trc_g,
                forall|j: int|
                    0 <= j < trc_g ==> (#[trigger] text_records@[j])@ == spec_text_chunk(
                        w.content,
                        j,
                    ),
                i <= trc_g,
                pdb@.record_data.len() == 1 + i,
                pdb@.records.len() == 1 + i,
                pdb@.header.number_of_records == 1 + i,
                pdb@.header.unique_id_seed == 2 * (1 + i as int),
                pdb@.header == (PDBHeaderV {
                    unique_id_seed: pdb@.header.unique_id_seed,
                    number_of_records: pdb@.header.number_of_records,
                    ..base
                }),
                pdb@.record_data[0] == r0,
                r0len == 256 + w.name.len() + spec_name_pad(w.name.len() as int),
                forall|j: int|
                    1 <= j < 1 + i ==> #[trigger] pdb@.record_data[j] == spec_text_chunk(
                        w.content,
                        j - 1,
                    ),
                forall|j: int|
                    0 <= j < 1 + i ==> #[trigger] pdb@.records[j] == (PDBRecord {
                        data_offset: 0,
                        attributes: (2 * j) as u32,
                    }),
                spec_prefix_data_len(pdb@.record_data, 1 + i as int) == r0len + (if 4096 * i
                    <= clen {
                    4096 * i as int
                } else {
                    clen
                }),
            decreases trc_g - i,
        {
            let ghost rd_old = pdb@.record_data;
            let chunk = copy_bytes(text_records[i].as_slice());
            pdb.add_record(chunk);
            i = i + 1;
            proof {
                lemma_prefix_push(rd_old, spec_text_chunk(w.content, i - 1), 1 + i - 1);
                vstd::arithmetic::div_mod::lemma_fundamental_div_mod(clen, 4096);
            }
        }
        proof {
            vstd::arithmetic::div_mod::lemma_fundamental_div_mod(clen, 4096);
            assert(spec_prefix_data_len(pdb@.record_data, 1 + trc_g) == r0len + clen);
        }
        let mut j: usize = 0;
        while j < self.images.len()
            invariant
                spec_writer_sizes_ok(w),
                w == self@,
                clen == w.content.len(),
                trc_g == spec_text_record_count(clen),
                ni == w.images.len(),
                base == spec_writer_header(w),
                j <= ni,
                pdb@.record_data.len() == 1 + trc_g + j,
                pdb@.records.len() == 1 + trc_g + j,
                pdb@.header.number_of_records == 1 + trc_g + j,
                pdb@.header.unique_id_seed == 2 * (1 + trc_g + j as int),
                pdb@.header == (PDBHeaderV {
                    unique_id_seed: pdb@.header.unique_id_seed,
                    number_of_records: pdb@.header.number_of_records,
                    ..base
                }),
                pdb@.record_data[0] == r0,
                r0len == 256 + w.name.len() + spec_name_pad(w.name.len() as int),
                forall|k: int|
                    1 <= k < 1 + trc_g ==> #[trigger] pdb@.record_data[k] == spec_text_chunk(
                        w.content,
                        k - 1,
                    ),
                forall|k: int|
                    1 + trc_g <= k < 1 + trc_g + j ==> #[trigger] pdb@.record_data[k]
                        == w.images[k - 1 - trc_g],
                forall|k: int|
                    0 <= k < 1 + trc_g + j ==> #[trigger] pdb@.records[k] == (PDBRecord {
                        data_offset: 0,
                        attributes: (2 * k) as u32,
                    }),
                spec_prefix_data_len(pdb@.record_data, 1 + trc_g + j as int) == r0len + clen
                    + spec_prefix_data_len(w.images, j as int),
            decreases ni - j,
        {
            let ghost rd_old = pdb@.record_data;
            let image = copy_bytes(self.images[j].as_slice());
            pdb.add_record(image);
            j = j + 1;
            proof {
                lemma_prefix_push(rd_old, w.images[j - 1], 1 + trc_g + j - 1);
            }
        }
        let ghost rd_a = pdb@.record_data;
        pdb.add_record(flis());
        proof {
            lemma_prefix_push(rd_a, spec_flis_bytes(), 1 + trc_g + ni);
        }
        let ghost rd_b = pdb@.record_data;
        pdb.add_record(fcis(self.content.len() as u32));
        proof {
            lemma_prefix_push(rd_b, spec_fcis_bytes(w.content.len() as u32), 2 + trc_g + ni);
        }
        let ghost rd_c = pdb@.record_data;
        pdb.add_record(eof());
        proof {
            lemma_prefix_push(rd_c, spec_eof_bytes(), 3 + trc_g + ni);
            assert(pdb@.records =~= spec_writer_records(w));
            assert(pdb@.record_data =~= spec_writer_record_data(w, uid));
            assert(pdb@.header == spec_writer_header(w));
            assert(pdb@ == spec_writer_pdb(w, uid));
            assert(crate::pdb::wf_pdb(pdb@));
            assert(crate::pdb::spec_total_len(pdb@) <= u32::MAX);
        }
        pdb.to_bytes()
    }
}

} // verus!
