//! The generic Palm Database (PDB) container codec: a fixed 78-byte
//! header, a record index table of 8-byte entries, and a sequence of
//! opaque record blobs located by offset.
//!
//! Fixed-width text fields (name, type, creator) are held as raw bytes:
//! the name is at most 31 bytes and is NUL-padded to 32 on the wire, the
//! type and creator codes are exactly 4 bytes each.

use crate::bytes::copy_bytes;
use crate::bytes::copy_range;
use crate::bytes::push_bytes;
use crate::bytes::push_u16_be;
use crate::bytes::push_u32_be;
use crate::bytes::push_zeros;
use crate::bytes::read_u16_be;
use crate::bytes::read_u32_be;
use crate::bytes::lemma_u16_be_round;
use crate::bytes::lemma_u32_be_round;
use crate::bytes::spec_u16_be;
use crate::bytes::spec_u16_from_be;
use crate::bytes::spec_u32_be;
use crate::bytes::spec_u32_from_be;
use crate::bytes::spec_zeros;
use crate::error::PDBError;
use crate::timestamp::from_palm_timestamp;
use crate::timestamp::palm_encodable;
use crate::timestamp::spec_from_palm;
use crate::timestamp::spec_to_palm;
use crate::timestamp::to_palm_timestamp;
use crate::timestamp::Timestamp;
use vstd::prelude::*;

verus! {

/// Converts a stored Palm timestamp field to a calendar timestamp.
pub fn parse_palm_timestamp(palm: u32) -> (r: Timestamp)
    ensures
        r == spec_from_palm(palm),
{
    from_palm_timestamp(palm)
}

/// The PDB header: 78 bytes on the wire.
#[derive(Debug, Clone)]
pub struct PDBHeader {
    /// Database name, at most 31 bytes, NUL-padded to 32 on the wire.
    pub name: Vec<u8>,
    pub attributes: u16,
    pub version: u16,
    pub creation_time: Timestamp,
    pub modification_time: Timestamp,
    pub last_backup_date: Timestamp,
    pub modification_number: u32,
    pub app_info_id: u32,
    pub sort_info_id: u32,
    /// Four-byte type code, e.g. `BOOK`.
    pub type_: Vec<u8>,
    /// Four-byte creator code, e.g. `MOBI`.
    pub creator: Vec<u8>,
    pub unique_id_seed: u32,
    pub next_record_list_id: u32,
    pub number_of_records: u16,
}

/// The mathematical value of a [`PDBHeader`].
pub ghost struct PDBHeaderV {
    pub name: Seq<u8>,
    pub attributes: u16,
    pub version: u16,
    pub creation_time: Timestamp,
    pub modification_time: Timestamp,
    pub last_backup_date: Timestamp,
    pub modification_number: u32,
    pub app_info_id: u32,
    pub sort_info_id: u32,
    pub type_: Seq<u8>,
    pub creator: Seq<u8>,
    pub unique_id_seed: u32,
    pub next_record_list_id: u32,
    pub number_of_records: u16,
}

impl View for PDBHeader {
    type V = PDBHeaderV;

    open spec fn view(&self) -> PDBHeaderV {
        PDBHeaderV {
            name: self.name@,
            attributes: self.attributes,
            version: self.version,
            creation_time: self.creation_time,
            modification_time: self.modification_time,
            last_backup_date: self.last_backup_date,
            modification_number: self.modification_number,
            app_info_id: self.app_info_id,
            sort_info_id: self.sort_info_id,
            type_: self.type_@,
            creator: self.creator@,
            unique_id_seed: self.unique_id_seed,
            next_record_list_id: self.next_record_list_id,
            number_of_records: self.number_of_records,
        }
    }
}

/// The field widths a header must respect to serialize.
pub open spec fn wf_header(h: PDBHeaderV) -> bool {
    &&& h.name.len() <= 31
    &&& h.type_.len() == 4
    &&& h.creator.len() == 4
}

/// True when all three header timestamps have a Palm representation.
pub open spec fn header_times_encodable(h: PDBHeaderV) -> bool {
    &&& palm_encodable(h.creation_time)
    &&& palm_encodable(h.modification_time)
    &&& palm_encodable(h.last_backup_date)
}

/// The 32-byte NUL-padded name field.
pub open spec fn spec_name_field(name: Seq<u8>) -> Seq<u8> {
    name + spec_zeros(32 - name.len())
}

/// The 78 bytes of a serialized header.
pub open spec fn spec_header_bytes(h: PDBHeaderV) -> Seq<u8> {
    spec_name_field(h.name) + spec_u16_be(h.attributes) + spec_u16_be(h.version) + spec_u32_be(
        spec_to_palm(h.creation_time),
    ) + spec_u32_be(spec_to_palm(h.modification_time)) + spec_u32_be(
        spec_to_palm(h.last_backup_date),
    ) + spec_u32_be(h.modification_number) + spec_u32_be(h.app_info_id) + spec_u32_be(
        h.sort_info_id,
    ) + h.type_ + h.creator + spec_u32_be(h.unique_id_seed) + spec_u32_be(h.next_record_list_id)
        + spec_u16_be(h.number_of_records)
}

/// The serialized header is always exactly 78 bytes.
pub proof fn lemma_header_bytes_len(h: PDBHeaderV)
    requires
        wf_header(h),
    ensures
        spec_header_bytes(h).len() == 78,
{
}

/// Bytes with every trailing NUL stripped.
pub open spec fn spec_trim_zeros(s: Seq<u8>) -> Seq<u8>
    decreases s.len(),
{
    if s.len() == 0 {
        s
    } else if s[s.len() - 1] == 0 {
        spec_trim_zeros(s.drop_last())
    } else {
        s
    }
}

/// What parsing the first 78 bytes of `data` yields: the name with its
/// NUL padding stripped, every other field at its fixed offset.
pub open spec fn spec_parse_header(data: Seq<u8>) -> PDBHeaderV
    recommends
        data.len() >= 78,
{
    PDBHeaderV {
        name: spec_trim_zeros(data.subrange(0, 32)),
        attributes: spec_u16_from_be(data[32], data[33]),
        version: spec_u16_from_be(data[34], data[35]),
        creation_time: spec_from_palm(spec_u32_from_be(data[36], data[37], data[38], data[39])),
        modification_time: spec_from_palm(
            spec_u32_from_be(data[40], data[41], data[42], data[43]),
        ),
        last_backup_date: spec_from_palm(spec_u32_from_be(data[44], data[45], data[46], data[47])),
        modification_number: spec_u32_from_be(data[48], data[49], data[50], data[51]),
        app_info_id: spec_u32_from_be(data[52], data[53], data[54], data[55]),
        sort_info_id: spec_u32_from_be(data[56], data[57], data[58], data[59]),
        type_: data.subrange(60, 64),
        creator: data.subrange(64, 68),
        unique_id_seed: spec_u32_from_be(data[68], data[69], data[70], data[71]),
        next_record_list_id: spec_u32_from_be(data[72], data[73], data[74], data[75]),
        number_of_records: spec_u16_from_be(data[76], data[77]),
    }
}

impl PDBHeader {
    /// Serializes the header to its 78 wire bytes.
    ///
    /// Fails exactly when one of the three timestamps has no Palm
    /// representation.
    pub fn to_bytes(&self) -> (r: Result<Vec<u8>, PDBError>)
        requires
            wf_header(self@),
        ensures
            header_times_encodable(self@) <==> r is Ok,
            r matches Ok(b) ==> b@ == spec_header_bytes(self@) && b@.len() == 78,
            r matches Err(e) ==> e == PDBError::TimestampOutOfRange,
    {
        let ct: u32 = match to_palm_timestamp(self.creation_time) {
            Ok(v) => v,
            Err(e) => {
                return Err(e);
            },
        };
        let mt: u32 = match to_palm_timestamp(self.modification_time) {
            Ok(v) => v,
            Err(e) => {
                return Err(e);
            },
        };
        let bt: u32 = match to_palm_timestamp(self.last_backup_date) {
            Ok(v) => v,
            Err(e) => {
                return Err(e);
            },
        };
        let mut out: Vec<u8> = Vec::new();
        push_bytes(&mut out, self.name.as_slice());
        push_zeros(&mut out, 32 - self.name.len());
        proof {
            assert(out@ =~= spec_name_field(self@.name));
        }
        push_u16_be(&mut out, self.attributes);
        push_u16_be(&mut out, self.version);
        push_u32_be(&mut out, ct);
        push_u32_be(&mut out, mt);
        push_u32_be(&mut out, bt);
        push_u32_be(&mut out, self.modification_number);
        push_u32_be(&mut out, self.app_info_id);
        push_u32_be(&mut out, self.sort_info_id);
        push_bytes(&mut out, self.type_.as_slice());
        push_bytes(&mut out, self.creator.as_slice());
        push_u32_be(&mut out, self.unique_id_seed);
        push_u32_be(&mut out, self.next_record_list_id);
        push_u16_be(&mut out, self.number_of_records);
        proof {
            lemma_header_bytes_len(self@);
        }
        Ok(out)
    }

    /// Parses the 78-byte header at the front of `data`.
    ///
    /// Fails exactly when fewer than 78 bytes are given.
    pub fn from_bytes(data: &[u8]) -> (r: Result<PDBHeader, PDBError>)
        ensures
            data@.len() >= 78 <==> r is Ok,
            r matches Ok(h) ==> h@ == spec_parse_header(data@),
            r matches Err(e) ==> e == PDBError::MalformedContainer,
    {
        if data.len() < 78 {
            return Err(PDBError::MalformedContainer);
        }
        let mut name: Vec<u8> = copy_range(data, 0, 32);
        while name.len() > 0 && name[name.len() - 1] == 0
            invariant
                spec_trim_zeros(name@) == spec_trim_zeros(data@.subrange(0, 32)),
            decreases name@.len(),
        {
            name.pop();
        }
        proof {
            assert(spec_trim_zeros(name@) == name@);
        }
        let header = PDBHeader {
            name,
            attributes: read_u16_be(data, 32),
            version: read_u16_be(data, 34),
            creation_time: from_palm_timestamp(read_u32_be(data, 36)),
            modification_time: from_palm_timestamp(read_u32_be(data, 40)),
            last_backup_date: from_palm_timestamp(read_u32_be(data, 44)),
            modification_number: read_u32_be(data, 48),
            app_info_id: read_u32_be(data, 52),
            sort_info_id: read_u32_be(data, 56),
            type_: copy_range(data, 60, 64),
            creator: copy_range(data, 64, 68),
            unique_id_seed: read_u32_be(data, 68),
            next_record_list_id: read_u32_be(data, 72),
            number_of_records: read_u16_be(data, 76),
        };
        Ok(header)
    }
}

/// One entry of the record index table: 8 bytes on the wire.
#[derive(Debug, Clone, Copy, PartialEq, Eq, Structural)]
pub struct PDBRecord {
    /// Byte offset of the record's blob in the encoded file. Entries
    /// held in memory carry no trusted offset; encoding recomputes every
    /// offset from the header size, the table size, and the blob
    /// lengths.
    pub data_offset: u32,
    /// First byte holds the record attributes, the low three bytes the
    /// record's unique id.
    pub attributes: u32,
}

/// The 8 bytes of a serialized record entry.
pub open spec fn spec_entry_bytes(data_offset: u32, attributes: u32) -> Seq<u8> {
    spec_u32_be(data_offset) + spec_u32_be(attributes)
}

/// What parsing the 8-byte entry at offset `i` of `data` yields.
pub open spec fn spec_parse_entry(data: Seq<u8>, i: int) -> PDBRecord
    recommends
        0 <= i,
        i + 8 <= data.len(),
{
    PDBRecord {
        data_offset: spec_u32_from_be(data[i], data[i + 1], data[i + 2], data[i + 3]),
        attributes: spec_u32_from_be(data[i + 4], data[i + 5], data[i + 6], data[i + 7]),
    }
}

impl PDBRecord {
    /// Serializes the entry, writing `data_offset` as the offset: the
    /// offset held in memory is not trusted. Always exactly 8 bytes.
    pub fn to_bytes(&self, data_offset: u32) -> (r: Vec<u8>)
        ensures
            r@ == spec_entry_bytes(data_offset, self.attributes),
            r@.len() == 8,
    {
        let mut out: Vec<u8> = Vec::new();
        push_u32_be(&mut out, data_offset);
        push_u32_be(&mut out, self.attributes);
        proof {
            assert(out@ =~= spec_entry_bytes(data_offset, self.attributes));
        }
        out
    }

    /// Parses the 8-byte entry at the front of `data`, returning the
    /// entry together with its data offset.
    ///
    /// Fails exactly when fewer than 8 bytes are given.
    pub fn from_bytes(data: &[u8]) -> (r: Result<(PDBRecord, u32), PDBError>)
        ensures
            data@.len() >= 8 <==> r is Ok,
            r matches Ok(p) ==> p.0 == spec_parse_entry(data@, 0) && p.1 == p.0.data_offset,
            r matches Err(e) ==> e == PDBError::MalformedContainer,
    {
        if data.len() < 8 {
            return Err(PDBError::MalformedContainer);
        }
        let entry = PDBRecord {
            data_offset: read_u32_be(data, 0),
            attributes: read_u32_be(data, 4),
        };
        Ok((entry, entry.data_offset))
    }
}

/// The mathematical value of a [`PDB`].
pub ghost struct PDBV {
    pub header: PDBHeaderV,
    pub records: Seq<PDBRecord>,
    pub record_data: Seq<Seq<u8>>,
}

/// A Palm database: header, record index table, and one blob per record.
///
/// Built incrementally through [`PDB::add_record`]; all entry offsets are
/// recomputed authoritatively at [`PDB::to_bytes`] time, so offsets held
/// on in-memory entries are never trusted for writing.
#[derive(Debug, Clone)]
pub struct PDB {
    pub header: PDBHeader,
    pub records: Vec<PDBRecord>,
    pub record_data: Vec<Vec<u8>>,
}

impl View for PDB {
    type V = PDBV;

    open spec fn view(&self) -> PDBV {
        PDBV {
            header: self.header@,
            records: self.records@,
            record_data: Seq::new(self.record_data@.len(), |i: int| self.record_data@[i]@),
        }
    }
}

/// Consistency of a PDB value: well-formed header whose record count
/// matches the entry and blob sequences.
pub open spec fn wf_pdb(p: PDBV) -> bool {
    &&& wf_header(p.header)
    &&& p.header.number_of_records == p.records.len()
    &&& p.records.len() == p.record_data.len()
}

/// Total length of the first `i` blobs.
pub open spec fn spec_prefix_data_len(blobs: Seq<Seq<u8>>, i: int) -> int
    decreases i,
{
    if i <= 0 {
        0
    } else {
        spec_prefix_data_len(blobs, i - 1) + blobs[i - 1].len()
    }
}

/// The recomputed offset of record `i` in the encoded file: header,
/// table, and every preceding blob.
pub open spec fn spec_entry_offset(p: PDBV, i: int) -> int {
    78 + 8 * p.records.len() + spec_prefix_data_len(p.record_data, i)
}

/// The length of the encoded file.
pub open spec fn spec_total_len(p: PDBV) -> int {
    spec_entry_offset(p, p.record_data.len() as int)
}

/// The first `i` entries of the record index table, with recomputed
/// offsets.
pub open spec fn spec_table_bytes(p: PDBV, i: int) -> Seq<u8>
    decreases i,
{
    if i <= 0 {
        Seq::empty()
    } else {
        spec_table_bytes(p, i - 1) + spec_entry_bytes(
            spec_entry_offset(p, i - 1) as u32,
            p.records[i - 1].attributes,
        )
    }
}

/// The first `i` blobs, concatenated.
pub open spec fn spec_blobs_bytes(blobs: Seq<Seq<u8>>, i: int) -> Seq<u8>
    decreases i,
{
    if i <= 0 {
        Seq::empty()
    } else {
        spec_blobs_bytes(blobs, i - 1) + blobs[i - 1]
    }
}

/// The encoded file: header, record table, then the blobs in order.
pub open spec fn spec_pdb_bytes(p: PDBV) -> Seq<u8> {
    spec_header_bytes(p.header) + spec_table_bytes(p, p.records.len() as int) + spec_blobs_bytes(
        p.record_data,
        p.record_data.len() as int,
    )
}

proof fn lemma_table_len(p: PDBV, i: int)
    requires
        0 <= i,
    ensures
        spec_table_bytes(p, i).len() == 8 * i,
    decreases i,
{
    if i > 0 {
        lemma_table_len(p, i - 1);
    }
}

proof fn lemma_blobs_len(blobs: Seq<Seq<u8>>, i: int)
    requires
        0 <= i,
    ensures
        spec_blobs_bytes(blobs, i).len() == spec_prefix_data_len(blobs, i),
    decreases i,
{
    if i > 0 {
        lemma_blobs_len(blobs, i - 1);
    }
}

pub proof fn lemma_prefix_mono(blobs: Seq<Seq<u8>>, i: int, j: int)
    requires
        0 <= i <= j,
    ensures
        spec_prefix_data_len(blobs, i) <= spec_prefix_data_len(blobs, j),
    decreases j,
{
    if i < j {
        lemma_prefix_mono(blobs, i, j - 1);
    }
}

/// The encoded file's length is the header, the table, and all blobs.
pub proof fn lemma_pdb_bytes_len(p: PDBV)
    requires
        wf_pdb(p),
    ensures
        spec_pdb_bytes(p).len() == spec_total_len(p),
{
    lemma_header_bytes_len(p.header);
    lemma_table_len(p, p.records.len() as int);
    lemma_blobs_len(p.record_data, p.record_data.len() as int);
}

impl PDB {
    /// A database with the given header and no records.
    pub fn new(header: PDBHeader) -> (r: PDB)
        ensures
            r@.header == header@,
            r@.records == Seq::<PDBRecord>::empty(),
            r@.record_data == Seq::<Seq<u8>>::empty(),
    {
        let r = PDB { header, records: Vec::new(), record_data: Vec::new() };
        proof {
            assert(r@.record_data =~= Seq::<Seq<u8>>::empty());
        }
        r
    }

    /// A verified deep copy: the copy's value equals the original's.
    pub fn duplicate(&self) -> (r: PDB)
        ensures
            r@ == self@,
    {
        let header = PDBHeader {
            name: copy_bytes(self.header.name.as_slice()),
            attributes: self.header.attributes,
            version: self.header.version,
            creation_time: self.header.creation_time,
            modification_time: self.header.modification_time,
            last_backup_date: self.header.last_backup_date,
            modification_number: self.header.modification_number,
            app_info_id: self.header.app_info_id,
            sort_info_id: self.header.sort_info_id,
            type_: copy_bytes(self.header.type_.as_slice()),
            creator: copy_bytes(self.header.creator.as_slice()),
            unique_id_seed: self.header.unique_id_seed,
            next_record_list_id: self.header.next_record_list_id,
            number_of_records: self.header.number_of_records,
        };
        let mut records: Vec<PDBRecord> = Vec::new();
        let mut i: usize = 0;
        while i < self.records.len()
            invariant
                i <= self.records@.len(),
                records@ == self.records@.subrange(0, i as int),
            decreases self.records@.len() - i,
        {
            records.push(self.records[i]);
            i = i + 1;
            proof {
                assert(records@ =~= self.records@.subrange(0, i as int));
            }
        }
        let mut record_data: Vec<Vec<u8>> = Vec::new();
        let mut j: usize = 0;
        while j < self.record_data.len()
            invariant
                j <= self.record_data@.len(),
                record_data@.len() == j,
                forall|k: int|
                    0 <= k < j ==> (#[trigger] record_data@[k])@ == self.record_data@[k]@,
            decreases self.record_data@.len() - j,
        {
            record_data.push(copy_bytes(self.record_data[j].as_slice()));
            j = j + 1;
        }
        let r = PDB { header, records, record_data };
        proof {
            assert(r@.records =~= self@.records);
            assert(r@.record_data =~= self@.record_data);
        }
        r
    }

    /// A copy of record `index`'s blob, or nothing past the last record.
    pub fn read_record(&self, index: u16) -> (r: Option<Vec<u8>>)
        ensures
            (index as int) < self@.record_data.len() <==> r is Some,
            r matches Some(b) ==> b@ == self@.record_data[index as int],
    {
        if (index as usize) < self.record_data.len() {
            Some(copy_bytes(self.record_data[index as usize].as_slice()))
        } else {
            None
        }
    }

    /// Appends a blob as a new record: the record takes the current
    /// unique id seed as its id, the seed advances by 2 and the record
    /// count by 1, and the new record's 0-based index is returned. The
    /// entry's offset is left for encoding to compute.
    pub fn add_record(&mut self, data: Vec<u8>) -> (idx: u16)
        requires
            old(self)@.header.number_of_records < 0xFFFF,
            old(self)@.header.unique_id_seed + 2 <= u32::MAX,
        ensures
            final(self)@.header == (PDBHeaderV {
                unique_id_seed: (old(self)@.header.unique_id_seed + 2) as u32,
                number_of_records: (old(self)@.header.number_of_records + 1) as u16,
                ..old(self)@.header
            }),
            final(self)@.records == old(self)@.records.push(
                PDBRecord { data_offset: 0, attributes: old(self)@.header.unique_id_seed },
            ),
            final(self)@.record_data == old(self)@.record_data.push(data@),
            idx == old(self)@.header.number_of_records,
    {
        let id: u32 = self.header.unique_id_seed;
        self.records.push(PDBRecord { data_offset: 0, attributes: id });
        self.record_data.push(data);
        self.header.unique_id_seed = self.header.unique_id_seed + 2;
        self.header.number_of_records = self.header.number_of_records + 1;
        proof {
            assert(self@.record_data =~= old(self)@.record_data.push(self.record_data@.last()@));
        }
        self.header.number_of_records - 1
    }

    /// Encodes the database: header, then the record table with every
    /// offset recomputed from the header size, table size, and
    /// cumulative blob lengths, then the blobs in order.
    ///
    /// Fails exactly when a header timestamp has no Palm representation.
    pub fn to_bytes(&self) -> (r: Result<Vec<u8>, PDBError>)
        requires
            wf_pdb(self@),
            spec_total_len(self@) <= u32::MAX,
        ensures
            header_times_encodable(self@.header) <==> r is Ok,
            r matches Ok(b) ==> b@ == spec_pdb_bytes(self@) && b@.len() == spec_total_len(self@),
            r matches Err(e) ==> e == PDBError::TimestampOutOfRange,
    {
        let ghost pv = self@;
        let mut out: Vec<u8> = match self.header.to_bytes() {
            Ok(b) => b,
            Err(e) => {
                return Err(e);
            },
        };
        let n: usize = self.records.len();
        proof {
            lemma_prefix_mono(pv.record_data, 0, n as int);
        }
        let mut offset: u32 = 78 + 8 * (n as u32);
        let mut i: usize = 0;
        while i < n
            invariant
                i <= n,
                n == pv.records.len(),
                pv == self@,
                wf_pdb(pv),
                spec_total_len(pv) <= u32::MAX,
                offset == spec_entry_offset(pv, i as int),
                out@ == spec_header_bytes(pv.header) + spec_table_bytes(pv, i as int),
            decreases n - i,
        {
            proof {
                lemma_prefix_mono(pv.record_data, 0, i as int);
                lemma_prefix_mono(pv.record_data, i as int + 1, n as int);
            }
            let entry_bytes_vec = self.records[i].to_bytes(offset);
            push_bytes(&mut out, entry_bytes_vec.as_slice());
            let blob_len: usize = self.record_data[i].len();
            offset = offset + blob_len as u32;
            i = i + 1;
            proof {
                assert(spec_table_bytes(pv, i as int) == spec_table_bytes(pv, i as int - 1)
                    + spec_entry_bytes(
                    spec_entry_offset(pv, i as int - 1) as u32,
                    pv.records[i as int - 1].attributes,
                ));
            }
        }
        let mut j: usize = 0;
        let ghost table_done = out@;
        while j < n
            invariant
                j <= n,
                n == pv.record_data.len(),
                pv == self@,
                out@ == table_done + spec_blobs_bytes(pv.record_data, j as int),
                table_done == spec_header_bytes(pv.header) + spec_table_bytes(pv, n as int),
            decreases n - j,
        {
            push_bytes(&mut out, self.record_data[j].as_slice());
            j = j + 1;
            proof {
                assert(spec_blobs_bytes(pv.record_data, j as int) == spec_blobs_bytes(
                    pv.record_data,
                    j as int - 1,
                ) + pv.record_data[j as int - 1]);
                assert(out@ =~= table_done + spec_blobs_bytes(pv.record_data, j as int));
            }
        }
        proof {
            lemma_pdb_bytes_len(pv);
            assert(out@ =~= spec_pdb_bytes(pv));
        }
        Ok(out)
    }
}

/// The byte offset record `i`'s blob starts at, as the record table of
/// `data` declares it.
pub open spec fn spec_rec_start(data: Seq<u8>, i: int) -> int {
    spec_parse_entry(data, 78 + 8 * i).data_offset as int
}

/// The byte offset record `i`'s blob ends at: the next record's start,
/// or the end of the input for the last record.
pub open spec fn spec_rec_end(data: Seq<u8>, i: int, n: int) -> int {
    if i + 1 < n {
        spec_rec_start(data, i + 1)
    } else {
        data.len() as int
    }
}

/// True when `data` holds a decodable container: room for the header and
/// the declared record table, and no record range that runs backward or
/// past the end of the input.
pub open spec fn spec_container_valid(data: Seq<u8>) -> bool {
    &&& data.len() >= 78
    &&& {
        let n = spec_parse_header(data).number_of_records as int;
        &&& 78 + 8 * n <= data.len()
        &&& forall|i: int|
            0 <= i < n ==> #[trigger] spec_rec_start(data, i) <= spec_rec_end(data, i, n)
                <= data.len()
    }
}

/// Relates a decoded database to the bytes it came from.
pub open spec fn spec_parse_pdb(data: Seq<u8>, p: PDBV) -> bool {
    let n = spec_parse_header(data).number_of_records as int;
    &&& p.header == spec_parse_header(data)
    &&& p.records.len() == n
    &&& p.record_data.len() == n
    &&& forall|i: int| 0 <= i < n ==> #[trigger] p.records[i] == spec_parse_entry(data, 78 + 8 * i)
    &&& forall|i: int|
        0 <= i < n ==> #[trigger] p.record_data[i] == data.subrange(
            spec_rec_start(data, i),
            spec_rec_end(data, i, n),
        )
}

impl PDB {
    /// Decodes a container: header, record table, then each record's
    /// blob as the byte range from its declared offset to the next
    /// record's (or the end of the input for the last).
    ///
    /// Fails exactly when the input is shorter than the header, the
    /// declared record count implies a table larger than the input, or
    /// a record range runs backward or past the end of the input.
    pub fn from_bytes(data: &[u8]) -> (r: Result<PDB, PDBError>)
        ensures
            spec_container_valid(data@) <==> r is Ok,
            r matches Ok(p) ==> spec_parse_pdb(data@, p@),
            r matches Err(e) ==> e == PDBError::MalformedContainer,
    {
        let header = match PDBHeader::from_bytes(data) {
            Ok(h) => h,
            Err(e) => {
                return Err(e);
            },
        };
        let n: usize = header.number_of_records as usize;
        if 78 + 8 * n > data.len() {
            return Err(PDBError::MalformedContainer);
        }
        let mut records: Vec<PDBRecord> = Vec::new();
        let mut i: usize = 0;
        while i < n
            invariant
                i <= n,
                n == spec_parse_header(data@).number_of_records as int,
                78 + 8 * n <= data@.len(),
                records@.len() == i,
                forall|j: int|
                    0 <= j < i ==> #[trigger] records@[j] == spec_parse_entry(data@, 78 + 8 * j),
            decreases n - i,
        {
            let off: usize = 78 + 8 * i;
            let entry = PDBRecord {
                data_offset: read_u32_be(data, off),
                attributes: read_u32_be(data, off + 4),
            };
            records.push(entry);
            i = i + 1;
        }
        let mut record_data: Vec<Vec<u8>> = Vec::new();
        let mut k: usize = 0;
        while k < n
            invariant
                k <= n,
                n == spec_parse_header(data@).number_of_records as int,
                78 + 8 * n <= data@.len(),
                records@.len() == n,
                forall|j: int|
                    0 <= j < n ==> #[trigger] records@[j] == spec_parse_entry(data@, 78 + 8 * j),
                record_data@.len() == k,
                forall|j: int|
                    0 <= j < k ==> #[trigger] spec_rec_start(data@, j) <= spec_rec_end(data@, j, n as int)
                        <= data@.len(),
                forall|j: int|
                    0 <= j < k ==> (#[trigger] record_data@[j])@ == data@.subrange(
                        spec_rec_start(data@, j),
                        spec_rec_end(data@, j, n as int),
                    ),
            decreases n - k,
        {
            let start: usize = records[k].data_offset as usize;
            let end: usize = if k + 1 < n {
                records[k + 1].data_offset as usize
            } else {
                data.len()
            };
            if start > end || end > data.len() {
                proof {
                    assert(!(spec_rec_start(data@, k as int) <= spec_rec_end(data@, k as int, n as int)
                        <= data@.len()));
                }
                return Err(PDBError::MalformedContainer);
            }
            record_data.push(copy_range(data, start, end));
            k = k + 1;
        }
        let r = PDB { header, records, record_data };
        proof {
            assert(spec_parse_pdb(data@, r@));
        }
        Ok(r)
    }
}

proof fn lemma_table_slice(p: PDBV, i: int, m: int)
    requires
        0 <= i < m,
    ensures
        spec_table_bytes(p, m).subrange(8 * i, 8 * i + 8) == spec_entry_bytes(
            spec_entry_offset(p, i) as u32,
            p.records[i].attributes,
        ),
    decreases m,
{
    lemma_table_len(p, m - 1);
    if i == m - 1 {
        assert(spec_table_bytes(p, m).subrange(8 * i, 8 * i + 8) =~= spec_entry_bytes(
            spec_entry_offset(p, i) as u32,
            p.records[i].attributes,
        ));
    } else {
        lemma_table_slice(p, i, m - 1);
        assert(spec_table_bytes(p, m).subrange(8 * i, 8 * i + 8) =~= spec_table_bytes(
            p,
            m - 1,
        ).subrange(8 * i, 8 * i + 8));
    }
}

proof fn lemma_blobs_slice(blobs: Seq<Seq<u8>>, i: int, m: int)
    requires
        0 <= i < m,
    ensures
        spec_blobs_bytes(blobs, m).subrange(
            spec_prefix_data_len(blobs, i),
            spec_prefix_data_len(blobs, i) + blobs[i].len(),
        ) == blobs[i],
    decreases m,
{
    lemma_blobs_len(blobs, m - 1);
    lemma_prefix_mono(blobs, 0, i);
    if i == m - 1 {
        assert(spec_blobs_bytes(blobs, m).subrange(
            spec_prefix_data_len(blobs, i),
            spec_prefix_data_len(blobs, i) + blobs[i].len(),
        ) =~= blobs[i]);
    } else {
        lemma_blobs_slice(blobs, i, m - 1);
        lemma_prefix_mono(blobs, i + 1, m - 1);
        assert(spec_blobs_bytes(blobs, m).subrange(
            spec_prefix_data_len(blobs, i),
            spec_prefix_data_len(blobs, i) + blobs[i].len(),
        ) =~= spec_blobs_bytes(blobs, m - 1).subrange(
            spec_prefix_data_len(blobs, i),
            spec_prefix_data_len(blobs, i) + blobs[i].len(),
        ));
    }
}

proof fn lemma_trim_padded(name: Seq<u8>, k: int)
    requires
        0 <= k,
        name.len() == 0 || name.last() != 0,
    ensures
        spec_trim_zeros(name + spec_zeros(k)) == name,
    decreases k,
{
    if k == 0 {
        assert(name + spec_zeros(0) =~= name);
    } else {
        let s = name + spec_zeros(k);
        assert(s[s.len() - 1] == 0);
        assert(s.drop_last() =~= name + spec_zeros(k - 1));
        lemma_trim_padded(name, k - 1);
    }
}

proof fn lemma_pdb_roundtrip_header(p: PDBV)
    requires
        wf_pdb(p),
        header_times_encodable(p.header),
        p.header.name.len() == 0 || p.header.name.last() != 0,
    ensures
        spec_parse_header(spec_pdb_bytes(p)) == p.header,
{
    let data = spec_pdb_bytes(p);
    let h = p.header;
    let hb = spec_header_bytes(h);
    lemma_header_bytes_len(h);
    lemma_table_len(p, p.records.len() as int);
    lemma_blobs_len(p.record_data, p.record_data.len() as int);
    lemma_prefix_mono(p.record_data, 0, p.record_data.len() as int);
    assert forall|k: int| 0 <= k < 78 implies data[k] == hb[k] by {}
    assert(data.subrange(0, 32) =~= spec_name_field(h.name));
    lemma_trim_padded(h.name, 32 - h.name.len());
    assert(data.subrange(60, 64) =~= h.type_);
    assert(data.subrange(64, 68) =~= h.creator);
    crate::bytes::lemma_u16_be_round(h.attributes);
    crate::bytes::lemma_u16_be_round(h.version);
    crate::bytes::lemma_u16_be_round(h.number_of_records);
    crate::bytes::lemma_u32_be_round(spec_to_palm(h.creation_time));
    crate::bytes::lemma_u32_be_round(spec_to_palm(h.modification_time));
    crate::bytes::lemma_u32_be_round(spec_to_palm(h.last_backup_date));
    crate::bytes::lemma_u32_be_round(h.modification_number);
    crate::bytes::lemma_u32_be_round(h.app_info_id);
    crate::bytes::lemma_u32_be_round(h.sort_info_id);
    crate::bytes::lemma_u32_be_round(h.unique_id_seed);
    crate::bytes::lemma_u32_be_round(h.next_record_list_id);
    crate::timestamp::lemma_timestamp_round_trip(h.creation_time);
    crate::timestamp::lemma_timestamp_round_trip(h.modification_time);
    crate::timestamp::lemma_timestamp_round_trip(h.last_backup_date);
    assert(spec_parse_header(data).name == h.name);
}

proof fn lemma_pdb_roundtrip_entry(p: PDBV, i: int)
    requires
        wf_pdb(p),
        spec_total_len(p) <= u32::MAX,
        0 <= i < p.records.len(),
    ensures
        spec_parse_entry(spec_pdb_bytes(p), 78 + 8 * i) == (PDBRecord {
            data_offset: spec_entry_offset(p, i) as u32,
            attributes: p.records[i].attributes,
        }),
    decreases 0int,
{
    let data = spec_pdb_bytes(p);
    let n = p.records.len() as int;
    let tb = spec_table_bytes(p, n);
    let eb = spec_entry_bytes(spec_entry_offset(p, i) as u32, p.records[i].attributes);
    lemma_header_bytes_len(p.header);
    lemma_table_len(p, n);
    lemma_blobs_len(p.record_data, n);
    lemma_table_slice(p, i, n);
    assert forall|j: int| 0 <= j < 8 implies data[78 + 8 * i + j] == eb[j] by {
        assert(data[78 + 8 * i + j] == tb[8 * i + j]);
        assert(tb[8 * i + j] == tb.subrange(8 * i, 8 * i + 8)[j]);
    }
    assert(data[78 + 8 * i] == eb[0]);
    assert(data[78 + 8 * i + 1] == eb[1]);
    assert(data[78 + 8 * i + 2] == eb[2]);
    assert(data[78 + 8 * i + 3] == eb[3]);
    assert(data[78 + 8 * i + 4] == eb[4]);
    assert(data[78 + 8 * i + 5] == eb[5]);
    assert(data[78 + 8 * i + 6] == eb[6]);
    assert(data[78 + 8 * i + 7] == eb[7]);
    crate::bytes::lemma_u32_be_round(spec_entry_offset(p, i) as u32);
    crate::bytes::lemma_u32_be_round(p.records[i].attributes);
}

proof fn lemma_pdb_roundtrip_blob(p: PDBV, i: int)
    requires
        wf_pdb(p),
        0 <= i < p.records.len(),
    ensures
        spec_pdb_bytes(p).subrange(spec_entry_offset(p, i), spec_entry_offset(p, i + 1))
            == p.record_data[i],
{
    let data = spec_pdb_bytes(p);
    let n = p.records.len() as int;
    let bb = spec_blobs_bytes(p.record_data, n);
    let pre = spec_prefix_data_len(p.record_data, i);
    lemma_header_bytes_len(p.header);
    lemma_table_len(p, n);
    lemma_blobs_len(p.record_data, n);
    lemma_prefix_mono(p.record_data, 0, i);
    lemma_prefix_mono(p.record_data, i + 1, n);
    lemma_blobs_slice(p.record_data, i, n);
    assert(data.subrange(spec_entry_offset(p, i), spec_entry_offset(p, i + 1)) =~= bb.subrange(
        pre,
        pre + p.record_data[i].len(),
    ));
}

/// Round trip: decoding an encoded database yields the same header
/// fields and the same blobs; each entry keeps its id and attributes
/// while its offset is the recomputed one.
#[verifier::rlimit(60)]
pub proof fn lemma_pdb_round_trip(p: PDBV)
    requires
        wf_pdb(p),
        header_times_encodable(p.header),
        spec_total_len(p) <= u32::MAX,
        p.header.name.len() == 0 || p.header.name.last() != 0,
    ensures
        spec_container_valid(spec_pdb_bytes(p)),
        spec_parse_header(spec_pdb_bytes(p)) == p.header,
        forall|i: int|
            0 <= i < p.records.len() ==> #[trigger] spec_parse_entry(spec_pdb_bytes(p), 78 + 8 * i)
                == (PDBRecord {
                data_offset: spec_entry_offset(p, i) as u32,
                attributes: p.records[i].attributes,
            }),
        forall|i: int|
            0 <= i < p.records.len() ==> #[trigger] spec_pdb_bytes(p).subrange(
                spec_rec_start(spec_pdb_bytes(p), i),
                spec_rec_end(spec_pdb_bytes(p), i, p.records.len() as int),
            ) == p.record_data[i],
{
    let data = spec_pdb_bytes(p);
    let n = p.records.len() as int;
    lemma_pdb_bytes_len(p);
    lemma_pdb_roundtrip_header(p);
    assert forall|i: int| 0 <= i < n implies #[trigger] spec_parse_entry(data, 78 + 8 * i)
        == (PDBRecord {
        data_offset: spec_entry_offset(p, i) as u32,
        attributes: p.records[i].attributes,
    }) by {
        lemma_pdb_roundtrip_entry(p, i);
    }
    assert forall|i: int| 0 <= i < n implies 0 <= #[trigger] spec_entry_offset(p, i)
        && spec_entry_offset(p, i) <= spec_entry_offset(p, i + 1) && spec_entry_offset(p, i + 1)
        <= spec_total_len(p) by {
        lemma_prefix_mono(p.record_data, 0, i);
        lemma_prefix_mono(p.record_data, i + 1, n);
    }
    assert forall|i: int| 0 <= i < n implies #[trigger] spec_rec_start(data, i)
        == spec_entry_offset(p, i) && spec_rec_end(data, i, n) == spec_entry_offset(p, i + 1) by {
        assert(spec_rec_start(data, i) == spec_entry_offset(p, i));
        if i + 1 < n {
            assert(spec_rec_end(data, i, n) == spec_entry_offset(p, i + 1));
        } else {
            assert(data.len() == spec_entry_offset(p, n));
        }
    }
    lemma_prefix_mono(p.record_data, 0, n);
    assert(spec_parse_header(data).number_of_records as int == n);
    assert(78 + 8 * n <= data.len());
    assert(spec_container_valid(data));
    assert forall|i: int| 0 <= i < n implies #[trigger] data.subrange(
        spec_rec_start(data, i),
        spec_rec_end(data, i, n),
    ) == p.record_data[i] by {
        lemma_pdb_roundtrip_blob(p, i);
    }
}

proof fn lemma_prefix_strict_mono(blobs: Seq<Seq<u8>>, i: int, j: int)
    requires
        0 <= i < j <= blobs.len(),
        forall|k: int| 0 <= k < blobs.len() ==> (#[trigger] blobs[k]).len() > 0,
    ensures
        spec_prefix_data_len(blobs, i) < spec_prefix_data_len(blobs, j),
    decreases j,
{
    if i < j - 1 {
        lemma_prefix_strict_mono(blobs, i, j - 1);
    }
}

/// Offset monotonicity: in the encoded file of a database whose blobs
/// are all nonempty, the entry offsets strictly increase. (With an
/// empty blob the next entry reuses the same offset.)
pub proof fn lemma_offsets_strictly_increasing(p: PDBV)
    requires
        wf_pdb(p),
        forall|k: int| 0 <= k < p.record_data.len() ==> (#[trigger] p.record_data[k]).len() > 0,
    ensures
        forall|i: int, j: int|
            #![trigger spec_entry_offset(p, i), spec_entry_offset(p, j)]
            0 <= i < j <= p.records.len() ==> spec_entry_offset(p, i) < spec_entry_offset(p, j),
{
    assert forall|i: int, j: int|
        #![trigger spec_entry_offset(p, i), spec_entry_offset(p, j)]
        0 <= i < j <= p.records.len() implies spec_entry_offset(p, i) < spec_entry_offset(
        p,
        j,
    ) by {
        lemma_prefix_strict_mono(p.record_data, i, j);
    }
}

/// The last entry's offset plus its blob's length is exactly the
/// encoded file's length.
pub proof fn lemma_final_offset(p: PDBV)
    requires
        wf_pdb(p),
        p.records.len() > 0,
    ensures
        spec_entry_offset(p, p.records.len() - 1) + p.record_data[p.records.len() - 1].len()
            == spec_pdb_bytes(p).len(),
{
    lemma_pdb_bytes_len(p);
}

} // verus!
