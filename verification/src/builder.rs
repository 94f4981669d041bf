//! Two-phase construction of a PDB: a mutable builder accumulates the
//! header fields and records, and `build` derives the finished database
//! in one step, so partially-built state is never observed by callers.

use crate::bytes::copy_bytes;
use crate::error::HeaderField;
use crate::error::PDBError;
use crate::pdb::PDBHeader;
use crate::pdb::PDBRecord;
use crate::pdb::PDB;
use crate::timestamp::now_timestamp;
use crate::timestamp::spec_from_palm;
use crate::timestamp::from_palm_timestamp;
use vstd::prelude::*;

verus! {

/// A record queued in the builder: unique id, attribute byte, and blob.
pub struct BuilderRecord {
    pub unique_id: u32,
    pub attributes: u8,
    pub data: Vec<u8>,
}

/// Accumulates the fields of a PDB before it is built.
pub struct PDBBuilder {
    name: Option<Vec<u8>>,
    attributes: u16,
    version: u16,
    type_: Option<Vec<u8>>,
    creator: Option<Vec<u8>>,
    records: Vec<BuilderRecord>,
}

/// The mathematical value of a [`PDBBuilder`].
pub ghost struct PDBBuilderV {
    pub name: Option<Seq<u8>>,
    pub attributes: u16,
    pub version: u16,
    pub type_: Option<Seq<u8>>,
    pub creator: Option<Seq<u8>>,
    pub rec_ids: Seq<u32>,
    pub rec_attrs: Seq<u8>,
    pub rec_data: Seq<Seq<u8>>,
}

impl View for PDBBuilder {
    type V = PDBBuilderV;

    closed spec fn view(&self) -> PDBBuilderV {
        PDBBuilderV {
            name: match self.name {
                Some(v) => Some(v@),
                None => None,
            },
            attributes: self.attributes,
            version: self.version,
            type_: match self.type_ {
                Some(v) => Some(v@),
                None => None,
            },
            creator: match self.creator {
                Some(v) => Some(v@),
                None => None,
            },
            rec_ids: Seq::new(self.records@.len(), |i: int| self.records@[i].unique_id),
            rec_attrs: Seq::new(self.records@.len(), |i: int| self.records@[i].attributes),
            rec_data: Seq::new(self.records@.len(), |i: int| self.records@[i].data@),
        }
    }
}

/// The id/attribute word of a record entry: the attribute byte in the
/// high byte, the low three bytes of the unique id below it.
pub open spec fn spec_entry_attributes(unique_id: u32, attributes: u8) -> u32 {
    ((attributes as u32) << 24) | (unique_id & 0xFFFFFF)
}

impl PDBBuilder {
    /// An empty builder: no name, type, or creator yet, no records.
    pub fn new() -> (r: PDBBuilder)
        ensures
            r@.name is None,
            r@.type_ is None,
            r@.creator is None,
            r@.attributes == 0,
            r@.version == 0,
            r@.rec_data == Seq::<Seq<u8>>::empty(),
            r@.rec_ids == Seq::<u32>::empty(),
            r@.rec_attrs == Seq::<u8>::empty(),
    {
        let r = PDBBuilder {
            name: None,
            attributes: 0,
            version: 0,
            type_: None,
            creator: None,
            records: Vec::new(),
        };
        proof {
            assert(r@.rec_data =~= Seq::<Seq<u8>>::empty());
            assert(r@.rec_ids =~= Seq::<u32>::empty());
            assert(r@.rec_attrs =~= Seq::<u8>::empty());
        }
        r
    }

    /// Sets the database name, at most 31 bytes.
    pub fn name(self, name: Vec<u8>) -> (r: PDBBuilder)
        requires
            name@.len() <= 31,
        ensures
            r@ == (PDBBuilderV { name: Some(name@), ..self@ }),
    {
        PDBBuilder { name: Some(name), ..self }
    }

    /// Sets the header attribute flags.
    pub fn attributes(self, attributes: u16) -> (r: PDBBuilder)
        ensures
            r@ == (PDBBuilderV { attributes, ..self@ }),
    {
        PDBBuilder { attributes, ..self }
    }

    /// Sets the header version.
    pub fn version(self, version: u16) -> (r: PDBBuilder)
        ensures
            r@ == (PDBBuilderV { version, ..self@ }),
    {
        PDBBuilder { version, ..self }
    }

    /// Sets the four-byte type code.
    pub fn type_(self, type_: Vec<u8>) -> (r: PDBBuilder)
        requires
            type_@.len() == 4,
        ensures
            r@ == (PDBBuilderV { type_: Some(type_@), ..self@ }),
    {
        PDBBuilder { type_: Some(type_), ..self }
    }

    /// Sets the four-byte creator code.
    pub fn creator(self, creator: Vec<u8>) -> (r: PDBBuilder)
        requires
            creator@.len() == 4,
        ensures
            r@ == (PDBBuilderV { creator: Some(creator@), ..self@ }),
    {
        PDBBuilder { creator: Some(creator), ..self }
    }

    /// Queues a record with its unique id and attribute byte.
    pub fn add_record(self, unique_id: u32, attributes: u8, data: &[u8]) -> (r: PDBBuilder)
        ensures
            r@.name == self@.name,
            r@.attributes == self@.attributes,
            r@.version == self@.version,
            r@.type_ == self@.type_,
            r@.creator == self@.creator,
            r@.rec_ids == self@.rec_ids.push(unique_id),
            r@.rec_attrs == self@.rec_attrs.push(attributes),
            r@.rec_data == self@.rec_data.push(data@),
    {
        let mut records = self.records;
        records.push(BuilderRecord { unique_id, attributes, data: copy_bytes(data) });
        let r = PDBBuilder { records, ..self };
        proof {
            assert(r@.rec_ids =~= self@.rec_ids.push(unique_id));
            assert(r@.rec_attrs =~= self@.rec_attrs.push(attributes));
            assert(r@.rec_data =~= self@.rec_data.push(data@));
        }
        r
    }

    /// Builds the database. The creation and modification times are
    /// taken from the clock; the last backup date is the Palm epoch.
    ///
    /// Fails exactly when the name, the type code, or the creator code
    /// was never set, naming the first one missing in that order.
    pub fn build(self) -> (r: Result<PDB, PDBError>)
        requires
            self@.rec_data.len() <= 0xFFFF,
        ensures
            (self@.name is Some && self@.type_ is Some && self@.creator is Some) <==> r is Ok,
            self@.name is None ==> r == Err::<PDB, PDBError>(
                PDBError::MissingRequiredField(HeaderField::Name),
            ),
            self@.name is Some && self@.type_ is None ==> r == Err::<PDB, PDBError>(
                PDBError::MissingRequiredField(HeaderField::TypeCode),
            ),
            self@.name is Some && self@.type_ is Some && self@.creator is None ==> r
                == Err::<PDB, PDBError>(PDBError::MissingRequiredField(HeaderField::Creator)),
            r matches Ok(p) ==> {
                &&& self@.name == Some(p@.header.name)
                &&& self@.type_ == Some(p@.header.type_)
                &&& self@.creator == Some(p@.header.creator)
                &&& p@.header.attributes == self@.attributes
                &&& p@.header.version == self@.version
                &&& p@.header.last_backup_date == spec_from_palm(0)
                &&& p@.header.modification_number == 0
                &&& p@.header.app_info_id == 0
                &&& p@.header.sort_info_id == 0
                &&& p@.header.unique_id_seed == 0
                &&& p@.header.next_record_list_id == 0
                &&& p@.header.number_of_records == self@.rec_data.len()
                &&& p@.records.len() == self@.rec_data.len()
                &&& forall|i: int|
                    0 <= i < self@.rec_data.len() ==> #[trigger] p@.records[i] == (PDBRecord {
                        data_offset: 0,
                        attributes: spec_entry_attributes(self@.rec_ids[i], self@.rec_attrs[i]),
                    })
                &&& p@.record_data == self@.rec_data
            },
    {
        let name = match self.name {
            Some(v) => v,
            None => {
                return Err(PDBError::MissingRequiredField(HeaderField::Name));
            },
        };
        let type_ = match self.type_ {
            Some(v) => v,
            None => {
                return Err(PDBError::MissingRequiredField(HeaderField::TypeCode));
            },
        };
        let creator = match self.creator {
            Some(v) => v,
            None => {
                return Err(PDBError::MissingRequiredField(HeaderField::Creator));
            },
        };
        let ghost bv = PDBBuilderV {
            rec_ids: Seq::new(self.records@.len(), |i: int| self.records@[i].unique_id),
            rec_attrs: Seq::new(self.records@.len(), |i: int| self.records@[i].attributes),
            rec_data: Seq::new(self.records@.len(), |i: int| self.records@[i].data@),
            name: Some(name@),
            type_: Some(type_@),
            creator: Some(creator@),
            attributes: self.attributes,
            version: self.version,
        };
        let n: usize = self.records.len();
        let header = PDBHeader {
            name,
            attributes: self.attributes,
            version: self.version,
            creation_time: now_timestamp(),
            modification_time: now_timestamp(),
            last_backup_date: from_palm_timestamp(0),
            modification_number: 0,
            app_info_id: 0,
            sort_info_id: 0,
            type_,
            creator,
            unique_id_seed: 0,
            next_record_list_id: 0,
            number_of_records: n as u16,
        };
        let mut records: Vec<PDBRecord> = Vec::new();
        let mut record_data: Vec<Vec<u8>> = Vec::new();
        let mut i: usize = 0;
        while i < n
            invariant
                i <= n,
                n == self.records@.len(),
                records@.len() == i,
                record_data@.len() == i,
                forall|j: int|
                    0 <= j < i ==> #[trigger] records@[j] == (PDBRecord {
                        data_offset: 0,
                        attributes: spec_entry_attributes(
                            self.records@[j].unique_id,
                            self.records@[j].attributes,
                        ),
                    }),
                forall|j: int| 0 <= j < i ==> (#[trigger] record_data@[j])@ == self.records@[j].data@,
            decreases n - i,
        {
            let rec = &self.records[i];
            let attrs: u32 = ((rec.attributes as u32) << 24) | (rec.unique_id & 0xFFFFFF);
            records.push(PDBRecord { data_offset: 0, attributes: attrs });
            record_data.push(copy_bytes(rec.data.as_slice()));
            i = i + 1;
        }
        let p = PDB { header, records, record_data };
        proof {
            assert(p@.record_data =~= bv.rec_data);
        }
        Ok(p)
    }
}

} // verus!
