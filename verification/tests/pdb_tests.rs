use mobi::builder::PDBBuilder;
use mobi::error::{HeaderField, PDBError};
use mobi::pdb::{PDBHeader, PDBRecord, PDB};
use mobi::timestamp::Timestamp;

fn test_header(name: &[u8]) -> PDBHeader {
    PDBHeader {
        name: name.to_vec(),
        attributes: 0,
        version: 1,
        creation_time: Timestamp { seconds: 0 },
        modification_time: Timestamp { seconds: 0 },
        last_backup_date: Timestamp { seconds: 0 },
        modification_number: 0,
        app_info_id: 0,
        sort_info_id: 0,
        type_: b"TEST".to_vec(),
        creator: b"TEST".to_vec(),
        unique_id_seed: 1,
        next_record_list_id: 1,
        number_of_records: 0,
    }
}

#[test]
fn test_pdb_builder() {
    let pdb = PDBBuilder::new()
        .name(b"test".to_vec())
        .attributes(0)
        .version(0)
        .type_(b"BOOK".to_vec())
        .creator(b"MOBI".to_vec())
        .add_record(1, 0, b"Record 1 data")
        .add_record(2, 1, b"Record 2 data")
        .build()
        .expect("Failed to build PDB");

    assert_eq!(pdb.header.name.as_slice(), b"test");
    assert_eq!(pdb.records.len(), 2);
    assert_eq!(pdb.record_data.len(), 2);
    assert_eq!(pdb.record_data[0].as_slice(), b"Record 1 data");
    assert_eq!(pdb.record_data[1].as_slice(), b"Record 2 data");
}

#[test]
fn test_pdb_header_to_bytes() {
    let header = test_header(b"TestDB");
    let bytes = header.to_bytes().expect("Failed to convert header to bytes");
    assert_eq!(bytes.len(), 78, "PDB header must be exactly 78 bytes long");
}

#[test]
fn test_pdb_to_bytes() {
    let pdb = PDBBuilder::new()
        .name(b"TestDB".to_vec())
        .attributes(0)
        .version(1)
        .type_(b"TEST".to_vec())
        .creator(b"TEST".to_vec())
        .add_record(1, 0, b"Record 1 data")
        .add_record(2, 1, b"Record 2 data")
        .build()
        .expect("Failed to build PDB");
    _ = pdb.to_bytes().expect("Failed to convert PDB to bytes");
}

#[test]
fn pdb_scenario_two_records_total_size() {
    let pdb = PDBBuilder::new()
        .name(b"test".to_vec())
        .type_(b"BOOK".to_vec())
        .creator(b"MOBI".to_vec())
        .add_record(1, 0, b"Record 1 data")
        .add_record(2, 1, b"Record 2 data")
        .build()
        .expect("Failed to build PDB");
    assert_eq!(pdb.header.number_of_records, 2);
    let header_bytes = pdb.header.to_bytes().expect("header should encode");
    assert_eq!(header_bytes.len(), 78);
    let bytes = pdb.to_bytes().expect("PDB should encode");
    assert_eq!(bytes.len(), 78 + 16 + 13 + 13);
}

#[test]
fn pdb_record_entry_is_eight_bytes() {
    let entry = PDBRecord { data_offset: 0, attributes: 0x01020304 };
    let bytes = entry.to_bytes(0x12345678);
    assert_eq!(bytes.len(), 8);
    assert_eq!(bytes.as_slice(), &[0x12, 0x34, 0x56, 0x78, 0x01, 0x02, 0x03, 0x04]);
    let (parsed, offset) = PDBRecord::from_bytes(bytes.as_slice()).expect("entry should parse");
    assert_eq!(offset, 0x12345678);
    assert_eq!(parsed.data_offset, 0x12345678);
    assert_eq!(parsed.attributes, 0x01020304);
}

#[test]
fn pdb_round_trip_preserves_header_and_blobs() {
    let mut pdb = PDB::new(test_header(b"Round"));
    let first = pdb.add_record(b"alpha".to_vec());
    let second = pdb.add_record(b"bravo charlie".to_vec());
    assert_eq!(first, 0);
    assert_eq!(second, 1);
    assert_eq!(pdb.header.unique_id_seed, 5);

    let bytes = pdb.to_bytes().expect("PDB should encode");
    let decoded = PDB::from_bytes(bytes.as_slice()).expect("PDB should decode");

    assert_eq!(decoded.header.name, pdb.header.name);
    assert_eq!(decoded.header.attributes, pdb.header.attributes);
    assert_eq!(decoded.header.version, pdb.header.version);
    assert_eq!(decoded.header.creation_time, pdb.header.creation_time);
    assert_eq!(decoded.header.modification_time, pdb.header.modification_time);
    assert_eq!(decoded.header.last_backup_date, pdb.header.last_backup_date);
    assert_eq!(decoded.header.type_, pdb.header.type_);
    assert_eq!(decoded.header.creator, pdb.header.creator);
    assert_eq!(decoded.header.unique_id_seed, pdb.header.unique_id_seed);
    assert_eq!(decoded.header.number_of_records, 2);
    assert_eq!(decoded.record_data, pdb.record_data);
    assert_eq!(decoded.records[0].attributes, 1);
    assert_eq!(decoded.records[1].attributes, 3);
}

#[test]
fn pdb_encode_offsets_increase_and_cover_file() {
    let mut pdb = PDB::new(test_header(b"Offsets"));
    pdb.add_record(b"one".to_vec());
    pdb.add_record(b"two two".to_vec());
    pdb.add_record(b"three three three".to_vec());
    let bytes = pdb.to_bytes().expect("PDB should encode");
    let decoded = PDB::from_bytes(bytes.as_slice()).expect("PDB should decode");
    let offsets: Vec<u32> = decoded.records.iter().map(|r| r.data_offset).collect();
    assert_eq!(offsets[0], 78 + 3 * 8);
    assert!(offsets[0] < offsets[1] && offsets[1] < offsets[2]);
    assert_eq!(offsets[2] as usize + decoded.record_data[2].len(), bytes.len());
}

#[test]
fn pdb_from_bytes_rejects_short_input() {
    assert!(matches!(PDB::from_bytes(&[0u8; 10]), Err(PDBError::MalformedContainer)));
}

#[test]
fn pdb_from_bytes_rejects_oversized_record_table() {
    let header = test_header(b"Bad");
    let mut bytes = header.to_bytes().expect("header should encode");
    // Declare two records without providing a table for them.
    bytes[76] = 0;
    bytes[77] = 2;
    assert!(matches!(PDB::from_bytes(bytes.as_slice()), Err(PDBError::MalformedContainer)));
}

#[test]
fn pdb_from_bytes_rejects_backward_record_range() {
    let mut header = test_header(b"Bad");
    header.number_of_records = 1;
    let mut bytes = header.to_bytes().expect("header should encode");
    // One entry whose offset lies past the end of the input.
    bytes.extend_from_slice(&[0xFF, 0xFF, 0xFF, 0xFF, 0, 0, 0, 0]);
    assert!(matches!(PDB::from_bytes(bytes.as_slice()), Err(PDBError::MalformedContainer)));
}

#[test]
fn builder_reports_first_missing_field() {
    let missing_name = PDBBuilder::new().type_(b"BOOK".to_vec()).creator(b"MOBI".to_vec()).build();
    assert_eq!(missing_name.unwrap_err(), PDBError::MissingRequiredField(HeaderField::Name));

    let missing_type = PDBBuilder::new().name(b"x".to_vec()).creator(b"MOBI".to_vec()).build();
    assert_eq!(missing_type.unwrap_err(), PDBError::MissingRequiredField(HeaderField::TypeCode));

    let missing_creator = PDBBuilder::new().name(b"x".to_vec()).type_(b"BOOK".to_vec()).build();
    assert_eq!(missing_creator.unwrap_err(), PDBError::MissingRequiredField(HeaderField::Creator));
}

#[test]
fn parse_palm_timestamp_is_epoch_relative() {
    let t = mobi::pdb::parse_palm_timestamp(2082844800);
    assert_eq!(t, Timestamp { seconds: 0 });
}

#[test]
fn pdb_read_record_bounds() {
    let mut pdb = PDB::new(test_header(b"Read"));
    pdb.add_record(b"payload".to_vec());
    assert_eq!(pdb.read_record(0).expect("record 0 exists").as_slice(), b"payload");
    assert!(pdb.read_record(1).is_none());
}
