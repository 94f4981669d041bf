use mobi::compression::palmdoc_decompress;
use mobi::error::PDBError;
use mobi::exth_header::EXTHHeader;
use mobi::mobi::{trailer_count, MOBI};
use mobi::mobi_header::MOBIHeader;
use mobi::mobi_writer::{eof, fcis, flis, MobiWriter};
use mobi::palmdoc_header::PalmDOCHeader;
use mobi::pdb::PDB;

#[test]
fn trailer_count_of_literal_flag_values() {
    assert_eq!(trailer_count(0), 0);
    assert_eq!(trailer_count(1), 0);
    assert_eq!(trailer_count(2), 1);
    assert_eq!(trailer_count(3), 1);
    assert_eq!(trailer_count(5), 1);
    assert_eq!(trailer_count(6), 2);
    assert_eq!(trailer_count(7), 2);
}

#[test]
fn palmdoc_header_round_trip() {
    let header = PalmDOCHeader {
        compression: 2,
        text_length: 123456,
        record_count: 31,
        record_size: 4096,
        encryption_type: 0,
    };
    let bytes = header.to_bytes();
    assert_eq!(bytes.len(), 16);
    let parsed = PalmDOCHeader::from_bytes(bytes.as_slice()).expect("header should parse");
    assert_eq!(parsed, header);
}

#[test]
fn mobi_header_round_trip() {
    let mut writer = MobiWriter::new(b"T".to_vec());
    writer.set_content(b"body".to_vec());
    let record0 = writer.generate_record0(0xDEADBEEF);
    // 16 sub-header bytes, 240 fixed header bytes, the 1-byte name,
    // and 3 bytes of padding to the next 4-byte boundary.
    assert_eq!(record0.len(), 16 + 240 + 1 + 3);
    let header = MOBIHeader::from_bytes(&record0[16..]).expect("MOBI header should parse");
    assert_eq!(header.identifier.as_slice(), b"MOBI");
    assert_eq!(header.unique_id, 0xDEADBEEF);
    let rebuilt = header.to_bytes();
    assert_eq!(rebuilt.len(), 232);
    let reparsed = MOBIHeader::from_bytes(rebuilt.as_slice()).expect("should reparse");
    assert_eq!(reparsed.unique_id, header.unique_id);
    assert_eq!(reparsed.first_non_book_index, header.first_non_book_index);
    assert_eq!(reparsed.extra_record_data_flags, header.extra_record_data_flags);
}

#[test]
fn fixed_trailer_records() {
    assert_eq!(flis().len(), 36);
    assert_eq!(&flis()[0..4], b"FLIS");
    assert_eq!(fcis(42).len(), 48);
    assert_eq!(&fcis(42)[0..4], b"FCIS");
    assert_eq!(eof().as_slice(), &[0xE9, 0x8E, 0x0D, 0x0A]);
}

#[test]
fn writer_scenario_one_text_record_two_images() {
    let mut writer = MobiWriter::new(b"T".to_vec());
    writer.set_content(b"<html><body>short content</body></html>".to_vec());
    writer.add_image(vec![1, 2, 3]);
    writer.add_image(vec![4, 5, 6, 7]);
    let bytes = writer.to_bytes().expect("writer should encode");

    let pdb = PDB::from_bytes(bytes.as_slice()).expect("output should decode");
    // Record 0 plus 1 text record, 2 images, FLIS, FCIS, EOF.
    assert_eq!(pdb.header.number_of_records, 7);
    assert_eq!(pdb.header.type_.as_slice(), b"BOOK");
    assert_eq!(pdb.header.creator.as_slice(), b"MOBI");

    let record0 = pdb.read_record(0).expect("record 0 exists");
    let palmdoc = PalmDOCHeader::from_bytes(record0.as_slice()).expect("sub-header parses");
    assert_eq!(palmdoc.compression, 1);
    assert_eq!(palmdoc.record_count, 1);
    assert_eq!(palmdoc.record_size, 4096);

    let header = MOBIHeader::from_bytes(&record0[16..]).expect("MOBI header parses");
    assert_eq!(header.first_non_book_index, 2);
    assert_eq!(header.first_content_record_number, 1);
    assert_eq!(header.last_content_record_number, 3);
    assert_eq!(header.fcis_record_number, 4);
    assert_eq!(header.flis_record_number, 5);

    assert_eq!(
        pdb.read_record(1).expect("text record").as_slice(),
        b"<html><body>short content</body></html>"
    );
    assert_eq!(pdb.read_record(2).expect("first image").as_slice(), &[1, 2, 3]);
    assert_eq!(pdb.read_record(3).expect("second image").as_slice(), &[4, 5, 6, 7]);
    assert_eq!(&pdb.read_record(4).expect("FLIS")[0..4], b"FLIS");
    assert_eq!(&pdb.read_record(5).expect("FCIS")[0..4], b"FCIS");
    assert_eq!(pdb.read_record(6).expect("EOF").as_slice(), &[0xE9, 0x8E, 0x0D, 0x0A]);
}

#[test]
fn writer_splits_long_content_into_records() {
    let mut writer = MobiWriter::new(b"Long".to_vec());
    let mut content = Vec::new();
    for i in 0..5000u32 {
        content.push((i % 251) as u8);
    }
    writer.set_content(content.clone());
    assert_eq!(writer.text_record_count(), 2);
    let records = writer.generate_text_records();
    assert_eq!(records.len(), 2);
    assert_eq!(records[0].len(), 4096);
    assert_eq!(records[1].len(), 5000 - 4096);
    assert_eq!(records[0].as_slice(), &content[..4096]);
    assert_eq!(records[1].as_slice(), &content[4096..]);
}

#[test]
fn mobi_write_then_open_round_trip() {
    let mut book = MOBI::new(b"Round Trip".to_vec());
    let content = b"Hello, world. Hello, world. Hello, world.".to_vec();
    book.set_content(content.clone());
    let bytes = book.to_bytes().expect("book should encode");

    let opened = MOBI::from_bytes(bytes.as_slice()).expect("book should open");
    assert_eq!(opened.palmdoc_header.compression, 2);
    assert_eq!(opened.palmdoc_header.text_length, content.len() as u32);
    assert_eq!(opened.palmdoc_header.record_count, 1);
    assert_eq!(opened.pdb.header.name.as_slice(), b"Round Trip");
    assert_eq!(opened.trailers, 0);
    assert!(!opened.multibyte);

    let text = opened.read_record(1).expect("text record exists");
    assert_eq!(palmdoc_decompress(text.as_slice()), content);
}

#[test]
fn mobi_trailer_stripping_order() {
    let mut book = MOBI::new(b"Trailers".to_vec());
    book.set_content(b"payload text".to_vec());
    let bytes = book.to_bytes().expect("book should encode");
    let mut opened = MOBI::from_bytes(bytes.as_slice()).expect("book should open");

    // One trailing section of two bytes, declared by the backward
    // variable-length quantity in the record's last bytes.
    opened.pdb.record_data[1] = vec![10, 20, 30, 0, 0, 0, 2];
    opened.trailers = 1;
    opened.multibyte = false;
    assert_eq!(opened.read_record(1).expect("trimmed").as_slice(), &[10, 20, 30, 0, 0]);

    // The multibyte count alone: the final byte's low two bits plus one.
    opened.pdb.record_data[1] = vec![10, 20, 30, 1];
    opened.trailers = 0;
    opened.multibyte = true;
    assert_eq!(opened.read_record(1).expect("trimmed").as_slice(), &[10, 20]);

    // Both: the generic trailer is stripped first, the multibyte count
    // after it, from what remains.
    opened.pdb.record_data[1] = vec![10, 20, 30, 65, 0, 0, 0, 3];
    opened.trailers = 1;
    opened.multibyte = true;
    assert_eq!(opened.read_record(1).expect("trimmed").as_slice(), &[10, 20, 30, 65]);

    // A declared length past the record's start is an error.
    opened.pdb.record_data[1] = vec![0, 0, 0, 99];
    opened.trailers = 1;
    opened.multibyte = false;
    assert_eq!(opened.read_record(1), Err(PDBError::MalformedContainer));
}

#[test]
fn mobi_read_record_out_of_range() {
    let mut book = MOBI::new(b"Bounds".to_vec());
    book.set_content(b"x".to_vec());
    let bytes = book.to_bytes().expect("book should encode");
    let opened = MOBI::from_bytes(bytes.as_slice()).expect("book should open");
    assert_eq!(opened.read_record(100), Err(PDBError::TruncatedRecord));
}

#[test]
fn mobi_from_bytes_rejects_unsupported_compression() {
    let mut book = MOBI::new(b"Huff".to_vec());
    book.palmdoc_header.compression = 17480;
    book.set_content(b"x".to_vec());
    let bytes = book.to_bytes().expect("book should encode");
    assert!(matches!(MOBI::from_bytes(bytes.as_slice()), Err(PDBError::UnsupportedCompression)));
}

#[test]
fn mobi_from_bytes_rejects_empty_container() {
    let pdb = PDB::from_bytes(&[]).err().expect("short input fails");
    assert_eq!(pdb, PDBError::MalformedContainer);
    let empty = mobi::builder::PDBBuilder::new()
        .name(b"none".to_vec())
        .type_(b"BOOK".to_vec())
        .creator(b"MOBI".to_vec())
        .build()
        .expect("builds");
    let bytes = empty.to_bytes().expect("encodes");
    assert!(matches!(MOBI::from_bytes(bytes.as_slice()), Err(PDBError::TruncatedRecord)));
}

#[test]
fn exth_header_parses_and_validates() {
    let mut data = Vec::new();
    data.extend_from_slice(b"EXTH");
    data.extend_from_slice(&24u32.to_be_bytes());
    data.extend_from_slice(&1u32.to_be_bytes());
    // One entry: type 100, length 12, four payload bytes.
    data.extend_from_slice(&100u32.to_be_bytes());
    data.extend_from_slice(&12u32.to_be_bytes());
    data.extend_from_slice(b"auth");
    let parsed = EXTHHeader::from_bytes(data.as_slice()).expect("EXTH should parse");
    assert_eq!(parsed.header_length, 24);
    assert_eq!(parsed.record_count, 1);

    let mut bad_magic = data.clone();
    bad_magic[0] = b'X';
    assert_eq!(EXTHHeader::from_bytes(bad_magic.as_slice()), Err(PDBError::MalformedContainer));

    let mut short_entry = data.clone();
    short_entry[12 + 7] = 4;
    assert_eq!(EXTHHeader::from_bytes(short_entry.as_slice()), Err(PDBError::MalformedContainer));
}

#[test]
fn mobi_new_defaults() {
    let book = MOBI::new(b"A name well over thirty-one bytes long".to_vec());
    assert_eq!(book.palmdoc_header.compression, 2);
    assert_eq!(book.palmdoc_header.record_size, 4096);
    assert_eq!(book.header.text_encoding, 65001);
    assert_eq!(book.header.file_version, 6);
    assert_eq!(book.header.orthographic_index, 0xFFFFFFFF);
    assert_eq!(book.pdb.header.name.len(), 31);
    assert_eq!(book.pdb.header.type_.as_slice(), b"BOOK");
    assert_eq!(book.pdb.header.creator.as_slice(), b"MOBI");
}
