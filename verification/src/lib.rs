//! Codecs for the Palm OS database container (PDB) and the MOBI e-book
//! format layered on top of it, including the PalmDOC text compression
//! scheme used inside MOBI content records.
//!
//! All codecs are pure transformations over in-memory byte buffers; callers
//! read a whole file into memory before decoding and write the returned
//! buffer to storage themselves.

pub mod builder;
pub mod bytes;
pub mod compression;
pub mod error;
pub mod exth_header;
pub mod mobi;
pub mod mobi_header;
pub mod mobi_writer;
pub mod palmdoc_header;
pub mod pdb;
pub mod timestamp;
