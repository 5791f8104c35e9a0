//! CRC-32 (IEEE 802.3, reflected polynomial `0xEDB88320`) computed with
//! slicing-by-4 and slicing-by-16 lookup tables, proved equal to the
//! bit-at-a-time definition of the checksum; the reading of SFV checksum
//! files; and the checksums of files as they are read chunk by chunk.

pub mod checksum;
pub mod file_hash;
pub mod model;
pub mod reader;
pub mod sfv;
pub mod slicing_proofs;
pub mod tables;

pub use checksum::{checksum_ieee_four_byte, checksum_ieee_sixteen_byte};
pub use file_hash::{FileHasher, CHUNK_SIZE};
pub use reader::checksum_ieee_sixteen_byte_iterator;
pub use sfv::{parse_sfv_line, PathHash, SfvLine};
