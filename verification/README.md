# crc_fast

CRC-32 (IEEE 802.3, reflected polynomial `0xEDB88320`) with slicing-by-4 and
slicing-by-16 lookup tables, verified with Verus against the bit-at-a-time
definition of the checksum, plus the pieces of an SFV checker: reading the
lines of an SFV file and checksumming files chunk by chunk.

- `src/model.rs`: the register, its byte steps, `crc32_ieee`, and the laws
  (linearity, concatenation, resuming a checksum, the slicing identity).
- `src/tables.rs`: the lookup tables, built at run time and proved correct.
- `src/slicing_proofs.rs`: one slicing step equals feeding its bytes one by one.
- `src/checksum.rs`: `checksum_ieee_four_byte`, `checksum_ieee_sixteen_byte`.
- `src/reader.rs`: `checksum_ieee_sixteen_byte_iterator`, over a byte-slice reader.
- `src/file_hash.rs`: `FileHasher` ("sfv" through `crc32fast`, "sha256" through `sha2`).
- `src/sfv.rs`: `parse_sfv_line`, `PathHash`.
- `app/main.rs`: the command line program (arguments, logging, files, timing).
