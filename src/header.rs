//! The fixed 128-byte header at the start of every archive.
use crate::error::PatchError;
use crate::field::{from_le32, le32, padded, read_u32_le, write_string, write_u32_le, write_zeroes, zeros};
use vstd::prelude::*;
use vstd::string::StringSliceAdditionalSpecFns;

verus! {

/// Size of the header; the first entry starts here.
pub const HEADER_LEN: usize = 0x80;
/// Width of the NUL-padded hardware name field.
pub const HARDWARE_NAME_LEN: usize = 0x10;
/// Offset of the section count.
pub const SECTION_COUNT_OFFSET: usize = 0x18;
/// Format tag written at offset 0.
pub const FORMAT_TAG: u32 = 0x0a;
/// Vendor constant written after the hardware name.
pub const VENDOR_MAGIC: u32 = 0x1f4b59;

/// The header of an archive for hardware `hw` holding `count` entries.
pub open spec fn header_bytes(hw: Seq<u8>, count: u32) -> Seq<u8> {
    le32(FORMAT_TAG) + padded(hw, HARDWARE_NAME_LEN as nat) + le32(VENDOR_MAGIC) + le32(count)
        + zeros((HEADER_LEN - 0x1c) as nat)
}

/// Encodes the header for `hardware_name` and `section_count` entries.
/// Fails with `NameTooLong` when the name takes more than 16 bytes.
pub fn encode_header(hardware_name: &str, section_count: u32) -> (r: Result<Vec<u8>, PatchError>)
    ensures
        r is Ok <==> hardware_name.spec_bytes().len() <= HARDWARE_NAME_LEN,
        r matches Ok(v) ==> v@ == header_bytes(hardware_name.spec_bytes(), section_count),
        r is Err ==> r == Err::<Vec<u8>, PatchError>(PatchError::NameTooLong),
{
    let mut f: Vec<u8> = Vec::new();
    write_u32_le(&mut f, FORMAT_TAG);
    match write_string(&mut f, hardware_name, HARDWARE_NAME_LEN) {
        Ok(()) => {},
        Err(e) => {
            return Err(e);
        },
    }
    write_u32_le(&mut f, VENDOR_MAGIC);
    write_u32_le(&mut f, section_count);
    write_zeroes(&mut f, HEADER_LEN - 0x1c);
    assert(f@ =~= header_bytes(hardware_name.spec_bytes(), section_count));
    Ok(f)
}

/// Reads the section count from the start of an archive.
/// Fails with `IoError` when the data ends before the count does.
pub fn decode_header(header: &[u8]) -> (r: Result<u32, PatchError>)
    ensures
        r is Ok <==> header@.len() >= SECTION_COUNT_OFFSET + 4,
        r matches Ok(n) ==> n as int == from_le32(header@, SECTION_COUNT_OFFSET as int),
        r is Err ==> r == Err::<u32, PatchError>(PatchError::IoError),
{
    if header.len() < SECTION_COUNT_OFFSET + 4 {
        return Err(PatchError::IoError);
    }
    Ok(read_u32_le(header, SECTION_COUNT_OFFSET))
}

} // verus!
