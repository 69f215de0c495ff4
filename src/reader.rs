//! Sequential traversal of an archive as a cursor over absolute offsets.
//! The caller reads the header and each descriptor at the cursor's position;
//! content is never handed to the cursor, so it can be skipped by a seek.
use crate::entry::{decode_entry, descriptor_length, descriptor_name, classify, EntryInfo, DESCRIPTOR_LEN};
use crate::error::PatchError;
use crate::field::from_le32;
use crate::header::{decode_header, HEADER_LEN, SECTION_COUNT_OFFSET};
use vstd::prelude::*;
use vstd::utf8::{decode_utf8, valid_utf8};

verus! {

/// Where traversal stands: the offset of the next descriptor and how many
/// entries the header still declares.
#[derive(Debug, Clone, Copy, PartialEq, Eq, Structural)]
pub struct ArchiveCursor {
    pub position: u64,
    pub remaining: u32,
}

impl ArchiveCursor {
    /// Starts traversal from the archive's header bytes: the first entry
    /// is at offset 128, and the header declares how many follow.
    pub fn start(header: &[u8]) -> (r: Result<ArchiveCursor, PatchError>)
        ensures
            r is Ok <==> header@.len() >= SECTION_COUNT_OFFSET + 4,
            r matches Ok(c) ==> c.position == HEADER_LEN && c.remaining as int == from_le32(
                header@,
                SECTION_COUNT_OFFSET as int,
            ),
            r is Err ==> r == Err::<ArchiveCursor, PatchError>(PatchError::IoError),
    {
        match decode_header(header) {
            Ok(n) => Ok(ArchiveCursor { position: HEADER_LEN as u64, remaining: n }),
            Err(e) => Err(e),
        }
    }

    /// Whether every declared entry has been visited.
    pub fn is_done(&self) -> (r: bool)
        ensures
            r == (self.remaining == 0),
    {
        self.remaining == 0
    }

    /// Takes the descriptor read at `position` and moves past the entry's
    /// content. Fails as `decode_entry` does, and with `IoError` when the end
    /// of the content lies beyond the largest offset; the cursor then stays.
    pub fn next_entry(&mut self, descriptor: &[u8]) -> (r: Result<EntryInfo, PatchError>)
        requires
            old(self).remaining > 0,
        ensures
            r is Ok <==> descriptor@.len() >= DESCRIPTOR_LEN && valid_utf8(descriptor_name(descriptor@))
                && old(self).position + DESCRIPTOR_LEN + descriptor_length(descriptor@) <= u64::MAX,
            r matches Ok(e) ==> e.name@ == decode_utf8(descriptor_name(descriptor@))
                && e.length as int == descriptor_length(descriptor@)
                && e.category == classify(descriptor_name(descriptor@))
                && final(self).position == old(self).position + DESCRIPTOR_LEN + e.length
                && final(self).remaining == old(self).remaining - 1,
            r matches Err(e) ==> *final(self) == *old(self) && if descriptor@.len() < DESCRIPTOR_LEN {
                e == PatchError::IoError
            } else if !valid_utf8(descriptor_name(descriptor@)) {
                e == PatchError::InvalidEncoding
            } else {
                e == PatchError::IoError
            },
    {
        let info = match decode_entry(descriptor) {
            Ok(info) => info,
            Err(e) => {
                return Err(e);
            },
        };
        if self.position > u64::MAX - DESCRIPTOR_LEN as u64 - info.length as u64 {
            return Err(PatchError::IoError);
        }
        self.position = self.position + DESCRIPTOR_LEN as u64 + info.length as u64;
        self.remaining = self.remaining - 1;
        Ok(info)
    }
}

} // verus!
