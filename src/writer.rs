//! The writer's side: which bytes go out, in which order, and what the
//! archive is named once they have all gone through the hashing sink.
//! The caller moves the bytes; every byte it writes passes through here.
use crate::archive::{archive_bytes, entries_bytes, entry_bytes, EntryModel};
use crate::digest::{hex_text, md5_digest, patch_file_name, patch_suffix, HashingWriter};
use crate::entry::{descriptor_bytes, encode_entry, NAME_FIELD_LEN};
use crate::error::PatchError;
use crate::header::{encode_header, header_bytes, HARDWARE_NAME_LEN};
use crate::text::{base_name, path_file_name};
use vstd::prelude::*;
use vstd::string::StringSliceAdditionalSpecFns;
use vstd::utf8::encode_utf8;

verus! {

/// An archive being written: the header has gone out, then every entry
/// begun so far; the last one may still owe content.
pub struct PatchWriter<W> {
    pub sink: HashingWriter<W>,
    /// The section count written in the header.
    pub declared: u32,
    /// How many entries have been begun.
    pub written: u32,
    /// Whether an entry has been begun.
    pub in_entry: bool,
    /// The content bytes that the current entry still owes.
    pub pending: u32,
    pub hardware_name: Ghost<Seq<char>>,
    /// The entries finished before the current one.
    pub done: Ghost<Seq<EntryModel>>,
    /// The current entry's name, declared length and content so far.
    pub current: Ghost<(Seq<char>, u32, Seq<u8>)>,
}

impl<W> PatchWriter<W> {
    /// The bytes of the current entry that have gone out.
    pub open spec fn current_bytes(&self) -> Seq<u8> {
        if self.in_entry {
            descriptor_bytes(encode_utf8(self.current@.0), self.current@.1) + self.current@.2
        } else {
            Seq::empty()
        }
    }

    /// Every entry begun, the current one with the content it has so far.
    pub open spec fn entries(&self) -> Seq<EntryModel> {
        if self.in_entry {
            self.done@.push((self.current@.0, self.current@.2))
        } else {
            self.done@
        }
    }

    pub open spec fn wf(&self) -> bool {
        &&& self.sink.hashed() == header_bytes(encode_utf8(self.hardware_name@), self.declared)
            + entries_bytes(self.done@) + self.current_bytes()
        &&& self.written as int == self.done@.len() + if self.in_entry { 1int } else { 0 }
        &&& self.written <= self.declared
        &&& self.in_entry ==> self.current@.2.len() + self.pending == self.current@.1
        &&& !self.in_entry ==> self.pending == 0
    }

    /// Whether every declared entry has been begun and has all its content.
    pub open spec fn complete(&self) -> bool {
        self.written == self.declared && self.pending == 0
    }

    /// Starts an archive for `hardware_name` that will hold `section_count`
    /// entries, over the writer `wtr`. Returns the header to write first.
    /// Fails with `NameTooLong` when the name takes more than 16 bytes.
    pub fn begin(wtr: W, hardware_name: &str, section_count: u32) -> (r: Result<(PatchWriter<W>, Vec<u8>), PatchError>)
        ensures
            r is Ok <==> hardware_name.spec_bytes().len() <= HARDWARE_NAME_LEN,
            r matches Ok((w, header)) ==> {
                &&& w.wf()
                &&& header@ == header_bytes(hardware_name.spec_bytes(), section_count)
                &&& w.sink.hashed() == header@
                &&& w.sink.underlying_writer == wtr
                &&& w.hardware_name@ == hardware_name@
                &&& w.declared == section_count
                &&& w.written == 0
                &&& w.entries() == Seq::<EntryModel>::empty()
            },
            r is Err ==> r == Err::<(PatchWriter<W>, Vec<u8>), PatchError>(PatchError::NameTooLong),
    {
        let header = match encode_header(hardware_name, section_count) {
            Ok(h) => h,
            Err(e) => {
                return Err(e);
            },
        };
        let mut sink = HashingWriter::new(wtr);
        sink.hash_input(header.as_slice());
        let w = PatchWriter {
            sink,
            declared: section_count,
            written: 0,
            in_entry: false,
            pending: 0,
            hardware_name: Ghost(hardware_name@),
            done: Ghost(Seq::empty()),
            current: Ghost((Seq::empty(), 0, Seq::empty())),
        };
        assert(w.sink.hashed() =~= header_bytes(encode_utf8(hardware_name@), section_count)
            + entries_bytes(w.done@) + w.current_bytes());
        Ok((w, header))
    }

    /// Begins the entry for the input file at `path`, of `size` bytes: it is
    /// named after the path's base name. Returns the descriptor to write; the
    /// file's `size` content bytes must follow through `write_content`.
    /// Fails with `InvalidPath` when the path has no base name and with
    /// `NameTooLong` when the base name takes 56 bytes or more; the writer
    /// then stays as it was.
    pub fn begin_entry(&mut self, path: &str, size: u32) -> (r: Result<Vec<u8>, PatchError>)
        requires
            old(self).wf(),
            old(self).pending == 0,
            old(self).written < old(self).declared,
        ensures
            final(self).wf(),
            r is Ok <==> (path_file_name(path@) is Some && encode_utf8(path_file_name(path@).unwrap()).len() < NAME_FIELD_LEN),
            r matches Ok(d) ==> {
                let name = path_file_name(path@).unwrap();
                &&& d@ == descriptor_bytes(encode_utf8(name), size)
                &&& final(self).sink.hashed() == old(self).sink.hashed() + d@
                &&& final(self).entries() == old(self).entries().push((name, Seq::<u8>::empty()))
                &&& final(self).written == old(self).written + 1
                &&& final(self).pending == size
            },
            r matches Err(e) ==> *final(self) == *old(self) && if path_file_name(path@) is None {
                e == PatchError::InvalidPath
            } else {
                e == PatchError::NameTooLong
            },
            final(self).sink.underlying_writer == old(self).sink.underlying_writer,
            final(self).declared == old(self).declared,
            final(self).hardware_name == old(self).hardware_name,
    {
        let name = match base_name(path) {
            Ok(n) => n,
            Err(e) => {
                return Err(e);
            },
        };
        let d = match encode_entry(name.as_str(), size) {
            Ok(d) => d,
            Err(e) => {
                return Err(e);
            },
        };
        let ghost old_hashed = self.sink.hashed();
        let ghost prev = self.entries();
        proof {
            if self.in_entry {
                let done = self.done@;
                let cur = (self.current@.0, self.current@.2);
                assert(self.current@.2.len() as u32 == self.current@.1);
                assert(done.push(cur).drop_last() =~= done);
                assert(entries_bytes(done.push(cur)) == entries_bytes(done) + entry_bytes(cur));
                self.done = Ghost(done.push(cur));
            }
        }
        self.in_entry = true;
        self.current = Ghost((name@, size, Seq::empty()));
        self.pending = size;
        self.written = self.written + 1;
        self.sink.hash_input(d.as_slice());
        assert(self.sink.hashed() =~= header_bytes(encode_utf8(self.hardware_name@), self.declared)
            + entries_bytes(self.done@) + self.current_bytes());
        assert(self.entries() =~= prev.push((name@, Seq::<u8>::empty())));
        Ok(d)
    }

    /// Records content bytes of the current entry, as they are written.
    pub fn write_content(&mut self, buf: &[u8])
        requires
            old(self).wf(),
            old(self).in_entry,
            buf@.len() <= old(self).pending,
        ensures
            final(self).wf(),
            final(self).sink.hashed() == old(self).sink.hashed() + buf@,
            final(self).entries() == old(self).entries().update(
                old(self).entries().len() - 1,
                (old(self).current@.0, old(self).current@.2 + buf@),
            ),
            final(self).pending == old(self).pending - buf@.len(),
            final(self).written == old(self).written,
            final(self).in_entry,
            final(self).sink.underlying_writer == old(self).sink.underlying_writer,
            final(self).declared == old(self).declared,
            final(self).hardware_name == old(self).hardware_name,
    {
        let ghost prev = self.entries();
        self.sink.hash_input(buf);
        self.pending = self.pending - buf.len() as u32;
        self.current = Ghost((self.current@.0, self.current@.1, self.current@.2 + buf@));
        assert(self.sink.hashed() =~= header_bytes(encode_utf8(self.hardware_name@), self.declared)
            + entries_bytes(self.done@) + self.current_bytes());
        assert(self.entries() =~= prev.update(prev.len() - 1, (self.current@.0, self.current@.2)));
    }

    /// Whether every declared entry has been begun and has all its content.
    pub fn is_complete(&self) -> (r: bool)
        ensures
            r == self.complete(),
    {
        self.written == self.declared && self.pending == 0
    }

    /// Ends a complete archive: its digest, its file name `<hex digest>.patch`
    /// and the underlying writer. The digest is that of exactly the archive
    /// that the header and entries make up.
    pub fn finish(self) -> (r: (Vec<u8>, String, W))
        requires
            self.wf(),
            self.complete(),
        ensures
            r.0@ == md5_digest(archive_bytes(self.hardware_name@, self.entries())),
            r.0@.len() == 16,
            r.1@ == hex_text(r.0@) + patch_suffix(),
            r.2 == self.sink.underlying_writer,
    {
        proof {
            lemma_hashed_is_archive(self);
        }
        let (digest, wtr) = self.sink.finish();
        let name = patch_file_name(digest.as_slice());
        (digest, name, wtr)
    }
}

/// Digest stability: two complete writers that were given the same hardware
/// name and the same entries, in the same order, have sent out the same bytes,
/// so their archives have the same digest and the same file name.
pub proof fn lemma_digest_stable<W1, W2>(a: PatchWriter<W1>, b: PatchWriter<W2>)
    requires
        a.wf(),
        a.complete(),
        b.wf(),
        b.complete(),
        a.hardware_name@ == b.hardware_name@,
        a.entries() == b.entries(),
    ensures
        a.sink.hashed() == b.sink.hashed(),
        md5_digest(a.sink.hashed()) == md5_digest(b.sink.hashed()),
{
    lemma_hashed_is_archive(a);
    lemma_hashed_is_archive(b);
}

/// What a complete writer has sent out is the archive of its entries.
pub proof fn lemma_hashed_is_archive<W>(w: PatchWriter<W>)
    requires
        w.wf(),
        w.complete(),
    ensures
        w.sink.hashed() == archive_bytes(w.hardware_name@, w.entries()),
{
    let es = w.entries();
    assert(es.len() == w.declared);
    if w.in_entry {
        let cur = (w.current@.0, w.current@.2);
        assert(w.current@.2.len() as u32 == w.current@.1);
        assert(w.done@.push(cur).drop_last() =~= w.done@);
    }
    assert(w.sink.hashed() =~= archive_bytes(w.hardware_name@, es));
}

} // verus!
