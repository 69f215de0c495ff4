//! The whole archive as bytes, and what traversal finds in it.
use crate::entry::{descriptor_bytes, descriptor_length, descriptor_name, DESCRIPTOR_LEN, NAME_FIELD_LEN};
use crate::field::{from_le32, le32, lemma_le32_round_trip, lemma_until_nul_padded, nul_free, padded};
use crate::header::{header_bytes, HARDWARE_NAME_LEN, HEADER_LEN, SECTION_COUNT_OFFSET};
use vstd::prelude::*;
use vstd::utf8::{decode_utf8, encode_utf8, encode_utf8_decode_utf8, encode_utf8_valid_utf8, valid_utf8};

verus! {

/// An entry as written: its name as text and its content.
pub type EntryModel = (Seq<char>, Seq<u8>);

/// The bytes of one entry: its descriptor, then its content.
pub open spec fn entry_bytes(e: EntryModel) -> Seq<u8> {
    descriptor_bytes(encode_utf8(e.0), e.1.len() as u32) + e.1
}

/// The entries stored back to back, in order.
pub open spec fn entries_bytes(es: Seq<EntryModel>) -> Seq<u8>
    decreases es.len(),
{
    if es.len() == 0 {
        Seq::empty()
    } else {
        entries_bytes(es.drop_last()) + entry_bytes(es.last())
    }
}

/// Total size of the entries: a descriptor and the content of each.
pub open spec fn entries_size(es: Seq<EntryModel>) -> int
    decreases es.len(),
{
    if es.len() == 0 {
        0
    } else {
        entries_size(es.drop_last()) + DESCRIPTOR_LEN + es.last().1.len()
    }
}

/// The archive for hardware `hw` holding `es`.
pub open spec fn archive_bytes(hw: Seq<char>, es: Seq<EntryModel>) -> Seq<u8> {
    header_bytes(encode_utf8(hw), es.len() as u32) + entries_bytes(es)
}

/// Entries that can be written and read back: names that fit their field
/// with room for the terminator and hold no NUL, contents whose length fits
/// the length field, and a count that fits the header.
pub open spec fn valid_entries(es: Seq<EntryModel>) -> bool {
    &&& es.len() <= u32::MAX
    &&& forall|i: int|
        0 <= i < es.len() ==> {
            &&& encode_utf8(#[trigger] es[i].0).len() < NAME_FIELD_LEN
            &&& nul_free(encode_utf8(es[i].0))
            &&& es[i].1.len() <= u32::MAX
        }
}

/// The offset of the `i`-th descriptor that traversal visits: the first
/// follows the header, each next one follows the previous entry's content
/// as its descriptor declares it.
pub open spec fn entry_offset(a: Seq<u8>, i: nat) -> int
    decreases i,
{
    if i == 0 {
        HEADER_LEN as int
    } else {
        let p = entry_offset(a, (i - 1) as nat);
        p + DESCRIPTOR_LEN + descriptor_length(a.subrange(p, p + DESCRIPTOR_LEN))
    }
}

proof fn lemma_valid_init(es: Seq<EntryModel>)
    requires
        valid_entries(es),
        es.len() > 0,
    ensures
        valid_entries(es.drop_last()),
{
    let init = es.drop_last();
    assert forall|j: int| 0 <= j < init.len() implies {
        &&& encode_utf8(#[trigger] init[j].0).len() < NAME_FIELD_LEN
        &&& nul_free(encode_utf8(init[j].0))
        &&& init[j].1.len() <= u32::MAX
    } by {
        assert(init[j] == es[j]);
    }
}

proof fn lemma_entries_len(es: Seq<EntryModel>)
    requires
        valid_entries(es),
    ensures
        entries_bytes(es).len() == entries_size(es),
        entries_size(es) >= 0,
    decreases es.len(),
{
    if es.len() > 0 {
        lemma_valid_init(es);
        lemma_entries_len(es.drop_last());
        lemma_descriptor_len(es.last());
    }
}

proof fn lemma_entries_layout(es: Seq<EntryModel>, i: int)
    requires
        valid_entries(es),
        0 <= i < es.len(),
    ensures
        entries_bytes(es).len() == entries_size(es),
        0 <= entries_size(es.take(i)),
        entries_size(es.take(i)) + DESCRIPTOR_LEN + es[i].1.len() <= entries_size(es),
        entries_bytes(es).subrange(
            entries_size(es.take(i)),
            entries_size(es.take(i)) + DESCRIPTOR_LEN + es[i].1.len(),
        ) == entry_bytes(es[i]),
    decreases es.len(),
{
    let n = es.len() - 1;
    let init = es.drop_last();
    lemma_valid_init(es);
    lemma_entries_len(es);
    lemma_entries_len(init);
    lemma_descriptor_len(es[n]);
    let e = entries_bytes(es);
    assert(e == entries_bytes(init) + entry_bytes(es[n]));
    if i == n {
        assert(es.take(i) =~= init);
        assert(e.subrange(entries_size(init), entries_size(init) + DESCRIPTOR_LEN + es[i].1.len())
            =~= entry_bytes(es[i]));
    } else {
        lemma_entries_layout(init, i);
        assert(init.take(i) =~= es.take(i));
        assert(init[i] == es[i]);
        let s = entries_size(es.take(i));
        assert(e.subrange(s, s + DESCRIPTOR_LEN + es[i].1.len()) =~= entries_bytes(init).subrange(
            s,
            s + DESCRIPTOR_LEN + es[i].1.len(),
        ));
    }
}

proof fn lemma_descriptor_len(e: EntryModel)
    requires
        encode_utf8(e.0).len() < NAME_FIELD_LEN,
        e.1.len() <= u32::MAX,
    ensures
        descriptor_bytes(encode_utf8(e.0), e.1.len() as u32).len() == DESCRIPTOR_LEN,
        entry_bytes(e).len() == DESCRIPTOR_LEN + e.1.len(),
{
    lemma_le32_round_trip(e.1.len() as u32);
}

proof fn lemma_entry_decodes(e: EntryModel)
    requires
        encode_utf8(e.0).len() < NAME_FIELD_LEN,
        nul_free(encode_utf8(e.0)),
        e.1.len() <= u32::MAX,
    ensures
        descriptor_name(entry_bytes(e).subrange(0, DESCRIPTOR_LEN as int)) == encode_utf8(e.0),
        descriptor_length(entry_bytes(e).subrange(0, DESCRIPTOR_LEN as int)) == e.1.len(),
        entry_bytes(e).subrange(DESCRIPTOR_LEN as int, DESCRIPTOR_LEN + e.1.len()) == e.1,
{
    let name = encode_utf8(e.0);
    let len = e.1.len() as u32;
    lemma_descriptor_len(e);
    lemma_le32_round_trip(len);
    lemma_until_nul_padded(name, NAME_FIELD_LEN as nat);
    let d = entry_bytes(e).subrange(0, DESCRIPTOR_LEN as int);
    assert(d =~= descriptor_bytes(name, len));
    assert(d.subrange(0, NAME_FIELD_LEN as int) =~= padded(name, NAME_FIELD_LEN as nat));
    assert(d[0x38] == le32(len)[0]);
    assert(d[0x39] == le32(len)[1]);
    assert(d[0x3a] == le32(len)[2]);
    assert(d[0x3b] == le32(len)[3]);
    assert(entry_bytes(e).subrange(DESCRIPTOR_LEN as int, DESCRIPTOR_LEN + e.1.len()) =~= e.1);
}

proof fn lemma_archive_split(hw: Seq<char>, es: Seq<EntryModel>, x: int, y: int)
    requires
        valid_entries(es),
        encode_utf8(hw).len() <= HARDWARE_NAME_LEN,
        0 <= x <= y <= entries_size(es),
    ensures
        archive_bytes(hw, es).len() == HEADER_LEN + entries_size(es),
        archive_bytes(hw, es).subrange(HEADER_LEN + x, HEADER_LEN + y) == entries_bytes(es).subrange(x, y),
{
    let h = header_bytes(encode_utf8(hw), es.len() as u32);
    lemma_le32_round_trip(es.len() as u32);
    assert(h.len() == HEADER_LEN);
    if es.len() > 0 {
        lemma_entries_layout(es, 0);
    } else {
        assert(entries_bytes(es).len() == 0);
    }
    assert(archive_bytes(hw, es).subrange(HEADER_LEN + x, HEADER_LEN + y) =~= entries_bytes(es).subrange(x, y));
}

/// Where entry `i` lies in a written archive, and what it decodes to there.
proof fn lemma_entry_at(hw: Seq<char>, es: Seq<EntryModel>, i: int)
    requires
        valid_entries(es),
        encode_utf8(hw).len() <= HARDWARE_NAME_LEN,
        0 <= i < es.len(),
    ensures
        ({
            let a = archive_bytes(hw, es);
            let p = HEADER_LEN + entries_size(es.take(i));
            let d = a.subrange(p, p + DESCRIPTOR_LEN);
            &&& HEADER_LEN <= p
            &&& p + DESCRIPTOR_LEN + es[i].1.len() <= a.len()
            &&& descriptor_name(d) == encode_utf8(es[i].0)
            &&& descriptor_length(d) == es[i].1.len()
            &&& a.subrange(p + DESCRIPTOR_LEN, p + DESCRIPTOR_LEN + es[i].1.len()) == es[i].1
        }),
{
    let a = archive_bytes(hw, es);
    lemma_entries_layout(es, i);
    lemma_entry_decodes(es[i]);
    lemma_descriptor_len(es[i]);
    let s = entries_size(es.take(i));
    let p = HEADER_LEN + s;
    let n = es[i].1.len();
    lemma_entries_size_nonneg(es.take(i));
    lemma_archive_split(hw, es, s, s + DESCRIPTOR_LEN + n);
    let eb = entry_bytes(es[i]);
    assert(a.subrange(p, p + DESCRIPTOR_LEN + n) == eb);
    assert(a.subrange(p, p + DESCRIPTOR_LEN) =~= eb.subrange(0, DESCRIPTOR_LEN as int));
    assert(a.subrange(p + DESCRIPTOR_LEN, p + DESCRIPTOR_LEN + n) =~= eb.subrange(
        DESCRIPTOR_LEN as int,
        DESCRIPTOR_LEN + n,
    ));
}

proof fn lemma_entries_size_nonneg(es: Seq<EntryModel>)
    ensures
        entries_size(es) >= 0,
    decreases es.len(),
{
    if es.len() > 0 {
        lemma_entries_size_nonneg(es.drop_last());
    }
}

proof fn lemma_offsets(hw: Seq<char>, es: Seq<EntryModel>, i: nat)
    requires
        valid_entries(es),
        encode_utf8(hw).len() <= HARDWARE_NAME_LEN,
        i <= es.len(),
    ensures
        entry_offset(archive_bytes(hw, es), i) == HEADER_LEN + entries_size(es.take(i as int)),
    decreases i,
{
    if i == 0 {
        assert(es.take(0) =~= Seq::<EntryModel>::empty());
    } else {
        let k = (i - 1) as int;
        lemma_offsets(hw, es, (i - 1) as nat);
        lemma_entry_at(hw, es, k);
        assert(es.take(i as int).drop_last() =~= es.take(k));
        assert(es.take(i as int).last() == es[k]);
    }
}

/// Round trip: traversing an archive written from valid entries visits each
/// entry in order and finds its name, as valid UTF-8 that decodes to the
/// name written, its length, and its content byte for byte.
pub proof fn lemma_round_trip(hw: Seq<char>, es: Seq<EntryModel>, i: int)
    requires
        valid_entries(es),
        encode_utf8(hw).len() <= HARDWARE_NAME_LEN,
        0 <= i < es.len(),
    ensures
        ({
            let a = archive_bytes(hw, es);
            let p = entry_offset(a, i as nat);
            let d = a.subrange(p, p + DESCRIPTOR_LEN);
            &&& HEADER_LEN <= p
            &&& p + DESCRIPTOR_LEN + es[i].1.len() <= a.len()
            &&& valid_utf8(descriptor_name(d))
            &&& decode_utf8(descriptor_name(d)) == es[i].0
            &&& descriptor_length(d) == es[i].1.len()
            &&& a.subrange(p + DESCRIPTOR_LEN, p + DESCRIPTOR_LEN + es[i].1.len()) == es[i].1
        }),
{
    lemma_offsets(hw, es, i as nat);
    lemma_entry_at(hw, es, i);
    encode_utf8_valid_utf8(es[i].0);
    encode_utf8_decode_utf8(es[i].0);
}

/// The section count at offset 0x18 of a written archive is the number of
/// entries that it holds.
pub proof fn lemma_header_count(hw: Seq<char>, es: Seq<EntryModel>)
    requires
        valid_entries(es),
        encode_utf8(hw).len() <= HARDWARE_NAME_LEN,
    ensures
        from_le32(archive_bytes(hw, es), SECTION_COUNT_OFFSET as int) == es.len(),
{
    let a = archive_bytes(hw, es);
    let n = es.len() as u32;
    lemma_le32_round_trip(n);
    assert(a[0x18] == le32(n)[0]);
    assert(a[0x19] == le32(n)[1]);
    assert(a[0x1a] == le32(n)[2]);
    assert(a[0x1b] == le32(n)[3]);
}

/// No gaps, no overlap: a written archive is the 128-byte header plus a
/// descriptor and the content of each entry, and traversal of all the
/// declared entries ends exactly at its end.
pub proof fn lemma_entry_boundary(hw: Seq<char>, es: Seq<EntryModel>)
    requires
        valid_entries(es),
        encode_utf8(hw).len() <= HARDWARE_NAME_LEN,
    ensures
        archive_bytes(hw, es).len() == HEADER_LEN + entries_size(es),
        entry_offset(archive_bytes(hw, es), es.len()) == archive_bytes(hw, es).len(),
{
    lemma_offsets(hw, es, es.len());
    lemma_entries_size_nonneg(es);
    lemma_archive_split(hw, es, 0, 0);
    assert(es.take(es.len() as int) =~= es);
}

/// A descriptor encoded from a name that fits its field with room for the
/// terminator and holds no NUL decodes back to that name, as valid UTF-8,
/// and to its length. The empty name is one such name.
pub proof fn lemma_descriptor_round_trip(name: Seq<char>, length: u32)
    requires
        encode_utf8(name).len() < NAME_FIELD_LEN,
        nul_free(encode_utf8(name)),
    ensures
        descriptor_bytes(encode_utf8(name), length).len() == DESCRIPTOR_LEN,
        valid_utf8(descriptor_name(descriptor_bytes(encode_utf8(name), length))),
        decode_utf8(descriptor_name(descriptor_bytes(encode_utf8(name), length))) == name,
        descriptor_length(descriptor_bytes(encode_utf8(name), length)) == length,
{
    let content = Seq::new(length as nat, |i: int| 0u8);
    let e: EntryModel = (name, content);
    lemma_entry_decodes(e);
    assert(content.len() as u32 == length);
    assert(entry_bytes(e).subrange(0, DESCRIPTOR_LEN as int) =~= descriptor_bytes(encode_utf8(name), length));
    encode_utf8_valid_utf8(name);
    encode_utf8_decode_utf8(name);
}

} // verus!
