//! Entry descriptors: a 56-byte NUL-padded name, the content length and four
//! reserved bytes, followed directly by the content. Also the advisory
//! classification of entries by name.
use crate::error::PatchError;
use crate::field::{from_le32, le32, nul_index, padded, read_u32_le, text_len, until_nul, write_string, write_u32_le, write_zeroes, zeros};
use crate::text::utf8_to_string;
use vstd::prelude::*;
use vstd::string::StringSliceAdditionalSpecFns;
use vstd::utf8::{decode_utf8, valid_utf8};

verus! {

/// Width of the name field of a descriptor.
pub const NAME_FIELD_LEN: usize = 0x38;
/// Size of a descriptor; the entry's content follows it.
pub const DESCRIPTOR_LEN: usize = 0x40;

/// The descriptor of an entry named `name` with `length` bytes of content.
pub open spec fn descriptor_bytes(name: Seq<u8>, length: u32) -> Seq<u8> {
    padded(name, NAME_FIELD_LEN as nat) + le32(length) + zeros(4)
}

/// The name bytes that a descriptor holds: its name field up to the first NUL.
pub open spec fn descriptor_name(d: Seq<u8>) -> Seq<u8> {
    until_nul(d.subrange(0, NAME_FIELD_LEN as int))
}

/// The content length that a descriptor holds.
pub open spec fn descriptor_length(d: Seq<u8>) -> int {
    from_le32(d, NAME_FIELD_LEN as int)
}

/// Advisory label of an entry, from its name.
#[derive(Debug, Clone, Copy, PartialEq, Eq, Structural)]
pub enum Category {
    KernelImage,
    Mtd1Image,
    Mtd2Image,
    Mtd3Image,
    Mtd4Image,
    Mtd5Image,
    UnknownImage,
    Sound,
    Script,
    Other,
}

/// True when `p` stands in `b` at `at`.
pub open spec fn bytes_at(b: Seq<u8>, at: int, p: Seq<u8>) -> bool {
    0 <= at && at + p.len() <= b.len() && b.subrange(at, at + p.len()) == p
}

/// The category of an entry named by the bytes `name`: `IMG_` followed by a
/// three-letter tag is an image, `sf_` a sound, `exsh` a script (the bytes
/// below are those ASCII letters).
pub open spec fn classify(name: Seq<u8>) -> Category {
    if bytes_at(name, 0, seq![0x49u8, 0x4du8, 0x47u8, 0x5fu8]) {
        if bytes_at(name, 4, seq![0x4bu8, 0x45u8, 0x52u8]) {
            Category::KernelImage
        } else if bytes_at(name, 4, seq![0x52u8, 0x46u8, 0x53u8]) {
            Category::Mtd1Image
        } else if bytes_at(name, 4, seq![0x55u8, 0x53u8, 0x52u8]) {
            Category::Mtd2Image
        } else if bytes_at(name, 4, seq![0x4du8, 0x56u8, 0x53u8]) {
            Category::Mtd3Image
        } else if bytes_at(name, 4, seq![0x45u8, 0x58u8, 0x54u8]) {
            Category::Mtd4Image
        } else if bytes_at(name, 4, seq![0x4au8, 0x46u8, 0x53u8]) {
            Category::Mtd5Image
        } else {
            Category::UnknownImage
        }
    } else if bytes_at(name, 0, seq![0x73u8, 0x66u8, 0x5fu8]) {
        Category::Sound
    } else if bytes_at(name, 0, seq![0x65u8, 0x78u8, 0x73u8, 0x68u8]) {
        Category::Script
    } else {
        Category::Other
    }
}

impl Category {
    pub open spec fn label_spec(self) -> Seq<char> {
        match self {
            Category::KernelImage => "Kernel Image"@,
            Category::Mtd1Image => "mtd1 Image"@,
            Category::Mtd2Image => "mtd2 Image"@,
            Category::Mtd3Image => "mtd3 Image"@,
            Category::Mtd4Image => "mtd4 Image"@,
            Category::Mtd5Image => "mtd5 Image"@,
            Category::UnknownImage => "Unknown Image"@,
            Category::Sound => "Sound"@,
            Category::Script => "Script"@,
            Category::Other => "Other"@,
        }
    }

    /// The text shown for this category.
    pub fn label(&self) -> (r: &'static str)
        ensures
            r@ == self.label_spec(),
    {
        match self {
            Category::KernelImage => "Kernel Image",
            Category::Mtd1Image => "mtd1 Image",
            Category::Mtd2Image => "mtd2 Image",
            Category::Mtd3Image => "mtd3 Image",
            Category::Mtd4Image => "mtd4 Image",
            Category::Mtd5Image => "mtd5 Image",
            Category::UnknownImage => "Unknown Image",
            Category::Sound => "Sound",
            Category::Script => "Script",
            Category::Other => "Other",
        }
    }
}

/// Whether `p` stands in `b` at `at`.
fn has_bytes_at(b: &[u8], at: usize, p: &[u8]) -> (r: bool)
    ensures
        r == bytes_at(b@, at as int, p@),
{
    if at > b.len() || p.len() > b.len() - at {
        return false;
    }
    let end: usize = at + p.len();
    let mut i: usize = 0;
    while i < p.len()
        invariant
            i <= p@.len(),
            end == at + p@.len(),
            end <= b@.len(),
            forall|j: int| 0 <= j < i ==> b@[at + j] == p@[j],
        decreases p@.len() - i,
    {
        if b[at + i] != p[i] {
            assert(b@.subrange(at as int, at + p@.len())[i as int] != p@[i as int]);
            return false;
        }
        i = i + 1;
    }
    assert(b@.subrange(at as int, at + p@.len()) =~= p@);
    true
}

/// The category of an entry whose name has the bytes `name`.
pub fn classify_bytes(name: &[u8]) -> (r: Category)
    ensures
        r == classify(name@),
{
    let img: [u8; 4] = [0x49u8, 0x4du8, 0x47u8, 0x5fu8];
    let sf: [u8; 3] = [0x73u8, 0x66u8, 0x5fu8];
    let exsh: [u8; 4] = [0x65u8, 0x78u8, 0x73u8, 0x68u8];
    let ker: [u8; 3] = [0x4bu8, 0x45u8, 0x52u8];
    let rfs: [u8; 3] = [0x52u8, 0x46u8, 0x53u8];
    let usr: [u8; 3] = [0x55u8, 0x53u8, 0x52u8];
    let mvs: [u8; 3] = [0x4du8, 0x56u8, 0x53u8];
    let ext: [u8; 3] = [0x45u8, 0x58u8, 0x54u8];
    let jfs: [u8; 3] = [0x4au8, 0x46u8, 0x53u8];
    assert(img@ =~= seq![0x49u8, 0x4du8, 0x47u8, 0x5fu8]);
    assert(sf@ =~= seq![0x73u8, 0x66u8, 0x5fu8]);
    assert(exsh@ =~= seq![0x65u8, 0x78u8, 0x73u8, 0x68u8]);
    assert(ker@ =~= seq![0x4bu8, 0x45u8, 0x52u8]);
    assert(rfs@ =~= seq![0x52u8, 0x46u8, 0x53u8]);
    assert(usr@ =~= seq![0x55u8, 0x53u8, 0x52u8]);
    assert(mvs@ =~= seq![0x4du8, 0x56u8, 0x53u8]);
    assert(ext@ =~= seq![0x45u8, 0x58u8, 0x54u8]);
    assert(jfs@ =~= seq![0x4au8, 0x46u8, 0x53u8]);
    if has_bytes_at(name, 0, img.as_slice()) {
        if has_bytes_at(name, 4, ker.as_slice()) {
            Category::KernelImage
        } else if has_bytes_at(name, 4, rfs.as_slice()) {
            Category::Mtd1Image
        } else if has_bytes_at(name, 4, usr.as_slice()) {
            Category::Mtd2Image
        } else if has_bytes_at(name, 4, mvs.as_slice()) {
            Category::Mtd3Image
        } else if has_bytes_at(name, 4, ext.as_slice()) {
            Category::Mtd4Image
        } else if has_bytes_at(name, 4, jfs.as_slice()) {
            Category::Mtd5Image
        } else {
            Category::UnknownImage
        }
    } else if has_bytes_at(name, 0, sf.as_slice()) {
        Category::Sound
    } else if has_bytes_at(name, 0, exsh.as_slice()) {
        Category::Script
    } else {
        Category::Other
    }
}

/// The category of the entry named `filename`. Never fails: names that match
/// no known prefix are `Other`, images with an unknown tag `UnknownImage`.
pub fn filename_to_type(filename: &str) -> (r: Category)
    ensures
        r == classify(filename.spec_bytes()),
{
    classify_bytes(filename.as_bytes())
}

/// Encodes the descriptor of an entry named `name` with `content_length`
/// bytes of content. The name needs room for its NUL terminator: it fails
/// with `NameTooLong` when the name takes 56 bytes or more.
pub fn encode_entry(name: &str, content_length: u32) -> (r: Result<Vec<u8>, PatchError>)
    ensures
        r is Ok <==> name.spec_bytes().len() < NAME_FIELD_LEN,
        r matches Ok(v) ==> v@ == descriptor_bytes(name.spec_bytes(), content_length),
        r is Err ==> r == Err::<Vec<u8>, PatchError>(PatchError::NameTooLong),
{
    if name.len() >= NAME_FIELD_LEN {
        return Err(PatchError::NameTooLong);
    }
    let mut f: Vec<u8> = Vec::new();
    match write_string(&mut f, name, NAME_FIELD_LEN) {
        Ok(()) => {},
        Err(e) => {
            return Err(e);
        },
    }
    write_u32_le(&mut f, content_length);
    write_zeroes(&mut f, 4);
    assert(f@ =~= descriptor_bytes(name.spec_bytes(), content_length));
    Ok(f)
}

/// What a descriptor says of its entry.
pub struct EntryInfo {
    /// The logical name: the name field up to its first NUL.
    pub name: String,
    /// The number of content bytes that follow the descriptor.
    pub length: u32,
    /// The advisory category of the name.
    pub category: Category,
}

/// Decodes a descriptor from its 64 bytes (more are ignored).
/// Fails with `IoError` when fewer than 64 bytes are given, and with
/// `InvalidEncoding` when the name is not valid UTF-8.
pub fn decode_entry(descriptor: &[u8]) -> (r: Result<EntryInfo, PatchError>)
    ensures
        r is Ok <==> descriptor@.len() >= DESCRIPTOR_LEN && valid_utf8(descriptor_name(descriptor@)),
        r matches Ok(e) ==> e.name@ == decode_utf8(descriptor_name(descriptor@))
            && e.length as int == descriptor_length(descriptor@)
            && e.category == classify(descriptor_name(descriptor@)),
        r matches Err(e) ==> if descriptor@.len() < DESCRIPTOR_LEN {
            e == PatchError::IoError
        } else {
            e == PatchError::InvalidEncoding
        },
{
    if descriptor.len() < DESCRIPTOR_LEN {
        return Err(PatchError::IoError);
    }
    let ghost field = descriptor@.subrange(0, NAME_FIELD_LEN as int);
    let k = text_len(descriptor, NAME_FIELD_LEN);
    let mut name_bytes: Vec<u8> = Vec::new();
    let mut i: usize = 0;
    while i < k
        invariant
            i <= k <= NAME_FIELD_LEN <= descriptor@.len(),
            name_bytes@ == descriptor@.subrange(0, i as int),
        decreases k - i,
    {
        name_bytes.push(descriptor[i]);
        i = i + 1;
        assert(name_bytes@ =~= descriptor@.subrange(0, i as int));
    }
    assert(name_bytes@ =~= descriptor_name(descriptor@));
    let length = read_u32_le(descriptor, NAME_FIELD_LEN);
    let category = classify_bytes(name_bytes.as_slice());
    match utf8_to_string(name_bytes.as_slice()) {
        Some(name) => Ok(EntryInfo { name, length, category }),
        None => Err(PatchError::InvalidEncoding),
    }
}

} // verus!
