use v380_patcher::entry::{decode_entry, encode_entry, filename_to_type, Category};
use v380_patcher::error::PatchError;
use v380_patcher::field::{read_u32_le, text_len, write_string, write_u32_le, write_zeroes};
use v380_patcher::header::{decode_header, encode_header};
use v380_patcher::text::base_name;

#[test]
fn classification_table() {
    assert_eq!(filename_to_type("IMG_KER_v2.bin"), Category::KernelImage);
    assert_eq!(filename_to_type("IMG_RFS"), Category::Mtd1Image);
    assert_eq!(filename_to_type("IMG_USR.img"), Category::Mtd2Image);
    assert_eq!(filename_to_type("IMG_MVS.img"), Category::Mtd3Image);
    assert_eq!(filename_to_type("IMG_EXT.img"), Category::Mtd4Image);
    assert_eq!(filename_to_type("IMG_JFS.img"), Category::Mtd5Image);
    assert_eq!(filename_to_type("IMG_XYZ"), Category::UnknownImage);
    assert_eq!(filename_to_type("sf_alarm"), Category::Sound);
    assert_eq!(filename_to_type("exsh_boot"), Category::Script);
    assert_eq!(filename_to_type("foo.bin"), Category::Other);
}

#[test]
fn classification_of_short_names_does_not_fail() {
    assert_eq!(filename_to_type(""), Category::Other);
    assert_eq!(filename_to_type("IM"), Category::Other);
    assert_eq!(filename_to_type("IMG_"), Category::UnknownImage);
    assert_eq!(filename_to_type("IMG_KE"), Category::UnknownImage);
    assert_eq!(filename_to_type("exs"), Category::Other);
    assert_eq!(filename_to_type("sf"), Category::Other);
}

#[test]
fn category_labels() {
    assert_eq!(Category::KernelImage.label(), "Kernel Image");
    assert_eq!(Category::Mtd1Image.label(), "mtd1 Image");
    assert_eq!(Category::Mtd5Image.label(), "mtd5 Image");
    assert_eq!(Category::UnknownImage.label(), "Unknown Image");
    assert_eq!(Category::Sound.label(), "Sound");
    assert_eq!(Category::Script.label(), "Script");
    assert_eq!(Category::Other.label(), "Other");
}

#[test]
fn little_endian_fields() {
    let mut v = Vec::new();
    write_u32_le(&mut v, 0x1f4b59);
    assert_eq!(v, vec![0x59, 0x4b, 0x1f, 0x00]);
    assert_eq!(read_u32_le(&v, 0), 0x1f4b59);
    let b = [9u8, 0xff, 0xff, 0xff, 0xff];
    assert_eq!(read_u32_le(&b, 1), u32::MAX);
}

#[test]
fn zero_padding_and_text_fields() {
    let mut v = vec![7u8];
    write_zeroes(&mut v, 3);
    assert_eq!(v, vec![7, 0, 0, 0]);
    let mut f = Vec::new();
    assert_eq!(write_string(&mut f, "ab", 4), Ok(()));
    assert_eq!(f, vec![b'a', b'b', 0, 0]);
    assert_eq!(write_string(&mut f, "abcde", 4), Err(PatchError::NameTooLong));
    assert_eq!(f.len(), 4);
    assert_eq!(text_len(&[b'x', b'y', 0, b'z'], 4), 2);
    assert_eq!(text_len(&[b'x', b'y', b'z'], 2), 2);
}

#[test]
fn header_layout() {
    let h = encode_header("V380E2_C", 3).unwrap();
    assert_eq!(h.len(), 0x80);
    assert_eq!(&h[0..4], &[0x0a, 0, 0, 0]);
    assert_eq!(&h[4..12], b"V380E2_C");
    assert!(h[12..0x14].iter().all(|b| *b == 0));
    assert_eq!(&h[0x14..0x18], &[0x59, 0x4b, 0x1f, 0x00]);
    assert_eq!(&h[0x18..0x1c], &[3, 0, 0, 0]);
    assert!(h[0x1c..0x80].iter().all(|b| *b == 0));
    assert_eq!(decode_header(&h), Ok(3));
}

#[test]
fn header_name_width() {
    assert!(encode_header("0123456789abcdef", 1).is_ok());
    assert_eq!(encode_header("0123456789abcdefg", 1), Err(PatchError::NameTooLong));
    assert_eq!(decode_header(&[0u8; 0x1b]), Err(PatchError::IoError));
}

#[test]
fn header_constants_ignored_on_read() {
    let mut h = vec![0xeeu8; 0x80];
    h[0x18..0x1c].copy_from_slice(&[2, 1, 0, 0]);
    assert_eq!(decode_header(&h), Ok(0x102));
}

#[test]
fn name_field_needs_a_terminator() {
    let long = "a".repeat(0x38);
    assert_eq!(encode_entry(&long, 1), Err(PatchError::NameTooLong));
    let fits = "a".repeat(0x37);
    let d = encode_entry(&fits, 5).unwrap();
    assert_eq!(d.len(), 0x40);
    let info = decode_entry(&d).unwrap();
    assert_eq!(info.name, fits);
    assert_eq!(info.length, 5);
}

#[test]
fn empty_name_round_trip() {
    let d = encode_entry("", 0).unwrap();
    assert_eq!(d, vec![0u8; 0x40]);
    let info = decode_entry(&d).unwrap();
    assert_eq!(info.name, "");
    assert_eq!(info.length, 0);
    assert_eq!(info.category, Category::Other);
}

#[test]
fn descriptor_layout() {
    let d = encode_entry("sf_alarm", 0x01020304).unwrap();
    assert_eq!(&d[0..8], b"sf_alarm");
    assert!(d[8..0x38].iter().all(|b| *b == 0));
    assert_eq!(&d[0x38..0x3c], &[4, 3, 2, 1]);
    assert_eq!(&d[0x3c..0x40], &[0, 0, 0, 0]);
    let info = decode_entry(&d).unwrap();
    assert_eq!(info.name, "sf_alarm");
    assert_eq!(info.length, 0x01020304);
    assert_eq!(info.category, Category::Sound);
}

#[test]
fn decode_ignores_bytes_after_the_first_nul() {
    let mut d = vec![0u8; 0x40];
    d[0..3].copy_from_slice(b"abc");
    d[4..8].copy_from_slice(b"junk");
    d[0x38] = 9;
    let info = decode_entry(&d).unwrap();
    assert_eq!(info.name, "abc");
    assert_eq!(info.length, 9);
}

#[test]
fn decode_errors() {
    assert_eq!(decode_entry(&[0u8; 0x3f]).err(), Some(PatchError::IoError));
    let mut d = vec![0u8; 0x40];
    d[0] = 0xff;
    d[1] = 0xfe;
    assert_eq!(decode_entry(&d).err(), Some(PatchError::InvalidEncoding));
}

#[test]
fn utf8_names() {
    let d = encode_entry("caf\u{e9}.bin", 2).unwrap();
    assert_eq!(&d[0..9], "caf\u{e9}.bin".as_bytes());
    assert_eq!(decode_entry(&d).unwrap().name, "caf\u{e9}.bin");
}

#[test]
fn base_names() {
    assert_eq!(base_name("dir/sub/IMG_KER.bin"), Ok("IMG_KER.bin".to_string()));
    assert_eq!(base_name("plain"), Ok("plain".to_string()));
    assert_eq!(base_name("/"), Err(PatchError::InvalidPath));
    assert_eq!(base_name(""), Err(PatchError::InvalidPath));
    assert_eq!(base_name("a/.."), Err(PatchError::InvalidPath));
}
