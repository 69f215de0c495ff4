use v380_patcher::digest::{hex_lower, patch_file_name, HashingWriter};
use v380_patcher::entry::Category;
use v380_patcher::error::PatchError;
use v380_patcher::reader::ArchiveCursor;
use v380_patcher::writer::PatchWriter;

fn build(hw: &str, inputs: &[(&str, &[u8])]) -> (Vec<u8>, Vec<u8>, String) {
    let (mut w, header) = PatchWriter::begin(Vec::new(), hw, inputs.len() as u32).unwrap();
    w.sink.underlying_writer.extend_from_slice(&header);
    for (path, content) in inputs {
        let d = w.begin_entry(path, content.len() as u32).unwrap();
        w.sink.underlying_writer.extend_from_slice(&d);
        for chunk in content.chunks(3) {
            w.write_content(chunk);
            w.sink.underlying_writer.extend_from_slice(chunk);
        }
    }
    assert!(w.is_complete());
    let (digest, name, out) = w.finish();
    (out, digest, name)
}

fn traverse(a: &[u8], extract: bool) -> Vec<(String, u32, Category, Option<Vec<u8>>)> {
    let mut c = ArchiveCursor::start(a).unwrap();
    let mut found = Vec::new();
    while !c.is_done() {
        let at = c.position as usize;
        let info = c.next_entry(&a[at..at + 0x40]).unwrap();
        let content = if extract {
            Some(a[at + 0x40..at + 0x40 + info.length as usize].to_vec())
        } else {
            None
        };
        found.push((info.name, info.length, info.category, content));
    }
    found
}

#[test]
fn round_trip_through_writer_and_cursor() {
    let inputs: [(&str, &[u8]); 3] = [
        ("fw/IMG_KER.bin", b"kernel bytes"),
        ("sf_alarm", b""),
        ("/tmp/x/exsh_boot", &[0u8, 1, 2, 0, 255]),
    ];
    let (a, _, _) = build("V380E2_C", &inputs);
    let found = traverse(&a, true);
    assert_eq!(found.len(), 3);
    assert_eq!(found[0].0, "IMG_KER.bin");
    assert_eq!(found[0].3.as_deref(), Some(&b"kernel bytes"[..]));
    assert_eq!(found[1].0, "sf_alarm");
    assert_eq!(found[1].3.as_deref(), Some(&b""[..]));
    assert_eq!(found[2].0, "exsh_boot");
    assert_eq!(found[2].3.as_deref(), Some(&[0u8, 1, 2, 0, 255][..]));
}

#[test]
fn header_count_matches_entries() {
    let inputs: [(&str, &[u8]); 2] = [("a", b"1"), ("b", b"22")];
    let (a, _, _) = build("hw", &inputs);
    assert_eq!(&a[0x18..0x1c], &[2, 0, 0, 0]);
    assert_eq!(traverse(&a, false).len(), 2);
}

#[test]
fn entries_are_back_to_back() {
    let inputs: [(&str, &[u8]); 3] = [("a", b"1234"), ("b", b""), ("c", b"xyz")];
    let (a, _, _) = build("hw", &inputs);
    assert_eq!(a.len(), 0x80 + (0x40 + 4) + 0x40 + (0x40 + 3));
    let mut c = ArchiveCursor::start(&a).unwrap();
    while !c.is_done() {
        let at = c.position as usize;
        c.next_entry(&a[at..at + 0x40]).unwrap();
    }
    assert_eq!(c.position as usize, a.len());
}

#[test]
fn skip_mode_lists_names_lengths_categories() {
    let big = vec![7u8; 10_000];
    let inputs: [(&str, &[u8]); 2] = [("IMG_RFS.img", &big), ("foo.bin", b"ab")];
    let (a, _, _) = build("hw", &inputs);
    let found = traverse(&a, false);
    assert_eq!(found[0].0, "IMG_RFS.img");
    assert_eq!(found[0].1, 10_000);
    assert_eq!(found[0].2, Category::Mtd1Image);
    assert!(found[0].3.is_none());
    assert_eq!(found[1].0, "foo.bin");
    assert_eq!(found[1].1, 2);
    assert_eq!(found[1].2, Category::Other);
}

#[test]
fn digest_is_stable() {
    let inputs: [(&str, &[u8]); 2] = [("a", b"hello"), ("b", b"world")];
    let (a1, d1, n1) = build("V380E2_C", &inputs);
    let (a2, d2, n2) = build("V380E2_C", &inputs);
    assert_eq!(a1, a2);
    assert_eq!(d1, d2);
    assert_eq!(n1, n2);
    let (_, d3, _) = build("other", &inputs);
    assert_ne!(d1, d3);
}

#[test]
fn file_name_is_hex_digest() {
    let inputs: [(&str, &[u8]); 1] = [("a", b"x")];
    let (_, d, n) = build("hw", &inputs);
    assert_eq!(d.len(), 16);
    assert_eq!(n.len(), 32 + 6);
    assert!(n.ends_with(".patch"));
    assert_eq!(&n[..32], hex_lower(&d));
    assert!(n[..32].chars().all(|c| c.is_ascii_hexdigit() && !c.is_ascii_uppercase()));
}

#[test]
fn md5_of_known_input() {
    let w: HashingWriter<()> = HashingWriter::new(());
    let (d, ()) = w.finish();
    assert_eq!(hex_lower(&d), "d41d8cd98f00b204e9800998ecf8427e");
    let mut w = HashingWriter::new(0u8);
    w.hash_input(b"hello ");
    w.hash_input(b"world");
    let (d, inner) = w.finish();
    assert_eq!(inner, 0);
    assert_eq!(hex_lower(&d), "5eb63bbbe01eeed093cb22bb8f5acdc3");
}

#[test]
fn hex_and_file_name_formatting() {
    assert_eq!(hex_lower(&[0x00, 0xab, 0x0f, 0xf0, 0xff]), "00ab0ff0ff");
    assert_eq!(hex_lower(&[]), "");
    assert_eq!(patch_file_name(&[0x12, 0x9a]), "129a.patch");
}

#[test]
fn writer_errors_leave_it_usable() {
    assert!(PatchWriter::begin(Vec::<u8>::new(), "0123456789abcdefX", 1).is_err());
    let (mut w, _) = PatchWriter::begin(Vec::<u8>::new(), "hw", 1).unwrap();
    assert_eq!(w.begin_entry("/", 0).err(), Some(PatchError::InvalidPath));
    let long = format!("d/{}", "n".repeat(0x38));
    assert_eq!(w.begin_entry(&long, 0).err(), Some(PatchError::NameTooLong));
    assert_eq!(w.written, 0);
    assert!(w.begin_entry("ok", 0).is_ok());
    assert!(w.is_complete());
}

#[test]
fn cursor_errors() {
    assert_eq!(ArchiveCursor::start(&[0u8; 10]).err(), Some(PatchError::IoError));
    let mut c = ArchiveCursor { position: u64::MAX - 0x40, remaining: 1 };
    let mut d = vec![0u8; 0x40];
    d[0x38] = 1;
    assert_eq!(c.next_entry(&d).err(), Some(PatchError::IoError));
    assert_eq!(c.remaining, 1);
    let mut bad = vec![0u8; 0x40];
    bad[0] = 0xc3;
    assert_eq!(c.next_entry(&bad).err(), Some(PatchError::InvalidEncoding));
    assert_eq!(c.next_entry(&d[..0x20]).err(), Some(PatchError::IoError));
}
