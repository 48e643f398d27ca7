use xbekit::errors::PatchFormatError;
use xbekit::ips::{apply_patch, Ips};

fn preamble() -> Vec<u8> {
    vec![b'P', b'A', b'T', b'C', b'H']
}

fn sentinel() -> Vec<u8> {
    vec![b'E', b'O', b'F']
}

#[test]
fn literal_record_overwrites_in_place() {
    let mut stream = preamble();
    stream.extend_from_slice(&[0x00, 0x00, 0x05]);
    stream.extend_from_slice(&[0x00, 0x03]);
    stream.extend_from_slice(&[0xAA, 0xBB, 0xCC]);
    stream.extend_from_slice(&sentinel());
    let mut rom = vec![0u8; 16];
    let mut ips = Ips::new(stream);
    assert!(ips.apply_to(&mut rom).is_ok());
    assert_eq!(rom.len(), 16);
    assert_eq!(&rom[5..8], &[0xAA, 0xBB, 0xCC]);
    for (i, b) in rom.iter().enumerate() {
        if !(5..8).contains(&i) {
            assert_eq!(*b, 0, "byte {} changed", i);
        }
    }
}

#[test]
fn rle_record_grows_buffer_with_zero_fill() {
    let mut stream = preamble();
    stream.extend_from_slice(&[0x00, 0x00, 0x10]);
    stream.extend_from_slice(&[0x00, 0x00]);
    stream.extend_from_slice(&[0x00, 0x05]);
    stream.push(0xFF);
    stream.extend_from_slice(&sentinel());
    let mut rom = vec![7u8; 8];
    assert!(apply_patch(&mut rom, &stream).is_ok());
    assert_eq!(rom.len(), 21);
    assert_eq!(&rom[0..8], &[7u8; 8][..]);
    assert_eq!(&rom[8..16], &[0u8; 8][..]);
    assert_eq!(&rom[16..21], &[0xFF; 5][..]);
}

#[test]
fn later_record_wins_at_overlap() {
    let mut stream = preamble();
    stream.extend_from_slice(&[0x00, 0x00, 0x02]);
    stream.extend_from_slice(&[0x00, 0x03]);
    stream.extend_from_slice(&[0x11, 0x11, 0x11]);
    stream.extend_from_slice(&[0x00, 0x00, 0x03]);
    stream.extend_from_slice(&[0x00, 0x03]);
    stream.extend_from_slice(&[0x22, 0x22, 0x22]);
    stream.extend_from_slice(&sentinel());
    let mut rom = vec![0u8; 8];
    assert!(apply_patch(&mut rom, &stream).is_ok());
    assert_eq!(&rom[..], &[0, 0, 0x11, 0x22, 0x22, 0x22, 0, 0]);
}

#[test]
fn truncated_stream_fails_but_keeps_complete_records() {
    let mut stream = preamble();
    stream.extend_from_slice(&[0x00, 0x00, 0x01]);
    stream.extend_from_slice(&[0x00, 0x02]);
    stream.extend_from_slice(&[0x5A, 0x5B]);
    // The next record is cut off after its address.
    stream.extend_from_slice(&[0x00, 0x00, 0x06]);
    let mut rom = vec![0u8; 4];
    let r = apply_patch(&mut rom, &stream);
    assert_eq!(r, Err(PatchFormatError));
    assert_eq!(&rom[..], &[0, 0x5A, 0x5B, 0]);
}

#[test]
fn empty_stream_is_malformed() {
    let mut rom = vec![0u8; 4];
    let r = apply_patch(&mut rom, &vec![]);
    assert_eq!(r, Err(PatchFormatError));
    assert_eq!(&rom[..], &[0, 0, 0, 0]);
}

#[test]
fn sentinel_only_stream_changes_nothing() {
    let mut stream = preamble();
    stream.extend_from_slice(&sentinel());
    let mut rom = vec![3u8; 4];
    assert!(apply_patch(&mut rom, &stream).is_ok());
    assert_eq!(&rom[..], &[3, 3, 3, 3]);
}

#[test]
fn literal_past_end_pads_with_zeros() {
    let mut stream = preamble();
    stream.extend_from_slice(&[0x00, 0x00, 0x06]);
    stream.extend_from_slice(&[0x00, 0x02]);
    stream.extend_from_slice(&[0x9C, 0x9D]);
    stream.extend_from_slice(&sentinel());
    let mut rom = vec![1u8; 2];
    assert!(apply_patch(&mut rom, &stream).is_ok());
    assert_eq!(&rom[..], &[1, 1, 0, 0, 0, 0, 0x9C, 0x9D]);
}
