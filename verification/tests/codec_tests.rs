use xbekit::errors::{FormatError, StructuralError};
use xbekit::loader::load;
use xbekit::xbe::{Certificate, ExecutableImage, LibraryVersion, SectionHeader};

/// A one-section image laid out exactly as the serializer places its
/// regions, so that every address field round trips.
fn sample_image() -> ExecutableImage {
    let base: u32 = 0x10000;
    ExecutableImage {
        magic: 0x48454258,
        signature: vec![0x51u8; 256],
        base_address: base,
        image_size: 0x2000,
        entry_point: 0x11000,
        certificate_address: base + 312,
        section_headers_address: base + 332,
        library_versions_address: base + 380,
        debug_pathname_address: base + 400,
        debug_filename_address: base + 402,
        debug_unicode_filename_address: base + 396,
        logo_address: base + 404,
        certificate: Certificate {
            title_id: 0x1234,
            region: 1,
            version: 7,
            reserved: vec![1, 2, 3, 4],
        },
        section_headers: vec![SectionHeader {
            flags: 0x6,
            virtual_address: 0x11000,
            virtual_size: 3,
            raw_address: 4096,
            raw_size: 3,
            name_address: base + 376,
            digest: vec![0u8; 20],
        }],
        section_names: vec![vec![0x2E, 0x74]],
        library_versions: vec![LibraryVersion {
            name: vec![b'X', b'A', b'P', b'I', 0, 0, 0, 0],
            major: 1,
            minor: 0,
            build: 5558,
            flags: 0,
        }],
        debug_pathname: vec![0x61, 0x2F, 0x62],
        debug_filename: vec![0x62],
        debug_unicode_filename: vec![0x41],
        logo: vec![9, 9],
        sections: vec![vec![10, 20, 30]],
    }
}

#[test]
fn serialize_then_load_round_trips_every_field() {
    let img = sample_image();
    let bytes = img.serialize().unwrap();
    assert_eq!(bytes.len(), 8192);
    // The magic word sits first, little endian.
    assert_eq!(&bytes[0..4], &[0x58, 0x42, 0x45, 0x48]);
    // The payload sits at its raw file offset.
    assert_eq!(&bytes[4096..4099], &[10, 20, 30]);

    let back = load(&bytes).unwrap();
    assert_eq!(back.magic, img.magic);
    assert_eq!(back.signature, img.signature);
    assert_eq!(back.base_address, img.base_address);
    assert_eq!(back.image_size, img.image_size);
    assert_eq!(back.entry_point, img.entry_point);
    assert_eq!(back.certificate_address, img.certificate_address);
    assert_eq!(back.section_headers_address, img.section_headers_address);
    assert_eq!(back.library_versions_address, img.library_versions_address);
    assert_eq!(back.debug_pathname_address, img.debug_pathname_address);
    assert_eq!(back.debug_filename_address, img.debug_filename_address);
    assert_eq!(
        back.debug_unicode_filename_address,
        img.debug_unicode_filename_address
    );
    assert_eq!(back.logo_address, img.logo_address);
    assert_eq!(back.certificate.title_id, img.certificate.title_id);
    assert_eq!(back.certificate.region, img.certificate.region);
    assert_eq!(back.certificate.version, img.certificate.version);
    assert_eq!(back.certificate.reserved, img.certificate.reserved);
    assert_eq!(back.section_headers.len(), 1);
    let sh = &back.section_headers[0];
    let sh0 = &img.section_headers[0];
    assert_eq!(sh.flags, sh0.flags);
    assert_eq!(sh.virtual_address, sh0.virtual_address);
    assert_eq!(sh.virtual_size, sh0.virtual_size);
    assert_eq!(sh.raw_address, sh0.raw_address);
    assert_eq!(sh.raw_size, sh0.raw_size);
    assert_eq!(sh.name_address, sh0.name_address);
    assert_eq!(sh.digest, sh0.digest);
    assert_eq!(back.section_names, img.section_names);
    assert_eq!(back.library_versions.len(), 1);
    assert_eq!(back.library_versions[0].name, img.library_versions[0].name);
    assert_eq!(back.library_versions[0].major, 1);
    assert_eq!(back.library_versions[0].build, 5558);
    assert_eq!(back.debug_pathname, img.debug_pathname);
    assert_eq!(back.debug_filename, img.debug_filename);
    assert_eq!(back.debug_unicode_filename, img.debug_unicode_filename);
    assert_eq!(back.logo, img.logo);
    assert_eq!(back.sections, img.sections);

    // Serializing the reloaded image gives the same bytes.
    let bytes2 = back.serialize().unwrap();
    assert_eq!(bytes, bytes2);
}

#[test]
fn mismatched_header_and_payload_lists_are_refused() {
    let mut img = sample_image();
    img.sections.push(vec![1]);
    assert_eq!(img.serialize().err(), Some(StructuralError));
}

#[test]
fn certificate_before_the_header_end_is_refused() {
    let mut img = sample_image();
    img.certificate_address = img.base_address + 100;
    assert_eq!(img.serialize().err(), Some(StructuralError));
}

#[test]
fn truncated_stream_fails_to_load() {
    assert_eq!(load(&vec![0u8; 100]).err(), Some(FormatError));
    let img = sample_image();
    let mut bytes = img.serialize().unwrap();
    bytes.truncate(4000);
    assert_eq!(load(&bytes).err(), Some(FormatError));
}

#[test]
fn degenerate_certificate_size_fails_to_load() {
    let img = sample_image();
    let mut bytes = img.serialize().unwrap();
    // The certificate's declared size sits at its file offset; 8 is
    // below the fixed part's 16 bytes.
    bytes[312] = 8;
    bytes[313] = 0;
    bytes[314] = 0;
    bytes[315] = 0;
    assert_eq!(load(&bytes).err(), Some(FormatError));
}

#[test]
fn next_virtual_address_is_the_highest_section_end() {
    let img = sample_image();
    assert_eq!(img.next_virtual_address(), 0x11003);
    let bytes = img.serialize().unwrap();
    let back = load(&bytes).unwrap();
    assert_eq!(back.next_virtual_address(), 0x11003);
}
