use xbekit::errors::UnsupportedInputError;
use xbekit::linker::{
    link, ObjectModule, ObjectSection, Relocation, SymbolEntry, CLASS_EXTERNAL, CLASS_FILE,
    CLASS_STATIC, FLAG_EXECUTABLE, FLAG_PRELOAD, FLAG_WRITABLE,
};

fn text_name() -> Vec<u8> {
    vec![0x2E, 0x74, 0x65, 0x78, 0x74, 0, 0, 0]
}

fn data_name() -> Vec<u8> {
    vec![0x2E, 0x64, 0x61, 0x74, 0x61, 0, 0, 0]
}

#[test]
fn relocation_adds_the_defining_sections_start() {
    // Section A (.text) holds an addend of 0x10 at offset 0 and one
    // relocation naming a symbol defined in section B (.data).
    let module = ObjectModule {
        sections: vec![
            ObjectSection {
                name: text_name(),
                data: vec![0x10, 0x00, 0x00, 0x00, 0, 0, 0, 0],
                relocations: vec![Relocation { offset: 0, symbol_index: 0 }],
            },
            ObjectSection {
                name: data_name(),
                data: vec![1, 2, 3, 4],
                relocations: vec![],
            },
        ],
        symbols: vec![SymbolEntry {
            name: b"shared".to_vec(),
            storage_class: CLASS_EXTERNAL,
            section_number: 2,
            typ: 0x20,
        }],
    };
    let out = link(&module, 0x100).unwrap();
    assert_eq!(out.len(), 2);
    // A sits at 0x100; its 8 bytes end at 0x108, rounded up to 0x120.
    assert_eq!(out[0].virtual_address, 0x100);
    assert_eq!(out[1].virtual_address, 0x120);
    assert_eq!(out[0].name, vec![0x2E, 0x6D, 0x74, 0x65, 0x78, 0x74, 0]);
    assert_eq!(out[0].flags, FLAG_PRELOAD | FLAG_EXECUTABLE);
    assert_eq!(out[1].name, vec![0x2E, 0x6D, 0x64, 0x61, 0x74, 0x61, 0]);
    assert_eq!(out[1].flags, FLAG_PRELOAD | FLAG_WRITABLE);
    // The addend plus V_B, little endian: 0x10 + 0x120 == 0x130.
    assert_eq!(&out[0].data[0..4], &[0x30, 0x01, 0x00, 0x00]);
    assert_eq!(out[1].data, vec![1, 2, 3, 4]);
    assert_eq!(out[0].virtual_size, 8);
    assert_eq!(out[1].virtual_size, 4);
}

#[test]
fn unrecognized_sections_are_skipped() {
    let module = ObjectModule {
        sections: vec![
            ObjectSection {
                name: b".debug\0\0".to_vec(),
                data: vec![9, 9],
                relocations: vec![],
            },
            ObjectSection {
                name: text_name(),
                data: vec![0u8; 4],
                relocations: vec![],
            },
        ],
        symbols: vec![],
    };
    let out = link(&module, 0x40).unwrap();
    assert_eq!(out.len(), 1);
    assert_eq!(out[0].virtual_address, 0x40);
}

#[test]
fn unsupported_storage_class_aborts_the_link() {
    let module = ObjectModule {
        sections: vec![],
        symbols: vec![
            SymbolEntry {
                name: b"f".to_vec(),
                storage_class: CLASS_FILE,
                section_number: 0,
                typ: 0,
            },
            SymbolEntry {
                name: b"odd".to_vec(),
                storage_class: 77,
                section_number: 0,
                typ: 0,
            },
        ],
    };
    let r = link(&module, 0);
    assert_eq!(r.err(), Some(UnsupportedInputError { storage_class: 77 }));
}

#[test]
fn import_symbol_resolves_as_address_zero() {
    // The relocation names an import-style external: the stored value is
    // left as is, since the unresolved placeholder adds zero.
    let module = ObjectModule {
        sections: vec![ObjectSection {
            name: text_name(),
            data: vec![0x44, 0x33, 0x22, 0x11],
            relocations: vec![Relocation { offset: 0, symbol_index: 0 }],
        }],
        symbols: vec![SymbolEntry {
            name: b"import".to_vec(),
            storage_class: CLASS_EXTERNAL,
            section_number: 0,
            typ: 0,
        }],
    };
    let out = link(&module, 0x1000).unwrap();
    assert_eq!(&out[0].data[..], &[0x44, 0x33, 0x22, 0x11]);
}

#[test]
fn static_symbol_resolves_through_its_section() {
    let module = ObjectModule {
        sections: vec![ObjectSection {
            name: text_name(),
            data: vec![0, 0, 0, 0],
            relocations: vec![Relocation { offset: 0, symbol_index: 0 }],
        }],
        symbols: vec![SymbolEntry {
            name: b"local".to_vec(),
            storage_class: CLASS_STATIC,
            section_number: 1,
            typ: 0,
        }],
    };
    let out = link(&module, 0x200).unwrap();
    assert_eq!(&out[0].data[..], &[0x00, 0x02, 0x00, 0x00]);
}

#[test]
fn missing_symbol_skips_the_relocation() {
    let module = ObjectModule {
        sections: vec![ObjectSection {
            name: text_name(),
            data: vec![0xAB, 0, 0, 0],
            relocations: vec![Relocation { offset: 0, symbol_index: 5 }],
        }],
        symbols: vec![],
    };
    let out = link(&module, 0).unwrap();
    assert_eq!(&out[0].data[..], &[0xAB, 0, 0, 0]);
}
