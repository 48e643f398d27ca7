//! The relocating linker: it takes a compiled object module (sections of
//! four recognized kinds, a flat symbol table, additive 32-bit relocations)
//! and the image's next free virtual address, assigns each recognized
//! section a virtual address, resolves every symbol to its defining
//! section's start, and rewrites each relocated field in place by adding
//! the resolved address to the stored value.

use vstd::prelude::*;

use crate::bytes::{
    bytes_eq, copy_bytes, le32_at, lemma_store_le32_at_char, read_le32, store_le32, store_le32_at,
};
use crate::errors::UnsupportedInputError;

verus! {

/// Storage class of a symbol that other modules may refer to.
pub const CLASS_EXTERNAL: u8 = 2;

/// Storage class of a symbol private to its module.
pub const CLASS_STATIC: u8 = 3;

/// Storage class of a source-file name entry; carries no address.
pub const CLASS_FILE: u8 = 103;

/// Section flag: the section's memory may be written.
pub const FLAG_WRITABLE: u32 = 0x1;

/// Section flag: the section is loaded ahead of use.
pub const FLAG_PRELOAD: u32 = 0x2;

/// Section flag: the section holds executable code.
pub const FLAG_EXECUTABLE: u32 = 0x4;

/// An address-additive 32-bit relocation: the little-endian field at
/// `offset` inside its section's bytes is increased by the resolved
/// address of the symbol at `symbol_index`.
#[derive(Clone, Copy, Debug, PartialEq, Eq, Structural)]
pub struct Relocation {
    /// Byte offset of the 32-bit field inside the section's bytes.
    pub offset: u32,
    /// Index into the module's symbol table.
    pub symbol_index: u32,
}

/// One section of a relocatable object module.
pub struct ObjectSection {
    /// The section's 8-byte name.
    pub name: Vec<u8>,
    /// The section's raw bytes.
    pub data: Vec<u8>,
    /// The relocations to apply inside `data`.
    pub relocations: Vec<Relocation>,
}

/// One entry of the module's symbol table. A `section_number` of zero
/// means the symbol has no defining section; section numbers count from
/// one.
pub struct SymbolEntry {
    /// The symbol's name.
    pub name: Vec<u8>,
    /// The symbol's storage class.
    pub storage_class: u8,
    /// One-based index of the defining section; zero for none.
    pub section_number: u32,
    /// The symbol's type tag.
    pub typ: u16,
}

/// A compiled relocatable unit: named sections and a flat symbol table.
pub struct ObjectModule {
    /// The module's sections, in object order.
    pub sections: Vec<ObjectSection>,
    /// The module's symbol table.
    pub symbols: Vec<SymbolEntry>,
}

/// The resolved address of a symbol. An import-style external symbol has
/// no defining section and stays `Unresolved`; it is treated as address
/// zero when a relocation adds it, but callers can tell the two apart.
#[derive(Clone, Copy, Debug, PartialEq, Eq, Structural)]
pub enum SymbolAddress {
    /// The symbol resolved to this virtual address.
    Resolved(u32),
    /// The symbol has no defining section.
    Unresolved,
}

/// The numeric address a relocation adds for a resolved symbol.
pub open spec fn symbol_address_value(a: SymbolAddress) -> int {
    match a {
        SymbolAddress::Resolved(v) => v as int,
        SymbolAddress::Unresolved => 0,
    }
}

/// The four recognized kinds of object section.
#[derive(Clone, Copy, Debug, PartialEq, Eq, Structural)]
pub enum SectionKind {
    /// Executable code.
    Text,
    /// Initialized data.
    Data,
    /// Zero-initialized data.
    Bss,
    /// Read-only data.
    Rdata,
}

/// The 8-byte object-section name that marks executable code.
pub open spec fn text_in_name() -> Seq<u8> {
    seq![0x2Eu8, 0x74u8, 0x65u8, 0x78u8, 0x74u8, 0u8, 0u8, 0u8]
}

/// The 8-byte object-section name that marks initialized data.
pub open spec fn data_in_name() -> Seq<u8> {
    seq![0x2Eu8, 0x64u8, 0x61u8, 0x74u8, 0x61u8, 0u8, 0u8, 0u8]
}

/// The 8-byte object-section name that marks zero-initialized data.
pub open spec fn bss_in_name() -> Seq<u8> {
    seq![0x2Eu8, 0x62u8, 0x73u8, 0x73u8, 0u8, 0u8, 0u8, 0u8]
}

/// The 8-byte object-section name that marks read-only data.
pub open spec fn rdata_in_name() -> Seq<u8> {
    seq![0x2Eu8, 0x72u8, 0x64u8, 0x61u8, 0x74u8, 0x61u8, 0u8, 0u8]
}

/// Which recognized kind, if any, an object-section name denotes.
pub open spec fn kind_of(name: Seq<u8>) -> Option<SectionKind> {
    if name == text_in_name() {
        Some(SectionKind::Text)
    } else if name == data_in_name() {
        Some(SectionKind::Data)
    } else if name == bss_in_name() {
        Some(SectionKind::Bss)
    } else if name == rdata_in_name() {
        Some(SectionKind::Rdata)
    } else {
        None
    }
}

/// The name the linked image section carries for each kind.
pub open spec fn out_name(kind: SectionKind) -> Seq<u8> {
    match kind {
        SectionKind::Text => seq![0x2Eu8, 0x6Du8, 0x74u8, 0x65u8, 0x78u8, 0x74u8, 0u8],
        SectionKind::Data => seq![0x2Eu8, 0x6Du8, 0x64u8, 0x61u8, 0x74u8, 0x61u8, 0u8],
        SectionKind::Bss => seq![0x2Eu8, 0x6Du8, 0x62u8, 0x73u8, 0x73u8, 0u8],
        SectionKind::Rdata => seq![0x2Eu8, 0x6Du8, 0x72u8, 0x64u8, 0x61u8, 0x74u8, 0x61u8, 0u8],
    }
}

/// The section flags the linked image section carries for each kind.
pub open spec fn flags_of(kind: SectionKind) -> u32 {
    match kind {
        SectionKind::Text => FLAG_PRELOAD | FLAG_EXECUTABLE,
        SectionKind::Data => FLAG_PRELOAD | FLAG_WRITABLE,
        SectionKind::Bss => FLAG_PRELOAD | FLAG_WRITABLE,
        SectionKind::Rdata => FLAG_PRELOAD,
    }
}

/// Whether a section is one of the four recognized kinds; unrecognized
/// sections are skipped entirely.
pub open spec fn recognized(s: ObjectSection) -> bool {
    kind_of(s.name@) is Some
}

/// `a` rounded up to the next multiple of 0x20.
pub open spec fn round_up_0x20(a: int) -> int {
    a + ((0x20 - a % 0x20) % 0x20)
}

/// The next free virtual address after the first `k` sections were
/// assigned: each recognized section starts there, advances it by its
/// size, and rounds it up to a 0x20 boundary; skipped sections leave it
/// alone. For a recognized section `i`, `addr_after(secs, start, i)` is
/// its own start address.
pub open spec fn addr_after(secs: Seq<ObjectSection>, start: int, k: int) -> int
    decreases k,
{
    if k <= 0 {
        start
    } else {
        let prev = addr_after(secs, start, k - 1);
        if recognized(secs[k - 1]) {
            round_up_0x20(prev + secs[k - 1].data@.len())
        } else {
            prev
        }
    }
}

/// The next free address never moves backwards.
pub proof fn lemma_addr_after_mono(secs: Seq<ObjectSection>, start: int, i: int, j: int)
    requires
        start >= 0,
        0 <= i <= j,
    ensures
        start <= addr_after(secs, start, i) <= addr_after(secs, start, j),
    decreases j,
{
    if j > 0 {
        if i == j {
            lemma_addr_after_mono(secs, start, j - 1, j - 1);
        } else {
            lemma_addr_after_mono(secs, start, i, j - 1);
        }
    }
}

/// The symbol address map after the first `k` symbol-table entries, or
/// `None` once an entry's storage class is unsupported. External and
/// static symbols with a recognized defining section resolve to that
/// section's start; an external symbol with no defining section is kept
/// as `Unresolved`; file entries are ignored; a symbol whose defining
/// section was skipped, or a static symbol without one, is dropped.
pub open spec fn symbol_map_upto(
    secs: Seq<ObjectSection>,
    syms: Seq<SymbolEntry>,
    start: int,
    k: int,
) -> Option<Map<Seq<u8>, SymbolAddress>>
    decreases k,
{
    if k <= 0 {
        Some(Map::empty())
    } else {
        match symbol_map_upto(secs, syms, start, k - 1) {
            None => None,
            Some(acc) => {
                let sym = syms[k - 1];
                if sym.storage_class == CLASS_FILE {
                    Some(acc)
                } else if sym.storage_class == CLASS_EXTERNAL || sym.storage_class == CLASS_STATIC {
                    if 1 <= sym.section_number && sym.section_number <= secs.len() && recognized(
                        secs[sym.section_number as int - 1],
                    ) {
                        Some(
                            acc.insert(
                                sym.name@,
                                SymbolAddress::Resolved(
                                    addr_after(secs, start, sym.section_number as int - 1) as u32,
                                ),
                            ),
                        )
                    } else if sym.storage_class == CLASS_EXTERNAL && sym.section_number == 0 {
                        Some(acc.insert(sym.name@, SymbolAddress::Unresolved))
                    } else {
                        Some(acc)
                    }
                } else {
                    None
                }
            },
        }
    }
}

/// The whole symbol address map of a module, or `None` when some entry's
/// storage class is unsupported.
pub open spec fn symbol_map(
    secs: Seq<ObjectSection>,
    syms: Seq<SymbolEntry>,
    start: int,
) -> Option<Map<Seq<u8>, SymbolAddress>> {
    symbol_map_upto(secs, syms, start, syms.len() as int)
}

/// Whether a storage class is one the linker accepts.
pub open spec fn class_supported(c: u8) -> bool {
    c == CLASS_EXTERNAL || c == CLASS_STATIC || c == CLASS_FILE
}

/// A failed map build stays failed as more entries are taken.
pub proof fn lemma_symbol_map_none_propagates(
    secs: Seq<ObjectSection>,
    syms: Seq<SymbolEntry>,
    start: int,
    i: int,
    j: int,
)
    requires
        0 <= i <= j,
        symbol_map_upto(secs, syms, start, i) is None,
    ensures
        symbol_map_upto(secs, syms, start, j) is None,
    decreases j - i,
{
    if i < j {
        lemma_symbol_map_none_propagates(secs, syms, start, i, j - 1);
    }
}

/// The address a relocation adds: the mapped address of the symbol it
/// names, `None` when the symbol index is out of range or the name is not
/// in the map (the relocation is then skipped).
pub open spec fn reloc_addr(
    map: Map<Seq<u8>, SymbolAddress>,
    syms: Seq<SymbolEntry>,
    r: Relocation,
) -> Option<int> {
    if r.symbol_index < syms.len() && map.contains_key(syms[r.symbol_index as int].name@) {
        Some(symbol_address_value(map[syms[r.symbol_index as int].name@]))
    } else {
        None
    }
}

/// A section's bytes after its first `k` relocations were applied in
/// order: each resolved relocation replaces the 32-bit little-endian
/// field at its offset by the old value plus the resolved address, modulo
/// 2^32.
pub open spec fn apply_relocs(
    data: Seq<u8>,
    relocs: Seq<Relocation>,
    map: Map<Seq<u8>, SymbolAddress>,
    syms: Seq<SymbolEntry>,
    k: int,
) -> Seq<u8>
    decreases k,
{
    if k <= 0 {
        data
    } else {
        let d = apply_relocs(data, relocs, map, syms, k - 1);
        let r = relocs[k - 1];
        match reloc_addr(map, syms, r) {
            None => d,
            Some(a) => {
                if r.offset + 4 <= d.len() {
                    store_le32_at(d, r.offset as int, (le32_at(d, r.offset as int) + a) % 0x100000000)
                } else {
                    d
                }
            },
        }
    }
}

/// The mathematical value of one linked section.
pub struct LinkedSectionModel {
    /// The section name the image will carry.
    pub name: Seq<u8>,
    /// The section's flags.
    pub flags: u32,
    /// The section's bytes with every relocation applied.
    pub data: Seq<u8>,
    /// The assigned virtual start address.
    pub virtual_address: int,
    /// The section's virtual size.
    pub virtual_size: int,
}

/// One linked section, ready to be appended to an image.
pub struct LinkedSection {
    /// The section name the image will carry.
    pub name: Vec<u8>,
    /// The section's flags.
    pub flags: u32,
    /// The section's bytes with every relocation applied.
    pub data: Vec<u8>,
    /// The assigned virtual start address.
    pub virtual_address: u32,
    /// The section's virtual size.
    pub virtual_size: u32,
}

impl View for LinkedSection {
    type V = LinkedSectionModel;

    open spec fn view(&self) -> LinkedSectionModel {
        LinkedSectionModel {
            name: self.name@,
            flags: self.flags,
            data: self.data@,
            virtual_address: self.virtual_address as int,
            virtual_size: self.virtual_size as int,
        }
    }
}

impl DeepView for LinkedSection {
    type V = LinkedSectionModel;

    open spec fn deep_view(&self) -> LinkedSectionModel {
        self.view()
    }
}

/// The linked form of recognized section `i`, given that the module's
/// symbol map was built.
pub open spec fn make_linked(
    secs: Seq<ObjectSection>,
    syms: Seq<SymbolEntry>,
    start: int,
    i: int,
) -> LinkedSectionModel {
    let kind = kind_of(secs[i].name@).unwrap();
    let map = symbol_map(secs, syms, start).unwrap();
    LinkedSectionModel {
        name: out_name(kind),
        flags: flags_of(kind),
        data: apply_relocs(secs[i].data@, secs[i].relocations@, map, syms, secs[i].relocations@.len() as int),
        virtual_address: addr_after(secs, start, i),
        virtual_size: secs[i].data@.len() as int,
    }
}

/// The linked sections produced from the first `k` module sections, in
/// module order, recognized sections only.
pub open spec fn linked_upto(
    secs: Seq<ObjectSection>,
    syms: Seq<SymbolEntry>,
    start: int,
    k: int,
) -> Seq<LinkedSectionModel>
    decreases k,
{
    if k <= 0 {
        Seq::empty()
    } else {
        let prefix = linked_upto(secs, syms, start, k - 1);
        if recognized(secs[k - 1]) {
            prefix + seq![make_linked(secs, syms, start, k - 1)]
        } else {
            prefix
        }
    }
}

/// What the linker asks of its input: every relocation's field lies
/// inside its section's bytes, every section fits a 32-bit size, and the
/// assigned addresses stay within 32 bits.
pub open spec fn module_wf(secs: Seq<ObjectSection>, start: int) -> bool {
    &&& forall|i: int, j: int|
        0 <= i < secs.len() && 0 <= j < secs[i].relocations@.len() ==> (#[trigger] secs[i].relocations@[j]).offset
            + 4 <= secs[i].data@.len()
    &&& forall|i: int| 0 <= i < secs.len() ==> (#[trigger] secs[i].data@.len()) < 0x100000000
    &&& addr_after(secs, start, secs.len() as int) <= 0xFFFFFFFF
}

/// The symbol-name-to-address mapping built once per link and consumed by
/// relocation application. Later entries for a name shadow earlier ones.
pub struct SymbolAddressMap {
    entries: Vec<(Vec<u8>, SymbolAddress)>,
}

/// The mapping an entry list denotes: entries inserted first to last.
pub open spec fn assoc_map(s: Seq<(Vec<u8>, SymbolAddress)>) -> Map<Seq<u8>, SymbolAddress>
    decreases s.len(),
{
    if s.len() == 0 {
        Map::empty()
    } else {
        assoc_map(s.drop_last()).insert(s.last().0@, s.last().1)
    }
}

/// The last entry for a name decides its mapped address.
proof fn lemma_assoc_lookup(s: Seq<(Vec<u8>, SymbolAddress)>, name: Seq<u8>, k: int)
    requires
        0 <= k < s.len(),
        s[k].0@ == name,
        forall|l: int| k < l < s.len() ==> (#[trigger] s[l]).0@ != name,
    ensures
        assoc_map(s).contains_key(name),
        assoc_map(s)[name] == s[k].1,
    decreases s.len(),
{
    if k == s.len() - 1 {
    } else {
        assert(s.drop_last()[k] == s[k]);
        lemma_assoc_lookup(s.drop_last(), name, k);
    }
}

/// A name no entry carries is not in the mapping.
proof fn lemma_assoc_absent(s: Seq<(Vec<u8>, SymbolAddress)>, name: Seq<u8>)
    requires
        forall|l: int| 0 <= l < s.len() ==> (#[trigger] s[l]).0@ != name,
    ensures
        !assoc_map(s).contains_key(name),
    decreases s.len(),
{
    if s.len() > 0 {
        lemma_assoc_absent(s.drop_last(), name);
    }
}

impl View for SymbolAddressMap {
    type V = Map<Seq<u8>, SymbolAddress>;

    closed spec fn view(&self) -> Map<Seq<u8>, SymbolAddress> {
        assoc_map(self.entries@)
    }
}

impl SymbolAddressMap {
    /// An empty mapping.
    pub fn new() -> (r: SymbolAddressMap)
        ensures
            r@ == Map::<Seq<u8>, SymbolAddress>::empty(),
    {
        SymbolAddressMap { entries: Vec::new() }
    }

    /// Binds `name` to `addr`, shadowing any earlier binding.
    pub fn insert(&mut self, name: Vec<u8>, addr: SymbolAddress)
        ensures
            final(self)@ == old(self)@.insert(name@, addr),
    {
        self.entries.push((name, addr));
        proof {
            assert(self.entries@.drop_last() =~= old(self).entries@);
        }
    }

    /// The address bound to `name`, if any.
    pub fn lookup(&self, name: &Vec<u8>) -> (r: Option<SymbolAddress>)
        ensures
            r == (if self@.contains_key(name@) {
                Some(self@[name@])
            } else {
                None::<SymbolAddress>
            }),
    {
        let n = self.entries.len();
        let mut j: usize = n;
        while j > 0
            invariant
                j <= n,
                n == self.entries.len(),
                forall|l: int| j <= l < n ==> (#[trigger] self.entries@[l]).0@ != name@,
            decreases j,
        {
            j = j - 1;
            if bytes_eq(&self.entries[j].0, name) {
                proof {
                    lemma_assoc_lookup(self.entries@, name@, j as int);
                }
                return Some(self.entries[j].1);
            }
        }
        proof {
            lemma_assoc_absent(self.entries@, name@);
        }
        None
    }
}

/// Which recognized kind, if any, a section name denotes.
fn kind_of_name(name: &Vec<u8>) -> (r: Option<SectionKind>)
    ensures
        r == kind_of(name@),
{
    let text: Vec<u8> = vec![0x2E, 0x74, 0x65, 0x78, 0x74, 0, 0, 0];
    let data: Vec<u8> = vec![0x2E, 0x64, 0x61, 0x74, 0x61, 0, 0, 0];
    let bss: Vec<u8> = vec![0x2E, 0x62, 0x73, 0x73, 0, 0, 0, 0];
    let rdata: Vec<u8> = vec![0x2E, 0x72, 0x64, 0x61, 0x74, 0x61, 0, 0];
    proof {
        assert(text@ =~= text_in_name());
        assert(data@ =~= data_in_name());
        assert(bss@ =~= bss_in_name());
        assert(rdata@ =~= rdata_in_name());
    }
    if bytes_eq(name, &text) {
        Some(SectionKind::Text)
    } else if bytes_eq(name, &data) {
        Some(SectionKind::Data)
    } else if bytes_eq(name, &bss) {
        Some(SectionKind::Bss)
    } else if bytes_eq(name, &rdata) {
        Some(SectionKind::Rdata)
    } else {
        None
    }
}

/// The image-section name for a recognized kind.
fn make_out_name(kind: SectionKind) -> (r: Vec<u8>)
    ensures
        r@ == out_name(kind),
{
    match kind {
        SectionKind::Text => {
            let v: Vec<u8> = vec![0x2E, 0x6D, 0x74, 0x65, 0x78, 0x74, 0];
            proof {
                assert(v@ =~= out_name(SectionKind::Text));
            }
            v
        },
        SectionKind::Data => {
            let v: Vec<u8> = vec![0x2E, 0x6D, 0x64, 0x61, 0x74, 0x61, 0];
            proof {
                assert(v@ =~= out_name(SectionKind::Data));
            }
            v
        },
        SectionKind::Bss => {
            let v: Vec<u8> = vec![0x2E, 0x6D, 0x62, 0x73, 0x73, 0];
            proof {
                assert(v@ =~= out_name(SectionKind::Bss));
            }
            v
        },
        SectionKind::Rdata => {
            let v: Vec<u8> = vec![0x2E, 0x6D, 0x72, 0x64, 0x61, 0x74, 0x61, 0];
            proof {
                assert(v@ =~= out_name(SectionKind::Rdata));
            }
            v
        },
    }
}

/// The flags for a recognized kind.
fn make_flags(kind: SectionKind) -> (r: u32)
    ensures
        r == flags_of(kind),
{
    match kind {
        SectionKind::Text => FLAG_PRELOAD | FLAG_EXECUTABLE,
        SectionKind::Data => FLAG_PRELOAD | FLAG_WRITABLE,
        SectionKind::Bss => FLAG_PRELOAD | FLAG_WRITABLE,
        SectionKind::Rdata => FLAG_PRELOAD,
    }
}

/// Rounds an address up to the next 0x20 boundary.
fn align_up_0x20(a: u32) -> (r: u32)
    requires
        round_up_0x20(a as int) <= u32::MAX,
    ensures
        r == round_up_0x20(a as int),
{
    let rem = a % 0x20;
    if rem == 0 {
        a
    } else {
        a + (0x20 - rem)
    }
}

/// Links one object module at `next_virtual_address`: assigns each
/// recognized section its virtual address in module order, builds the
/// symbol address map, applies every resolvable relocation in place, and
/// returns the linked sections ready to be appended to an image. A symbol
/// whose storage class is unsupported aborts the link.
pub fn link(module: &ObjectModule, next_virtual_address: u32) -> (r: Result<
    Vec<LinkedSection>,
    UnsupportedInputError,
>)
    requires
        module_wf(module.sections@, next_virtual_address as int),
    ensures
        ({
            let secs = module.sections@;
            let syms = module.symbols@;
            let start = next_virtual_address as int;
            &&& (r is Ok <==> symbol_map(secs, syms, start) is Some)
            &&& (r is Ok ==> r.unwrap().deep_view() == linked_upto(
                secs,
                syms,
                start,
                secs.len() as int,
            ))
            &&& (forall|k: int|
                0 <= k < syms.len() && symbol_map_upto(secs, syms, start, k) is Some
                    && !class_supported((#[trigger] syms[k]).storage_class) ==> r == Err::<
                    Vec<LinkedSection>,
                    UnsupportedInputError,
                >(UnsupportedInputError { storage_class: syms[k].storage_class }))
        }),
{
    let ghost secs = module.sections@;
    let ghost syms = module.symbols@;
    let ghost start = next_virtual_address as int;
    let nsec = module.sections.len();
    let nsym = module.symbols.len();

    // Assign a start address to every recognized section, in module order.
    let mut starts: Vec<Option<u32>> = Vec::new();
    let mut cur: u32 = next_virtual_address;
    let mut i: usize = 0;
    while i < nsec
        invariant
            secs == module.sections@,
            start == next_virtual_address as int,
            module_wf(secs, start),
            nsec == secs.len(),
            i <= nsec,
            starts@.len() == i,
            cur == addr_after(secs, start, i as int),
            forall|j: int|
                0 <= j < i ==> starts@[j] == (if recognized(secs[j]) {
                    Some(addr_after(secs, start, j) as u32)
                } else {
                    None::<u32>
                }),
        decreases nsec - i,
    {
        let kind = kind_of_name(&module.sections[i].name);
        if kind.is_some() {
            proof {
                lemma_addr_after_mono(secs, start, i as int + 1, nsec as int);
            }
            starts.push(Some(cur));
            let size = module.sections[i].data.len() as u32;
            cur = align_up_0x20(cur + size);
        } else {
            starts.push(None);
        }
        i = i + 1;
    }

    // Build the symbol address map, aborting on an unsupported class.
    let mut map = SymbolAddressMap::new();
    let mut k: usize = 0;
    while k < nsym
        invariant
            secs == module.sections@,
            syms == module.symbols@,
            start == next_virtual_address as int,
            module_wf(secs, start),
            nsec == secs.len(),
            nsym == syms.len(),
            k <= nsym,
            starts@.len() == nsec,
            forall|j: int|
                0 <= j < nsec ==> starts@[j] == (if recognized(secs[j]) {
                    Some(addr_after(secs, start, j) as u32)
                } else {
                    None::<u32>
                }),
            symbol_map_upto(secs, syms, start, k as int) == Some(map@),
        decreases nsym - k,
    {
        let class = module.symbols[k].storage_class;
        if class == CLASS_FILE {
            // a source-file entry carries no address
        } else if class == CLASS_EXTERNAL || class == CLASS_STATIC {
            let secnum = module.symbols[k].section_number;
            if secnum >= 1 && (secnum as usize) <= nsec {
                match starts[secnum as usize - 1] {
                    Some(a) => {
                        let name = copy_bytes(&module.symbols[k].name);
                        map.insert(name, SymbolAddress::Resolved(a));
                    },
                    None => {
                        // the defining section was skipped: the symbol is dropped
                    },
                }
            } else if class == CLASS_EXTERNAL && secnum == 0 {
                let name = copy_bytes(&module.symbols[k].name);
                map.insert(name, SymbolAddress::Unresolved);
            } else {
                // no defining section in range: the symbol is dropped
            }
        } else {
            proof {
                assert(symbol_map_upto(secs, syms, start, k as int + 1) is None);
                lemma_symbol_map_none_propagates(secs, syms, start, k as int + 1, nsym as int);
                assert forall|k2: int|
                    0 <= k2 < syms.len() && symbol_map_upto(secs, syms, start, k2) is Some
                        && !class_supported((#[trigger] syms[k2]).storage_class) implies k2
                    == k as int by {
                    if k2 < k as int {
                        assert(symbol_map_upto(secs, syms, start, k2 + 1) is None);
                        lemma_symbol_map_none_propagates(secs, syms, start, k2 + 1, k as int);
                    }
                    if k2 > k as int {
                        lemma_symbol_map_none_propagates(secs, syms, start, k as int + 1, k2);
                    }
                }
            }
            return Err(UnsupportedInputError { storage_class: class });
        }
        k = k + 1;
    }

    // Apply relocations and emit the linked sections, in module order.
    let ghost fullmap = map@;
    let mut out: Vec<LinkedSection> = Vec::new();
    let mut s: usize = 0;
    while s < nsec
        invariant
            secs == module.sections@,
            syms == module.symbols@,
            start == next_virtual_address as int,
            module_wf(secs, start),
            nsec == secs.len(),
            nsym == syms.len(),
            s <= nsec,
            starts@.len() == nsec,
            forall|j: int|
                0 <= j < nsec ==> starts@[j] == (if recognized(secs[j]) {
                    Some(addr_after(secs, start, j) as u32)
                } else {
                    None::<u32>
                }),
            map@ == fullmap,
            Some(fullmap) == symbol_map(secs, syms, start),
            out.deep_view() == linked_upto(secs, syms, start, s as int),
        decreases nsec - s,
    {
        let kind_opt = kind_of_name(&module.sections[s].name);
        match kind_opt {
            None => {},
            Some(kind) => {
                let mut data = copy_bytes(&module.sections[s].data);
                let ghost data0 = secs[s as int].data@;
                let ghost relocs = secs[s as int].relocations@;
                let nrel = module.sections[s].relocations.len();
                let mut rj: usize = 0;
                while rj < nrel
                    invariant
                        secs == module.sections@,
                        syms == module.symbols@,
                        module_wf(secs, start),
                        nsec == secs.len(),
                        nsym == syms.len(),
                        s < nsec,
                        data0 == secs[s as int].data@,
                        relocs == secs[s as int].relocations@,
                        nrel == relocs.len(),
                        rj <= nrel,
                        map@ == fullmap,
                        data@ == apply_relocs(data0, relocs, fullmap, syms, rj as int),
                        data@.len() == data0.len(),
                    decreases nrel - rj,
                {
                    let sym_idx = module.sections[s].relocations[rj].symbol_index;
                    let offset = module.sections[s].relocations[rj].offset;
                    if (sym_idx as usize) < nsym {
                        match map.lookup(&module.symbols[sym_idx as usize].name) {
                            None => {
                                // the name resolved to nothing: skipped
                            },
                            Some(sa) => {
                                let a: u32 = match sa {
                                    SymbolAddress::Resolved(v) => v,
                                    SymbolAddress::Unresolved => 0,
                                };
                                let existing = read_le32(&data, offset as usize);
                                let sum: u64 = existing as u64 + a as u64;
                                let newv: u32 = (sum % 0x100000000) as u32;
                                store_le32(&mut data, offset as usize, newv);
                            },
                        }
                    }
                    rj = rj + 1;
                }
                let name = make_out_name(kind);
                let flags = make_flags(kind);
                let vaddr = match starts[s] {
                    Some(a) => a,
                    None => {
                        proof {
                            assert(false);
                        }
                        0
                    },
                };
                let vsize = module.sections[s].data.len() as u32;
                proof {
                    lemma_addr_after_mono(secs, start, s as int, nsec as int);
                }
                out.push(
                    LinkedSection { name, flags, data, virtual_address: vaddr, virtual_size: vsize },
                );
                proof {
                    assert(out.deep_view() =~= linked_upto(secs, syms, start, s as int + 1));
                }
            },
        }
        s = s + 1;
    }
    proof {
        assert forall|k2: int|
            !(0 <= k2 < syms.len() && symbol_map_upto(secs, syms, start, k2) is Some
                && !class_supported((#[trigger] syms[k2]).storage_class)) by {
            if 0 <= k2 < syms.len() && symbol_map_upto(secs, syms, start, k2) is Some
                && !class_supported(syms[k2].storage_class) {
                assert(symbol_map_upto(secs, syms, start, k2 + 1) is None);
                lemma_symbol_map_none_propagates(secs, syms, start, k2 + 1, syms.len() as int);
            }
        }
    }
    Ok(out)
}

/// A symbol's mapped address is unchanged by later table entries that
/// carry other names.
proof fn lemma_symbol_map_preserved(
    secs: Seq<ObjectSection>,
    syms: Seq<SymbolEntry>,
    start: int,
    j: int,
    k: int,
)
    requires
        0 <= j < k <= syms.len(),
        symbol_map_upto(secs, syms, start, k) is Some,
        forall|l: int| j < l < k ==> (#[trigger] syms[l]).name@ != syms[j].name@,
    ensures
        symbol_map_upto(secs, syms, start, j + 1) is Some,
        symbol_map_upto(secs, syms, start, j + 1).unwrap().contains_key(syms[j].name@)
            ==> symbol_map_upto(secs, syms, start, k).unwrap().contains_key(syms[j].name@)
            && symbol_map_upto(secs, syms, start, k).unwrap()[syms[j].name@] == symbol_map_upto(
            secs,
            syms,
            start,
            j + 1,
        ).unwrap()[syms[j].name@],
    decreases k - j,
{
    if k > j + 1 {
        lemma_symbol_map_preserved(secs, syms, start, j, k - 1);
    }
}

/// Law: an external or static symbol whose defining section is recognized,
/// and whose name no later table entry reuses, resolves to that section's
/// assigned start address.
pub proof fn lemma_symbol_resolves(
    secs: Seq<ObjectSection>,
    syms: Seq<SymbolEntry>,
    start: int,
    j: int,
)
    requires
        symbol_map(secs, syms, start) is Some,
        0 <= j < syms.len(),
        syms[j].storage_class == CLASS_EXTERNAL || syms[j].storage_class == CLASS_STATIC,
        1 <= syms[j].section_number <= secs.len(),
        recognized(secs[syms[j].section_number as int - 1]),
        forall|l: int| j < l < syms.len() ==> (#[trigger] syms[l]).name@ != syms[j].name@,
    ensures
        symbol_map(secs, syms, start).unwrap().contains_key(syms[j].name@),
        symbol_map(secs, syms, start).unwrap()[syms[j].name@] == SymbolAddress::Resolved(
            addr_after(secs, start, syms[j].section_number as int - 1) as u32,
        ),
{
    lemma_symbol_map_preserved(secs, syms, start, j, syms.len() as int);
}

/// How many of the first `k` sections are recognized.
pub open spec fn recognized_count(secs: Seq<ObjectSection>, k: int) -> int
    decreases k,
{
    if k <= 0 {
        0
    } else {
        recognized_count(secs, k - 1) + if recognized(secs[k - 1]) {
            1int
        } else {
            0int
        }
    }
}

/// The linked output of a prefix has one entry per recognized section.
pub proof fn lemma_linked_upto_len(
    secs: Seq<ObjectSection>,
    syms: Seq<SymbolEntry>,
    start: int,
    k: int,
)
    ensures
        linked_upto(secs, syms, start, k).len() == recognized_count(secs, k),
        recognized_count(secs, k) >= 0,
    decreases k,
{
    if k > 0 {
        lemma_linked_upto_len(secs, syms, start, k - 1);
    }
}

/// Law: recognized section `i` of the module stands in the linked output
/// at position `recognized_count(secs, i)`, as `make_linked` describes it.
pub proof fn lemma_linked_upto_index(
    secs: Seq<ObjectSection>,
    syms: Seq<SymbolEntry>,
    start: int,
    i: int,
    k: int,
)
    requires
        0 <= i < k <= secs.len(),
        recognized(secs[i]),
    ensures
        0 <= recognized_count(secs, i) < linked_upto(secs, syms, start, k).len(),
        linked_upto(secs, syms, start, k)[recognized_count(secs, i)] == make_linked(
            secs,
            syms,
            start,
            i,
        ),
    decreases k,
{
    lemma_linked_upto_len(secs, syms, start, i);
    lemma_linked_upto_len(secs, syms, start, k - 1);
    lemma_linked_upto_len(secs, syms, start, k);
    if k == i + 1 {
    } else {
        lemma_linked_upto_index(secs, syms, start, i, k - 1);
        lemma_recognized_count_mono(secs, i + 1, k - 1);
    }
}

/// Counting recognized sections never decreases along the module.
proof fn lemma_recognized_count_mono(secs: Seq<ObjectSection>, a: int, b: int)
    requires
        0 <= a <= b,
    ensures
        recognized_count(secs, a) <= recognized_count(secs, b),
    decreases b - a,
{
    if a < b {
        lemma_recognized_count_mono(secs, a, b - 1);
    }
}

/// Law: a relocation at offset `k` inside recognized section `ia`,
/// naming a symbol defined in recognized section `ib` (and shadowed by no
/// later entry of the same name), rewrites the stored little-endian value
/// `addend` at `k` to `addend` plus section `ib`'s assigned virtual start
/// address, modulo 2^32, and leaves the section's size alone.
pub proof fn lemma_relocation_adds_section_start(
    secs: Seq<ObjectSection>,
    syms: Seq<SymbolEntry>,
    start: int,
    ia: int,
    ib: int,
)
    requires
        module_wf(secs, start),
        start >= 0,
        0 <= ia < secs.len(),
        0 <= ib < secs.len(),
        recognized(secs[ia]),
        recognized(secs[ib]),
        secs[ia].relocations@.len() == 1,
        secs[ia].relocations@[0].symbol_index < syms.len(),
        syms[secs[ia].relocations@[0].symbol_index as int].storage_class == CLASS_EXTERNAL
            || syms[secs[ia].relocations@[0].symbol_index as int].storage_class == CLASS_STATIC,
        syms[secs[ia].relocations@[0].symbol_index as int].section_number == ib + 1,
        forall|l: int|
            secs[ia].relocations@[0].symbol_index < l < syms.len() ==> (#[trigger] syms[l]).name@
                != syms[secs[ia].relocations@[0].symbol_index as int].name@,
        symbol_map(secs, syms, start) is Some,
    ensures
        ({
            let off = secs[ia].relocations@[0].offset as int;
            let linked_a = make_linked(secs, syms, start, ia);
            let v_b = addr_after(secs, start, ib);
            &&& linked_a.data.len() == secs[ia].data@.len()
            &&& le32_at(linked_a.data, off) == (le32_at(secs[ia].data@, off) + v_b)
                % 0x100000000
            &&& make_linked(secs, syms, start, ib).virtual_address == v_b
        }),
{
    let r = secs[ia].relocations@[0];
    let j = r.symbol_index as int;
    let name = syms[j].name@;
    let map = symbol_map(secs, syms, start).unwrap();
    let v_b = addr_after(secs, start, ib);
    lemma_symbol_resolves(secs, syms, start, j);
    lemma_addr_after_mono(secs, start, ib, secs.len() as int);
    assert(map[name] == SymbolAddress::Resolved(v_b as u32));
    assert(symbol_address_value(map[name]) == v_b);
    let data = secs[ia].data@;
    assert(r.offset + 4 <= data.len());
    let val = (le32_at(data, r.offset as int) + v_b) % 0x100000000;
    assert(apply_relocs(data, secs[ia].relocations@, map, syms, 0) == data);
    assert(reloc_addr(map, syms, r) == Some(v_b));
    assert(apply_relocs(data, secs[ia].relocations@, map, syms, 1) == store_le32_at(
        data,
        r.offset as int,
        val,
    ));
    crate::bytes::lemma_field_bounds(data, r.offset as int);
    lemma_store_le32_at_char(data, r.offset as int, val);
}

} // verus!
