//! The executable-container codec.
//!
//! An image file is, in file order: a fixed-size header (magic, signature,
//! base address, declared image size, entry point, and the absolute
//! address of every other region), a certificate (three metadata words and
//! a reserved tail sized by a declared total certificate size), the
//! section-header table, the packed null-terminated section names, the
//! library-version records on the next 4-byte boundary, the debug UTF-16
//! filename, the debug ASCII pathname (the ASCII filename is a suffix of
//! it and is not written separately), the logo bitmap, and — after the
//! header region is padded to a 0x1000 boundary — every section payload at
//! its raw file address, each padded to the next 0x1000 boundary. All
//! header fields hold absolute memory addresses: subtracting the base
//! address yields the file offset. Raw section addresses are file
//! offsets already.

use vstd::prelude::*;

use crate::bytes::{le16_bytes, le32_bytes};

verus! {

/// The size of the fixed header, in bytes.
pub const HEADER_LEN: usize = 312;

/// The size of the digital signature inside the header, in bytes.
pub const SIGNATURE_LEN: usize = 256;

/// The size of one section-header table entry, in bytes.
pub const SECTION_HEADER_LEN: usize = 44;

/// The size of one library-version record, in bytes.
pub const LIBRARY_VERSION_LEN: usize = 16;

/// The size of a section digest, in bytes.
pub const DIGEST_LEN: usize = 20;

/// The certificate's fixed part: its size word and three metadata words.
pub const CERTIFICATE_FIXED_LEN: usize = 16;

/// The mathematical value of a certificate.
#[verifier::ext_equal]
pub struct CertificateModel {
    /// The product identifier.
    pub title_id: u32,
    /// The region code.
    pub region: u32,
    /// The product version.
    pub version: u32,
    /// The reserved tail; the declared certificate size is 16 plus its
    /// length.
    pub reserved: Seq<u8>,
}

/// The certificate record: product metadata and a reserved tail.
pub struct Certificate {
    /// The product identifier.
    pub title_id: u32,
    /// The region code.
    pub region: u32,
    /// The product version.
    pub version: u32,
    /// The reserved tail; the declared certificate size is 16 plus its
    /// length.
    pub reserved: Vec<u8>,
}

impl View for Certificate {
    type V = CertificateModel;

    open spec fn view(&self) -> CertificateModel {
        CertificateModel {
            title_id: self.title_id,
            region: self.region,
            version: self.version,
            reserved: self.reserved@,
        }
    }
}

/// The mathematical value of a section-header table entry.
#[verifier::ext_equal]
pub struct SectionHeaderModel {
    /// The section's flags.
    pub flags: u32,
    /// The section's virtual (runtime) address.
    pub virtual_address: u32,
    /// The section's virtual size.
    pub virtual_size: u32,
    /// The file offset of the section's payload; a file offset, not a
    /// memory address.
    pub raw_address: u32,
    /// The payload's size in the file.
    pub raw_size: u32,
    /// The absolute memory address of the section's null-terminated name.
    pub name_address: u32,
    /// The section's 20-byte digest.
    pub digest: Seq<u8>,
}

/// One section-header table entry.
pub struct SectionHeader {
    /// The section's flags.
    pub flags: u32,
    /// The section's virtual (runtime) address.
    pub virtual_address: u32,
    /// The section's virtual size.
    pub virtual_size: u32,
    /// The file offset of the section's payload; a file offset, not a
    /// memory address.
    pub raw_address: u32,
    /// The payload's size in the file.
    pub raw_size: u32,
    /// The absolute memory address of the section's null-terminated name.
    pub name_address: u32,
    /// The section's 20-byte digest.
    pub digest: Vec<u8>,
}

impl View for SectionHeader {
    type V = SectionHeaderModel;

    open spec fn view(&self) -> SectionHeaderModel {
        SectionHeaderModel {
            flags: self.flags,
            virtual_address: self.virtual_address,
            virtual_size: self.virtual_size,
            raw_address: self.raw_address,
            raw_size: self.raw_size,
            name_address: self.name_address,
            digest: self.digest@,
        }
    }
}

impl DeepView for SectionHeader {
    type V = SectionHeaderModel;

    open spec fn deep_view(&self) -> SectionHeaderModel {
        self.view()
    }
}

/// The mathematical value of a library-version record.
#[verifier::ext_equal]
pub struct LibraryVersionModel {
    /// The library's 8-byte name.
    pub name: Seq<u8>,
    /// The major version.
    pub major: u16,
    /// The minor version.
    pub minor: u16,
    /// The build number.
    pub build: u16,
    /// The record's flags.
    pub flags: u16,
}

/// One library-version record.
pub struct LibraryVersion {
    /// The library's 8-byte name.
    pub name: Vec<u8>,
    /// The major version.
    pub major: u16,
    /// The minor version.
    pub minor: u16,
    /// The build number.
    pub build: u16,
    /// The record's flags.
    pub flags: u16,
}

impl View for LibraryVersion {
    type V = LibraryVersionModel;

    open spec fn view(&self) -> LibraryVersionModel {
        LibraryVersionModel {
            name: self.name@,
            major: self.major,
            minor: self.minor,
            build: self.build,
            flags: self.flags,
        }
    }
}

impl DeepView for LibraryVersion {
    type V = LibraryVersionModel;

    open spec fn deep_view(&self) -> LibraryVersionModel {
        self.view()
    }
}

/// The mathematical value of a whole image.
#[verifier::ext_equal]
pub struct ImageModel {
    /// The magic word.
    pub magic: u32,
    /// The 256-byte digital signature.
    pub signature: Seq<u8>,
    /// The address the image is loaded at; every address field minus this
    /// is a file offset.
    pub base_address: u32,
    /// The declared total image size.
    pub image_size: u32,
    /// The entry point address.
    pub entry_point: u32,
    /// The certificate's absolute address.
    pub certificate_address: u32,
    /// The section-header table's absolute address.
    pub section_headers_address: u32,
    /// The library-version records' absolute address.
    pub library_versions_address: u32,
    /// The debug ASCII pathname's absolute address.
    pub debug_pathname_address: u32,
    /// The debug ASCII filename's absolute address; it points inside the
    /// pathname, of which the filename is a suffix.
    pub debug_filename_address: u32,
    /// The debug UTF-16 filename's absolute address.
    pub debug_unicode_filename_address: u32,
    /// The logo bitmap's absolute address.
    pub logo_address: u32,
    /// The certificate.
    pub certificate: CertificateModel,
    /// The section-header table.
    pub section_headers: Seq<SectionHeaderModel>,
    /// The section names, one per header, null terminators stripped.
    pub section_names: Seq<Seq<u8>>,
    /// The library-version records.
    pub library_versions: Seq<LibraryVersionModel>,
    /// The debug ASCII pathname, null terminator stripped.
    pub debug_pathname: Seq<u8>,
    /// The debug ASCII filename, a suffix of the pathname.
    pub debug_filename: Seq<u8>,
    /// The debug UTF-16 filename, code units, terminator stripped.
    pub debug_unicode_filename: Seq<u16>,
    /// The logo bitmap.
    pub logo: Seq<u8>,
    /// The section payloads, index-aligned with the header table.
    pub sections: Seq<Seq<u8>>,
}

/// A loaded executable image. Modifying one goes through new section
/// lists or a separate patch buffer; `load` builds it and `serialize`
/// re-emits it.
pub struct ExecutableImage {
    /// The magic word.
    pub magic: u32,
    /// The 256-byte digital signature.
    pub signature: Vec<u8>,
    /// The address the image is loaded at; every address field minus this
    /// is a file offset.
    pub base_address: u32,
    /// The declared total image size.
    pub image_size: u32,
    /// The entry point address.
    pub entry_point: u32,
    /// The certificate's absolute address.
    pub certificate_address: u32,
    /// The section-header table's absolute address.
    pub section_headers_address: u32,
    /// The library-version records' absolute address.
    pub library_versions_address: u32,
    /// The debug ASCII pathname's absolute address.
    pub debug_pathname_address: u32,
    /// The debug ASCII filename's absolute address; it points inside the
    /// pathname, of which the filename is a suffix.
    pub debug_filename_address: u32,
    /// The debug UTF-16 filename's absolute address.
    pub debug_unicode_filename_address: u32,
    /// The logo bitmap's absolute address.
    pub logo_address: u32,
    /// The certificate.
    pub certificate: Certificate,
    /// The section-header table.
    pub section_headers: Vec<SectionHeader>,
    /// The section names, one per header, null terminators stripped.
    pub section_names: Vec<Vec<u8>>,
    /// The library-version records.
    pub library_versions: Vec<LibraryVersion>,
    /// The debug ASCII pathname, null terminator stripped.
    pub debug_pathname: Vec<u8>,
    /// The debug ASCII filename, a suffix of the pathname.
    pub debug_filename: Vec<u8>,
    /// The debug UTF-16 filename, code units, terminator stripped.
    pub debug_unicode_filename: Vec<u16>,
    /// The logo bitmap.
    pub logo: Vec<u8>,
    /// The section payloads, index-aligned with the header table.
    pub sections: Vec<Vec<u8>>,
}

impl View for ExecutableImage {
    type V = ImageModel;

    open spec fn view(&self) -> ImageModel {
        ImageModel {
            magic: self.magic,
            signature: self.signature@,
            base_address: self.base_address,
            image_size: self.image_size,
            entry_point: self.entry_point,
            certificate_address: self.certificate_address,
            section_headers_address: self.section_headers_address,
            library_versions_address: self.library_versions_address,
            debug_pathname_address: self.debug_pathname_address,
            debug_filename_address: self.debug_filename_address,
            debug_unicode_filename_address: self.debug_unicode_filename_address,
            logo_address: self.logo_address,
            certificate: self.certificate@,
            section_headers: self.section_headers.deep_view(),
            section_names: self.section_names.deep_view(),
            library_versions: self.library_versions.deep_view(),
            debug_pathname: self.debug_pathname@,
            debug_filename: self.debug_filename@,
            debug_unicode_filename: self.debug_unicode_filename@,
            logo: self.logo@,
            sections: self.sections.deep_view(),
        }
    }
}

/// `a` rounded up to the next multiple of `m`.
pub open spec fn round_up(a: int, m: int) -> int {
    a + ((m - a % m) % m)
}

/// The certificate's file offset.
pub open spec fn cert_off(m: ImageModel) -> int {
    m.certificate_address - m.base_address
}

/// The certificate's declared total size.
pub open spec fn cert_size(m: ImageModel) -> int {
    CERTIFICATE_FIXED_LEN + m.certificate.reserved.len()
}

/// The section-header table's file offset.
pub open spec fn sh_off(m: ImageModel) -> int {
    m.section_headers_address - m.base_address
}

/// The file offset where the packed section names start.
pub open spec fn names_off(m: ImageModel) -> int {
    sh_off(m) + SECTION_HEADER_LEN * m.section_headers.len()
}

/// The packed bytes of all section names, each null terminated.
pub open spec fn names_concat(names: Seq<Seq<u8>>) -> Seq<u8>
    decreases names.len(),
{
    if names.len() == 0 {
        Seq::empty()
    } else {
        names[0] + seq![0u8] + names_concat(names.drop_first())
    }
}

/// The offset of name `i` inside the packed names.
pub open spec fn name_pos(names: Seq<Seq<u8>>, i: int) -> int
    decreases i,
{
    if i <= 0 {
        0
    } else {
        name_pos(names.drop_first(), i - 1) + names[0].len() + 1
    }
}

/// The file offset where the library-version records start: the packed
/// names' end rounded up to a 4-byte boundary.
pub open spec fn lib_off(m: ImageModel) -> int {
    round_up(names_off(m) + names_concat(m.section_names).len(), 4)
}

/// The UTF-16 filename's file offset.
pub open spec fn wide_off(m: ImageModel) -> int {
    m.debug_unicode_filename_address - m.base_address
}

/// The UTF-16 filename's size in the file, terminator included.
pub open spec fn wide_size(m: ImageModel) -> int {
    2 * (m.debug_unicode_filename.len() as int + 1)
}

/// The ASCII pathname's file offset.
pub open spec fn path_off(m: ImageModel) -> int {
    m.debug_pathname_address - m.base_address
}

/// The logo bitmap's file offset.
pub open spec fn logo_off(m: ImageModel) -> int {
    m.logo_address - m.base_address
}

/// The end of the header region: everything before the 0x1000-aligned
/// section payloads.
pub open spec fn header_region_end(m: ImageModel) -> int {
    logo_off(m) + m.logo.len()
}

/// One library-version record's 16 bytes.
pub open spec fn lib_bytes(lv: LibraryVersionModel) -> Seq<u8> {
    lv.name + le16_bytes(lv.major as int) + le16_bytes(lv.minor as int) + le16_bytes(
        lv.build as int,
    ) + le16_bytes(lv.flags as int)
}

/// The packed bytes of all library-version records.
pub open spec fn libs_concat(libs: Seq<LibraryVersionModel>) -> Seq<u8>
    decreases libs.len(),
{
    if libs.len() == 0 {
        Seq::empty()
    } else {
        lib_bytes(libs[0]) + libs_concat(libs.drop_first())
    }
}

/// The UTF-16 filename's bytes: each code unit little endian, then a zero
/// unit.
pub open spec fn wide_bytes(units: Seq<u16>) -> Seq<u8>
    decreases units.len(),
{
    if units.len() == 0 {
        seq![0u8, 0u8]
    } else {
        le16_bytes(units[0] as int) + wide_bytes(units.drop_first())
    }
}

/// One header-table entry's 44 bytes.
pub open spec fn sh_bytes(sh: SectionHeaderModel) -> Seq<u8> {
    le32_bytes(sh.flags as int) + le32_bytes(sh.virtual_address as int) + le32_bytes(
        sh.virtual_size as int,
    ) + le32_bytes(sh.raw_address as int) + le32_bytes(sh.raw_size as int) + le32_bytes(
        sh.name_address as int,
    ) + sh.digest
}

/// The packed bytes of the whole section-header table.
pub open spec fn shs_concat(shs: Seq<SectionHeaderModel>) -> Seq<u8>
    decreases shs.len(),
{
    if shs.len() == 0 {
        Seq::empty()
    } else {
        sh_bytes(shs[0]) + shs_concat(shs.drop_first())
    }
}

/// The first half of the fixed header: magic, signature, base address,
/// image size, entry point, certificate address.
pub open spec fn header_bytes_front(m: ImageModel) -> Seq<u8> {
    le32_bytes(m.magic as int) + m.signature + le32_bytes(m.base_address as int) + le32_bytes(
        m.image_size as int,
    ) + le32_bytes(m.entry_point as int) + le32_bytes(m.certificate_address as int)
}

/// The second half of the fixed header: the counts and the remaining
/// region addresses.
pub open spec fn header_bytes_back(m: ImageModel) -> Seq<u8> {
    le32_bytes(m.section_headers.len() as int) + le32_bytes(m.section_headers_address as int)
        + le32_bytes(m.library_versions.len() as int) + le32_bytes(
        m.library_versions_address as int,
    ) + le32_bytes(m.debug_pathname_address as int) + le32_bytes(m.debug_filename_address as int)
        + le32_bytes(m.debug_unicode_filename_address as int) + le32_bytes(m.logo_address as int)
        + le32_bytes(m.logo.len() as int)
}

/// The fixed header's 312 bytes.
#[verifier::opaque]
pub open spec fn header_bytes(m: ImageModel) -> Seq<u8> {
    header_bytes_front(m) + header_bytes_back(m)
}

/// The certificate's bytes: its declared size and metadata words, then
/// the reserved tail.
pub open spec fn cert_bytes(m: ImageModel) -> Seq<u8> {
    le32_bytes(cert_size(m)) + le32_bytes(m.certificate.title_id as int) + le32_bytes(
        m.certificate.region as int,
    ) + le32_bytes(m.certificate.version as int) + m.certificate.reserved
}

/// The byte of the payload region at file position `p`, looking at the
/// first `k` sections: the covering section's byte, or zero padding.
pub open spec fn payload_byte_upto(m: ImageModel, p: int, k: int) -> u8
    decreases k,
{
    if k <= 0 {
        0u8
    } else {
        let sh = m.section_headers[k - 1];
        if sh.raw_address <= p < sh.raw_address + sh.raw_size {
            m.sections[k - 1][p - sh.raw_address]
        } else {
            payload_byte_upto(m, p, k - 1)
        }
    }
}

/// The total length of the serialized file: every payload's end rounded
/// up to a 0x1000 boundary, and at least the header region so rounded.
pub open spec fn image_end_upto(m: ImageModel, k: int) -> int
    decreases k,
{
    if k <= 0 {
        round_up(header_region_end(m), 0x1000)
    } else {
        let prev = image_end_upto(m, k - 1);
        let sh = m.section_headers[k - 1];
        let e = round_up(sh.raw_address + sh.raw_size, 0x1000);
        if e > prev {
            e
        } else {
            prev
        }
    }
}

/// The total length of the serialized file.
pub open spec fn image_len(m: ImageModel) -> int {
    image_end_upto(m, m.section_headers.len() as int)
}

/// The byte the serializer puts at file position `p`.
#[verifier::opaque]
pub open spec fn ser_byte(m: ImageModel, p: int) -> u8 {
    if p < HEADER_LEN {
        header_bytes(m)[p]
    } else if cert_off(m) <= p < cert_off(m) + cert_size(m) {
        cert_bytes(m)[p - cert_off(m)]
    } else if sh_off(m) <= p < names_off(m) {
        shs_concat(m.section_headers)[p - sh_off(m)]
    } else if names_off(m) <= p < names_off(m) + names_concat(m.section_names).len() {
        names_concat(m.section_names)[p - names_off(m)]
    } else if lib_off(m) <= p < lib_off(m) + LIBRARY_VERSION_LEN * m.library_versions.len() {
        libs_concat(m.library_versions)[p - lib_off(m)]
    } else if wide_off(m) <= p < wide_off(m) + wide_size(m) {
        wide_bytes(m.debug_unicode_filename)[p - wide_off(m)]
    } else if path_off(m) <= p < path_off(m) + m.debug_pathname.len() + 1 {
        (m.debug_pathname + seq![0u8])[p - path_off(m)]
    } else if logo_off(m) <= p < header_region_end(m) {
        m.logo[p - logo_off(m)]
    } else if p >= round_up(header_region_end(m), 0x1000) {
        payload_byte_upto(m, p, m.section_headers.len() as int)
    } else {
        0u8
    }
}

/// The whole serialized file.
pub open spec fn ser_spec(m: ImageModel) -> Seq<u8> {
    Seq::new(image_len(m) as nat, |p: int| ser_byte(m, p))
}

/// What `serialize` asks of an image before it lays it out; violating
/// any of it is the internal inconsistency reported as `StructuralError`.
/// The declared region addresses must admit the file order above, every
/// fixed-size part must have its size, payloads must match their declared
/// raw sizes and sit beyond the header region without overlapping, and
/// everything must stay within 32-bit file positions.
pub open spec fn image_wf(m: ImageModel) -> bool {
    &&& m.section_headers.len() == m.sections.len()
    &&& m.section_names.len() == m.section_headers.len()
    &&& m.signature.len() == SIGNATURE_LEN
    &&& m.base_address <= m.certificate_address
    &&& cert_off(m) >= HEADER_LEN
    &&& m.base_address <= m.section_headers_address
    &&& sh_off(m) >= cert_off(m) + cert_size(m)
    &&& m.base_address <= m.debug_unicode_filename_address
    &&& wide_off(m) >= lib_off(m) + LIBRARY_VERSION_LEN * m.library_versions.len()
    &&& m.base_address <= m.debug_pathname_address
    &&& path_off(m) >= wide_off(m) + wide_size(m)
    &&& m.base_address <= m.logo_address
    &&& logo_off(m) >= path_off(m) + m.debug_pathname.len() + 1
    &&& header_region_end(m) <= 0xFFFFF000
    &&& forall|i: int|
        0 <= i < m.section_headers.len() ==> (#[trigger] m.section_headers[i]).digest.len()
            == DIGEST_LEN
    &&& forall|i: int|
        0 <= i < m.library_versions.len() ==> (#[trigger] m.library_versions[i]).name.len() == 8
    &&& forall|i: int|
        0 <= i < m.sections.len() ==> (#[trigger] m.sections[i]).len()
            == m.section_headers[i].raw_size
    &&& forall|i: int|
        0 <= i < m.section_headers.len() ==> (#[trigger] m.section_headers[i]).raw_address
            >= round_up(header_region_end(m), 0x1000)
    &&& forall|i: int|
        0 <= i < m.section_headers.len() ==> (#[trigger] m.section_headers[i]).raw_address
            + m.section_headers[i].raw_size <= 0xFFFFF000
    &&& forall|i: int, j: int|
        0 <= i < m.section_headers.len() && 0 <= j < m.section_headers.len() ==> #[trigger] raw_pair_ok(
            m,
            i,
            j,
        )
}

/// How two payloads must relate: distinct raw addresses, and the lower
/// one's padded end at or before the higher one's start.
pub open spec fn raw_pair_ok(m: ImageModel, i: int, j: int) -> bool {
    &&& (i != j ==> m.section_headers[i].raw_address != m.section_headers[j].raw_address)
    &&& (m.section_headers[i].raw_address < m.section_headers[j].raw_address ==> round_up(
        m.section_headers[i].raw_address + m.section_headers[i].raw_size,
        0x1000,
    ) <= m.section_headers[j].raw_address)
}

/// The header table's bytes grow one 44-byte entry at a time.
#[verifier::rlimit(100)]
#[verifier::spinoff_prover]
pub(crate) proof fn lemma_shs_concat_snoc(shs: Seq<SectionHeaderModel>, i: int)
    requires
        0 <= i < shs.len(),
    ensures
        shs_concat(shs.take(i + 1)) == shs_concat(shs.take(i)) + sh_bytes(shs[i]),
    decreases i,
{
    if i == 0 {
        assert(shs.take(1).drop_first() =~= shs.take(0));
        assert(shs.take(0) =~= Seq::<SectionHeaderModel>::empty());
        assert(shs_concat(shs.take(1)) =~= shs_concat(shs.take(0)) + sh_bytes(shs[0]));
    } else {
        lemma_shs_concat_snoc(shs.drop_first(), i - 1);
        assert(shs.take(i + 1).drop_first() =~= shs.drop_first().take(i));
        assert(shs.take(i).drop_first() =~= shs.drop_first().take(i - 1));
        assert(shs.take(i + 1)[0] == shs[0]);
        assert(shs.take(i)[0] == shs[0]);
        assert(shs.drop_first()[i - 1] == shs[i]);
        assert(shs_concat(shs.take(i + 1)) =~= shs_concat(shs.take(i)) + sh_bytes(shs[i]));
    }
}

/// A header-table entry is 44 bytes, given a 20-byte digest.
pub(crate) proof fn lemma_sh_bytes_len(sh: SectionHeaderModel)
    requires
        sh.digest.len() == DIGEST_LEN,
    ensures
        sh_bytes(sh).len() == SECTION_HEADER_LEN,
{
}

/// The whole header table is 44 bytes per entry.
pub(crate) proof fn lemma_shs_concat_len(shs: Seq<SectionHeaderModel>)
    requires
        forall|i: int| 0 <= i < shs.len() ==> (#[trigger] shs[i]).digest.len() == DIGEST_LEN,
    ensures
        shs_concat(shs).len() == SECTION_HEADER_LEN * shs.len(),
    decreases shs.len(),
{
    if shs.len() > 0 {
        lemma_shs_concat_len(shs.drop_first());
        lemma_sh_bytes_len(shs[0]);
    }
}

/// The packed names grow one null-terminated name at a time.
#[verifier::rlimit(100)]
#[verifier::spinoff_prover]
pub(crate) proof fn lemma_names_concat_snoc(names: Seq<Seq<u8>>, i: int)
    requires
        0 <= i < names.len(),
    ensures
        names_concat(names.take(i + 1)) == names_concat(names.take(i)) + names[i] + seq![0u8],
    decreases i,
{
    if i == 0 {
        assert(names.take(1).drop_first() =~= names.take(0));
        assert(names.take(0) =~= Seq::<Seq<u8>>::empty());
        assert(names_concat(names.take(1)) =~= names_concat(names.take(0)) + names[0] + seq![0u8]);
    } else {
        lemma_names_concat_snoc(names.drop_first(), i - 1);
        assert(names.take(i + 1).drop_first() =~= names.drop_first().take(i));
        assert(names.take(i).drop_first() =~= names.drop_first().take(i - 1));
        assert(names.take(i + 1)[0] == names[0]);
        assert(names.take(i)[0] == names[0]);
        assert(names.drop_first()[i - 1] == names[i]);
        assert(names_concat(names.take(i + 1)) =~= names_concat(names.take(i)) + names[i]
            + seq![0u8]);
    }
}

/// The offset of each name inside the packed names, and the packed names'
/// total length.
pub(crate) proof fn lemma_name_pos(names: Seq<Seq<u8>>, i: int)
    requires
        0 <= i <= names.len(),
    ensures
        name_pos(names, i) == names_concat(names.take(i)).len(),
        name_pos(names, i) >= 0,
        name_pos(names, i) <= names_concat(names).len(),
    decreases names.len(), i,
{
    if i == 0 {
        assert(names.take(0) =~= Seq::<Seq<u8>>::empty());
        lemma_names_concat_len_nonneg(names);
    } else {
        lemma_name_pos(names.drop_first(), i - 1);
        lemma_names_concat_snoc(names, i - 1);
        assert(names.drop_first().take(i - 1) =~= names.take(i).drop_first());
        assert(names.take(i)[0] == names[0]);
        lemma_names_concat_prefix_le(names, i);
    }
}

/// A prefix of the packed names is no longer than the whole.
pub(crate) proof fn lemma_names_concat_prefix_le(names: Seq<Seq<u8>>, i: int)
    requires
        0 <= i <= names.len(),
    ensures
        names_concat(names.take(i)).len() <= names_concat(names).len(),
    decreases names.len(),
{
    if i == 0 {
        assert(names.take(0) =~= Seq::<Seq<u8>>::empty());
    } else if names.len() > 0 {
        assert(names.take(i)[0] == names[0]);
        assert(names.take(i).drop_first() =~= names.drop_first().take(i - 1));
        lemma_names_concat_prefix_le(names.drop_first(), i - 1);
    }
}

/// Packed names have a length.
pub(crate) proof fn lemma_names_concat_len_nonneg(names: Seq<Seq<u8>>)
    ensures
        names_concat(names).len() >= 0,
{
}

/// The library records grow one 16-byte record at a time.
#[verifier::rlimit(100)]
#[verifier::spinoff_prover]
pub(crate) proof fn lemma_libs_concat_snoc(libs: Seq<LibraryVersionModel>, i: int)
    requires
        0 <= i < libs.len(),
    ensures
        libs_concat(libs.take(i + 1)) == libs_concat(libs.take(i)) + lib_bytes(libs[i]),
    decreases i,
{
    if i == 0 {
        assert(libs.take(1).drop_first() =~= libs.take(0));
        assert(libs.take(0) =~= Seq::<LibraryVersionModel>::empty());
        assert(libs_concat(libs.take(1)) =~= libs_concat(libs.take(0)) + lib_bytes(libs[0]));
    } else {
        lemma_libs_concat_snoc(libs.drop_first(), i - 1);
        assert(libs.take(i + 1).drop_first() =~= libs.drop_first().take(i));
        assert(libs.take(i).drop_first() =~= libs.drop_first().take(i - 1));
        assert(libs.take(i + 1)[0] == libs[0]);
        assert(libs.take(i)[0] == libs[0]);
        assert(libs.drop_first()[i - 1] == libs[i]);
        assert(libs_concat(libs.take(i + 1)) =~= libs_concat(libs.take(i)) + lib_bytes(libs[i]));
    }
}

/// The library records are 16 bytes each.
pub(crate) proof fn lemma_libs_concat_len(libs: Seq<LibraryVersionModel>)
    requires
        forall|i: int| 0 <= i < libs.len() ==> (#[trigger] libs[i]).name.len() == 8,
    ensures
        libs_concat(libs).len() == LIBRARY_VERSION_LEN * libs.len(),
    decreases libs.len(),
{
    if libs.len() > 0 {
        lemma_libs_concat_len(libs.drop_first());
    }
}

/// The code units of the UTF-16 filename, without the terminator.
pub open spec fn unit_bytes(units: Seq<u16>) -> Seq<u8>
    decreases units.len(),
{
    if units.len() == 0 {
        Seq::empty()
    } else {
        le16_bytes(units[0] as int) + unit_bytes(units.drop_first())
    }
}

/// The UTF-16 filename's bytes are its code units then a zero unit.
pub(crate) proof fn lemma_wide_bytes_split(units: Seq<u16>)
    ensures
        wide_bytes(units) == unit_bytes(units) + seq![0u8, 0u8],
        unit_bytes(units).len() == 2 * units.len(),
    decreases units.len(),
{
    if units.len() == 0 {
        assert(wide_bytes(units) =~= unit_bytes(units) + seq![0u8, 0u8]);
    } else {
        lemma_wide_bytes_split(units.drop_first());
        assert(wide_bytes(units) =~= unit_bytes(units) + seq![0u8, 0u8]);
    }
}

/// The code-unit bytes grow one unit at a time.
#[verifier::rlimit(100)]
#[verifier::spinoff_prover]
pub(crate) proof fn lemma_unit_bytes_snoc(units: Seq<u16>, i: int)
    requires
        0 <= i < units.len(),
    ensures
        unit_bytes(units.take(i + 1)) == unit_bytes(units.take(i)) + le16_bytes(units[i] as int),
    decreases i,
{
    if i == 0 {
        assert(units.take(1).drop_first() =~= units.take(0));
        assert(units.take(0) =~= Seq::<u16>::empty());
        assert(unit_bytes(units.take(1)) =~= unit_bytes(units.take(0)) + le16_bytes(
            units[0] as int,
        ));
    } else {
        lemma_unit_bytes_snoc(units.drop_first(), i - 1);
        assert(units.take(i + 1).drop_first() =~= units.drop_first().take(i));
        assert(units.take(i).drop_first() =~= units.drop_first().take(i - 1));
        assert(units.take(i + 1)[0] == units[0]);
        assert(units.take(i)[0] == units[0]);
        assert(units.drop_first()[i - 1] == units[i]);
        assert(unit_bytes(units.take(i + 1)) =~= unit_bytes(units.take(i)) + le16_bytes(
            units[i] as int,
        ));
    }
}

/// The file never ends before a payload's padded end, nor before the
/// padded header region.
pub(crate) proof fn lemma_image_end_bounds(m: ImageModel, k: int)
    requires
        0 <= k <= m.section_headers.len(),
    ensures
        image_end_upto(m, k) >= round_up(header_region_end(m), 0x1000),
        forall|i: int|
            0 <= i < k ==> image_end_upto(m, k) >= round_up(
                (#[trigger] m.section_headers[i]).raw_address + m.section_headers[i].raw_size,
                0x1000,
            ),
    decreases k,
{
    if k > 0 {
        lemma_image_end_bounds(m, k - 1);
    }
}

/// The file never grows past the highest allowed position.
pub(crate) proof fn lemma_image_end_upper(m: ImageModel, k: int)
    requires
        image_wf(m),
        0 <= k <= m.section_headers.len(),
    ensures
        image_end_upto(m, k) <= 0xFFFF_F000,
    decreases k,
{
    if k > 0 {
        lemma_image_end_upper(m, k - 1);
        assert(m.section_headers[k - 1].raw_address + m.section_headers[k - 1].raw_size
            <= 0xFFFF_F000);
    }
}

/// A position no section covers reads as zero padding.
pub(crate) proof fn lemma_payload_byte_uncovered(m: ImageModel, p: int, k: int)
    requires
        forall|i: int|
            0 <= i < k ==> !((#[trigger] m.section_headers[i]).raw_address <= p
                < m.section_headers[i].raw_address + m.section_headers[i].raw_size),
    ensures
        payload_byte_upto(m, p, k) == 0u8,
    decreases k,
{
    if k > 0 {
        lemma_payload_byte_uncovered(m, p, k - 1);
    }
}

/// A position one section covers reads that section's byte, when
/// sections do not overlap.
pub(crate) proof fn lemma_payload_byte_covered(m: ImageModel, p: int, i: int, k: int)
    requires
        image_wf(m),
        0 <= i < k <= m.section_headers.len(),
        m.section_headers[i].raw_address <= p < m.section_headers[i].raw_address
            + m.section_headers[i].raw_size,
    ensures
        payload_byte_upto(m, p, k) == m.sections[i][p - m.section_headers[i].raw_address],
    decreases k,
{
    if k - 1 > i {
        let a = m.section_headers[i];
        let b = m.section_headers[k - 1];
        if b.raw_address <= p < b.raw_address + b.raw_size {
            assert(raw_pair_ok(m, i, k - 1));
            assert(raw_pair_ok(m, k - 1, i));
            if a.raw_address < b.raw_address {
                assert(round_up(a.raw_address + a.raw_size, 0x1000) <= b.raw_address);
                assert(p < a.raw_address + a.raw_size);
                assert(a.raw_address + a.raw_size <= round_up(a.raw_address + a.raw_size, 0x1000));
                assert(false);
            } else {
                assert(a.raw_address != b.raw_address);
                assert(round_up(b.raw_address + b.raw_size, 0x1000) <= a.raw_address);
                assert(b.raw_address + b.raw_size <= round_up(b.raw_address + b.raw_size, 0x1000));
                assert(false);
            }
        }
        lemma_payload_byte_covered(m, p, i, k - 1);
    }
}

/// Each name adds its length and a terminator to the packed offset.
pub(crate) proof fn lemma_name_pos_step(names: Seq<Seq<u8>>, i: int)
    requires
        0 <= i < names.len(),
    ensures
        name_pos(names, i + 1) == name_pos(names, i) + names[i].len() + 1,
    decreases i,
{
    if i > 0 {
        lemma_name_pos_step(names.drop_first(), i - 1);
        assert(names.drop_first()[i - 1] == names[i]);
    } else {
        assert(name_pos(names, 1) == name_pos(names.drop_first(), 0) + names[0].len() + 1);
    }
}

/// Packed name offsets only grow.
pub(crate) proof fn lemma_name_pos_mono(names: Seq<Seq<u8>>, i: int, j: int)
    requires
        0 <= i <= j <= names.len(),
    ensures
        name_pos(names, i) <= name_pos(names, j),
    decreases j - i,
{
    if i < j {
        lemma_name_pos_mono(names, i, j - 1);
        lemma_name_pos_step(names, j - 1);
    }
}

/// Where the ordered regions of a well-formed image sit; the facts every
/// region lemma leans on.
pub(crate) proof fn lemma_region_chain(m: ImageModel)
    requires
        image_wf(m),
    ensures
        HEADER_LEN <= cert_off(m),
        cert_off(m) + cert_size(m) <= sh_off(m),
        sh_off(m) <= names_off(m),
        names_off(m) + names_concat(m.section_names).len() <= lib_off(m),
        lib_off(m) + LIBRARY_VERSION_LEN * m.library_versions.len() <= wide_off(m),
        wide_off(m) + wide_size(m) <= path_off(m),
        path_off(m) + m.debug_pathname.len() + 1 <= logo_off(m),
        logo_off(m) + m.logo.len() == header_region_end(m),
        header_region_end(m) <= round_up(header_region_end(m), 0x1000),
        round_up(header_region_end(m), 0x1000) <= 0xFFFF_F000,
        m.section_headers.len() < 0x100000000,
        m.library_versions.len() < 0x100000000,
        m.logo.len() < 0x100000000,
        cert_size(m) < 0x100000000,
{
    assert(lib_off(m) >= names_off(m));
    assert(SECTION_HEADER_LEN * m.section_headers.len() <= names_off(m));
}

/// Inside the fixed header the serializer writes the header's bytes.
pub(crate) proof fn lemma_ser_byte_header(m: ImageModel, q: int)
    requires
        0 <= q < HEADER_LEN,
    ensures
        ser_byte(m, q) == header_bytes(m)[q],
{
    reveal(ser_byte);
}

/// In the gaps between regions the serializer writes zero padding.
pub(crate) proof fn lemma_ser_byte_zero(m: ImageModel, q: int)
    requires
        image_wf(m),
        HEADER_LEN <= q,
        (q < cert_off(m)) || (cert_off(m) + cert_size(m) <= q < sh_off(m)) || (names_off(m)
            + names_concat(m.section_names).len() <= q < lib_off(m)) || (lib_off(m)
            + LIBRARY_VERSION_LEN * m.library_versions.len() <= q < wide_off(m)) || (wide_off(m)
            + wide_size(m) <= q < path_off(m)) || (path_off(m) + m.debug_pathname.len() + 1 <= q
            < logo_off(m)) || (header_region_end(m) <= q < round_up(header_region_end(m), 0x1000)),
    ensures
        ser_byte(m, q) == 0u8,
{
    reveal(ser_byte);
    lemma_region_chain(m);
    if header_region_end(m) <= q < round_up(header_region_end(m), 0x1000) {
        assert forall|l: int|
            0 <= l < m.section_headers.len() implies !((#[trigger] m.section_headers[l]).raw_address
            <= q < m.section_headers[l].raw_address + m.section_headers[l].raw_size) by {
            assert(m.section_headers[l].raw_address >= round_up(header_region_end(m), 0x1000));
        }
        lemma_payload_byte_uncovered(m, q, m.section_headers.len() as int);
    }
}

/// Inside the certificate region the serializer writes the certificate.
pub(crate) proof fn lemma_ser_byte_cert(m: ImageModel, q: int)
    requires
        image_wf(m),
        cert_off(m) <= q < cert_off(m) + cert_size(m),
    ensures
        ser_byte(m, q) == cert_bytes(m)[q - cert_off(m)],
{
    reveal(ser_byte);
    lemma_region_chain(m);
}

/// Inside the table region the serializer writes the header table.
pub(crate) proof fn lemma_ser_byte_shs(m: ImageModel, q: int)
    requires
        image_wf(m),
        sh_off(m) <= q < names_off(m),
    ensures
        ser_byte(m, q) == shs_concat(m.section_headers)[q - sh_off(m)],
{
    reveal(ser_byte);
    lemma_region_chain(m);
}

/// Inside the names region the serializer writes the packed names.
pub(crate) proof fn lemma_ser_byte_names(m: ImageModel, q: int)
    requires
        image_wf(m),
        names_off(m) <= q < names_off(m) + names_concat(m.section_names).len(),
    ensures
        ser_byte(m, q) == names_concat(m.section_names)[q - names_off(m)],
{
    reveal(ser_byte);
    lemma_region_chain(m);
}

/// Inside the library region the serializer writes the records.
pub(crate) proof fn lemma_ser_byte_libs(m: ImageModel, q: int)
    requires
        image_wf(m),
        lib_off(m) <= q < lib_off(m) + LIBRARY_VERSION_LEN * m.library_versions.len(),
    ensures
        ser_byte(m, q) == libs_concat(m.library_versions)[q - lib_off(m)],
{
    reveal(ser_byte);
    lemma_region_chain(m);
}

/// Inside its region the serializer writes the UTF-16 filename.
pub(crate) proof fn lemma_ser_byte_wide(m: ImageModel, q: int)
    requires
        image_wf(m),
        wide_off(m) <= q < wide_off(m) + wide_size(m),
    ensures
        ser_byte(m, q) == wide_bytes(m.debug_unicode_filename)[q - wide_off(m)],
{
    reveal(ser_byte);
    lemma_region_chain(m);
}

/// Inside its region the serializer writes the pathname and terminator.
pub(crate) proof fn lemma_ser_byte_path(m: ImageModel, q: int)
    requires
        image_wf(m),
        path_off(m) <= q < path_off(m) + m.debug_pathname.len() + 1,
    ensures
        ser_byte(m, q) == (m.debug_pathname + seq![0u8])[q - path_off(m)],
{
    reveal(ser_byte);
    lemma_region_chain(m);
}

/// Inside its region the serializer writes the logo.
pub(crate) proof fn lemma_ser_byte_logo(m: ImageModel, q: int)
    requires
        image_wf(m),
        logo_off(m) <= q < header_region_end(m),
    ensures
        ser_byte(m, q) == m.logo[q - logo_off(m)],
{
    reveal(ser_byte);
    lemma_region_chain(m);
}

/// Beyond the padded header region the serializer writes the payloads.
pub(crate) proof fn lemma_ser_byte_payload(m: ImageModel, q: int)
    requires
        image_wf(m),
        q >= round_up(header_region_end(m), 0x1000),
    ensures
        ser_byte(m, q) == payload_byte_upto(m, q, m.section_headers.len() as int),
{
    reveal(ser_byte);
    lemma_region_chain(m);
}

/// The highest virtual address the first `k` sections reach, or the base
/// address with no sections.
pub open spec fn next_va_upto(m: ImageModel, k: int) -> int
    decreases k,
{
    if k <= 0 {
        m.base_address as int
    } else {
        let prev = next_va_upto(m, k - 1);
        let e = m.section_headers[k - 1].virtual_address + m.section_headers[k - 1].virtual_size;
        if e > prev {
            e
        } else {
            prev
        }
    }
}

/// The image's next free virtual address: where a linked module's first
/// section will be placed.
pub open spec fn next_va(m: ImageModel) -> int {
    next_va_upto(m, m.section_headers.len() as int)
}

impl ExecutableImage {
    /// The next free virtual address: the end of the highest-reaching
    /// section's virtual range, or the base address when there are no
    /// sections.
    pub fn next_virtual_address(&self) -> (r: u32)
        requires
            next_va(self@) <= u32::MAX,
        ensures
            r == next_va(self@),
    {
        let ghost m = self@;
        let n = self.section_headers.len();
        let mut cur: u64 = self.base_address as u64;
        let mut i: usize = 0;
        while i < n
            invariant
                m == self@,
                n == self.section_headers.len(),
                i <= n,
                cur == next_va_upto(m, i as int),
                cur <= 0x1FFFFFFFF,
            decreases n - i,
        {
            proof {
                assert(m.section_headers[i as int] == self.section_headers@[i as int]@);
            }
            let e: u64 = self.section_headers[i].virtual_address as u64
                + self.section_headers[i].virtual_size as u64;
            if e > cur {
                cur = e;
            }
            i = i + 1;
        }
        cur as u32
    }
}

} // verus!
