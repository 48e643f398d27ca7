//! The executable-container loader: it reads a byte stream region by
//! region, in declared order, dereferencing each address field by
//! subtracting the base address, and fails with `FormatError` on a
//! truncated read or a degenerate length field.

use vstd::prelude::*;

use crate::bytes::{copy_range, le16_at, le32_at, read_le16, read_le32};
use crate::errors::FormatError;
use crate::xbe::{
    Certificate, CertificateModel, ExecutableImage, ImageModel, LibraryVersion,
    LibraryVersionModel, SectionHeader, SectionHeaderModel, CERTIFICATE_FIXED_LEN, HEADER_LEN,
    LIBRARY_VERSION_LEN, SECTION_HEADER_LEN,
};

verus! {

/// The position of the first zero byte at or after `p`, or -1 when the
/// bytes run out first.
pub open spec fn cstr_end(b: Seq<u8>, p: int) -> int
    decreases b.len() - p,
{
    if p < 0 || p >= b.len() {
        -1
    } else if b[p] == 0 {
        p
    } else {
        cstr_end(b, p + 1)
    }
}

/// The position of the first zero 16-bit little-endian unit at or after
/// `p`, stepping by units, or -1 when the bytes run out first.
pub open spec fn wstr_end(b: Seq<u8>, p: int) -> int
    decreases b.len() - p,
{
    if p < 0 || p + 2 > b.len() {
        -1
    } else if le16_at(b, p) == 0 {
        p
    } else {
        wstr_end(b, p + 2)
    }
}

/// The header-table field at 32-bit offset `fo` of entry `i`.
pub open spec fn sh_field(b: Seq<u8>, so: int, i: int, fo: int) -> int {
    le32_at(b, so + SECTION_HEADER_LEN * i + fo)
}

/// Whether every section name address points at a terminated name.
pub open spec fn names_ok(b: Seq<u8>, base: int, so: int, count: int) -> bool {
    forall|i: int|
        0 <= i < count ==> #[trigger] sh_field(b, so, i, 20) >= base && cstr_end(
            b,
            sh_field(b, so, i, 20) - base,
        ) >= 0
}

/// Whether every payload's declared raw range lies inside the file.
pub open spec fn payloads_ok(b: Seq<u8>, so: int, count: int) -> bool {
    forall|i: int|
        0 <= i < count ==> #[trigger] sh_field(b, so, i, 12) + sh_field(b, so, i, 16) <= b.len()
}

/// Header-table entry `i` as the loader reads it.
pub open spec fn parsed_sh(b: Seq<u8>, so: int, i: int) -> SectionHeaderModel {
    SectionHeaderModel {
        flags: sh_field(b, so, i, 0) as u32,
        virtual_address: sh_field(b, so, i, 4) as u32,
        virtual_size: sh_field(b, so, i, 8) as u32,
        raw_address: sh_field(b, so, i, 12) as u32,
        raw_size: sh_field(b, so, i, 16) as u32,
        name_address: sh_field(b, so, i, 20) as u32,
        digest: b.subrange(
            so + SECTION_HEADER_LEN * i + 24,
            so + SECTION_HEADER_LEN * i + SECTION_HEADER_LEN,
        ),
    }
}

/// Library-version record `i` as the loader reads it.
pub open spec fn parsed_lib(b: Seq<u8>, lo: int, i: int) -> LibraryVersionModel {
    LibraryVersionModel {
        name: b.subrange(lo + LIBRARY_VERSION_LEN * i, lo + LIBRARY_VERSION_LEN * i + 8),
        major: le16_at(b, lo + LIBRARY_VERSION_LEN * i + 8) as u16,
        minor: le16_at(b, lo + LIBRARY_VERSION_LEN * i + 10) as u16,
        build: le16_at(b, lo + LIBRARY_VERSION_LEN * i + 12) as u16,
        flags: le16_at(b, lo + LIBRARY_VERSION_LEN * i + 14) as u16,
    }
}

/// The image a loadable byte stream denotes.
pub open spec fn parsed_image(b: Seq<u8>) -> ImageModel {
    let base = le32_at(b, 260);
    let co = le32_at(b, 272) - base;
    let count = le32_at(b, 276);
    let so = le32_at(b, 280) - base;
    let lib_count = le32_at(b, 284);
    let lo = le32_at(b, 288) - base;
    let po = le32_at(b, 292) - base;
    let fo = le32_at(b, 296) - base;
    let wo = le32_at(b, 300) - base;
    let go = le32_at(b, 304) - base;
    let logo_size = le32_at(b, 308);
    ImageModel {
        magic: le32_at(b, 0) as u32,
        signature: b.subrange(4, 260),
        base_address: base as u32,
        image_size: le32_at(b, 264) as u32,
        entry_point: le32_at(b, 268) as u32,
        certificate_address: le32_at(b, 272) as u32,
        section_headers_address: le32_at(b, 280) as u32,
        library_versions_address: le32_at(b, 288) as u32,
        debug_pathname_address: le32_at(b, 292) as u32,
        debug_filename_address: le32_at(b, 296) as u32,
        debug_unicode_filename_address: le32_at(b, 300) as u32,
        logo_address: le32_at(b, 304) as u32,
        certificate: CertificateModel {
            title_id: le32_at(b, co + 4) as u32,
            region: le32_at(b, co + 8) as u32,
            version: le32_at(b, co + 12) as u32,
            reserved: b.subrange(co + CERTIFICATE_FIXED_LEN, co + le32_at(b, co)),
        },
        section_headers: Seq::new(count as nat, |i: int| parsed_sh(b, so, i)),
        section_names: Seq::new(
            count as nat,
            |i: int|
                b.subrange(
                    sh_field(b, so, i, 20) - base,
                    cstr_end(b, sh_field(b, so, i, 20) - base),
                ),
        ),
        library_versions: Seq::new(lib_count as nat, |i: int| parsed_lib(b, lo, i)),
        debug_pathname: b.subrange(po, cstr_end(b, po)),
        debug_filename: b.subrange(fo, cstr_end(b, fo)),
        debug_unicode_filename: Seq::new(
            ((wstr_end(b, wo) - wo) / 2) as nat,
            |k: int| le16_at(b, wo + 2 * k) as u16,
        ),
        logo: b.subrange(go, go + logo_size),
        sections: Seq::new(
            count as nat,
            |i: int| b.subrange(sh_field(b, so, i, 12), sh_field(b, so, i, 12) + sh_field(b, so, i, 16)),
        ),
    }
}

/// Whether a byte stream is a loadable image, and which image it denotes:
/// reads in declared order, failing on a truncated read or a degenerate
/// length field.
pub open spec fn parse_image(b: Seq<u8>) -> Option<ImageModel> {
    if b.len() < HEADER_LEN {
        None
    } else {
        let base = le32_at(b, 260);
        let cert_addr = le32_at(b, 272);
        let count = le32_at(b, 276);
        let sh_addr = le32_at(b, 280);
        let lib_count = le32_at(b, 284);
        let lib_addr = le32_at(b, 288);
        let path_addr = le32_at(b, 292);
        let file_addr = le32_at(b, 296);
        let wide_addr = le32_at(b, 300);
        let logo_addr = le32_at(b, 304);
        let logo_size = le32_at(b, 308);
        if cert_addr < base {
            None
        } else if cert_addr - base + CERTIFICATE_FIXED_LEN > b.len() {
            None
        } else if le32_at(b, cert_addr - base) < CERTIFICATE_FIXED_LEN {
            None
        } else if cert_addr - base + le32_at(b, cert_addr - base) > b.len() {
            None
        } else if sh_addr < base {
            None
        } else if sh_addr - base + SECTION_HEADER_LEN * count > b.len() {
            None
        } else if !names_ok(b, base, sh_addr - base, count) {
            None
        } else if lib_addr < base {
            None
        } else if lib_addr - base + LIBRARY_VERSION_LEN * lib_count > b.len() {
            None
        } else if path_addr < base || cstr_end(b, path_addr - base) < 0 {
            None
        } else if file_addr < base || cstr_end(b, file_addr - base) < 0 {
            None
        } else if wide_addr < base || wstr_end(b, wide_addr - base) < 0 {
            None
        } else if logo_addr < base || logo_addr - base + logo_size > b.len() {
            None
        } else if !payloads_ok(b, sh_addr - base, count) {
            None
        } else {
            Some(parsed_image(b))
        }
    }
}

/// A found terminator never sits before the scan's start.
proof fn lemma_wstr_end_ge(b: Seq<u8>, p: int)
    ensures
        wstr_end(b, p) == -1 || wstr_end(b, p) >= p,
    decreases b.len() - p,
{
    if !(p < 0 || p + 2 > b.len()) && le16_at(b, p) != 0 {
        lemma_wstr_end_ge(b, p + 2);
    }
}

/// The position of the first zero byte at or after `p`, scanning forward.
fn scan_cstr(v: &Vec<u8>, p: usize) -> (r: Option<usize>)
    ensures
        r is Some ==> cstr_end(v@, p as int) == r.unwrap() && p <= r.unwrap() < v.len(),
        r is None ==> cstr_end(v@, p as int) == -1,
{
    let n = v.len();
    let mut q = p;
    while q < n
        invariant
            n == v.len(),
            p <= q,
            cstr_end(v@, p as int) == cstr_end(v@, q as int),
        decreases n - q,
    {
        if v[q] == 0 {
            return Some(q);
        }
        q = q + 1;
    }
    None
}

/// The position of the first zero 16-bit unit at or after `p`, scanning
/// forward a unit at a time.
fn scan_wstr(v: &Vec<u8>, p: usize) -> (r: Option<usize>)
    ensures
        r is Some ==> wstr_end(v@, p as int) == r.unwrap() && p <= r.unwrap() && r.unwrap() + 2
            <= v.len(),
        r is None ==> wstr_end(v@, p as int) == -1,
{
    let n = v.len();
    let mut q = p;
    while q < n && q + 1 < n
        invariant
            n == v.len(),
            p <= q,
            wstr_end(v@, p as int) == wstr_end(v@, q as int),
        decreases n - q,
    {
        if read_le16(v, q) == 0 {
            return Some(q);
        }
        q = q + 2;
    }
    None
}

/// Reads entry `i` of the section-header table at file offset `so`.
fn read_section_header(bytes: &Vec<u8>, so: usize, i: usize) -> (sh: SectionHeader)
    requires
        so + SECTION_HEADER_LEN * (i + 1) <= bytes.len(),
    ensures
        sh@ == parsed_sh(bytes@, so as int, i as int),
{
    let ghost b = bytes@;
    let off = so + SECTION_HEADER_LEN * i;
    let flags = read_le32(bytes, off);
    let virtual_address = read_le32(bytes, off + 4);
    let virtual_size = read_le32(bytes, off + 8);
    let raw_address = read_le32(bytes, off + 12);
    let raw_size = read_le32(bytes, off + 16);
    let name_address = read_le32(bytes, off + 20);
    let digest = copy_range(bytes, off + 24, off + SECTION_HEADER_LEN);
    let sh = SectionHeader {
        flags,
        virtual_address,
        virtual_size,
        raw_address,
        raw_size,
        name_address,
        digest,
    };
    proof {
        assert(sh@ =~= parsed_sh(b, so as int, i as int));
    }
    sh
}

/// Reads an executable image from its byte stream: the header at the
/// start, then every region at its declared address, payloads at their
/// raw file offsets. A read past the end of the bytes, or a certificate
/// size below its fixed part, is a `FormatError`; everything already read
/// is discarded.
#[verifier::rlimit(100)]
#[verifier::spinoff_prover]
pub fn load(bytes: &Vec<u8>) -> (r: Result<ExecutableImage, FormatError>)
    ensures
        r is Ok ==> parse_image(bytes@) == Some(r.unwrap()@),
        r is Err <==> parse_image(bytes@) is None,
{
    let ghost b = bytes@;
    let n = bytes.len();
    let n64: u64 = n as u64;
    if n < HEADER_LEN {
        return Err(FormatError);
    }
    let magic = read_le32(bytes, 0);
    let signature = copy_range(bytes, 4, 260);
    let base = read_le32(bytes, 260);
    let image_size = read_le32(bytes, 264);
    let entry_point = read_le32(bytes, 268);
    let cert_addr = read_le32(bytes, 272);
    let count = read_le32(bytes, 276);
    let sh_addr = read_le32(bytes, 280);
    let lib_count = read_le32(bytes, 284);
    let lib_addr = read_le32(bytes, 288);
    let path_addr = read_le32(bytes, 292);
    let file_addr = read_le32(bytes, 296);
    let wide_addr = read_le32(bytes, 300);
    let logo_addr = read_le32(bytes, 304);
    let logo_size = read_le32(bytes, 308);

    // Certificate.
    if cert_addr < base {
        return Err(FormatError);
    }
    let co = (cert_addr - base) as usize;
    if co as u64 + CERTIFICATE_FIXED_LEN as u64 > n64 {
        return Err(FormatError);
    }
    let csize = read_le32(bytes, co);
    if csize < CERTIFICATE_FIXED_LEN as u32 {
        return Err(FormatError);
    }
    if co as u64 + csize as u64 > n64 {
        return Err(FormatError);
    }
    let title_id = read_le32(bytes, co + 4);
    let region = read_le32(bytes, co + 8);
    let version = read_le32(bytes, co + 12);
    let reserved = copy_range(bytes, co + CERTIFICATE_FIXED_LEN, co + csize as usize);

    // Section-header table.
    if sh_addr < base {
        return Err(FormatError);
    }
    let so = (sh_addr - base) as usize;
    if so as u64 + SECTION_HEADER_LEN as u64 * count as u64 > n64 {
        return Err(FormatError);
    }
    let countu = count as usize;
    let mut section_headers: Vec<SectionHeader> = Vec::new();
    let mut i: usize = 0;
    while i < countu
        invariant
            b == bytes@,
            n == b.len(),
            countu == count,
            countu <= 0xFFFFFFFF,
            so + SECTION_HEADER_LEN * countu <= n,
            i <= countu,
            section_headers@.len() == i,
            forall|j: int|
                0 <= j < i ==> (#[trigger] section_headers@[j])@ == parsed_sh(b, so as int, j),
        decreases countu - i,
    {
        let sh = read_section_header(bytes, so, i);
        section_headers.push(sh);
        i = i + 1;
    }

    // Section names, each at its declared address.
    let mut section_names: Vec<Vec<u8>> = Vec::new();
    let mut i: usize = 0;
    while i < countu
        invariant
            b == bytes@,
            n == b.len(),
            n >= HEADER_LEN,
            countu == count,
            countu <= 0xFFFFFFFF,
            i <= countu,
            base == le32_at(b, 260),
            cert_addr == le32_at(b, 272),
            count == le32_at(b, 276),
            sh_addr == le32_at(b, 280),
            cert_addr >= base,
            co == cert_addr - base,
            co + CERTIFICATE_FIXED_LEN <= n,
            csize == le32_at(b, co as int),
            csize >= CERTIFICATE_FIXED_LEN,
            co + csize <= n,
            sh_addr >= base,
            so == sh_addr - base,
            so + SECTION_HEADER_LEN * count <= n,
            section_headers@.len() == countu,
            forall|j: int|
                0 <= j < countu ==> (#[trigger] section_headers@[j])@ == parsed_sh(b, so as int, j),
            section_names@.len() == i,
            forall|j: int|
                0 <= j < i ==> #[trigger] sh_field(b, so as int, j, 20) >= base && cstr_end(
                    b,
                    sh_field(b, so as int, j, 20) - base,
                ) >= 0,
            forall|j: int|
                0 <= j < i ==> (#[trigger] section_names@[j])@ == b.subrange(
                    sh_field(b, so as int, j, 20) - base,
                    cstr_end(b, sh_field(b, so as int, j, 20) - base),
                ),
        decreases countu - i,
    {
        let na = section_headers[i].name_address;
        proof {
            assert(section_headers@[i as int]@ == parsed_sh(b, so as int, i as int));
            assert(na == sh_field(b, so as int, i as int, 20));
        }
        if na < base {
            proof {
                assert(!names_ok(b, base as int, so as int, count as int));
            }
            return Err(FormatError);
        }
        let noff = (na - base) as usize;
        let name_end = match scan_cstr(bytes, noff) {
            None => {
                proof {
                    assert(!names_ok(b, base as int, so as int, count as int));
                }
                return Err(FormatError);
            },
            Some(e) => e,
        };
        let name = copy_range(bytes, noff, name_end);
        section_names.push(name);
        i = i + 1;
    }

    // Library versions.
    if lib_addr < base {
        return Err(FormatError);
    }
    let lo = (lib_addr - base) as usize;
    if lo as u64 + LIBRARY_VERSION_LEN as u64 * lib_count as u64 > n64 {
        return Err(FormatError);
    }
    let lib_countu = lib_count as usize;
    let mut library_versions: Vec<LibraryVersion> = Vec::new();
    let mut i: usize = 0;
    while i < lib_countu
        invariant
            b == bytes@,
            n == b.len(),
            lib_countu == lib_count,
            lib_countu <= 0xFFFFFFFF,
            lo + LIBRARY_VERSION_LEN * lib_countu <= n,
            i <= lib_countu,
            library_versions@.len() == i,
            forall|j: int|
                0 <= j < i ==> (#[trigger] library_versions@[j])@ == parsed_lib(b, lo as int, j),
        decreases lib_countu - i,
    {
        let off = lo + LIBRARY_VERSION_LEN * i;
        let name = copy_range(bytes, off, off + 8);
        let major = read_le16(bytes, off + 8);
        let minor = read_le16(bytes, off + 10);
        let build = read_le16(bytes, off + 12);
        let flags = read_le16(bytes, off + 14);
        library_versions.push(LibraryVersion { name, major, minor, build, flags });
        proof {
            assert((library_versions@[i as int])@ =~= parsed_lib(b, lo as int, i as int));
        }
        i = i + 1;
    }

    // Debug strings.
    if path_addr < base {
        return Err(FormatError);
    }
    let po = (path_addr - base) as usize;
    let path_end = match scan_cstr(bytes, po) {
        None => {
            return Err(FormatError);
        },
        Some(e) => e,
    };
    let debug_pathname = copy_range(bytes, po, path_end);
    if file_addr < base {
        return Err(FormatError);
    }
    let fo = (file_addr - base) as usize;
    let file_end = match scan_cstr(bytes, fo) {
        None => {
            return Err(FormatError);
        },
        Some(e) => e,
    };
    let debug_filename = copy_range(bytes, fo, file_end);
    if wide_addr < base {
        return Err(FormatError);
    }
    let wo = (wide_addr - base) as usize;
    let wide_end = match scan_wstr(bytes, wo) {
        None => {
            return Err(FormatError);
        },
        Some(e) => e,
    };
    let mut debug_unicode_filename: Vec<u16> = Vec::new();
    let mut q = wo;
    while q < wide_end
        invariant
            b == bytes@,
            n == b.len(),
            wo <= q <= wide_end,
            wide_end + 2 <= n,
            wstr_end(b, wo as int) == wide_end,
            (q - wo) % 2 == 0,
            wstr_end(b, q as int) == wide_end,
            debug_unicode_filename@.len() == (q - wo) / 2,
            forall|k: int|
                0 <= k < (q - wo) / 2 ==> #[trigger] debug_unicode_filename@[k] == le16_at(
                    b,
                    wo as int + 2 * k,
                ) as u16,
        decreases wide_end - q,
    {
        proof {
            assert(le16_at(b, q as int) != 0);
            lemma_wstr_end_ge(b, q as int + 2);
        }
        debug_unicode_filename.push(read_le16(bytes, q));
        q = q + 2;
    }

    // Logo bitmap.
    if logo_addr < base {
        return Err(FormatError);
    }
    let go = (logo_addr - base) as usize;
    if go as u64 + logo_size as u64 > n64 {
        return Err(FormatError);
    }
    let logo = copy_range(bytes, go, go + logo_size as usize);

    // Section payloads, at raw file offsets.
    let mut sections: Vec<Vec<u8>> = Vec::new();
    let mut i: usize = 0;
    while i < countu
        invariant
            b == bytes@,
            n == b.len(),
            n64 == n,
            n >= HEADER_LEN,
            countu == count,
            countu <= 0xFFFFFFFF,
            i <= countu,
            base == le32_at(b, 260),
            cert_addr == le32_at(b, 272),
            count == le32_at(b, 276),
            sh_addr == le32_at(b, 280),
            lib_count == le32_at(b, 284),
            lib_addr == le32_at(b, 288),
            path_addr == le32_at(b, 292),
            file_addr == le32_at(b, 296),
            wide_addr == le32_at(b, 300),
            logo_addr == le32_at(b, 304),
            logo_size == le32_at(b, 308),
            cert_addr >= base,
            co == cert_addr - base,
            co + CERTIFICATE_FIXED_LEN <= n,
            csize == le32_at(b, co as int),
            csize >= CERTIFICATE_FIXED_LEN,
            co + csize <= n,
            sh_addr >= base,
            so == sh_addr - base,
            so + SECTION_HEADER_LEN * count <= n,
            names_ok(b, base as int, so as int, count as int),
            lib_addr >= base,
            lo == lib_addr - base,
            lo + LIBRARY_VERSION_LEN * lib_count <= n,
            path_addr >= base,
            po == path_addr - base,
            cstr_end(b, po as int) >= 0,
            file_addr >= base,
            fo == file_addr - base,
            cstr_end(b, fo as int) >= 0,
            wide_addr >= base,
            wo == wide_addr - base,
            wstr_end(b, wo as int) >= 0,
            logo_addr >= base,
            go == logo_addr - base,
            go + logo_size <= n,
            section_headers@.len() == countu,
            forall|j: int|
                0 <= j < countu ==> (#[trigger] section_headers@[j])@ == parsed_sh(b, so as int, j),
            sections@.len() == i,
            forall|j: int|
                0 <= j < i ==> #[trigger] sh_field(b, so as int, j, 12) + sh_field(b, so as int, j, 16)
                    <= n,
            forall|j: int|
                0 <= j < i ==> (#[trigger] sections@[j])@ == b.subrange(
                    sh_field(b, so as int, j, 12),
                    sh_field(b, so as int, j, 12) + sh_field(b, so as int, j, 16),
                ),
        decreases countu - i,
    {
        let raw = section_headers[i].raw_address;
        let size = section_headers[i].raw_size;
        proof {
            assert(section_headers@[i as int]@ == parsed_sh(b, so as int, i as int));
        }
        if raw as u64 + size as u64 > n64 {
            proof {
                crate::bytes::lemma_field_bounds(b, so as int + SECTION_HEADER_LEN * i as int + 12);
                crate::bytes::lemma_field_bounds(b, so as int + SECTION_HEADER_LEN * i as int + 16);
                assert(sh_field(b, so as int, i as int, 12) == raw as int);
                assert(sh_field(b, so as int, i as int, 16) == size as int);
                assert(!payloads_ok(b, so as int, count as int));
            }
            return Err(FormatError);
        }
        let payload = copy_range(bytes, raw as usize, raw as usize + size as usize);
        sections.push(payload);
        i = i + 1;
    }

    let img = ExecutableImage {
        magic,
        signature,
        base_address: base,
        image_size,
        entry_point,
        certificate_address: cert_addr,
        section_headers_address: sh_addr,
        library_versions_address: lib_addr,
        debug_pathname_address: path_addr,
        debug_filename_address: file_addr,
        debug_unicode_filename_address: wide_addr,
        logo_address: logo_addr,
        certificate: Certificate { title_id, region, version, reserved },
        section_headers,
        section_names,
        library_versions,
        debug_pathname,
        debug_filename,
        debug_unicode_filename,
        logo,
        sections,
    };
    proof {
        assert(img@.section_headers =~= Seq::new(
            count as nat,
            |j: int| parsed_sh(b, so as int, j),
        ));
        assert forall|j: int| 0 <= j < count as int implies #[trigger] img@.section_names[j]
            == b.subrange(
            sh_field(b, so as int, j, 20) - base as int,
            cstr_end(b, sh_field(b, so as int, j, 20) - base as int),
        ) by {
            assert(img@.section_names[j] == section_names@[j].deep_view());
            assert(section_names@[j].deep_view() =~= section_names@[j]@);
        }
        assert(img@.section_names =~= Seq::new(
            count as nat,
            |j: int|
                b.subrange(
                    sh_field(b, so as int, j, 20) - base,
                    cstr_end(b, sh_field(b, so as int, j, 20) - base),
                ),
        ));
        assert(img@.library_versions =~= Seq::new(
            lib_count as nat,
            |j: int| parsed_lib(b, lo as int, j),
        ));
        assert(img@.debug_unicode_filename =~= Seq::new(
            ((wstr_end(b, wo as int) - wo) / 2) as nat,
            |k: int| le16_at(b, wo as int + 2 * k) as u16,
        ));
        assert forall|j: int| 0 <= j < count as int implies #[trigger] img@.sections[j]
            == b.subrange(
            sh_field(b, so as int, j, 12),
            sh_field(b, so as int, j, 12) + sh_field(b, so as int, j, 16),
        ) by {
            assert(img@.sections[j] == sections@[j].deep_view());
            assert(sections@[j].deep_view() =~= sections@[j]@);
        }
        assert(img@.sections =~= Seq::new(
            count as nat,
            |j: int|
                b.subrange(
                    sh_field(b, so as int, j, 12),
                    sh_field(b, so as int, j, 12) + sh_field(b, so as int, j, 16),
                ),
        ));
        assert(img@ =~= parsed_image(b));
        assert(parse_image(b) == Some(parsed_image(b)));
    }
    Ok(img)
}

} // verus!
