//! The codec's round-trip law: serializing an image whose declared
//! addresses agree with the serializer's layout, and loading the bytes
//! back, yields the very same image, field for field.

use vstd::prelude::*;

use crate::bytes::{
    le16_at, le16_bytes, le32_at, le32_bytes, lemma_le16_roundtrip, lemma_le32_roundtrip,
};
use crate::loader::{
    cstr_end, names_ok, parse_image, parsed_image, parsed_lib, parsed_sh, payloads_ok, sh_field,
    wstr_end,
};
use crate::xbe::{
    cert_bytes, cert_off, cert_size, header_bytes, header_bytes_back, header_bytes_front,
    header_region_end, image_len, image_wf, lib_bytes, lib_off, libs_concat, logo_off,
    name_pos, names_concat, names_off, path_off, round_up, ser_byte, ser_spec, sh_bytes, sh_off,
    shs_concat, unit_bytes, wide_bytes, wide_off, wide_size, ImageModel, CERTIFICATE_FIXED_LEN,
    DIGEST_LEN, HEADER_LEN, LIBRARY_VERSION_LEN, SECTION_HEADER_LEN, SIGNATURE_LEN,
};

verus! {

/// Whether an image's stored addresses agree with where the serializer
/// puts each region: the name addresses point at the packed names in
/// order, the library-version address sits at the packed names' aligned
/// end, the ASCII filename address points at the filename's suffix
/// position inside the pathname, and no name, pathname byte or filename
/// code unit is zero. The loader accepts more than this; the round trip
/// is exact on these images.
pub open spec fn canonical(m: ImageModel) -> bool {
    &&& image_wf(m)
    &&& forall|i: int, k: int|
        0 <= i < m.section_names.len() && 0 <= k < m.section_names[i].len()
            ==> (#[trigger] m.section_names[i][k]) != 0
    &&& forall|i: int|
        0 <= i < m.section_headers.len() ==> (#[trigger] m.section_headers[i]).name_address
            == m.base_address + names_off(m) + name_pos(m.section_names, i)
    &&& m.library_versions_address == m.base_address + lib_off(m)
    &&& forall|k: int|
        0 <= k < m.debug_pathname.len() ==> (#[trigger] m.debug_pathname[k]) != 0
    &&& m.debug_filename.len() <= m.debug_pathname.len()
    &&& m.debug_filename_address == m.debug_pathname_address + m.debug_pathname.len()
        - m.debug_filename.len()
    &&& m.debug_filename == m.debug_pathname.skip(
        m.debug_pathname.len() - m.debug_filename.len(),
    )
    &&& forall|k: int|
        0 <= k < m.debug_unicode_filename.len() ==> (#[trigger] m.debug_unicode_filename[k]) != 0
}

/// Where each header-table entry's bytes sit inside the packed table.
#[verifier::rlimit(100)]
#[verifier::spinoff_prover]
proof fn lemma_shs_concat_index(shs: Seq<crate::xbe::SectionHeaderModel>, i: int)
    requires
        forall|j: int| 0 <= j < shs.len() ==> (#[trigger] shs[j]).digest.len() == DIGEST_LEN,
        0 <= i < shs.len(),
    ensures
        forall|r: int|
            0 <= r < SECTION_HEADER_LEN ==> shs_concat(shs)[SECTION_HEADER_LEN * i + r]
                == sh_bytes(shs[i])[r],
    decreases i,
{
    crate::xbe::lemma_sh_bytes_len(shs[0]);
    if i == 0 {
    } else {
        assert forall|j: int|
            0 <= j < shs.drop_first().len() implies (#[trigger] shs.drop_first()[j]).digest.len()
            == DIGEST_LEN by {
            assert(shs.drop_first()[j] == shs[j + 1]);
        }
        lemma_shs_concat_index(shs.drop_first(), i - 1);
        crate::xbe::lemma_shs_concat_len(shs);
        crate::xbe::lemma_shs_concat_len(shs.drop_first());
        assert(shs.drop_first()[i - 1] == shs[i]);
        assert forall|r: int|
            0 <= r < SECTION_HEADER_LEN implies shs_concat(shs)[SECTION_HEADER_LEN * i + r]
            == sh_bytes(shs[i])[r] by {
            assert(shs_concat(shs)[SECTION_HEADER_LEN * i + r] == shs_concat(shs.drop_first())[
                SECTION_HEADER_LEN * (i - 1) + r]);
        }
    }
}

/// Where each name's bytes and its terminator sit inside the packed
/// names.
proof fn lemma_names_concat_index(names: Seq<Seq<u8>>, i: int)
    requires
        0 <= i < names.len(),
    ensures
        name_pos(names, i) >= 0,
        name_pos(names, i) + names[i].len() + 1 <= names_concat(names).len(),
        forall|k: int|
            0 <= k < names[i].len() ==> names_concat(names)[name_pos(names, i) + k]
                == names[i][k],
        names_concat(names)[name_pos(names, i) + names[i].len()] == 0,
    decreases i,
{
    crate::xbe::lemma_name_pos(names, i);
    crate::xbe::lemma_name_pos(names, i + 1);
    crate::xbe::lemma_name_pos_step(names, i);
    crate::xbe::lemma_name_pos_mono(names, i + 1, names.len() as int);
    if i == 0 {
    } else {
        lemma_names_concat_index(names.drop_first(), i - 1);
        assert(names.drop_first()[i - 1] == names[i]);
        assert forall|k: int|
            0 <= k < names[i].len() implies names_concat(names)[name_pos(names, i) + k]
            == names[i][k] by {
            assert(names_concat(names)[name_pos(names, i) + k] == names_concat(names.drop_first())[
                name_pos(names.drop_first(), i - 1) + k]);
        }
        assert(names_concat(names)[name_pos(names, i) + names[i].len()] == names_concat(
            names.drop_first(),
        )[name_pos(names.drop_first(), i - 1) + names[i].len()]);
    }
}

/// Where each library record's bytes sit inside the packed records.
#[verifier::rlimit(100)]
#[verifier::spinoff_prover]
proof fn lemma_libs_concat_index(libs: Seq<crate::xbe::LibraryVersionModel>, i: int)
    requires
        forall|j: int| 0 <= j < libs.len() ==> (#[trigger] libs[j]).name.len() == 8,
        0 <= i < libs.len(),
    ensures
        forall|r: int|
            0 <= r < LIBRARY_VERSION_LEN ==> libs_concat(libs)[LIBRARY_VERSION_LEN * i + r]
                == lib_bytes(libs[i])[r],
    decreases i,
{
    assert(lib_bytes(libs[0]).len() == LIBRARY_VERSION_LEN);
    if i == 0 {
    } else {
        assert forall|j: int|
            0 <= j < libs.drop_first().len() implies (#[trigger] libs.drop_first()[j]).name.len()
            == 8 by {
            assert(libs.drop_first()[j] == libs[j + 1]);
        }
        lemma_libs_concat_index(libs.drop_first(), i - 1);
        crate::xbe::lemma_libs_concat_len(libs);
        crate::xbe::lemma_libs_concat_len(libs.drop_first());
        assert(libs.drop_first()[i - 1] == libs[i]);
        assert forall|r: int|
            0 <= r < LIBRARY_VERSION_LEN implies libs_concat(libs)[LIBRARY_VERSION_LEN * i + r]
            == lib_bytes(libs[i])[r] by {
            assert(libs_concat(libs)[LIBRARY_VERSION_LEN * i + r] == libs_concat(libs.drop_first())[
                LIBRARY_VERSION_LEN * (i - 1) + r]);
        }
    }
}

/// Where each code unit's two bytes sit inside the unit bytes.
proof fn lemma_unit_bytes_index(units: Seq<u16>, k: int)
    requires
        0 <= k < units.len(),
    ensures
        unit_bytes(units)[2 * k] == le16_bytes(units[k] as int)[0],
        unit_bytes(units)[2 * k + 1] == le16_bytes(units[k] as int)[1],
    decreases k,
{
    crate::xbe::lemma_wide_bytes_split(units);
    if k > 0 {
        crate::xbe::lemma_wide_bytes_split(units.drop_first());
        lemma_unit_bytes_index(units.drop_first(), k - 1);
        assert(units.drop_first()[k - 1] == units[k]);
    }
}

/// A scan that meets no zero byte before `e` and a zero byte at `e` ends
/// there.
proof fn lemma_cstr_found(b: Seq<u8>, p: int, e: int)
    requires
        0 <= p <= e < b.len(),
        forall|q: int| p <= q < e ==> b[q] != 0,
        b[e] == 0,
    ensures
        cstr_end(b, p) == e,
    decreases e - p,
{
    if p < e {
        lemma_cstr_found(b, p + 1, e);
    }
}

/// A scan that meets no zero unit before `e` and a zero unit at `e` ends
/// there.
proof fn lemma_wstr_found(b: Seq<u8>, p: int, e: int)
    requires
        0 <= p <= e,
        e + 2 <= b.len(),
        (e - p) % 2 == 0,
        forall|k: int| 0 <= 2 * k < e - p ==> #[trigger] le16_at(b, p + 2 * k) != 0,
        le16_at(b, e) == 0,
    ensures
        wstr_end(b, p) == e,
    decreases e - p,
{
    if p < e {
        assert(le16_at(b, p + 2 * 0) != 0);
        assert forall|k: int| 0 <= 2 * k < e - (p + 2) implies #[trigger] le16_at(b, p + 2 + 2 * k)
            != 0 by {
            assert(le16_at(b, p + 2 * (k + 1)) != 0);
        }
        lemma_wstr_found(b, p + 2, e);
    }
}

/// The byte windows of the header's first half.
#[verifier::rlimit(100)]
#[verifier::spinoff_prover]
proof fn lemma_header_front_windows(m: ImageModel)
    requires
        m.signature.len() == SIGNATURE_LEN,
    ensures
        header_bytes_front(m).len() == 276,
        header_bytes_front(m).subrange(0, 4) == le32_bytes(m.magic as int),
        header_bytes_front(m).subrange(4, 260) == m.signature,
        header_bytes_front(m).subrange(260, 264) == le32_bytes(m.base_address as int),
        header_bytes_front(m).subrange(264, 268) == le32_bytes(m.image_size as int),
        header_bytes_front(m).subrange(268, 272) == le32_bytes(m.entry_point as int),
        header_bytes_front(m).subrange(272, 276) == le32_bytes(m.certificate_address as int),
{
    let h = header_bytes_front(m);
    assert(h.subrange(0, 4) =~= le32_bytes(m.magic as int));
    assert(h.subrange(4, 260) =~= m.signature);
    assert(h.subrange(260, 264) =~= le32_bytes(m.base_address as int));
    assert(h.subrange(264, 268) =~= le32_bytes(m.image_size as int));
    assert(h.subrange(268, 272) =~= le32_bytes(m.entry_point as int));
    assert(h.subrange(272, 276) =~= le32_bytes(m.certificate_address as int));
}

/// The byte windows of the header's second half.
#[verifier::rlimit(100)]
#[verifier::spinoff_prover]
proof fn lemma_header_back_windows(m: ImageModel)
    ensures
        header_bytes_back(m).len() == 36,
        header_bytes_back(m).subrange(0, 4) == le32_bytes(m.section_headers.len() as int),
        header_bytes_back(m).subrange(4, 8) == le32_bytes(m.section_headers_address as int),
        header_bytes_back(m).subrange(8, 12) == le32_bytes(m.library_versions.len() as int),
        header_bytes_back(m).subrange(12, 16) == le32_bytes(m.library_versions_address as int),
        header_bytes_back(m).subrange(16, 20) == le32_bytes(m.debug_pathname_address as int),
        header_bytes_back(m).subrange(20, 24) == le32_bytes(m.debug_filename_address as int),
        header_bytes_back(m).subrange(24, 28) == le32_bytes(
            m.debug_unicode_filename_address as int,
        ),
        header_bytes_back(m).subrange(28, 32) == le32_bytes(m.logo_address as int),
        header_bytes_back(m).subrange(32, 36) == le32_bytes(m.logo.len() as int),
{
    let h = header_bytes_back(m);
    assert(h.subrange(0, 4) =~= le32_bytes(m.section_headers.len() as int));
    assert(h.subrange(4, 8) =~= le32_bytes(m.section_headers_address as int));
    assert(h.subrange(8, 12) =~= le32_bytes(m.library_versions.len() as int));
    assert(h.subrange(12, 16) =~= le32_bytes(m.library_versions_address as int));
    assert(h.subrange(16, 20) =~= le32_bytes(m.debug_pathname_address as int));
    assert(h.subrange(20, 24) =~= le32_bytes(m.debug_filename_address as int));
    assert(h.subrange(24, 28) =~= le32_bytes(m.debug_unicode_filename_address as int));
    assert(h.subrange(28, 32) =~= le32_bytes(m.logo_address as int));
    assert(h.subrange(32, 36) =~= le32_bytes(m.logo.len() as int));
}

/// The little-endian fields the fixed header's bytes hold.
#[verifier::rlimit(100)]
#[verifier::spinoff_prover]
proof fn lemma_header_bytes_fields(m: ImageModel)
    requires
        image_wf(m),
    ensures
        header_bytes(m).len() == HEADER_LEN,
        le32_at(header_bytes(m), 0) == m.magic,
        header_bytes(m).subrange(4, 260) == m.signature,
        le32_at(header_bytes(m), 260) == m.base_address,
        le32_at(header_bytes(m), 264) == m.image_size,
        le32_at(header_bytes(m), 268) == m.entry_point,
        le32_at(header_bytes(m), 272) == m.certificate_address,
        le32_at(header_bytes(m), 276) == m.section_headers.len(),
        le32_at(header_bytes(m), 280) == m.section_headers_address,
        le32_at(header_bytes(m), 284) == m.library_versions.len(),
        le32_at(header_bytes(m), 288) == m.library_versions_address,
        le32_at(header_bytes(m), 292) == m.debug_pathname_address,
        le32_at(header_bytes(m), 296) == m.debug_filename_address,
        le32_at(header_bytes(m), 300) == m.debug_unicode_filename_address,
        le32_at(header_bytes(m), 304) == m.logo_address,
        le32_at(header_bytes(m), 308) == m.logo.len(),
{
    let h = header_bytes(m);
    reveal(header_bytes);
    crate::xbe::lemma_region_chain(m);
    assert(lib_off(m) >= names_off(m));
    assert(SECTION_HEADER_LEN * m.section_headers.len() <= names_off(m));
    assert(m.section_headers.len() < 0x100000000);
    assert(m.library_versions.len() < 0x100000000);
    assert(m.logo.len() < 0x100000000);
    lemma_header_front_windows(m);
    lemma_header_back_windows(m);
    let front = header_bytes_front(m);
    let back = header_bytes_back(m);
    assert(h.subrange(0, 4) =~= front.subrange(0, 4));
    assert(h.subrange(4, 260) =~= front.subrange(4, 260));
    assert(h.subrange(260, 264) =~= front.subrange(260, 264));
    assert(h.subrange(264, 268) =~= front.subrange(264, 268));
    assert(h.subrange(268, 272) =~= front.subrange(268, 272));
    assert(h.subrange(272, 276) =~= front.subrange(272, 276));
    assert(h.subrange(276, 280) =~= back.subrange(0, 4));
    assert(h.subrange(280, 284) =~= back.subrange(4, 8));
    assert(h.subrange(284, 288) =~= back.subrange(8, 12));
    assert(h.subrange(288, 292) =~= back.subrange(12, 16));
    assert(h.subrange(292, 296) =~= back.subrange(16, 20));
    assert(h.subrange(296, 300) =~= back.subrange(20, 24));
    assert(h.subrange(300, 304) =~= back.subrange(24, 28));
    assert(h.subrange(304, 308) =~= back.subrange(28, 32));
    assert(h.subrange(308, 312) =~= back.subrange(32, 36));
    lemma_le32_at_of_subrange(h, 0, m.magic as int);
    lemma_le32_at_of_subrange(h, 260, m.base_address as int);
    lemma_le32_at_of_subrange(h, 264, m.image_size as int);
    lemma_le32_at_of_subrange(h, 268, m.entry_point as int);
    lemma_le32_at_of_subrange(h, 272, m.certificate_address as int);
    lemma_le32_at_of_subrange(h, 276, m.section_headers.len() as int);
    lemma_le32_at_of_subrange(h, 280, m.section_headers_address as int);
    lemma_le32_at_of_subrange(h, 284, m.library_versions.len() as int);
    lemma_le32_at_of_subrange(h, 288, m.library_versions_address as int);
    lemma_le32_at_of_subrange(h, 292, m.debug_pathname_address as int);
    lemma_le32_at_of_subrange(h, 296, m.debug_filename_address as int);
    lemma_le32_at_of_subrange(h, 300, m.debug_unicode_filename_address as int);
    lemma_le32_at_of_subrange(h, 304, m.logo_address as int);
    lemma_le32_at_of_subrange(h, 308, m.logo.len() as int);
}

/// A 4-byte window that encodes `x` reads back as `x`.
proof fn lemma_le32_at_of_subrange(b: Seq<u8>, p: int, x: int)
    requires
        0 <= p,
        p + 4 <= b.len(),
        0 <= x < 0x100000000,
        b.subrange(p, p + 4) == le32_bytes(x),
    ensures
        le32_at(b, p) == x,
{
    lemma_le32_roundtrip(x);
    crate::bytes::lemma_le32_depends_only_on_window(b, p, le32_bytes(x), 0);
}

/// A 2-byte window that encodes `x` reads back as `x`.
proof fn lemma_le16_at_of_subrange(b: Seq<u8>, p: int, x: int)
    requires
        0 <= p,
        p + 2 <= b.len(),
        0 <= x < 0x10000,
        b.subrange(p, p + 2) == le16_bytes(x),
    ensures
        le16_at(b, p) == x,
{
    lemma_le16_roundtrip(x);
    assert(b[p] == le16_bytes(x)[0]);
    assert(b[p + 1] == le16_bytes(x)[1]);
}

/// The fields a certificate's bytes hold.
#[verifier::rlimit(100)]
#[verifier::spinoff_prover]
proof fn lemma_cert_bytes_fields(m: ImageModel)
    requires
        image_wf(m),
    ensures
        cert_bytes(m).len() == cert_size(m),
        le32_at(cert_bytes(m), 0) == cert_size(m),
        le32_at(cert_bytes(m), 4) == m.certificate.title_id,
        le32_at(cert_bytes(m), 8) == m.certificate.region,
        le32_at(cert_bytes(m), 12) == m.certificate.version,
        cert_bytes(m).subrange(CERTIFICATE_FIXED_LEN as int, cert_size(m)) == m.certificate.reserved,
{
    let c = cert_bytes(m);
    crate::xbe::lemma_region_chain(m);
    assert(cert_size(m) < 0x100000000);
    assert(c.subrange(0, 4) =~= le32_bytes(cert_size(m)));
    assert(c.subrange(4, 8) =~= le32_bytes(m.certificate.title_id as int));
    assert(c.subrange(8, 12) =~= le32_bytes(m.certificate.region as int));
    assert(c.subrange(12, 16) =~= le32_bytes(m.certificate.version as int));
    assert(c.subrange(CERTIFICATE_FIXED_LEN as int, cert_size(m)) =~= m.certificate.reserved);
    lemma_le32_at_of_subrange(c, 0, cert_size(m));
    lemma_le32_at_of_subrange(c, 4, m.certificate.title_id as int);
    lemma_le32_at_of_subrange(c, 8, m.certificate.region as int);
    lemma_le32_at_of_subrange(c, 12, m.certificate.version as int);
}

/// The fields one header-table entry's bytes hold.
#[verifier::rlimit(100)]
#[verifier::spinoff_prover]
proof fn lemma_sh_bytes_fields(sh: crate::xbe::SectionHeaderModel)
    requires
        sh.digest.len() == DIGEST_LEN,
    ensures
        sh_bytes(sh).len() == SECTION_HEADER_LEN,
        le32_at(sh_bytes(sh), 0) == sh.flags,
        le32_at(sh_bytes(sh), 4) == sh.virtual_address,
        le32_at(sh_bytes(sh), 8) == sh.virtual_size,
        le32_at(sh_bytes(sh), 12) == sh.raw_address,
        le32_at(sh_bytes(sh), 16) == sh.raw_size,
        le32_at(sh_bytes(sh), 20) == sh.name_address,
        sh_bytes(sh).subrange(24, SECTION_HEADER_LEN as int) == sh.digest,
{
    let s = sh_bytes(sh);
    assert(s.subrange(0, 4) =~= le32_bytes(sh.flags as int));
    assert(s.subrange(4, 8) =~= le32_bytes(sh.virtual_address as int));
    assert(s.subrange(8, 12) =~= le32_bytes(sh.virtual_size as int));
    assert(s.subrange(12, 16) =~= le32_bytes(sh.raw_address as int));
    assert(s.subrange(16, 20) =~= le32_bytes(sh.raw_size as int));
    assert(s.subrange(20, 24) =~= le32_bytes(sh.name_address as int));
    assert(s.subrange(24, SECTION_HEADER_LEN as int) =~= sh.digest);
    lemma_le32_at_of_subrange(s, 0, sh.flags as int);
    lemma_le32_at_of_subrange(s, 4, sh.virtual_address as int);
    lemma_le32_at_of_subrange(s, 8, sh.virtual_size as int);
    lemma_le32_at_of_subrange(s, 12, sh.raw_address as int);
    lemma_le32_at_of_subrange(s, 16, sh.raw_size as int);
    lemma_le32_at_of_subrange(s, 20, sh.name_address as int);
}

/// The fields one library record's bytes hold.
#[verifier::rlimit(100)]
#[verifier::spinoff_prover]
proof fn lemma_lib_bytes_fields(lv: crate::xbe::LibraryVersionModel)
    requires
        lv.name.len() == 8,
    ensures
        lib_bytes(lv).len() == LIBRARY_VERSION_LEN,
        lib_bytes(lv).subrange(0, 8) == lv.name,
        le16_at(lib_bytes(lv), 8) == lv.major,
        le16_at(lib_bytes(lv), 10) == lv.minor,
        le16_at(lib_bytes(lv), 12) == lv.build,
        le16_at(lib_bytes(lv), 14) == lv.flags,
{
    let s = lib_bytes(lv);
    assert(s.subrange(0, 8) =~= lv.name);
    assert(s.subrange(8, 10) =~= le16_bytes(lv.major as int));
    assert(s.subrange(10, 12) =~= le16_bytes(lv.minor as int));
    assert(s.subrange(12, 14) =~= le16_bytes(lv.build as int));
    assert(s.subrange(14, 16) =~= le16_bytes(lv.flags as int));
    lemma_le16_at_of_subrange(s, 8, lv.major as int);
    lemma_le16_at_of_subrange(s, 10, lv.minor as int);
    lemma_le16_at_of_subrange(s, 12, lv.build as int);
    lemma_le16_at_of_subrange(s, 14, lv.flags as int);
}

/// Loading the serialized table gives back header entry `i`.
#[verifier::rlimit(100)]
#[verifier::spinoff_prover]
proof fn lemma_rt_sh_entry(m: ImageModel, i: int)
    requires
        canonical(m),
        0 <= i < m.section_headers.len(),
    ensures
        ser_spec(m).len() >= names_off(m),
        sh_field(ser_spec(m), sh_off(m), i, 0) == m.section_headers[i].flags,
        sh_field(ser_spec(m), sh_off(m), i, 4) == m.section_headers[i].virtual_address,
        sh_field(ser_spec(m), sh_off(m), i, 8) == m.section_headers[i].virtual_size,
        sh_field(ser_spec(m), sh_off(m), i, 12) == m.section_headers[i].raw_address,
        sh_field(ser_spec(m), sh_off(m), i, 16) == m.section_headers[i].raw_size,
        sh_field(ser_spec(m), sh_off(m), i, 20) == m.section_headers[i].name_address,
        parsed_sh(ser_spec(m), sh_off(m), i) == m.section_headers[i],
{
    let s = ser_spec(m);
    let so = sh_off(m);
    let shs = m.section_headers;
    crate::xbe::lemma_region_chain(m);
    crate::xbe::lemma_image_end_bounds(m, shs.len() as int);
    crate::xbe::lemma_shs_concat_len(shs);
    assert forall|q: int| so <= q < names_off(m) implies s[q] == shs_concat(shs)[q - so] by {
        crate::xbe::lemma_ser_byte_shs(m, q);
    }
    lemma_shs_concat_index(shs, i);
    lemma_sh_bytes_fields(shs[i]);
    let e = so + SECTION_HEADER_LEN * i;
    assert forall|r: int| 0 <= r < SECTION_HEADER_LEN implies s[e + r] == sh_bytes(shs[i])[r] by {
        assert(s[e + r] == shs_concat(shs)[SECTION_HEADER_LEN * i + r]);
    }
    crate::bytes::lemma_le32_depends_only_on_window(s, e, sh_bytes(shs[i]), 0);
    crate::bytes::lemma_le32_depends_only_on_window(s, e + 4, sh_bytes(shs[i]), 4);
    crate::bytes::lemma_le32_depends_only_on_window(s, e + 8, sh_bytes(shs[i]), 8);
    crate::bytes::lemma_le32_depends_only_on_window(s, e + 12, sh_bytes(shs[i]), 12);
    crate::bytes::lemma_le32_depends_only_on_window(s, e + 16, sh_bytes(shs[i]), 16);
    crate::bytes::lemma_le32_depends_only_on_window(s, e + 20, sh_bytes(shs[i]), 20);
    assert(s.subrange(e + 24, e + SECTION_HEADER_LEN) =~= sh_bytes(shs[i]).subrange(
        24,
        SECTION_HEADER_LEN as int,
    ));
    assert(parsed_sh(s, so, i) =~= shs[i]);
}

/// Loading the serialized packed names gives back name `i`, at the
/// address entry `i` declares.
#[verifier::rlimit(100)]
#[verifier::spinoff_prover]
proof fn lemma_rt_name(m: ImageModel, i: int)
    requires
        canonical(m),
        0 <= i < m.section_headers.len(),
    ensures
        sh_field(ser_spec(m), sh_off(m), i, 20) - m.base_address == names_off(m) + name_pos(
            m.section_names,
            i,
        ),
        sh_field(ser_spec(m), sh_off(m), i, 20) >= m.base_address,
        cstr_end(ser_spec(m), names_off(m) + name_pos(m.section_names, i)) == names_off(m)
            + name_pos(m.section_names, i) + m.section_names[i].len(),
        ser_spec(m).subrange(
            names_off(m) + name_pos(m.section_names, i),
            names_off(m) + name_pos(m.section_names, i) + m.section_names[i].len(),
        ) == m.section_names[i],
{
    let s = ser_spec(m);
    let names = m.section_names;
    let total = names_concat(names).len() as int;
    crate::xbe::lemma_region_chain(m);
    crate::xbe::lemma_image_end_bounds(m, m.section_headers.len() as int);
    lemma_rt_sh_entry(m, i);
    lemma_names_concat_index(names, i);
    assert forall|q: int| names_off(m) <= q < names_off(m) + total implies s[q] == names_concat(
        names,
    )[q - names_off(m)] by {
        crate::xbe::lemma_ser_byte_names(m, q);
    }
    let p = names_off(m) + name_pos(names, i);
    let e = p + names[i].len();
    assert(s[e] == 0);
    assert forall|q: int| p <= q < e implies s[q] != 0 by {
        assert(s[q] == names[i][q - p]);
    }
    lemma_cstr_found(s, p, e);
    assert(s.subrange(p, e) =~= names[i]);
}

/// Loading the serialized records gives back library version `i`.
#[verifier::rlimit(100)]
#[verifier::spinoff_prover]
proof fn lemma_rt_lib(m: ImageModel, i: int)
    requires
        canonical(m),
        0 <= i < m.library_versions.len(),
    ensures
        parsed_lib(ser_spec(m), lib_off(m), i) == m.library_versions[i],
{
    let s = ser_spec(m);
    let libs = m.library_versions;
    crate::xbe::lemma_region_chain(m);
    crate::xbe::lemma_image_end_bounds(m, m.section_headers.len() as int);
    crate::xbe::lemma_libs_concat_len(libs);
    assert forall|q: int|
        lib_off(m) <= q < lib_off(m) + LIBRARY_VERSION_LEN * libs.len() implies s[q] == libs_concat(
        libs,
    )[q - lib_off(m)] by {
        crate::xbe::lemma_ser_byte_libs(m, q);
    }
    lemma_libs_concat_index(libs, i);
    lemma_lib_bytes_fields(libs[i]);
    let e = lib_off(m) + LIBRARY_VERSION_LEN * i;
    assert forall|r: int| 0 <= r < LIBRARY_VERSION_LEN implies s[e + r] == lib_bytes(libs[i])[r] by {
        assert(s[e + r] == libs_concat(libs)[LIBRARY_VERSION_LEN * i + r]);
    }
    assert(s.subrange(e, e + 8) =~= libs[i].name);
    assert(le16_at(s, e + 8) == libs[i].major);
    assert(le16_at(s, e + 10) == libs[i].minor);
    assert(le16_at(s, e + 12) == libs[i].build);
    assert(le16_at(s, e + 14) == libs[i].flags);
    assert(parsed_lib(s, lib_off(m), i) =~= libs[i]);
}

/// Loading the serialized payloads gives back payload `i`.
#[verifier::rlimit(100)]
#[verifier::spinoff_prover]
proof fn lemma_rt_payload(m: ImageModel, i: int)
    requires
        canonical(m),
        0 <= i < m.section_headers.len(),
    ensures
        m.section_headers[i].raw_address + m.section_headers[i].raw_size <= ser_spec(m).len(),
        ser_spec(m).subrange(
            m.section_headers[i].raw_address as int,
            m.section_headers[i].raw_address + m.section_headers[i].raw_size,
        ) == m.sections[i],
{
    let s = ser_spec(m);
    let sh = m.section_headers[i];
    crate::xbe::lemma_region_chain(m);
    crate::xbe::lemma_image_end_bounds(m, m.section_headers.len() as int);
    assert(image_len(m) >= round_up(sh.raw_address + sh.raw_size, 0x1000));
    assert forall|q: int|
        sh.raw_address <= q < sh.raw_address + sh.raw_size implies s[q] == m.sections[i][q
        - sh.raw_address] by {
        crate::xbe::lemma_ser_byte_payload(m, q);
        crate::xbe::lemma_payload_byte_covered(m, q, i, m.section_headers.len() as int);
    }
    assert(s.subrange(sh.raw_address as int, sh.raw_address + sh.raw_size) =~= m.sections[i]);
}

/// Loading the serialized debug strings gives back the pathname, the
/// filename as its suffix, and the UTF-16 filename's code units.
#[verifier::rlimit(100)]
#[verifier::spinoff_prover]
proof fn lemma_rt_strings(m: ImageModel)
    requires
        canonical(m),
    ensures
        cstr_end(ser_spec(m), path_off(m)) == path_off(m) + m.debug_pathname.len(),
        ser_spec(m).subrange(path_off(m), path_off(m) + m.debug_pathname.len())
            == m.debug_pathname,
        cstr_end(ser_spec(m), m.debug_filename_address - m.base_address) == path_off(m)
            + m.debug_pathname.len(),
        ser_spec(m).subrange(
            m.debug_filename_address - m.base_address,
            path_off(m) + m.debug_pathname.len(),
        ) == m.debug_filename,
        wstr_end(ser_spec(m), wide_off(m)) == wide_off(m) + 2 * m.debug_unicode_filename.len(),
        Seq::new(
            m.debug_unicode_filename.len(),
            |k: int| le16_at(ser_spec(m), wide_off(m) + 2 * k) as u16,
        ) == m.debug_unicode_filename,
{
    let s = ser_spec(m);
    let path = m.debug_pathname;
    let units = m.debug_unicode_filename;
    let po = path_off(m);
    let wo = wide_off(m);
    crate::xbe::lemma_region_chain(m);
    crate::xbe::lemma_image_end_bounds(m, m.section_headers.len() as int);
    assert forall|q: int| po <= q < po + path.len() + 1 implies s[q] == (path + seq![0u8])[q
        - po] by {
        crate::xbe::lemma_ser_byte_path(m, q);
    }
    assert(s[po + path.len()] == 0);
    assert forall|q: int| po <= q < po + path.len() implies s[q] != 0 by {
        assert(s[q] == path[q - po]);
    }
    lemma_cstr_found(s, po, po + path.len() as int);
    assert(s.subrange(po, po + path.len()) =~= path);
    let fo = m.debug_filename_address - m.base_address;
    assert(fo == po + path.len() - m.debug_filename.len());
    lemma_cstr_found(s, fo, po + path.len() as int);
    assert(s.subrange(fo, po + path.len()) =~= m.debug_filename);
    crate::xbe::lemma_wide_bytes_split(units);
    assert forall|q: int| wo <= q < wo + wide_size(m) implies s[q] == wide_bytes(units)[q - wo] by {
        crate::xbe::lemma_ser_byte_wide(m, q);
    }
    assert forall|k: int| 0 <= k < units.len() implies #[trigger] le16_at(s, wo + 2 * k)
        == units[k] by {
        lemma_unit_bytes_index(units, k);
        assert(s[wo + 2 * k] == le16_bytes(units[k] as int)[0]);
        assert(s[wo + 2 * k + 1] == le16_bytes(units[k] as int)[1]);
        lemma_le16_roundtrip(units[k] as int);
        assert(le16_at(s, wo + 2 * k) == le16_at(le16_bytes(units[k] as int), 0));
    }
    let e = wo + 2 * units.len();
    assert(s[e] == wide_bytes(units)[2 * units.len() as int]);
    assert(s[e + 1] == wide_bytes(units)[2 * units.len() as int + 1]);
    assert(le16_at(s, e) == 0);
    assert forall|k: int| 0 <= 2 * k < e - wo implies #[trigger] le16_at(s, wo + 2 * k) != 0 by {
        assert(le16_at(s, wo + 2 * k) == units[k]);
    }
    lemma_wstr_found(s, wo, e);
    assert(Seq::new(units.len(), |k: int| le16_at(s, wo + 2 * k) as u16) =~= units);
}

/// Law: serializing an image whose layout is canonical and loading the
/// bytes back yields the very same image, field for field — header,
/// certificate, section headers, names, library versions, debug strings,
/// logo and payloads alike.
#[verifier::rlimit(100)]
#[verifier::spinoff_prover]
pub proof fn lemma_serialize_round_trip(m: ImageModel)
    requires
        canonical(m),
    ensures
        parse_image(ser_spec(m)) == Some(m),
{
    let s = ser_spec(m);
    let n = s.len() as int;
    crate::xbe::lemma_region_chain(m);
    crate::xbe::lemma_image_end_bounds(m, m.section_headers.len() as int);
    assert(n == image_len(m));
    assert(n >= round_up(header_region_end(m), 0x1000));

    // The fixed header.
    lemma_header_bytes_fields(m);
    assert forall|q: int| 0 <= q < HEADER_LEN implies s[q] == header_bytes(m)[q] by {
        crate::xbe::lemma_ser_byte_header(m, q);
    }
    crate::bytes::lemma_le32_depends_only_on_window(s, 0, header_bytes(m), 0);
    assert(s.subrange(4, 260) =~= m.signature);
    crate::bytes::lemma_le32_depends_only_on_window(s, 260, header_bytes(m), 260);
    crate::bytes::lemma_le32_depends_only_on_window(s, 264, header_bytes(m), 264);
    crate::bytes::lemma_le32_depends_only_on_window(s, 268, header_bytes(m), 268);
    crate::bytes::lemma_le32_depends_only_on_window(s, 272, header_bytes(m), 272);
    crate::bytes::lemma_le32_depends_only_on_window(s, 276, header_bytes(m), 276);
    crate::bytes::lemma_le32_depends_only_on_window(s, 280, header_bytes(m), 280);
    crate::bytes::lemma_le32_depends_only_on_window(s, 284, header_bytes(m), 284);
    crate::bytes::lemma_le32_depends_only_on_window(s, 288, header_bytes(m), 288);
    crate::bytes::lemma_le32_depends_only_on_window(s, 292, header_bytes(m), 292);
    crate::bytes::lemma_le32_depends_only_on_window(s, 296, header_bytes(m), 296);
    crate::bytes::lemma_le32_depends_only_on_window(s, 300, header_bytes(m), 300);
    crate::bytes::lemma_le32_depends_only_on_window(s, 304, header_bytes(m), 304);
    crate::bytes::lemma_le32_depends_only_on_window(s, 308, header_bytes(m), 308);
    assert(le32_at(s, 260) == m.base_address);
    assert(le32_at(s, 272) == m.certificate_address);
    assert(le32_at(s, 276) == m.section_headers.len());

    // The certificate.
    lemma_cert_bytes_fields(m);
    let co = cert_off(m);
    assert forall|q: int| co <= q < co + cert_size(m) implies s[q] == cert_bytes(m)[q - co] by {
        crate::xbe::lemma_ser_byte_cert(m, q);
    }
    crate::bytes::lemma_le32_depends_only_on_window(s, co, cert_bytes(m), 0);
    crate::bytes::lemma_le32_depends_only_on_window(s, co + 4, cert_bytes(m), 4);
    crate::bytes::lemma_le32_depends_only_on_window(s, co + 8, cert_bytes(m), 8);
    crate::bytes::lemma_le32_depends_only_on_window(s, co + 12, cert_bytes(m), 12);
    assert(le32_at(s, co) == cert_size(m));
    assert(s.subrange(co + CERTIFICATE_FIXED_LEN, co + cert_size(m)) =~= m.certificate.reserved);

    // The section-header table, names, libraries, payloads.
    let so = sh_off(m);
    let count = m.section_headers.len() as int;
    assert forall|i: int| 0 <= i < count implies parsed_sh(s, so, i) == m.section_headers[i] by {
        lemma_rt_sh_entry(m, i);
    }
    assert forall|i: int|
        0 <= i < count implies #[trigger] sh_field(s, so, i, 20) >= m.base_address && cstr_end(
        s,
        sh_field(s, so, i, 20) - m.base_address,
    ) >= 0 by {
        lemma_rt_sh_entry(m, i);
        lemma_rt_name(m, i);
        lemma_names_concat_index(m.section_names, i);
    }
    assert(names_ok(s, m.base_address as int, so, count));
    assert forall|i: int| 0 <= i < m.library_versions.len() implies parsed_lib(s, lib_off(m), i)
        == m.library_versions[i] by {
        lemma_rt_lib(m, i);
    }
    assert forall|i: int|
        0 <= i < count implies #[trigger] sh_field(s, so, i, 12) + sh_field(s, so, i, 16)
        <= s.len() by {
        lemma_rt_sh_entry(m, i);
        lemma_rt_payload(m, i);
    }
    assert(payloads_ok(s, so, count));

    // The debug strings and the logo.
    lemma_rt_strings(m);
    let go = logo_off(m);
    assert forall|q: int| go <= q < go + m.logo.len() implies s[q] == m.logo[q - go] by {
        crate::xbe::lemma_ser_byte_logo(m, q);
    }
    assert(s.subrange(go, go + m.logo.len()) =~= m.logo);

    // Every loader guard passes and every field reads back.
    let parsed = parsed_image(s);
    assert(parsed.section_headers =~= m.section_headers);
    assert forall|i: int| 0 <= i < count implies #[trigger] parsed.section_names[i]
        == m.section_names[i] by {
        lemma_rt_sh_entry(m, i);
        lemma_rt_name(m, i);
    }
    assert(parsed.section_names =~= m.section_names);
    assert(parsed.library_versions =~= m.library_versions);
    assert forall|i: int| 0 <= i < count implies #[trigger] parsed.sections[i]
        == m.sections[i] by {
        lemma_rt_sh_entry(m, i);
        lemma_rt_payload(m, i);
    }
    assert(parsed.sections =~= m.sections);
    assert(parsed.debug_unicode_filename =~= m.debug_unicode_filename);
    assert(parsed =~= m);
    assert(parse_image(s) == Some(parsed));
}

} // verus!
