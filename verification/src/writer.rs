//! The executable-container serializer: it checks that an image's
//! declared addresses admit the file order, then lays the file out region
//! by region, each at its declared offset with zero padding between, and
//! finally places every payload at its raw file address, lowest first.

use vstd::prelude::*;

use crate::bytes::pad_to;
use crate::xbe::{
    cert_bytes, cert_off, cert_size, header_bytes, header_bytes_back, header_bytes_front,
    header_region_end, image_end_upto, image_len, image_wf, lemma_image_end_bounds,
    lemma_image_end_upper, lemma_libs_concat_len, lemma_libs_concat_snoc, lemma_name_pos,
    lemma_name_pos_mono, lemma_name_pos_step, lemma_names_concat_snoc, lemma_payload_byte_covered,
    lemma_payload_byte_uncovered, lemma_region_chain, lemma_ser_byte_cert, lemma_ser_byte_header,
    lemma_ser_byte_libs, lemma_ser_byte_logo, lemma_ser_byte_names, lemma_ser_byte_path,
    lemma_ser_byte_payload, lemma_ser_byte_shs, lemma_ser_byte_wide, lemma_ser_byte_zero,
    lemma_shs_concat_len, lemma_shs_concat_snoc, lemma_unit_bytes_snoc, lemma_wide_bytes_split,
    lib_bytes, lib_off, libs_concat, logo_off, name_pos, names_concat, names_off, path_off,
    raw_pair_ok, round_up, ser_byte, ser_spec, sh_bytes, sh_off, shs_concat, unit_bytes,
    wide_bytes, wide_off, wide_size, ExecutableImage, ImageModel, LibraryVersion, SectionHeader,
    CERTIFICATE_FIXED_LEN, DIGEST_LEN, HEADER_LEN, LIBRARY_VERSION_LEN, SECTION_HEADER_LEN,
    SIGNATURE_LEN,
};

verus! {

/// How many entries of a list are set.
pub open spec fn count_true(s: Seq<bool>) -> int
    decreases s.len(),
{
    if s.len() == 0 {
        0
    } else {
        count_true(s.drop_last()) + if s.last() {
            1int
        } else {
            0int
        }
    }
}

/// A count is bounded by the list, and a full count sets every entry.
proof fn lemma_count_true_bounds(s: Seq<bool>)
    ensures
        0 <= count_true(s) <= s.len(),
        count_true(s) == s.len() ==> forall|j: int| 0 <= j < s.len() ==> s[j],
    decreases s.len(),
{
    if s.len() > 0 {
        lemma_count_true_bounds(s.drop_last());
        if count_true(s) == s.len() {
            assert forall|j: int| 0 <= j < s.len() implies s[j] by {
                if j < s.len() - 1 {
                    assert(s.drop_last()[j] == s[j]);
                }
            }
        }
    }
}

/// Setting one unset entry raises the count by one.
proof fn lemma_count_true_update(s: Seq<bool>, j: int)
    requires
        0 <= j < s.len(),
        !s[j],
    ensures
        count_true(s.update(j, true)) == count_true(s) + 1,
    decreases s.len(),
{
    if j == s.len() - 1 {
        assert(s.update(j, true).drop_last() =~= s.drop_last());
    } else {
        assert(s.update(j, true).drop_last() =~= s.drop_last().update(j, true));
        lemma_count_true_update(s.drop_last(), j);
    }
}

/// Whether an image can be laid out; exactly the `image_wf` conditions,
/// checked one by one.
fn check_wf(img: &ExecutableImage) -> (r: bool)
    ensures
        r == image_wf(img@),
{
    let ghost m = img@;
    let n = img.section_headers.len();
    if img.sections.len() != n {
        return false;
    }
    if img.section_names.len() != n {
        return false;
    }
    if img.signature.len() != SIGNATURE_LEN {
        return false;
    }
    if img.certificate_address < img.base_address {
        return false;
    }
    let co: u64 = (img.certificate_address - img.base_address) as u64;
    if co < HEADER_LEN as u64 {
        return false;
    }
    if img.certificate.reserved.len() as u64 > 0xFFFF_FFFF {
        return false;
    }
    let cs: u64 = CERTIFICATE_FIXED_LEN as u64 + img.certificate.reserved.len() as u64;
    if img.section_headers_address < img.base_address {
        return false;
    }
    let so: u64 = (img.section_headers_address - img.base_address) as u64;
    if so < co + cs {
        return false;
    }
    if n as u64 >= 0x0800_0000 {
        return false;
    }
    let names_start: u64 = so + 44 * (n as u64);
    let mut total: u64 = 0;
    let mut i: usize = 0;
    while i < n
        invariant
            m == img@,
            n == img.section_headers.len(),
            n == img.section_names.len(),
            i <= n,
            total == name_pos(m.section_names, i as int),
            total <= 0x1_0000_0000,
        decreases n - i,
    {
        proof {
            lemma_name_pos_step(m.section_names, i as int);
        }
        if img.section_names[i].len() as u64 > 0xFFFF_FFFF {
            proof {
                lemma_name_pos_mono(m.section_names, i as int + 1, n as int);
                lemma_name_pos(m.section_names, n as int);
                assert(m.section_names.take(n as int) =~= m.section_names);
            }
            return false;
        }
        total = total + img.section_names[i].len() as u64 + 1;
        if total > 0x1_0000_0000 {
            proof {
                lemma_name_pos_mono(m.section_names, i as int + 1, n as int);
                lemma_name_pos(m.section_names, n as int);
                assert(m.section_names.take(n as int) =~= m.section_names);
            }
            return false;
        }
        i = i + 1;
    }
    proof {
        lemma_name_pos(m.section_names, n as int);
        assert(m.section_names.take(n as int) =~= m.section_names);
        assert(total == names_concat(m.section_names).len());
    }
    let lib_start: u64 = names_start + total;
    let lib_off_v: u64 = lib_start + ((4 - lib_start % 4) % 4);
    assert(lib_off_v == lib_off(m));
    let nl = img.library_versions.len();
    if nl as u64 >= 0x1000_0000 {
        return false;
    }
    if img.debug_unicode_filename_address < img.base_address {
        return false;
    }
    let wo: u64 = (img.debug_unicode_filename_address - img.base_address) as u64;
    if wo < lib_off_v + 16 * (nl as u64) {
        return false;
    }
    let wl = img.debug_unicode_filename.len();
    if wl as u64 >= 0x8000_0000 {
        return false;
    }
    if img.debug_pathname_address < img.base_address {
        return false;
    }
    let po: u64 = (img.debug_pathname_address - img.base_address) as u64;
    if po < wo + 2 * (wl as u64 + 1) {
        return false;
    }
    let pl = img.debug_pathname.len();
    if pl as u64 >= 0x1_0000_0000 {
        return false;
    }
    if img.logo_address < img.base_address {
        return false;
    }
    let go: u64 = (img.logo_address - img.base_address) as u64;
    if go < po + pl as u64 + 1 {
        return false;
    }
    if img.logo.len() as u64 >= 0x1_0000_0000 {
        return false;
    }
    let hend: u64 = go + img.logo.len() as u64;
    if hend > 0xFFFF_F000 {
        return false;
    }
    let r1000: u64 = hend + ((0x1000 - hend % 0x1000) % 0x1000);
    assert(r1000 == round_up(header_region_end(m), 0x1000));
    let mut i: usize = 0;
    while i < n
        invariant
            m == img@,
            n == img.section_headers.len(),
            n == img.sections.len(),
            i <= n,
            r1000 == round_up(header_region_end(m), 0x1000),
            forall|k: int|
                0 <= k < i ==> (#[trigger] m.section_headers[k]).digest.len() == DIGEST_LEN,
            forall|k: int|
                0 <= k < i ==> (#[trigger] m.sections[k]).len() == m.section_headers[k].raw_size,
            forall|k: int|
                0 <= k < i ==> (#[trigger] m.section_headers[k]).raw_address >= round_up(
                    header_region_end(m),
                    0x1000,
                ),
            forall|k: int|
                0 <= k < i ==> (#[trigger] m.section_headers[k]).raw_address
                    + m.section_headers[k].raw_size <= 0xFFFF_F000,
        decreases n - i,
    {
        proof {
            assert(m.section_headers[i as int] == img.section_headers@[i as int]@);
            assert(m.sections[i as int] == img.sections@[i as int]@);
        }
        if img.section_headers[i].digest.len() != DIGEST_LEN {
            return false;
        }
        if img.sections[i].len() as u64 != img.section_headers[i].raw_size as u64 {
            return false;
        }
        if (img.section_headers[i].raw_address as u64) < r1000 {
            return false;
        }
        if img.section_headers[i].raw_address as u64 + img.section_headers[i].raw_size as u64
            > 0xFFFF_F000 {
            return false;
        }
        i = i + 1;
    }
    let mut i: usize = 0;
    while i < nl
        invariant
            m == img@,
            nl == img.library_versions.len(),
            i <= nl,
            forall|k: int|
                0 <= k < i ==> (#[trigger] m.library_versions[k]).name.len() == 8,
        decreases nl - i,
    {
        proof {
            assert(m.library_versions[i as int] == img.library_versions@[i as int]@);
        }
        if img.library_versions[i].name.len() != 8 {
            return false;
        }
        i = i + 1;
    }
    let mut i: usize = 0;
    while i < n
        invariant
            m == img@,
            n == img.section_headers.len(),
            i <= n,
            forall|a: int, b: int| 0 <= a < i && 0 <= b < n ==> #[trigger] raw_pair_ok(m, a, b),
        decreases n - i,
    {
        let mut j: usize = 0;
        while j < n
            invariant
                m == img@,
                n == img.section_headers.len(),
                i < n,
                j <= n,
                forall|b: int| 0 <= b < j ==> #[trigger] raw_pair_ok(m, i as int, b),
            decreases n - j,
        {
            let ra = img.section_headers[i].raw_address;
            let sa = img.section_headers[i].raw_size;
            let rb = img.section_headers[j].raw_address;
            if i != j && ra == rb {
                proof {
                    assert(!raw_pair_ok(m, i as int, j as int));
                }
                return false;
            }
            if ra < rb {
                let ea: u64 = ra as u64 + sa as u64;
                let rea: u64 = ea + ((0x1000 - ea % 0x1000) % 0x1000);
                if rea > rb as u64 {
                    proof {
                        assert(!raw_pair_ok(m, i as int, j as int));
                    }
                    return false;
                }
            }
            proof {
                assert(raw_pair_ok(m, i as int, j as int));
            }
            j = j + 1;
        }
        i = i + 1;
    }
    proof {
        assert(image_wf(m));
    }
    true
}

/// All entries set means a full count.
proof fn lemma_count_true_all(s: Seq<bool>)
    requires
        forall|j: int| 0 <= j < s.len() ==> s[j],
    ensures
        count_true(s) == s.len(),
    decreases s.len(),
{
    if s.len() > 0 {
        assert forall|j: int| 0 <= j < s.drop_last().len() implies s.drop_last()[j] by {
            assert(s.drop_last()[j] == s[j]);
        }
        lemma_count_true_all(s.drop_last());
    }
}

/// Appends the fixed header's bytes.
#[verifier::rlimit(100)]
#[verifier::spinoff_prover]
fn write_header(out: &mut Vec<u8>, img: &ExecutableImage)
    requires
        img@.signature.len() == SIGNATURE_LEN,
        img@.section_headers.len() < 0x100000000,
        img@.library_versions.len() < 0x100000000,
        img@.logo.len() < 0x100000000,
    ensures
        final(out)@ == old(out)@ + header_bytes(img@),
        final(out)@.len() == old(out)@.len() + HEADER_LEN,
{
    let ghost m = img@;
    crate::bytes::push_le32(out, img.magic);
    crate::bytes::push_bytes(out, &img.signature);
    crate::bytes::push_le32(out, img.base_address);
    crate::bytes::push_le32(out, img.image_size);
    crate::bytes::push_le32(out, img.entry_point);
    crate::bytes::push_le32(out, img.certificate_address);
    proof {
        assert(out@ =~= old(out)@ + header_bytes_front(m));
    }
    let ghost mid = out@;
    crate::bytes::push_le32(out, img.section_headers.len() as u32);
    crate::bytes::push_le32(out, img.section_headers_address);
    crate::bytes::push_le32(out, img.library_versions.len() as u32);
    crate::bytes::push_le32(out, img.library_versions_address);
    crate::bytes::push_le32(out, img.debug_pathname_address);
    crate::bytes::push_le32(out, img.debug_filename_address);
    crate::bytes::push_le32(out, img.debug_unicode_filename_address);
    crate::bytes::push_le32(out, img.logo_address);
    crate::bytes::push_le32(out, img.logo.len() as u32);
    proof {
        reveal(header_bytes);
        assert(out@ =~= mid + header_bytes_back(m));
        assert(out@ =~= old(out)@ + header_bytes(m));
    }
}

/// Appends the certificate's bytes.
fn write_certificate(out: &mut Vec<u8>, img: &ExecutableImage)
    requires
        image_wf(img@),
    ensures
        final(out)@ == old(out)@ + cert_bytes(img@),
{
    let ghost m = img@;
    proof {
        assert(cert_size(m) <= sh_off(m) - cert_off(m));
    }
    let cs: u64 = CERTIFICATE_FIXED_LEN as u64 + img.certificate.reserved.len() as u64;
    crate::bytes::push_le32(out, cs as u32);
    crate::bytes::push_le32(out, img.certificate.title_id);
    crate::bytes::push_le32(out, img.certificate.region);
    crate::bytes::push_le32(out, img.certificate.version);
    crate::bytes::push_bytes(out, &img.certificate.reserved);
    assert(out@ =~= old(out)@ + cert_bytes(m));
}

/// Appends one section-header table entry.
fn write_one_section_header(out: &mut Vec<u8>, sh: &SectionHeader)
    ensures
        final(out)@ == old(out)@ + sh_bytes(sh@),
{
    crate::bytes::push_le32(out, sh.flags);
    crate::bytes::push_le32(out, sh.virtual_address);
    crate::bytes::push_le32(out, sh.virtual_size);
    crate::bytes::push_le32(out, sh.raw_address);
    crate::bytes::push_le32(out, sh.raw_size);
    crate::bytes::push_le32(out, sh.name_address);
    crate::bytes::push_bytes(out, &sh.digest);
    assert(out@ =~= old(out)@ + sh_bytes(sh@));
}

/// Appends the whole section-header table.
fn write_section_headers(out: &mut Vec<u8>, img: &ExecutableImage)
    ensures
        final(out)@ == old(out)@ + shs_concat(img@.section_headers),
{
    let ghost m = img@;
    let n = img.section_headers.len();
    let mut i: usize = 0;
    while i < n
        invariant
            m == img@,
            n == img.section_headers.len(),
            i <= n,
            out@ == old(out)@ + shs_concat(m.section_headers.take(i as int)),
        decreases n - i,
    {
        proof {
            assert(m.section_headers[i as int] == img.section_headers@[i as int]@);
        }
        write_one_section_header(out, &img.section_headers[i]);
        proof {
            lemma_shs_concat_snoc(m.section_headers, i as int);
            assert(out@ =~= old(out)@ + shs_concat(m.section_headers.take(i as int + 1)));
        }
        i = i + 1;
    }
    proof {
        assert(m.section_headers.take(n as int) =~= m.section_headers);
    }
}

/// Appends the packed null-terminated section names.
fn write_names(out: &mut Vec<u8>, img: &ExecutableImage)
    ensures
        final(out)@ == old(out)@ + names_concat(img@.section_names),
{
    let ghost m = img@;
    let n = img.section_names.len();
    let mut i: usize = 0;
    while i < n
        invariant
            m == img@,
            n == img.section_names.len(),
            i <= n,
            out@ == old(out)@ + names_concat(m.section_names.take(i as int)),
        decreases n - i,
    {
        proof {
            assert(m.section_names[i as int] == img.section_names@[i as int]@);
        }
        crate::bytes::push_bytes(out, &img.section_names[i]);
        out.push(0);
        proof {
            lemma_names_concat_snoc(m.section_names, i as int);
            assert(out@ =~= old(out)@ + names_concat(m.section_names.take(i as int + 1)));
        }
        i = i + 1;
    }
    proof {
        assert(m.section_names.take(n as int) =~= m.section_names);
    }
}

/// Appends one library-version record.
fn write_one_library_version(out: &mut Vec<u8>, lv: &LibraryVersion)
    ensures
        final(out)@ == old(out)@ + lib_bytes(lv@),
{
    crate::bytes::push_bytes(out, &lv.name);
    crate::bytes::push_le16(out, lv.major);
    crate::bytes::push_le16(out, lv.minor);
    crate::bytes::push_le16(out, lv.build);
    crate::bytes::push_le16(out, lv.flags);
    assert(out@ =~= old(out)@ + lib_bytes(lv@));
}

/// Appends the library-version records.
fn write_library_versions(out: &mut Vec<u8>, img: &ExecutableImage)
    ensures
        final(out)@ == old(out)@ + libs_concat(img@.library_versions),
{
    let ghost m = img@;
    let n = img.library_versions.len();
    let mut i: usize = 0;
    while i < n
        invariant
            m == img@,
            n == img.library_versions.len(),
            i <= n,
            out@ == old(out)@ + libs_concat(m.library_versions.take(i as int)),
        decreases n - i,
    {
        proof {
            assert(m.library_versions[i as int] == img.library_versions@[i as int]@);
        }
        write_one_library_version(out, &img.library_versions[i]);
        proof {
            lemma_libs_concat_snoc(m.library_versions, i as int);
            assert(out@ =~= old(out)@ + libs_concat(m.library_versions.take(i as int + 1)));
        }
        i = i + 1;
    }
    proof {
        assert(m.library_versions.take(n as int) =~= m.library_versions);
    }
}

/// Appends the UTF-16 filename: its code units, then a zero unit.
fn write_wide_filename(out: &mut Vec<u8>, img: &ExecutableImage)
    ensures
        final(out)@ == old(out)@ + wide_bytes(img@.debug_unicode_filename),
{
    let ghost m = img@;
    let n = img.debug_unicode_filename.len();
    let mut i: usize = 0;
    while i < n
        invariant
            m == img@,
            n == img.debug_unicode_filename.len(),
            i <= n,
            out@ == old(out)@ + unit_bytes(m.debug_unicode_filename.take(i as int)),
        decreases n - i,
    {
        crate::bytes::push_le16(out, img.debug_unicode_filename[i]);
        proof {
            lemma_unit_bytes_snoc(m.debug_unicode_filename, i as int);
            assert(out@ =~= old(out)@ + unit_bytes(m.debug_unicode_filename.take(i as int + 1)));
        }
        i = i + 1;
    }
    out.push(0);
    out.push(0);
    proof {
        assert(m.debug_unicode_filename.take(n as int) =~= m.debug_unicode_filename);
        lemma_wide_bytes_split(m.debug_unicode_filename);
        assert(out@ =~= old(out)@ + wide_bytes(m.debug_unicode_filename));
    }
}

/// Lays out the fixed header at the start of the file.
#[verifier::rlimit(100)]
#[verifier::spinoff_prover]
fn write_header_stage(img: &ExecutableImage) -> (out: Vec<u8>)
    requires
        image_wf(img@),
    ensures
        out@.len() == HEADER_LEN,
        forall|q: int| 0 <= q < out@.len() ==> out@[q] == ser_byte(img@, q),
{
    let ghost m = img@;
    proof {
        lemma_region_chain(m);
    }
    let mut out: Vec<u8> = Vec::new();
    write_header(&mut out, img);
    proof {
        assert(out@.len() == HEADER_LEN);
        assert forall|q: int| 0 <= q < out@.len() implies out@[q] == ser_byte(m, q) by {
            assert(out@[q] == header_bytes(m)[q]);
            lemma_ser_byte_header(m, q);
        }
    }
    out
}

/// Lays out the header and the certificate, the latter at its declared
/// file offset, zero padding between them.
#[verifier::rlimit(100)]
#[verifier::spinoff_prover]
fn write_front_region(img: &ExecutableImage) -> (out: Vec<u8>)
    requires
        image_wf(img@),
    ensures
        out@.len() == cert_off(img@) + cert_size(img@),
        forall|q: int| 0 <= q < out@.len() ==> out@[q] == ser_byte(img@, q),
{
    let ghost m = img@;
    proof {
        lemma_region_chain(m);
    }
    let co: u64 = (img.certificate_address - img.base_address) as u64;
    let mut out: Vec<u8> = write_header_stage(img);
    let ghost o1 = out@;
    pad_to(&mut out, co as usize);
    write_certificate(&mut out, img);
    proof {
        assert(out@.len() == cert_off(m) + cert_size(m));
        assert forall|q: int| 0 <= q < out@.len() implies out@[q] == ser_byte(m, q) by {
            if q < o1.len() {
                assert(out@[q] == o1[q]);
            } else if q < cert_off(m) {
                assert(out@[q] == 0);
                lemma_ser_byte_zero(m, q);
            } else {
                assert(out@[q] == cert_bytes(m)[q - cert_off(m)]);
                lemma_ser_byte_cert(m, q);
            }
        }
    }
    out
}

/// Lays out the header table at its declared file offset and the packed
/// section names right after it.
#[verifier::rlimit(100)]
fn write_table_region(out: &mut Vec<u8>, img: &ExecutableImage)
    requires
        image_wf(img@),
        old(out)@.len() == cert_off(img@) + cert_size(img@),
        forall|q: int| 0 <= q < old(out)@.len() ==> old(out)@[q] == ser_byte(img@, q),
    ensures
        final(out)@.len() == names_off(img@) + names_concat(img@.section_names).len(),
        forall|q: int| 0 <= q < final(out)@.len() ==> final(out)@[q] == ser_byte(img@, q),
{
    let ghost m = img@;
    proof {
        assert(HEADER_LEN <= cert_off(m));
        assert(cert_off(m) + cert_size(m) <= sh_off(m));
        assert(names_off(m) + names_concat(m.section_names).len() <= lib_off(m));
        assert(lib_off(m) + LIBRARY_VERSION_LEN * m.library_versions.len() <= wide_off(m));
        assert(wide_off(m) + wide_size(m) <= path_off(m));
        assert(path_off(m) + m.debug_pathname.len() + 1 <= logo_off(m));
        assert(header_region_end(m) <= round_up(header_region_end(m), 0x1000));
        assert(round_up(header_region_end(m), 0x1000) <= 0xFFFF_F000);
    }
    let so: u64 = (img.section_headers_address - img.base_address) as u64;
    let ghost o2 = out@;
    pad_to(out, so as usize);
    write_section_headers(out, img);
    proof {
        lemma_shs_concat_len(m.section_headers);
        assert(out@.len() == names_off(m));
        assert forall|q: int| 0 <= q < out@.len() implies out@[q] == ser_byte(m, q) by {
            if q < o2.len() {
                assert(out@[q] == o2[q]);
            } else if q < sh_off(m) {
                assert(out@[q] == 0);
                lemma_ser_byte_zero(m, q);
            } else {
                assert(out@[q] == shs_concat(m.section_headers)[q - sh_off(m)]);
                lemma_ser_byte_shs(m, q);
            }
        }
    }
    let ghost o3 = out@;
    write_names(out, img);
    proof {
        assert(out@.len() == names_off(m) + names_concat(m.section_names).len());
        assert forall|q: int| 0 <= q < out@.len() implies out@[q] == ser_byte(m, q) by {
            if q < o3.len() {
                assert(out@[q] == o3[q]);
            } else {
                assert(out@[q] == names_concat(m.section_names)[q - names_off(m)]);
                lemma_ser_byte_names(m, q);
            }
        }
    }
}

/// Lays out everything from the library versions to the padded end of the
/// header region, each region at its declared file offset.
#[verifier::rlimit(100)]
fn write_back_region(out: &mut Vec<u8>, img: &ExecutableImage)
    requires
        image_wf(img@),
        old(out)@.len() == names_off(img@) + names_concat(img@.section_names).len(),
        forall|q: int| 0 <= q < old(out)@.len() ==> old(out)@[q] == ser_byte(img@, q),
    ensures
        final(out)@.len() == round_up(header_region_end(img@), 0x1000),
        forall|q: int| 0 <= q < final(out)@.len() ==> final(out)@[q] == ser_byte(img@, q),
{
    let ghost m = img@;
    let n = img.section_headers.len();
    proof {
        assert(HEADER_LEN <= cert_off(m));
        assert(cert_off(m) + cert_size(m) <= sh_off(m));
        assert(names_off(m) + names_concat(m.section_names).len() <= lib_off(m));
        assert(lib_off(m) + LIBRARY_VERSION_LEN * m.library_versions.len() <= wide_off(m));
        assert(wide_off(m) + wide_size(m) <= path_off(m));
        assert(path_off(m) + m.debug_pathname.len() + 1 <= logo_off(m));
        assert(header_region_end(m) <= round_up(header_region_end(m), 0x1000));
        assert(round_up(header_region_end(m), 0x1000) <= 0xFFFF_F000);
    }
    let wo: u64 = (img.debug_unicode_filename_address - img.base_address) as u64;
    let po: u64 = (img.debug_pathname_address - img.base_address) as u64;
    let go: u64 = (img.logo_address - img.base_address) as u64;
    let hend: u64 = go + img.logo.len() as u64;
    let r1000: u64 = hend + ((0x1000 - hend % 0x1000) % 0x1000);
    let lo: u64 = out.len() as u64 + ((4 - out.len() as u64 % 4) % 4);
    proof {
        assert(lo == lib_off(m));
    }
    let ghost o4 = out@;
    pad_to(out, lo as usize);
    write_library_versions(out, img);
    proof {
        lemma_libs_concat_len(m.library_versions);
        assert(out@.len() == lib_off(m) + LIBRARY_VERSION_LEN * m.library_versions.len());
        assert forall|q: int| 0 <= q < out@.len() implies out@[q] == ser_byte(m, q) by {
            if q < o4.len() {
                assert(out@[q] == o4[q]);
            } else if q < lib_off(m) {
                assert(out@[q] == 0);
                lemma_ser_byte_zero(m, q);
            } else {
                assert(out@[q] == libs_concat(m.library_versions)[q - lib_off(m)]);
                lemma_ser_byte_libs(m, q);
            }
        }
    }
    let ghost o5 = out@;
    pad_to(out, wo as usize);
    write_wide_filename(out, img);
    proof {
        lemma_wide_bytes_split(m.debug_unicode_filename);
        assert(out@.len() == wide_off(m) + wide_size(m));
        assert forall|q: int| 0 <= q < out@.len() implies out@[q] == ser_byte(m, q) by {
            if q < o5.len() {
                assert(out@[q] == o5[q]);
            } else if q < wide_off(m) {
                assert(out@[q] == 0);
                lemma_ser_byte_zero(m, q);
            } else {
                assert(out@[q] == wide_bytes(m.debug_unicode_filename)[q - wide_off(m)]);
                lemma_ser_byte_wide(m, q);
            }
        }
    }
    let ghost o6 = out@;
    pad_to(out, po as usize);
    crate::bytes::push_bytes(out, &img.debug_pathname);
    out.push(0);
    proof {
        assert(out@.len() == path_off(m) + m.debug_pathname.len() + 1);
        assert forall|q: int| 0 <= q < out@.len() implies out@[q] == ser_byte(m, q) by {
            if q < o6.len() {
                assert(out@[q] == o6[q]);
            } else if q < path_off(m) {
                assert(out@[q] == 0);
                lemma_ser_byte_zero(m, q);
            } else {
                assert(out@[q] == (m.debug_pathname + seq![0u8])[q - path_off(m)]);
                lemma_ser_byte_path(m, q);
            }
        }
    }
    let ghost o7 = out@;
    pad_to(out, go as usize);
    crate::bytes::push_bytes(out, &img.logo);
    proof {
        assert(out@.len() == header_region_end(m));
        assert forall|q: int| 0 <= q < out@.len() implies out@[q] == ser_byte(m, q) by {
            if q < o7.len() {
                assert(out@[q] == o7[q]);
            } else if q < logo_off(m) {
                assert(out@[q] == 0);
                lemma_ser_byte_zero(m, q);
            } else {
                assert(out@[q] == m.logo[q - logo_off(m)]);
                lemma_ser_byte_logo(m, q);
            }
        }
    }
    let ghost o8 = out@;
    pad_to(out, r1000 as usize);
    proof {
        assert forall|q: int| 0 <= q < out@.len() implies out@[q] == ser_byte(m, q) by {
            if q < o8.len() {
                assert(out@[q] == o8[q]);
            } else {
                assert(out@[q] == 0);
                lemma_ser_byte_zero(m, q);
            }
        }
    }
}

/// Writes every payload at its raw file address, lowest first, zero
/// padding between them, and pads the file to its final 0x1000 boundary.
#[verifier::rlimit(100)]
fn write_payloads(out: &mut Vec<u8>, img: &ExecutableImage)
    requires
        image_wf(img@),
        old(out)@.len() == round_up(header_region_end(img@), 0x1000),
        forall|q: int| 0 <= q < old(out)@.len() ==> old(out)@[q] == ser_byte(img@, q),
    ensures
        final(out)@.len() == image_len(img@),
        forall|q: int| 0 <= q < final(out)@.len() ==> final(out)@[q] == ser_byte(img@, q),
{
    let ghost m = img@;
    let n = img.section_headers.len();
    let go: u64 = (img.logo_address - img.base_address) as u64;
    let hend: u64 = go + img.logo.len() as u64;
    let r1000: u64 = hend + ((0x1000 - hend % 0x1000) % 0x1000);

    // The file's final length: every payload's padded end.
    let mut limv: u64 = r1000;
    let mut i: usize = 0;
    while i < n
        invariant
            m == img@,
            n == img.section_headers.len(),
            i <= n,
            image_wf(m),
            r1000 == round_up(header_region_end(m), 0x1000),
            limv == image_end_upto(m, i as int),
        decreases n - i,
    {
        proof {
            assert(m.section_headers[i as int] == img.section_headers@[i as int]@);
        }
        let e: u64 = img.section_headers[i].raw_address as u64
            + img.section_headers[i].raw_size as u64;
        let re: u64 = e + ((0x1000 - e % 0x1000) % 0x1000);
        if re > limv {
            limv = re;
        }
        i = i + 1;
    }
    proof {
        lemma_image_end_bounds(m, n as int);
        lemma_image_end_upper(m, n as int);
    }

    // Write every payload at its raw address, lowest first.
    let mut written: Vec<bool> = Vec::new();
    let mut i: usize = 0;
    while i < n
        invariant
            i <= n,
            written@.len() == i,
            forall|j: int| 0 <= j < i ==> !written@[j],
        decreases n - i,
    {
        written.push(false);
        i = i + 1;
    }
    proof {
        lemma_count_true_zero(written@);
    }
    let mut t: usize = 0;
    while t < n
        invariant
            m == img@,
            n == img.section_headers.len(),
            n == img.sections.len(),
            image_wf(m),
            r1000 == round_up(header_region_end(m), 0x1000),
            limv == image_len(m),
            t <= n,
            written@.len() == n,
            count_true(written@) == t,
            out@.len() >= round_up(header_region_end(m), 0x1000),
            out@.len() <= image_len(m),
            forall|j: int|
                0 <= j < n && written@[j] ==> (#[trigger] m.section_headers[j]).raw_address
                    + m.section_headers[j].raw_size <= out@.len(),
            forall|j: int|
                0 <= j < n && !written@[j] ==> (#[trigger] m.section_headers[j]).raw_address
                    >= out@.len(),
            forall|q: int| 0 <= q < out@.len() ==> out@[q] == ser_byte(m, q),
        decreases n - t,
    {
        let mut best: usize = n;
        let mut j: usize = 0;
        while j < n
            invariant
                m == img@,
                n == img.section_headers.len(),
                written@.len() == n,
                j <= n,
                best <= n,
                best == n ==> forall|l: int| 0 <= l < j ==> written@[l],
                best < n ==> !written@[best as int],
                best < n ==> forall|l: int|
                    0 <= l < j && !written@[l]
                        ==> m.section_headers[best as int].raw_address <= (
                    #[trigger] m.section_headers[l]).raw_address,
            decreases n - j,
        {
            if !written[j] {
                proof {
                    assert(m.section_headers[j as int] == img.section_headers@[j as int]@);
                }
                if best == n || img.section_headers[j].raw_address
                    < img.section_headers[best].raw_address {
                    best = j;
                }
            }
            j = j + 1;
        }
        if best == n {
            proof {
                lemma_count_true_all(written@);
                assert(false);
            }
        }
        let bi = best;
        proof {
            assert(m.section_headers[bi as int] == img.section_headers@[bi as int]@);
        }
        let raw = img.section_headers[bi].raw_address;
        let size = img.section_headers[bi].raw_size;
        proof {
            assert(m.section_headers[bi as int].raw_address >= out@.len());
        }
        let ghost o_pre = out@;
        pad_to(out, raw as usize);
        proof {
            assert forall|q: int| 0 <= q < out@.len() implies out@[q] == ser_byte(m, q) by {
                if q < o_pre.len() {
                    assert(out@[q] == o_pre[q]);
                } else {
                    assert(out@[q] == 0);
                    assert forall|l: int|
                        0 <= l < n implies !((#[trigger] m.section_headers[l]).raw_address <= q
                        < m.section_headers[l].raw_address + m.section_headers[l].raw_size) by {
                        if !written@[l] {
                            assert(m.section_headers[bi as int].raw_address
                                <= m.section_headers[l].raw_address);
                        }
                    }
                    lemma_payload_byte_uncovered(m, q, n as int);
                    lemma_ser_byte_payload(m, q);
                }
            }
        }
        let ghost o_mid = out@;
        crate::bytes::push_bytes(out, &img.sections[bi]);
        proof {
            assert(m.sections[bi as int] == img.sections@[bi as int]@);
            assert(out@.len() == raw + size);
            lemma_image_end_bounds(m, n as int);
            assert(out@.len() <= round_up(raw + size, 0x1000));
            assert forall|q: int| 0 <= q < out@.len() implies out@[q] == ser_byte(m, q) by {
                if q < o_mid.len() {
                    assert(out@[q] == o_mid[q]);
                } else {
                    assert(out@[q] == m.sections[bi as int][q - raw]);
                    lemma_payload_byte_covered(m, q, bi as int, n as int);
                    lemma_ser_byte_payload(m, q);
                }
            }
            lemma_count_true_update(written@, bi as int);
        }
        written.set(bi, true);
        proof {
            assert forall|j2: int|
                0 <= j2 < n && !written@[j2] implies (#[trigger] m.section_headers[j2]).raw_address
                >= out@.len() by {
                assert(!written@[j2] ==> j2 != bi as int);
                assert(raw_pair_ok(m, bi as int, j2));
            }
        }
        t = t + 1;
    }
    proof {
        lemma_count_true_bounds(written@);
    }
    let ghost o_fin = out@;
    pad_to(out, limv as usize);
    proof {
        assert forall|q: int| 0 <= q < out@.len() implies out@[q] == ser_byte(m, q) by {
            if q < o_fin.len() {
                assert(out@[q] == o_fin[q]);
            } else {
                assert(out@[q] == 0);
                assert forall|l: int|
                    0 <= l < n implies !((#[trigger] m.section_headers[l]).raw_address <= q
                    < m.section_headers[l].raw_address + m.section_headers[l].raw_size) by {
                    assert(written@[l]);
                }
                lemma_payload_byte_uncovered(m, q, n as int);
                lemma_ser_byte_payload(m, q);
            }
        }
    }
}

impl ExecutableImage {
    /// Rebuilds the image's byte stream: header, certificate, header
    /// table, packed names, library versions, UTF-16 filename, pathname,
    /// logo — each padded to its declared address — then, beyond the
    /// 0x1000-aligned header region, every payload at its raw address,
    /// padded to a final 0x1000 boundary. An image whose declared
    /// addresses or sizes cannot be laid out this way is refused as a
    /// `StructuralError`; so is one whose header table and payload list
    /// disagree in length.
    pub fn serialize(&self) -> (r: Result<Vec<u8>, crate::errors::StructuralError>)
        ensures
            r is Ok <==> image_wf(self@),
            r is Ok ==> r.unwrap()@ == ser_spec(self@),
    {
        if !check_wf(self) {
            return Err(crate::errors::StructuralError);
        }
        let mut out = write_front_region(self);
        write_table_region(&mut out, self);
        write_back_region(&mut out, self);
        write_payloads(&mut out, self);
        proof {
            assert(out@ =~= ser_spec(self@));
        }
        Ok(out)
    }
}

/// An all-clear list counts zero.
proof fn lemma_count_true_zero(s: Seq<bool>)
    requires
        forall|j: int| 0 <= j < s.len() ==> !s[j],
    ensures
        count_true(s) == 0,
    decreases s.len(),
{
    if s.len() > 0 {
        assert forall|j: int| 0 <= j < s.drop_last().len() implies !s.drop_last()[j] by {
            assert(s.drop_last()[j] == s[j]);
        }
        lemma_count_true_zero(s.drop_last());
    }
}



} // verus!
