use oxi_search::indexer::index_mft_volume;
use oxi_search::mft::apply_fixups;
use oxi_search::mft::parse_boot_sector;
use oxi_search::mft::parse_record;
use oxi_search::sector::MemSource;
use oxi_search::store::Database;

fn set_u16(b: &mut [u8], off: usize, v: u16) {
    b[off] = (v & 0xFF) as u8;
    b[off + 1] = (v >> 8) as u8;
}

fn set_u32(b: &mut [u8], off: usize, v: u32) {
    for k in 0..4 {
        b[off + k] = ((v >> (8 * k)) & 0xFF) as u8;
    }
}

fn set_u64(b: &mut [u8], off: usize, v: u64) {
    for k in 0..8 {
        b[off + k] = ((v >> (8 * k)) & 0xFF) as u8;
    }
}

/// A 1024-byte MFT record with one resident FILENAME attribute and a
/// two-sector fixup block (USA count 3).
fn make_record(name: &str, is_dir: bool, size: u64, in_use: bool, usn_ok: bool) -> Vec<u8> {
    let mut b = vec![0u8; 1024];
    b[0] = 0x46; // 'F'
    b[1] = 0x49; // 'I'
    b[2] = 0x4C; // 'L'
    b[3] = 0x45; // 'E'
    let usn: u16 = 0xABCD;
    set_u16(&mut b, 4, 48); // usa_offset
    set_u16(&mut b, 6, 3); // usa_count: USN + one word per sector
    set_u16(&mut b, 48, usn);
    set_u16(&mut b, 50, 0x1111); // original bytes under the first strip
    set_u16(&mut b, 52, 0x2222); // original bytes under the second strip
    set_u16(&mut b, 0x14, 0x38); // first attribute offset
    set_u16(&mut b, 0x16, if in_use { 1 } else { 0 });
    let a = 0x38;
    set_u32(&mut b, a, 0x30); // FILENAME
    set_u32(&mut b, a + 4, 0x200); // attribute length
    b[a + 8] = 0; // resident
    set_u16(&mut b, a + 20, 24); // content offset
    let c = a + 24;
    set_u32(&mut b, c + 48, if is_dir { 0x10000000 } else { 0 });
    set_u64(&mut b, c + 56, size);
    let units: Vec<u16> = name.encode_utf16().collect();
    b[c + 64] = units.len() as u8;
    b[c + 65] = 3; // namespace
    for (k, u) in units.iter().enumerate() {
        set_u16(&mut b, c + 66 + 2 * k, *u);
    }
    set_u16(&mut b, 510, usn);
    set_u16(&mut b, 1022, if usn_ok { usn } else { 0x9999 });
    b
}

#[test]
fn fixups_reject_wrong_usn_and_leave_buffer_alone() {
    let mut bad = make_record("foo.txt", false, 10, true, false);
    let copy = bad.clone();
    assert!(!apply_fixups(&mut bad, 512));
    assert_eq!(bad, copy);
}

#[test]
fn fixups_restore_sector_end_bytes() {
    let mut good = make_record("foo.txt", false, 10, true, true);
    assert!(apply_fixups(&mut good, 512));
    assert_eq!(u16::from_le_bytes([good[510], good[511]]), 0x1111);
    assert_eq!(u16::from_le_bytes([good[1022], good[1023]]), 0x2222);
}

#[test]
fn fixups_reject_out_of_range_array() {
    let mut b = make_record("foo.txt", false, 10, true, true);
    set_u16(&mut b, 6, 600); // 600 words do not fit in the record
    assert!(!apply_fixups(&mut b, 512));
    let mut b = make_record("foo.txt", false, 10, true, true);
    set_u16(&mut b, 6, 0); // no USN at all
    assert!(!apply_fixups(&mut b, 512));
}

#[test]
fn record_decodes_name_flag_and_size() {
    let mut b = make_record("foo.txt", false, 777, true, true);
    assert!(apply_fixups(&mut b, 512));
    let parsed = parse_record(&b);
    assert!(parsed.in_use);
    assert_eq!(parsed.filename.as_deref(), Some("foo.txt"));
    assert_eq!(parsed.file_size, Some(777));
    assert!(!parsed.is_dir);

    let mut d = make_record("stuff", true, 0, false, true);
    assert!(apply_fixups(&mut d, 512));
    let parsed = parse_record(&d);
    assert!(!parsed.in_use);
    assert!(parsed.is_dir);
    assert_eq!(parsed.filename.as_deref(), Some("stuff"));
}

#[test]
fn end_marker_stops_the_attribute_walk() {
    let mut b = make_record("foo.txt", false, 1, true, true);
    apply_fixups(&mut b, 512);
    set_u32(&mut b, 0x38, 0xFFFFFFFF); // terminator where the attribute was
    let clean = b.clone();
    let parsed_noise;
    {
        // scribble after the terminator: the walk must not read it
        for k in 0x40..0x200 {
            b[k] = 0x5A;
        }
        parsed_noise = parse_record(&b);
    }
    let parsed_clean = parse_record(&clean);
    assert!(parsed_noise.filename.is_none());
    assert!(parsed_clean.filename.is_none());
    assert_eq!(parsed_noise.is_dir, parsed_clean.is_dir);
    assert_eq!(parsed_noise.file_size, parsed_clean.file_size);
}

#[test]
fn unpaired_surrogate_leaves_the_name_empty() {
    let mut b = make_record("x", false, 5, true, true);
    // overwrite the single code unit with a lone high surrogate
    let c = 0x38 + 24;
    set_u16(&mut b, c + 66, 0xD800);
    apply_fixups(&mut b, 512);
    let parsed = parse_record(&b);
    assert!(parsed.filename.is_none());
    // the size was still decoded before the name failed
    assert_eq!(parsed.file_size, Some(5));
}

#[test]
fn boot_sector_geometry() {
    let mut b = vec![0u8; 512];
    set_u16(&mut b, 0x0B, 512);
    b[0x0D] = 8;
    set_u64(&mut b, 0x30, 4);
    let g = parse_boot_sector(&b).unwrap();
    assert_eq!(g.bytes_per_sector, 512);
    assert_eq!(g.sectors_per_cluster, 8);
    assert_eq!(g.mft_cluster, 4);
    assert_eq!(g.cluster_size, 4096);
    assert_eq!(g.mft_offset, 16384);

    let mut b = vec![0u8; 512];
    set_u16(&mut b, 0x0B, 512);
    b[0x0D] = 8;
    set_u64(&mut b, 0x30, u64::MAX);
    assert!(parse_boot_sector(&b).is_none());
}

#[test]
fn crafted_volume_yields_exactly_two_records() {
    let mut vol = vec![0u8; 1024 * 1024];
    // boot sector: 512-byte sectors, one per cluster, MFT at cluster 1
    set_u16(&mut vol, 0x0B, 512);
    vol[0x0D] = 1;
    set_u64(&mut vol, 0x30, 1);

    let r1 = make_record("alpha.txt", false, 10, true, true);
    let r2 = make_record("broken.txt", false, 20, true, false); // wrong USN
    let r3 = make_record("beta.log", false, 30, true, true);
    vol[512..1536].copy_from_slice(&r1);
    vol[1536..2560].copy_from_slice(&r2);
    vol[2560..3584].copy_from_slice(&r3);

    let source = MemSource { bytes: vol };
    let mut store = Database::new(":memory:").unwrap();
    let n = index_mft_volume(source, 4096, &mut store, "C").unwrap();
    assert_eq!(n, 2);
    assert_eq!(store.get_file_count().unwrap(), 2);

    let rows = store.search_files("alpha", None, None, None, 10).unwrap();
    assert_eq!(rows.len(), 1);
    assert_eq!(rows[0].path, "C:\\alpha.txt");
    assert_eq!(rows[0].name, "alpha.txt");
    assert_eq!(rows[0].extension.as_deref(), Some(".txt"));
    assert_eq!(rows[0].file_size, Some(10));
    assert!(!rows[0].is_dir);
    assert!(!rows[0].modified_time.is_empty());

    let rows = store.search_files("broken", None, None, None, 10).unwrap();
    assert!(rows.is_empty());

    let rows = store.search_files("beta", None, None, None, 10).unwrap();
    assert_eq!(rows.len(), 1);
    assert_eq!(rows[0].extension.as_deref(), Some(".log"));
}

#[test]
fn volume_too_short_for_boot_sector_is_refused() {
    let source = MemSource { bytes: vec![0u8; 100] };
    let mut store = Database::new(":memory:").unwrap();
    let r = index_mft_volume(source, 4096, &mut store, "C");
    assert!(r.is_err());
    assert_eq!(store.get_file_count().unwrap(), 0);
}

#[test]
fn directory_records_store_no_extension_or_size() {
    let mut vol = vec![0u8; 8192];
    set_u16(&mut vol, 0x0B, 512);
    vol[0x0D] = 1;
    set_u64(&mut vol, 0x30, 1);
    let d = make_record("docs.old", true, 4096, true, true);
    vol[512..1536].copy_from_slice(&d);

    let source = MemSource { bytes: vol };
    let mut store = Database::new(":memory:").unwrap();
    let n = index_mft_volume(source, 4096, &mut store, "D").unwrap();
    assert_eq!(n, 1);
    let rows = store.search_files("docs", None, None, None, 10).unwrap();
    assert_eq!(rows.len(), 1);
    assert!(rows[0].is_dir);
    // a directory row carries neither an extension nor a size,
    // whatever the on-disk attribute said
    assert!(rows[0].extension.is_none());
    assert!(rows[0].file_size.is_none());
    assert_eq!(rows[0].path, "D:\\docs.old");
}
