//! NTFS Master File Table records: the `FILE` magic, update-sequence
//! fixups, boot-sector geometry, and the FILENAME attribute walk.

use vstd::prelude::*;

use crate::bytes::le16;
use crate::bytes::le32;
use crate::bytes::le64;
use crate::bytes::read_u16_le;
use crate::bytes::read_u32_le;
use crate::bytes::read_u64_le;

verus! {

/// Size of one MFT record in bytes.
pub const MFT_RECORD_SIZE: usize = 1024;

/// Offset of the update sequence array within a record.
pub open spec fn usa_offset(b: Seq<u8>) -> int {
    le16(b, 4)
}

/// Number of words in the update sequence array, the USN included.
pub open spec fn usa_count(b: Seq<u8>) -> int {
    le16(b, 6)
}

/// The update sequence number: the first word of the array.
pub open spec fn usn_of(b: Seq<u8>) -> int {
    le16(b, usa_offset(b))
}

/// The position of the two-byte strip at the end of sector `i`.
pub open spec fn strip_pos(bps: int, i: int) -> int {
    i * bps - 2
}

/// The record's fixup structure is sound: the array lies inside the
/// buffer and every sector-end strip equals the USN.
pub open spec fn fixups_valid(b: Seq<u8>, bps: int) -> bool {
    &&& b.len() >= 8
    &&& usa_count(b) >= 1
    &&& usa_offset(b) + 2 * usa_count(b) <= b.len()
    &&& forall|i: int|
        1 <= i < usa_count(b) ==> {
            &&& #[trigger] strip_pos(bps, i) >= 0
            &&& strip_pos(bps, i) + 2 <= b.len()
            &&& le16(b, strip_pos(bps, i)) == usn_of(b)
        }
}

/// The buffer with the strips of sectors `1..k` restored from the array.
pub open spec fn apply_fix_upto(b: Seq<u8>, bps: int, k: int) -> Seq<u8>
    decreases k,
{
    if k <= 1 {
        b
    } else {
        apply_fix_upto(b, bps, k - 1).update(strip_pos(bps, k - 1), b[usa_offset(b) + 2 * (k - 1)])
            .update(strip_pos(bps, k - 1) + 1, b[usa_offset(b) + 2 * (k - 1) + 1])
    }
}

/// The record with every sector-end strip restored.
pub open spec fn apply_fix_spec(b: Seq<u8>, bps: int) -> Seq<u8> {
    apply_fix_upto(b, bps, usa_count(b))
}

/// Validate a record's update-sequence fixups and restore the original
/// sector-end bytes. Returns false, leaving the buffer unchanged, when
/// the array lies outside the buffer, a strip position falls outside it,
/// or a strip does not equal the USN.
pub fn apply_fixups(buffer: &mut Vec<u8>, bytes_per_sector: usize) -> (ok: bool)
    ensures
        final(buffer)@.len() == old(buffer)@.len(),
        ok == fixups_valid(old(buffer)@, bytes_per_sector as int),
        ok ==> final(buffer)@ == apply_fix_spec(old(buffer)@, bytes_per_sector as int),
        !ok ==> final(buffer)@ == old(buffer)@,
{
    let len = buffer.len();
    if len < 8 {
        return false;
    }
    let off = read_u16_le(buffer, 4) as usize;
    let cnt = read_u16_le(buffer, 6) as usize;
    if cnt < 1 {
        return false;
    }
    if off + 2 * cnt > len {
        return false;
    }
    let usn = read_u16_le(buffer, off);

    // First pass: validate every strip without touching the buffer.
    let mut i: usize = 1;
    while i < cnt
        invariant
            buffer@ == old(buffer)@,
            len == buffer@.len(),
            8 <= len,
            off == usa_offset(buffer@),
            cnt == usa_count(buffer@),
            1 <= cnt,
            off + 2 * cnt <= len,
            usn == usn_of(buffer@),
            1 <= i <= cnt,
            forall|j: int|
                1 <= j < i ==> {
                    &&& #[trigger] strip_pos(bytes_per_sector as int, j) >= 0
                    &&& strip_pos(bytes_per_sector as int, j) + 2 <= len
                    &&& le16(buffer@, strip_pos(bytes_per_sector as int, j)) == usn
                },
        decreases cnt - i,
    {
        let pos = match i.checked_mul(bytes_per_sector) {
            Some(p) => p,
            None => {
                proof {
                    assert(i * bytes_per_sector > usize::MAX >= len);
                    assert(!(strip_pos(bytes_per_sector as int, i as int) + 2 <= len));
                }
                return false;
            },
        };
        if pos < 2 || pos > len {
            proof {
                if pos < 2 {
                    assert(!(strip_pos(bytes_per_sector as int, i as int) >= 0));
                } else {
                    assert(!(strip_pos(bytes_per_sector as int, i as int) + 2 <= len));
                }
            }
            return false;
        }
        let disk = read_u16_le(buffer, pos - 2);
        if disk != usn {
            proof {
                assert(strip_pos(bytes_per_sector as int, i as int) == pos - 2);
                assert(le16(buffer@, strip_pos(bytes_per_sector as int, i as int)) != usn_of(
                    buffer@,
                ));
            }
            return false;
        }
        i += 1;
    }

    // The strips may fall inside the array itself on a corrupt record, so
    // restore from a copy taken before any write.
    let ghost orig = buffer@;
    let mut fix: Vec<u8> = Vec::new();
    let mut t: usize = 0;
    while t < 2 * cnt
        invariant
            buffer@ == orig,
            len == orig.len(),
            off + 2 * cnt <= len,
            0 <= t <= 2 * cnt,
            fix@ == orig.subrange(off as int, off + t),
        decreases 2 * cnt - t,
    {
        fix.push(buffer[off + t]);
        proof {
            assert(fix@ =~= orig.subrange(off as int, off + t + 1));
        }
        t += 1;
    }

    let mut k: usize = 1;
    while k < cnt
        invariant
            len == buffer@.len(),
            8 <= len,
            fixups_valid(orig, bytes_per_sector as int),
            off == usa_offset(orig),
            cnt == usa_count(orig),
            1 <= k <= cnt,
            off + 2 * cnt <= len,
            len == orig.len(),
            fix@ == orig.subrange(off as int, off + 2 * cnt),
            buffer@ == apply_fix_upto(orig, bytes_per_sector as int, k as int),
        decreases cnt - k,
    {
        proof {
            assert(strip_pos(bytes_per_sector as int, k as int) >= 0);
            assert(strip_pos(bytes_per_sector as int, k as int) + 2 <= len);
        }
        let pos = k * bytes_per_sector;
        let lo = fix[2 * k];
        let hi = fix[2 * k + 1];
        buffer.set(pos - 2, lo);
        buffer.set(pos - 1, hi);
        k += 1;
    }
    true
}

/// The record begins with the ASCII magic `FILE`.
pub open spec fn has_file_magic(b: Seq<u8>) -> bool {
    &&& b.len() >= 4
    &&& b[0] == 0x46u8
    &&& b[1] == 0x49u8
    &&& b[2] == 0x4cu8
    &&& b[3] == 0x45u8
}

pub fn check_file_magic(b: &Vec<u8>) -> (r: bool)
    requires
        b@.len() >= 4,
    ensures
        r == has_file_magic(b@),
{
    b[0] == 0x46 && b[1] == 0x49 && b[2] == 0x4c && b[3] == 0x45
}

/// Bit 0 of the record flags word: the record is in use.
pub open spec fn record_in_use(b: Seq<u8>) -> bool {
    le16(b, 0x16) % 2 == 1
}

/// Offset of the first attribute within the record.
pub open spec fn first_attr_offset(b: Seq<u8>) -> int {
    le16(b, 0x14)
}

/// Bit 28 of the FILENAME attribute flags: the entry is a directory.
pub open spec fn dir_bit(f: int) -> bool {
    (f / 0x10000000) % 2 == 1
}

/// The unsigned 64-bit value `n` reinterpreted as a signed 64-bit count.
pub open spec fn wrap_i64(n: int) -> int {
    if n < 0x8000000000000000 {
        n
    } else {
        n - 0x10000000000000000
    }
}

/// UTF-16 decoding: pairs surrogates, and yields nothing on an unpaired
/// surrogate, as `String::from_utf16` does.
pub open spec fn utf16_decode_opt(u: Seq<u16>) -> Option<Seq<char>>
    decreases u.len(),
{
    if u.len() == 0 {
        Some(Seq::<char>::empty())
    } else if 0xD800 <= u[0] < 0xDC00 {
        if u.len() >= 2 && 0xDC00 <= u[1] < 0xE000 {
            let cp = 0x10000 + (u[0] - 0xD800) * 0x400 + (u[1] - 0xDC00);
            match utf16_decode_opt(u.skip(2)) {
                Some(rest) => Some(seq![cp as char] + rest),
                None => None,
            }
        } else {
            None
        }
    } else if 0xDC00 <= u[0] < 0xE000 {
        None
    } else {
        match utf16_decode_opt(u.skip(1)) {
            Some(rest) => Some(seq![u[0] as char] + rest),
            None => None,
        }
    }
}

/// Relies on `String::from_utf16`: decodes UTF-16 code units, failing on
/// any unpaired surrogate; the result depends on the code units alone.
#[verifier::external_body]
fn utf16_to_string(units: &Vec<u16>) -> (r: Option<String>)
    ensures
        (r is Some) == (utf16_decode_opt(units@) is Some),
        r is Some ==> r.unwrap()@ == utf16_decode_opt(units@).unwrap(),
{
    match String::from_utf16(units.as_slice()) {
        Ok(s) => Some(s),
        Err(_) => None,
    }
}

/// What the attribute walk has gathered so far.
pub ghost struct AttrState {
    pub filename: Option<Seq<char>>,
    pub file_size: Option<int>,
    pub is_dir: bool,
}

/// The 16-bit little-endian code units starting at `start`.
pub open spec fn name_units(b: Seq<u8>, start: int, n: int) -> Seq<u16> {
    Seq::new(n as nat, |j: int| le16(b, start + 2 * j) as u16)
}

/// The effect of one resident FILENAME attribute at `pos` on the walk
/// state. Reads whose fields would fall outside the record leave the
/// corresponding piece of state unchanged.
pub open spec fn filename_attr_state(b: Seq<u8>, pos: int, st: AttrState) -> AttrState {
    if b[pos + 8] != 0 {
        st
    } else {
        let c = pos + le16(b, pos + 20);
        AttrState {
            is_dir: if c + 52 <= b.len() {
                dir_bit(le32(b, c + 48))
            } else {
                st.is_dir
            },
            file_size: if c + 64 <= b.len() {
                Some(wrap_i64(le64(b, c + 56)))
            } else {
                st.file_size
            },
            filename: if c + 66 <= b.len() && c + 66 + 2 * b[c + 64] <= b.len() {
                match utf16_decode_opt(name_units(b, c + 66, b[c + 64] as int)) {
                    Some(nm) => Some(nm),
                    None => st.filename,
                }
            } else {
                st.filename
            },
        }
    }
}

/// The attribute walk from `pos`: stops at the end-of-attributes marker,
/// a zero-length attribute, or the record's tail; decodes the first
/// resident FILENAME attribute it can.
pub open spec fn walk_attrs(b: Seq<u8>, pos: int, st: AttrState) -> AttrState
    decreases b.len() - pos,
{
    if !(0 <= pos && pos + 8 < b.len()) {
        st
    } else if le32(b, pos) == 0xFFFFFFFF {
        st
    } else if le32(b, pos + 4) == 0 {
        st
    } else {
        let st2 = if le32(b, pos) == 0x30 && st.filename is None && pos + 22 <= b.len() {
            filename_attr_state(b, pos, st)
        } else {
            st
        };
        let next = pos + le32(b, pos + 4);
        if next + 8 < b.len() {
            walk_attrs(b, next, st2)
        } else {
            st2
        }
    }
}

/// The end-of-attributes marker stops the walk where it stands: nothing
/// past it is read.
pub proof fn lemma_end_marker_stops_walk(b: Seq<u8>, pos: int, st: AttrState)
    requires
        crate::bytes::le32(b, pos) == 0xFFFFFFFF,
    ensures
        walk_attrs(b, pos, st) == st,
{
}

/// What one fixed-up record yields.
pub open spec fn parse_record_spec(b: Seq<u8>) -> AttrState {
    walk_attrs(
        b,
        first_attr_offset(b),
        AttrState { filename: None, file_size: None, is_dir: false },
    )
}

/// The decoded fields of one MFT record.
pub struct ParsedRecord {
    pub in_use: bool,
    pub filename: Option<String>,
    pub file_size: Option<i64>,
    pub is_dir: bool,
}

/// Decode the in-use flag and the first resident FILENAME attribute of a
/// fixed-up MFT record.
pub fn parse_record(b: &Vec<u8>) -> (r: ParsedRecord)
    requires
        b@.len() == MFT_RECORD_SIZE,
    ensures
        r.in_use == record_in_use(b@),
        crate::types::opt_string_view(r.filename) == parse_record_spec(b@).filename,
        crate::types::opt_i64_view(r.file_size) == parse_record_spec(b@).file_size,
        r.is_dir == parse_record_spec(b@).is_dir,
{
    let len = b.len();
    let flags = read_u16_le(b, 0x16);
    let in_use = flags % 2 == 1;

    let mut pos: usize = read_u16_le(b, 0x14) as usize;
    let mut filename: Option<String> = None;
    let mut file_size: Option<i64> = None;
    let mut is_dir: bool = false;
    let mut done: bool = false;

    let ghost target = parse_record_spec(b@);
    proof {
        assert(target == walk_attrs(
            b@,
            pos as int,
            AttrState { filename: None, file_size: None, is_dir: false },
        ));
    }

    while !done && pos < len - 8
        invariant
            len == b@.len(),
            len == MFT_RECORD_SIZE,
            !done ==> target == walk_attrs(
                b@,
                pos as int,
                AttrState {
                    filename: crate::types::opt_string_view(filename),
                    file_size: crate::types::opt_i64_view(file_size),
                    is_dir: is_dir,
                },
            ),
            done ==> target == (AttrState {
                filename: crate::types::opt_string_view(filename),
                file_size: crate::types::opt_i64_view(file_size),
                is_dir: is_dir,
            }),
        decreases (if done { 0int } else { 1int }), (if pos <= len { len - pos } else { 0int }),
    {
        let t = read_u32_le(b, pos);
        if t == 0xFFFFFFFF {
            done = true;
        } else {
            let alen = read_u32_le(b, pos + 4);
            if alen == 0 {
                done = true;
            } else {
                if t == 0x30 && filename.is_none() && pos + 22 <= len {
                    let nonres = b[pos + 8];
                    if nonres == 0 {
                        let coff = read_u16_le(b, pos + 20) as usize;
                        let c = pos + coff;
                        if c + 52 <= len {
                            let f = read_u32_le(b, c + 48);
                            is_dir = (f / 0x10000000) % 2 == 1;
                        }
                        if c + 64 <= len {
                            let s = read_u64_le(b, c + 56);
                            let signed: i64 = if s <= 0x7FFFFFFFFFFFFFFF {
                                s as i64
                            } else {
                                i64::MIN + ((s - 0x8000000000000000) as i64)
                            };
                            proof {
                                assert(signed as int == wrap_i64(s as int));
                            }
                            file_size = Some(signed);
                        }
                        if c + 66 <= len {
                            let nl = b[c + 64] as usize;
                            if c + 66 + 2 * nl <= len {
                                let mut units: Vec<u16> = Vec::new();
                                let mut j: usize = 0;
                                while j < nl
                                    invariant
                                        len == b@.len(),
                                        c + 66 + 2 * nl <= len,
                                        0 <= j <= nl,
                                        units@ == name_units(b@, c + 66, nl as int).take(j as int),
                                    decreases nl - j,
                                {
                                    let w = read_u16_le(b, c + 66 + 2 * j);
                                    units.push(w);
                                    proof {
                                        assert(units@ =~= name_units(b@, c + 66, nl as int).take(
                                            j + 1,
                                        ));
                                    }
                                    j += 1;
                                }
                                proof {
                                    assert(units@ =~= name_units(b@, c + 66 as int, nl as int));
                                }
                                match utf16_to_string(&units) {
                                    Some(nm) => {
                                        filename = Some(nm);
                                    },
                                    None => {},
                                }
                            }
                        }
                    }
                }
                match pos.checked_add(alen as usize) {
                    Some(next) => {
                        pos = next;
                    },
                    None => {
                        done = true;
                    },
                }
            }
        }
    }

    ParsedRecord { in_use, filename, file_size, is_dir }
}

/// The fields of the NTFS boot sector the scan needs, with the derived
/// byte offsets.
pub struct BootGeometry {
    pub bytes_per_sector: u64,
    pub sectors_per_cluster: u64,
    pub mft_cluster: u64,
    pub cluster_size: u64,
    pub mft_offset: u64,
}

pub open spec fn boot_bps(b: Seq<u8>) -> int {
    le16(b, 0x0B)
}

pub open spec fn boot_spc(b: Seq<u8>) -> int {
    b[0x0D] as int
}

pub open spec fn boot_mft_lcn(b: Seq<u8>) -> int {
    le64(b, 0x30)
}

pub open spec fn boot_cluster_size(b: Seq<u8>) -> int {
    boot_bps(b) * boot_spc(b)
}

/// Decode the boot-sector geometry. Yields nothing only when the MFT
/// byte offset would not fit in 64 bits.
pub fn parse_boot_sector(b: &Vec<u8>) -> (r: Option<BootGeometry>)
    requires
        b@.len() >= 512,
    ensures
        (r is Some) == (boot_mft_lcn(b@) * boot_cluster_size(b@) <= u64::MAX),
        r is Some ==> {
            let g = r.unwrap();
            &&& g.bytes_per_sector == boot_bps(b@)
            &&& g.sectors_per_cluster == boot_spc(b@)
            &&& g.mft_cluster == boot_mft_lcn(b@)
            &&& g.cluster_size == boot_cluster_size(b@)
            &&& g.mft_offset == boot_mft_lcn(b@) * boot_cluster_size(b@)
        },
{
    let bps = read_u16_le(b, 0x0B) as u64;
    let spc = b[0x0D] as u64;
    let lcn = read_u64_le(b, 0x30);
    proof {
        assert(bps * spc <= 0xFFFF * 0xFF) by (nonlinear_arith)
            requires
                bps <= 0xFFFF,
                spc <= 0xFF,
        ;
    }
    let cluster = bps * spc;
    match lcn.checked_mul(cluster) {
        Some(off) => Some(
            BootGeometry {
                bytes_per_sector: bps,
                sectors_per_cluster: spc,
                mft_cluster: lcn,
                cluster_size: cluster,
                mft_offset: off,
            },
        ),
        None => None,
    }
}

} // verus!
