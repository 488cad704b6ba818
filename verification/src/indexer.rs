//! Producing records for the store: extension extraction, record
//! construction for both the walker and the MFT scan, exclusion rules,
//! batch flushing with item-by-item fallback, the MFT volume scan, and
//! the default indexing roots.

use vstd::prelude::*;

use crate::mft::MFT_RECORD_SIZE;
use crate::mft::apply_fix_spec;
use crate::mft::apply_fixups;
use crate::mft::boot_bps;
use crate::mft::boot_cluster_size;
use crate::mft::boot_mft_lcn;
use crate::mft::check_file_magic;
use crate::mft::fixups_valid;
use crate::mft::has_file_magic;
use crate::mft::parse_boot_sector;
use crate::mft::parse_record;
use crate::mft::parse_record_spec;
use crate::mft::record_in_use;
use crate::mft::wrap_i64;
use crate::sector::ByteSource;
use crate::sector::SectorReader;
use crate::store::Database;
use crate::store::batch_apply;
use crate::store::recs_of;
use crate::strings::contains_seq;
use crate::strings::is_prefix_of;
use crate::strings::str_contains;
use crate::strings::str_starts_with;
use crate::types::FileRecord;
use crate::types::IndexingProgress;
use crate::types::Rec;
use crate::types::rec_valid;

verus! {

/// Relies on `chrono::Utc::now().to_rfc3339()`: the current moment as an
/// RFC 3339 timestamp. Nothing is promised of the clock but that the
/// formatted string is nonempty.
#[verifier::external_body]
pub(crate) fn now_rfc3339() -> (r: String)
    ensures
        r@.len() > 0,
{
    chrono::Utc::now().to_rfc3339()
}

/// The index of the last `.` in the name, if any.
pub open spec fn last_dot(f: Seq<char>) -> Option<int>
    decreases f.len(),
{
    if f.len() == 0 {
        None
    } else if f[f.len() - 1] == '.' {
        Some(f.len() - 1)
    } else {
        last_dot(f.drop_last())
    }
}

proof fn lemma_last_dot(f: Seq<char>)
    ensures
        match last_dot(f) {
            Some(i) => 0 <= i < f.len() && f[i] == '.' && forall|j: int|
                i < j < f.len() ==> f[j] != '.',
            None => forall|j: int| 0 <= j < f.len() ==> f[j] != '.',
        },
    decreases f.len(),
{
    if f.len() > 0 && f[f.len() - 1] != '.' {
        lemma_last_dot(f.drop_last());
        assert(forall|j: int| 0 <= j < f.len() - 1 ==> f[j] == f.drop_last()[j]);
    }
}

/// The extension the MFT path stores: the substring from the last `.`
/// on, the dot included; none without a dot.
pub open spec fn mft_ext_spec(f: Seq<char>) -> Option<Seq<char>> {
    match last_dot(f) {
        Some(i) => Some(f.subrange(i, f.len() as int)),
        None => None,
    }
}

/// The extension the walker stores: a dot and the part after the last
/// `.`; none without a dot, and none when the only dot leads the name.
pub open spec fn walker_ext_spec(f: Seq<char>) -> Option<Seq<char>> {
    match last_dot(f) {
        Some(i) => if i > 0 {
            Some(seq!['.'] + f.subrange(i + 1, f.len() as int))
        } else {
            None
        },
        None => None,
    }
}

/// The position of the last `.` in the name, if any.
pub fn find_last_dot(name: &str) -> (r: Option<usize>)
    ensures
        match r {
            Some(i) => last_dot(name@) == Some(i as int),
            None => last_dot(name@) is None,
        },
{
    let n = name.unicode_len();
    let mut i: usize = n;
    while i > 0
        invariant
            n == name@.len(),
            0 <= i <= n,
            forall|j: int| i <= j < n ==> name@[j] != '.',
        decreases i,
    {
        let c = name.get_char(i - 1);
        if c == '.' {
            proof {
                lemma_last_dot(name@);
                assert(name@[i - 1] == '.');
                if last_dot(name@) is None {
                    assert(false);
                }
                let w = last_dot(name@).unwrap();
                assert(w == i - 1);
            }
            return Some(i - 1);
        }
        i -= 1;
    }
    proof {
        lemma_last_dot(name@);
        if last_dot(name@) is Some {
            let w = last_dot(name@).unwrap();
            assert(name@[w] != '.');
        }
    }
    None
}

/// The MFT extension of a name, ready to store.
pub fn mft_extension_of(name: &str) -> (r: Option<String>)
    ensures
        match r {
            Some(s) => mft_ext_spec(name@) == Some(s@),
            None => mft_ext_spec(name@) is None,
        },
{
    match find_last_dot(name) {
        Some(i) => {
            let n = name.unicode_len();
            proof {
                lemma_last_dot(name@);
            }
            let part = name.substring_char(i, n);
            Some(part.to_owned())
        },
        None => None,
    }
}

/// The walker extension of a name, ready to store.
pub fn walker_extension_of(name: &str) -> (r: Option<String>)
    ensures
        match r {
            Some(s) => walker_ext_spec(name@) == Some(s@),
            None => walker_ext_spec(name@) is None,
        },
{
    match find_last_dot(name) {
        Some(i) => {
            if i == 0 {
                return None;
            }
            let n = name.unicode_len();
            proof {
                lemma_last_dot(name@);
            }
            let part = name.substring_char(i + 1, n);
            let mut s = String::from_str(".");
            s.append(part);
            proof {
                reveal_strlit(".");
                assert(s@ =~= seq!['.'] + name@.subrange(i + 1, name@.len() as int));
            }
            Some(s)
        },
        None => None,
    }
}

/// A directory entry as the walker persists it: no extension, no size.
pub fn build_dir_record(path: &str, name: &str) -> (r: FileRecord)
    requires
        name@.len() > 0,
    ensures
        r@.path == path@,
        r@.name == name@,
        r@.is_dir,
        r@.extension is None,
        r@.file_size is None,
        rec_valid(r@),
{
    let modified = now_rfc3339();
    let indexed = now_rfc3339();
    FileRecord {
        path: path.to_owned(),
        name: name.to_owned(),
        extension: None,
        file_size: None,
        is_dir: true,
        modified_time: modified,
        last_indexed: indexed,
    }
}

fn size_to_i64(s: u64) -> (r: i64)
    ensures
        r == wrap_i64(s as int),
{
    if s <= 0x7FFFFFFFFFFFFFFF {
        s as i64
    } else {
        i64::MIN + ((s - 0x8000000000000000) as i64)
    }
}

/// A file entry as the walker persists it: the extension taken from the
/// name, the size from the metadata, the modification time as the caller
/// read it.
pub fn build_file_record(path: &str, name: &str, size: u64, modified_time: String) -> (r:
    FileRecord)
    requires
        name@.len() > 0,
    ensures
        r@.path == path@,
        r@.name == name@,
        !r@.is_dir,
        r@.extension == walker_ext_spec(name@),
        r@.file_size == Some(wrap_i64(size as int)),
        r@.modified_time == modified_time@,
        rec_valid(r@),
{
    let indexed = now_rfc3339();
    FileRecord {
        path: path.to_owned(),
        name: name.to_owned(),
        extension: walker_extension_of(name),
        file_size: Some(size_to_i64(size)),
        is_dir: false,
        modified_time,
        last_indexed: indexed,
    }
}

/// An entry is pruned when its full path contains any exclusion pattern
/// as a substring.
pub fn should_exclude(path: &str, patterns: &Vec<String>) -> (r: bool)
    ensures
        r == exists|i: int|
            0 <= i < patterns@.len() && contains_seq(path@, #[trigger] patterns@[i]@),
{
    let mut i: usize = 0;
    while i < patterns.len()
        invariant
            0 <= i <= patterns@.len(),
            forall|j: int| 0 <= j < i ==> !contains_seq(path@, #[trigger] patterns@[j]@),
        decreases patterns@.len() - i,
    {
        if str_contains(path, patterns[i].as_str()) {
            return true;
        }
        i += 1;
    }
    false
}

/// The path names a whole drive: a letter, a colon and a backslash.
pub open spec fn is_drive_root(p: Seq<char>) -> bool {
    &&& p.len() == 3
    &&& (('A' <= p[0] && p[0] <= 'Z') || ('a' <= p[0] && p[0] <= 'z'))
    &&& p[1] == ':'
    &&& p[2] == '\\'
}

/// Whether a root path has the shape of a whole drive, the precondition
/// of the MFT fast path. Opening the raw device is the caller's test.
pub fn is_windows_drive(path: &str) -> (r: bool)
    ensures
        r == is_drive_root(path@),
{
    if path.unicode_len() != 3 {
        return false;
    }
    let c0 = path.get_char(0);
    let c1 = path.get_char(1);
    let c2 = path.get_char(2);
    (((c0 as u32) >= ('A' as u32) && (c0 as u32) <= ('Z' as u32)) || ((c0 as u32) >= ('a' as u32)
        && (c0 as u32) <= ('z' as u32))) && c1 == ':' && c2 == '\\'
}

/// One progress event, as emitted after each record.
pub fn progress_event(current_path: &str, files_processed: usize) -> (r: IndexingProgress)
    ensures
        r.current_path@ == current_path@,
        r.files_processed == files_processed,
        r.total_files is None,
        r.status@ == "indexing"@,
{
    IndexingProgress {
        current_path: current_path.to_owned(),
        files_processed,
        total_files: None,
        status: String::from_str("indexing"),
    }
}

/// The batch applied under a mask: the records whose mask bit is set
/// land, the others are skipped.
pub open spec fn masked_apply(
    m: Map<Seq<char>, Rec>,
    rs: Seq<Rec>,
    ok: Seq<bool>,
) -> Map<Seq<char>, Rec>
    decreases rs.len(),
{
    if rs.len() == 0 {
        m
    } else {
        masked_apply(
            if ok[0] {
                m.insert(rs[0].path, rs[0])
            } else {
                m
            },
            rs.drop_first(),
            ok.drop_first(),
        )
    }
}

/// How many mask bits are set.
pub open spec fn count_true(ok: Seq<bool>) -> int
    decreases ok.len(),
{
    if ok.len() == 0 {
        0
    } else {
        (if ok[0] {
            1int
        } else {
            0int
        }) + count_true(ok.drop_first())
    }
}

proof fn lemma_masked_apply_push(
    m: Map<Seq<char>, Rec>,
    rs: Seq<Rec>,
    ok: Seq<bool>,
    r: Rec,
    b: bool,
)
    requires
        rs.len() == ok.len(),
    ensures
        b ==> masked_apply(m, rs.push(r), ok.push(b)) == masked_apply(m, rs, ok).insert(r.path, r),
        !b ==> masked_apply(m, rs.push(r), ok.push(b)) == masked_apply(m, rs, ok),
    decreases rs.len(),
{
    if rs.len() == 0 {
        let m2 = if b {
            m.insert(r.path, r)
        } else {
            m
        };
        assert(rs.push(r)[0] == r);
        assert(ok.push(b)[0] == b);
        assert(rs.push(r).drop_first() =~= Seq::<Rec>::empty());
        assert(ok.push(b).drop_first() =~= Seq::<bool>::empty());
        assert(masked_apply(m, rs.push(r), ok.push(b)) == masked_apply(
            m2,
            rs.push(r).drop_first(),
            ok.push(b).drop_first(),
        ));
        assert(masked_apply(m2, Seq::<Rec>::empty(), Seq::<bool>::empty()) == m2);
        assert(masked_apply(m, rs, ok) == m);
    } else {
        let m1 = if ok[0] {
            m.insert(rs[0].path, rs[0])
        } else {
            m
        };
        assert(rs.push(r)[0] == rs[0]);
        assert(ok.push(b)[0] == ok[0]);
        assert(rs.push(r).drop_first() =~= rs.drop_first().push(r));
        assert(ok.push(b).drop_first() =~= ok.drop_first().push(b));
        assert(masked_apply(m, rs.push(r), ok.push(b)) == masked_apply(
            m1,
            rs.drop_first().push(r),
            ok.drop_first().push(b),
        ));
        assert(masked_apply(m, rs, ok) == masked_apply(m1, rs.drop_first(), ok.drop_first()));
        lemma_masked_apply_push(m1, rs.drop_first(), ok.drop_first(), r, b);
    }
}

proof fn lemma_count_true_push(ok: Seq<bool>, b: bool)
    ensures
        b ==> count_true(ok.push(b)) == count_true(ok) + 1,
        !b ==> count_true(ok.push(b)) == count_true(ok),
    decreases ok.len(),
{
    if ok.len() == 0 {
        assert(ok.push(b)[0] == b);
        assert(ok.push(b).len() == 1);
        assert(ok.push(b).drop_first() =~= Seq::<bool>::empty());
        assert(count_true(Seq::<bool>::empty()) == 0);
        assert(count_true(ok.push(b)) == (if b {
            1int
        } else {
            0int
        }) + count_true(ok.push(b).drop_first()));
        assert(count_true(ok) == 0);
    } else {
        assert(ok.push(b)[0] == ok[0]);
        assert(ok.push(b).drop_first() =~= ok.drop_first().push(b));
        lemma_count_true_push(ok.drop_first(), b);
    }
}

proof fn lemma_count_true_bound(ok: Seq<bool>)
    ensures
        0 <= count_true(ok) <= ok.len(),
    decreases ok.len(),
{
    if ok.len() > 0 {
        lemma_count_true_bound(ok.drop_first());
    }
}

/// Flush a batch into the store: one transaction when it goes through,
/// else each record on its own, counting what landed. The batch is
/// emptied either way, and a partial failure is never fatal.
pub fn flush_batch(store: &mut Database, batch: &mut Vec<FileRecord>) -> (n: usize)
    requires
        old(store).wf(),
        forall|i: int| 0 <= i < old(batch)@.len() ==> rec_valid(#[trigger] old(batch)@[i]@),
    ensures
        final(store).wf(),
        final(batch)@.len() == 0,
        old(store).all_valid() ==> final(store).all_valid(),
        n <= old(batch)@.len(),
        (n == old(batch)@.len() && final(store).rows() == batch_apply(
            old(store).rows(),
            recs_of(old(batch)@),
        )) || exists|ok: Seq<bool>|
            ok.len() == old(batch)@.len() && final(store).rows() == masked_apply(
                old(store).rows(),
                recs_of(old(batch)@),
                ok,
            ) && n == count_true(ok),
{
    if batch.len() == 0 {
        proof {
            assert(batch_apply(
                old(store).rows(),
                recs_of(old(batch)@),
            ) =~= old(store).rows());
        }
        return 0;
    }
    let len = batch.len();
    match store.upsert_batch(batch) {
        Ok(()) => {
            batch.clear();
            len
        },
        Err(_) => {
            let ghost rows0 = store.rows();
            let ghost recs = recs_of(batch@);
            let mut ok_count: usize = 0;
            let mut i: usize = 0;
            let ghost mut mask: Seq<bool> = Seq::empty();
            while i < len
                invariant
                    store.wf(),
                    old(store).all_valid() ==> store.all_valid(),
                    rows0 == old(store).rows(),
                    batch@ == old(batch)@,
                    recs == recs_of(batch@),
                    len == batch@.len(),
                    forall|k: int| 0 <= k < batch@.len() ==> rec_valid(#[trigger] batch@[k]@),
                    0 <= i <= len,
                    mask.len() == i,
                    store.rows() == masked_apply(rows0, recs.take(i as int), mask),
                    ok_count == count_true(mask),
                    ok_count <= i,
                decreases len - i,
            {
                let record = &batch[i];
                let landed = match store.upsert_file(record) {
                    Ok(()) => true,
                    Err(_) => false,
                };
                proof {
                    lemma_masked_apply_push(rows0, recs.take(i as int), mask, record@, landed);
                    lemma_count_true_push(mask, landed);
                    assert(recs.take(i as int).push(record@) =~= recs.take(i + 1));
                    mask = mask.push(landed);
                }
                if landed {
                    ok_count += 1;
                }
                i += 1;
            }
            proof {
                assert(recs.take(len as int) =~= recs);
                lemma_count_true_bound(mask);
            }
            batch.clear();
            ok_count
        },
    }
}

/// The exclusion patterns used when the caller supplies none.
pub fn get_default_exclude_patterns() -> (r: Vec<String>)
    ensures
        r@.len() == 7,
        r@[0]@ == ".git"@,
        r@[1]@ == "node_modules"@,
        r@[2]@ == "target"@,
        r@[3]@ == ".DS_Store"@,
        r@[4]@ == "__pycache__"@,
        r@[5]@ == ".venv"@,
        r@[6]@ == "venv"@,
{
    let mut v: Vec<String> = Vec::new();
    v.push(String::from_str(".git"));
    v.push(String::from_str("node_modules"));
    v.push(String::from_str("target"));
    v.push(String::from_str(".DS_Store"));
    v.push(String::from_str("__pycache__"));
    v.push(String::from_str(".venv"));
    v.push(String::from_str("venv"));
    v
}


/// A mount point worth indexing: not the root itself, none of the
/// volatile or system trees, and nothing under a snap mount.
pub open spec fn mount_included(m: Seq<char>) -> bool {
    &&& m != "/"@
    &&& !is_prefix_of("/boot"@, m)
    &&& !is_prefix_of("/dev"@, m)
    &&& !is_prefix_of("/proc"@, m)
    &&& !is_prefix_of("/sys"@, m)
    &&& !is_prefix_of("/run"@, m)
    &&& !is_prefix_of("/tmp"@, m)
    &&& !contains_seq(m, "/snap"@)
    &&& !is_prefix_of("/var/lib"@, m)
}

/// Whether a mount point belongs among the default indexing roots.
pub fn mount_point_included(m: &str) -> (r: bool)
    ensures
        r == mount_included(m@),
{
    if str_starts_with(m, "/boot") || str_starts_with(m, "/dev") || str_starts_with(m, "/proc")
        || str_starts_with(m, "/sys") || str_starts_with(m, "/run") || str_starts_with(m, "/tmp")
        || str_starts_with(m, "/var/lib") {
        return false;
    }
    if str_contains(m, "/snap") {
        return false;
    }
    let is_root = m.unicode_len() == 1 && m.get_char(0) == '/';
    proof {
        reveal_strlit("/");
        if is_root {
            assert(m@ =~= "/"@);
        } else {
            if m@ == "/"@ {
                assert(m@.len() == 1 && m@[0] == '/');
            }
        }
    }
    !is_root
}

/// The sequence of paths carries this one.
pub open spec fn has_path(paths: Seq<String>, s: Seq<char>) -> bool {
    exists|i: int| 0 <= i < paths.len() && paths[i]@ == s
}

/// The path is one of the candidate mount points and worth indexing.
pub open spec fn from_mounts(mounts: Seq<String>, s: Seq<char>) -> bool {
    exists|k: int| 0 <= k < mounts.len() && #[trigger] mounts[k]@ == s && mount_included(s)
}

/// The default indexing roots from a home directory and the candidate
/// mount points the caller found: the home first, then each included
/// mount once.
pub fn collect_default_paths(home: Option<String>, mounts: &Vec<String>) -> (r: Vec<String>)
    ensures
        forall|i: int, j: int| #![trigger r@[i], r@[j]] 0 <= i < j < r@.len() ==> r@[i]@ != r@[j]@,
        home matches Some(h) ==> r@.len() > 0 && r@[0]@ == h@,
        forall|i: int|
            0 <= i < r@.len() ==> (home matches Some(h) && #[trigger] r@[i]@ == h@) || from_mounts(
                mounts@,
                r@[i]@,
            ),
        forall|k: int|
            0 <= k < mounts@.len() && mount_included(#[trigger] mounts@[k]@) ==> has_path(
                r@,
                mounts@[k]@,
            ),
{
    let mut paths: Vec<String> = Vec::new();
    match home {
        Some(h) => {
            paths.push(h);
        },
        None => {},
    }
    let mut j: usize = 0;
    while j < mounts.len()
        invariant
            0 <= j <= mounts@.len(),
            forall|a: int, b: int|
                #![trigger paths@[a], paths@[b]]
                0 <= a < b < paths@.len() ==> paths@[a]@ != paths@[b]@,
            home matches Some(h) ==> paths@.len() > 0 && paths@[0]@ == h@,
            forall|i: int|
                0 <= i < paths@.len() ==> (home matches Some(h) && #[trigger] paths@[i]@ == h@)
                    || from_mounts(mounts@, paths@[i]@),
            forall|k: int|
                0 <= k < j && mount_included(#[trigger] mounts@[k]@) ==> has_path(
                    paths@,
                    mounts@[k]@,
                ),
        decreases mounts@.len() - j,
    {
        let m = &mounts[j];
        if mount_point_included(m.as_str()) {
            let mut seen = false;
            let mut i: usize = 0;
            while i < paths.len()
                invariant
                    0 <= i <= paths@.len(),
                    seen == exists|a: int| 0 <= a < i && #[trigger] paths@[a]@ == m@,
                decreases paths@.len() - i,
            {
                if paths[i].eq(m) {
                    seen = true;
                }
                i += 1;
            }
            if !seen {
                let ghost before = paths@;
                paths.push(m.clone());
                proof {
                    assert(forall|a: int|
                        0 <= a < before.len() ==> #[trigger] paths@[a] == before[a]);
                    assert(paths@[before.len() as int]@ == mounts@[j as int]@);
                    assert(from_mounts(mounts@, paths@[before.len() as int]@)) by {
                        assert(mounts@[j as int]@ == paths@[before.len() as int]@);
                    }
                    assert forall|k: int|
                        0 <= k < j + 1 && mount_included(#[trigger] mounts@[k]@) implies has_path(
                        paths@,
                        mounts@[k]@,
                    ) by {
                        if k < j {
                            let w = choose|w: int|
                                0 <= w < before.len() && before[w]@ == mounts@[k]@;
                            assert(paths@[w]@ == mounts@[k]@);
                        } else {
                            assert(paths@[before.len() as int]@ == mounts@[k]@);
                        }
                    }
                }
            } else {
                proof {
                    assert forall|k: int|
                        0 <= k < j + 1 && mount_included(#[trigger] mounts@[k]@) implies has_path(
                        paths@,
                        mounts@[k]@,
                    ) by {
                        if k == j {
                            let a = choose|a: int|
                                0 <= a < paths@.len() && #[trigger] paths@[a]@ == m@;
                            assert(paths@[a]@ == mounts@[k]@);
                        }
                    }
                }
            }
        }
        j += 1;
    }
    paths
}

/// Why an MFT scan could not start: the volume is too short for a boot
/// sector, or its geometry does not fit a 64-bit byte offset.
#[derive(Debug)]
pub enum ScanError {
    BootSector,
    Geometry,
}

/// One fixed-size record at `pos` yields an entry: it carries the
/// `FILE` magic, its fixups hold, and after the fixups it is in use
/// with a nonempty decoded name.
pub open spec fn record_emits(d: Seq<u8>, pos: int, bps: int) -> bool {
    let rb = d.subrange(pos, pos + 1024);
    &&& has_file_magic(rb)
    &&& fixups_valid(rb, bps)
    &&& record_in_use(apply_fix_spec(rb, bps))
    &&& parse_record_spec(apply_fix_spec(rb, bps)).filename is Some
    &&& parse_record_spec(apply_fix_spec(rb, bps)).filename.unwrap().len() > 0
}

/// What one emitted record carries, straight from the decoded attribute.
pub ghost struct MftEmission {
    pub name: Seq<char>,
    pub is_dir: bool,
    pub file_size: Option<int>,
}

/// The decoded fields of the record at `pos`.
pub open spec fn emission_at(d: Seq<u8>, pos: int, bps: int) -> MftEmission {
    let st = parse_record_spec(apply_fix_spec(d.subrange(pos, pos + 1024), bps));
    MftEmission { name: st.filename.unwrap(), is_dir: st.is_dir, file_size: st.file_size }
}

/// The entries the next `budget` whole records starting at `pos` yield,
/// in order; the scan stops at the first record the data cannot fill.
pub open spec fn scan_emissions(d: Seq<u8>, pos: int, budget: int, bps: int) -> Seq<MftEmission>
    decreases budget,
{
    if budget <= 0 || pos < 0 || pos + 1024 > d.len() {
        Seq::<MftEmission>::empty()
    } else if record_emits(d, pos, bps) {
        seq![emission_at(d, pos, bps)] + scan_emissions(d, pos + 1024, budget - 1, bps)
    } else {
        scan_emissions(d, pos + 1024, budget - 1, bps)
    }
}

/// The persisted record an emission becomes: the flat `{drive}:\{name}`
/// path, the extension cut from the name, size and extension cleared for
/// directories, and two nonempty scan-time timestamps.
pub open spec fn emission_to_rec(e: MftEmission, drive: Seq<char>, r: Rec) -> bool {
    &&& r.name == e.name
    &&& r.path == drive + seq![':', '\\'] + e.name
    &&& r.is_dir == e.is_dir
    &&& r.extension == (if e.is_dir {
        Option::<Seq<char>>::None
    } else {
        mft_ext_spec(e.name)
    })
    &&& r.file_size == (if e.is_dir {
        Option::<int>::None
    } else {
        e.file_size
    })
    &&& r.modified_time.len() > 0
    &&& r.last_indexed.len() > 0
}

/// A mask with every bit set.
pub open spec fn all_true(n: int) -> Seq<bool> {
    Seq::new(n as nat, |i: int| true)
}

/// Applying a whole batch is applying it under an all-set mask.
proof fn lemma_batch_is_masked(m: Map<Seq<char>, Rec>, rs: Seq<Rec>)
    ensures
        batch_apply(m, rs) == masked_apply(m, rs, all_true(rs.len() as int)),
    decreases rs.len(),
{
    if rs.len() > 0 {
        let ok = all_true(rs.len() as int);
        assert(ok[0]);
        assert(ok.drop_first() =~= all_true(rs.len() - 1));
        lemma_batch_is_masked(m.insert(rs[0].path, rs[0]), rs.drop_first());
        assert(masked_apply(m, rs, ok) == masked_apply(
            m.insert(rs[0].path, rs[0]),
            rs.drop_first(),
            ok.drop_first(),
        ));
    }
}

/// Masked application splits over concatenation of batches and masks.
proof fn lemma_masked_apply_concat(
    m: Map<Seq<char>, Rec>,
    rs1: Seq<Rec>,
    ok1: Seq<bool>,
    rs2: Seq<Rec>,
    ok2: Seq<bool>,
)
    requires
        rs1.len() == ok1.len(),
        rs2.len() == ok2.len(),
    ensures
        masked_apply(masked_apply(m, rs1, ok1), rs2, ok2) == masked_apply(m, rs1 + rs2, ok1 + ok2),
    decreases rs1.len(),
{
    if rs1.len() == 0 {
        assert(rs1 + rs2 =~= rs2);
        assert(ok1 + ok2 =~= ok2);
        assert(masked_apply(m, rs1, ok1) == m);
    } else {
        let m1 = if ok1[0] {
            m.insert(rs1[0].path, rs1[0])
        } else {
            m
        };
        assert((rs1 + rs2)[0] == rs1[0]);
        assert((ok1 + ok2)[0] == ok1[0]);
        assert((rs1 + rs2).drop_first() =~= rs1.drop_first() + rs2);
        assert((ok1 + ok2).drop_first() =~= ok1.drop_first() + ok2);
        assert(masked_apply(m, rs1 + rs2, ok1 + ok2) == masked_apply(
            m1,
            (rs1 + rs2).drop_first(),
            (ok1 + ok2).drop_first(),
        ));
        assert(masked_apply(m, rs1, ok1) == masked_apply(m1, rs1.drop_first(), ok1.drop_first()));
        lemma_masked_apply_concat(m1, rs1.drop_first(), ok1.drop_first(), rs2, ok2);
    }
}

/// Flush the batch and account for it against the running mask: the
/// store afterwards holds the emitted records applied under some mask
/// that extends the old one over the whole emitted sequence.
fn flush_accounted(
    store: &mut Database,
    batch: &mut Vec<FileRecord>,
    Ghost(rows0): Ghost<Map<Seq<char>, Rec>>,
    Ghost(recs): Ghost<Seq<Rec>>,
    Ghost(flushed): Ghost<int>,
    Ghost(mask): Ghost<Seq<bool>>,
) -> (out: Ghost<Seq<bool>>)
    requires
        old(store).wf(),
        forall|k: int| 0 <= k < old(batch)@.len() ==> rec_valid(#[trigger] old(batch)@[k]@),
        0 <= flushed <= recs.len(),
        mask.len() == flushed,
        recs_of(old(batch)@) == recs.skip(flushed),
        old(store).rows() == masked_apply(rows0, recs.take(flushed), mask),
    ensures
        final(store).wf(),
        old(store).all_valid() ==> final(store).all_valid(),
        final(batch)@.len() == 0,
        out@.len() == recs.len(),
        final(store).rows() == masked_apply(rows0, recs, out@),
{
    let ghost rows_pre = store.rows();
    let ghost chunk = recs_of(batch@);
    let ghost chunk_len = chunk.len() as int;
    let landed = flush_batch(store, batch);
    proof {
        assert(exists|ok2: Seq<bool>|
            ok2.len() == chunk.len() && store.rows() == masked_apply(
                rows_pre,
                chunk,
                ok2,
            )) by {
            if landed == chunk.len() && store.rows() == batch_apply(rows_pre, chunk) {
                lemma_batch_is_masked(rows_pre, chunk);
                assert(all_true(chunk_len).len() == chunk.len() && store.rows() == masked_apply(
                    rows_pre,
                    chunk,
                    all_true(chunk_len),
                ));
            }
        }
    }
    let ghost ok2: Seq<bool> = choose|ok2: Seq<bool>|
        ok2.len() == chunk.len() && store.rows() == masked_apply(rows_pre, chunk, ok2);
    proof {
        lemma_masked_apply_concat(rows0, recs.take(flushed), mask, chunk, ok2);
        assert(recs.take(flushed) + chunk =~= recs);
    }
    Ghost(mask + ok2)
}

/// Scan a volume's Master File Table: decode the boot-sector geometry,
/// seek to the MFT, walk fixed-size records up to the safety cap of one
/// million, and persist every in-use named record in batches. It
/// succeeds exactly on a volume that holds a boot sector whose MFT byte
/// offset fits 64 bits; the answer counts the records emitted, and the
/// store afterwards holds exactly those records — shaped per
/// `emission_to_rec` — applied in order under a mask, since each row's
/// persistence can still fail in the database.
pub fn index_mft_volume<S: ByteSource>(
    source: S,
    sector_size: usize,
    store: &mut Database,
    drive: &str,
) -> (r: Result<usize, ScanError>)
    requires
        sector_size > 0,
        old(store).wf(),
    ensures
        final(store).wf(),
        old(store).all_valid() ==> final(store).all_valid(),
        (r is Ok) == (source.data().len() >= 512 && boot_mft_lcn(source.data())
            * boot_cluster_size(source.data()) <= u64::MAX),
        r matches Err(e) ==> *final(store) == *old(store) && ((e is BootSector) <==> source.data().len() < 512),
        r matches Ok(n) ==> ({
            let d = source.data();
            let ems = scan_emissions(
                d,
                boot_mft_lcn(d) * boot_cluster_size(d),
                1000000,
                boot_bps(d),
            );
            &&& n == ems.len()
            &&& exists|rs: Seq<Rec>, ok: Seq<bool>|
                {
                    &&& rs.len() == ems.len()
                    &&& ok.len() == rs.len()
                    &&& (forall|j: int|
                        0 <= j < rs.len() ==> emission_to_rec(ems[j], drive@, #[trigger] rs[j]))
                    &&& final(store).rows() == masked_apply(old(store).rows(), rs, ok)
                }
        }),
{
    let ghost d = source.data();
    let ghost rows0 = store.rows();
    let mut reader = SectorReader::new(source, sector_size);
    let boot = match reader.read_exact(512) {
        Some(b) => b,
        None => {
            return Err(ScanError::BootSector);
        },
    };
    proof {
        assert(boot@ =~= d.subrange(0, 512));
        assert(boot_bps(boot@) == boot_bps(d));
        assert(boot_mft_lcn(boot@) == boot_mft_lcn(d));
        assert(boot@[0x0D] == d[0x0D]);
        assert(boot_cluster_size(boot@) == boot_cluster_size(d));
    }
    let geometry = match parse_boot_sector(&boot) {
        Some(g) => g,
        None => {
            return Err(ScanError::Geometry);
        },
    };
    let bps = geometry.bytes_per_sector as usize;
    reader.seek_to(geometry.mft_offset);
    let ghost mft_off = geometry.mft_offset as int;
    let ghost ems = scan_emissions(d, mft_off, 1000000, bps as int);

    let mut batch: Vec<FileRecord> = Vec::new();
    let mut files_found: usize = 0;
    let mut i: usize = 0;
    let mut done: bool = false;
    let ghost mut recs: Seq<Rec> = Seq::empty();
    let ghost mut mask: Seq<bool> = Seq::empty();
    let ghost mut flushed: int = 0;
    let ghost mut ems_done: Seq<MftEmission> = Seq::empty();
    while !done && i < 1000000
        invariant
            reader.wf(),
            reader.data() == d,
            reader.sec_size() == sector_size,
            sector_size > 0,
            store.wf(),
            rows0 == old(store).rows(),
            old(store).all_valid() ==> store.all_valid(),
            d.len() >= 512,
            0 <= mft_off <= u64::MAX,
            mft_off == boot_mft_lcn(d) * boot_cluster_size(d),
            bps as int == boot_bps(d),
            ems == scan_emissions(d, mft_off, 1000000, bps as int),
            0 <= i <= 1000000,
            files_found <= i,
            recs.len() == files_found,
            ems_done.len() == recs.len(),
            forall|j: int|
                0 <= j < recs.len() ==> emission_to_rec(ems_done[j], drive@, #[trigger] recs[j]),
            forall|j: int| 0 <= j < recs.len() ==> rec_valid(#[trigger] recs[j]),
            0 <= flushed <= recs.len(),
            mask.len() == flushed,
            recs_of(batch@) == recs.skip(flushed),
            forall|k: int| 0 <= k < batch@.len() ==> rec_valid(#[trigger] batch@[k]@),
            store.rows() == masked_apply(rows0, recs.take(flushed), mask),
            !done ==> reader.position() == mft_off + 1024 * i,
            !done ==> ems == ems_done + scan_emissions(
                d,
                mft_off + 1024 * i,
                1000000 - i,
                bps as int,
            ),
            done ==> ems == ems_done,
        decreases (if done {
            0int
        } else {
            1int
        }), 1000000 - i,
    {
        let ghost pos = reader.position();
        let mut buffer = match reader.read_exact(MFT_RECORD_SIZE) {
            Some(b) => b,
            None => {
                proof {
                    assert(scan_emissions(d, pos, 1000000 - i, bps as int)
                        =~= Seq::<MftEmission>::empty());
                    assert(ems =~= ems_done);
                }
                done = true;
                continue;
            },
        };
        let ghost rb = d.subrange(pos, pos + 1024);
        proof {
            assert(buffer@ =~= rb);
        }
        let mut emitted: bool = false;
        if check_file_magic(&buffer) {
            if apply_fixups(&mut buffer, bps) {
                let parsed = parse_record(&buffer);
                if parsed.in_use {
                    if let Some(name) = parsed.filename {
                        if !name.as_str().is_empty() {
                            proof {
                                assert(record_emits(d, pos, bps as int));
                            }
                            let mut path = drive.to_owned();
                            path.append(":\\");
                            path.append(name.as_str());
                            let extension = if parsed.is_dir {
                                None
                            } else {
                                mft_extension_of(name.as_str())
                            };
                            let file_size = if parsed.is_dir {
                                None
                            } else {
                                parsed.file_size
                            };
                            let record = FileRecord {
                                path,
                                name,
                                extension,
                                file_size,
                                is_dir: parsed.is_dir,
                                modified_time: now_rfc3339(),
                                last_indexed: now_rfc3339(),
                            };
                            let ghost before_batch = batch@;
                            let ghost rv = record@;
                            batch.push(record);
                            files_found += 1;
                            emitted = true;
                            proof {
                                reveal_strlit(":\\");
                                let e = emission_at(d, pos, bps as int);
                                assert(rv.path =~= drive@ + seq![':', '\\'] + e.name);
                                assert(emission_to_rec(e, drive@, rv));
                                let recs_old = recs;
                                recs = recs.push(rv);
                                ems_done = ems_done.push(e);
                                assert(recs.take(flushed) =~= recs_old.take(flushed));
                                assert(store.rows() == masked_apply(
                                    rows0,
                                    recs.take(flushed),
                                    mask,
                                ));
                                assert(recs_of(before_batch).len() == before_batch.len());
                                assert(before_batch.len() == recs_old.len() - flushed);
                                assert forall|k: int|
                                    0 <= k < batch@.len() implies #[trigger] recs_of(batch@)[k]
                                    == recs.skip(flushed)[k] by {
                                    if k < before_batch.len() {
                                        assert(batch@[k] == before_batch[k]);
                                        assert(recs_of(before_batch)[k] == recs_old.skip(
                                            flushed,
                                        )[k]);
                                        assert(recs_old.skip(flushed)[k] == recs_old[flushed + k]);
                                        assert(recs[flushed + k] == recs_old[flushed + k]);
                                        assert(recs.skip(flushed)[k] == recs[flushed + k]);
                                    } else {
                                        assert(batch@[k]@ == rv);
                                        assert(k == recs_old.len() - flushed);
                                        assert(recs[flushed + k] == rv);
                                        assert(recs.skip(flushed)[k] == rv);
                                    }
                                }
                                assert(recs_of(batch@).len() == recs.skip(flushed).len());
                                assert(recs_of(batch@) =~= recs.skip(flushed));
                            }
                        }
                    }
                }
            }
        }
        proof {
            let rest = scan_emissions(d, pos + 1024, 1000000 - i - 1, bps as int);
            if emitted {
                assert(scan_emissions(d, pos, 1000000 - i, bps as int) == seq![
                    emission_at(d, pos, bps as int),
                ] + rest);
                assert(ems_done.drop_last() + (seq![emission_at(d, pos, bps as int)] + rest)
                    =~= ems_done + rest);
            } else {
                assert(scan_emissions(d, pos, 1000000 - i, bps as int) == rest);
            }
        }
        if batch.len() >= 5000 {
            let Ghost(next_mask) = flush_accounted(
                store,
                &mut batch,
                Ghost(rows0),
                Ghost(recs),
                Ghost(flushed),
                Ghost(mask),
            );
            proof {
                mask = next_mask;
                flushed = recs.len() as int;
                assert(recs.take(flushed) =~= recs);
                assert(recs_of(batch@) =~= recs.skip(flushed));
            }
        }
        i += 1;
    }
    proof {
        if !done {
            assert(scan_emissions(d, mft_off + 1024 * 1000000, 0, bps as int)
                =~= Seq::<MftEmission>::empty());
            assert(ems =~= ems_done);
        }
    }
    let Ghost(full_mask) = flush_accounted(
        store,
        &mut batch,
        Ghost(rows0),
        Ghost(recs),
        Ghost(flushed),
        Ghost(mask),
    );
    proof {
        assert(recs.len() == ems.len() && full_mask.len() == recs.len() && (forall|j: int|
            0 <= j < recs.len() ==> emission_to_rec(ems[j], drive@, #[trigger] recs[j]))
            && store.rows() == masked_apply(old(store).rows(), recs, full_mask));
    }
    Ok(files_found)
}

} // verus!
