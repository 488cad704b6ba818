//! Query-time filtering, ordering and shaping: the store-side search and
//! the caller-facing facade.

use vstd::prelude::*;

use crate::store::Database;
use crate::store::StoreError;
use crate::strings::contains_seq;
use crate::strings::lemma_lex_total;
use crate::strings::lemma_lex_trans;
use crate::strings::lex_leq;
use crate::strings::str_contains;
use crate::strings::str_lex_leq;
use crate::types::FileRecord;
use crate::types::Rec;
use crate::types::SearchFilters;
use crate::types::SearchResult;
use crate::types::SearchResults;
use crate::types::opt_i64_view;

verus! {

/// The extension filter as a sequence of character sequences.
pub open spec fn exts_view(o: Option<Vec<String>>) -> Option<Seq<Seq<char>>> {
    match o {
        Some(v) => Some(Seq::new(v@.len(), |i: int| v@[i]@)),
        None => None,
    }
}

/// The record satisfies the query and every present filter: the name
/// contains the query, the extension is among those asked for, and the
/// size lies within the bounds. A record without a size fails any size
/// bound; an empty extension list admits everything.
pub open spec fn rec_matches(
    r: Rec,
    q: Seq<char>,
    exts: Option<Seq<Seq<char>>>,
    min: Option<int>,
    max: Option<int>,
) -> bool {
    &&& contains_seq(r.name, q)
    &&& match exts {
        Some(es) => es.len() == 0 || (r.extension is Some && es.contains(r.extension.unwrap())),
        None => true,
    }
    &&& match min {
        Some(m) => r.file_size is Some && r.file_size.unwrap() >= m,
        None => true,
    }
    &&& match max {
        Some(m) => r.file_size is Some && r.file_size.unwrap() <= m,
        None => true,
    }
}

/// Result order: directories first, then names ascending.
pub open spec fn rec_le(a: Rec, b: Rec) -> bool {
    if a.is_dir != b.is_dir {
        a.is_dir
    } else {
        lex_leq(a.name, b.name)
    }
}

pub proof fn lemma_rec_le_total(a: Rec, b: Rec)
    ensures
        rec_le(a, b) || rec_le(b, a),
{
    lemma_lex_total(a.name, b.name);
}

pub proof fn lemma_rec_le_trans(a: Rec, b: Rec, c: Rec)
    requires
        rec_le(a, b),
        rec_le(b, c),
    ensures
        rec_le(a, c),
{
    if a.is_dir == b.is_dir && b.is_dir == c.is_dir {
        lemma_lex_trans(a.name, b.name, c.name);
    }
}

fn rec_le_exec(a: &FileRecord, b: &FileRecord) -> (r: bool)
    ensures
        r == rec_le(a@, b@),
{
    if a.is_dir != b.is_dir {
        a.is_dir
    } else {
        str_lex_leq(a.name.as_str(), b.name.as_str())
    }
}

fn matches_rec(
    r: &FileRecord,
    query: &str,
    extensions: &Option<Vec<String>>,
    min_size: Option<i64>,
    max_size: Option<i64>,
) -> (b: bool)
    ensures
        b == rec_matches(
            r@,
            query@,
            exts_view(*extensions),
            opt_i64_view(min_size),
            opt_i64_view(max_size),
        ),
{
    if !str_contains(r.name.as_str(), query) {
        return false;
    }
    match extensions {
        Some(es) => {
            if es.len() > 0 {
                match &r.extension {
                    Some(ext) => {
                        let mut found = false;
                        let mut i: usize = 0;
                        while i < es.len()
                            invariant
                                0 <= i <= es@.len(),
                                found == exists|j: int| 0 <= j < i && es@[j]@ == ext@,
                            decreases es@.len() - i,
                        {
                            if es[i].eq(ext) {
                                found = true;
                            }
                            i += 1;
                        }
                        proof {
                            let evs = exts_view(*extensions).unwrap();
                            assert(forall|j: int| 0 <= j < es@.len() ==> evs[j] == es@[j]@);
                            if found {
                                let j = choose|j: int| 0 <= j < es@.len() && es@[j]@ == ext@;
                                assert(evs[j] == ext@);
                            }
                        }
                        if !found {
                            return false;
                        }
                    },
                    None => {
                        return false;
                    },
                }
            }
        },
        None => {},
    }
    match min_size {
        Some(m) => {
            match r.file_size {
                Some(s) => {
                    if s < m {
                        return false;
                    }
                },
                None => {
                    return false;
                },
            }
        },
        None => {},
    }
    match max_size {
        Some(m) => {
            match r.file_size {
                Some(s) => {
                    if s > m {
                        return false;
                    }
                },
                None => {
                    return false;
                },
            }
        },
        None => {},
    }
    true
}

/// Some entry of the answer carries this path.
pub open spec fn result_has_path(v: Seq<FileRecord>, p: Seq<char>) -> bool {
    exists|i: int| 0 <= i < v.len() && v[i]@.path == p
}

impl Database {
    /// Case-sensitive substring search over names with optional filters:
    /// the answer holds only matching rows, each path once, directories
    /// first and names ascending, at most `limit` entries; when fewer
    /// than `limit` come back, every matching row is among them, and
    /// anything cut off ordered at or after everything kept.
    pub fn search_files(
        &self,
        query: &str,
        extensions: Option<Vec<String>>,
        min_size: Option<i64>,
        max_size: Option<i64>,
        limit: usize,
    ) -> (r: Result<Vec<FileRecord>, StoreError>)
        requires
            self.wf(),
        ensures
            r matches Ok(v) ==> {
                let exts = exts_view(extensions);
                let mn = opt_i64_view(min_size);
                let mx = opt_i64_view(max_size);
                &&& v@.len() <= limit
                &&& forall|i: int|
                    0 <= i < v@.len() ==> self.rows().contains_pair(#[trigger] v@[i]@.path, v@[i]@)
                        && rec_matches(v@[i]@, query@, exts, mn, mx)
                &&& forall|i: int, j: int|
                    #![trigger v@[i], v@[j]]
                    0 <= i < j < v@.len() ==> v@[i]@.path != v@[j]@.path && rec_le(v@[i]@, v@[j]@)
                &&& (v@.len() < limit ==> forall|p: Seq<char>|
                    self.rows().dom().contains(p) && rec_matches(
                        #[trigger] self.rows()[p],
                        query@,
                        exts,
                        mn,
                        mx,
                    ) ==> result_has_path(v@, p))
                &&& forall|p: Seq<char>|
                    self.rows().dom().contains(p) && rec_matches(
                        #[trigger] self.rows()[p],
                        query@,
                        exts,
                        mn,
                        mx,
                    ) && !result_has_path(v@, p) ==> forall|i: int|
                        0 <= i < v@.len() ==> rec_le(#[trigger] v@[i]@, self.rows()[p])
            },
    {
        let ghost rows = self.rows();
        let ghost exts = exts_view(extensions);
        let ghost mn = opt_i64_view(min_size);
        let ghost mx = opt_i64_view(max_size);
        let all = self.all_rows()?;
        let total = all.len();
        let mut sorted: Vec<FileRecord> = Vec::new();
        let mut idx: usize = 0;
        while idx < total
            invariant
                rows == self.rows(),
                exts == exts_view(extensions),
                mn == opt_i64_view(min_size),
                mx == opt_i64_view(max_size),
                total == all@.len(),
                0 <= idx <= total,
                forall|i: int|
                    0 <= i < all@.len() ==> rows.contains_pair(#[trigger] all@[i]@.path, all@[i]@),
                forall|i: int, j: int|
                    #![trigger all@[i], all@[j]]
                    0 <= i < j < all@.len() ==> all@[i]@.path != all@[j]@.path,
                forall|i: int|
                    0 <= i < sorted@.len() ==> rows.contains_pair(
                        #[trigger] sorted@[i]@.path,
                        sorted@[i]@,
                    ) && rec_matches(sorted@[i]@, query@, exts, mn, mx),
                forall|i: int|
                    0 <= i < sorted@.len() ==> exists|j: int|
                        0 <= j < idx && #[trigger] sorted@[i]@.path == all@[j]@.path,
                forall|i: int, j: int|
                    #![trigger sorted@[i], sorted@[j]]
                    0 <= i < j < sorted@.len() ==> sorted@[i]@.path != sorted@[j]@.path && rec_le(
                        sorted@[i]@,
                        sorted@[j]@,
                    ),
                forall|j: int|
                    0 <= j < idx && rec_matches(#[trigger] all@[j]@, query@, exts, mn, mx)
                        ==> result_has_path(sorted@, all@[j]@.path),
            decreases total - idx,
        {
            let r = &all[idx];
            if matches_rec(r, query, &extensions, min_size, max_size) {
                let mut k: usize = 0;
                while k < sorted.len() && rec_le_exec(&sorted[k], r)
                    invariant
                        0 <= k <= sorted@.len(),
                        forall|j: int| 0 <= j < k ==> rec_le(#[trigger] sorted@[j]@, r@),
                    decreases sorted@.len() - k,
                {
                    k += 1;
                }
                proof {
                    if k < sorted@.len() {
                        lemma_rec_le_total(sorted@[k as int]@, r@);
                        assert(rec_le(r@, sorted@[k as int]@));
                        assert forall|m: int| k <= m < sorted@.len() implies rec_le(
                            r@,
                            #[trigger] sorted@[m]@,
                        ) by {
                            if m > k {
                                lemma_rec_le_trans(r@, sorted@[k as int]@, sorted@[m]@);
                            }
                        }
                    }
                    // The new record's path is fresh: it comes from a row
                    // not yet processed, and paths are distinct.
                    assert forall|i: int| 0 <= i < sorted@.len() implies #[trigger] sorted@[i]@.path
                        != r@.path by {
                        let j = choose|j: int|
                            0 <= j < idx && #[trigger] sorted@[i]@.path == all@[j]@.path;
                        assert(all@[j]@.path != all@[idx as int]@.path);
                    }
                }
                let ghost before = sorted@;
                let cloned = r.clone_record();
                sorted.insert(k, cloned);
                proof {
                    before.insert_ensures(k as int, cloned);
                    assert(sorted@.len() == before.len() + 1);
                    assert(forall|i: int| 0 <= i < k ==> #[trigger] sorted@[i] == before[i]);
                    assert(sorted@[k as int] == cloned);
                    assert forall|i: int| k < i < sorted@.len() implies #[trigger] sorted@[i]
                        == before[i - 1] by {
                        assert(before.insert(k as int, cloned)[(i - 1) + 1] == before[i - 1]);
                    }
                    assert forall|i: int| 0 <= i < sorted@.len() implies rows.contains_pair(
                        #[trigger] sorted@[i]@.path,
                        sorted@[i]@,
                    ) && rec_matches(sorted@[i]@, query@, exts, mn, mx) by {
                        if i < k {
                            assert(sorted@[i] == before[i]);
                        } else if i == k {
                            assert(sorted@[i]@ == r@);
                        } else {
                            assert(sorted@[i] == before[i - 1]);
                        }
                    }
                    assert forall|i: int| 0 <= i < sorted@.len() implies exists|j: int|
                        0 <= j <= idx && #[trigger] sorted@[i]@.path == all@[j]@.path by {
                        if i < k {
                            assert(sorted@[i] == before[i]);
                        } else if i == k {
                            assert(sorted@[i]@.path == all@[idx as int]@.path);
                        } else {
                            assert(sorted@[i] == before[i - 1]);
                        }
                    }
                    assert forall|i: int, j: int| 0 <= i < j < sorted@.len() implies sorted@[i]@.path
                        != sorted@[j]@.path && rec_le(sorted@[i]@, sorted@[j]@) by {
                        if j < k {
                            assert(sorted@[i] == before[i] && sorted@[j] == before[j]);
                            assert(before[i]@.path != before[j]@.path);
                            assert(rec_le(before[i]@, before[j]@));
                        } else if j == k {
                            assert(sorted@[i] == before[i]);
                            assert(sorted@[j]@ == r@);
                            assert(before[i]@.path != r@.path);
                            assert(rec_le(before[i]@, r@));
                        } else if i < k {
                            assert(sorted@[i] == before[i] && sorted@[j] == before[j - 1]);
                            assert(before[i]@.path != before[j - 1]@.path);
                            assert(rec_le(before[i]@, before[j - 1]@));
                        } else if i == k {
                            assert(sorted@[i]@ == r@);
                            assert(sorted@[j] == before[j - 1]);
                            assert(before[j - 1]@.path != r@.path);
                            assert(rec_le(r@, before[j - 1]@));
                        } else {
                            assert(sorted@[i] == before[i - 1] && sorted@[j] == before[j - 1]);
                            assert(before[i - 1]@.path != before[j - 1]@.path);
                            assert(rec_le(before[i - 1]@, before[j - 1]@));
                        }
                    }
                    assert(result_has_path(sorted@, all@[idx as int]@.path)) by {
                        assert(sorted@[k as int]@.path == all@[idx as int]@.path);
                    }
                    assert forall|j: int|
                        0 <= j < idx + 1 && rec_matches(
                            #[trigger] all@[j]@,
                            query@,
                            exts,
                            mn,
                            mx,
                        ) implies result_has_path(sorted@, all@[j]@.path) by {
                        if j < idx {
                            let i = choose|i: int|
                                0 <= i < before.len() && before[i]@.path == all@[j]@.path;
                            if i < k {
                                assert(sorted@[i]@.path == all@[j]@.path);
                            } else {
                                assert(sorted@[i + 1]@.path == all@[j]@.path);
                            }
                        }
                    }
                }
            } else {
                proof {
                    assert forall|i: int| 0 <= i < sorted@.len() implies exists|j: int|
                        0 <= j <= idx && #[trigger] sorted@[i]@.path == all@[j]@.path by {
                        let j = choose|j: int|
                            0 <= j < idx && #[trigger] sorted@[i]@.path == all@[j]@.path;
                    }
                }
            }
            idx += 1;
        }
        proof {
            // Every matching row of the store is in the sorted list: its
            // path appears among the enumerated rows.
            assert forall|p: Seq<char>|
                rows.dom().contains(p) && rec_matches(
                    #[trigger] rows[p],
                    query@,
                    exts,
                    mn,
                    mx,
                ) implies result_has_path(sorted@, p) by {
                assert(exists|j: int| 0 <= j < all@.len() && #[trigger] all@[j]@.path == p) by {
                    self.lemma_wf_finite();
                    lemma_enumeration_covers(all@, rows, p);
                }
                let j = choose|j: int| 0 <= j < all@.len() && #[trigger] all@[j]@.path == p;
                assert(rows.contains_pair(all@[j]@.path, all@[j]@));
                assert(all@[j]@ == rows[p]);
            }
        }
        let mut cut: bool = false;
        while sorted.len() > limit
            invariant
                rows == self.rows(),
                exts == exts_view(extensions),
                mn == opt_i64_view(min_size),
                mx == opt_i64_view(max_size),
                forall|i: int|
                    0 <= i < sorted@.len() ==> rows.contains_pair(
                        #[trigger] sorted@[i]@.path,
                        sorted@[i]@,
                    ) && rec_matches(sorted@[i]@, query@, exts, mn, mx),
                forall|i: int, j: int|
                    #![trigger sorted@[i], sorted@[j]]
                    0 <= i < j < sorted@.len() ==> sorted@[i]@.path != sorted@[j]@.path && rec_le(
                        sorted@[i]@,
                        sorted@[j]@,
                    ),
                cut ==> sorted@.len() >= limit,
                forall|p: Seq<char>|
                    rows.dom().contains(p) && rec_matches(
                        #[trigger] rows[p],
                        query@,
                        exts,
                        mn,
                        mx,
                    ) && !result_has_path(sorted@, p) ==> (cut && forall|i: int|
                        0 <= i < sorted@.len() ==> rec_le(#[trigger] sorted@[i]@, rows[p])),
            decreases sorted@.len(),
        {
            let ghost before = sorted@;
            sorted.pop();
            cut = true;
            proof {
                let e = before[before.len() - 1];
                assert(sorted@ == before.subrange(0, before.len() - 1));
                assert(rows.contains_pair(e@.path, e@));
                assert forall|p: Seq<char>|
                    rows.dom().contains(p) && rec_matches(
                        #[trigger] rows[p],
                        query@,
                        exts,
                        mn,
                        mx,
                    ) && !result_has_path(sorted@, p) implies forall|i: int|
                    0 <= i < sorted@.len() ==> rec_le(#[trigger] sorted@[i]@, rows[p]) by {
                    if result_has_path(before, p) {
                        let w = choose|w: int| 0 <= w < before.len() && before[w]@.path == p;
                        if w < before.len() - 1 {
                            assert(sorted@[w]@.path == p);
                            assert(result_has_path(sorted@, p));
                        }
                        assert(w == before.len() - 1);
                        assert(rows[p] == e@);
                        assert forall|i: int| 0 <= i < sorted@.len() implies rec_le(
                            #[trigger] sorted@[i]@,
                            rows[p],
                        ) by {
                            assert(rec_le(before[i]@, e@));
                        }
                    }
                }
            }
        }
        Ok(sorted)
    }
}

/// An enumeration whose entries are pairs of the map and whose count is
/// the map's size covers every key of the map.
proof fn lemma_enumeration_covers(v: Seq<FileRecord>, m: Map<Seq<char>, Rec>, p: Seq<char>)
    requires
        m.dom().finite(),
        v.len() == m.dom().len(),
        forall|i: int| 0 <= i < v.len() ==> m.contains_pair(#[trigger] v[i]@.path, v[i]@),
        forall|i: int, j: int| 0 <= i < j < v.len() ==> v[i]@.path != v[j]@.path,
        m.dom().contains(p),
    ensures
        exists|i: int| 0 <= i < v.len() && #[trigger] v[i]@.path == p,
{
    broadcast use vstd::seq_lib::seq_to_set_is_finite;
    broadcast use vstd::set::group_set_axioms;

    let paths = Seq::new(v.len(), |i: int| v[i]@.path);
    let pathset = paths.to_set();
    assert(forall|i: int| 0 <= i < paths.len() ==> m.dom().contains(#[trigger] paths[i]));
    assert(pathset.subset_of(m.dom())) by {
        assert forall|q: Seq<char>| pathset.contains(q) implies m.dom().contains(q) by {
            let i = choose|i: int| 0 <= i < paths.len() && paths[i] == q;
            assert(m.dom().contains(paths[i]));
        }
    }
    assert(paths.no_duplicates()) by {
        assert forall|i: int, j: int|
            0 <= i < paths.len() && 0 <= j < paths.len() && i != j implies paths[i]
            != paths[j] by {}
    }
    paths.unique_seq_to_set();
    assert(pathset.len() == paths.len());
    if !pathset.contains(p) {
        assert(pathset.insert(p).subset_of(m.dom()));
        vstd::set_lib::lemma_len_subset(pathset.insert(p), m.dom());
        assert(pathset.insert(p).len() == pathset.len() + 1);
        assert(false);
    }
    let i = choose|i: int| 0 <= i < paths.len() && paths[i] == p;
    assert(v[i]@.path == p);
}

/// A search answer row as the facade hands it out: the record's fields,
/// the size reinterpreted as unsigned.
pub open spec fn shaped_from(s: SearchResult, r: Rec) -> bool {
    &&& s.path@ == r.path
    &&& s.name@ == r.name
    &&& (match (s.extension, r.extension) {
        (Some(a), Some(b)) => a@ == b,
        (None, None) => true,
        _ => false,
    })
    &&& (match (s.file_size, r.file_size) {
        (Some(a), Some(b)) => a as int == wrap_u64(b),
        (None, None) => true,
        _ => false,
    })
    &&& s.is_dir == r.is_dir
    &&& s.modified_time@ == r.modified_time
}

/// The signed 64-bit count `n` reinterpreted as unsigned 64-bit.
pub open spec fn wrap_u64(n: int) -> int {
    if n >= 0 {
        n
    } else {
        n + 0x10000000000000000
    }
}

fn size_as_u64(s: i64) -> (r: u64)
    ensures
        r == wrap_u64(s as int),
{
    if s >= 0 {
        s as u64
    } else {
        u64::MAX - ((-(s + 1)) as u64)
    }
}

fn shape_result(r: &FileRecord) -> (s: SearchResult)
    ensures
        shaped_from(s, r@),
{
    SearchResult {
        path: r.path.clone(),
        name: r.name.clone(),
        extension: match &r.extension {
            Some(e) => Some(e.clone()),
            None => None,
        },
        file_size: match r.file_size {
            Some(n) => Some(size_as_u64(n)),
            None => None,
        },
        is_dir: r.is_dir,
        modified_time: r.modified_time.clone(),
    }
}

/// The size filters of the facade, reinterpreted as the store takes
/// them: unsigned bounds cast to signed 64-bit.
pub open spec fn size_filter_view(o: Option<u64>) -> Option<int> {
    match o {
        Some(n) => Some(crate::mft::wrap_i64(n as int)),
        None => None,
    }
}

fn size_as_i64(s: u64) -> (r: i64)
    ensures
        r == crate::mft::wrap_i64(s as int),
{
    if s <= 0x7FFFFFFFFFFFFFFF {
        s as i64
    } else {
        i64::MIN + ((s - 0x8000000000000000) as i64)
    }
}

/// Translate a query and filter set into a store search and shape the
/// answer. An empty query returns an empty result set without touching
/// the store; the date filters are accepted and not applied.
pub fn search_files(
    store: &Database,
    query: String,
    filters: SearchFilters,
    page: usize,
    limit: usize,
) -> (r: Result<SearchResults, StoreError>)
    requires
        store.wf(),
    ensures
        query@.len() == 0 ==> (r matches Ok(res) && res.results@.len() == 0 && res.total == 0),
        r matches Ok(res) ==> {
            &&& res.query@ == query@
            &&& res.page == page
            &&& res.limit == limit
            &&& res.total == res.results@.len() <= limit
        },
        query@.len() > 0 ==> (r matches Ok(res) ==> {
            let exts = exts_view(filters.extensions);
            let mn = size_filter_view(filters.min_size);
            let mx = size_filter_view(filters.max_size);
            &&& forall|i: int|
                0 <= i < res.results@.len() ==> exists|p: Seq<char>|
                    store.rows().dom().contains(p) && rec_matches(
                        #[trigger] store.rows()[p],
                        query@,
                        exts,
                        mn,
                        mx,
                    ) && shaped_from(#[trigger] res.results@[i], store.rows()[p])
                        && res.results@[i].path@ == p
            &&& forall|i: int, j: int|
                #![trigger res.results@[i], res.results@[j]]
                0 <= i < j < res.results@.len() ==> res.results@[i].path@ != res.results@[j].path@
                    && (res.results@[j].is_dir ==> res.results@[i].is_dir) && (res.results@[i].is_dir
                    == res.results@[j].is_dir ==> lex_leq(
                    res.results@[i].name@,
                    res.results@[j].name@,
                ))
            &&& (res.results@.len() < limit ==> forall|p: Seq<char>|
                store.rows().dom().contains(p) && rec_matches(
                    #[trigger] store.rows()[p],
                    query@,
                    exts,
                    mn,
                    mx,
                ) ==> exists|i: int|
                    0 <= i < res.results@.len() && #[trigger] res.results@[i].path@ == p)
        }),
{
    if query.as_str().is_empty() {
        return Ok(
            SearchResults { query, results: Vec::new(), total: 0, page, limit },
        );
    }
    let min_size = match filters.min_size {
        Some(n) => Some(size_as_i64(n)),
        None => None,
    };
    let max_size = match filters.max_size {
        Some(n) => Some(size_as_i64(n)),
        None => None,
    };
    let found = store.search_files(
        query.as_str(),
        filters.extensions,
        min_size,
        max_size,
        limit,
    )?;
    let ghost foundg = found@;
    let mut results: Vec<SearchResult> = Vec::new();
    let mut i: usize = 0;
    while i < found.len()
        invariant
            0 <= i <= found@.len(),
            found@ == foundg,
            results@.len() == i,
            forall|k: int|
                0 <= k < i ==> shaped_from(#[trigger] results@[k], found@[k]@) && results@[k].path@
                    == found@[k]@.path,
        decreases found@.len() - i,
    {
        let s = shape_result(&found[i]);
        results.push(s);
        i += 1;
    }
    let total = results.len();
    let ghost rows = store.rows();
    let ghost exts = exts_view(filters.extensions);
    let ghost mn = size_filter_view(filters.min_size);
    let ghost mx = size_filter_view(filters.max_size);
    proof {
        assert forall|i: int| 0 <= i < results@.len() implies exists|p: Seq<char>|
            rows.dom().contains(p) && rec_matches(#[trigger] rows[p], query@, exts, mn, mx)
                && shaped_from(#[trigger] results@[i], rows[p]) && results@[i].path@ == p by {
            let p = foundg[i]@.path;
            assert(rows.contains_pair(p, foundg[i]@));
            assert(rows.dom().contains(p) && rec_matches(rows[p], query@, exts, mn, mx)
                && shaped_from(results@[i], rows[p]) && results@[i].path@ == p);
        }
        assert forall|i: int, j: int|
            #![trigger results@[i], results@[j]]
            0 <= i < j < results@.len() implies results@[i].path@ != results@[j].path@ && (
        results@[j].is_dir ==> results@[i].is_dir) && (results@[i].is_dir == results@[j].is_dir
            ==> lex_leq(results@[i].name@, results@[j].name@)) by {
            assert(foundg[i]@.path != foundg[j]@.path);
            assert(rec_le(foundg[i]@, foundg[j]@));
        }
        if results@.len() < limit {
            assert forall|p: Seq<char>|
                rows.dom().contains(p) && rec_matches(
                    #[trigger] rows[p],
                    query@,
                    exts,
                    mn,
                    mx,
                ) implies exists|i: int|
                0 <= i < results@.len() && #[trigger] results@[i].path@ == p by {
                assert(result_has_path(foundg, p));
                let i = choose|i: int| 0 <= i < foundg.len() && foundg[i]@.path == p;
                assert(results@[i].path@ == p);
            }
        }
    }
    Ok(SearchResults { query, results, total, page, limit })
}

} // verus!
