//! Laws the store model obeys, stated over the same spec functions the
//! operations' contracts use.

use vstd::prelude::*;

use crate::search::rec_matches;
use crate::search::result_has_path;
use crate::store::Database;
use crate::store::batch_apply;
use crate::types::FileRecord;
use crate::types::Rec;

verus! {

/// The paths of a batch's records.
pub open spec fn paths_of(rs: Seq<Rec>) -> Set<Seq<char>> {
    Set::new(|p: Seq<char>| exists|i: int| 0 <= i < rs.len() && #[trigger] rs[i].path == p)
}

/// Applying a batch adds exactly the batch's paths to the stored set.
pub proof fn lemma_batch_apply_dom(m: Map<Seq<char>, Rec>, rs: Seq<Rec>)
    ensures
        batch_apply(m, rs).dom() =~= m.dom().union(paths_of(rs)),
    decreases rs.len(),
{
    if rs.len() > 0 {
        lemma_batch_apply_dom(m.insert(rs[0].path, rs[0]), rs.drop_first());
        assert forall|p: Seq<char>|
            m.dom().insert(rs[0].path).union(paths_of(rs.drop_first())).contains(p) implies m.dom()
            .union(paths_of(rs)).contains(p) by {
            if p == rs[0].path {
                assert(rs[0].path == p);
            } else if paths_of(rs.drop_first()).contains(p) {
                let i = choose|i: int|
                    0 <= i < rs.drop_first().len() && #[trigger] rs.drop_first()[i].path == p;
                assert(rs[i + 1].path == p);
            }
        }
        assert forall|p: Seq<char>| m.dom().union(paths_of(rs)).contains(p) implies m.dom().insert(
            rs[0].path,
        ).union(paths_of(rs.drop_first())).contains(p) by {
            if paths_of(rs).contains(p) && p != rs[0].path {
                let i = choose|i: int| 0 <= i < rs.len() && #[trigger] rs[i].path == p;
                assert(rs.drop_first()[i - 1].path == p);
            }
        }
    }
}

/// Re-running an indexing pass over the same tree leaves the store with
/// exactly the same set of paths: the second pass writes records under
/// the same paths as the first, whatever its timestamps say.
pub proof fn lemma_reindex_idempotent(m: Map<Seq<char>, Rec>, rs1: Seq<Rec>, rs2: Seq<Rec>)
    requires
        paths_of(rs1) == paths_of(rs2),
    ensures
        batch_apply(batch_apply(m, rs1), rs2).dom() == batch_apply(m, rs1).dom(),
{
    lemma_batch_apply_dom(m, rs1);
    lemma_batch_apply_dom(batch_apply(m, rs1), rs2);
    assert(batch_apply(batch_apply(m, rs1), rs2).dom() =~= batch_apply(m, rs1).dom());
}

/// Writing the same path twice keeps one row, which carries the second
/// record whole — in particular its changed size.
pub proof fn lemma_upsert_replaces(m: Map<Seq<char>, Rec>, r1: Rec, r2: Rec)
    requires
        r1.path == r2.path,
    ensures
        m.insert(r1.path, r1).insert(r2.path, r2) == m.insert(r2.path, r2),
        m.insert(r1.path, r1).insert(r2.path, r2).dom() == m.dom().insert(r2.path),
        m.insert(r1.path, r1).insert(r2.path, r2)[r2.path] == r2,
{
    assert(m.insert(r1.path, r1).insert(r2.path, r2) =~= m.insert(r2.path, r2));
    assert(m.insert(r1.path, r1).insert(r2.path, r2).dom() =~= m.dom().insert(r2.path));
}

/// Paths are unique in the store: distinct keys hold rows with distinct
/// stored paths.
pub proof fn lemma_store_paths_unique(s: &Database, p1: Seq<char>, p2: Seq<char>)
    requires
        s.all_valid(),
        s.rows().dom().contains(p1),
        s.rows().dom().contains(p2),
        p1 != p2,
    ensures
        s.rows()[p1].path != s.rows()[p2].path,
{
}

/// Directory rows carry neither an extension nor a size.
pub proof fn lemma_directory_rows_bare(s: &Database, p: Seq<char>)
    requires
        s.all_valid(),
        s.rows().dom().contains(p),
        s.rows()[p].is_dir,
    ensures
        s.rows()[p].extension is None,
        s.rows()[p].file_size is None,
{
}

/// A record inserted and then searched for by a substring of its name,
/// with no filters and room in the limit, comes back with identical
/// field values: soundness and completeness of the search pin the row.
pub proof fn lemma_roundtrip_record(
    rows: Map<Seq<char>, Rec>,
    r: Rec,
    q: Seq<char>,
    v: Seq<FileRecord>,
    limit: int,
)
    requires
        rows == rows.insert(r.path, r) || rows.contains_pair(r.path, r),
        crate::strings::contains_seq(r.name, q),
        v.len() < limit,
        // soundness of the answer
        forall|i: int|
            0 <= i < v.len() ==> rows.contains_pair(#[trigger] v[i]@.path, v[i]@),
        // completeness of the answer
        forall|p: Seq<char>|
            rows.dom().contains(p) && rec_matches(
                #[trigger] rows[p],
                q,
                None,
                None,
                None,
            ) ==> result_has_path(v, p),
    ensures
        exists|i: int| 0 <= i < v.len() && #[trigger] v[i]@ == r,
{
    assert(rows.contains_pair(r.path, r));
    assert(rec_matches(rows[r.path], q, None, None, None));
    assert(result_has_path(v, r.path));
    let i = choose|i: int| 0 <= i < v.len() && v[i]@.path == r.path;
    assert(rows.contains_pair(v[i]@.path, v[i]@));
    assert(v[i]@ == rows[r.path]);
}

} // verus!
