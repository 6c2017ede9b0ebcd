//! Candidate merging for corpus retrieval.
//!
//! Each expanded query yields a batch of similarity hits. Batches are
//! merged into one deduplicated candidate list keyed by corpus record
//! id: a later hit with an already-seen id overwrites the stored record
//! in place (last write wins) while the id keeps its first-insertion
//! position. The merged list is then truncated to the configured cap in
//! insertion order.

use vstd::prelude::*;
use crate::model::{CandidateResource, CandidateV};
use crate::text::str_eq;

verus! {

/// The bound on the merged candidate set used by the engine.
pub const DEFAULT_CANDIDATE_CAP: usize = 20;

/// How many hits each query's similarity search asks the store for.
pub const TOP_K_PER_QUERY: usize = 5;

/// Index of the first candidate with the given id, or -1 when absent.
pub open spec fn cand_index(acc: Seq<CandidateV>, id: Seq<char>) -> int
    decreases acc.len(),
{
    if acc.len() == 0 {
        -1
    } else if acc[0].id == id {
        0
    } else {
        let r = cand_index(acc.skip(1), id);
        if r == -1 {
            -1
        } else {
            r + 1
        }
    }
}

/// Inserts one hit: overwrites the record stored under its id, or
/// appends it when the id is new.
pub open spec fn upsert(acc: Seq<CandidateV>, h: CandidateV) -> Seq<CandidateV> {
    let i = cand_index(acc, h.id);
    if i == -1 {
        acc.push(h)
    } else {
        acc.update(i, h)
    }
}

/// Inserts the hits of one batch, in order.
pub open spec fn upsert_all(acc: Seq<CandidateV>, hits: Seq<CandidateV>) -> Seq<CandidateV>
    decreases hits.len(),
{
    if hits.len() == 0 {
        acc
    } else {
        upsert(upsert_all(acc, hits.drop_last()), hits.last())
    }
}

/// The deduplicated merge of all batches, in batch order.
pub open spec fn merge_batches(batches: Seq<Seq<CandidateV>>) -> Seq<CandidateV>
    decreases batches.len(),
{
    if batches.len() == 0 {
        Seq::empty()
    } else {
        upsert_all(merge_batches(batches.drop_last()), batches.last())
    }
}

/// `s` truncated to at most `cap` elements, in order.
pub open spec fn cap_at(s: Seq<CandidateV>, cap: int) -> Seq<CandidateV> {
    if s.len() <= cap {
        s
    } else {
        s.take(cap)
    }
}

/// Candidate ids are pairwise distinct.
pub open spec fn cand_ids_distinct(s: Seq<CandidateV>) -> bool {
    forall|i: int, j: int| 0 <= i < j < s.len() ==> s[i].id != s[j].id
}

proof fn lemma_cand_index_found(acc: Seq<CandidateV>, id: Seq<char>, i: int)
    requires
        0 <= i < acc.len(),
        acc[i].id == id,
        forall|j: int| 0 <= j < i ==> acc[j].id != id,
    ensures
        cand_index(acc, id) == i,
    decreases i,
{
    if i > 0 {
        lemma_cand_index_found(acc.skip(1), id, i - 1);
    }
}

proof fn lemma_cand_index_absent(acc: Seq<CandidateV>, id: Seq<char>)
    requires
        forall|j: int| 0 <= j < acc.len() ==> acc[j].id != id,
    ensures
        cand_index(acc, id) == -1,
    decreases acc.len(),
{
    if acc.len() > 0 {
        lemma_cand_index_absent(acc.skip(1), id);
    }
}

proof fn lemma_cand_index_spec(acc: Seq<CandidateV>, id: Seq<char>)
    ensures
        cand_index(acc, id) == -1 ==> forall|j: int|
            0 <= j < acc.len() ==> acc[j].id != id,
        cand_index(acc, id) != -1 ==> {
            let i = cand_index(acc, id);
            &&& 0 <= i < acc.len()
            &&& acc[i].id == id
        },
    decreases acc.len(),
{
    if acc.len() > 0 && acc[0].id != id {
        lemma_cand_index_spec(acc.skip(1), id);
        let r = cand_index(acc.skip(1), id);
        if r == -1 {
            assert forall|j: int| 0 <= j < acc.len() implies acc[j].id != id by {
                if j > 0 {
                    assert(acc.skip(1)[j - 1] == acc[j]);
                }
            }
        } else {
            assert(acc.skip(1)[r] == acc[r + 1]);
        }
    }
}

proof fn lemma_upsert_distinct(acc: Seq<CandidateV>, h: CandidateV)
    requires
        cand_ids_distinct(acc),
    ensures
        cand_ids_distinct(upsert(acc, h)),
{
    lemma_cand_index_spec(acc, h.id);
}

proof fn lemma_upsert_all_distinct(acc: Seq<CandidateV>, hits: Seq<CandidateV>)
    requires
        cand_ids_distinct(acc),
    ensures
        cand_ids_distinct(upsert_all(acc, hits)),
    decreases hits.len(),
{
    if hits.len() > 0 {
        lemma_upsert_all_distinct(acc, hits.drop_last());
        lemma_upsert_distinct(upsert_all(acc, hits.drop_last()), hits.last());
    }
}

/// The merge of any batches has pairwise distinct candidate ids.
pub proof fn lemma_merge_distinct(batches: Seq<Seq<CandidateV>>)
    ensures
        cand_ids_distinct(merge_batches(batches)),
    decreases batches.len(),
{
    if batches.len() > 0 {
        lemma_merge_distinct(batches.drop_last());
        lemma_upsert_all_distinct(merge_batches(batches.drop_last()), batches.last());
    }
}

/// The capped merge never exceeds the cap, keeps ids pairwise distinct,
/// and holds only records that arrived in some batch.
pub proof fn lemma_retrieve_bounds(batches: Seq<Seq<CandidateV>>, cap: int)
    requires
        cap >= 0,
    ensures
        cap_at(merge_batches(batches), cap).len() <= cap,
        cand_ids_distinct(cap_at(merge_batches(batches), cap)),
{
    lemma_merge_distinct(batches);
    let m = merge_batches(batches);
    if m.len() > cap {
        assert forall|i: int, j: int|
            0 <= i < j < cap_at(m, cap).len() implies cap_at(m, cap)[i].id != cap_at(
            m,
            cap,
        )[j].id by {
            assert(cap_at(m, cap)[i] == m[i]);
            assert(cap_at(m, cap)[j] == m[j]);
        }
    }
}

/// Inserts one hit into the running merge, last write wins on the id.
fn upsert_exec(out: &mut Vec<CandidateResource>, h: CandidateResource)
    ensures
        final(out).deep_view() == upsert(old(out).deep_view(), h@),
{
    let ghost acc0 = out.deep_view();
    let n = out.len();
    let mut k: usize = 0;
    while k < n
        invariant
            k <= n,
            n == out.len(),
            *out == *old(out),
            acc0 == out.deep_view(),
            forall|j: int| 0 <= j < k ==> out.deep_view()[j].id != h@.id,
        decreases n - k,
    {
        if str_eq(out[k].id.as_str(), h.id.as_str()) {
            proof {
                assert(acc0[k as int] == out@[k as int].deep_view());
                lemma_cand_index_found(acc0, h@.id, k as int);
            }
            out.set(k, h);
            proof {
                assert(out.deep_view() =~= acc0.update(k as int, h@));
            }
            return;
        }
        k = k + 1;
    }
    proof {
        lemma_cand_index_absent(acc0, h@.id);
    }
    out.push(h);
    proof {
        assert(out.deep_view() =~= acc0.push(h@));
    }
}

/// Merges the per-query hit batches into one deduplicated candidate
/// list, truncated to `cap` in first-insertion order. Later hits with an
/// already-seen corpus id overwrite the stored record.
pub fn merge_candidates(batches: &Vec<Vec<CandidateResource>>, cap: usize) -> (r: Vec<
    CandidateResource,
>)
    ensures
        r.deep_view() == cap_at(merge_batches(batches.deep_view()), cap as int),
        r.len() <= cap,
        cand_ids_distinct(r.deep_view()),
{
    let ghost bs = batches.deep_view();
    let mut out: Vec<CandidateResource> = Vec::new();
    let mut b: usize = 0;
    proof {
        assert(out.deep_view() =~= Seq::<CandidateV>::empty());
        assert(bs.take(0) =~= Seq::<Seq<CandidateV>>::empty());
    }
    while b < batches.len()
        invariant
            b <= batches.len(),
            bs == batches.deep_view(),
            bs.len() == batches.len(),
            out.deep_view() == merge_batches(bs.take(b as int)),
        decreases batches.len() - b,
    {
        let ghost acc_start = out.deep_view();
        let ghost batch = bs[b as int];
        let m = batches[b].len();
        let mut i: usize = 0;
        proof {
            assert(batch.take(0) =~= Seq::<CandidateV>::empty());
        }
        while i < m
            invariant
                i <= m,
                b < batches.len(),
                bs == batches.deep_view(),
                bs.len() == batches.len(),
                batch == bs[b as int],
                m == batches[b as int].len(),
                batch.len() == m,
                out.deep_view() == upsert_all(acc_start, batch.take(i as int)),
            decreases m - i,
        {
            let h = batches[b][i].clone();
            proof {
                assert(h@ == batch[i as int]);
            }
            upsert_exec(&mut out, h);
            proof {
                assert(batch.take(i + 1).drop_last() =~= batch.take(i as int));
                assert(batch.take(i + 1).last() == batch[i as int]);
            }
            i = i + 1;
        }
        proof {
            assert(batch.take(m as int) =~= batch);
            assert(bs.take(b + 1).drop_last() =~= bs.take(b as int));
            assert(bs.take(b + 1).last() == batch);
        }
        b = b + 1;
    }
    proof {
        assert(bs.take(bs.len() as int) =~= bs);
        lemma_merge_distinct(bs);
    }
    out.truncate(cap);
    proof {
        if merge_batches(bs).len() > cap {
            assert(out.deep_view() =~= merge_batches(bs).take(cap as int));
        } else {
            assert(out.deep_view() =~= merge_batches(bs));
        }
    }
    out
}

} // verus!
