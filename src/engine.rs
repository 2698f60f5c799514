use crate::device::AcceleratorError;
use crate::score::Score;
use vstd::prelude::*;
use vstd::set_lib::{lemma_int_range, lemma_subset_equality, set_int_range};

verus! {

/// A stored vector offered for ranking: its document identifier and its length.
#[derive(Debug)]
pub struct Candidate {
    pub id: String,
    pub len: usize,
}

/// A document and its similarity to the query.
#[derive(Debug)]
pub struct ScoredDocument {
    pub id: String,
    pub score: Score,
}

/// A candidate whose vector length differs from the query's.
#[derive(Debug)]
pub struct DimensionMismatch {
    pub id: String,
    pub expected: usize,
    pub found: usize,
}

/// The outcome of ranking: the scored documents, best first, and the
/// candidates that could not be compared, in input order.
#[derive(Debug)]
pub struct Ranking {
    pub ranked: Vec<ScoredDocument>,
    pub rejected: Vec<DimensionMismatch>,
}

/// The positions of the candidates that have the query's length.
pub open spec fn admitted(query_len: usize, c: Seq<Candidate>) -> Seq<int>
    decreases c.len(),
{
    if c.len() == 0 {
        seq![]
    } else if c.last().len == query_len {
        admitted(query_len, c.drop_last()).push(c.len() - 1)
    } else {
        admitted(query_len, c.drop_last())
    }
}

/// The rejections of the candidates that differ from the query's length.
pub open spec fn mismatches(query_len: usize, c: Seq<Candidate>) -> Seq<DimensionMismatch>
    decreases c.len(),
{
    if c.len() == 0 {
        seq![]
    } else if c.last().len == query_len {
        mismatches(query_len, c.drop_last())
    } else {
        mismatches(query_len, c.drop_last()).push(
            DimensionMismatch { id: c.last().id, expected: query_len, found: c.last().len },
        )
    }
}

/// `ranked` holds the admitted candidates of `c` in the ranked order `p` of
/// the scores `s`, where `s[k]` is a score that `f` can give the `k`-th
/// admitted candidate.
pub open spec fn ranks_candidates<F: Fn(usize) -> Result<Score, AcceleratorError>>(
    f: F,
    query_len: usize,
    c: Seq<Candidate>,
    s: Seq<Score>,
    p: Seq<usize>,
    ranked: Seq<ScoredDocument>,
) -> bool {
    let a = admitted(query_len, c);
    &&& s.len() == a.len()
    &&& forall|k: int| 0 <= k < a.len() ==> f.ensures((a[k] as usize,), Ok(s[k]))
    &&& is_ranked_order(s, p)
    &&& ranked.len() == p.len()
    &&& forall|j: int|
        0 <= j < ranked.len() ==> ranked[j].id == c[a[p[j] as int]].id && ranked[j].score == s[p[j]
            as int]
}

/// Whether, among the scores `s`, the entry at `i` goes before the one at `j`:
/// a higher score first, and of two equal scores the earlier one.
pub open spec fn precedes(s: Seq<Score>, i: int, j: int) -> bool {
    s[i].rank_key() > s[j].rank_key() || (s[i].rank_key() == s[j].rank_key() && i < j)
}

/// `p` lists each position of `s` once, from the highest score down, with
/// equal scores in their original order.
pub open spec fn is_ranked_order(s: Seq<Score>, p: Seq<usize>) -> bool {
    &&& p.len() == s.len()
    &&& forall|j: int| 0 <= j < p.len() ==> p[j] < s.len()
    &&& forall|j: int, k: int| 0 <= j < k < p.len() ==> precedes(s, p[j] as int, p[k] as int)
}

/// Position `x` stands somewhere in `p`.
spec fn lists(p: Seq<usize>, x: int) -> bool {
    exists|j: int| 0 <= j < p.len() && p[j] == x
}

/// A ranked order lists every position of the scores.
proof fn lemma_ranked_order_covers(s: Seq<Score>, p: Seq<usize>)
    requires
        is_ranked_order(s, p),
    ensures
        forall|x: int| 0 <= x < s.len() ==> #[trigger] lists(p, x),
{
    let pi = p.map_values(|v: usize| v as int);
    assert(pi.no_duplicates()) by {
        assert forall|j: int, k: int| 0 <= j < pi.len() && 0 <= k < pi.len() && j != k implies pi[j]
            != pi[k] by {
            if j < k {
                assert(precedes(s, p[j] as int, p[k] as int));
            } else {
                assert(precedes(s, p[k] as int, p[j] as int));
            }
        }
    }
    pi.unique_seq_to_set();
    lemma_int_range(0, s.len() as int);
    assert(pi.to_set().subset_of(set_int_range(0, s.len() as int))) by {
        assert forall|x: int| pi.to_set().contains(x) implies set_int_range(0, s.len() as int).contains(
            x,
        ) by {
            assert(pi.contains(x));
        }
    }
    lemma_subset_equality(pi.to_set(), set_int_range(0, s.len() as int));
    assert forall|x: int| 0 <= x < s.len() implies #[trigger] lists(p, x) by {
        assert(set_int_range(0, s.len() as int).contains(x));
        assert(pi.to_set().contains(x));
        assert(pi.contains(x));
        let j = choose|j: int| 0 <= j < pi.len() && pi[j] == x;
        assert(p[j] == x);
    }
}

/// Two ranked orders of the same scores agree on their first `j` places.
proof fn lemma_ranked_orders_agree(s: Seq<Score>, p: Seq<usize>, q: Seq<usize>, j: int)
    requires
        is_ranked_order(s, p),
        is_ranked_order(s, q),
        0 <= j <= s.len(),
    ensures
        forall|k: int| 0 <= k < j ==> p[k] == q[k],
    decreases j,
{
    if j > 0 {
        lemma_ranked_orders_agree(s, p, q, j - 1);
        let i = j - 1;
        if p[i] != q[i] {
            lemma_ranked_order_covers(s, p);
            lemma_ranked_order_covers(s, q);
            assert(lists(p, q[i] as int));
            assert(lists(q, p[i] as int));
            let a = choose|k: int| 0 <= k < p.len() && p[k] == q[i] as int;
            let b = choose|k: int| 0 <= k < q.len() && q[k] == p[i] as int;
            if a < i {
                assert(precedes(s, q[a] as int, q[i] as int));
            }
            if b < i {
                assert(precedes(s, p[b] as int, p[i] as int));
            }
            assert(precedes(s, p[i] as int, p[a] as int));
            assert(precedes(s, q[i] as int, q[b] as int));
        }
    }
}

/// The ranking is determined by the scores: two orders that both rank the
/// same scores best first, with ties in input order, are the same order.
pub proof fn lemma_ranked_order_unique(s: Seq<Score>, p: Seq<usize>, q: Seq<usize>)
    requires
        is_ranked_order(s, p),
        is_ranked_order(s, q),
    ensures
        p == q,
{
    lemma_ranked_orders_agree(s, p, q, s.len() as int);
    assert(p =~= q);
}

/// The positions of `scores`, from the highest score down; equal scores keep
/// their relative order, and NaN scores come last.
pub fn ranked_order(scores: &Vec<Score>) -> (r: Vec<usize>)
    ensures
        is_ranked_order(scores@, r@),
{
    let mut order: Vec<usize> = Vec::new();
    let n = scores.len();
    let mut i: usize = 0;
    while i < n
        invariant
            n == scores@.len(),
            i <= n,
            order@.len() == i,
            forall|j: int| 0 <= j < order@.len() ==> order@[j] < i,
            forall|j: int, k: int|
                0 <= j < k < order@.len() ==> precedes(scores@, order@[j] as int, order@[k] as int),
        decreases n - i,
    {
        let key = scores[i].key();
        let mut pos: usize = 0;
        while pos < order.len() && scores[order[pos]].key() >= key
            invariant
                n == scores@.len(),
                i < n,
                pos <= order@.len(),
                forall|j: int| 0 <= j < order@.len() ==> order@[j] < i,
                forall|j: int| 0 <= j < pos ==> scores@[order@[j] as int].rank_key() >= key,
            decreases order@.len() - pos,
        {
            pos = pos + 1;
        }
        proof {
            assert forall|k: int| pos <= k < order@.len() implies scores@[order@[k] as int].rank_key()
                < key by {
                if pos < k {
                    assert(precedes(scores@, order@[pos as int] as int, order@[k] as int));
                }
            }
        }
        let ghost before = order@;
        order.insert(pos, i);
        proof {
            assert forall|j: int, k: int| 0 <= j < k < order@.len() implies precedes(
                scores@,
                order@[j] as int,
                order@[k] as int,
            ) by {
                if k < pos {
                    assert(order@[j] == before[j] && order@[k] == before[k]);
                } else if k == pos {
                    assert(order@[j] == before[j]);
                } else if j < pos {
                    assert(order@[j] == before[j] && order@[k] == before[k - 1]);
                } else if j == pos {
                    assert(order@[k] == before[k - 1]);
                } else {
                    assert(order@[j] == before[j - 1] && order@[k] == before[k - 1]);
                }
            }
        }
        i = i + 1;
    }
    order
}

/// Ranks `candidates` against a query of length `query_len`.
///
/// A candidate of another length is rejected on its own and the others go on.
/// Each admitted candidate is scored by `score`, given its position; the first
/// accelerator error ends the whole request. The scored documents come best
/// first, equal scores in input order, NaN scores last.
pub fn rank<F: Fn(usize) -> Result<Score, AcceleratorError>>(
    query_len: usize,
    candidates: &Vec<Candidate>,
    score: F,
) -> (r: Result<Ranking, AcceleratorError>)
    requires
        forall|i: usize| i < candidates@.len() ==> score.requires((i,)),
    ensures
        match r {
            Ok(ranking) => {
                &&& ranking.rejected@ == mismatches(query_len, candidates@)
                &&& exists|s: Seq<Score>, p: Seq<usize>|
                    ranks_candidates(score, query_len, candidates@, s, p, ranking.ranked@)
            },
            Err(e) => exists|i: int|
                0 <= i < candidates@.len() && candidates@[i].len == query_len && score.ensures(
                    (i as usize,),
                    Err(e),
                ),
        },
        (forall|i: int, e: AcceleratorError|
            0 <= i < candidates@.len() && candidates@[i].len == query_len ==> !score.ensures(
                (i as usize,),
                Err(e),
            )) ==> r is Ok,
{
    let mut rejected: Vec<DimensionMismatch> = Vec::new();
    let mut ids: Vec<String> = Vec::new();
    let mut scores: Vec<Score> = Vec::new();
    let n = candidates.len();
    let mut i: usize = 0;
    let ghost mut adm: Seq<int> = seq![];
    while i < n
        invariant
            n == candidates@.len(),
            i <= n,
            forall|i: usize| i < candidates@.len() ==> score.requires((i,)),
            rejected@ == mismatches(query_len, candidates@.subrange(0, i as int)),
            scores@.len() == adm.len(),
            ids@.len() == scores@.len(),
            adm == admitted(query_len, candidates@.subrange(0, i as int)),
            forall|k: int|
                0 <= k < scores@.len() ==> {
                    &&& 0 <= #[trigger] adm[k] < i
                    &&& ids@[k] == candidates@[adm[k]].id
                    &&& score.ensures((adm[k] as usize,), Ok(scores@[k]))
                },
        decreases n - i,
    {
        let ghost prefix = candidates@.subrange(0, i as int);
        let ghost next = candidates@.subrange(0, i + 1);
        assert(next.drop_last() =~= prefix);
        let candidate = &candidates[i];
        if candidate.len == query_len {
            match score(i) {
                Ok(s) => {
                    ids.push(candidate.id.clone());
                    scores.push(s);
                    proof {
                        adm = adm.push(i as int);
                    }
                },
                Err(e) => {
                    return Err(e);
                },
            }
        } else {
            rejected.push(
                DimensionMismatch { id: candidate.id.clone(), expected: query_len, found: candidate.len },
            );
        }
        i = i + 1;
    }
    assert(candidates@.subrange(0, n as int) =~= candidates@);
    let order = ranked_order(&scores);
    let mut ranked: Vec<ScoredDocument> = Vec::new();
    let mut j: usize = 0;
    while j < order.len()
        invariant
            is_ranked_order(scores@, order@),
            ids@.len() == scores@.len(),
            j <= order@.len(),
            ranked@.len() == j,
            forall|m: int|
                0 <= m < j ==> ranked@[m].id == ids@[order@[m] as int] && ranked@[m].score
                    == scores@[order@[m] as int],
        decreases order@.len() - j,
    {
        let k = order[j];
        ranked.push(ScoredDocument { id: ids[k].clone(), score: scores[k] });
        j = j + 1;
    }
    assert(rejected@ == mismatches(query_len, candidates@));
    let result = Ranking { ranked, rejected };
    assert(ranks_candidates(score, query_len, candidates@, scores@, order@, result.ranked@));
    Ok(result)
}

} // verus!
