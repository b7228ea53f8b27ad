//! Integer side of the ranking metrics: relevance of graded bullets and the
//! ideal ordering that normalises a discounted cumulative gain.

use crate::text::{contains_text, texts};
use vstd::prelude::*;
use vstd::relations::{sorted_by, total_ordering};

verus! {

/// A bullet counts as relevant when its judged grade is >= 2.
pub const RELEVANT_THRESHOLD: u8 = 2;

/// The order of the ideal ranking: higher grades first.
pub open spec fn grade_order() -> spec_fn(u8, u8) -> bool {
    |a: u8, b: u8| a >= b
}

proof fn lemma_grade_order_total()
    ensures
        total_ordering(grade_order()),
{
    let r = grade_order();
    assert(vstd::relations::reflexive(r));
    assert(vstd::relations::antisymmetric(r));
    assert(vstd::relations::transitive(r));
    assert(vstd::relations::strongly_connected(r));
}

/// The best `k` grades of `pool`, highest first: the grades sorted in
/// descending order and cut to at most `k`.
pub open spec fn ideal_ranking(pool: Seq<u8>, k: int) -> Seq<u8> {
    pool.sort_by(grade_order()).take(if k < pool.len() { k } else { pool.len() as int })
}

/// The ideal ordering for nDCG: `pool` sorted by descending grade, truncated
/// to its first `k` grades.
pub fn ideal_grades(pool: &Vec<u8>, k: usize) -> (r: Vec<u8>)
    ensures
        r@ == ideal_ranking(pool@, k as int),
{
    broadcast use vstd::seq_lib::group_to_multiset_ensures;

    let mut sorted: Vec<u8> = Vec::new();
    let n = pool.len();
    let mut i: usize = 0;
    while i < n
        invariant
            n == pool@.len(),
            i <= n,
            sorted_by(sorted@, grade_order()),
            sorted@.len() == i,
            sorted@.to_multiset() == pool@.take(i as int).to_multiset(),
        decreases n - i,
    {
        let x = pool[i];
        let mut p: usize = 0;
        while p < sorted.len() && sorted[p] >= x
            invariant
                p <= sorted@.len(),
                forall|j: int| 0 <= j < p ==> sorted@[j] >= x,
            decreases sorted@.len() - p,
        {
            p = p + 1;
        }
        let ghost before = sorted@;
        sorted.insert(p, x);
        proof {
            before.insert_ensures(p as int, x);
            assert forall|a: int, b: int| 0 <= a < b < sorted@.len() implies #[trigger] (grade_order())(
                sorted@[a],
                sorted@[b],
            ) by {
                if b < p {
                    assert((grade_order())(before[a], before[b]));
                } else if b == p {
                    assert(before[a] >= x);
                } else if a < p {
                    assert(sorted@[b] == before[b - 1]);
                    if p < before.len() {
                        assert((grade_order())(before[p as int], before[b - 1]));
                    }
                } else if a == p {
                    assert(before[p as int] < x);
                    assert((grade_order())(before[p as int], before[b - 1]));
                } else {
                    assert((grade_order())(before[a - 1], before[b - 1]));
                }
            }
            assert(pool@.take(i + 1) =~= pool@.take(i as int).push(x));
            vstd::seq_lib::to_multiset_insert(before, p as int, x);
            vstd::seq_lib::to_multiset_build(pool@.take(i as int), x);
        }
        i = i + 1;
    }
    proof {
        lemma_grade_order_total();
        pool@.lemma_sort_by_ensures(grade_order());
        assert(pool@.take(n as int) =~= pool@);
        vstd::seq_lib::lemma_sorted_unique(sorted@, pool@.sort_by(grade_order()), grade_order());
        assert(sorted@.len() == pool@.len());
    }
    sorted.truncate(k);
    proof {
        if k >= n {
            assert(pool@.sort_by(grade_order()).take(n as int) =~= pool@.sort_by(grade_order()));
        }
    }
    sorted
}

/// Whether a grade counts as relevant.
pub open spec fn is_relevant(g: u8) -> bool {
    g >= RELEVANT_THRESHOLD
}

/// How many grades of `grades` are relevant.
pub open spec fn relevant_count(grades: Seq<u8>) -> nat
    decreases grades.len(),
{
    if grades.len() == 0 {
        0
    } else {
        relevant_count(grades.drop_last()) + if is_relevant(grades.last()) {
            1nat
        } else {
            0nat
        }
    }
}

/// The relevant count is the number of grades of at least the threshold.
pub proof fn lemma_relevant_count_is_filter(grades: Seq<u8>)
    ensures
        relevant_count(grades) == grades.filter(|g: u8| g >= 2).len(),
    decreases grades.len(),
{
    reveal(Seq::filter);
    if grades.len() > 0 {
        lemma_relevant_count_is_filter(grades.drop_last());
    }
}

/// Counts the relevant grades, the numerator of Precision@k.
pub fn count_relevant(grades: &Vec<u8>) -> (r: usize)
    ensures
        r == relevant_count(grades@),
        r <= grades@.len(),
{
    let n = grades.len();
    let mut count: usize = 0;
    let mut i: usize = 0;
    while i < n
        invariant
            n == grades@.len(),
            i <= n,
            count == relevant_count(grades@.take(i as int)),
            count <= i,
        decreases n - i,
    {
        proof {
            assert(grades@.take(i + 1).drop_last() =~= grades@.take(i as int));
        }
        if grades[i] >= RELEVANT_THRESHOLD {
            count = count + 1;
        }
        i = i + 1;
    }
    proof {
        assert(grades@.take(n as int) =~= grades@);
    }
    count
}

/// One step of counting relevant grades over the whole corpus: the count
/// after one more grade.
pub fn tally_relevant(count: usize, grade: u8) -> (r: usize)
    requires
        count < usize::MAX,
    ensures
        r == count + if is_relevant(grade) {
            1nat
        } else {
            0nat
        },
{
    if grade >= RELEVANT_THRESHOLD {
        count + 1
    } else {
        count
    }
}

/// Counting a sequence of grades one step at a time gives its relevant count
/// added to the starting count.
pub proof fn lemma_tally_extends_count(grades: Seq<u8>, g: u8)
    ensures
        relevant_count(grades.push(g)) == relevant_count(grades) + if is_relevant(g) {
            1nat
        } else {
            0nat
        },
{
    assert(grades.push(g).drop_last() =~= grades);
}

/// The position of the first relevant grade, whose reciprocal rank is the
/// query's MRR contribution; `None` when no grade is relevant.
pub fn first_relevant(grades: &Vec<u8>) -> (r: Option<usize>)
    ensures
        match r {
            Some(p) => p < grades@.len() && is_relevant(grades@[p as int]) && forall|j: int|
                0 <= j < p ==> !is_relevant(#[trigger] grades@[j]),
            None => forall|j: int| 0 <= j < grades@.len() ==> !is_relevant(#[trigger] grades@[j]),
        },
{
    let n = grades.len();
    let mut i: usize = 0;
    while i < n
        invariant
            n == grades@.len(),
            i <= n,
            forall|j: int| 0 <= j < i ==> !is_relevant(#[trigger] grades@[j]),
        decreases n - i,
    {
        if grades[i] >= RELEVANT_THRESHOLD {
            return Some(i);
        }
        i = i + 1;
    }
    None
}

/// No grade is relevant exactly when the relevant count is zero: a query has
/// no reciprocal rank exactly when its precision is zero.
pub proof fn lemma_no_relevant_iff_zero_count(grades: Seq<u8>)
    ensures
        relevant_count(grades) == 0 <==> forall|j: int|
            0 <= j < grades.len() ==> !is_relevant(#[trigger] grades[j]),
    decreases grades.len(),
{
    if grades.len() > 0 {
        let init = grades.drop_last();
        lemma_no_relevant_iff_zero_count(init);
        if relevant_count(grades) == 0 {
            assert forall|j: int| 0 <= j < grades.len() implies !is_relevant(#[trigger] grades[j]) by {
                if j < init.len() {
                    assert(init[j] == grades[j]);
                }
            }
        }
        if forall|j: int| 0 <= j < grades.len() ==> !is_relevant(#[trigger] grades[j]) {
            assert forall|j: int| 0 <= j < init.len() implies !is_relevant(#[trigger] init[j]) by {
                assert(init[j] == grades[j]);
            }
            assert(!is_relevant(grades[grades.len() - 1]));
        }
    }
}

proof fn lemma_relevant_count_concat(a: Seq<u8>, b: Seq<u8>)
    ensures
        relevant_count(a + b) == relevant_count(a) + relevant_count(b),
    decreases b.len(),
{
    if b.len() == 0 {
        assert(a + b =~= a);
    } else {
        assert((a + b).drop_last() =~= a + b.drop_last());
        lemma_relevant_count_concat(a, b.drop_last());
    }
}

proof fn lemma_relevant_count_permutation(s1: Seq<u8>, s2: Seq<u8>)
    requires
        s1.to_multiset() == s2.to_multiset(),
    ensures
        relevant_count(s1) == relevant_count(s2),
    decreases s1.len(),
{
    broadcast use vstd::seq_lib::group_to_multiset_ensures;
    broadcast use vstd::multiset::group_multiset_axioms;

    assert(s1.to_multiset().len() == s1.len());
    assert(s2.to_multiset().len() == s2.len());
    if s1.len() == 0 {
        assert(s2.len() == 0);
    } else {
        let x = s1.last();
        let init = s1.drop_last();
        assert(s1 =~= init.push(x));
        assert(s1.to_multiset().count(x) > 0);
        assert(s2.to_multiset().count(x) > 0);
        assert(s2.contains(x));
        let j = choose|j: int| 0 <= j < s2.len() && s2[j] == x;
        let rest = s2.remove(j);
        assert(rest.to_multiset() =~= s2.to_multiset().remove(x));
        assert(init.to_multiset() =~= s1.to_multiset().remove(x));
        lemma_relevant_count_permutation(init, rest);
        let left = s2.subrange(0, j);
        let right = s2.subrange(j + 1, s2.len() as int);
        assert(rest =~= left + right);
        assert(s2 =~= (left + seq![x]) + right);
        lemma_relevant_count_concat(left, right);
        lemma_relevant_count_concat(left + seq![x], right);
        lemma_relevant_count_concat(left, seq![x]);
        assert(seq![x].drop_last() =~= Seq::<u8>::empty());
        assert(relevant_count(Seq::<u8>::empty()) == 0);
        assert(relevant_count(seq![x]) == if is_relevant(x) { 1nat } else { 0nat });
        assert(relevant_count(s1) == relevant_count(init) + if is_relevant(x) { 1nat } else { 0nat });
    }
}

/// The ideal ordering of the whole pool keeps every grade: it holds as many
/// relevant grades as the pool.
pub proof fn lemma_ideal_ranking_keeps_relevant(pool: Seq<u8>)
    ensures
        relevant_count(ideal_ranking(pool, pool.len() as int)) == relevant_count(pool),
{
    lemma_grade_order_total();
    pool.lemma_sort_by_ensures(grade_order());
    let sorted = pool.sort_by(grade_order());
    assert(sorted.len() == pool.len()) by {
        broadcast use vstd::seq_lib::group_to_multiset_ensures;

        assert(sorted.to_multiset().len() == sorted.len());
        assert(pool.to_multiset().len() == pool.len());
    }
    assert(sorted.take(pool.len() as int) =~= sorted);
    lemma_relevant_count_permutation(pool, sorted);
}

/// Ranking an ideal ranking again changes nothing.
pub proof fn lemma_ideal_ranking_idempotent(pool: Seq<u8>, k: nat)
    ensures
        ideal_ranking(ideal_ranking(pool, k as int), k as int) == ideal_ranking(pool, k as int),
{
    broadcast use vstd::seq_lib::group_to_multiset_ensures;

    lemma_grade_order_total();
    pool.lemma_sort_by_ensures(grade_order());
    let sorted = pool.sort_by(grade_order());
    let m = if k < pool.len() { k as int } else { pool.len() as int };
    let top = sorted.take(m);
    assert(sorted.to_multiset().len() == sorted.len());
    assert(pool.to_multiset().len() == pool.len());
    assert(sorted.len() == pool.len());
    assert(sorted_by(top, grade_order()));
    top.lemma_sort_by_ensures(grade_order());
    vstd::seq_lib::lemma_sorted_unique(top, top.sort_by(grade_order()), grade_order());
    assert(top.take(m) =~= top);
}

/// How many of `keys` occur in `found` (each key of `keys` counted once per
/// occurrence in `keys`).
pub open spec fn hit_count(keys: Seq<Seq<char>>, found: Seq<Seq<char>>) -> nat
    decreases keys.len(),
{
    if keys.len() == 0 {
        0
    } else {
        hit_count(keys.drop_last(), found) + if found.contains(keys.last()) {
            1nat
        } else {
            0nat
        }
    }
}

/// The hits are the ground-truth keys (with their repetitions) that occur
/// anywhere among the retrieved keys.
pub proof fn lemma_hit_count_is_membership(keys: Seq<Seq<char>>, found: Seq<Seq<char>>)
    ensures
        hit_count(keys, found) == keys.filter(|k: Seq<char>| found.contains(k)).len(),
    decreases keys.len(),
{
    reveal(Seq::filter);
    if keys.len() > 0 {
        lemma_hit_count_is_membership(keys.drop_last(), found);
    }
}

/// When every ground-truth key was retrieved, wherever it stands among the
/// retrieved keys, every key is a hit (Recall@k is 1).
pub proof fn lemma_all_found_all_hits(keys: Seq<Seq<char>>, found: Seq<Seq<char>>)
    requires
        forall|i: int| 0 <= i < keys.len() ==> found.contains(#[trigger] keys[i]),
    ensures
        hit_count(keys, found) == keys.len(),
    decreases keys.len(),
{
    if keys.len() > 0 {
        let init = keys.drop_last();
        assert forall|i: int| 0 <= i < init.len() implies found.contains(#[trigger] init[i]) by {
            assert(init[i] == keys[i]);
        }
        assert(found.contains(keys[keys.len() - 1]));
        lemma_all_found_all_hits(init, found);
    }
}

/// When no ground-truth key was retrieved there is no hit.
pub proof fn lemma_none_found_no_hits(keys: Seq<Seq<char>>, found: Seq<Seq<char>>)
    requires
        forall|i: int| 0 <= i < keys.len() ==> !found.contains(#[trigger] keys[i]),
    ensures
        hit_count(keys, found) == 0,
    decreases keys.len(),
{
    if keys.len() > 0 {
        let init = keys.drop_last();
        assert forall|i: int| 0 <= i < init.len() implies !found.contains(#[trigger] init[i]) by {
            assert(init[i] == keys[i]);
        }
        assert(!found.contains(keys[keys.len() - 1]));
        lemma_none_found_no_hits(init, found);
    }
}

/// Counts the ground-truth keys that were retrieved, the numerator of
/// ground-truth Recall@k; it never exceeds the number of ground-truth keys.
pub fn count_hits(relevant_keys: &Vec<String>, retrieved_keys: &Vec<String>) -> (r: usize)
    ensures
        r == hit_count(texts(relevant_keys@), texts(retrieved_keys@)),
        r <= relevant_keys@.len(),
{
    let n = relevant_keys.len();
    let ghost keys = texts(relevant_keys@);
    let mut hits: usize = 0;
    let mut i: usize = 0;
    while i < n
        invariant
            n == relevant_keys@.len(),
            keys == texts(relevant_keys@),
            i <= n,
            hits == hit_count(keys.take(i as int), texts(retrieved_keys@)),
            hits <= i,
        decreases n - i,
    {
        proof {
            assert(keys.take(i + 1).drop_last() =~= keys.take(i as int));
            assert(keys.take(i + 1).last() == relevant_keys@[i as int]@);
        }
        if contains_text(retrieved_keys, &relevant_keys[i]) {
            hits = hits + 1;
        }
        i = i + 1;
    }
    proof {
        assert(keys.take(n as int) =~= keys);
    }
    hits
}

/// Whether a corpus bullet with `key` was among the retrieved bullets:
/// some stored bullet id maps to `key` and was retrieved.
pub open spec fn was_retrieved(key: Seq<char>, id_keys: Seq<(i64, String)>, retrieved_ids: Seq<i64>) -> bool {
    exists|j: int| 0 <= j < id_keys.len() && #[trigger] id_keys[j].1@ == key && retrieved_ids.contains(id_keys[j].0)
}

fn contains_id(ids: &Vec<i64>, id: i64) -> (r: bool)
    ensures
        r == ids@.contains(id),
{
    let n = ids.len();
    let mut i: usize = 0;
    while i < n
        invariant
            n == ids@.len(),
            i <= n,
            forall|j: int| 0 <= j < i ==> ids@[j] != id,
        decreases n - i,
    {
        if ids[i] == id {
            return true;
        }
        i = i + 1;
    }
    false
}

/// Tells whether the bullet with `key` was already retrieved (and so already
/// judged) for the current query, given the stored (bullet id, key) pairs and
/// the ids that retrieval returned.
pub fn already_retrieved(key: &String, id_keys: &Vec<(i64, String)>, retrieved_ids: &Vec<i64>) -> (r: bool)
    ensures
        r == was_retrieved(key@, id_keys@, retrieved_ids@),
{
    let n = id_keys.len();
    let mut i: usize = 0;
    while i < n
        invariant
            n == id_keys@.len(),
            i <= n,
            forall|j: int| 0 <= j < i ==> !(#[trigger] id_keys@[j].1@ == key@ && retrieved_ids@.contains(id_keys@[j].0)),
        decreases n - i,
    {
        let (id, k) = &id_keys[i];
        if *k == *key && contains_id(retrieved_ids, *id) {
            return true;
        }
        i = i + 1;
    }
    false
}

} // verus!
