//! Results in descending order of their score, equal scores in the order in
//! which they came.

use crate::search::request::SearchResult;
use vstd::prelude::*;

verus! {

/// The results with `x` put in behind the last one whose score is at least its own.
pub open spec fn insert_by_score(sorted: Seq<SearchResult>, x: SearchResult) -> Seq<SearchResult>
    decreases sorted.len(),
{
    if sorted.len() == 0 || sorted.last().rank_score.key() >= x.rank_score.key() {
        sorted.push(x)
    } else {
        insert_by_score(sorted.drop_last(), x).push(sorted.last())
    }
}

/// The results in descending order of their score, equal scores in the order in
/// which they came.
pub open spec fn by_score(results: Seq<SearchResult>) -> Seq<SearchResult>
    decreases results.len(),
{
    if results.len() == 0 {
        Seq::empty()
    } else {
        insert_by_score(by_score(results.drop_last()), results.last())
    }
}

/// Whether no result scores less than one that comes after it.
pub open spec fn descending(results: Seq<SearchResult>) -> bool {
    forall|i: int, j: int|
        0 <= i < j < results.len() ==> results[i].rank_score.key() >= results[j].rank_score.key()
}

/// The results that score exactly `key`.
pub open spec fn scoring(results: Seq<SearchResult>, key: int) -> Seq<SearchResult> {
    results.filter(|r: SearchResult| r.rank_score.key() == key)
}

proof fn lemma_insert_by_score(sorted: Seq<SearchResult>, x: SearchResult)
    requires
        descending(sorted),
    ensures
        descending(insert_by_score(sorted, x)),
        insert_by_score(sorted, x).to_multiset() == sorted.push(x).to_multiset(),
        insert_by_score(sorted, x).len() == sorted.len() + 1,
        forall|key: int|
            #![trigger scoring(insert_by_score(sorted, x), key)]
            scoring(insert_by_score(sorted, x), key) == scoring(sorted.push(x), key),
        forall|i: int|
            0 <= i < insert_by_score(sorted, x).len() ==> insert_by_score(sorted, x)[i].rank_score.key()
                >= x.rank_score.key() || (sorted.len() > 0 && insert_by_score(
                sorted,
                x,
            )[i].rank_score.key() >= sorted.last().rank_score.key()),
    decreases sorted.len(),
{
    if sorted.len() > 0 && sorted.last().rank_score.key() < x.rank_score.key() {
        let init = sorted.drop_last();
        let last = sorted.last();
        lemma_insert_by_score(init, x);
        let inner = insert_by_score(init, x);
        vstd::seq_lib::to_multiset_build(inner, last);
        vstd::seq_lib::to_multiset_build(init.push(x), last);
        vstd::seq_lib::to_multiset_build(init, x);
        vstd::seq_lib::to_multiset_build(init, last);
        vstd::seq_lib::to_multiset_build(sorted, x);
        assert(sorted =~= init.push(last));
        assert(init.to_multiset().insert(x).insert(last) =~= init.to_multiset().insert(last).insert(
            x,
        ));
        assert forall|key: int| scoring(inner.push(last), key) == scoring(sorted.push(x), key) by {
            let pred = |r: SearchResult| r.rank_score.key() == key;
            assert(scoring(inner, key) == scoring(init.push(x), key));
            lemma_filter_push(inner, last, pred);
            lemma_filter_push(init, x, pred);
            lemma_filter_push(init, last, pred);
            lemma_filter_push(sorted, x, pred);
        }
    }
}

proof fn lemma_filter_push<A>(s: Seq<A>, x: A, pred: spec_fn(A) -> bool)
    ensures
        s.push(x).filter(pred) == if pred(x) {
            s.filter(pred).push(x)
        } else {
            s.filter(pred)
        },
{
    reveal(Seq::filter);
    assert(s.push(x).drop_last() =~= s);
}

/// Sorting neither loses nor adds a result, no result scores less than one that
/// comes after it, and results of one score keep their order.
pub proof fn sorting_is_stable_and_descending(results: Seq<SearchResult>)
    ensures
        descending(by_score(results)),
        by_score(results).to_multiset() == results.to_multiset(),
        by_score(results).len() == results.len(),
        forall|key: int| #[trigger] scoring(by_score(results), key) == scoring(results, key),
    decreases results.len(),
{
    if results.len() > 0 {
        let init = results.drop_last();
        let x = results.last();
        sorting_is_stable_and_descending(init);
        lemma_insert_by_score(by_score(init), x);
        assert(results =~= init.push(x));
        vstd::seq_lib::to_multiset_build(init, x);
        vstd::seq_lib::to_multiset_build(by_score(init), x);
        assert forall|key: int| #[trigger] scoring(by_score(results), key) == scoring(results, key) by {
            let pred = |r: SearchResult| r.rank_score.key() == key;
            lemma_filter_push(by_score(init), x, pred);
            lemma_filter_push(init, x, pred);
            assert(scoring(by_score(init), key) == scoring(init, key));
            assert(scoring(insert_by_score(by_score(init), x), key) == scoring(
                by_score(init).push(x),
                key,
            ));
        }
    } else {
        assert(results =~= Seq::empty());
    }
}

/// The results in descending order of their score, equal scores in the order in
/// which they came.
pub fn sort_by_score(results: Vec<SearchResult>) -> (r: Vec<SearchResult>)
    ensures
        r@ == by_score(results@),
{
    let mut out: Vec<SearchResult> = Vec::new();
    let ghost all = results@;
    for x in it: results
        invariant
            it.seq() == all,
            out@ == by_score(all.take(it.index())),
    {
        let ghost before = out@;
        let mut k: usize = out.len();
        assert(out@.take(k as int) =~= before);
        assert(out@.skip(k as int) =~= Seq::empty());
        assert(insert_by_score(before, x) =~= insert_by_score(before, x) + Seq::empty());
        while k > 0 && out[k - 1].rank_score.less_than(&x.rank_score)
            invariant
                k <= out.len(),
                out@ == before,
                insert_by_score(before, x) == insert_by_score(before.take(k as int), x)
                    + before.skip(k as int),
            decreases k,
        {
            proof {
                let now = before.take(k as int);
                assert(now.last() == before[k - 1]);
                assert(now.drop_last() =~= before.take(k - 1));
                assert(insert_by_score(before.take(k - 1), x).push(before[k - 1]) + before.skip(
                    k as int,
                ) =~= insert_by_score(before.take(k - 1), x) + before.skip(k - 1));
            }
            k = k - 1;
        }
        out.insert(k, x);
        proof {
            let now = before.take(k as int);
            if k > 0 {
                assert(now.last() == before[k - 1]);
            }
            assert(insert_by_score(now, x) == now.push(x));
            assert(before.insert(k as int, x) =~= now.push(x) + before.skip(k as int));
            let i = it.index();
            assert(all.take(i + 1).drop_last() =~= all.take(i));
            assert(all.take(i + 1).last() == x);
        }
    }
    assert(all.take(all.len() as int) =~= all);
    out
}

} // verus!
