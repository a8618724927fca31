//! Grouping: partition the flat quote list into per-item buckets.
//!
//! The buckets are keyed by item identifier, in order of each identifier's
//! first occurrence, and each bucket keeps its quotes in input order.  This
//! fixed order is what makes the scan's tie-break ("stable by discovery
//! order") deterministic.

use vstd::prelude::*;

use crate::model::{MarketData, QuoteView, quote_views, str_views};

verus! {

/// The distinct item identifiers of `qs`, in order of first occurrence.
pub open spec fn distinct_ids(qs: Seq<QuoteView>) -> Seq<Seq<char>>
    decreases qs.len(),
{
    if qs.len() == 0 {
        Seq::empty()
    } else {
        let p = distinct_ids(qs.drop_last());
        if p.contains(qs.last().item_id) {
            p
        } else {
            p.push(qs.last().item_id)
        }
    }
}

/// The quotes of `qs` with item identifier `id`, in input order.
pub open spec fn quotes_with_id(qs: Seq<QuoteView>, id: Seq<char>) -> Seq<QuoteView>
    decreases qs.len(),
{
    if qs.len() == 0 {
        Seq::empty()
    } else {
        let p = quotes_with_id(qs.drop_last(), id);
        if qs.last().item_id == id {
            p.push(qs.last())
        } else {
            p
        }
    }
}

/// The identifier list never repeats an identifier.
pub proof fn lemma_distinct_ids_no_dup(qs: Seq<QuoteView>)
    ensures
        forall|k1: int, k2: int|
            0 <= k1 < k2 < distinct_ids(qs).len() ==> #[trigger] distinct_ids(qs)[k1]
                != #[trigger] distinct_ids(qs)[k2],
    decreases qs.len(),
{
    if qs.len() > 0 {
        lemma_distinct_ids_no_dup(qs.drop_last());
        let p = distinct_ids(qs.drop_last());
        if !p.contains(qs.last().item_id) {
            assert forall|k1: int, k2: int|
                0 <= k1 < k2 < distinct_ids(qs).len() implies #[trigger] distinct_ids(qs)[k1]
                != #[trigger] distinct_ids(qs)[k2] by {
                if k2 == p.len() {
                    assert(p.contains(p[k1]));
                }
            }
        }
    }
}

/// An identifier that the list does not hold has no quotes.
pub proof fn lemma_unlisted_id_has_no_quotes(qs: Seq<QuoteView>, id: Seq<char>)
    requires
        !distinct_ids(qs).contains(id),
    ensures
        quotes_with_id(qs, id) == Seq::<QuoteView>::empty(),
    decreases qs.len(),
{
    if qs.len() > 0 {
        let p = distinct_ids(qs.drop_last());
        // distinct_ids(qs) extends p, so id is absent from p as well
        if p.contains(id) {
            let k = choose|k: int| 0 <= k < p.len() && p[k] == id;
            assert(distinct_ids(qs)[k] == id);
            assert(false);
        }
        // and the last quote's identifier is in distinct_ids(qs)
        if qs.last().item_id == id {
            if p.contains(qs.last().item_id) {
            } else {
                assert(distinct_ids(qs).last() == id);
            }
            assert(false);
        }
        lemma_unlisted_id_has_no_quotes(qs.drop_last(), id);
    }
}

/// A grouped quote comes from the input and bears the bucket's identifier.
pub proof fn lemma_grouped_quote_origin(qs: Seq<QuoteView>, id: Seq<char>, q: QuoteView)
    requires
        quotes_with_id(qs, id).contains(q),
    ensures
        qs.contains(q),
        q.item_id == id,
    decreases qs.len(),
{
    if qs.len() > 0 {
        let p = quotes_with_id(qs.drop_last(), id);
        if qs.last().item_id == id && q == qs.last() {
            assert(qs[qs.len() - 1] == q);
        } else {
            let r = quotes_with_id(qs, id);
            let i = choose|i: int| 0 <= i < r.len() && r[i] == q;
            if qs.last().item_id == id {
                assert(r == p.push(qs.last()));
                assert(i < p.len());
                assert(p[i] == q);
            }
            assert(p.contains(q));
            lemma_grouped_quote_origin(qs.drop_last(), id, q);
            let j = choose|j: int| 0 <= j < qs.drop_last().len() && qs.drop_last()[j] == q;
            assert(qs[j] == q);
        }
    }
}

impl Clone for MarketData {
    /// A quote is a value object: its copy carries the same fields.
    fn clone(&self) -> (r: Self)
        ensures
            r == *self,
    {
        MarketData {
            item_id: self.item_id.clone(),
            item_name: self.item_name.clone(),
            city: self.city.clone(),
            buy_price: self.buy_price,
            sell_price: self.sell_price,
            quantity: self.quantity,
        }
    }
}

/// The position of the first string with the contents of `s`, if any.
fn find_str(ids: &Vec<String>, s: &String) -> (r: Option<usize>)
    ensures
        match r {
            Some(j) => j < ids@.len() && ids@[j as int]@ == s@,
            None => forall|k: int| 0 <= k < ids@.len() ==> #[trigger] ids@[k]@ != s@,
        },
{
    let mut j: usize = 0;
    while j < ids.len()
        invariant
            j <= ids.len(),
            forall|k: int| 0 <= k < j ==> #[trigger] ids@[k]@ != s@,
        decreases ids.len() - j,
    {
        if ids[j] == *s {
            return Some(j);
        }
        j += 1;
    }
    None
}

/// Partition the quote list into per-item buckets.
///
/// Returns the distinct item identifiers in order of first occurrence, and,
/// for each, the bucket of all quotes bearing it, in input order.  No
/// filtering happens here: quotes with non-positive prices are still
/// grouped, and are disqualified only during evaluation.
pub fn group_by_item(quotes: &Vec<MarketData>) -> (r: (Vec<String>, Vec<Vec<MarketData>>))
    ensures
        str_views(r.0@) == distinct_ids(quote_views(quotes@)),
        r.1@.len() == r.0@.len(),
        forall|k: int|
            0 <= k < r.1@.len() ==> quote_views(#[trigger] r.1@[k]@) == quotes_with_id(
                quote_views(quotes@),
                str_views(r.0@)[k],
            ),
{
    let ghost qv = quote_views(quotes@);
    let mut ids: Vec<String> = Vec::new();
    let mut groups: Vec<Vec<MarketData>> = Vec::new();
    let mut i: usize = 0;
    while i < quotes.len()
        invariant
            i <= quotes.len(),
            qv == quote_views(quotes@),
            str_views(ids@) == distinct_ids(qv.take(i as int)),
            groups@.len() == ids@.len(),
            forall|k: int|
                0 <= k < groups@.len() ==> quote_views(#[trigger] groups@[k]@) == quotes_with_id(
                    qv.take(i as int),
                    str_views(ids@)[k],
                ),
        decreases quotes.len() - i,
    {
        let q = &quotes[i];
        proof {
            assert(qv.take(i + 1).drop_last() =~= qv.take(i as int));
            assert(qv.take(i + 1).last() == q@);
            lemma_distinct_ids_no_dup(qv.take(i as int));
        }
        match find_str(&ids, &q.item_id) {
            Some(j) => {
                proof {
                    // the identifier is already listed, so the list is unchanged
                    assert(distinct_ids(qv.take(i as int)).contains(q.item_id@)) by {
                        assert(str_views(ids@)[j as int] == q.item_id@);
                    }
                    assert(distinct_ids(qv.take(i + 1)) == str_views(ids@));
                }
                let ghost old_groups = groups@;
                let cloned = q.clone();
                let gj = &mut groups[j];
                gj.push(cloned);
                proof {
                    assert forall|k: int| 0 <= k < groups@.len() implies quote_views(
                        #[trigger] groups@[k]@,
                    ) == quotes_with_id(qv.take(i + 1), str_views(ids@)[k]) by {
                        if k == j {
                            assert(quote_views(groups@[k]@) =~= quote_views(old_groups[k]@).push(
                                q@,
                            ));
                        } else {
                            // distinct identifiers: the other buckets see no new quote
                            assert(str_views(ids@)[k] != str_views(ids@)[j as int]);
                            assert(groups@[k]@ == old_groups[k]@);
                        }
                    }
                }
            },
            None => {
                proof {
                    // the identifier is new: it gets appended, with a fresh bucket
                    if distinct_ids(qv.take(i as int)).contains(q.item_id@) {
                        let k = choose|k: int|
                            0 <= k < str_views(ids@).len() && str_views(ids@)[k] == q.item_id@;
                        assert(ids@[k]@ == q.item_id@);
                        assert(false);
                    }
                    lemma_unlisted_id_has_no_quotes(qv.take(i as int), q.item_id@);
                }
                let ghost old_ids = ids@;
                let ghost old_groups = groups@;
                ids.push(q.item_id.clone());
                let mut bucket: Vec<MarketData> = Vec::new();
                bucket.push(q.clone());
                groups.push(bucket);
                proof {
                    assert(str_views(ids@) =~= distinct_ids(qv.take(i + 1)));
                    assert forall|k: int| 0 <= k < groups@.len() implies quote_views(
                        #[trigger] groups@[k]@,
                    ) == quotes_with_id(qv.take(i + 1), str_views(ids@)[k]) by {
                        if k < old_groups.len() {
                            assert(groups@[k]@ == old_groups[k]@);
                            assert(str_views(ids@)[k] == str_views(old_ids)[k]);
                            assert(str_views(old_ids)[k] != q.item_id@) by {
                                assert(old_ids[k]@ != q.item_id@);
                            }
                        } else {
                            assert(str_views(ids@)[k] == q.item_id@);
                            assert(quote_views(groups@[k]@) =~= Seq::<QuoteView>::empty().push(
                                q@,
                            ));
                        }
                    }
                }
            },
        }
        i += 1;
    }
    proof {
        assert(qv.take(quotes@.len() as int) =~= qv);
    }
    (ids, groups)
}

} // verus!
