//! The scanner's guarantees, stated and proved once over the ranking
//! function that `scan_opportunities` is specified against.

use vstd::prelude::*;

use crate::group::{distinct_ids, lemma_grouped_quote_origin, quotes_with_id};
use crate::model::{OppView, QuoteView};
use crate::rank::{lemma_sort_desc_contains, lemma_sort_desc_sorted, sort_desc};
use crate::scanner::{
    candidates, cands_upto, group_cands, pair_opp, qualifies, ranked, row_cands,
};

verus! {

/// An element of a concatenation comes from one of the halves.
proof fn lemma_add_contains(a: Seq<OppView>, b: Seq<OppView>, y: OppView)
    requires
        (a + b).contains(y),
    ensures
        a.contains(y) || b.contains(y),
{
    let i = choose|i: int| 0 <= i < (a + b).len() && (a + b)[i] == y;
    if i < a.len() {
        assert(a[i] == y);
    } else {
        assert(b[i - a.len()] == y);
    }
}

/// Every candidate in a row comes from a qualifying sell quote of the bucket.
proof fn lemma_row_cands_origin(
    rate: int,
    min_roi: int,
    b: QuoteView,
    g: Seq<QuoteView>,
    j: int,
    y: OppView,
)
    requires
        row_cands(rate, min_roi, b, g, j).contains(y),
    ensures
        exists|jj: int|
            0 <= jj < j && qualifies(rate, min_roi, b, #[trigger] g[jj]) && y == pair_opp(
                rate,
                b,
                g[jj],
            ),
    decreases j,
{
    let r = row_cands(rate, min_roi, b, g, j);
    if j <= 0 {
        assert(false);
    } else {
        let p = row_cands(rate, min_roi, b, g, j - 1);
        if qualifies(rate, min_roi, b, g[j - 1]) {
            if y == pair_opp(rate, b, g[j - 1]) {
                assert(0 <= j - 1 < j && qualifies(rate, min_roi, b, g[j - 1]) && y == pair_opp(
                    rate,
                    b,
                    g[j - 1],
                ));
            } else {
                let i = choose|i: int| 0 <= i < r.len() && r[i] == y;
                assert(p[i] == y);
                assert(p.contains(y));
                lemma_row_cands_origin(rate, min_roi, b, g, j - 1, y);
            }
        } else {
            lemma_row_cands_origin(rate, min_roi, b, g, j - 1, y);
        }
    }
}

/// Every candidate of a bucket comes from a qualifying pair of its quotes.
proof fn lemma_group_cands_origin(
    rate: int,
    min_roi: int,
    g: Seq<QuoteView>,
    i: int,
    y: OppView,
)
    requires
        group_cands(rate, min_roi, g, i).contains(y),
    ensures
        exists|bb: int, ss: int|
            0 <= bb < i && 0 <= ss < g.len() && qualifies(
                rate,
                min_roi,
                #[trigger] g[bb],
                #[trigger] g[ss],
            ) && y == pair_opp(rate, g[bb], g[ss]),
    decreases i,
{
    if i <= 0 {
        assert(false);
    } else {
        let p = group_cands(rate, min_roi, g, i - 1);
        let row = row_cands(rate, min_roi, g[i - 1], g, g.len() as int);
        lemma_add_contains(p, row, y);
        if p.contains(y) {
            lemma_group_cands_origin(rate, min_roi, g, i - 1, y);
        } else {
            lemma_row_cands_origin(rate, min_roi, g[i - 1], g, g.len() as int, y);
            let jj = choose|jj: int|
                0 <= jj < g.len() && qualifies(rate, min_roi, g[i - 1], #[trigger] g[jj]) && y
                    == pair_opp(rate, g[i - 1], g[jj]);
            assert(0 <= i - 1 < i && 0 <= jj < g.len() && qualifies(
                rate,
                min_roi,
                g[i - 1],
                g[jj],
            ) && y == pair_opp(rate, g[i - 1], g[jj]));
        }
    }
}

/// Every candidate of the snapshot comes from a qualifying pair of input
/// quotes of one item.
proof fn lemma_cands_origin(
    rate: int,
    min_roi: int,
    qs: Seq<QuoteView>,
    ids: Seq<Seq<char>>,
    k: int,
    y: OppView,
)
    requires
        cands_upto(rate, min_roi, qs, ids, k).contains(y),
    ensures
        exists|b: QuoteView, s: QuoteView|
            #[trigger] qs.contains(b) && #[trigger] qs.contains(s) && b.item_id == s.item_id
                && qualifies(rate, min_roi, b, s) && y == pair_opp(rate, b, s),
    decreases k,
{
    if k <= 0 {
        assert(false);
    } else {
        let p = cands_upto(rate, min_roi, qs, ids, k - 1);
        let g = quotes_with_id(qs, ids[k - 1]);
        lemma_add_contains(p, group_cands(rate, min_roi, g, g.len() as int), y);
        if p.contains(y) {
            lemma_cands_origin(rate, min_roi, qs, ids, k - 1, y);
        } else {
            lemma_group_cands_origin(rate, min_roi, g, g.len() as int, y);
            let (bb, ss) = choose|bb: int, ss: int|
                0 <= bb < g.len() && 0 <= ss < g.len() && qualifies(
                    rate,
                    min_roi,
                    #[trigger] g[bb],
                    #[trigger] g[ss],
                ) && y == pair_opp(rate, g[bb], g[ss]);
            assert(g.contains(g[bb]));
            assert(g.contains(g[ss]));
            lemma_grouped_quote_origin(qs, ids[k - 1], g[bb]);
            lemma_grouped_quote_origin(qs, ids[k - 1], g[ss]);
            assert(qs.contains(g[bb]) && qs.contains(g[ss]) && g[bb].item_id == g[ss].item_id
                && qualifies(rate, min_roi, g[bb], g[ss]) && y == pair_opp(rate, g[bb], g[ss]));
        }
    }
}

/// Every ranked opportunity arises from a qualifying pair of input quotes:
/// two quotes of the same item in different cities, live prices on the two
/// sides used, a positive tradable quantity, and an ROI at or above the
/// threshold.
pub proof fn lemma_ranked_origin(
    rate: int,
    qs: Seq<QuoteView>,
    min_roi: int,
    max_results: int,
    i: int,
)
    requires
        0 <= max_results,
        0 <= i < ranked(rate, qs, min_roi, max_results).len(),
    ensures
        exists|b: QuoteView, s: QuoteView|
            #[trigger] qs.contains(b) && #[trigger] qs.contains(s) && b.item_id == s.item_id
                && qualifies(rate, min_roi, b, s) && ranked(rate, qs, min_roi, max_results)[i]
                == pair_opp(rate, b, s),
{
    let cands = candidates(rate, min_roi, qs);
    let sorted = sort_desc(cands);
    let y = ranked(rate, qs, min_roi, max_results)[i];
    if max_results < sorted.len() {
        assert(ranked(rate, qs, min_roi, max_results) == sorted.take(max_results));
        assert(sorted.take(max_results)[i] == sorted[i]);
    } else {
        assert(ranked(rate, qs, min_roi, max_results) == sorted);
    }
    assert(y == sorted[i]);
    assert(sorted.contains(y));
    lemma_sort_desc_contains(cands, y);
    lemma_cands_origin(rate, min_roi, qs, distinct_ids(qs), distinct_ids(qs).len() as int, y);
}

/// No self-pairing: a ranked opportunity never buys and sells in the same
/// city.
pub proof fn law_no_self_pairing(rate: int, qs: Seq<QuoteView>, min_roi: int, max_results: int)
    requires
        0 <= max_results,
    ensures
        forall|i: int|
            0 <= i < ranked(rate, qs, min_roi, max_results).len() ==> #[trigger] ranked(
                rate,
                qs,
                min_roi,
                max_results,
            )[i].buy_city != ranked(rate, qs, min_roi, max_results)[i].sell_city,
{
    assert forall|i: int| 0 <= i < ranked(rate, qs, min_roi, max_results).len() implies #[trigger]
    ranked(rate, qs, min_roi, max_results)[i].buy_city != ranked(
        rate,
        qs,
        min_roi,
        max_results,
    )[i].sell_city by {
        lemma_ranked_origin(rate, qs, min_roi, max_results, i);
    }
}

/// Monotonic ROI filter: every ranked opportunity meets the caller's ROI
/// threshold.
pub proof fn law_roi_filter(rate: int, qs: Seq<QuoteView>, min_roi: int, max_results: int)
    requires
        0 <= max_results,
    ensures
        forall|i: int|
            0 <= i < ranked(rate, qs, min_roi, max_results).len() ==> #[trigger] ranked(
                rate,
                qs,
                min_roi,
                max_results,
            )[i].roi >= min_roi,
{
    assert forall|i: int| 0 <= i < ranked(rate, qs, min_roi, max_results).len() implies #[trigger]
    ranked(rate, qs, min_roi, max_results)[i].roi >= min_roi by {
        lemma_ranked_origin(rate, qs, min_roi, max_results, i);
    }
}

/// Result cap: the ranked sequence never exceeds the requested count.
pub proof fn law_result_cap(rate: int, qs: Seq<QuoteView>, min_roi: int, max_results: int)
    requires
        0 <= max_results,
    ensures
        ranked(rate, qs, min_roi, max_results).len() <= max_results,
{
}

/// Descending order: adjacent ranked opportunities never increase in ROI.
pub proof fn law_descending_order(rate: int, qs: Seq<QuoteView>, min_roi: int, max_results: int)
    requires
        0 <= max_results,
    ensures
        forall|i: int|
            0 <= i && i + 1 < ranked(rate, qs, min_roi, max_results).len() ==> #[trigger] ranked(
                rate,
                qs,
                min_roi,
                max_results,
            )[i].roi >= ranked(rate, qs, min_roi, max_results)[i + 1].roi,
{
    let cands = candidates(rate, min_roi, qs);
    lemma_sort_desc_sorted(cands);
    assert forall|i: int| 0 <= i && i + 1 < ranked(rate, qs, min_roi, max_results).len() implies
    #[trigger] ranked(rate, qs, min_roi, max_results)[i].roi >= ranked(
        rate,
        qs,
        min_roi,
        max_results,
    )[i + 1].roi by {
        let sorted = sort_desc(cands);
        if max_results < sorted.len() {
            assert(ranked(rate, qs, min_roi, max_results) == sorted.take(max_results));
            assert(sorted.take(max_results)[i] == sorted[i]);
            assert(sorted.take(max_results)[i + 1] == sorted[i + 1]);
        } else {
            assert(ranked(rate, qs, min_roi, max_results) == sorted);
        }
        assert(ranked(rate, qs, min_roi, max_results)[i] == sorted[i]);
        assert(ranked(rate, qs, min_roi, max_results)[i + 1] == sorted[i + 1]);
    }
}

/// Positive sides: a quote with no buy price is never used as a buy side,
/// one with no sell price never as a sell side, and nothing is traded in
/// zero quantity — so every ranked opportunity carries positive prices and
/// a positive quantity.
pub proof fn law_positive_sides(rate: int, qs: Seq<QuoteView>, min_roi: int, max_results: int)
    requires
        0 <= max_results,
    ensures
        forall|i: int|
            0 <= i < ranked(rate, qs, min_roi, max_results).len() ==> (#[trigger] ranked(
                rate,
                qs,
                min_roi,
                max_results,
            )[i].buy_price > 0 && ranked(rate, qs, min_roi, max_results)[i].sell_price > 0
                && ranked(rate, qs, min_roi, max_results)[i].quantity > 0),
{
    assert forall|i: int| 0 <= i < ranked(rate, qs, min_roi, max_results).len() implies (
    #[trigger] ranked(rate, qs, min_roi, max_results)[i].buy_price > 0 && ranked(
        rate,
        qs,
        min_roi,
        max_results,
    )[i].sell_price > 0 && ranked(rate, qs, min_roi, max_results)[i].quantity > 0) by {
        lemma_ranked_origin(rate, qs, min_roi, max_results, i);
    }
}

/// Zero-quantity exclusion: an item whose every cross-city pair has no
/// tradable quantity yields no opportunity.
pub proof fn law_zero_quantity_exclusion(
    rate: int,
    qs: Seq<QuoteView>,
    min_roi: int,
    max_results: int,
    item: Seq<char>,
)
    requires
        0 <= max_results,
        forall|b: QuoteView, s: QuoteView|
            #[trigger] qs.contains(b) && #[trigger] qs.contains(s) && b.item_id == item
                && s.item_id == item && b.city != s.city ==> vstd::math::min(
                b.quantity,
                s.quantity,
            ) == 0,
    ensures
        forall|i: int|
            0 <= i < ranked(rate, qs, min_roi, max_results).len() ==> #[trigger] ranked(
                rate,
                qs,
                min_roi,
                max_results,
            )[i].item_id != item,
{
    assert forall|i: int| 0 <= i < ranked(rate, qs, min_roi, max_results).len() implies #[trigger]
    ranked(rate, qs, min_roi, max_results)[i].item_id != item by {
        lemma_ranked_origin(rate, qs, min_roi, max_results, i);
        let (b, s) = choose|b: QuoteView, s: QuoteView|
            #[trigger] qs.contains(b) && #[trigger] qs.contains(s) && b.item_id == s.item_id
                && qualifies(rate, min_roi, b, s) && ranked(rate, qs, min_roi, max_results)[i]
                == pair_opp(rate, b, s);
        if ranked(rate, qs, min_roi, max_results)[i].item_id == item {
            assert(b.item_id == item && s.item_id == item);
            assert(vstd::math::min(b.quantity, s.quantity) == 0);
            assert(false);
        }
    }
}

/// Cost decomposition identity: for every ranked opportunity, the profit is
/// the net revenue minus the total cost, each leg's tax being the combined
/// per-mille rate applied to that leg's transaction value, with money at
/// the 1000x scale.
pub proof fn law_cost_decomposition(rate: int, qs: Seq<QuoteView>, min_roi: int, max_results: int)
    requires
        0 <= max_results,
    ensures
        forall|i: int|
            0 <= i < ranked(rate, qs, min_roi, max_results).len() ==> {
                let o = #[trigger] ranked(rate, qs, min_roi, max_results)[i];
                o.profit == (o.sell_price * o.quantity * 1000 - o.sell_price * o.quantity * rate)
                    - (o.buy_price * o.quantity * 1000 + o.buy_price * o.quantity * rate
                    + o.transport_cost * 1000) && o.taxes == o.buy_price * o.quantity * rate
                    + o.sell_price * o.quantity * rate
            },
{
    assert forall|i: int| 0 <= i < ranked(rate, qs, min_roi, max_results).len() implies {
        let o = #[trigger] ranked(rate, qs, min_roi, max_results)[i];
        o.profit == (o.sell_price * o.quantity * 1000 - o.sell_price * o.quantity * rate) - (
        o.buy_price * o.quantity * 1000 + o.buy_price * o.quantity * rate + o.transport_cost
            * 1000) && o.taxes == o.buy_price * o.quantity * rate + o.sell_price * o.quantity
            * rate
    } by {
        lemma_ranked_origin(rate, qs, min_roi, max_results, i);
    }
}

} // verus!
