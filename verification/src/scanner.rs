//! The scanner configuration and the cost/revenue model that prices one
//! (buy quote, sell quote) pair.

use vstd::prelude::*;
use vstd::arithmetic::div_mod::{lemma_div_nonincreasing, lemma_div_pos_is_pos};

use crate::group::{distinct_ids, group_by_item, quotes_with_id};
use crate::model::{
    MarketData, OppView, QuoteView, TradeOpportunity, opp_views, quote_views, roi_milli, str_views,
};
use crate::rank::{insert_desc, insert_ranked, sort_desc};
use crate::transport::{city_distance, transport_cost};

verus! {

/// The arbitrage scanner: holds the fixed transaction-charge rates, in
/// per-mille (thousandths of the transaction value).  Both rates are applied
/// to the buy leg and to the sell leg of every candidate trade.
pub struct TradeScanner {
    pub market_tax: u32,
    pub setup_fee: u32,
}

/// The full cost/revenue breakdown for one candidate pair, with money
/// amounts at the 1000x scale so that per-mille charges stay exact:
/// purchase cost plus buy-side charges plus transport make the total cost;
/// sale revenue minus sell-side charges makes the net revenue; their
/// difference is the profit, and the ROI is their ratio in milli-percent.
pub open spec fn opp_of(
    rate: int,
    item_id: Seq<char>,
    item_name: Seq<char>,
    buy_city: Seq<char>,
    sell_city: Seq<char>,
    buy_price: int,
    sell_price: int,
    quantity: int,
) -> OppView {
    let buy_total = buy_price * quantity;
    let buy_taxes = buy_total * rate;
    let transport = transport_cost(buy_city, sell_city, quantity);
    let total_cost = buy_total * 1000 + buy_taxes + transport * 1000;
    let sell_total = sell_price * quantity;
    let sell_taxes = sell_total * rate;
    let net_revenue = sell_total * 1000 - sell_taxes;
    let profit = net_revenue - total_cost;
    OppView {
        item_id: item_id,
        item_name: item_name,
        buy_city: buy_city,
        sell_city: sell_city,
        buy_price: buy_price,
        sell_price: sell_price,
        quantity: quantity,
        profit: profit,
        roi: roi_milli(profit, total_cost),
        taxes: buy_taxes + sell_taxes,
        transport_cost: transport,
    }
}

impl TradeScanner {
    /// The rates are meaningful only up to 100% of the transaction value.
    pub open spec fn wf(&self) -> bool {
        self.market_tax + self.setup_fee <= 1000
    }

    /// The combined per-mille charge applied to each leg of a trade.
    pub open spec fn rate_pm(&self) -> int {
        self.market_tax + self.setup_fee
    }

    /// A scanner with the default rates: 4.5% market tax, 1.5% setup fee.
    pub fn new() -> (s: TradeScanner)
        ensures
            s.wf(),
            s.market_tax == 45,
            s.setup_fee == 15,
    {
        TradeScanner { market_tax: 45, setup_fee: 15 }
    }

    /// A scanner with caller-chosen per-mille rates.
    pub fn with_rates(market_tax_pm: u32, setup_fee_pm: u32) -> (s: TradeScanner)
        requires
            market_tax_pm + setup_fee_pm <= 1000,
        ensures
            s.wf(),
            s.market_tax == market_tax_pm,
            s.setup_fee == setup_fee_pm,
    {
        TradeScanner { market_tax: market_tax_pm, setup_fee: setup_fee_pm }
    }

    /// Estimated shipping cost between two cities for a traded quantity,
    /// from the fixed zone-distance table.
    pub fn estimate_transport_cost(&self, from_city: &str, to_city: &str, quantity: u32) -> (c:
        u64)
        ensures
            c == transport_cost(from_city@, to_city@, quantity as int),
    {
        let dist: u64 = city_distance(from_city, to_city);
        let w: u64 = if quantity >= 100 {
            quantity as u64
        } else {
            100
        };
        proof {
            assert(w == vstd::math::max(quantity as int, 100));
            assert((dist as int) * (w as int) <= 12 * 0xffff_ffff) by (nonlinear_arith)
                requires
                    dist <= 12,
                    w <= 0xffff_ffff,
            ;
        }
        dist * w
    }

    /// Price one candidate pair: buy `quantity` units of the item at
    /// `buy_price` in `buy_city`, ship them to `sell_city`, sell them at
    /// `sell_price`.  The result is exactly the cost/revenue breakdown of
    /// [`opp_of`]; unprofitable pairs are a valid result, not an error.
    pub fn calculate_opportunity(
        &self,
        item_id: String,
        item_name: String,
        buy_city: String,
        sell_city: String,
        buy_price: u64,
        sell_price: u64,
        quantity: u32,
    ) -> (o: TradeOpportunity)
        requires
            self.wf(),
        ensures
            o@ == opp_of(
                self.rate_pm(),
                item_id@,
                item_name@,
                buy_city@,
                sell_city@,
                buy_price as int,
                sell_price as int,
                quantity as int,
            ),
    {
        let qty: u128 = quantity as u128;
        let rate: u128 = (self.market_tax + self.setup_fee) as u128;

        proof {
            assert((buy_price as int) * (qty as int) <= 0xffff_ffff_ffff_ffff * 0xffff_ffff)
                by (nonlinear_arith)
                requires
                    buy_price <= 0xffff_ffff_ffff_ffffu64,
                    qty <= 0xffff_ffff,
            ;
        }
        let buy_total: u128 = (buy_price as u128) * qty;
        proof {
            assert(buy_total * rate <= (0xffff_ffff_ffff_ffff * 0xffff_ffff) * 1000)
                by (nonlinear_arith)
                requires
                    buy_total <= 0xffff_ffff_ffff_ffff * 0xffff_ffff,
                    rate <= 1000,
            ;
        }
        let buy_taxes: u128 = buy_total * rate;

        let transport: u64 = self.estimate_transport_cost(
            buy_city.as_str(),
            sell_city.as_str(),
            quantity,
        );

        let total_cost: u128 = buy_total * 1000 + buy_taxes + (transport as u128) * 1000;

        proof {
            assert((sell_price as int) * (qty as int) <= 0xffff_ffff_ffff_ffff * 0xffff_ffff)
                by (nonlinear_arith)
                requires
                    sell_price <= 0xffff_ffff_ffff_ffffu64,
                    qty <= 0xffff_ffff,
            ;
        }
        let sell_total: u128 = (sell_price as u128) * qty;
        proof {
            assert(sell_total * rate <= sell_total * 1000 <= (0xffff_ffff_ffff_ffff * 0xffff_ffff)
                * 1000) by (nonlinear_arith)
                requires
                    sell_total <= 0xffff_ffff_ffff_ffff * 0xffff_ffff,
                    rate <= 1000,
            ;
        }
        let sell_taxes: u128 = sell_total * rate;
        let net_revenue: u128 = sell_total * 1000 - sell_taxes;

        let profit: i128 = (net_revenue as i128) - (total_cost as i128);

        let roi: i128 = if total_cost > 0 {
            if profit >= 0 {
                let num: u128 = (profit as u128) * 100000;
                proof {
                    lemma_div_pos_is_pos(num as int, total_cost as int);
                    lemma_div_nonincreasing(num as int, total_cost as int);
                }
                (num / total_cost) as i128
            } else {
                let mag: u128 = (-profit) as u128;
                let num: u128 = mag * 100000;
                proof {
                    lemma_div_pos_is_pos(num as int, total_cost as int);
                    lemma_div_nonincreasing(num as int, total_cost as int);
                }
                -((num / total_cost) as i128)
            }
        } else {
            0
        };

        let taxes: u128 = buy_taxes + sell_taxes;
        TradeOpportunity {
            item_id,
            item_name,
            buy_city,
            sell_city,
            buy_price,
            sell_price,
            quantity,
            profit,
            roi,
            taxes,
            transport_cost: transport,
        }
    }
}

/// The opportunity a (buy quote, sell quote) pair yields, trading the
/// smaller of the two available quantities.
pub open spec fn pair_opp(rate: int, b: QuoteView, s: QuoteView) -> OppView {
    opp_of(
        rate,
        b.item_id,
        b.item_name,
        b.city,
        s.city,
        b.buy_price,
        s.sell_price,
        vstd::math::min(b.quantity, s.quantity),
    )
}

/// Whether a (buy quote, sell quote) pair yields a reportable opportunity:
/// distinct cities, a live price on each side, a positive tradable
/// quantity, and an ROI at or above the caller's threshold.
pub open spec fn qualifies(rate: int, min_roi: int, b: QuoteView, s: QuoteView) -> bool {
    &&& b.city != s.city
    &&& b.buy_price > 0
    &&& s.sell_price > 0
    &&& vstd::math::min(b.quantity, s.quantity) > 0
    &&& pair_opp(rate, b, s).roi >= min_roi
}

/// The qualifying opportunities of buy quote `b` against the first `j`
/// quotes of its bucket, in bucket order.
pub open spec fn row_cands(
    rate: int,
    min_roi: int,
    b: QuoteView,
    g: Seq<QuoteView>,
    j: int,
) -> Seq<OppView>
    decreases j,
{
    if j <= 0 {
        Seq::empty()
    } else {
        let p = row_cands(rate, min_roi, b, g, j - 1);
        if qualifies(rate, min_roi, b, g[j - 1]) {
            p.push(pair_opp(rate, b, g[j - 1]))
        } else {
            p
        }
    }
}

/// The qualifying opportunities of a bucket's first `i` buy quotes, each
/// paired against the whole bucket.
pub open spec fn group_cands(rate: int, min_roi: int, g: Seq<QuoteView>, i: int) -> Seq<OppView>
    decreases i,
{
    if i <= 0 {
        Seq::empty()
    } else {
        group_cands(rate, min_roi, g, i - 1) + row_cands(rate, min_roi, g[i - 1], g, g.len() as int)
    }
}

/// The qualifying opportunities of the first `k` item buckets, in bucket
/// order.
pub open spec fn cands_upto(
    rate: int,
    min_roi: int,
    qs: Seq<QuoteView>,
    ids: Seq<Seq<char>>,
    k: int,
) -> Seq<OppView>
    decreases k,
{
    if k <= 0 {
        Seq::empty()
    } else {
        let g = quotes_with_id(qs, ids[k - 1]);
        cands_upto(rate, min_roi, qs, ids, k - 1) + group_cands(rate, min_roi, g, g.len() as int)
    }
}

/// Every qualifying opportunity of the quote snapshot, in discovery order:
/// item buckets in order of first occurrence, buy quotes then sell quotes
/// in input order within each bucket.
pub open spec fn candidates(rate: int, min_roi: int, qs: Seq<QuoteView>) -> Seq<OppView> {
    cands_upto(rate, min_roi, qs, distinct_ids(qs), distinct_ids(qs).len() as int)
}

/// The scan's result: the qualifying opportunities, ranked by ROI
/// descending (ties stable by discovery order) and capped at
/// `max_results` entries.
pub open spec fn ranked(rate: int, qs: Seq<QuoteView>, min_roi: int, max_results: int) -> Seq<
    OppView,
> {
    let sorted = sort_desc(candidates(rate, min_roi, qs));
    if max_results < sorted.len() {
        sorted.take(max_results)
    } else {
        sorted
    }
}

impl TradeScanner {
    /// Scan a snapshot of market quotes for arbitrage opportunities.
    ///
    /// Returns exactly the qualifying cross-city opportunities — ROI at
    /// least `min_roi` (in thousandths of a percent) — ranked by ROI
    /// descending and truncated to at most `max_results` entries.
    ///
    /// Pair enumeration is quadratic in the size of each item's bucket.
    pub fn scan_opportunities(
        &self,
        market_data: &Vec<MarketData>,
        min_roi: i64,
        max_results: usize,
    ) -> (r: Vec<TradeOpportunity>)
        requires
            self.wf(),
        ensures
            opp_views(r@) == ranked(
                self.rate_pm(),
                quote_views(market_data@),
                min_roi as int,
                max_results as int,
            ),
    {
        let ghost qv = quote_views(market_data@);
        let ghost rate = self.rate_pm();
        let ghost minr = min_roi as int;
        let (ids, groups) = group_by_item(market_data);
        let ghost idsv = str_views(ids@);

        let mut result: Vec<TradeOpportunity> = Vec::new();
        let mut k: usize = 0;
        while k < groups.len()
            invariant
                self.wf(),
                rate == self.rate_pm(),
                minr == min_roi as int,
                k <= groups.len(),
                idsv == str_views(ids@),
                idsv == distinct_ids(qv),
                groups@.len() == ids@.len(),
                forall|kk: int|
                    0 <= kk < groups@.len() ==> quote_views(#[trigger] groups@[kk]@)
                        == quotes_with_id(qv, idsv[kk]),
                opp_views(result@) == sort_desc(cands_upto(rate, minr, qv, idsv, k as int)),
            decreases groups.len() - k,
        {
            let g = &groups[k];
            let ghost gv = quotes_with_id(qv, idsv[k as int]);
            let ghost prev = cands_upto(rate, minr, qv, idsv, k as int);
            proof {
                assert(quote_views(g@) == gv);
                assert(prev + group_cands(rate, minr, gv, 0) =~= prev);
            }
            let mut bi: usize = 0;
            while bi < g.len()
                invariant
                    self.wf(),
                    rate == self.rate_pm(),
                    minr == min_roi as int,
                    bi <= g.len(),
                    quote_views(g@) == gv,
                    g@.len() == gv.len(),
                    opp_views(result@) == sort_desc(
                        prev + group_cands(rate, minr, gv, bi as int),
                    ),
                decreases g.len() - bi,
            {
                let b = &g[bi];
                let ghost mid = prev + group_cands(rate, minr, gv, bi as int);
                proof {
                    assert(b@ == gv[bi as int]);
                    assert(mid + row_cands(rate, minr, b@, gv, 0) =~= mid);
                }
                let mut si: usize = 0;
                while si < g.len()
                    invariant
                        self.wf(),
                        rate == self.rate_pm(),
                        minr == min_roi as int,
                        si <= g.len(),
                        bi < g.len(),
                        quote_views(g@) == gv,
                        g@.len() == gv.len(),
                        b == &g@[bi as int],
                        b@ == gv[bi as int],
                        opp_views(result@) == sort_desc(
                            mid + row_cands(rate, minr, b@, gv, si as int),
                        ),
                    decreases g.len() - si,
                {
                    let s = &g[si];
                    proof {
                        assert(s@ == gv[si as int]);
                    }
                    let ghost row_prev = row_cands(rate, minr, b@, gv, si as int);
                    let tradable: u32 = if b.quantity <= s.quantity {
                        b.quantity
                    } else {
                        s.quantity
                    };
                    proof {
                        assert(tradable as int == vstd::math::min(b@.quantity, s@.quantity));
                    }
                    if !(b.city == s.city) && b.buy_price > 0 && s.sell_price > 0 && tradable
                        > 0 {
                        let opp = self.calculate_opportunity(
                            b.item_id.clone(),
                            b.item_name.clone(),
                            b.city.clone(),
                            s.city.clone(),
                            b.buy_price,
                            s.sell_price,
                            tradable,
                        );
                        proof {
                            assert(opp@ == pair_opp(rate, b@, s@));
                        }
                        if opp.roi >= min_roi as i128 {
                            proof {
                                assert(qualifies(rate, minr, b@, s@));
                                let with_new = (mid + row_prev).push(opp@);
                                assert(with_new.drop_last() =~= mid + row_prev);
                                assert(with_new.last() == opp@);
                                assert(sort_desc(with_new) == insert_desc(
                                    sort_desc(mid + row_prev),
                                    opp@,
                                ));
                                assert(mid + row_prev.push(opp@) =~= with_new);
                            }
                            insert_ranked(&mut result, opp);
                        } else {
                            proof {
                                assert(!qualifies(rate, minr, b@, s@));
                            }
                        }
                    } else {
                        proof {
                            assert(!qualifies(rate, minr, b@, s@));
                        }
                    }
                    proof {
                        if qualifies(rate, minr, b@, s@) {
                            assert(row_cands(rate, minr, b@, gv, si + 1) == row_prev.push(
                                pair_opp(rate, b@, s@),
                            ));
                        } else {
                            assert(row_cands(rate, minr, b@, gv, si + 1) == row_prev);
                            assert(opp_views(result@) == sort_desc(
                                mid + row_cands(rate, minr, b@, gv, si + 1),
                            ));
                        }
                    }
                    si += 1;
                }
                proof {
                    assert(group_cands(rate, minr, gv, bi + 1) == group_cands(
                        rate,
                        minr,
                        gv,
                        bi as int,
                    ) + row_cands(rate, minr, b@, gv, gv.len() as int));
                    assert(mid + row_cands(rate, minr, b@, gv, g@.len() as int) =~= prev
                        + group_cands(rate, minr, gv, bi + 1));
                }
                bi += 1;
            }
            proof {
                assert(cands_upto(rate, minr, qv, idsv, k + 1) == prev + group_cands(
                    rate,
                    minr,
                    gv,
                    gv.len() as int,
                ));
            }
            k += 1;
        }
        proof {
            assert(k as int == idsv.len());
            assert(opp_views(result@) == sort_desc(candidates(rate, minr, qv)));
        }
        let ghost sorted = sort_desc(candidates(rate, minr, qv));
        result.truncate(max_results);
        proof {
            if max_results < sorted.len() {
                assert(opp_views(result@) =~= sorted.take(max_results as int));
            }
        }
        result
    }
}

} // verus!
