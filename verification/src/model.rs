//! Data model: market quotes, trade opportunities, and the exact cost/revenue
//! arithmetic that turns a (buy quote, sell quote) pair into an opportunity.

use vstd::prelude::*;

verus! {

/// Ghost mirror of [`MarketData`]: strings as character sequences, numbers as
/// unbounded integers.
pub struct QuoteView {
    pub item_id: Seq<char>,
    pub item_name: Seq<char>,
    pub city: Seq<char>,
    pub buy_price: int,
    pub sell_price: int,
    pub quantity: int,
}

/// One market observation: one city's buy/sell prices and available quantity
/// for one item.
///
/// Prices are in the market's smallest currency unit; a price of 0 means "no
/// quote available" for that side in that city.
pub struct MarketData {
    pub item_id: String,
    pub item_name: String,
    pub city: String,
    pub buy_price: u64,
    pub sell_price: u64,
    pub quantity: u32,
}

impl View for MarketData {
    type V = QuoteView;

    open spec fn view(&self) -> QuoteView {
        QuoteView {
            item_id: self.item_id@,
            item_name: self.item_name@,
            city: self.city@,
            buy_price: self.buy_price as int,
            sell_price: self.sell_price as int,
            quantity: self.quantity as int,
        }
    }
}

/// Ghost mirror of [`TradeOpportunity`].
pub struct OppView {
    pub item_id: Seq<char>,
    pub item_name: Seq<char>,
    pub buy_city: Seq<char>,
    pub sell_city: Seq<char>,
    pub buy_price: int,
    pub sell_price: int,
    pub quantity: int,
    pub profit: int,
    pub roi: int,
    pub taxes: int,
    pub transport_cost: int,
}

/// One candidate trade: buy `quantity` units in `buy_city`, ship them, and
/// sell them in `sell_city`.
///
/// `profit` and `taxes` are money amounts scaled by 1000 (so that per-mille
/// tax rates stay exact); `transport_cost` is unscaled; `roi` is the return
/// on investment in thousandths of a percent, rounded toward zero.
pub struct TradeOpportunity {
    pub item_id: String,
    pub item_name: String,
    pub buy_city: String,
    pub sell_city: String,
    pub buy_price: u64,
    pub sell_price: u64,
    pub quantity: u32,
    pub profit: i128,
    pub roi: i128,
    pub taxes: u128,
    pub transport_cost: u64,
}

impl View for TradeOpportunity {
    type V = OppView;

    open spec fn view(&self) -> OppView {
        OppView {
            item_id: self.item_id@,
            item_name: self.item_name@,
            buy_city: self.buy_city@,
            sell_city: self.sell_city@,
            buy_price: self.buy_price as int,
            sell_price: self.sell_price as int,
            quantity: self.quantity as int,
            profit: self.profit as int,
            roi: self.roi as int,
            taxes: self.taxes as int,
            transport_cost: self.transport_cost as int,
        }
    }
}

/// The views of a sequence of quotes, element by element.
pub open spec fn quote_views(s: Seq<MarketData>) -> Seq<QuoteView> {
    Seq::new(s.len(), |i: int| s[i]@)
}

/// The views of a sequence of opportunities, element by element.
pub open spec fn opp_views(s: Seq<TradeOpportunity>) -> Seq<OppView> {
    Seq::new(s.len(), |i: int| s[i]@)
}

/// The views of a sequence of strings, element by element.
pub open spec fn str_views(s: Seq<String>) -> Seq<Seq<char>> {
    Seq::new(s.len(), |i: int| s[i]@)
}

/// ROI in thousandths of a percent, rounded toward zero:
/// `profit / total_cost * 100`, or 0 when `total_cost` is not positive.
///
/// `profit` and `total_cost` are both at the 1000x money scale, so the ratio
/// is scale-free; the factor 100000 turns it into milli-percent.
pub open spec fn roi_milli(profit: int, total_cost: int) -> int {
    if total_cost > 0 {
        if profit >= 0 {
            (profit * 100000) / total_cost
        } else {
            -(((-profit) * 100000) / total_cost)
        }
    } else {
        0
    }
}

} // verus!
