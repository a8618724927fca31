use trade_scanner::model::MarketData;
use trade_scanner::scanner::TradeScanner;

fn quote(
    item_id: &str,
    item_name: &str,
    city: &str,
    buy_price: u64,
    sell_price: u64,
    quantity: u32,
) -> MarketData {
    MarketData {
        item_id: String::from(item_id),
        item_name: String::from(item_name),
        city: String::from(city),
        buy_price,
        sell_price,
        quantity,
    }
}

#[test]
fn scenario_single_pair_full_breakdown() {
    // Buy at 100 in Caerleon (50 available), sell at 150 in Bridgewatch
    // (30 wanted); default rates 4.5% + 1.5%; min ROI 0.
    let scanner = TradeScanner::new();
    let quotes = vec![
        quote("X", "Widget", "Caerleon", 100, 0, 50),
        quote("X", "Widget", "Bridgewatch", 0, 150, 30),
    ];
    let r = scanner.scan_opportunities(&quotes, 0, 10);
    assert_eq!(r.len(), 1);
    let o = &r[0];
    assert_eq!(o.item_id, "X");
    assert_eq!(o.item_name, "Widget");
    assert_eq!(o.buy_city, "Caerleon");
    assert_eq!(o.sell_city, "Bridgewatch");
    assert_eq!(o.buy_price, 100);
    assert_eq!(o.sell_price, 150);
    assert_eq!(o.quantity, 30);
    // transport: 8 zones * max(30, 100) = 800
    assert_eq!(o.transport_cost, 800);
    // buy leg: 3000; buy taxes (x1000): 3000 * 60 = 180_000
    // sell leg: 4500; sell taxes (x1000): 4500 * 60 = 270_000
    assert_eq!(o.taxes, 450_000);
    // profit (x1000): (4_500_000 - 270_000) - (3_000_000 + 180_000 + 800_000)
    assert_eq!(o.profit, 250_000);
    // roi: 250_000 * 100_000 / 3_980_000 = 6281.4..., truncated
    assert_eq!(o.roi, 6281);
    assert!(o.profit > 0);
}

#[test]
fn scenario_one_city_yields_nothing() {
    let scanner = TradeScanner::new();
    let quotes = vec![quote("X", "Widget", "Caerleon", 100, 150, 50)];
    let r = scanner.scan_opportunities(&quotes, 0, 10);
    assert_eq!(r.len(), 0);
}

#[test]
fn scenario_min_roi_above_best_yields_nothing() {
    let scanner = TradeScanner::new();
    let quotes = vec![
        quote("X", "Widget", "Caerleon", 100, 0, 50),
        quote("X", "Widget", "Bridgewatch", 0, 150, 30),
    ];
    // best achievable ROI is 6.281%; ask for at least 7%
    let r = scanner.scan_opportunities(&quotes, 7000, 10);
    assert_eq!(r.len(), 0);
}

#[test]
fn scenario_cap_one_keeps_only_best() {
    let scanner = TradeScanner::new();
    let quotes = vec![
        quote("X", "Widget", "Caerleon", 100, 0, 100),
        quote("X", "Widget", "Bridgewatch", 0, 150, 100),
        quote("X", "Widget", "Lymhurst", 0, 140, 100),
        quote("X", "Widget", "Martlock", 0, 130, 100),
    ];
    let all = scanner.scan_opportunities(&quotes, 0, 10);
    assert_eq!(all.len(), 3);
    let r = scanner.scan_opportunities(&quotes, 0, 1);
    assert_eq!(r.len(), 1);
    assert_eq!(r[0].sell_city, "Bridgewatch");
    // buy leg 10_000, taxes 600_000; transport 8 * 100 = 800;
    // cost 11_400_000; revenue 15_000_000 - 900_000; profit 2_700_000
    assert_eq!(r[0].profit, 2_700_000);
    assert_eq!(r[0].roi, 2_700_000 * 100_000 / 11_400_000);
}

#[test]
fn results_sorted_descending_and_capped() {
    let scanner = TradeScanner::new();
    let quotes = vec![
        quote("X", "Widget", "Caerleon", 100, 0, 100),
        quote("X", "Widget", "Bridgewatch", 0, 150, 100),
        quote("X", "Widget", "Lymhurst", 0, 140, 100),
        quote("X", "Widget", "Martlock", 0, 130, 100),
    ];
    let r = scanner.scan_opportunities(&quotes, 0, 2);
    assert_eq!(r.len(), 2);
    assert!(r[0].roi >= r[1].roi);
    assert_eq!(r[0].sell_city, "Bridgewatch");
    assert_eq!(r[1].sell_city, "Lymhurst");
}

#[test]
fn same_city_never_paired() {
    let scanner = TradeScanner::new();
    // both sides live in one city: the only cross pair would be a self-pair
    let quotes = vec![
        quote("X", "Widget", "Caerleon", 100, 150, 50),
        quote("X", "Widget", "Caerleon", 90, 160, 50),
    ];
    let r = scanner.scan_opportunities(&quotes, -1_000_000, 10);
    for o in &r {
        assert_ne!(o.buy_city, o.sell_city);
    }
    // the two quotes share the city name, so nothing at all qualifies
    assert_eq!(r.len(), 0);
}

#[test]
fn zero_quantity_pair_excluded() {
    let scanner = TradeScanner::new();
    let quotes = vec![
        quote("X", "Widget", "Caerleon", 100, 0, 0),
        quote("X", "Widget", "Bridgewatch", 0, 150, 30),
    ];
    let r = scanner.scan_opportunities(&quotes, -1_000_000, 10);
    assert_eq!(r.len(), 0);
}

#[test]
fn nonpositive_prices_excluded() {
    let scanner = TradeScanner::new();
    // no buy price in Caerleon, no sell price in Bridgewatch
    let quotes = vec![
        quote("X", "Widget", "Caerleon", 0, 120, 50),
        quote("X", "Widget", "Bridgewatch", 80, 0, 30),
    ];
    // the only orientation with live prices is Bridgewatch -> Caerleon
    let r = scanner.scan_opportunities(&quotes, -1_000_000, 10);
    assert_eq!(r.len(), 1);
    assert_eq!(r[0].buy_city, "Bridgewatch");
    assert_eq!(r[0].sell_city, "Caerleon");
}

#[test]
fn unprofitable_pair_reported_with_negative_roi() {
    let scanner = TradeScanner::new();
    // unlisted cities: 12 zones, transport 1200 eats the margin
    let quotes = vec![
        quote("X", "Widget", "CityA", 100, 0, 50),
        quote("X", "Widget", "CityB", 0, 150, 30),
    ];
    let r = scanner.scan_opportunities(&quotes, -1_000_000, 10);
    assert_eq!(r.len(), 1);
    // cost 4_380_000; revenue 4_230_000; loss of 150 silver
    assert_eq!(r[0].profit, -150_000);
    // roi truncated toward zero: -(150_000 * 100_000 / 4_380_000)
    assert_eq!(r[0].roi, -3424);
    // and with min ROI 0 the same pair is filtered out
    let none = scanner.scan_opportunities(&quotes, 0, 10);
    assert_eq!(none.len(), 0);
}

#[test]
fn equal_roi_keeps_discovery_order() {
    let scanner = TradeScanner::new();
    // two items with identical figures: equal ROI, first-seen item first
    let quotes = vec![
        quote("B_ITEM", "Bolt", "Caerleon", 100, 0, 100),
        quote("A_ITEM", "Axe", "Caerleon", 100, 0, 100),
        quote("B_ITEM", "Bolt", "Bridgewatch", 0, 150, 100),
        quote("A_ITEM", "Axe", "Bridgewatch", 0, 150, 100),
    ];
    let r = scanner.scan_opportunities(&quotes, 0, 10);
    assert_eq!(r.len(), 2);
    assert_eq!(r[0].roi, r[1].roi);
    assert_eq!(r[0].item_id, "B_ITEM");
    assert_eq!(r[1].item_id, "A_ITEM");
}

#[test]
fn custom_rates_change_the_breakdown() {
    let scanner = TradeScanner::with_rates(0, 0);
    let quotes = vec![
        quote("X", "Widget", "Caerleon", 100, 0, 50),
        quote("X", "Widget", "Bridgewatch", 0, 150, 30),
    ];
    let r = scanner.scan_opportunities(&quotes, 0, 10);
    assert_eq!(r.len(), 1);
    assert_eq!(r[0].taxes, 0);
    // cost 3_000_000 + 800_000; revenue 4_500_000
    assert_eq!(r[0].profit, 700_000);
    assert_eq!(r[0].roi, 700_000 * 100_000 / 3_800_000);
}

#[test]
fn default_rates_are_45_and_15_per_mille() {
    let scanner = TradeScanner::new();
    assert_eq!(scanner.market_tax, 45);
    assert_eq!(scanner.setup_fee, 15);
}

#[test]
fn cost_decomposition_identity_holds() {
    let scanner = TradeScanner::new();
    let o = scanner.calculate_opportunity(
        String::from("X"),
        String::from("Widget"),
        String::from("Caerleon"),
        String::from("Thetford"),
        73,
        91,
        417,
    );
    let rate: i128 = 45 + 15;
    let qty = o.quantity as i128;
    let sell_total = o.sell_price as i128 * qty;
    let buy_total = o.buy_price as i128 * qty;
    let sell_taxes = sell_total * rate;
    let buy_taxes = buy_total * rate;
    let expected_profit = (sell_total * 1000 - sell_taxes)
        - (buy_total * 1000 + buy_taxes + o.transport_cost as i128 * 1000);
    assert_eq!(o.profit, expected_profit);
    assert_eq!(o.taxes as i128, buy_taxes + sell_taxes);
}

#[test]
fn transport_cost_follows_the_route_table() {
    let scanner = TradeScanner::new();
    // listed route, flat single-batch cost below 100 units
    assert_eq!(scanner.estimate_transport_cost("Caerleon", "Bridgewatch", 50), 800);
    // symmetric
    assert_eq!(scanner.estimate_transport_cost("Bridgewatch", "Caerleon", 50), 800);
    // listed route, volume above the baseline
    assert_eq!(scanner.estimate_transport_cost("Caerleon", "Thetford", 250), 2000);
    // two royal cities without a listed route: cross-region fallback
    assert_eq!(scanner.estimate_transport_cost("Bridgewatch", "Lymhurst", 150), 1800);
    // unknown cities: cross-region fallback
    assert_eq!(scanner.estimate_transport_cost("CityA", "CityB", 30), 1200);
}
