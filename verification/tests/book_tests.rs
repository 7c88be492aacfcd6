use standx_dry_run_grid::book::{detect_price_order, select_levels};
use standx_dry_run_grid::types::{OrderbookSnapshot, PriceLevel, PriceOrder, Symbol, MAX_LEVELS};

fn k(x: f64) -> Option<u64> {
    Some(x.to_bits())
}

fn raw(levels: &[(f64, f64)]) -> Vec<(Option<u64>, Option<u64>)> {
    levels.iter().map(|&(p, q)| (k(p), k(q))).collect()
}

fn prices(levels: &[PriceLevel]) -> Vec<f64> {
    levels.iter().map(|l| f64::from_bits(l.price_bits)).collect()
}

#[test]
fn detect_ascending_descending_unknown() {
    assert_eq!(detect_price_order(&raw(&[(1.0, 1.0), (2.0, 1.0), (2.0, 1.0), (3.0, 1.0)])), PriceOrder::Ascending);
    assert_eq!(detect_price_order(&raw(&[(3.0, 1.0), (2.0, 1.0), (1.0, 1.0)])), PriceOrder::Descending);
    assert_eq!(detect_price_order(&raw(&[(1.0, 1.0), (3.0, 1.0), (2.0, 1.0)])), PriceOrder::Unknown);
    assert_eq!(detect_price_order(&raw(&[(2.0, 1.0), (2.0, 1.0)])), PriceOrder::Unknown);
    assert_eq!(detect_price_order(&raw(&[])), PriceOrder::Unknown);
}

#[test]
fn detect_ignores_unparsed_and_non_positive_prices() {
    let mut levels = raw(&[(1.0, 1.0), (-5.0, 1.0), (0.0, 1.0), (2.0, 1.0)]);
    levels.insert(2, (None, k(1.0)));
    levels.push((k(f64::NAN), k(1.0)));
    assert_eq!(detect_price_order(&levels), PriceOrder::Ascending);
}

#[test]
fn bids_descending_input_keeps_first_levels() {
    let levels = raw(&[(100.0, 1.0), (99.0, 2.0), (98.0, 3.0), (97.0, 4.0)]);
    let out = select_levels(&levels, 2, true);
    assert_eq!(prices(&out), vec![100.0, 99.0]);
    assert_eq!(f64::from_bits(out[1].quantity_bits), 2.0);
}

#[test]
fn bids_ascending_input_keeps_last_levels_best_first() {
    let levels = raw(&[(97.0, 4.0), (98.0, 3.0), (99.0, 2.0), (100.0, 1.0)]);
    let out = select_levels(&levels, 3, true);
    assert_eq!(prices(&out), vec![100.0, 99.0, 98.0]);
}

#[test]
fn asks_ascending_and_descending_inputs() {
    let asc = raw(&[(101.0, 1.0), (102.0, 1.0), (103.0, 1.0)]);
    assert_eq!(prices(&select_levels(&asc, 2, false)), vec![101.0, 102.0]);
    let desc = raw(&[(103.0, 1.0), (102.0, 1.0), (101.0, 1.0)]);
    assert_eq!(prices(&select_levels(&desc, 2, false)), vec![101.0, 102.0]);
}

#[test]
fn unordered_input_keeps_the_best_levels_sorted() {
    let levels = raw(&[(98.0, 1.0), (101.0, 2.0), (97.0, 3.0), (100.0, 4.0), (99.0, 5.0)]);
    let bids = select_levels(&levels, 3, true);
    assert_eq!(prices(&bids), vec![101.0, 100.0, 99.0]);
    let asks = select_levels(&levels, 3, false);
    assert_eq!(prices(&asks), vec![97.0, 98.0, 99.0]);
}

#[test]
fn invalid_levels_are_skipped() {
    let mut levels = raw(&[(100.0, 1.0), (99.0, 0.0), (98.0, -1.0), (97.0, 2.0)]);
    levels.push((k(96.0), None));
    let out = select_levels(&levels, 10, true);
    assert_eq!(prices(&out), vec![100.0, 97.0]);
}

#[test]
fn zero_max_levels_keeps_nothing() {
    let levels = raw(&[(1.0, 1.0), (3.0, 1.0), (2.0, 1.0)]);
    assert!(select_levels(&levels, 0, true).is_empty());
    let sorted = raw(&[(3.0, 1.0), (2.0, 1.0)]);
    assert!(select_levels(&sorted, 0, true).is_empty());
}

#[test]
fn never_more_than_max_levels_constant() {
    let levels: Vec<(Option<u64>, Option<u64>)> =
        (1..=80).map(|i| (k(i as f64), k(1.0))).collect();
    let out = select_levels(&levels, 1000, true);
    assert_eq!(out.len(), MAX_LEVELS);
    assert_eq!(f64::from_bits(out[0].price_bits), 80.0);
    assert_eq!(f64::from_bits(out[MAX_LEVELS - 1].price_bits), 31.0);
}

#[test]
fn snapshot_sides_and_validity() {
    let mut s = OrderbookSnapshot::new(Symbol::new("BTC-USD"));
    assert!(!s.is_valid());
    assert_eq!(s.best_bid(), None);
    s.set_bids_from_parsed(&raw(&[(99.0, 1.0), (100.0, 2.0)]), 20);
    s.set_asks_from_parsed(&raw(&[(102.0, 1.0), (101.0, 2.0)]), 20);
    assert_eq!(s.bid_count(), 2);
    assert_eq!(s.ask_count(), 2);
    assert_eq!(f64::from_bits(s.best_bid().unwrap().price_bits), 100.0);
    assert_eq!(f64::from_bits(s.best_ask().unwrap().price_bits), 101.0);
    assert_eq!(prices(s.bid_levels()), vec![100.0, 99.0]);
    assert_eq!(prices(s.ask_levels()), vec![101.0, 102.0]);
    assert!(s.is_valid());
    s.set_sequence(7);
    s.set_timestamp_ns(11);
    s.set_received_at_ns(13);
    let c = s.clone();
    assert_eq!(c.sequence(), 7);
    assert_eq!(c.timestamp_ns(), 11);
    assert_eq!(c.received_at_ns(), 13);
    assert_eq!(c.symbol().as_bytes(), b"BTC-USD");
    assert_eq!(prices(c.ask_levels()), vec![101.0, 102.0]);
}

#[test]
fn crossed_book_is_not_valid() {
    let mut s = OrderbookSnapshot::default();
    s.set_bids_from_parsed(&raw(&[(101.0, 1.0)]), 20);
    s.set_asks_from_parsed(&raw(&[(101.0, 1.0)]), 20);
    assert!(!s.is_valid());
    assert!(s.symbol().is_empty());
}

#[test]
fn price_level_is_empty_and_new() {
    let l = PriceLevel::new(0.0f64.to_bits(), (-0.0f64).to_bits());
    assert!(l.is_empty());
    assert!(PriceLevel::default().is_empty());
    assert!(!PriceLevel::new(1.0f64.to_bits(), 0).is_empty());
}

#[test]
fn symbol_truncates_to_fifteen_bytes() {
    let s = Symbol::new("ABCDEFGHIJKLMNOPQRS");
    assert_eq!(s.len(), 15);
    assert_eq!(s.as_str(), "ABCDEFGHIJKLMNO");
    let t = Symbol::new("ETH-USD");
    assert_eq!(t.as_str(), "ETH-USD");
    assert_eq!(t.len(), 7);
    assert!(!t.is_empty());
    assert!(Symbol::new("").is_empty());
    assert_eq!(Symbol::default(), Symbol::new(""));
}

fn quantities(levels: &[PriceLevel]) -> Vec<f64> {
    levels.iter().map(|l| f64::from_bits(l.quantity_bits)).collect()
}

#[test]
fn unordered_tie_at_the_cut_does_not_replace_a_kept_level() {
    let levels = raw(&[(90.0, 1.0), (100.0, 1.0), (90.0, 2.0)]);
    let bids = select_levels(&levels, 2, true);
    assert_eq!(prices(&bids), vec![100.0, 90.0]);
    assert_eq!(quantities(&bids), vec![1.0, 1.0]);
}

#[test]
fn unordered_equal_prices_keep_their_listing_order() {
    let levels = raw(&[(90.0, 1.0), (100.0, 1.0), (90.0, 2.0)]);
    let bids = select_levels(&levels, 3, true);
    assert_eq!(prices(&bids), vec![100.0, 90.0, 90.0]);
    assert_eq!(quantities(&bids), vec![1.0, 1.0, 2.0]);
    let asks = select_levels(&raw(&[(5.0, 1.0), (3.0, 2.0), (5.0, 3.0)]), 3, false);
    assert_eq!(prices(&asks), vec![3.0, 5.0, 5.0]);
    assert_eq!(quantities(&asks), vec![2.0, 1.0, 3.0]);
}

#[test]
fn unordered_eviction_takes_the_first_worst_slot() {
    let levels = raw(&[(4.0, 1.0), (3.0, 2.0), (4.0, 3.0), (5.0, 4.0)]);
    let bids = select_levels(&levels, 2, true);
    assert_eq!(prices(&bids), vec![5.0, 4.0]);
    assert_eq!(quantities(&bids), vec![4.0, 3.0]);
}
