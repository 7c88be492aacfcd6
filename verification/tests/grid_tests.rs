use standx_dry_run_grid::grid::{
    check_axes, param_axis, parameter_combinations, GridShapeError, ParamAxis, MAX_COMBINATIONS,
};
use standx_dry_run_grid::order::{
    slot_cid_base, slot_label, OrderIds, OrderSide, FIRST_EXCHANGE_ID, IDS_PER_SLOT,
};

#[test]
fn combinations_are_lexicographic() {
    let combos = parameter_combinations(&vec![2, 3]);
    assert_eq!(
        combos,
        vec![vec![0, 0], vec![0, 1], vec![0, 2], vec![1, 0], vec![1, 1], vec![1, 2]]
    );
}

#[test]
fn combination_count_is_the_product() {
    let combos = parameter_combinations(&vec![17, 8]);
    assert_eq!(combos.len(), 136);
    assert!(combos.iter().all(|c| c.len() == 2 && c[0] < 17 && c[1] < 8));
    let mut sorted = combos.clone();
    sorted.dedup();
    assert_eq!(sorted.len(), 136);
}

#[test]
fn no_axes_gives_one_empty_combination() {
    assert_eq!(parameter_combinations(&vec![]), vec![Vec::<usize>::new()]);
    assert!(parameter_combinations(&vec![3, 0, 2]).is_empty());
}

#[test]
fn check_axes_errors_and_total() {
    assert_eq!(check_axes(&vec![]), Err(GridShapeError::NoAxes));
    assert_eq!(check_axes(&vec![3, 0, 0]), Err(GridShapeError::EmptyAxis(1)));
    assert_eq!(check_axes(&vec![17, 8]), Ok(136));
    assert_eq!(check_axes(&vec![25, 20]), Ok(500));
    assert_eq!(check_axes(&vec![25, 21]), Err(GridShapeError::TooManyCombinations(525)));
    assert_eq!(MAX_COMBINATIONS, 500);
}

#[test]
fn axis_names() {
    let a = |s: &str| param_axis(&s.to_string());
    assert_eq!(a("vol_to_half_spread"), Some(ParamAxis::VolToHalfSpread));
    assert_eq!(a("min_half_spread_bps"), Some(ParamAxis::MinHalfSpreadBps));
    assert_eq!(a("skew"), Some(ParamAxis::Skew));
    assert_eq!(a("spread_factor_level1"), Some(ParamAxis::SpreadFactorLevel1));
    assert_eq!(a("num_levels"), Some(ParamAxis::NumLevels));
    assert_eq!(a("c1_ticks"), Some(ParamAxis::C1Ticks));
    assert_eq!(a("unknown"), None);
    assert_eq!(a("Skew"), None);
}

#[test]
fn order_ids_and_slot_bases() {
    assert_eq!(slot_cid_base(0), 1_000_000);
    assert_eq!(slot_cid_base(135), 136_000_000);
    assert_eq!(IDS_PER_SLOT, 1_000_000);
    let mut ids = OrderIds::new(slot_cid_base(2));
    assert_eq!(ids.alloc_cid(), 3_000_000);
    assert_eq!(ids.alloc_cid(), 3_000_001);
    assert_eq!(ids.alloc_eid(), FIRST_EXCHANGE_ID);
    assert_eq!(ids.alloc_eid(), 900_000_001);
    assert!(ids.can_alloc_cid());
    let full = OrderIds::new(u64::MAX);
    assert!(!full.can_alloc_cid());
    assert!(full.can_alloc_eid());
}

#[test]
fn order_side_text() {
    assert_eq!(OrderSide::Buy.to_string(), "buy");
    assert_eq!(OrderSide::Sell.to_string(), "sell");
}

#[test]
fn slot_labels_are_zero_padded() {
    assert_eq!(slot_label(0), "s000");
    assert_eq!(slot_label(7), "s007");
    assert_eq!(slot_label(42), "s042");
    assert_eq!(slot_label(135), "s135");
    assert_eq!(slot_label(1234), "s1234");
    assert_eq!(slot_label(10), "s010");
}

#[test]
fn slot_id_ranges_do_not_overlap() {
    for i in 0..200u64 {
        assert!(slot_cid_base(i) + IDS_PER_SLOT - 1 < slot_cid_base(i + 1));
    }
}
