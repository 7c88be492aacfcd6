use standx_dry_run_grid::rolling::RollingWindow;

#[test]
fn window_fills_then_evicts_oldest() {
    let mut w: RollingWindow<i32> = RollingWindow::new(3);
    assert!(w.is_empty());
    assert_eq!(w.capacity(), 3);
    assert_eq!(w.push(1), None);
    assert_eq!(w.push(2), None);
    assert_eq!(w.push(3), None);
    assert!(w.is_full());
    assert_eq!(w.len(), 3);
    assert_eq!(w.push(4), Some(1));
    assert_eq!(w.push(5), Some(2));
    assert_eq!(w.push(6), Some(3));
    assert_eq!(w.push(7), Some(4));
    assert_eq!(w.len(), 3);
}

#[test]
fn window_keeps_latest_values() {
    let mut w: RollingWindow<u64> = RollingWindow::new(4);
    let mut evicted = Vec::new();
    for v in 0..10u64 {
        if let Some(old) = w.push(v) {
            evicted.push(old);
        }
    }
    assert_eq!(evicted, vec![0, 1, 2, 3, 4, 5]);
    // the next four pushes evict exactly the four retained values, oldest first
    let mut retained = Vec::new();
    for v in 100..104u64 {
        retained.push(w.push(v).unwrap());
    }
    assert_eq!(retained, vec![6, 7, 8, 9]);
}

#[test]
fn window_clear_forgets_values() {
    let mut w: RollingWindow<f64> = RollingWindow::new(2);
    w.push(1.5);
    w.push(2.5);
    w.clear();
    assert!(w.is_empty());
    assert!(!w.is_full());
    assert_eq!(w.capacity(), 2);
    assert_eq!(w.push(3.5), None);
    assert_eq!(w.push(4.5), None);
    assert_eq!(w.push(5.5), Some(3.5));
}

#[test]
fn capacity_one_window() {
    let mut w: RollingWindow<u8> = RollingWindow::new(1);
    assert_eq!(w.push(9), None);
    assert_eq!(w.push(8), Some(9));
    assert_eq!(w.push(7), Some(8));
}
