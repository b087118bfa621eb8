use mantis::fixed::{fxdiv, fxdiv_check, fxmul, fxmul_check, UNIT};
use mantis::triplet::Triplet;

#[test]
fn fxmul_scales_and_truncates() {
    // 1.5 * 2.0 = 3.0
    assert_eq!(fxmul(1_500_000_000, 2_000_000_000), 3_000_000_000);
    // Truncation is toward zero in both signs.
    assert_eq!(fxmul(1, 1), 0);
    assert_eq!(fxmul(-1, 1), 0);
    assert_eq!(fxmul(999_999_999, 1), 0);
    assert_eq!(fxmul(-2_500_000_000, 1_000_000_001), -2_500_000_002);
}

#[test]
fn fxdiv_scales_and_truncates() {
    // 1.0 / 3.0 = 0.333333333 truncated
    assert_eq!(fxdiv(UNIT, 3_000_000_000), 333_333_333);
    assert_eq!(fxdiv(-UNIT, 3_000_000_000), -333_333_333);
    // -1.0 / 0.1 = -10.0
    assert_eq!(fxdiv(-UNIT, 100_000_000), -10_000_000_000);
    // 50 / 100 = 0.5
    assert_eq!(fxdiv(50_000_000_000, 100_000_000_000), 500_000_000);
}

#[test]
fn checked_ops_report_the_cap() {
    assert_eq!(fxmul_check(2_000_000_000, 2_000_000_000, UNIT), None);
    assert_eq!(
        fxmul_check(2_000_000_000, 2_000_000_000, 4_000_000_000),
        Some(4_000_000_000)
    );
    assert_eq!(
        fxdiv_check(UNIT, 1, 1_000_000_000_000_000_000),
        Some(1_000_000_000_000_000_000)
    );
    assert_eq!(fxdiv_check(UNIT, 1, 999_999_999_999_999_999), None);
    assert_eq!(fxdiv_check(UNIT, UNIT, UNIT), Some(UNIT));
}

#[test]
fn triplet_append_and_sum_dupl() {
    let mut t = Triplet::new(3, 3);
    t.append(0, 0, 10);
    t.append(1, 2, -4);
    t.append(0, 0, 32);
    t.append(1, 2, 4);
    t.append(2, 1, 7);
    assert_eq!(t.entries.len(), 5);
    let ok = t.sum_dupl();
    assert!(ok);
    // Duplicates collapsed by addition; (1,2) sums to zero but the
    // position keeps its (zero) entry.
    let mut cells: Vec<(usize, usize, i64)> = t.entries.clone();
    cells.sort();
    assert_eq!(cells, vec![(0, 0, 42), (1, 2, 0), (2, 1, 7)]);
}

#[test]
fn triplet_sum_dupl_refuses_overflow() {
    let mut t = Triplet::new(1, 1);
    t.append(0, 0, i64::MAX);
    t.append(0, 0, i64::MAX);
    let before = t.entries.clone();
    let ok = t.sum_dupl();
    assert!(!ok);
    assert_eq!(t.entries, before);
}
