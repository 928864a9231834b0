use mt_runtime::interstitial_gather::{interstitial_gather, GIndex, UNFED};

fn g(g1: i32, g2: i32, g3: i32) -> GIndex {
    GIndex { g1, g2, g3 }
}

#[test]
fn gather_names_the_left_wave_of_each_component_and_right_wave() {
    // Components: 0 -> (0,0,0), 1 -> (1,0,0), 2 -> (-1,0,0).
    let components = vec![g(0, 0, 0), g(1, 0, 0), g(-1, 0, 0)];
    let left = vec![g(0, 0, 0), g(1, 0, 0)];
    let right = vec![g(0, 0, 0), g(1, 0, 0)];
    let table = interstitial_gather(&components, &left, &right, g(0, 0, 0)).unwrap();
    // Row p, column rg: which left wave gives G_right - G_left == component p.
    assert_eq!(table, vec![0, 1, UNFED, 0, 1, UNFED]);
}

#[test]
fn gather_applies_the_wrap_and_keeps_the_last_component_and_left_wave() {
    let components = vec![g(1, 0, 0), g(2, 0, 0), g(1, 0, 0)];
    let left = vec![g(0, 0, 0), g(0, 0, 0)];
    let right = vec![g(0, 0, 0), g(1, 0, 0)];
    let table = interstitial_gather(&components, &left, &right, g(1, 0, 0)).unwrap();
    assert_eq!(table, vec![UNFED, UNFED, UNFED, 1, 1, UNFED]);
}

#[test]
fn gather_reports_the_first_pair_without_a_component() {
    let components = vec![g(0, 0, 0), g(1, 0, 0)];
    let left = vec![g(0, 0, 0), g(0, 1, 0)];
    let right = vec![g(0, 0, 0), g(1, 0, 0)];
    assert_eq!(
        interstitial_gather(&components, &left, &right, g(0, 0, 0)),
        Err(g(0, -1, 0))
    );
}
