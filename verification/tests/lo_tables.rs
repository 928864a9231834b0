use mt_runtime::lo_tables::scalar_lo_tables;
use mt_runtime::site_coords::lo_quantum_numbers;

#[test]
fn local_orbital_rows_follow_site_l_m_ordinal_order() {
    let sites = vec![Some(vec![1usize, 2]), None, Some(vec![0usize, 1])];
    let t = scalar_lo_tables(5, &sites);
    assert_eq!(t.n_lo, 10);
    assert_eq!(t.row_index, (5..15).collect::<Vec<i64>>());
    assert_eq!(t.site, vec![0, 0, 0, 0, 0, 0, 0, 2, 2, 2]);
    assert_eq!(t.l, vec![0, 1, 1, 1, 1, 1, 1, 1, 1, 1]);
    assert_eq!(t.m, vec![0, -1, -1, 0, 0, 1, 1, -1, 0, 1]);
    assert_eq!(t.ordinal, vec![0, 0, 1, 0, 1, 0, 1, 0, 0, 0]);
    assert_eq!(t.radial_n, vec![2, 2, 3, 2, 3, 2, 3, 2, 2, 2]);
}

#[test]
fn table_rows_decode_back_to_their_quantum_numbers() {
    let counts = vec![1usize, 2, 1];
    let t = scalar_lo_tables(0, &vec![Some(counts.clone())]);
    for x in 0..t.n_lo {
        let (l, m, ordinal) = lo_quantum_numbers(&counts, x).unwrap();
        assert_eq!((t.l[x], t.m[x], t.ordinal[x]), (l as i64, m as i64, ordinal as i64));
    }
    assert_eq!(lo_quantum_numbers(&counts, t.n_lo), None);
}

#[test]
fn no_sites_give_empty_tables() {
    let t = scalar_lo_tables(7, &Vec::new());
    assert_eq!(t.n_lo, 0);
    assert!(t.row_index.is_empty());
}
