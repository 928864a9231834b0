use mt_runtime::site_match::{
    require_canonical_channel_sequence, site_projection_tables, ChannelSequenceError,
    RelativisticChannel,
};

fn ch(kappa: i32, twice_mu: i64) -> RelativisticChannel {
    RelativisticChannel { kappa, twice_mu }
}

/// s1/2 then p1/2... in ascending signed kappa: kappa=-2 (p3/2), -1 (s1/2), 1 (p1/2).
fn canonical() -> Vec<RelativisticChannel> {
    vec![
        ch(-2, -3),
        ch(-2, -1),
        ch(-2, 1),
        ch(-2, 3),
        ch(-1, -1),
        ch(-1, 1),
        ch(1, -1),
        ch(1, 1),
    ]
}

#[test]
fn canonical_channel_sequence_is_accepted() {
    assert_eq!(require_canonical_channel_sequence(&canonical()), Ok(()));
    assert_eq!(require_canonical_channel_sequence(&Vec::new()), Ok(()));
}

#[test]
fn decreasing_or_repeated_kappa_runs_are_rejected() {
    let decreasing = vec![ch(-1, -1), ch(-1, 1), ch(-2, -3)];
    assert_eq!(
        require_canonical_channel_sequence(&decreasing),
        Err(ChannelSequenceError::KappaOrder { kappa: -2 })
    );
    let repeated = vec![ch(-1, -1), ch(1, -1), ch(-1, 1)];
    assert_eq!(
        require_canonical_channel_sequence(&repeated),
        Err(ChannelSequenceError::KappaOrder { kappa: -1 })
    );
}

#[test]
fn incomplete_or_unordered_runs_are_rejected() {
    let missing = vec![ch(-1, -1)];
    assert_eq!(
        require_canonical_channel_sequence(&missing),
        Err(ChannelSequenceError::Sequence)
    );
    let swapped = vec![ch(-1, 1), ch(-1, -1)];
    assert_eq!(
        require_canonical_channel_sequence(&swapped),
        Err(ChannelSequenceError::Sequence)
    );
    let doubled = vec![ch(-1, -1), ch(-1, 1), ch(-1, 1)];
    assert_eq!(
        require_canonical_channel_sequence(&doubled),
        Err(ChannelSequenceError::Sequence)
    );
}

#[test]
fn projection_tables_list_apw_pairs_then_local_orbitals() {
    let channels = vec![ch(-1, -1), ch(-1, 1)];
    let counts = vec![(-1, 2usize), (1, 0usize), (-2, 1usize)];
    let t = site_projection_tables(&channels, &counts);
    assert_eq!(t.n_apw_projection, 4);
    assert_eq!(t.n_projection, 4 + 2 * 2 + 0 + 4 * 1);
    assert_eq!(t.coordinate, (0..12).collect::<Vec<i64>>());
    assert_eq!(t.signed_kappa, vec![-1, -1, -1, -1, -1, -1, -1, -1, -2, -2, -2, -2]);
    assert_eq!(t.twice_mu, vec![-1, -1, 1, 1, -1, -1, 1, 1, -3, -1, 1, 3]);
    assert_eq!(t.radial_n, vec![0, 1, 0, 1, 2, 3, 2, 3, 2, 2, 2, 2]);
}
