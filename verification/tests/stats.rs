use dartsim::stats::{qlen_bin, reservoir_push, stride, thin, QLEN_HIST_MAX, SOJOURN_SAMPLE_K};

#[test]
fn queue_lengths_saturate_in_the_top_bin() {
    assert_eq!(qlen_bin(0), 0);
    assert_eq!(qlen_bin(7), 7);
    assert_eq!(qlen_bin(QLEN_HIST_MAX - 1), QLEN_HIST_MAX - 1);
    assert_eq!(qlen_bin(QLEN_HIST_MAX), QLEN_HIST_MAX - 1);
    assert_eq!(qlen_bin(1_000_000), 499);
}

#[test]
fn reservoir_keeps_everything_until_full() {
    let mut res: Vec<f64> = Vec::new();
    let mut seen = 0u64;
    for k in 0..SOJOURN_SAMPLE_K {
        reservoir_push(&mut res, &mut seen, k as f64, 12345);
    }
    assert_eq!(seen, SOJOURN_SAMPLE_K as u64);
    assert_eq!(res.len(), SOJOURN_SAMPLE_K);
    assert_eq!(res[0], 0.0);
    assert_eq!(res[SOJOURN_SAMPLE_K - 1], (SOJOURN_SAMPLE_K - 1) as f64);
}

#[test]
fn reservoir_replaces_slot_u_mod_n_once_full() {
    let mut res: Vec<f64> = (0..SOJOURN_SAMPLE_K).map(|k| k as f64).collect();
    let mut seen = SOJOURN_SAMPLE_K as u64;
    // The 5001st item with u = 5001 * 3 + 42 lands in slot 42.
    reservoir_push(&mut res, &mut seen, -1.0, 5001 * 3 + 42);
    assert_eq!(seen, 5001);
    assert_eq!(res.len(), SOJOURN_SAMPLE_K);
    assert_eq!(res[42], -1.0);
    assert_eq!(res[41], 41.0);
    // The 5002nd item with u mod 5002 = 5001 falls outside: nothing changes.
    let before = res.clone();
    reservoir_push(&mut res, &mut seen, -2.0, 5001);
    assert_eq!(seen, 5002);
    assert_eq!(res, before);
}

#[test]
fn reservoir_works_for_any_item_type() {
    let mut res: Vec<(usize, u64)> = Vec::new();
    let mut seen = 0u64;
    reservoir_push(&mut res, &mut seen, (3, 9), 0);
    assert_eq!(res, vec![(3, 9)]);
    assert_eq!(seen, 1);
}

#[test]
fn stride_is_one_when_everything_fits_or_there_is_no_cap() {
    assert_eq!(stride(0, 5), 1);
    assert_eq!(stride(5, 5), 1);
    assert_eq!(stride(1_000_000, 0), 1);
}

#[test]
fn stride_is_the_least_step_that_meets_the_cap() {
    // 10 observations, at most 4 rows: a step of 3 keeps 0, 3, 6, 9.
    assert_eq!(stride(10, 4), 3);
    // 100 observations, at most 10 rows: a step of 10 keeps exactly 10.
    assert_eq!(stride(100, 10), 10);
    assert_eq!(stride(101, 10), 11);
    assert_eq!(stride(80_000, 40_000), 2);
}

#[test]
fn thinning_keeps_every_stride_th_observation() {
    let xs: Vec<f64> = (0..10).map(|k| k as f64).collect();
    assert_eq!(thin(&xs, 4), vec![0.0, 3.0, 6.0, 9.0]);
    assert_eq!(thin(&xs, 0), xs);
    assert_eq!(thin(&xs, 10), xs);
    assert_eq!(thin(&xs, 1), vec![0.0]);
    let empty: Vec<f64> = Vec::new();
    assert_eq!(thin(&empty, 3), empty);
}

#[test]
fn thinning_never_exceeds_the_cap() {
    for len in 0..60usize {
        let xs: Vec<usize> = (0..len).collect();
        for cap in 1..20usize {
            let kept = thin(&xs, cap);
            assert!(kept.len() <= cap, "len {len} cap {cap}: kept {}", kept.len());
            assert_eq!(kept.len(), if len == 0 { 0 } else { (len - 1) / stride(len, cap) + 1 });
        }
    }
}
