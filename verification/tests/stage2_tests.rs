use kira_nuclearqc::input::cache::{CachedNormalizedData};
use kira_nuclearqc::input::mtx::{read_mtx_csc, CscMatrix};
use kira_nuclearqc::input::{GeneIndex, InputError, InputSourceKind};
use kira_nuclearqc::pipeline::stage2_normalize::{
    access_step, column_stats, compute_stats, missing_container_error, AccessAction, AccessEvent,
    AccessState, CachedNormalizedAccessor, RawCountsAccessor, Stage2Error, Stage2Params,
};

fn begin(source: InputSourceKind, organelle_present: bool, params: &Stage2Params) -> AccessEvent {
    AccessEvent::Begin {
        source,
        organelle_present,
        normalize: params.normalize,
        cache_normalized: params.cache_normalized,
    }
}

fn params(normalize: bool, cache_normalized: bool) -> Stage2Params {
    Stage2Params { normalize, cache_normalized, cache_path: None }
}

#[test]
fn test_first_load_misses_and_writes_second_load_hits() {
    let start = begin(InputSourceKind::TenX, false, &params(true, true));
    // First load: nothing is cached yet.
    let (state, action) = access_step(AccessState::Planning, start);
    assert_eq!((state, action), (AccessState::AwaitingCache, AccessAction::LookUpCache));
    let (state, action) = access_step(state, AccessEvent::CacheLooked { hit: false });
    assert_eq!((state, action), (AccessState::AwaitingWrite, AccessAction::ComputeAndWrite));
    let (state, action) = access_step(state, AccessEvent::CacheWritten { ok: true });
    assert_eq!((state, action), (AccessState::Serving, AccessAction::ServeComputed { persisted: true }));
    // Second load: the cache has what the first wrote.
    let (state, _) = access_step(AccessState::Planning, start);
    let (state, action) = access_step(state, AccessEvent::CacheLooked { hit: true });
    assert_eq!((state, action), (AccessState::Serving, AccessAction::ServeCached));
}

#[test]
fn test_a_failed_write_loses_persistence_only() {
    let (state, action) =
        access_step(AccessState::AwaitingWrite, AccessEvent::CacheWritten { ok: false });
    assert_eq!((state, action), (AccessState::Serving, AccessAction::ServeComputed { persisted: false }));
    assert!(Stage2Error::Cache("disk full".to_string()).is_recoverable());
    assert!(!Stage2Error::Input(InputError::Io("gone".to_string())).is_recoverable());
    assert_eq!(Stage2Error::Cache("disk full".to_string()).to_string(), "cache error: disk full");
    assert_eq!(
        Stage2Error::from(InputError::Parse("bad".to_string())).to_string(),
        "parse error: bad"
    );
}

#[test]
fn test_the_cache_is_used_only_for_normalized_values_with_caching() {
    for source in [InputSourceKind::TenX, InputSourceKind::OrganelleBin] {
        for (normalize, cache_normalized) in [(false, false), (false, true), (true, false)] {
            let event = begin(source, true, &params(normalize, cache_normalized));
            assert_eq!(
                access_step(AccessState::Planning, event),
                (AccessState::Serving, AccessAction::ServeCounts)
            );
        }
        let event = begin(source, true, &params(true, true));
        assert_eq!(
            access_step(AccessState::Planning, event),
            (AccessState::AwaitingCache, AccessAction::LookUpCache)
        );
    }
}

#[test]
fn test_a_container_bundle_without_container_fails() {
    for p in [params(true, true), params(false, false)] {
        let event = begin(InputSourceKind::OrganelleBin, false, &p);
        assert_eq!(
            access_step(AccessState::Planning, event),
            (AccessState::Serving, AccessAction::FailMissingContainer)
        );
    }
    assert_eq!(missing_container_error().to_string(), "invalid input: missing organelle bin");
    assert!(!missing_container_error().is_recoverable());
}

#[test]
fn test_events_that_do_not_belong_to_the_state_change_nothing() {
    let start = begin(InputSourceKind::TenX, false, &params(true, true));
    for state in
        [AccessState::Planning, AccessState::AwaitingCache, AccessState::AwaitingWrite, AccessState::Serving]
    {
        for event in [
            start,
            AccessEvent::CacheLooked { hit: true },
            AccessEvent::CacheLooked { hit: false },
            AccessEvent::CacheWritten { ok: true },
        ] {
            let fits = matches!(
                (state, event),
                (AccessState::Planning, AccessEvent::Begin { .. })
                    | (AccessState::AwaitingCache, AccessEvent::CacheLooked { .. })
                    | (AccessState::AwaitingWrite, AccessEvent::CacheWritten { .. })
            );
            if !fits {
                assert_eq!(access_step(state, event), (state, AccessAction::Nothing));
            }
        }
    }
}

#[test]
fn test_column_statistics() {
    assert_eq!(column_stats(&[]), (0, 0));
    assert_eq!(column_stats(&[(0, 5), (3, -2), (9, 4)]), (7, 3));
    assert_eq!(
        column_stats(&[(0, i64::MAX), (1, i64::MAX), (2, 2)]),
        (2 * (i64::MAX as i128) + 2, 3)
    );
    assert_eq!(column_stats(&[(0, i64::MIN), (1, i64::MIN)]), (2 * (i64::MIN as i128), 2));
    let csc = CscMatrix { n_rows: 2, n_cols: 2, cols: vec![vec![(1, 4)], vec![]] };
    assert_eq!(compute_stats(&csc), (vec![4, 0], vec![1, 0]));
}

#[test]
fn test_raw_counts_accessor() {
    let index = GeneIndex {
        gene_id_by_feature: vec![Some(0), Some(1), Some(2)],
        symbols_by_gene_id: vec!["A".to_string(), "B".to_string(), "C".to_string()],
    };
    let text = "%%MatrixMarket matrix coordinate integer general\n3 3 4\n1 1 1\n2 1 2\n3 2 3\n1 3 4\n";
    let csc = read_mtx_csc(text, 3, 3, &index).unwrap();
    let accessor = RawCountsAccessor::new(csc, 3);
    assert_eq!(accessor.n_cells(), 3);
    assert_eq!(accessor.n_genes(), 3);
    assert_eq!(accessor.for_cell(0), &vec![(0, 1), (1, 2)]);
    assert_eq!(accessor.for_cell(1), &vec![(2, 3)]);
    assert_eq!(accessor.for_cell(2), &vec![(0, 4)]);
    let libsizes: Vec<i128> = (0..3).map(|c| accessor.libsize(c)).collect();
    assert_eq!(libsizes, vec![3, 3, 4]);
    let nnz: Vec<u32> = (0..3).map(|c| accessor.nnz(c)).collect();
    assert_eq!(nnz, vec![2, 1, 1]);
}

#[test]
fn test_cached_accessor_serves_what_it_was_given() {
    let cached = CachedNormalizedData {
        libsizes: vec![3.0f32.to_bits(), 0],
        nnz: vec![1, 0],
        columns: vec![vec![(4, 1.25f32.to_bits())], vec![]],
    };
    let accessor = CachedNormalizedAccessor::new(cached, 5);
    assert_eq!(accessor.n_cells(), 2);
    assert_eq!(accessor.n_genes(), 5);
    assert_eq!(f32::from_bits(accessor.libsize(0)), 3.0);
    assert_eq!(accessor.nnz(0), 1);
    assert_eq!(accessor.nnz(1), 0);
    assert_eq!(accessor.for_cell(0), &vec![(4, 1.25f32.to_bits())]);
    assert!(accessor.for_cell(1).is_empty());
}
