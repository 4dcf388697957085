use lightyear_replication::rollback::simulate_state_check_pass;
use lightyear_replication::rollback::ModeledRollbackRequestCause;
use lightyear_replication::rollback::ModeledStateRollbackMetadata;
use lightyear_replication::tick::Tick;

/// More than one stale predicted entity can emit an unchanged-entity rollback request in a single
/// state check pass.
#[test]
fn test_state_rollback_request_model_allows_unchanged_entity_fanout() {
    let mut metadata = ModeledStateRollbackMetadata::default();

    let requests = simulate_state_check_pass(&mut metadata, Tick(904), Tick(903), 2);

    assert_eq!(
        requests,
        vec![
            (ModeledRollbackRequestCause::UnchangedEntity, Tick(903)),
            (ModeledRollbackRequestCause::UnchangedEntity, Tick(903)),
        ]
    );
}

/// Pass 1 emits an unchanged-entity rollback request for a server-confirmed tick. After
/// rollback/replay, state diffing can record a confirmed-update mismatch for that same tick. Pass
/// 2 then emits a confirmed-update rollback request for the same rollback window.
#[test]
fn test_state_rollback_request_model_allows_unchanged_then_confirmed_follow_up_same_window() {
    let mut metadata = ModeledStateRollbackMetadata::default();

    let mismatch_tick = Tick(903);
    let local_tick = Tick(904);

    let pass1 = simulate_state_check_pass(&mut metadata, local_tick, mismatch_tick, 1);
    assert_eq!(
        pass1,
        vec![(ModeledRollbackRequestCause::UnchangedEntity, mismatch_tick)]
    );

    // Between passes, mismatch is re-recorded by state diffing.
    metadata.record_mismatch(mismatch_tick);

    let pass2 = simulate_state_check_pass(&mut metadata, local_tick, mismatch_tick, 0);
    assert_eq!(
        pass2,
        vec![(ModeledRollbackRequestCause::ConfirmedUpdate, mismatch_tick)]
    );
}

/// If unchanged-entity mismatch is absent, a confirmed-update mismatch produces a single
/// confirmed-update rollback request.
#[test]
fn test_state_rollback_request_model_confirmed_update_only_is_single_request() {
    let mut metadata = ModeledStateRollbackMetadata::default();

    metadata.record_mismatch(Tick(50));

    let requests = simulate_state_check_pass(&mut metadata, Tick(51), Tick(50), 0);

    assert_eq!(
        requests,
        vec![(ModeledRollbackRequestCause::ConfirmedUpdate, Tick(50))]
    );
}

#[test]
fn earliest_mismatch_stays_in_any_order() {
    let mut a = ModeledStateRollbackMetadata::default();
    a.record_mismatch(Tick(7));
    a.record_mismatch(Tick(5));
    a.record_mismatch(Tick(9));
    let mut b = ModeledStateRollbackMetadata::default();
    b.record_mismatch(Tick(9));
    b.record_mismatch(Tick(7));
    b.record_mismatch(Tick(5));
    assert_eq!(a.earliest_mismatch_tick, Some(Tick(5)));
    assert_eq!(a, b);
}

#[test]
fn pending_mismatch_waits_and_is_requested_once() {
    let mut metadata = ModeledStateRollbackMetadata::default();
    metadata.record_mismatch(Tick(50));

    // Tick 50 is not in the past yet.
    assert_eq!(metadata.take_ready_mismatch_tick(Tick(50)), None);
    assert_eq!(metadata.earliest_mismatch_tick, Some(Tick(50)));

    assert_eq!(metadata.take_ready_mismatch_tick(Tick(51)), Some(Tick(50)));
    assert_eq!(metadata.take_ready_mismatch_tick(Tick(60)), None);
}

#[test]
fn confirmed_tick_fans_out_once() {
    let mut metadata = ModeledStateRollbackMetadata::default();
    assert!(metadata.has_server_mutate_ticks_advanced(Tick(0)));
    assert_eq!(
        simulate_state_check_pass(&mut metadata, Tick(12), Tick(10), 3).len(),
        3
    );
    metadata.record_mismatch(Tick(10));
    assert!(!metadata.has_server_mutate_ticks_advanced(Tick(10)));
    assert!(!metadata.has_server_mutate_ticks_advanced(Tick(9)));
    assert!(metadata.has_server_mutate_ticks_advanced(Tick(11)));
    let requests = simulate_state_check_pass(&mut metadata, Tick(12), Tick(10), 3);
    assert_eq!(
        requests,
        vec![(ModeledRollbackRequestCause::ConfirmedUpdate, Tick(10))]
    );
}

#[test]
fn confirmed_update_is_requested_before_unchanged_entities() {
    let mut metadata = ModeledStateRollbackMetadata::default();
    metadata.record_mismatch(Tick(3));
    metadata.set_last_processed_tick(Tick(4));
    let requests = simulate_state_check_pass(&mut metadata, Tick(8), Tick(6), 1);
    assert_eq!(
        requests,
        vec![
            (ModeledRollbackRequestCause::ConfirmedUpdate, Tick(3)),
            (ModeledRollbackRequestCause::UnchangedEntity, Tick(6)),
        ]
    );
    assert_eq!(metadata.last_processed_tick, Some(Tick(6)));
    assert_eq!(metadata.earliest_mismatch_tick, None);
}
