//! The request lifecycle of state rollbacks.
//!
//! A client asks for a rollback of its predicted state in two ways. A confirmed update that
//! mismatches the prediction records its tick, and the next check that is past this tick asks for
//! one rollback. A check that sees the server's confirmed tick advance asks for a rollback for
//! every entity that was unchanged on the server but mispredicted.

use vstd::prelude::*;

use crate::tick::Tick;

verus! {

/// Why a rollback is requested.
#[derive(Debug, Clone, Copy, PartialEq, Eq, Structural)]
pub enum ModeledRollbackRequestCause {
    /// A confirmed update mismatches the prediction.
    ConfirmedUpdate,
    /// An entity that did not change on the server was mispredicted.
    UnchangedEntity,
}

/// What is known of rollbacks between two checks.
#[derive(Debug, Clone, Copy, PartialEq, Eq, Structural)]
pub struct ModeledStateRollbackMetadata {
    /// The server's confirmed tick at the last check.
    pub last_processed_tick: Option<Tick>,
    /// The earliest recorded mismatch that no check has taken yet.
    pub earliest_mismatch_tick: Option<Tick>,
}

impl Default for ModeledStateRollbackMetadata {
    fn default() -> (metadata: ModeledStateRollbackMetadata)
        ensures
            metadata == fresh_metadata(),
            metadata.last_processed_tick is None,
            metadata.earliest_mismatch_tick is None,
    {
        ModeledStateRollbackMetadata { last_processed_tick: None, earliest_mismatch_tick: None }
    }
}

/// No check has run and no mismatch is recorded.
pub open spec fn fresh_metadata() -> ModeledStateRollbackMetadata {
    ModeledStateRollbackMetadata { last_processed_tick: None, earliest_mismatch_tick: None }
}

/// The metadata with a mismatch recorded: the earlier of it and the one recorded before stays.
pub open spec fn with_mismatch(
    metadata: ModeledStateRollbackMetadata,
    tick: Tick,
) -> ModeledStateRollbackMetadata {
    ModeledStateRollbackMetadata {
        last_processed_tick: metadata.last_processed_tick,
        earliest_mismatch_tick: match metadata.earliest_mismatch_tick {
            Some(existing) => if existing.0 <= tick.0 {
                Some(existing)
            } else {
                Some(tick)
            },
            None => Some(tick),
        },
    }
}

/// The recorded mismatch, if it lies before `local_tick`.
pub open spec fn ready_mismatch(
    metadata: ModeledStateRollbackMetadata,
    local_tick: Tick,
) -> Option<Tick> {
    match metadata.earliest_mismatch_tick {
        Some(tick) => if tick.0 < local_tick.0 {
            Some(tick)
        } else {
            None
        },
        None => None,
    }
}

/// Whether the server's confirmed tick is past the one of the last check.
pub open spec fn has_advanced(
    metadata: ModeledStateRollbackMetadata,
    server_confirmed_tick: Tick,
) -> bool {
    metadata.last_processed_tick matches Some(last) ==> server_confirmed_tick.0 > last.0
}

/// As many requests as there are mispredicted unchanged entities.
pub open spec fn unchanged_requests(tick: Tick, count: nat) -> Seq<
    (ModeledRollbackRequestCause, Tick),
> {
    Seq::new(count, |at: int| (ModeledRollbackRequestCause::UnchangedEntity, tick))
}

/// The requests of a check: at most one for a recorded mismatch, then one for every mispredicted
/// unchanged entity where the server's confirmed tick has advanced.
pub open spec fn check_requests(
    metadata: ModeledStateRollbackMetadata,
    local_tick: Tick,
    server_confirmed_tick: Tick,
    unchanged_entity_mismatch_count: nat,
) -> Seq<(ModeledRollbackRequestCause, Tick)> {
    let confirmed = match ready_mismatch(metadata, local_tick) {
        Some(tick) => seq![(ModeledRollbackRequestCause::ConfirmedUpdate, tick)],
        None => Seq::empty(),
    };
    let unchanged = if has_advanced(metadata, server_confirmed_tick) {
        unchanged_requests(server_confirmed_tick, unchanged_entity_mismatch_count)
    } else {
        Seq::empty()
    };
    confirmed + unchanged
}

/// The metadata after a check: a mismatch that was ready is gone, and the server's confirmed tick
/// is processed.
pub open spec fn checked(
    metadata: ModeledStateRollbackMetadata,
    local_tick: Tick,
    server_confirmed_tick: Tick,
) -> ModeledStateRollbackMetadata {
    ModeledStateRollbackMetadata {
        last_processed_tick: Some(server_confirmed_tick),
        earliest_mismatch_tick: if ready_mismatch(metadata, local_tick) is Some {
            None
        } else {
            metadata.earliest_mismatch_tick
        },
    }
}

impl ModeledStateRollbackMetadata {
    /// Records a mismatch at `tick`.
    pub fn record_mismatch(&mut self, tick: Tick)
        ensures
            *final(self) == with_mismatch(*old(self), tick),
            final(self).last_processed_tick == old(self).last_processed_tick,
            final(self).earliest_mismatch_tick matches Some(earliest) && {
                &&& earliest.0 <= tick.0
                &&& earliest == tick || old(self).earliest_mismatch_tick == Some(earliest)
                &&& old(self).earliest_mismatch_tick matches Some(existing) ==> earliest.0
                    <= existing.0
            },
    {
        match self.earliest_mismatch_tick {
            None => {
                self.earliest_mismatch_tick = Some(tick);
            },
            Some(existing) => {
                if tick.0 < existing.0 {
                    self.earliest_mismatch_tick = Some(tick);
                }
            },
        }
    }

    /// Takes the recorded mismatch, if it lies before `local_tick`.
    pub fn take_ready_mismatch_tick(&mut self, local_tick: Tick) -> (ready: Option<Tick>)
        ensures
            ready == ready_mismatch(*old(self), local_tick),
            final(self).last_processed_tick == old(self).last_processed_tick,
            final(self).earliest_mismatch_tick == (if ready is Some {
                None
            } else {
                old(self).earliest_mismatch_tick
            }),
            ready is Some <==> old(self).earliest_mismatch_tick is Some
                && old(self).earliest_mismatch_tick->Some_0.0 < local_tick.0,
            ready is Some ==> ready == old(self).earliest_mismatch_tick,
    {
        match self.earliest_mismatch_tick {
            None => None,
            Some(mismatch_tick) => {
                if mismatch_tick.0 >= local_tick.0 {
                    return None;
                }
                self.earliest_mismatch_tick = None;
                Some(mismatch_tick)
            },
        }
    }

    /// Whether the server's confirmed tick is past the one of the last check.
    pub fn has_server_mutate_ticks_advanced(&self, server_confirmed_tick: Tick) -> (advanced: bool)
        ensures
            advanced == has_advanced(*self, server_confirmed_tick),
            self.last_processed_tick is None ==> advanced,
            self.last_processed_tick matches Some(last) ==> (advanced <==> server_confirmed_tick.0
                > last.0),
    {
        match self.last_processed_tick {
            None => true,
            Some(last_processed_tick) => server_confirmed_tick.0 > last_processed_tick.0,
        }
    }

    /// Marks the server's confirmed tick as processed.
    pub fn set_last_processed_tick(&mut self, server_confirmed_tick: Tick)
        ensures
            final(self).last_processed_tick == Some(server_confirmed_tick),
            final(self).earliest_mismatch_tick == old(self).earliest_mismatch_tick,
    {
        self.last_processed_tick = Some(server_confirmed_tick);
    }
}

/// Runs a check and gives the rollbacks that it requests.
pub fn simulate_state_check_pass(
    metadata: &mut ModeledStateRollbackMetadata,
    local_tick: Tick,
    server_confirmed_tick: Tick,
    unchanged_entity_mismatch_count: usize,
) -> (requests: Vec<(ModeledRollbackRequestCause, Tick)>)
    ensures
        requests@ == check_requests(
            *old(metadata),
            local_tick,
            server_confirmed_tick,
            unchanged_entity_mismatch_count as nat,
        ),
        *final(metadata) == checked(*old(metadata), local_tick, server_confirmed_tick),
        requests@.len() == (if old(metadata).earliest_mismatch_tick is Some
            && old(metadata).earliest_mismatch_tick->Some_0.0 < local_tick.0 {
            1int
        } else {
            0int
        }) + (if old(metadata).last_processed_tick is None || server_confirmed_tick.0 > old(
            metadata,
        ).last_processed_tick->Some_0.0 {
            unchanged_entity_mismatch_count as int
        } else {
            0int
        }),
        old(metadata).earliest_mismatch_tick matches Some(mismatch) ==> mismatch.0 < local_tick.0
            ==> requests@[0] == (ModeledRollbackRequestCause::ConfirmedUpdate, mismatch),
        forall|at: int|
            (if old(metadata).earliest_mismatch_tick is Some
                && old(metadata).earliest_mismatch_tick->Some_0.0 < local_tick.0 {
                1int
            } else {
                0int
            }) <= at < requests@.len() ==> #[trigger] requests@[at] == (
                ModeledRollbackRequestCause::UnchangedEntity,
                server_confirmed_tick,
            ),
        final(metadata).last_processed_tick == Some(server_confirmed_tick),
        final(metadata).earliest_mismatch_tick == (
        if old(metadata).earliest_mismatch_tick is Some
            && old(metadata).earliest_mismatch_tick->Some_0.0 < local_tick.0 {
            None
        } else {
            old(metadata).earliest_mismatch_tick
        }),
{
    let mut requests: Vec<(ModeledRollbackRequestCause, Tick)> = Vec::new();
    if let Some(mismatch_tick) = metadata.take_ready_mismatch_tick(local_tick) {
        requests.push((ModeledRollbackRequestCause::ConfirmedUpdate, mismatch_tick));
    }
    let ghost confirmed = requests@;
    if metadata.has_server_mutate_ticks_advanced(server_confirmed_tick) {
        let mut count: usize = 0;
        assert(requests@ =~= confirmed + unchanged_requests(server_confirmed_tick, 0));
        while count < unchanged_entity_mismatch_count
            invariant
                count <= unchanged_entity_mismatch_count,
                requests@ == confirmed + unchanged_requests(server_confirmed_tick, count as nat),
            decreases unchanged_entity_mismatch_count - count,
        {
            requests.push((ModeledRollbackRequestCause::UnchangedEntity, server_confirmed_tick));
            count = count + 1;
            assert(requests@ =~= confirmed + unchanged_requests(
                server_confirmed_tick,
                count as nat,
            ));
        }
    }
    metadata.set_last_processed_tick(server_confirmed_tick);
    assert(requests@ =~= check_requests(
        *old(metadata),
        local_tick,
        server_confirmed_tick,
        unchanged_entity_mismatch_count as nat,
    ));
    requests
}

/// The metadata with several mismatches recorded, one after the other.
pub open spec fn with_mismatches(
    metadata: ModeledStateRollbackMetadata,
    ticks: Seq<Tick>,
) -> ModeledStateRollbackMetadata
    decreases ticks.len(),
{
    if ticks.len() == 0 {
        metadata
    } else {
        with_mismatch(with_mismatches(metadata, ticks.drop_last()), ticks.last())
    }
}

/// Of all recorded mismatches the earliest one stays, and nothing else changes.
pub proof fn law_earliest_mismatch_stays(
    metadata: ModeledStateRollbackMetadata,
    ticks: Seq<Tick>,
)
    ensures
        with_mismatches(metadata, ticks).last_processed_tick == metadata.last_processed_tick,
        ticks.len() == 0 ==> with_mismatches(metadata, ticks) == metadata,
        with_mismatches(metadata, ticks).earliest_mismatch_tick matches Some(earliest) ==> {
            &&& metadata.earliest_mismatch_tick == Some(earliest) || ticks.contains(earliest)
            &&& metadata.earliest_mismatch_tick matches Some(tick) ==> earliest.0 <= tick.0
            &&& forall|at: int| 0 <= at < ticks.len() ==> earliest.0 <= (#[trigger] ticks[at]).0
        },
        with_mismatches(metadata, ticks).earliest_mismatch_tick is None ==> ticks.len() == 0
            && metadata.earliest_mismatch_tick is None,
    decreases ticks.len(),
{
    if ticks.len() > 0 {
        let fewer = ticks.drop_last();
        law_earliest_mismatch_stays(metadata, fewer);
        assert(forall|at: int| 0 <= at < fewer.len() ==> #[trigger] ticks[at] == fewer[at]);
        assert(ticks.last() == ticks[ticks.len() - 1]);
        let earliest = with_mismatches(metadata, ticks).earliest_mismatch_tick->Some_0;
        if fewer.contains(earliest) {
            assert(ticks[fewer.index_of(earliest)] == earliest);
        }
    }
}

/// The order in which two mismatches are recorded makes no difference.
pub proof fn law_recording_order_is_irrelevant(
    metadata: ModeledStateRollbackMetadata,
    a: Tick,
    b: Tick,
)
    ensures
        with_mismatch(with_mismatch(metadata, a), b) == with_mismatch(
            with_mismatch(metadata, b),
            a,
        ),
        with_mismatch(with_mismatch(metadata, a), a) == with_mismatch(metadata, a),
{
}

/// A check asks for one rollback at most for a confirmed update, always to a tick before the
/// local tick, and for one rollback to the server's confirmed tick per mispredicted unchanged
/// entity where that tick has advanced.
pub proof fn law_requests_of_a_check(
    metadata: ModeledStateRollbackMetadata,
    local_tick: Tick,
    server_confirmed_tick: Tick,
    count: nat,
)
    ensures
        check_requests(metadata, local_tick, server_confirmed_tick, count).len() == (if ready_mismatch(
            metadata,
            local_tick,
        ) is Some {
            1nat
        } else {
            0nat
        }) + (if has_advanced(metadata, server_confirmed_tick) {
            count
        } else {
            0nat
        }),
        forall|at: int|
            0 <= at < check_requests(metadata, local_tick, server_confirmed_tick, count).len()
                ==> match (#[trigger] check_requests(
                metadata,
                local_tick,
                server_confirmed_tick,
                count,
            )[at]).0 {
                ModeledRollbackRequestCause::ConfirmedUpdate => {
                    &&& at == 0
                    &&& check_requests(metadata, local_tick, server_confirmed_tick, count)[at].1.0
                        < local_tick.0
                    &&& metadata.earliest_mismatch_tick == Some(
                        check_requests(metadata, local_tick, server_confirmed_tick, count)[at].1,
                    )
                },
                ModeledRollbackRequestCause::UnchangedEntity => check_requests(
                    metadata,
                    local_tick,
                    server_confirmed_tick,
                    count,
                )[at].1 == server_confirmed_tick,
            },
{
}

/// A recorded mismatch is requested once: after the check that takes it, no further check asks
/// for a confirmed update until another mismatch is recorded.
pub proof fn law_mismatch_is_requested_once(
    metadata: ModeledStateRollbackMetadata,
    local_tick: Tick,
    server_confirmed_tick: Tick,
    later_local_tick: Tick,
)
    requires
        ready_mismatch(metadata, local_tick) is Some,
    ensures
        ready_mismatch(
            checked(metadata, local_tick, server_confirmed_tick),
            later_local_tick,
        ) is None,
{
}

/// A recorded mismatch that a check is not past yet stays recorded, and the first check that is
/// past it asks for its rollback.
pub proof fn law_pending_mismatch_waits(
    metadata: ModeledStateRollbackMetadata,
    mismatch_tick: Tick,
    local_tick: Tick,
    server_confirmed_tick: Tick,
    later_local_tick: Tick,
)
    requires
        metadata.earliest_mismatch_tick == Some(mismatch_tick),
        local_tick.0 <= mismatch_tick.0 < later_local_tick.0,
    ensures
        ready_mismatch(metadata, local_tick) is None,
        ready_mismatch(
            checked(metadata, local_tick, server_confirmed_tick),
            later_local_tick,
        ) == Some(mismatch_tick),
{
}

/// Unchanged entities ask for rollbacks once per confirmed tick: after a check, whatever
/// mismatches are recorded, a check at the same or an earlier confirmed tick asks for none.
pub proof fn law_confirmed_tick_fans_out_once(
    metadata: ModeledStateRollbackMetadata,
    local_tick: Tick,
    server_confirmed_tick: Tick,
    recorded: Seq<Tick>,
    second_confirmed_tick: Tick,
)
    requires
        second_confirmed_tick.0 <= server_confirmed_tick.0,
    ensures
        !has_advanced(
            with_mismatches(checked(metadata, local_tick, server_confirmed_tick), recorded),
            second_confirmed_tick,
        ),
{
    law_earliest_mismatch_stays(checked(metadata, local_tick, server_confirmed_tick), recorded);
}

/// Two rollbacks can be asked for one window: where no mismatch is recorded, a check asks for
/// unchanged entities only, and a mismatch that is then recorded for the same tick makes the next
/// check ask for exactly one more rollback to it.
pub proof fn law_confirmed_update_can_follow_unchanged_entities(
    metadata: ModeledStateRollbackMetadata,
    local_tick: Tick,
    mismatch_tick: Tick,
    count: nat,
    later_count: nat,
)
    requires
        metadata.earliest_mismatch_tick is None,
        has_advanced(metadata, mismatch_tick),
        mismatch_tick.0 < local_tick.0,
    ensures
        check_requests(metadata, local_tick, mismatch_tick, count) == unchanged_requests(
            mismatch_tick,
            count,
        ),
        check_requests(
            with_mismatch(checked(metadata, local_tick, mismatch_tick), mismatch_tick),
            local_tick,
            mismatch_tick,
            later_count,
        ) == seq![(ModeledRollbackRequestCause::ConfirmedUpdate, mismatch_tick)],
{
    assert(check_requests(metadata, local_tick, mismatch_tick, count) =~= unchanged_requests(
        mismatch_tick,
        count,
    ));
    assert(check_requests(
        with_mismatch(checked(metadata, local_tick, mismatch_tick), mismatch_tick),
        local_tick,
        mismatch_tick,
        later_count,
    ) =~= seq![(ModeledRollbackRequestCause::ConfirmedUpdate, mismatch_tick)]);
}

/// Whenever the server's confirmed tick is past the one of the last check, by however much, or no
/// check has run yet, a check ends in one request per mispredicted unchanged entity, each to the
/// confirmed tick. Where the tick is not past it, a check requests nothing for them.
pub proof fn law_advanced_tick_rolls_back_unchanged_entities(
    metadata: ModeledStateRollbackMetadata,
    local_tick: Tick,
    server_confirmed_tick: Tick,
    count: nat,
)
    ensures
        metadata.last_processed_tick is None || server_confirmed_tick.0
            > metadata.last_processed_tick->Some_0.0 ==> {
            let requests = check_requests(metadata, local_tick, server_confirmed_tick, count);
            &&& count <= requests.len() <= count + 1
            &&& forall|at: int|
                requests.len() - count <= at < requests.len() ==> #[trigger] requests[at] == (
                    ModeledRollbackRequestCause::UnchangedEntity,
                    server_confirmed_tick,
                )
        },
        metadata.last_processed_tick matches Some(last) ==> server_confirmed_tick.0 <= last.0 ==> {
            let requests = check_requests(metadata, local_tick, server_confirmed_tick, count);
            &&& requests.len() <= 1
            &&& forall|at: int|
                0 <= at < requests.len() ==> (#[trigger] requests[at]).0
                    == ModeledRollbackRequestCause::ConfirmedUpdate
        },
{
}

/// A check opens with a request for a recorded mismatch if and only if the mismatch lies before
/// the local tick, and then forgets it; a mismatch that does not stays recorded. In any case the
/// confirmed tick is processed.
pub proof fn law_past_mismatch_rolls_back_first(
    metadata: ModeledStateRollbackMetadata,
    mismatch: Tick,
    local_tick: Tick,
    server_confirmed_tick: Tick,
    count: nat,
)
    ensures
        checked(metadata, local_tick, server_confirmed_tick).last_processed_tick == Some(
            server_confirmed_tick,
        ),
        metadata.earliest_mismatch_tick == Some(mismatch) && mismatch.0 < local_tick.0 ==> {
            let requests = check_requests(metadata, local_tick, server_confirmed_tick, count);
            &&& requests.len() > 0
            &&& requests[0] == (ModeledRollbackRequestCause::ConfirmedUpdate, mismatch)
            &&& checked(
                metadata,
                local_tick,
                server_confirmed_tick,
            ).earliest_mismatch_tick is None
        },
        metadata.earliest_mismatch_tick == Some(mismatch) && mismatch.0 >= local_tick.0
            ==> checked(metadata, local_tick, server_confirmed_tick).earliest_mismatch_tick == Some(
            mismatch,
        ),
        metadata.earliest_mismatch_tick is None ==> checked(
            metadata,
            local_tick,
            server_confirmed_tick,
        ).earliest_mismatch_tick is None,
        metadata.earliest_mismatch_tick is None || metadata.earliest_mismatch_tick->Some_0.0
            >= local_tick.0 ==> {
            let requests = check_requests(metadata, local_tick, server_confirmed_tick, count);
            forall|at: int|
                0 <= at < requests.len() ==> (#[trigger] requests[at]).0
                    == ModeledRollbackRequestCause::UnchangedEntity
        },
{
}

/// Where no mismatch is recorded, a check after another one requests exactly one rollback per
/// mispredicted unchanged entity if its confirmed tick is the later of the two, by however much,
/// and nothing otherwise.
pub proof fn law_second_check_counts_its_own_entities(
    metadata: ModeledStateRollbackMetadata,
    local_tick: Tick,
    first_tick: Tick,
    second_tick: Tick,
    count: nat,
)
    requires
        metadata.earliest_mismatch_tick is None,
    ensures
        second_tick.0 > first_tick.0 ==> check_requests(
            checked(metadata, local_tick, first_tick),
            local_tick,
            second_tick,
            count,
        ) == Seq::new(
            count,
            |at: int| (ModeledRollbackRequestCause::UnchangedEntity, second_tick),
        ),
        second_tick.0 <= first_tick.0 ==> check_requests(
            checked(metadata, local_tick, first_tick),
            local_tick,
            second_tick,
            count,
        ) == Seq::<(ModeledRollbackRequestCause, Tick)>::empty(),
{
    let requests = check_requests(
        checked(metadata, local_tick, first_tick),
        local_tick,
        second_tick,
        count,
    );
    if second_tick.0 > first_tick.0 {
        assert(requests =~= Seq::new(
            count,
            |at: int| (ModeledRollbackRequestCause::UnchangedEntity, second_tick),
        ));
    } else {
        assert(requests =~= Seq::<(ModeledRollbackRequestCause, Tick)>::empty());
    }
}

/// Recording a mismatch keeps the smaller of its tick number and the recorded one, and leaves the
/// processed tick alone.
pub proof fn law_recording_keeps_the_smaller_tick(
    metadata: ModeledStateRollbackMetadata,
    recorded: Tick,
    tick: Tick,
)
    ensures
        with_mismatch(metadata, tick).last_processed_tick == metadata.last_processed_tick,
        metadata.earliest_mismatch_tick is None ==> with_mismatch(
            metadata,
            tick,
        ).earliest_mismatch_tick == Some(tick),
        metadata.earliest_mismatch_tick == Some(recorded) && recorded.0 <= tick.0
            ==> with_mismatch(metadata, tick).earliest_mismatch_tick == Some(recorded),
        metadata.earliest_mismatch_tick == Some(recorded) && tick.0 <= recorded.0
            ==> with_mismatch(metadata, tick).earliest_mismatch_tick == Some(tick),
{
}

} // verus!
