//! The migration orchestrator's decisions: the states of one entity's unit
//! of work, what each state waits for, and what a batch of units came to.
//!
//! The caller runs the units, each on its own: it performs the action that
//! a unit's state waits for and hands back what happened as an event. No
//! unit reads another's state.

use crate::image::{ImageReply, UploadFailure};
use crate::submit::SubmissionResult;
use vstd::prelude::*;

verus! {

/// Where one entity's unit of work stands.
#[derive(Debug, PartialEq, Eq)]
pub enum UnitState {
    /// The entity was fetched; nothing has been done with it.
    Fetched,
    /// The asset was dealt with: `reference` is what the destination gave
    /// for it, or nothing where the upload failed.
    AssetResolved { reference: Option<String> },
    /// The payload was built, with `reference` as its asset reference.
    Transformed { reference: Option<String> },
    /// The destination created the entity: its reference for it.
    Submitted { created: String },
    /// The submission failed: why.
    Failed { result: SubmissionResult },
}

/// What happened in a unit of work.
#[derive(Debug, PartialEq, Eq)]
pub enum UnitEvent {
    /// The upload of the entity's asset ended.
    AssetDone { upload: Result<ImageReply, UploadFailure> },
    /// The payload was built.
    TransformDone,
    /// The submission ended.
    SubmitDone { result: SubmissionResult },
}

/// What a unit of work does next.
#[derive(Debug, PartialEq, Eq)]
pub enum UnitAction {
    /// Upload the entity's asset.
    UploadAsset,
    /// Build the payload, with `reference` as its asset reference.
    Transform { reference: Option<String> },
    /// Submit the payload.
    Submit,
    /// Nothing: the unit has ended.
    Finish,
}

/// What an upload gives to the payload: the destination's reference where
/// the upload succeeded, nothing where it failed.
pub open spec fn asset_reference(upload: Result<ImageReply, UploadFailure>) -> Option<String> {
    match upload {
        Ok(reply) => Some(reply.image),
        Err(_) => None,
    }
}

/// Where a submission's result leaves the unit.
pub open spec fn submitted_state(result: SubmissionResult) -> UnitState {
    match result {
        SubmissionResult::Success(created) => UnitState::Submitted { created },
        _ => UnitState::Failed { result },
    }
}

/// The state after `event` in the state `state`, for an entity that has an
/// asset or has none. An event that the state does not wait for changes
/// nothing.
pub open spec fn stepped(has_asset: bool, state: UnitState, event: UnitEvent) -> UnitState {
    match (state, event) {
        (UnitState::Fetched, UnitEvent::AssetDone { upload }) => if has_asset {
            UnitState::AssetResolved { reference: asset_reference(upload) }
        } else {
            state
        },
        (UnitState::Fetched, UnitEvent::TransformDone) => if has_asset {
            state
        } else {
            UnitState::Transformed { reference: None }
        },
        (UnitState::AssetResolved { reference }, UnitEvent::TransformDone) => UnitState::Transformed {
            reference,
        },
        (UnitState::Transformed { reference }, UnitEvent::SubmitDone { result }) => submitted_state(
            result,
        ),
        _ => state,
    }
}

/// What the state `state` waits for.
pub open spec fn awaited(has_asset: bool, state: UnitState) -> UnitAction {
    match state {
        UnitState::Fetched => if has_asset {
            UnitAction::UploadAsset
        } else {
            UnitAction::Transform { reference: None }
        },
        UnitState::AssetResolved { reference } => UnitAction::Transform { reference },
        UnitState::Transformed { reference } => UnitAction::Submit,
        UnitState::Submitted { created } => UnitAction::Finish,
        UnitState::Failed { result } => UnitAction::Finish,
    }
}

/// The state of a unit after the events `events`, from `Fetched` on.
pub open spec fn replayed(has_asset: bool, events: Seq<UnitEvent>) -> UnitState
    decreases events.len(),
{
    if events.len() == 0 {
        UnitState::Fetched
    } else {
        stepped(has_asset, replayed(has_asset, events.drop_last()), events.last())
    }
}

/// Whether the unit has ended.
pub open spec fn ended(state: UnitState) -> bool {
    state is Submitted || state is Failed
}

/// What the state `state` waits for: the action that the caller performs
/// next.
pub fn next_action(has_asset: bool, state: &UnitState) -> (action: UnitAction)
    ensures
        action == awaited(has_asset, *state),
        action is Finish <==> ended(*state),
{
    match state {
        UnitState::Fetched => if has_asset {
            UnitAction::UploadAsset
        } else {
            UnitAction::Transform { reference: None }
        },
        UnitState::AssetResolved { reference } => match reference {
            Some(r) => UnitAction::Transform { reference: Some(r.clone()) },
            None => UnitAction::Transform { reference: None },
        },
        UnitState::Transformed { .. } => UnitAction::Submit,
        UnitState::Submitted { .. } => UnitAction::Finish,
        UnitState::Failed { .. } => UnitAction::Finish,
    }
}

/// The state after `event` in the state `state`.
pub fn step(has_asset: bool, state: UnitState, event: UnitEvent) -> (next: UnitState)
    ensures
        next == stepped(has_asset, state, event),
{
    match state {
        UnitState::Fetched => match event {
            UnitEvent::AssetDone { upload } => if has_asset {
                match upload {
                    Ok(reply) => UnitState::AssetResolved { reference: Some(reply.image) },
                    Err(_) => UnitState::AssetResolved { reference: None },
                }
            } else {
                UnitState::Fetched
            },
            UnitEvent::TransformDone => if has_asset {
                UnitState::Fetched
            } else {
                UnitState::Transformed { reference: None }
            },
            UnitEvent::SubmitDone { .. } => UnitState::Fetched,
        },
        UnitState::AssetResolved { reference } => match event {
            UnitEvent::TransformDone => UnitState::Transformed { reference },
            _ => UnitState::AssetResolved { reference },
        },
        UnitState::Transformed { reference } => match event {
            UnitEvent::SubmitDone { result } => match result {
                SubmissionResult::Success(created) => UnitState::Submitted { created },
                other => UnitState::Failed { result: other },
            },
            _ => UnitState::Transformed { reference },
        },
        UnitState::Submitted { created } => UnitState::Submitted { created },
        UnitState::Failed { result } => UnitState::Failed { result },
    }
}

/// One unit of work as it went: whether the entity has an asset, and what
/// happened, in order.
#[derive(Debug, PartialEq, Eq)]
pub struct Unit {
    pub has_asset: bool,
    pub events: Vec<UnitEvent>,
}

/// The state in which `unit` ended up.
pub open spec fn unit_result(unit: Unit) -> UnitState {
    replayed(unit.has_asset, unit.events@)
}

/// The states in which the units `units` ended up, one for each, in their
/// order.
pub open spec fn batch_results(units: Seq<Unit>) -> Seq<UnitState> {
    Seq::new(units.len(), |i: int| unit_result(units[i]))
}

/// The state of a unit after the events `events`, from `Fetched` on.
pub fn run_unit(has_asset: bool, events: Vec<UnitEvent>) -> (state: UnitState)
    ensures
        state == replayed(has_asset, events@),
{
    let ghost all = events@;
    let mut events = events;
    let mut rest: Vec<UnitEvent> = Vec::new();
    // The events are taken from the end, so they are put in reverse first.
    while events.len() > 0
        invariant
            all == events@ + rest@.reverse(),
        decreases events.len(),
    {
        let ghost before = events@;
        let ghost turned = rest@;
        let event = events.pop().unwrap();
        rest.push(event);
        proof {
            assert(rest@.reverse() == seq![event] + turned.reverse());
            assert(before == events@.push(event));
            assert(events@.push(event) + turned.reverse() == events@ + (seq![event]
                + turned.reverse()));
        }
    }
    proof {
        assert(all == rest@.reverse());
        assert(all.take(0) == Seq::<UnitEvent>::empty());
    }
    let mut state = UnitState::Fetched;
    let ghost mut done: int = 0;
    while rest.len() > 0
        invariant
            0 <= done <= all.len(),
            rest@.len() == all.len() - done,
            all.skip(done) == rest@.reverse(),
            state == replayed(has_asset, all.take(done)),
        decreases rest.len(),
    {
        let ghost turned = rest@;
        let event = rest.pop().unwrap();
        proof {
            assert(turned.reverse()[0] == event);
            assert(all[done] == all.skip(done)[0]);
            assert(all.take(done + 1).drop_last() == all.take(done));
            assert(all.take(done + 1).last() == event);
            assert(rest@.reverse() == turned.reverse().skip(1));
            assert(all.skip(done).skip(1) == all.skip(done + 1));
        }
        state = step(has_asset, state, event);
        proof {
            done = done + 1;
        }
    }
    proof {
        assert(all.take(all.len() as int) == all);
    }
    state
}

/// The states in which the units `units` ended up: one for each, in their
/// order, each decided by its own events alone.
pub fn run_batch(units: Vec<Unit>) -> (states: Vec<UnitState>)
    ensures
        states@ == batch_results(units@),
{
    let ghost all = units@;
    let mut units = units;
    let mut turned: Vec<UnitState> = Vec::new();
    // The units are taken from the end, so the states come out in reverse.
    while units.len() > 0
        invariant
            units@.len() <= all.len(),
            units@ == all.take(units@.len() as int),
            turned@.len() == all.len() - units@.len(),
            forall|j: int|
                0 <= j < turned@.len() ==> #[trigger] turned@[j] == unit_result(
                    all[all.len() - 1 - j],
                ),
        decreases units.len(),
    {
        let ghost before = units@;
        let unit = units.pop().unwrap();
        proof {
            assert(unit == all[before.len() - 1]);
            assert(units@ == all.take(units@.len() as int));
        }
        let state = run_unit(unit.has_asset, unit.events);
        turned.push(state);
    }
    let mut states: Vec<UnitState> = Vec::new();
    while turned.len() > 0
        invariant
            states@.len() + turned@.len() == all.len(),
            forall|j: int|
                0 <= j < turned@.len() ==> #[trigger] turned@[j] == unit_result(
                    all[all.len() - 1 - j],
                ),
            forall|j: int| 0 <= j < states@.len() ==> #[trigger] states@[j] == unit_result(all[j]),
        decreases turned.len(),
    {
        let ghost left = turned@;
        let state = turned.pop().unwrap();
        proof {
            assert(state == left[left.len() - 1]);
        }
        states.push(state);
    }
    proof {
        assert(states@ == batch_results(all));
    }
    states
}

/// How a batch ended: how many entities were created at the destination,
/// how many submissions failed, and how many units did not get that far.
#[derive(Debug, Clone, Copy, PartialEq, Eq, Structural)]
pub struct Summary {
    pub submitted: usize,
    pub failed: usize,
    pub unfinished: usize,
}

/// How many of `states` are `Submitted`.
pub open spec fn submitted_count(states: Seq<UnitState>) -> nat
    decreases states.len(),
{
    if states.len() == 0 {
        0
    } else {
        submitted_count(states.drop_last()) + if states.last() is Submitted {
            1nat
        } else {
            0nat
        }
    }
}

/// How many of `states` are `Failed`.
pub open spec fn failed_count(states: Seq<UnitState>) -> nat
    decreases states.len(),
{
    if states.len() == 0 {
        0
    } else {
        failed_count(states.drop_last()) + if states.last() is Failed {
            1nat
        } else {
            0nat
        }
    }
}

/// Counts how the units of a batch ended. Every unit is counted once.
pub fn summarize(states: &[UnitState]) -> (summary: Summary)
    ensures
        summary.submitted == submitted_count(states@),
        summary.failed == failed_count(states@),
        summary.submitted + summary.failed + summary.unfinished == states@.len(),
{
    let mut submitted: usize = 0;
    let mut failed: usize = 0;
    let mut unfinished: usize = 0;
    let mut i: usize = 0;
    proof {
        assert(states@.take(0) == Seq::<UnitState>::empty());
    }
    while i < states.len()
        invariant
            i <= states.len(),
            submitted == submitted_count(states@.take(i as int)),
            failed == failed_count(states@.take(i as int)),
            submitted + failed + unfinished == i,
        decreases states.len() - i,
    {
        proof {
            assert(states@.take(i + 1).drop_last() == states@.take(i as int));
            assert(states@.take(i + 1).last() == states@[i as int]);
        }
        match states[i] {
            UnitState::Submitted { .. } => {
                submitted += 1;
            },
            UnitState::Failed { .. } => {
                failed += 1;
            },
            _ => {
                unfinished += 1;
            },
        }
        i += 1;
    }
    proof {
        assert(states@.take(states@.len() as int) == states@);
    }
    Summary { submitted, failed, unfinished }
}

/// A unit that ran from upload to submission ends where the submission's
/// result leaves it: `Submitted` for a success, `Failed` for anything else.
/// What the upload came to plays no part in that.
pub proof fn lemma_unit_with_asset_ends(
    upload: Result<ImageReply, UploadFailure>,
    result: SubmissionResult,
)
    ensures
        replayed(
            true,
            seq![
                UnitEvent::AssetDone { upload },
                UnitEvent::TransformDone,
                UnitEvent::SubmitDone { result },
            ],
        ) == submitted_state(result),
        result is Success <==> submitted_state(result) is Submitted,
        !(result is Success) <==> submitted_state(result) is Failed,
{
    let e0 = UnitEvent::AssetDone { upload };
    let e1 = UnitEvent::TransformDone;
    let e2 = UnitEvent::SubmitDone { result };
    let all = seq![e0, e1, e2];
    assert(all.drop_last() == seq![e0, e1]);
    assert(seq![e0, e1].drop_last() == seq![e0]);
    assert(seq![e0].drop_last() == Seq::<UnitEvent>::empty());
    assert(replayed(true, seq![e0].drop_last()) == UnitState::Fetched);
    assert(seq![e0].last() == e0);
    assert(replayed(true, seq![e0]) == UnitState::AssetResolved {
        reference: asset_reference(upload),
    });
    assert(replayed(true, seq![e0, e1]) == UnitState::Transformed {
        reference: asset_reference(upload),
    });
}

/// A unit of an entity without an asset that ran to submission ends where
/// the submission's result leaves it.
pub proof fn lemma_unit_without_asset_ends(result: SubmissionResult)
    ensures
        replayed(false, seq![UnitEvent::TransformDone, UnitEvent::SubmitDone { result }])
            == submitted_state(result),
{
    let e1 = UnitEvent::TransformDone;
    let e2 = UnitEvent::SubmitDone { result };
    assert(seq![e1, e2].drop_last() == seq![e1]);
    assert(seq![e1].drop_last() == Seq::<UnitEvent>::empty());
    assert(replayed(false, seq![e1].drop_last()) == UnitState::Fetched);
    assert(seq![e1].last() == e1);
    assert(replayed(false, seq![e1]) == UnitState::Transformed { reference: None });
}

/// Every unit of a batch has its state, and the state of a unit depends on
/// that unit alone: whatever happens in the unit at `j`, every other unit
/// ends as it would have ended anyway.
pub proof fn lemma_units_are_isolated(units: Seq<Unit>, j: int, other: Unit)
    requires
        0 <= j < units.len(),
    ensures
        batch_results(units).len() == units.len(),
        batch_results(units.update(j, other)).len() == units.len(),
        forall|i: int|
            0 <= i < units.len() && i != j ==> #[trigger] batch_results(units.update(j, other))[i]
                == batch_results(units)[i],
{
}

/// How far a unit has come: from 0 for `Fetched` to 3 for a unit that has
/// ended.
pub open spec fn stage(state: UnitState) -> nat {
    match state {
        UnitState::Fetched => 0,
        UnitState::AssetResolved { reference } => 1,
        UnitState::Transformed { reference } => 2,
        UnitState::Submitted { created } => 3,
        UnitState::Failed { result } => 3,
    }
}

/// `event` reports the end of what `action` asked for.
pub open spec fn answers(action: UnitAction, event: UnitEvent) -> bool {
    match (action, event) {
        (UnitAction::UploadAsset, UnitEvent::AssetDone { upload }) => true,
        (UnitAction::Transform { reference }, UnitEvent::TransformDone) => true,
        (UnitAction::Submit, UnitEvent::SubmitDone { result }) => true,
        _ => false,
    }
}

/// A unit whose caller reports the end of what the state waited for moves
/// on: its stage grows, whether the action succeeded or failed. So no unit
/// takes more than three actions, and a unit ends once the submission is
/// reported, whatever its result.
pub proof fn lemma_unit_moves_on(has_asset: bool, state: UnitState, event: UnitEvent)
    requires
        !ended(state),
        answers(awaited(has_asset, state), event),
    ensures
        stage(stepped(has_asset, state, event)) > stage(state),
        stage(stepped(has_asset, state, event)) <= 3,
        stage(stepped(has_asset, state, event)) == 3 <==> ended(stepped(has_asset, state, event)),
        event is SubmitDone ==> ended(stepped(has_asset, state, event)),
{
}

/// After the upload of an entity's asset, the payload is built with what the
/// upload gave: the destination's reference where it succeeded, nothing
/// where it failed. For an entity without an asset it is built with nothing.
pub proof fn lemma_payload_reference(has_asset: bool, upload: Result<ImageReply, UploadFailure>)
    ensures
        awaited(true, stepped(true, UnitState::Fetched, UnitEvent::AssetDone { upload }))
            == (UnitAction::Transform { reference: asset_reference(upload) }),
        upload is Err ==> asset_reference(upload) is None,
        upload matches Ok(reply) ==> asset_reference(upload) == Some(reply.image),
        awaited(false, UnitState::Fetched) == (UnitAction::Transform { reference: None }),
{
}

/// Among `events`, the end of an upload is reported at `i`.
pub open spec fn upload_at(events: Seq<UnitEvent>, i: int) -> bool {
    0 <= i < events.len() && events[i] is AssetDone
}

/// Among `events`, the end of an upload is reported at `i` and, later, the
/// end of a submission at `k`.
pub open spec fn upload_then_submission(events: Seq<UnitEvent>, i: int, k: int) -> bool {
    upload_at(events, i) && i < k < events.len() && events[k] is SubmitDone
}

/// For an entity with an asset the upload comes before the submission: a
/// unit gets past `Fetched` only once the end of the upload was reported,
/// and it ends only once, after that, the end of the submission was.
pub proof fn lemma_upload_precedes_submission(events: Seq<UnitEvent>)
    ensures
        stage(replayed(true, events)) >= 1 ==> exists|i: int| upload_at(events, i),
        ended(replayed(true, events)) ==> exists|i: int, k: int|
            upload_then_submission(events, i, k),
    decreases events.len(),
{
    if events.len() > 0 {
        let before = events.drop_last();
        let state = replayed(true, before);
        let event = events.last();
        let last = events.len() - 1;
        lemma_upload_precedes_submission(before);
        if stage(replayed(true, events)) >= 1 {
            if stage(state) >= 1 {
                let i = choose|i: int| upload_at(before, i);
                assert(events[i] == before[i]);
                assert(upload_at(events, i));
                if ended(replayed(true, events)) {
                    if ended(state) {
                        let (j, k) = choose|j: int, k: int| upload_then_submission(before, j, k);
                        assert(events[j] == before[j]);
                        assert(events[k] == before[k]);
                        assert(upload_then_submission(events, j, k));
                    } else {
                        assert(events[last] == event);
                        assert(upload_then_submission(events, i, last));
                    }
                }
            } else {
                assert(events[last] == event);
                assert(upload_at(events, last));
            }
        }
    }
}

/// An ended unit stays as it is, whatever is reported to it.
pub proof fn lemma_ended_unit_stays(has_asset: bool, state: UnitState, event: UnitEvent)
    requires
        ended(state),
    ensures
        stepped(has_asset, state, event) == state,
{
}

/// The asset reference that a unit holds is what a successful upload gave:
/// where the state holds a reference, the entity has an asset and one of
/// the events is an upload that succeeded with that reference. So after a
/// failed upload, and for an entity without an asset, there is none.
pub proof fn lemma_reference_is_from_upload(has_asset: bool, events: Seq<UnitEvent>)
    ensures
        match replayed(has_asset, events) {
            UnitState::AssetResolved { reference } => reference_is_from_upload(
                has_asset,
                events,
                reference,
            ),
            UnitState::Transformed { reference } => reference_is_from_upload(
                has_asset,
                events,
                reference,
            ),
            _ => true,
        },
    decreases events.len(),
{
    if events.len() > 0 {
        let before = events.drop_last();
        lemma_reference_is_from_upload(has_asset, before);
        let state = replayed(has_asset, before);
        let event = events.last();
        match stepped(has_asset, state, event) {
            UnitState::AssetResolved { reference } => {
                lemma_reference_carries_over(has_asset, state, event, events, reference);
            },
            UnitState::Transformed { reference } => {
                lemma_reference_carries_over(has_asset, state, event, events, reference);
            },
            _ => {},
        }
    }
}

/// `event` is an upload that succeeded with the reference `reference`.
pub open spec fn succeeded_with(event: UnitEvent, reference: String) -> bool {
    match event {
        UnitEvent::AssetDone { upload: Ok(reply) } => reply.image == reference,
        _ => false,
    }
}

/// `reference` is nothing, or the entity has an asset and `reference` is
/// what an upload among `events` succeeded with.
pub open spec fn reference_is_from_upload(
    has_asset: bool,
    events: Seq<UnitEvent>,
    reference: Option<String>,
) -> bool {
    reference is Some ==> has_asset && exists|k: int|
        0 <= k < events.len() && succeeded_with(#[trigger] events[k], reference.unwrap())
}

/// One step keeps the reference that was there, or takes it from the event.
proof fn lemma_reference_carries_over(
    has_asset: bool,
    state: UnitState,
    event: UnitEvent,
    events: Seq<UnitEvent>,
    reference: Option<String>,
)
    requires
        events.len() > 0,
        event == events.last(),
        state == replayed(has_asset, events.drop_last()),
        match state {
            UnitState::AssetResolved { reference } => reference_is_from_upload(
                has_asset,
                events.drop_last(),
                reference,
            ),
            UnitState::Transformed { reference } => reference_is_from_upload(
                has_asset,
                events.drop_last(),
                reference,
            ),
            _ => true,
        },
        stepped(has_asset, state, event) == (UnitState::AssetResolved { reference }) || stepped(
            has_asset,
            state,
            event,
        ) == (UnitState::Transformed { reference }),
    ensures
        reference_is_from_upload(has_asset, events, reference),
{
    let before = events.drop_last();
    if reference is Some {
        match state {
            UnitState::Fetched => {
                // Only a successful upload, reported now, gives a reference.
                assert(events[events.len() - 1] == event);
            },
            _ => {
                let k = choose|k: int|
                    0 <= k < before.len() && succeeded_with(
                        #[trigger] before[k],
                        reference.unwrap(),
                    );
                assert(events[k] == before[k]);
            },
        }
    }
}

} // verus!
