//! What happens to a staged record when a delivery has been tried.

use vstd::prelude::*;

verus! {

/// How one attempt to hand a record to the central service ended.
#[derive(Debug)]
pub enum DeliveryOutcome {
    /// The service has the record; a record it had already counts too.
    Acknowledged,
    /// The service understood the request and refused the record.
    Rejected(String),
    /// The service could not be reached, or did not answer in time.
    Unreachable,
}

/// What is to be done with the staged entry after an attempt.
#[derive(Clone, Copy, Debug, PartialEq, Eq, Structural)]
pub enum StoreAction {
    /// Remove the entry: the record is delivered.
    Delete,
    /// Leave the entry as it is, for a later pass.
    Keep,
    /// Leave the entry staged and mark it for an operator: it is not
    /// tried again by itself.
    Flag,
}

/// The action that an outcome calls for.
pub open spec fn action_for(outcome: DeliveryOutcome) -> StoreAction {
    match outcome {
        DeliveryOutcome::Acknowledged => StoreAction::Delete,
        DeliveryOutcome::Rejected(_) => StoreAction::Flag,
        DeliveryOutcome::Unreachable => StoreAction::Keep,
    }
}

/// Decides what is to be done with a staged entry after an attempt.
pub fn after_delivery(outcome: &DeliveryOutcome) -> (action: StoreAction)
    ensures
        action == action_for(*outcome),
{
    match outcome {
        DeliveryOutcome::Acknowledged => StoreAction::Delete,
        DeliveryOutcome::Rejected(_) => StoreAction::Flag,
        DeliveryOutcome::Unreachable => StoreAction::Keep,
    }
}

/// Where a record stands on its way to the central service.
#[derive(Clone, Copy, Debug, PartialEq, Eq, Structural)]
pub enum EntryState {
    /// Built, not yet staged.
    Constructed,
    /// Staged and waiting for a delivery attempt.
    Staged,
    /// Staged, with an attempt under way.
    Delivering,
    /// Staged and refused by the service: waits for an operator.
    Flagged,
    /// Delivered and removed from the store.
    Removed,
}

/// What can happen to a record on its way.
#[derive(Clone, Copy, Debug, PartialEq, Eq, Structural)]
pub enum EntryEvent {
    /// The store has taken the record.
    Stored,
    /// A delivery attempt has begun.
    Attempted,
    /// The service has the record.
    Acknowledged,
    /// The service has refused the record.
    Rejected,
    /// The service could not be reached.
    Unreachable,
}

/// The event that ends an attempt with the given outcome.
pub open spec fn event_of(outcome: DeliveryOutcome) -> EntryEvent {
    match outcome {
        DeliveryOutcome::Acknowledged => EntryEvent::Acknowledged,
        DeliveryOutcome::Rejected(_) => EntryEvent::Rejected,
        DeliveryOutcome::Unreachable => EntryEvent::Unreachable,
    }
}

/// The state that follows `state` on `event`; nothing where the event
/// cannot happen in that state.
pub open spec fn next_state(state: EntryState, event: EntryEvent) -> Option<EntryState> {
    match (state, event) {
        (EntryState::Constructed, EntryEvent::Stored) => Some(EntryState::Staged),
        (EntryState::Staged, EntryEvent::Attempted) => Some(EntryState::Delivering),
        (EntryState::Delivering, EntryEvent::Acknowledged) => Some(EntryState::Removed),
        (EntryState::Delivering, EntryEvent::Rejected) => Some(EntryState::Flagged),
        (EntryState::Delivering, EntryEvent::Unreachable) => Some(EntryState::Staged),
        _ => None,
    }
}

/// Computes [`next_state`].
pub fn advance(state: EntryState, event: EntryEvent) -> (next: Option<EntryState>)
    ensures
        next == next_state(state, event),
{
    match (state, event) {
        (EntryState::Constructed, EntryEvent::Stored) => Some(EntryState::Staged),
        (EntryState::Staged, EntryEvent::Attempted) => Some(EntryState::Delivering),
        (EntryState::Delivering, EntryEvent::Acknowledged) => Some(EntryState::Removed),
        (EntryState::Delivering, EntryEvent::Rejected) => Some(EntryState::Flagged),
        (EntryState::Delivering, EntryEvent::Unreachable) => Some(EntryState::Staged),
        _ => None,
    }
}

/// Whether the record is held by the store in `state`.
pub open spec fn is_staged(state: EntryState) -> bool {
    state == EntryState::Staged || state == EntryState::Delivering || state == EntryState::Flagged
}

/// A removed record stays removed and a flagged one stays flagged: no
/// event leads out of either state.
pub proof fn lemma_removed_and_flagged_are_final(event: EntryEvent)
    ensures
        next_state(EntryState::Removed, event) is None,
        next_state(EntryState::Flagged, event) is None,
{
}

/// A record leaves the store on one path only: an acknowledged delivery.
/// The entry is deleted exactly when the attempt's event leads to
/// `Removed`, and every other outcome leaves it staged.
pub proof fn lemma_only_acknowledged_removes(outcome: DeliveryOutcome)
    ensures
        action_for(outcome) == StoreAction::Delete <==> next_state(
            EntryState::Delivering,
            event_of(outcome),
        ) == Some(EntryState::Removed),
        action_for(outcome) != StoreAction::Delete ==> is_staged(
            next_state(EntryState::Delivering, event_of(outcome))->0,
        ),
        action_for(outcome) == StoreAction::Flag <==> next_state(
            EntryState::Delivering,
            event_of(outcome),
        ) == Some(EntryState::Flagged),
{
}

} // verus!
