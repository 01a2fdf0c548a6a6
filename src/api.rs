//! The entry points through which a user drives the controller.

use crate::room::{opt_room_view, room_of_code, Room};
use crate::states::{AppState, AppStateCapture, AppStateContainer};
use vstd::prelude::*;

verus! {

/// Back to waiting from any state; nothing changes where already waiting. Returns whether
/// the state changed.
pub fn set_waiting<S, E, F>(state: &mut AppStateContainer<S, E, F>) -> (r: bool)
    requires
        old(state).wf(),
        old(state).can_advance(),
    ensures
        final(state).wf(),
        final(state).waiting_after(old(state)),
        r == !(*old(state).value_spec() is Waiting),
{
    state.set_waiting()
}

/// From waiting, starts looking for a local game server with `scanner`; elsewhere nothing
/// changes and `None` comes back.
pub fn set_scanning<S, E, F>(state: &mut AppStateContainer<S, E, F>, scanner: S) -> (r: Option<
    AppStateCapture,
>)
    requires
        old(state).wf(),
        old(state).can_advance(),
    ensures
        final(state).wf(),
        *old(state).value_spec() is Waiting ==> (r matches Some(c) && *final(state).value_spec()
            == (AppState::<S, E, F>::HostScanning { scanner }) && final(state).advanced_from(
            old(state),
        ) && c.index_spec() == final(state).index_spec()),
        !(*old(state).value_spec() is Waiting) ==> r is None && final(state).same_as(old(state)),
{
    state.set_scanning(scanner)
}

/// From waiting, starts joining `room`; elsewhere nothing changes and `None` comes back.
pub fn set_guesting<S, E, F>(state: &mut AppStateContainer<S, E, F>, room: Room) -> (r: Option<
    AppStateCapture,
>)
    requires
        old(state).wf(),
        old(state).can_advance(),
    ensures
        final(state).wf(),
        *old(state).value_spec() is Waiting ==> (r matches Some(c) && *final(state).value_spec()
            == (AppState::<S, E, F>::GuestConnecting { room }) && final(state).advanced_from(
            old(state),
        ) && c.index_spec() == final(state).index_spec()),
        !(*old(state).value_spec() is Waiting) ==> r is None && final(state).same_as(old(state)),
{
    state.set_guesting(room)
}

/// The room that a code a user typed names; `None` is answered as a bad request.
pub fn room_for_code(code: &str) -> (r: Option<Room>)
    ensures
        opt_room_view(r) == room_of_code(code@),
{
    Room::from(code)
}

} // verus!
