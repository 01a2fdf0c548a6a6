//! The controller's state: one tagged value with a generation counter, and the capture
//! tokens by which supervisors prove that the state is still theirs.

use crate::room::Room;
use crate::profile::{Profile, ProfileKind, ProfileView};
use crate::roster::{
    expire_guests, guest_list_wf, host_list_wf, host_ping, host_views, ids_distinct,
    lemma_reconcile_keeps_local, listed_views, reconcile, reconcile_spec, server_list,
    server_profiles, views, ListedProfile,
};
use vstd::prelude::*;

verus! {

/// Why a session was given up.
#[derive(Clone, Copy, Debug, PartialEq, Eq, Structural)]
pub enum ExceptionType {
    PingHostFail,
    PingHostRst,
    GuestEasytierCrash,
    HostEasytierCrash,
    PingServerRst,
    ScaffoldingInvalidResponse,
}

/// The small integer under which a reason is shown to the user.
pub open spec fn exception_code(kind: ExceptionType) -> u8 {
    match kind {
        ExceptionType::PingHostFail => 0,
        ExceptionType::PingHostRst => 1,
        ExceptionType::GuestEasytierCrash => 2,
        ExceptionType::HostEasytierCrash => 3,
        ExceptionType::PingServerRst => 4,
        ExceptionType::ScaffoldingInvalidResponse => 5,
    }
}

impl ExceptionType {
    /// The small integer under which this reason is shown to the user.
    pub fn code(&self) -> (r: u8)
        ensures
            r == exception_code(*self),
    {
        match self {
            ExceptionType::PingHostFail => 0,
            ExceptionType::PingHostRst => 1,
            ExceptionType::GuestEasytierCrash => 2,
            ExceptionType::HostEasytierCrash => 3,
            ExceptionType::PingServerRst => 4,
            ExceptionType::ScaffoldingInvalidResponse => 5,
        }
    }
}

/// The controller's state. `S` is the scanner of local game servers, `E` the overlay
/// process, `F` the beacon that advertises a remote game locally; each is released when its
/// state is left. Host profiles carry the time, in milliseconds, at which each was last
/// seen.
pub enum AppState<S, E, F> {
    Waiting,
    HostScanning { scanner: S },
    HostStarting { room: Room, port: u16 },
    HostOk { room: Room, port: u16, easytier: E, profiles: Vec<(u64, Profile)> },
    GuestConnecting { room: Room },
    GuestStarting { room: Room, easytier: E },
    GuestOk { room: Room, easytier: E, server: F, profiles: Vec<Profile> },
    Exception { kind: ExceptionType },
}

/// A guest's list is empty (a room without profile exchange), or holds exactly one `LOCAL`
/// entry and no machine id twice.
pub open spec fn guest_profiles_wf(l: Seq<ProfileView>) -> bool {
    l.len() == 0 || exists|i: int| 0 <= i < l.len() && guest_list_wf(l, #[trigger] l[i])
}

/// The `LOCAL` entry of a guest's list.
pub open spec fn local_entry(l: Seq<ProfileView>) -> ProfileView {
    l[choose|i: int| 0 <= i < l.len() && (#[trigger] l[i]).kind == ProfileKind::LOCAL]
}

/// What each state holds is well formed.
pub open spec fn state_wf<S, E, F>(v: AppState<S, E, F>) -> bool {
    match v {
        AppState::HostOk { profiles, .. } => host_list_wf(host_views(profiles@)),
        AppState::GuestOk { profiles, .. } => guest_profiles_wf(views(profiles@)),
        _ => true,
    }
}

/// A capture `cap` of a state at generation `index` whose last `sharing` changes were shared
/// is still valid.
pub open spec fn capture_valid(index: u64, sharing: u32, cap: u64) -> bool {
    index - sharing <= cap
}

/// The controller's state with its generation counter: `index` grows on every change, and
/// `sharing` counts the changes since the last one that was not shared.
pub struct AppStateContainer<S, E, F> {
    index: u64,
    sharing: u32,
    value: AppState<S, E, F>,
}

/// A supervisor's token: the generation at which it last changed the state.
pub struct AppStateCapture {
    index: u64,
}

impl AppStateCapture {
    pub closed spec fn index_spec(&self) -> u64 {
        self.index
    }

    /// The generation that this capture holds.
    pub fn index(&self) -> (r: u64)
        ensures
            r == self.index_spec(),
    {
        self.index
    }

    /// Whether the state is still this capture's: no change but shared ones since it was
    /// taken.
    pub fn try_capture<S, E, F>(&self, state: &AppStateContainer<S, E, F>) -> (r: bool)
        requires
            state.wf(),
        ensures
            r == capture_valid(state.index_spec(), state.sharing_spec(), self.index_spec()),
    {
        state.index - state.sharing as u64 <= self.index
    }

    /// Whether the state is still this capture's.
    pub fn can_capture<S, E, F>(&self, state: &AppStateContainer<S, E, F>) -> (r: bool)
        requires
            state.wf(),
        ensures
            r == capture_valid(state.index_spec(), state.sharing_spec(), self.index_spec()),
    {
        self.try_capture(state)
    }
}

impl<S, E, F> AppStateContainer<S, E, F> {
    pub closed spec fn index_spec(&self) -> u64 {
        self.index
    }

    pub closed spec fn sharing_spec(&self) -> u32 {
        self.sharing
    }

    pub closed spec fn value_spec(&self) -> &AppState<S, E, F> {
        &self.value
    }

    /// No more shared changes than changes, and the state well formed.
    pub closed spec fn wf(&self) -> bool {
        self.sharing as u64 <= self.index && state_wf(self.value)
    }

    /// Room for one more change.
    pub open spec fn can_advance(&self) -> bool {
        self.index_spec() < u64::MAX && self.sharing_spec() < u32::MAX
    }

    /// The state at start: waiting, at generation 0.
    pub fn new() -> (r: Self)
        ensures
            r.wf(),
            r.index_spec() == 0,
            r.sharing_spec() == 0,
            *r.value_spec() is Waiting,
    {
        AppStateContainer { index: 0, sharing: 0, value: AppState::Waiting }
    }

    /// Whether one more change can be counted.
    pub fn has_room(&self) -> (r: bool)
        ensures
            r == self.can_advance(),
    {
        self.index < u64::MAX && self.sharing < u32::MAX
    }

    /// The generation and the number of shared changes since the last other one.
    pub fn index(&self) -> (r: (u64, u32))
        ensures
            r == (self.index_spec(), self.sharing_spec()),
    {
        (self.index, self.sharing)
    }

    /// The current state.
    pub fn as_ref(&self) -> (r: &AppState<S, E, F>)
        ensures
            r == self.value_spec(),
    {
        &self.value
    }

    /// Counts a change that invalidates every capture, and returns the new capture.
    pub fn increase(&mut self) -> (r: AppStateCapture)
        requires
            old(self).wf(),
            old(self).can_advance(),
        ensures
            final(self).wf(),
            final(self).index_spec() == old(self).index_spec() + 1,
            final(self).sharing_spec() == 0,
            final(self).value_spec() == old(self).value_spec(),
            r.index_spec() == final(self).index_spec(),
    {
        self.index = self.index + 1;
        self.sharing = 0;
        AppStateCapture { index: self.index }
    }

    /// Counts a change of content that leaves every capture valid.
    pub fn increase_shared(&mut self)
        requires
            old(self).wf(),
            old(self).can_advance(),
        ensures
            final(self).wf(),
            final(self).index_spec() == old(self).index_spec() + 1,
            final(self).sharing_spec() == old(self).sharing_spec() + 1,
            final(self).value_spec() == old(self).value_spec(),
    {
        self.index = self.index + 1;
        self.sharing = self.sharing + 1;
    }

    /// Replaces the state and counts the change; returns the new capture.
    pub fn set(&mut self, state: AppState<S, E, F>) -> (r: AppStateCapture)
        requires
            old(self).wf(),
            old(self).can_advance(),
            state_wf(state),
        ensures
            final(self).wf(),
            final(self).index_spec() == old(self).index_spec() + 1,
            final(self).sharing_spec() == 0,
            *final(self).value_spec() == state,
            r.index_spec() == final(self).index_spec(),
    {
        self.value = state;
        self.increase()
    }
}

/// Why a request of the side-band protocol could not be served.
#[derive(Clone, Copy, Debug, PartialEq, Eq, Structural)]
pub enum HandlerError {
    /// The host is not serving a room.
    NotHostOk,
    /// A guest presented the host's own machine id.
    HostConflict,
}

impl<S, E, F> AppStateContainer<S, E, F> {
    /// The generation counters and the state are as they were.
    pub open spec fn same_as(&self, other: &Self) -> bool {
        self.index_spec() == other.index_spec() && self.sharing_spec() == other.sharing_spec()
            && self.value_spec() == other.value_spec()
    }

    /// What `set_waiting` leaves: the same state where it was waiting, else waiting after
    /// one change.
    pub open spec fn waiting_after(&self, before: &Self) -> bool {
        &&& *before.value_spec() is Waiting ==> self.same_as(before)
        &&& !(*before.value_spec() is Waiting) ==> *self.value_spec() is Waiting
            && self.advanced_from(before)
    }

    /// Counted as one change that invalidates every capture.
    pub open spec fn advanced_from(&self, other: &Self) -> bool {
        self.index_spec() == other.index_spec() + 1 && self.sharing_spec() == 0
    }

    /// Counted as one shared change.
    pub open spec fn shared_from(&self, other: &Self) -> bool {
        self.index_spec() == other.index_spec() + 1 && self.sharing_spec() == other.sharing_spec()
            + 1
    }

    /// Whether capture `cap` is still valid here.
    pub open spec fn holds(&self, cap: &AppStateCapture) -> bool {
        capture_valid(self.index_spec(), self.sharing_spec(), cap.index_spec())
    }

    /// Back to waiting, from any state; where already waiting nothing changes. Returns
    /// whether the state changed.
    pub fn set_waiting(&mut self) -> (r: bool)
        requires
            old(self).wf(),
            old(self).can_advance(),
        ensures
            final(self).wf(),
            final(self).waiting_after(old(self)),
            r == !(*old(self).value_spec() is Waiting),
    {
        if let AppState::Waiting = self.value {
            return false;
        }
        self.set(AppState::Waiting);
        true
    }

    /// From waiting, starts looking for a local game server with `scanner`.
    pub fn set_scanning(&mut self, scanner: S) -> (r: Option<AppStateCapture>)
        requires
            old(self).wf(),
            old(self).can_advance(),
        ensures
            final(self).wf(),
            *old(self).value_spec() is Waiting ==> (r matches Some(c) && *final(self).value_spec()
                == (AppState::<S, E, F>::HostScanning { scanner }) && final(self).advanced_from(old(self)) && c.index_spec() == final(self).index_spec()),
            !(*old(self).value_spec() is Waiting) ==> r is None && final(self).same_as(old(self)),
    {
        if let AppState::Waiting = self.value {
            Some(self.set(AppState::HostScanning { scanner }))
        } else {
            None
        }
    }

    /// From waiting, starts joining `room`.
    pub fn set_guesting(&mut self, room: Room) -> (r: Option<AppStateCapture>)
        requires
            old(self).wf(),
            old(self).can_advance(),
        ensures
            final(self).wf(),
            *old(self).value_spec() is Waiting ==> (r matches Some(c) && *final(self).value_spec()
                == (AppState::<S, E, F>::GuestConnecting { room }) && final(self).advanced_from(old(self)) && c.index_spec() == final(self).index_spec()),
            !(*old(self).value_spec() is Waiting) ==> r is None && final(self).same_as(old(self)),
    {
        if let AppState::Waiting = self.value {
            Some(self.set(AppState::GuestConnecting { room }))
        } else {
            None
        }
    }

    /// Gives up the session for `kind`, where `cap` still holds. Returns whether it did.
    pub fn raise(&mut self, cap: &AppStateCapture, kind: ExceptionType) -> (r: bool)
        requires
            old(self).wf(),
            old(self).can_advance(),
        ensures
            final(self).wf(),
            r == old(self).holds(cap),
            r ==> *final(self).value_spec() == (AppState::<S, E, F>::Exception { kind })
                && final(self).advanced_from(old(self)),
            !r ==> final(self).same_as(old(self)),
    {
        if cap.try_capture(self) {
            self.set(AppState::Exception { kind });
            true
        } else {
            false
        }
    }

    /// The scanner, while looking for a local game server.
    pub fn scanner(&self) -> (r: Option<&S>)
        ensures
            match *self.value_spec() {
                AppState::HostScanning { scanner } => r == Some(&scanner),
                _ => r is None,
            },
    {
        match &self.value {
            AppState::HostScanning { scanner } => Some(scanner),
            _ => None,
        }
    }

    /// The overlay, in the states that run one.
    pub fn easytier(&self) -> (r: Option<&E>)
        ensures
            match *self.value_spec() {
                AppState::HostOk { easytier, .. } => r == Some(&easytier),
                AppState::GuestStarting { easytier, .. } => r == Some(&easytier),
                AppState::GuestOk { easytier, .. } => r == Some(&easytier),
                _ => r is None,
            },
    {
        match &self.value {
            AppState::HostOk { easytier, .. } => Some(easytier),
            AppState::GuestStarting { easytier, .. } => Some(easytier),
            AppState::GuestOk { easytier, .. } => Some(easytier),
            _ => None,
        }
    }

    /// The scanner found a game server on `port`: where `cap` holds and the state is still
    /// scanning, the host starts on `room`.
    pub fn host_scan_found(&mut self, cap: &AppStateCapture, port: u16, room: Room) -> (r:
        Option<AppStateCapture>)
        requires
            old(self).wf(),
            old(self).can_advance(),
        ensures
            final(self).wf(),
            (old(self).holds(cap) && *old(self).value_spec() is HostScanning) ==> (r matches Some(c)
                && *final(self).value_spec() == (AppState::<S, E, F>::HostStarting { room, port })
                && final(self).advanced_from(old(self)) && c.index_spec() == final(self).index_spec()),
            !(old(self).holds(cap) && *old(self).value_spec() is HostScanning) ==> r is None
                && final(self).same_as(old(self)),
    {
        if !cap.try_capture(self) {
            return None;
        }
        if let AppState::HostScanning { .. } = self.value {
            Some(self.set(AppState::HostStarting { room, port }))
        } else {
            None
        }
    }

    /// The host's overlay runs: where `cap` holds and the host is starting, it serves its
    /// room with `host` as the first and only profile, seen at `now`.
    pub fn host_started(&mut self, cap: &AppStateCapture, easytier: E, host: Profile, now: u64) -> (r:
        Option<AppStateCapture>)
        requires
            old(self).wf(),
            old(self).can_advance(),
            host@.kind == ProfileKind::HOST,
        ensures
            final(self).wf(),
            (old(self).holds(cap) && *old(self).value_spec() is HostStarting) ==> (r matches Some(c)
                && final(self).advanced_from(old(self)) && c.index_spec() == final(self).index_spec() && (*old(self).value_spec() matches AppState::HostStarting {
                room: room0,
                port: port0,
            } ==> *final(self).value_spec() matches AppState::HostOk {
                room: room1,
                port: port1,
                easytier: e1,
                profiles,
            } && room1 == room0 && port1 == port0 && e1 == easytier && host_views(profiles@)
                == seq![host@] && profiles@[0].0 == now)),
            !(old(self).holds(cap) && *old(self).value_spec() is HostStarting) ==> r is None
                && final(self).same_as(old(self)),
    {
        if !cap.try_capture(self) {
            return None;
        }
        if !matches!(self.value, AppState::HostStarting { .. }) {
            return None;
        }
        let mut taken: AppState<S, E, F> = AppState::Waiting;
        std::mem::swap(&mut self.value, &mut taken);
        match taken {
            AppState::HostStarting { room, port } => {
                let mut profiles: Vec<(u64, Profile)> = Vec::new();
                profiles.push((now, host));
                assert(host_views(profiles@) =~= seq![host@]);
                Some(self.set(AppState::HostOk { room, port, easytier, profiles }))
            },
            other => {
                self.value = other;
                None
            },
        }
    }

    /// One round of the host's watch, at `now`, after the overlay was found `alive` or not.
    /// Where `cap` no longer holds, or the host is not serving, nothing changes and the
    /// watch ends. A dead overlay ends the session. Else guests unseen for ten seconds
    /// leave, as a shared change, and the watch goes on.
    pub fn host_tick(&mut self, cap: &AppStateCapture, alive: bool, now: u64) -> (r: bool)
        requires
            old(self).wf(),
            old(self).can_advance(),
        ensures
            final(self).wf(),
            !(old(self).holds(cap) && *old(self).value_spec() is HostOk) ==> !r && final(self).same_as(old(self)),
            (old(self).holds(cap) && *old(self).value_spec() is HostOk && !alive) ==> !r
                && *final(self).value_spec() == (AppState::<S, E, F>::Exception {
                kind: ExceptionType::HostEasytierCrash,
            }) && final(self).advanced_from(old(self)),
            (old(self).holds(cap) && *old(self).value_spec() is HostOk && alive) ==> r && (
            *old(self).value_spec() matches AppState::HostOk { room: room0, port: port0, easytier: e0, profiles: list0 }
                ==> *final(self).value_spec() matches AppState::HostOk {
                room: room1,
                port: port1,
                easytier: e1,
                profiles: list1,
            } && room1 == room0 && port1 == port0 && e1 == e0 && list1@ == seq![list0@[0]]
                + crate::roster::fresh(list0@.drop_first(), now) && (if list1@.len() == list0@.len() {
                final(self).index_spec() == old(self).index_spec() && final(self).sharing_spec()
                    == old(self).sharing_spec()
            } else {
                final(self).shared_from(old(self))
            })),
    {
        if !cap.try_capture(self) {
            return false;
        }
        if !matches!(self.value, AppState::HostOk { .. }) {
            return false;
        }
        if !alive {
            self.set(AppState::Exception { kind: ExceptionType::HostEasytierCrash });
            return false;
        }
        let changed = match &mut self.value {
            AppState::HostOk { profiles, .. } => expire_guests(profiles, now),
            _ => false,
        };
        if changed {
            self.increase_shared();
        }
        true
    }
}

impl<S, E, F> AppStateContainer<S, E, F> {
    /// The game's port, while the host serves a room.
    pub fn server_port(&self) -> (r: Option<u16>)
        ensures
            match *self.value_spec() {
                AppState::HostOk { port, .. } => r == Some(port),
                _ => r is None,
            },
    {
        match &self.value {
            AppState::HostOk { port, .. } => Some(*port),
            _ => None,
        }
    }

    /// The host's profiles, with the times they were last seen, while it serves a room.
    pub fn host_profiles(&self) -> (r: Result<&Vec<(u64, Profile)>, HandlerError>)
        ensures
            match *self.value_spec() {
                AppState::HostOk { profiles, .. } => r == Ok::<&Vec<(u64, Profile)>, HandlerError>(
                    &profiles,
                ),
                _ => r == Err::<&Vec<(u64, Profile)>, HandlerError>(HandlerError::NotHostOk),
            },
    {
        match &self.value {
            AppState::HostOk { profiles, .. } => Ok(profiles),
            _ => Err(HandlerError::NotHostOk),
        }
    }

    /// A guest pinged the host at `now`. Fails where the host serves no room, or where the
    /// guest presents the host's own machine id; else the guest is listed or seen again
    /// under its name, and a new or renamed guest counts as a shared change.
    pub fn host_player_ping(
        &mut self,
        machine_id: String,
        name: String,
        vendor: String,
        now: u64,
    ) -> (r: Result<(), HandlerError>)
        requires
            old(self).wf(),
            old(self).can_advance(),
        ensures
            final(self).wf(),
            !(*old(self).value_spec() is HostOk) ==> r == Err::<(), HandlerError>(
                HandlerError::NotHostOk,
            ) && final(self).same_as(old(self)),
            *old(self).value_spec() matches AppState::HostOk { room: room0, port: port0, easytier: e0, profiles: list0 }
                ==> ({
                let p = ProfileView {
                    machine_id: machine_id@,
                    name: name@,
                    vendor: vendor@,
                    kind: ProfileKind::GUEST,
                };
                match crate::roster::host_ping_spec(list0@, p, now) {
                    None => r == Err::<(), HandlerError>(HandlerError::HostConflict) && final(self).same_as(old(self)),
                    Some(next) => r is Ok && (*final(self).value_spec() matches AppState::HostOk {
                        room: room1,
                        port: port1,
                        easytier: e1,
                        profiles: list1,
                    } && room1 == room0 && port1 == port0 && e1 == e0 && host_views(list1@) == next.0
                        && crate::roster::host_times(list1@) == next.1 && (if next.0 == host_views(
                        list0@,
                    ) {
                        final(self).index_spec() == old(self).index_spec() && final(self).sharing_spec() == old(self).sharing_spec()
                    } else {
                        final(self).shared_from(old(self))
                    })),
                }
            }),
    {
        let outcome = match &mut self.value {
            AppState::HostOk { profiles, .. } => host_ping(profiles, machine_id, name, vendor, now),
            _ => {
                return Err(HandlerError::NotHostOk);
            },
        };
        match outcome {
            None => Err(HandlerError::HostConflict),
            Some(changed) => {
                if changed {
                    self.increase_shared();
                }
                Ok(())
            },
        }
    }

    /// The guest's overlay runs: where `cap` holds and the guest is connecting, it starts.
    pub fn guest_started(&mut self, cap: &AppStateCapture, easytier: E) -> (r: Option<
        AppStateCapture,
    >)
        requires
            old(self).wf(),
            old(self).can_advance(),
        ensures
            final(self).wf(),
            (old(self).holds(cap) && *old(self).value_spec() is GuestConnecting) ==> (r matches Some(c)
                && final(self).advanced_from(old(self)) && c.index_spec() == final(self).index_spec()
                && (*old(self).value_spec() matches AppState::GuestConnecting { room: room0 }
                ==> *final(self).value_spec() == (AppState::<S, E, F>::GuestStarting {
                room: room0,
                easytier,
            }))),
            !(old(self).holds(cap) && *old(self).value_spec() is GuestConnecting) ==> r is None
                && final(self).same_as(old(self)),
    {
        if !cap.try_capture(self) {
            return None;
        }
        if !matches!(self.value, AppState::GuestConnecting { .. }) {
            return None;
        }
        let mut taken: AppState<S, E, F> = AppState::Waiting;
        std::mem::swap(&mut self.value, &mut taken);
        match taken {
            AppState::GuestConnecting { room } => Some(
                self.set(AppState::GuestStarting { room, easytier }),
            ),
            other => {
                self.value = other;
                None
            },
        }
    }

    /// The guest reaches the game: where `cap` holds and the guest is starting, it is
    /// connected, advertising the game locally with `server`, its list holding `local`
    /// alone, or nothing for a room without profile exchange.
    pub fn guest_ok(&mut self, cap: &AppStateCapture, server: F, local: Option<Profile>) -> (r:
        Option<AppStateCapture>)
        requires
            old(self).wf(),
            old(self).can_advance(),
            local matches Some(p) ==> p@.kind == ProfileKind::LOCAL,
        ensures
            final(self).wf(),
            (old(self).holds(cap) && *old(self).value_spec() is GuestStarting) ==> (r matches Some(c)
                && final(self).advanced_from(old(self)) && c.index_spec() == final(self).index_spec()
                && (*old(self).value_spec() matches AppState::GuestStarting {
                room: room0,
                easytier: e0,
            } ==> *final(self).value_spec() matches AppState::GuestOk {
                room: room1,
                easytier: e1,
                server: beacon1,
                profiles,
            } && room1 == room0 && e1 == e0 && beacon1 == server && views(profiles@) == match local {
                Some(p) => seq![p@],
                None => Seq::<ProfileView>::empty(),
            })),
            !(old(self).holds(cap) && *old(self).value_spec() is GuestStarting) ==> r is None
                && final(self).same_as(old(self)),
    {
        if !cap.try_capture(self) {
            return None;
        }
        if !matches!(self.value, AppState::GuestStarting { .. }) {
            return None;
        }
        let mut profiles: Vec<Profile> = Vec::new();
        match local {
            Some(p) => {
                profiles.push(p);
                proof {
                    let l = views(profiles@);
                    assert(l =~= seq![p@]);
                    assert(guest_list_wf(l, l[0]));
                }
            },
            None => {
                assert(views(profiles@) =~= Seq::<ProfileView>::empty());
            },
        }
        let mut taken: AppState<S, E, F> = AppState::Waiting;
        std::mem::swap(&mut self.value, &mut taken);
        match taken {
            AppState::GuestStarting { room, easytier } => Some(
                self.set(AppState::GuestOk { room, easytier, server, profiles }),
            ),
            other => {
                self.value = other;
                None
            },
        }
    }
}

impl<S, E, F> AppStateContainer<S, E, F> {
    /// One round of the guest's profile exchange, after the host listed `items` and the
    /// overlay was found `alive` or not. Where `cap` no longer holds, or the guest is not
    /// connected with a list of profiles, nothing changes and the exchange ends. A malformed
    /// list (no host, two hosts, this machine twice, a machine id twice, an unknown role) or
    /// one that contradicts the guest's own ends the session as an invalid response; a dead
    /// overlay as a crash. Else the guest takes the
    /// host's list, as a shared change where it differs, and the exchange goes on.
    pub fn guest_sync(&mut self, cap: &AppStateCapture, items: &Vec<ListedProfile>, alive: bool) -> (r:
        bool)
        requires
            old(self).wf(),
            old(self).can_advance(),
        ensures
            final(self).wf(),
            !(old(self).holds(cap) && *old(self).value_spec() is GuestOk) ==> !r && final(
                self).same_as(old(self)),
            old(self).holds(cap) ==> (*old(self).value_spec() matches AppState::GuestOk {
                room: room0,
                easytier: e0,
                server: beacon0,
                profiles: list0,
            } ==> ({
                let l = views(list0@);
                if l.len() == 0 {
                    !r && final(self).same_as(old(self))
                } else {
                    match server_list(listed_views(items@), local_entry(l)) {
                        None => !r && *final(self).value_spec() == (AppState::<S, E, F>::Exception {
                            kind: ExceptionType::ScaffoldingInvalidResponse,
                        }) && final(self).advanced_from(old(self)),
                        Some(sv) => if !alive {
                            !r && *final(self).value_spec() == (AppState::<S, E, F>::Exception {
                                kind: ExceptionType::GuestEasytierCrash,
                            }) && final(self).advanced_from(old(self))
                        } else {
                            match reconcile_spec(l, sv) {
                                None => !r && *final(self).value_spec() == (AppState::<
                                    S,
                                    E,
                                    F,
                                >::Exception { kind: ExceptionType::ScaffoldingInvalidResponse })
                                    && final(self).advanced_from(old(self)),
                                Some(out) => r && (*final(self).value_spec() matches AppState::GuestOk {
                                    room: room1,
                                    easytier: e1,
                                    server: beacon1,
                                    profiles: list1,
                                } && room1 == room0 && e1 == e0 && beacon1 == beacon0 && views(list1@) == out
                                    && if out == l {
                                    final(self).index_spec() == old(self).index_spec()
                                        && final(self).sharing_spec() == old(self).sharing_spec()
                                } else {
                                    final(self).shared_from(old(self))
                                }),
                            }
                        },
                    }
                }
            })),
    {
        if !cap.try_capture(self) {
            return false;
        }
        let local = match &self.value {
            AppState::GuestOk { profiles, .. } => match crate::roster::find_local(profiles) {
                Some(i) => {
                    proof {
                        let l = views(profiles@);
                        let i0 = choose|i0: int| 0 <= i0 < l.len() && guest_list_wf(l, #[trigger] l[i0]);
                        assert(l[i as int] == l[i0]);
                        assert(local_entry(l) == l[i0]);
                    }
                    profiles[i].clone()
                },
                None => {
                    proof {
                        let l = views(profiles@);
                        if l.len() > 0 {
                            let i0 = choose|i0: int| 0 <= i0 < l.len() && guest_list_wf(l, #[trigger] l[i0]);
                            assert(l[i0].kind == ProfileKind::LOCAL);
                        }
                    }
                    return false;
                },
            },
            _ => {
                return false;
            },
        };
        let server = match server_profiles(items, &local) {
            Some(v) => v,
            None => {
                self.set(AppState::Exception { kind: ExceptionType::ScaffoldingInvalidResponse });
                return false;
            },
        };
        if !alive {
            self.set(AppState::Exception { kind: ExceptionType::GuestEasytierCrash });
            return false;
        }
        let next = match &self.value {
            AppState::GuestOk { profiles, .. } => {
                proof {
                    let l = views(profiles@);
                    let i0 = choose|i0: int| 0 <= i0 < l.len() && guest_list_wf(l, #[trigger] l[i0]);
                    lemma_reconcile_keeps_local(l, listed_views(items@), local@);
                }
                reconcile(profiles, &server)
            },
            _ => None,
        };
        match next {
            None => {
                self.set(AppState::Exception { kind: ExceptionType::ScaffoldingInvalidResponse });
                false
            },
            Some(out) => {
                let changed = match &mut self.value {
                    AppState::GuestOk { profiles, .. } => {
                        if crate::roster::same_views(profiles, &out) {
                            false
                        } else {
                            proof {
                                let o = views(out@);
                                let a = choose|a: int| 0 <= a < o.len() && o[a] == local@;
                                assert(guest_list_wf(o, o[a]));
                            }
                            *profiles = out;
                            true
                        }
                    },
                    _ => false,
                };
                if changed {
                    self.increase_shared();
                }
                true
            },
        }
    }
}

/// A change counts one more generation, and leaves no capture of an earlier generation
/// valid; a shared change counts one more generation and leaves valid every capture that
/// was: the generation less the shared changes does not move.
pub proof fn lemma_counters<S, E, F>(
    before: AppStateContainer<S, E, F>,
    after: AppStateContainer<S, E, F>,
    cap: AppStateCapture,
)
    requires
        before.wf(),
        after.wf(),
    ensures
        after.advanced_from(&before) ==> after.index_spec() > before.index_spec() && (
        cap.index_spec() < after.index_spec() ==> !after.holds(&cap)),
        after.shared_from(&before) ==> after.index_spec() > before.index_spec()
            && after.index_spec() - after.sharing_spec() == before.index_spec()
            - before.sharing_spec() && (before.holds(&cap) ==> after.holds(&cap)),
{
}

/// A well-formed state counts no more shared changes than changes, so the generation less
/// the shared changes is a generation.
pub proof fn lemma_wf_sharing<S, E, F>(state: AppStateContainer<S, E, F>)
    requires
        state.wf(),
    ensures
        state.sharing_spec() as u64 <= state.index_spec(),
{
}

/// A capture holds exactly while its generation is at least the state's generation less
/// its shared changes.
pub proof fn lemma_capture_rule<S, E, F>(state: AppStateContainer<S, E, F>, cap: AppStateCapture)
    requires
        state.wf(),
    ensures
        state.holds(&cap) <==> cap.index_spec() >= state.index_spec() - state.sharing_spec(),
{
}

/// While the host serves a room, its own profile is first and no machine id is listed
/// twice.
pub proof fn lemma_host_ok_profiles<S, E, F>(state: AppStateContainer<S, E, F>)
    requires
        state.wf(),
    ensures
        *state.value_spec() matches AppState::HostOk { profiles, .. } ==> profiles@.len() >= 1
            && profiles@[0].1@.kind == ProfileKind::HOST && ids_distinct(host_views(profiles@)),
{
}

/// While a guest with profile exchange is connected, exactly one entry of its list is
/// `LOCAL`, and no machine id is listed twice.
pub proof fn lemma_guest_ok_profiles<S, E, F>(state: AppStateContainer<S, E, F>)
    requires
        state.wf(),
    ensures
        *state.value_spec() matches AppState::GuestOk { profiles, .. } ==> views(profiles@).len()
            == 0 || (ids_distinct(views(profiles@)) && exists|i: int|
            0 <= i < profiles@.len() && (#[trigger] views(profiles@)[i]).kind == ProfileKind::LOCAL
                && forall|j: int|
                0 <= j < profiles@.len() && (#[trigger] views(profiles@)[j]).kind
                    == ProfileKind::LOCAL ==> j == i),
{
    if let AppState::GuestOk { profiles, .. } = *state.value_spec() {
        let l = views(profiles@);
        if l.len() > 0 {
            let i0 = choose|i0: int| 0 <= i0 < l.len() && guest_list_wf(l, #[trigger] l[i0]);
            let k = choose|k: int| 0 <= k < l.len() && l[k] == l[i0];
            assert forall|j: int|
                0 <= j < profiles@.len() && (#[trigger] views(profiles@)[j]).kind
                    == ProfileKind::LOCAL implies j == k by {
                if j != k {
                    assert(l[j] == l[i0]);
                    assert(l[j].machine_id != l[k].machine_id);
                }
            }
        }
    }
}

/// Going back to waiting twice: the state is waiting, the first call counted at most one
/// change (one exactly where the state was not waiting), and the second none.
pub proof fn lemma_set_waiting_twice<S, E, F>(
    start: AppStateContainer<S, E, F>,
    once: AppStateContainer<S, E, F>,
    twice: AppStateContainer<S, E, F>,
)
    requires
        start.wf(),
        once.waiting_after(&start),
        twice.waiting_after(&once),
    ensures
        *twice.value_spec() is Waiting,
        twice.same_as(&once),
        once.index_spec() == if *start.value_spec() is Waiting {
            start.index_spec()
        } else {
            (start.index_spec() + 1) as u64
        },
{
}

/// A guest that takes a host's list keeps this machine's profile as the one `LOCAL` entry of
/// its list, and lists no machine id twice: the list that `guest_sync` keeps after a
/// successful round is well formed with the same `LOCAL` entry.
pub proof fn lemma_guest_sync_keeps_local(
    l: Seq<ProfileView>,
    items: Seq<crate::roster::ListedView>,
)
    requires
        guest_profiles_wf(l),
        l.len() > 0,
    ensures
        server_list(items, local_entry(l)) matches Some(sv) ==> (reconcile_spec(l, sv) matches Some(
            out,
        ) ==> guest_list_wf(out, local_entry(l)) && guest_profiles_wf(out) && local_entry(out)
            == local_entry(l)),
{
    let i0 = choose|i0: int| 0 <= i0 < l.len() && guest_list_wf(l, #[trigger] l[i0]);
    assert(l[i0].kind == ProfileKind::LOCAL);
    assert(local_entry(l) == l[i0]);
    lemma_reconcile_keeps_local(l, items, l[i0]);
    if let Some(sv) = server_list(items, local_entry(l)) {
        if let Some(out) = reconcile_spec(l, sv) {
            let a = choose|a: int| 0 <= a < out.len() && out[a] == l[i0];
            assert(guest_list_wf(out, out[a]));
            assert(out[a].kind == ProfileKind::LOCAL);
            assert(local_entry(out) == l[i0]);
        }
    }
}

} // verus!
