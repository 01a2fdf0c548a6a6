//! Rooms: the identity of an overlay session, read from or written as a room code.

use crate::experimental::{self, exp_room, exp_scan};
use crate::legacy::{self, legacy_scan};
use crate::pcl2ce::{self, pcl_room};
use crate::random::random_bits;
use crate::symbols::pow34;
use vstd::prelude::*;

verus! {

/// What a room code carries besides the overlay's name and secret.
#[derive(Clone, Copy, Debug, PartialEq, Eq, Structural)]
pub enum RoomKind {
    /// A current code: a seed below 34^16, a multiple of 7.
    Experimental { seed: u128 },
    /// A 25-symbol code with a checksum, carrying the game's TCP port.
    TerracottaLegacy { mc_port: u16 },
    /// A third-party code, carrying the game's TCP port.
    PCL2CE { mc_port: u16 },
}

/// A room: its code and the name and secret handed to the overlay.
#[derive(Clone, Debug)]
pub struct Room {
    pub code: String,
    pub network_name: String,
    pub network_secret: String,
    pub kind: RoomKind,
}

/// A room's strings as character sequences.
pub struct RoomView {
    pub code: Seq<char>,
    pub network_name: Seq<char>,
    pub network_secret: Seq<char>,
    pub kind: RoomKind,
}

impl View for Room {
    type V = RoomView;

    open spec fn view(&self) -> RoomView {
        RoomView {
            code: self.code@,
            network_name: self.network_name@,
            network_secret: self.network_secret@,
            kind: self.kind,
        }
    }
}

/// The view of an optional room.
pub open spec fn opt_room_view(r: Option<Room>) -> Option<RoomView> {
    match r {
        Some(room) => Some(room@),
        None => None,
    }
}

/// The room that a code reads as: the first dialect that accepts it, in the order current,
/// legacy, third-party.
pub open spec fn room_of_code(u: Seq<char>) -> Option<RoomView> {
    if exp_scan(u, 0) is Some {
        exp_scan(u, 0)
    } else if legacy_scan(u, 0) is Some {
        legacy_scan(u, 0)
    } else {
        pcl_room(u)
    }
}

impl Room {
    /// Mints a room of a fresh random seed, or `None` where no random bits could be drawn.
    pub fn create() -> (r: Option<Room>)
        ensures
            r matches Some(room) ==> room@.kind matches RoomKind::Experimental { seed } && seed
                < pow34(16) && seed % 7 == 0 && room@ == exp_room(seed as nat),
    {
        match random_bits() {
            Some(bits) => {
                proof {
                    experimental::lemma_minted_seed(bits);
                    experimental::lemma_seed_limit();
                }
                Some(experimental::create_room_with(bits))
            },
            None => None,
        }
    }

    /// Reads a room code in any of the three dialects.
    pub fn from(code: &str) -> (r: Option<Room>)
        ensures
            opt_room_view(r) == room_of_code(code@),
    {
        let r = experimental::parse(code);
        if r.is_some() {
            return r;
        }
        let r = legacy::parse(code);
        if r.is_some() {
            return r;
        }
        pcl2ce::parse(code)
    }
}

/// Every room read from a code is written in a canonical code that reads back as the same
/// room, in each of the three dialects.
pub proof fn lemma_room_code_canonical(u: Seq<char>)
    ensures
        room_of_code(u) matches Some(r) ==> room_of_code(r.code) == Some(r),
{
    if exp_scan(u, 0) is Some {
        experimental::lemma_exp_scan_canonical(u, 0);
    } else if legacy_scan(u, 0) is Some {
        legacy::lemma_legacy_scan_canonical(u, 0);
        let r = legacy_scan(u, 0).unwrap();
        experimental::lemma_exp_scan_needs_slash(r.code, 0);
    } else if pcl_room(u) is Some {
        pcl2ce::lemma_pcl_canonical(u);
        let r = pcl_room(u).unwrap();
        assert(exp_scan(r.code, 0) is None);
        assert(legacy_scan(r.code, 0) is None);
    }
}

} // verus!
