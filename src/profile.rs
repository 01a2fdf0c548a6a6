//! Player profiles and the rules by which host and guests keep their lists of them.

use vstd::prelude::*;
use vstd::string::*;

verus! {

/// The role of a profile in a list.
#[derive(Clone, Copy, Debug, PartialEq, Eq, Structural)]
pub enum ProfileKind {
    HOST,
    LOCAL,
    GUEST,
}

/// A player: the machine it runs on, its name, the software it runs, and its role.
#[derive(Debug)]
pub struct Profile {
    machine_id: String,
    name: String,
    vendor: String,
    kind: ProfileKind,
}

/// The fields of a profile, open to build one from.
pub struct ProfileSnapshot {
    pub machine_id: String,
    pub name: String,
    pub vendor: String,
    pub kind: ProfileKind,
}

/// A profile's strings as character sequences.
pub struct ProfileView {
    pub machine_id: Seq<char>,
    pub name: Seq<char>,
    pub vendor: Seq<char>,
    pub kind: ProfileKind,
}

impl View for Profile {
    type V = ProfileView;

    closed spec fn view(&self) -> ProfileView {
        ProfileView {
            machine_id: self.machine_id@,
            name: self.name@,
            vendor: self.vendor@,
            kind: self.kind,
        }
    }
}

impl View for ProfileSnapshot {
    type V = ProfileView;

    open spec fn view(&self) -> ProfileView {
        ProfileView {
            machine_id: self.machine_id@,
            name: self.name@,
            vendor: self.vendor@,
            kind: self.kind,
        }
    }
}

impl ProfileSnapshot {
    pub fn into_profile(self) -> (r: Profile)
        ensures
            r@ == self@,
    {
        Profile {
            machine_id: self.machine_id,
            name: self.name,
            vendor: self.vendor,
            kind: self.kind,
        }
    }
}

impl Clone for Profile {
    fn clone(&self) -> (r: Profile)
        ensures
            r@ == self@,
    {
        Profile {
            machine_id: self.machine_id.clone(),
            name: self.name.clone(),
            vendor: self.vendor.clone(),
            kind: self.kind,
        }
    }
}

impl Profile {
    pub fn get_machine_id(&self) -> (r: &str)
        ensures
            r@ == self@.machine_id,
    {
        self.machine_id.as_str()
    }

    pub fn get_name(&self) -> (r: &str)
        ensures
            r@ == self@.name,
    {
        self.name.as_str()
    }

    pub fn get_vendor(&self) -> (r: &str)
        ensures
            r@ == self@.vendor,
    {
        self.vendor.as_str()
    }

    pub fn get_kind(&self) -> (r: &ProfileKind)
        ensures
            *r == self@.kind,
    {
        &self.kind
    }

    pub fn set_name(&mut self, name: String)
        ensures
            final(self)@ == (ProfileView { name: name@, ..old(self)@ }),
    {
        self.name = name;
    }

    pub fn as_snapshot(&self) -> (r: ProfileSnapshot)
        ensures
            r@ == self@,
    {
        ProfileSnapshot {
            machine_id: self.machine_id.clone(),
            name: self.name.clone(),
            vendor: self.vendor.clone(),
            kind: self.kind,
        }
    }
}

/// Builds a profile from its fields.
pub fn make_profile(machine_id: String, name: String, vendor: String, kind: ProfileKind) -> (r:
    Profile)
    ensures
        r@ == (ProfileView { machine_id: machine_id@, name: name@, vendor: vendor@, kind }),
{
    Profile { machine_id, name, vendor, kind }
}

/// Whether two strings hold the same characters.
pub fn same_text(a: &String, b: &String) -> (r: bool)
    ensures
        r == (a@ == b@),
{
    a.eq(b)
}

impl Profile {
    /// Whether this profile's machine id is `id`.
    pub fn has_machine_id(&self, id: &String) -> (r: bool)
        ensures
            r == (self@.machine_id == id@),
    {
        same_text(&self.machine_id, id)
    }

    /// A copy of this profile's machine id.
    pub fn machine_id_string(&self) -> (r: String)
        ensures
            r@ == self@.machine_id,
    {
        self.machine_id.clone()
    }

    /// Whether this profile's name is `name`.
    pub fn has_name(&self, name: &String) -> (r: bool)
        ensures
            r == (self@.name == name@),
    {
        same_text(&self.name, name)
    }

    /// Whether two profiles have the same machine id.
    pub fn same_machine(&self, other: &Profile) -> (r: bool)
        ensures
            r == (self@.machine_id == other@.machine_id),
    {
        same_text(&self.machine_id, &other.machine_id)
    }

    /// Whether two profiles are equal in every field.
    pub fn same_profile(&self, other: &Profile) -> (r: bool)
        ensures
            r == (self@ == other@),
    {
        same_text(&self.machine_id, &other.machine_id) && same_text(&self.name, &other.name)
            && same_text(&self.vendor, &other.vendor) && self.kind == other.kind
    }

    /// A copy of this profile under the name of `other`.
    pub fn renamed_as(&self, other: &Profile) -> (r: Profile)
        ensures
            r@ == (ProfileView { name: other@.name, ..self@ }),
    {
        Profile {
            machine_id: self.machine_id.clone(),
            name: other.name.clone(),
            vendor: self.vendor.clone(),
            kind: self.kind,
        }
    }
}

/// The name of a host whose player gave none.
pub open spec fn anonymous_host() -> Seq<char> {
    "Terracotta Anonymous Host"@
}

/// The name of a guest whose player gave none.
pub open spec fn anonymous_guest() -> Seq<char> {
    "Terracotta Anonymous Guest"@
}

/// This machine's own profile in a room: its machine id and vendor, the player's name or
/// an anonymous one, as host or as the guest's `LOCAL` entry.
pub fn own_profile(machine_id: String, player: Option<String>, vendor: String, host: bool) -> (r:
    Profile)
    ensures
        r@.machine_id == machine_id@,
        r@.vendor == vendor@,
        r@.kind == if host {
            ProfileKind::HOST
        } else {
            ProfileKind::LOCAL
        },
        r@.name == match player {
            Some(p) => p@,
            None => if host {
                anonymous_host()
            } else {
                anonymous_guest()
            },
        },
{
    let name = match player {
        Some(p) => p,
        None => if host {
            String::from_str("Terracotta Anonymous Host")
        } else {
            String::from_str("Terracotta Anonymous Guest")
        },
    };
    let kind = if host {
        ProfileKind::HOST
    } else {
        ProfileKind::LOCAL
    };
    Profile { machine_id, name, vendor, kind }
}

} // verus!
