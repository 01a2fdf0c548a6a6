//! Third-party room codes: up to ten base-32 symbols holding a decimal number.

use crate::room::{opt_room_view, Room, RoomKind, RoomView};
use crate::symbols::{to_upper, upper};
use crate::text::{chars_of, decimal, decimal_of, push_range, string_of};
use vstd::prelude::*;
use vstd::string::*;

verus! {

/// Codes whose number reaches this are refused.
pub const PCL_LIMIT: u64 = 999999999965536;

/// The value of a symbol of `23456789ABCDEFGHJKLMNPQRSTUVWXYZ`, read case-blind.
pub open spec fn b32_value(c: char) -> Option<u8> {
    let u = upper(c) as u32;
    if 50 <= u <= 57 {
        Some((u - 50) as u8)
    } else if 65 <= u <= 72 {
        Some((u - 65 + 8) as u8)
    } else if 74 <= u <= 78 {
        Some((u - 74 + 16) as u8)
    } else if 80 <= u <= 90 {
        Some((u - 80 + 21) as u8)
    } else {
        None
    }
}

/// Every character of `u` is a base-32 symbol.
pub open spec fn b32_valid(u: Seq<char>) -> bool {
    forall|i: int| 0 <= i < u.len() ==> (#[trigger] b32_value(u[i])) is Some
}

/// The number written by the symbols of `u`, most significant first.
pub open spec fn b32_number(u: Seq<char>) -> nat
    decreases u.len(),
{
    if u.len() == 0 {
        0
    } else {
        b32_number(u.drop_last()) * 32 + b32_value(u.last()).unwrap() as nat
    }
}

/// 32 to the power `n`.
pub open spec fn pow32(n: nat) -> nat
    decreases n,
{
    if n == 0 {
        1
    } else {
        32 * pow32((n - 1) as nat)
    }
}

/// `u` in upper case.
pub open spec fn upper_seq(u: Seq<char>) -> Seq<char> {
    Seq::new(u.len(), |i: int| upper(u[i]))
}

/// The game port of a number of 14 or 15 decimal digits.
pub open spec fn pcl_port(v: nat) -> nat {
    if decimal(v).len() == 14 {
        v % 10000
    } else {
        v % 100000
    }
}

/// What a third-party code reads as.
pub open spec fn pcl_room(u: Seq<char>) -> Option<RoomView> {
    if u.len() > 10 || !b32_valid(u) {
        None
    } else {
        let v = b32_number(u);
        let s = decimal(v);
        if v >= PCL_LIMIT || !(s.len() == 14 || s.len() == 15) || pcl_port(v) >= 65536 {
            None
        } else {
            Some(
                RoomView {
                    code: upper_seq(u),
                    network_name: "PCLCELobby"@ + s.subrange(0, 8),
                    network_secret: "PCLCEETLOBBY2025"@ + s.subrange(8, 10),
                    kind: RoomKind::PCL2CE { mc_port: pcl_port(v) as u16 },
                },
            )
        }
    }
}

/// Case-blind lookup of a base-32 symbol's value.
pub fn lookup_b32(c: char) -> (r: Option<u8>)
    ensures
        r == b32_value(c),
{
    let u = to_upper(c) as u32;
    if 50 <= u && u <= 57 {
        Some((u - 50) as u8)
    } else if 65 <= u && u <= 72 {
        Some((u - 65 + 8) as u8)
    } else if 74 <= u && u <= 78 {
        Some((u - 74 + 16) as u8)
    } else if 80 <= u && u <= 90 {
        Some((u - 80 + 21) as u8)
    } else {
        None
    }
}

/// Reads the whole of `code` as a third-party code.
pub fn parse(code: &str) -> (r: Option<Room>)
    ensures
        opt_room_view(r) == pcl_room(code@),
{
    let chars = chars_of(code);
    let ghost u = code@;
    if chars.len() > 10 {
        return None;
    }
    proof {
        lemma_pow32_mono(0, 10);
    }
    let mut value: u64 = 0;
    let mut upper_code: Vec<char> = Vec::new();
    let mut i: usize = 0;
    while i < chars.len()
        invariant
            chars@ == u,
            u == code@,
            u.len() <= 10,
            i <= u.len(),
            b32_valid(u.subrange(0, i as int)),
            value as nat == b32_number(u.subrange(0, i as int)),
            value < pow32(i as nat),
            pow32(i as nat) <= pow32(10),
            pow32(10) == 1125899906842624,
            upper_code@ == upper_seq(u.subrange(0, i as int)),
        decreases u.len() - i,
    {
        let c = chars[i];
        let looked = lookup_b32(c);
        if looked.is_none() {
            assert(!b32_valid(u));
            return None;
        }
        let d = looked.unwrap();
        let ghost pre = u.subrange(0, i as int);
        let ghost next = u.subrange(0, i + 1);
        assert(next.drop_last() =~= pre);
        proof {
            assert(value * 32 + d < 32 * pow32(i as nat)) by (nonlinear_arith)
                requires
                    value < pow32(i as nat),
                    d < 32,
            ;
            if i + 1 <= 10 {
                lemma_pow32_mono((i + 1) as nat, 10);
            }
        }
        value = value * 32 + d as u64;
        upper_code.push(to_upper(c));
        i += 1;
        assert(b32_valid(u.subrange(0, i as int)));
        assert(upper_code@ =~= upper_seq(u.subrange(0, i as int)));
    }
    assert(u.subrange(0, u.len() as int) =~= u);
    if value >= PCL_LIMIT {
        return None;
    }
    let s = decimal_of(value);
    if s.len() != 14 && s.len() != 15 {
        return None;
    }
    let port: u64 = if s.len() == 14 {
        value % 10000
    } else {
        value % 100000
    };
    if port >= 65536 {
        return None;
    }
    let mut network_name = String::from_str("PCLCELobby");
    let mut name_tail: Vec<char> = Vec::new();
    push_range(&mut name_tail, &s, 0, 8);
    network_name.append(string_of(&name_tail).as_str());
    let mut network_secret = String::from_str("PCLCEETLOBBY2025");
    let mut secret_tail: Vec<char> = Vec::new();
    push_range(&mut secret_tail, &s, 8, 10);
    network_secret.append(string_of(&secret_tail).as_str());
    Some(
        Room {
            code: string_of(&upper_code),
            network_name,
            network_secret,
            kind: RoomKind::PCL2CE { mc_port: port as u16 },
        },
    )
}

pub proof fn lemma_pow32_mono(a: nat, b: nat)
    requires
        a <= b,
    ensures
        pow32(a) <= pow32(b),
        pow32(10) == 1125899906842624,
    decreases b - a,
{
    reveal_with_fuel(pow32, 11);
    if a < b {
        lemma_pow32_mono(a, (b - 1) as nat);
        assert(pow32(b) == 32 * pow32((b - 1) as nat));
    }
}

} // verus!

verus! {

pub proof fn lemma_upper_idempotent(c: char)
    ensures
        upper(upper(c)) == upper(c),
        b32_value(upper(c)) == b32_value(c),
{
}

pub proof fn lemma_upper_seq_number(u: Seq<char>)
    ensures
        b32_valid(upper_seq(u)) == b32_valid(u),
        b32_number(upper_seq(u)) == b32_number(u),
        upper_seq(upper_seq(u)) == upper_seq(u),
    decreases u.len(),
{
    let v = upper_seq(u);
    assert forall|i: int| 0 <= i < u.len() implies #[trigger] b32_value(v[i]) == b32_value(u[i])
        && upper(v[i]) == v[i] by {
        lemma_upper_idempotent(u[i]);
    }
    assert(b32_valid(v) == b32_valid(u)) by {
        if b32_valid(u) {
            assert forall|i: int| 0 <= i < v.len() implies (#[trigger] b32_value(v[i])) is Some by {
                assert(b32_value(v[i]) == b32_value(u[i]));
            }
        }
        if b32_valid(v) {
            assert forall|i: int| 0 <= i < u.len() implies (#[trigger] b32_value(u[i])) is Some by {
                assert(b32_value(v[i]) == b32_value(u[i]));
            }
        }
    }
    assert(upper_seq(v) =~= v);
    if u.len() > 0 {
        lemma_upper_seq_number(u.drop_last());
        assert(upper_seq(u.drop_last()) =~= v.drop_last());
    }
}

/// A third-party code that reads as a room reads, in the room's own code, as the same room.
pub proof fn lemma_pcl_canonical(u: Seq<char>)
    ensures
        pcl_room(u) matches Some(r) ==> pcl_room(r.code) == Some(r) && r.code.len() <= 10,
{
    lemma_upper_seq_number(u);
}

} // verus!
