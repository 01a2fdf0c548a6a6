//! Legacy room codes: 25 symbols in five groups of five, the last a checksum.

use crate::room::{opt_room_view, Room, RoomKind, RoomView};
use crate::symbols::{
    all_digits, digit_sum, digits34, lemma_digits34_value, lemma_symbol_round_trip,
    lemma_value34_step, lemma_value_symbol, lookup_char, lower, pow34, symbol, symbol_of,
    symbol_value, to_lower, value34,
};
use crate::text::{chars_of, string_of};
use vstd::arithmetic::div_mod::{lemma_add_mod_noop, lemma_mul_mod_noop_right};
use vstd::prelude::*;
use vstd::string::*;

verus! {

/// Place in a legacy code of its `k`-th digit.
pub open spec fn legacy_pos(k: int) -> int {
    6 * (k / 5) + k % 5
}

/// `w` is 29 characters: five groups of five symbols, separated by hyphens.
pub open spec fn legacy_shape(w: Seq<char>) -> bool {
    &&& w.len() == 29
    &&& forall|k: int| 0 <= k < 25 ==> (#[trigger] symbol_value(w[legacy_pos(k)])) is Some
    &&& forall|i: int| 0 <= i < 4 ==> #[trigger] w[6 * i + 5] == '-'
}

/// The 25 digits of a window of legacy shape.
pub open spec fn legacy_digits(w: Seq<char>) -> Seq<u8> {
    Seq::new(25, |k: int| symbol_value(w[legacy_pos(k)]).unwrap())
}

/// The last digit of `d` is the sum of the other 24, modulo 34.
pub open spec fn legacy_checksum_ok(d: Seq<u8>) -> bool {
    digit_sum(d, 24) % 34 == d[24] as nat
}

/// `w` is a legacy code.
pub open spec fn legacy_valid(w: Seq<char>) -> bool {
    legacy_shape(w) && legacy_checksum_ok(legacy_digits(w))
}

/// The canonical legacy code of 25 digits.
pub open spec fn legacy_code(d: Seq<u8>) -> Seq<char> {
    Seq::new(29, |p: int| if p % 6 == 5 { '-' } else { symbol(d[5 * (p / 6) + p % 6]) })
}

/// The overlay network name of a legacy room.
pub open spec fn legacy_name(d: Seq<u8>) -> Seq<char> {
    "terracotta-mc-"@ + Seq::new(15, |k: int| lower(symbol(d[k])))
}

/// The overlay network secret of a legacy room.
pub open spec fn legacy_secret(d: Seq<u8>) -> Seq<char> {
    Seq::new(10, |k: int| lower(symbol(d[k + 15])))
}

/// The game port that a legacy code carries: its base-34 value modulo 65536.
pub open spec fn legacy_port(d: Seq<u8>) -> u16 {
    (value34(d) % 65536) as u16
}

/// The room of a legacy code's digits.
pub open spec fn legacy_room(d: Seq<u8>) -> RoomView {
    RoomView {
        code: legacy_code(d),
        network_name: legacy_name(d),
        network_secret: legacy_secret(d),
        kind: RoomKind::TerracottaLegacy { mc_port: legacy_port(d) },
    }
}

/// What a 29-character window reads as.
pub open spec fn legacy_window(w: Seq<char>) -> Option<RoomView> {
    if legacy_valid(w) {
        Some(legacy_room(legacy_digits(w)))
    } else {
        None
    }
}

/// The room of the first window of `u`, from `s` on, that is a legacy code.
pub open spec fn legacy_scan(u: Seq<char>, s: int) -> Option<RoomView>
    decreases u.len() - s,
{
    if s < 0 || s + 29 > u.len() {
        None
    } else if legacy_valid(u.subrange(s, s + 29)) {
        legacy_window(u.subrange(s, s + 29))
    } else {
        legacy_scan(u, s + 1)
    }
}

/// Reads the 29 characters of `chars` from `start` as a legacy code.
pub fn parse_segment(chars: &Vec<char>, start: usize) -> (r: Option<Room>)
    requires
        start + 29 <= chars@.len(),
    ensures
        opt_room_view(r) == legacy_window(chars@.subrange(start as int, start + 29)),
{
    let ghost w = chars@.subrange(start as int, start + 29);
    let n = chars.len();
    let mut digits: Vec<u8> = Vec::new();
    let mut k: usize = 0;
    while k < 25
        invariant
            k <= 25,
            start + 29 <= n,
            n == chars@.len(),
            w == chars@.subrange(start as int, start + 29),
            digits@.len() == k,
            forall|m: int| 0 <= m < k ==> symbol_value(w[legacy_pos(m)]) == Some(#[trigger] digits@[m]),
        decreases 25 - k,
    {
        assert(6 * (k / 5) + k % 5 <= 28);
        let p = start + (6 * (k / 5) + k % 5);
        assert(w[legacy_pos(k as int)] == chars@[p as int]);
        match lookup_char(chars[p]) {
            Some(v) => digits.push(v),
            None => {
                return None;
            },
        }
        k += 1;
    }
    let mut i: usize = 0;
    while i < 4
        invariant
            i <= 4,
            start + 29 <= n,
            n == chars@.len(),
            w == chars@.subrange(start as int, start + 29),
            forall|j: int| 0 <= j < i ==> #[trigger] w[6 * j + 5] == '-',
        decreases 4 - i,
    {
        assert(w[6 * i + 5] == chars@[start + 6 * i + 5]);
        if chars[start + 6 * i + 5] != '-' {
            return None;
        }
        i += 1;
    }
    assert forall|k: int| 0 <= k < 25 implies (#[trigger] symbol_value(w[legacy_pos(k)])) is Some by {
        assert(symbol_value(w[legacy_pos(k)]) == Some(digits@[k]));
    }
    assert(legacy_shape(w));
    let ghost d = legacy_digits(w);
    assert(digits@ =~= d);
    assert(all_digits(d));

    let mut checking: u8 = 0;
    let mut i: usize = 0;
    while i < 24
        invariant
            i <= 24,
            digits@ == d,
            all_digits(d),
            d.len() == 25,
            checking as nat == digit_sum(d, i as nat) % 34,
        decreases 24 - i,
    {
        proof {
            lemma_add_mod_noop(digit_sum(d, i as nat) as int, d[i as int] as int, 34);
        }
        checking = (checking + digits[i]) % 34;
        i += 1;
    }
    if checking != digits[24] {
        return None;
    }
    Some(room_of_digits(&digits))
}

/// The room of 25 digits.
fn room_of_digits(digits: &Vec<u8>) -> (r: Room)
    requires
        digits@.len() == 25,
        all_digits(digits@),
    ensures
        r@ == legacy_room(digits@),
{
    let ghost d = digits@;

    let mut code: Vec<char> = Vec::new();
    let mut p: usize = 0;
    while p < 29
        invariant
            p <= 29,
            digits@ == d,
            all_digits(d),
            d.len() == 25,
            code@.len() == p,
            forall|q: int| 0 <= q < p ==> #[trigger] code@[q] == legacy_code(d)[q],
        decreases 29 - p,
    {
        if p % 6 == 5 {
            code.push('-');
        } else {
            code.push(symbol_of(digits[5 * (p / 6) + p % 6]));
        }
        p += 1;
    }
    assert(code@ =~= legacy_code(d));

    let mut name: Vec<char> = Vec::new();
    let mut k: usize = 0;
    while k < 15
        invariant
            k <= 15,
            digits@ == d,
            all_digits(d),
            d.len() == 25,
            name@.len() == k,
            forall|q: int| 0 <= q < k ==> #[trigger] name@[q] == lower(symbol(d[q])),
        decreases 15 - k,
    {
        name.push(to_lower(symbol_of(digits[k])));
        k += 1;
    }
    let mut secret: Vec<char> = Vec::new();
    let mut k: usize = 0;
    while k < 10
        invariant
            k <= 10,
            digits@ == d,
            all_digits(d),
            d.len() == 25,
            secret@.len() == k,
            forall|q: int| 0 <= q < k ==> #[trigger] secret@[q] == lower(symbol(d[q + 15])),
        decreases 10 - k,
    {
        secret.push(to_lower(symbol_of(digits[k + 15])));
        k += 1;
    }
    assert(secret@ =~= Seq::new(10, |k: int| lower(symbol(d[k + 15]))));

    let mut port: u32 = 0;
    let mut i: usize = 25;
    while i > 0
        invariant
            i <= 25,
            digits@ == d,
            all_digits(d),
            d.len() == 25,
            port as nat == value34(d.subrange(i as int, 25)) % 65536,
        decreases i,
    {
        i -= 1;
        proof {
            lemma_value34_step(d, i as int);
            let x = value34(d.subrange(i + 1, 25)) as int;
            lemma_mul_mod_noop_right(34, x, 65536);
            lemma_add_mod_noop(d[i as int] as int, 34 * x, 65536);
            lemma_add_mod_noop(d[i as int] as int, 34 * (x % 65536), 65536);
        }
        port = (port * 34 + digits[i] as u32) % 65536;
    }
    assert(d.subrange(0, 25) =~= d);

    let mut network_name = String::from_str("terracotta-mc-");
    let tail = string_of(&name);
    network_name.append(tail.as_str());
    assert(name@ =~= Seq::new(15, |k: int| lower(symbol(d[k]))));
    Room {
        code: string_of(&code),
        network_name,
        network_secret: string_of(&secret),
        kind: RoomKind::TerracottaLegacy { mc_port: port as u16 },
    }
}

/// Reads the first legacy code that stands anywhere in `code`, case-blind.
pub fn parse(code: &str) -> (r: Option<Room>)
    ensures
        opt_room_view(r) == legacy_scan(code@, 0),
{
    let chars = chars_of(code);
    if chars.len() < 29 {
        return None;
    }
    let last = chars.len() - 29;
    let mut start: usize = 0;
    while start <= last
        invariant
            chars@ == code@,
            last + 29 == chars@.len(),
            start <= last + 1,
            legacy_scan(code@, 0) == legacy_scan(code@, start as int),
        decreases last + 1 - start,
    {
        let r = parse_segment(&chars, start);
        if r.is_some() {
            return r;
        }
        start += 1;
    }
    None
}

} // verus!

verus! {

/// The canonical code of 25 digits has the legacy shape and reads back as those digits.
pub proof fn lemma_legacy_code_reads_back(d: Seq<u8>)
    requires
        d.len() == 25,
        all_digits(d),
    ensures
        legacy_shape(legacy_code(d)),
        legacy_digits(legacy_code(d)) == d,
{
    let w = legacy_code(d);
    assert forall|k: int| 0 <= k < 25 implies symbol_value(#[trigger] w[legacy_pos(k)]) == Some(
        d[k],
    ) by {
        let p = legacy_pos(k);
        assert(p % 6 == k % 5 && p / 6 == k / 5);
        assert(5 * (p / 6) + p % 6 == k);
        assert(d[k] < 34);
        lemma_symbol_round_trip(d[k]);
    }
    assert forall|i: int| 0 <= i < 4 implies #[trigger] w[6 * i + 5] == '-' by {
        assert((6 * i + 5) % 6 == 5);
    }
    assert(legacy_digits(w) =~= d);
}

/// Every room that the legacy reader returns has a code of legacy shape whose last digit
/// is the sum of the other 24, modulo 34.
pub proof fn lemma_legacy_accepted_checksum(u: Seq<char>, s: int)
    ensures
        legacy_scan(u, s) matches Some(r) ==> legacy_shape(r.code) && legacy_checksum_ok(
            legacy_digits(r.code),
        ),
    decreases u.len() - s,
{
    if s < 0 || s + 29 > u.len() {
    } else if legacy_valid(u.subrange(s, s + 29)) {
        let w = u.subrange(s, s + 29);
        let d = legacy_digits(w);
        assert forall|k: int| 0 <= k < 25 implies #[trigger] d[k] < 34 by {
            lemma_value_symbol(w[legacy_pos(k)]);
        }
        lemma_legacy_code_reads_back(d);
    } else {
        lemma_legacy_accepted_checksum(u, s + 1);
    }
}

/// Writing 25 digits with a valid checksum as a legacy code and reading it gives their room.
pub proof fn lemma_legacy_round_trip(d: Seq<u8>)
    requires
        d.len() == 25,
        all_digits(d),
        legacy_checksum_ok(d),
    ensures
        legacy_scan(legacy_code(d), 0) == Some(legacy_room(d)),
{
    let w = legacy_code(d);
    lemma_legacy_code_reads_back(d);
    assert(w.subrange(0, 29) =~= w);
}

} // verus!

verus! {

/// A legacy code that the reader accepts is written back canonically, holds no current
/// code, and reads as itself.
pub proof fn lemma_legacy_scan_canonical(u: Seq<char>, s: int)
    ensures
        legacy_scan(u, s) matches Some(r) ==> legacy_scan(r.code, 0) == Some(r) && (forall|i: int|
            0 <= i < r.code.len() ==> #[trigger] r.code[i] != '/'),
    decreases u.len() - s,
{
    if s < 0 || s + 29 > u.len() {
    } else if legacy_valid(u.subrange(s, s + 29)) {
        let w = u.subrange(s, s + 29);
        let d = legacy_digits(w);
        assert forall|k: int| 0 <= k < 25 implies #[trigger] d[k] < 34 by {
            lemma_value_symbol(w[legacy_pos(k)]);
        }
        lemma_legacy_round_trip(d);
        let c = legacy_code(d);
        assert forall|i: int| 0 <= i < c.len() implies #[trigger] c[i] != '/' by {
            if i % 6 != 5 {
                assert(d[5 * (i / 6) + i % 6] < 34);
            }
        }
    } else {
        lemma_legacy_scan_canonical(u, s + 1);
    }
}

} // verus!

verus! {

/// 2 to the 120th: legacy codes are minted from 120 random bits.
pub const LEGACY_BITS_LIMIT: u128 = 0x1000000000000000000000000000000;

/// The number that a legacy code is minted from: 120 random bits with the low 16 replaced
/// by the game's port.
pub open spec fn legacy_value(bits: u128, port: u16) -> nat {
    (bits as nat % LEGACY_BITS_LIMIT as nat) / 65536 * 65536 + port as nat
}

/// The 25 digits of a minted legacy code: 24 base-34 digits of the number, least
/// significant first, then their sum modulo 34.
pub open spec fn legacy_minted_digits(v: nat) -> Seq<u8> {
    digits34(v, 24).push((digit_sum(digits34(v, 24), 24) % 34) as u8)
}

/// Mints a legacy room for the game on `port` from 120 random bits.
pub fn create_legacy_with(bits: u128, port: u16) -> (r: Room)
    ensures
        r@ == legacy_room(legacy_minted_digits(legacy_value(bits, port))),
        legacy_port(legacy_minted_digits(legacy_value(bits, port))) == port,
{
    let ghost v = legacy_value(bits, port);
    proof {
        lemma_legacy_value_fits(bits, port);
        lemma_digits34_value(v, 24);
    }
    let value: u128 = (bits % LEGACY_BITS_LIMIT) / 65536 * 65536 + port as u128;
    let mut digits: Vec<u8> = Vec::new();
    let mut cur: u128 = value;
    let mut checking: u8 = 0;
    let mut i: usize = 0;
    while i < 24
        invariant
            i <= 24,
            digits@ + digits34(cur as nat, (24 - i) as nat) == digits34(v, 24),
            digits@.len() == i,
            all_digits(digits@),
            checking as nat == digit_sum(digits@, i as nat) % 34,
        decreases 24 - i,
    {
        let ghost before = digits34(cur as nat, (24 - i) as nat);
        assert(before == seq![(cur % 34) as u8] + digits34(cur as nat / 34, (24 - i - 1) as nat));
        let d = (cur % 34) as u8;
        let ghost old_digits = digits@;
        proof {
            lemma_add_mod_noop(digit_sum(old_digits, i as nat) as int, d as int, 34);
            lemma_digit_sum_prefix(old_digits.push(d), i as nat);
            assert(old_digits.push(d).subrange(0, i as int) =~= old_digits);
            lemma_digit_sum_prefix(old_digits, i as nat);
            assert(old_digits.subrange(0, i as int) =~= old_digits);
        }
        checking = (checking + d) % 34;
        digits.push(d);
        cur = cur / 34;
        i += 1;
        assert(digits@ + digits34(cur as nat, (24 - i) as nat) =~= digits34(v, 24));
    }
    assert(digits@ =~= digits34(v, 24));
    digits.push(checking);
    let ghost d = legacy_minted_digits(v);
    assert(digits@ =~= d);
    proof {
        lemma_digit_sum_prefix(d, 24);
        assert(d.subrange(0, 24) =~= digits34(v, 24));
        lemma_digit_sum_prefix(digits34(v, 24), 24);
        assert(digits34(v, 24).subrange(0, 24) =~= digits34(v, 24));
        assert(all_digits(d));
        lemma_legacy_minted_port(v, port);
    }
    let room = room_of_digits(&digits);
    room
}

pub proof fn lemma_digit_sum_prefix(d: Seq<u8>, n: nat)
    requires
        n <= d.len(),
    ensures
        digit_sum(d, n) == digit_sum(d.subrange(0, n as int), n),
    decreases n,
{
    if n > 0 {
        lemma_digit_sum_prefix(d, (n - 1) as nat);
        lemma_digit_sum_prefix(d.subrange(0, n as int), (n - 1) as nat);
        assert(d.subrange(0, n as int).subrange(0, n - 1) =~= d.subrange(0, n - 1));
    }
}

pub proof fn lemma_legacy_value_fits(bits: u128, port: u16)
    ensures
        legacy_value(bits, port) < pow34(24),
        legacy_value(bits, port) % 65536 == port as nat,
        legacy_value(bits, port) < LEGACY_BITS_LIMIT as nat,
{
    reveal_with_fuel(pow34, 25);
    let b = bits as nat % LEGACY_BITS_LIMIT as nat;
    let v = legacy_value(bits, port);
    assert(b / 65536 * 65536 <= b) by (nonlinear_arith);
    assert(v % 65536 == port as nat) by (nonlinear_arith)
        requires
            v == b / 65536 * 65536 + port as nat,
            port < 65536,
    ;
    assert(b / 65536 * 65536 + 65536 <= LEGACY_BITS_LIMIT as nat) by (nonlinear_arith)
        requires
            b < LEGACY_BITS_LIMIT as nat,
            LEGACY_BITS_LIMIT as nat % 65536 == 0,
    ;
}

pub proof fn lemma_legacy_minted_port(v: nat, port: u16)
    requires
        v < pow34(24),
        v % 65536 == port as nat,
    ensures
        legacy_port(legacy_minted_digits(v)) == port,
{
    let d = legacy_minted_digits(v);
    lemma_digits34_value(v, 24);
    lemma_value34_push(digits34(v, 24), d[24]);
    assert(d == digits34(v, 24).push(d[24]));
    reveal_with_fuel(pow34, 25);
    let k: int = pow34(24) as int / 65536;
    assert(pow34(24) == 65536 * k);
    assert(pow34(24) * d[24] as nat == 65536 * (k * d[24])) by (nonlinear_arith)
        requires
            pow34(24) == 65536 * k,
    ;
    vstd::arithmetic::div_mod::lemma_mod_multiples_vanish(k * d[24], v as int, 65536);
}

pub proof fn lemma_value34_push(s: Seq<u8>, x: u8)
    ensures
        value34(s.push(x)) == value34(s) + pow34(s.len()) * x as nat,
    decreases s.len(),
{
    let p = s.push(x);
    if s.len() == 0 {
        assert(p.drop_first() =~= Seq::<u8>::empty());
        assert(value34(p.drop_first()) == 0);
        assert(value34(p) == p[0] as nat + 34 * value34(p.drop_first()));
        assert(pow34(0) == 1);
    } else {
        let t = s.drop_first();
        lemma_value34_push(t, x);
        assert(p.drop_first() =~= t.push(x));
        assert(p[0] == s[0]);
        assert(value34(p) == s[0] as nat + 34 * value34(t.push(x)));
        assert(value34(s) == s[0] as nat + 34 * value34(t));
        assert(pow34(s.len()) == 34 * pow34(t.len()));
        let a = value34(t);
        let q = pow34(t.len());
        assert(34 * (a + q * x as nat) == 34 * a + (34 * q) * x as nat) by (nonlinear_arith);
    }
}

/// A minted legacy code reads back as the room it was minted as, carrying the port.
pub proof fn lemma_legacy_minted_round_trip(bits: u128, port: u16)
    ensures
        legacy_scan(legacy_code(legacy_minted_digits(legacy_value(bits, port))), 0) == Some(
            legacy_room(legacy_minted_digits(legacy_value(bits, port))),
        ),
        legacy_port(legacy_minted_digits(legacy_value(bits, port))) == port,
{
    let v = legacy_value(bits, port);
    lemma_legacy_value_fits(bits, port);
    lemma_digits34_value(v, 24);
    let d = legacy_minted_digits(v);
    lemma_digit_sum_prefix(d, 24);
    assert(d.subrange(0, 24) =~= digits34(v, 24));
    lemma_digit_sum_prefix(digits34(v, 24), 24);
    assert(digits34(v, 24).subrange(0, 24) =~= digits34(v, 24));
    lemma_legacy_minted_port(v, port);
    lemma_legacy_round_trip(d);
}

} // verus!

verus! {

/// Mints a legacy room for the game on `port` from fresh random bits, or `None` where none
/// could be drawn.
pub fn create_legacy(port: u16) -> (r: Option<Room>)
    ensures
        r matches Some(room) ==> room@.kind == (RoomKind::TerracottaLegacy { mc_port: port })
            && legacy_scan(room@.code, 0) == Some(room@),
{
    match crate::random::random_bits() {
        Some(bits) => {
            proof {
                lemma_legacy_minted_round_trip(bits, port);
            }
            Some(create_legacy_with(bits, port))
        },
        None => None,
    }
}

} // verus!
