//! Current room codes: `U/` and sixteen symbols in four groups, a base-34 seed.

use crate::room::{opt_room_view, Room, RoomKind, RoomView};
use crate::symbols::{
    all_digits, digits34, lemma_digits34_value, lemma_value34_bound, lemma_value34_step,
    lemma_symbol_round_trip, lookup_char, pow34, to_upper, symbol, symbol_of, symbol_value,
    upper, value34,
};
use crate::text::{chars_of, string_of};
use vstd::prelude::*;
use vstd::string::*;

verus! {

/// 34 to the 16th: the number of seeds that a code can write.
pub const SEED_LIMIT: u128 = 3189059870763703892770816;

pub proof fn lemma_seed_limit()
    ensures
        pow34(16) == SEED_LIMIT,
{
    reveal_with_fuel(pow34, 17);
}

/// Place in a current code of its `k`-th digit.
pub open spec fn exp_pos(k: int) -> int {
    2 + k + k / 4
}

/// `w` is `U/` and four groups of four symbols separated by hyphens.
pub open spec fn exp_shape(w: Seq<char>) -> bool {
    &&& w.len() == 21
    &&& upper(w[0]) == 'U'
    &&& w[1] == '/'
    &&& w[6] == '-'
    &&& w[11] == '-'
    &&& w[16] == '-'
    &&& forall|k: int| 0 <= k < 16 ==> (#[trigger] symbol_value(w[exp_pos(k)])) is Some
}

/// The sixteen digits of a window of current shape, least significant first.
pub open spec fn exp_digits(w: Seq<char>) -> Seq<u8> {
    Seq::new(16, |k: int| symbol_value(w[exp_pos(k)]).unwrap())
}

/// `w` is a current code: its seed is a multiple of 7.
pub open spec fn exp_valid(w: Seq<char>) -> bool {
    exp_shape(w) && value34(exp_digits(w)) % 7 == 0
}

/// Four symbols of the digits of `v`, from the `s`-th on.
pub open spec fn exp_group(v: nat, s: int) -> Seq<char> {
    Seq::new(4, |k: int| symbol(digits34(v, 16)[s + k]))
}

/// The canonical code of a seed.
pub open spec fn exp_code(v: nat) -> Seq<char> {
    seq!['U', '/'] + exp_group(v, 0) + seq!['-'] + exp_group(v, 4) + seq!['-'] + exp_group(v, 8)
        + seq!['-'] + exp_group(v, 12)
}

/// The overlay network name of a seed.
pub open spec fn exp_name(v: nat) -> Seq<char> {
    "scaffolding-mc-"@ + exp_group(v, 0) + seq!['-'] + exp_group(v, 4)
}

/// The overlay network secret of a seed.
pub open spec fn exp_secret(v: nat) -> Seq<char> {
    exp_group(v, 8) + seq!['-'] + exp_group(v, 12)
}

/// The room of a seed.
pub open spec fn exp_room(v: nat) -> RoomView {
    RoomView {
        code: exp_code(v),
        network_name: exp_name(v),
        network_secret: exp_secret(v),
        kind: RoomKind::Experimental { seed: v as u128 },
    }
}

/// The room of the first window of `u`, from `s` on, that is a current code.
pub open spec fn exp_scan(u: Seq<char>, s: int) -> Option<RoomView>
    decreases u.len() - s,
{
    if s < 0 || s + 21 > u.len() {
        None
    } else if exp_valid(u.subrange(s, s + 21)) {
        Some(exp_room(value34(exp_digits(u.subrange(s, s + 21)))))
    } else {
        exp_scan(u, s + 1)
    }
}

/// The seed minted from 128 random bits: reduced below 34^16, then down to a multiple of 7.
pub open spec fn seed_of_bits(bits: u128) -> nat {
    let v = bits as nat % pow34(16);
    (v - v % 7) as nat
}

fn push_group(out: &mut Vec<char>, digits: &Vec<u8>, s: usize, Ghost(v): Ghost<nat>)
    requires
        s + 4 <= 16,
        digits@ == digits34(v, 16),
        digits@.len() == 16,
        all_digits(digits@),
    ensures
        final(out)@ == old(out)@ + exp_group(v, s as int),
{
    let ghost start = out@;
    let mut k: usize = 0;
    while k < 4
        invariant
            k <= 4,
            s + 4 <= 16,
            digits@ == digits34(v, 16),
            digits@.len() == 16,
            all_digits(digits@),
            out@.len() == start.len() + k,
            forall|q: int| 0 <= q < start.len() ==> #[trigger] out@[q] == start[q],
            forall|q: int|
                0 <= q < k ==> #[trigger] out@[start.len() + q] == symbol(digits@[s + q]),
        decreases 4 - k,
    {
        out.push(symbol_of(digits[s + k]));
        k += 1;
    }
    assert forall|q: int| 0 <= q < out@.len() implies #[trigger] out@[q] == (start + exp_group(
        v,
        s as int,
    ))[q] by {
        if q >= start.len() {
            let j = q - start.len();
            assert(out@[start.len() + j] == symbol(digits@[s + j]));
        }
    }
    assert(out@ =~= start + exp_group(v, s as int));
}

/// The code, network name and network secret of a seed.
pub fn from_value(value: u128) -> (r: (String, String, String))
    requires
        value < pow34(16),
    ensures
        r.0@ == exp_code(value as nat),
        r.1@ == exp_name(value as nat),
        r.2@ == exp_secret(value as nat),
{
    let ghost v = value as nat;
    proof {
        lemma_digits34_value(v, 16);
    }
    let mut digits: Vec<u8> = Vec::new();
    let mut cur: u128 = value;
    let mut i: usize = 0;
    while i < 16
        invariant
            i <= 16,
            digits@ + digits34(cur as nat, (16 - i) as nat) == digits34(v, 16),
        decreases 16 - i,
    {
        let ghost before = digits34(cur as nat, (16 - i) as nat);
        assert(before == seq![(cur % 34) as u8] + digits34(cur as nat / 34, (16 - i - 1) as nat));
        digits.push((cur % 34) as u8);
        cur = cur / 34;
        i += 1;
        assert(digits@ + digits34(cur as nat, (16 - i) as nat) =~= digits34(v, 16));
    }
    assert(digits@ =~= digits34(v, 16));

    let mut code: Vec<char> = Vec::new();
    code.push('U');
    code.push('/');
    push_group(&mut code, &digits, 0, Ghost(v));
    code.push('-');
    push_group(&mut code, &digits, 4, Ghost(v));
    code.push('-');
    push_group(&mut code, &digits, 8, Ghost(v));
    code.push('-');
    push_group(&mut code, &digits, 12, Ghost(v));
    assert(code@ =~= exp_code(v));

    let mut name: Vec<char> = Vec::new();
    push_group(&mut name, &digits, 0, Ghost(v));
    name.push('-');
    push_group(&mut name, &digits, 4, Ghost(v));
    let mut network_name = String::from_str("scaffolding-mc-");
    let tail = string_of(&name);
    network_name.append(tail.as_str());
    assert(network_name@ =~= exp_name(v));

    let mut secret: Vec<char> = Vec::new();
    push_group(&mut secret, &digits, 8, Ghost(v));
    secret.push('-');
    push_group(&mut secret, &digits, 12, Ghost(v));
    assert(secret@ =~= exp_secret(v));

    (string_of(&code), network_name, string_of(&secret))
}

/// The room of a seed below 34^16.
pub fn room_of_seed(value: u128) -> (r: Room)
    requires
        value < pow34(16),
    ensures
        r@ == exp_room(value as nat),
{
    let (code, network_name, network_secret) = from_value(value);
    Room { code, network_name, network_secret, kind: RoomKind::Experimental { seed: value } }
}

/// Mints the room of 128 random bits.
pub fn create_room_with(bits: u128) -> (r: Room)
    ensures
        r@ == exp_room(seed_of_bits(bits)),
{
    proof {
        lemma_seed_limit();
    }
    let value = bits % SEED_LIMIT;
    let value = value - value % 7;
    room_of_seed(value)
}

/// Reads 21 characters of `chars` from `start` as a current code.
fn parse_window(chars: &Vec<char>, start: usize) -> (r: Option<u128>)
    requires
        start + 21 <= chars@.len(),
    ensures
        match r {
            Some(v) => exp_valid(chars@.subrange(start as int, start + 21)) && v as nat == value34(
                exp_digits(chars@.subrange(start as int, start + 21)),
            ),
            None => !exp_valid(chars@.subrange(start as int, start + 21)),
        },
{
    let ghost w = chars@.subrange(start as int, start + 21);
    let n = chars.len();
    if to_upper(chars[start]) != 'U' || chars[start + 1] != '/' || chars[start
        + 6] != '-' || chars[start + 11] != '-' || chars[start + 16] != '-' {
        assert(w[0] == chars@[start as int] && w[1] == chars@[start + 1] && w[6] == chars@[start
            + 6] && w[11] == chars@[start + 11] && w[16] == chars@[start + 16]);
        return None;
    }
    let mut digits: Vec<u8> = Vec::new();
    let mut k: usize = 0;
    while k < 16
        invariant
            k <= 16,
            start + 21 <= n,
            n == chars@.len(),
            w == chars@.subrange(start as int, start + 21),
            digits@.len() == k,
            forall|m: int| 0 <= m < k ==> symbol_value(w[exp_pos(m)]) == Some(#[trigger] digits@[m]),
        decreases 16 - k,
    {
        let p = start + (2 + k + k / 4);
        assert(w[exp_pos(k as int)] == chars@[p as int]);
        match lookup_char(chars[p]) {
            Some(v) => digits.push(v),
            None => {
                return None;
            },
        }
        k += 1;
    }
    assert forall|k: int| 0 <= k < 16 implies (#[trigger] symbol_value(w[exp_pos(k)])) is Some by {
        assert(symbol_value(w[exp_pos(k)]) == Some(digits@[k]));
    }
    assert(w[0] == chars@[start as int] && w[1] == chars@[start + 1] && w[6] == chars@[start + 6]
        && w[11] == chars@[start + 11] && w[16] == chars@[start + 16]);
    assert(exp_shape(w));
    let ghost d = exp_digits(w);
    assert(digits@ =~= d);
    assert(all_digits(d));

    let mut value: u128 = 0;
    let mut i: usize = 16;
    while i > 0
        invariant
            i <= 16,
            digits@ == d,
            all_digits(d),
            d.len() == 16,
            value as nat == value34(d.subrange(i as int, 16)),
        decreases i,
    {
        i -= 1;
        proof {
            lemma_value34_step(d, i as int);
            let t = d.subrange(i + 1, 16);
            assert(all_digits(t));
            lemma_value34_bound(t);
            lemma_seed_limit();
            reveal_with_fuel(pow34, 17);
            assert(pow34(t.len()) <= pow34(15));
            assert(value34(t) < pow34(15));
        }
        value = value * 34 + digits[i] as u128;
    }
    assert(d.subrange(0, 16) =~= d);
    if value % 7 == 0 {
        Some(value)
    } else {
        None
    }
}

/// Reads the first current code that stands anywhere in `code`, case-blind.
pub fn parse(code: &str) -> (r: Option<Room>)
    ensures
        opt_room_view(r) == exp_scan(code@, 0),
{
    let chars = chars_of(code);
    if chars.len() < 21 {
        return None;
    }
    let last = chars.len() - 21;
    let mut start: usize = 0;
    while start <= last
        invariant
            chars@ == code@,
            last + 21 == chars@.len(),
            start <= last + 1,
            exp_scan(code@, 0) == exp_scan(code@, start as int),
        decreases last + 1 - start,
    {
        if let Some(value) = parse_window(&chars, start) {
            proof {
                let w = chars@.subrange(start as int, start + 21);
                let d = exp_digits(w);
                assert(all_digits(d));
                lemma_value34_bound(d);
            }
            return Some(room_of_seed(value));
        }
        start += 1;
    }
    None
}

} // verus!

verus! {

/// The canonical code of a seed below 34^16 has the current shape and reads back as the seed.
pub proof fn lemma_exp_code_reads_back(v: nat)
    requires
        v < pow34(16),
    ensures
        exp_shape(exp_code(v)),
        exp_digits(exp_code(v)) == digits34(v, 16),
        value34(exp_digits(exp_code(v))) == v,
{
    lemma_digits34_value(v, 16);
    let d = digits34(v, 16);
    let w = exp_code(v);
    assert(w.len() == 21);
    assert forall|k: int| 0 <= k < 16 implies symbol_value(#[trigger] w[exp_pos(k)]) == Some(
        d[k],
    ) by {
        assert(d[k] < 34);
        lemma_symbol_round_trip(d[k]);
        if k < 4 {
            assert(w[exp_pos(k)] == exp_group(v, 0)[k]);
        } else if k < 8 {
            assert(w[exp_pos(k)] == exp_group(v, 4)[k - 4]);
        } else if k < 12 {
            assert(w[exp_pos(k)] == exp_group(v, 8)[k - 8]);
        } else {
            assert(w[exp_pos(k)] == exp_group(v, 12)[k - 12]);
        }
    }
    assert(exp_digits(w) =~= d);
}

/// A seed below 34^16 that is a multiple of 7, written as a code and read back, gives the
/// seed's room: the seed is decoded unchanged.
pub proof fn lemma_exp_round_trip(v: nat)
    requires
        v < pow34(16),
        v % 7 == 0,
    ensures
        exp_scan(exp_code(v), 0) == Some(exp_room(v)),
        exp_room(v).kind == (RoomKind::Experimental { seed: v as u128 }),
{
    lemma_exp_code_reads_back(v);
    let w = exp_code(v);
    assert(w.subrange(0, 21) =~= w);
}

/// Every minted seed is below 34^16 and a multiple of 7, and its code reads back as it.
pub proof fn lemma_minted_seed(bits: u128)
    ensures
        seed_of_bits(bits) < pow34(16),
        seed_of_bits(bits) % 7 == 0,
        exp_scan(exp_code(seed_of_bits(bits)), 0) == Some(exp_room(seed_of_bits(bits))),
{
    lemma_seed_limit();
    let v = bits as nat % pow34(16);
    assert(v < pow34(16));
    assert((v - v % 7) % 7 == 0) by (nonlinear_arith)
        requires
            v >= 0,
    ;
    lemma_exp_round_trip(seed_of_bits(bits));
}

} // verus!

verus! {

/// A current code that the reader accepts is written back canonically, and reads as itself.
pub proof fn lemma_exp_scan_canonical(u: Seq<char>, s: int)
    ensures
        exp_scan(u, s) matches Some(r) ==> exp_scan(r.code, 0) == Some(r),
    decreases u.len() - s,
{
    if s < 0 || s + 21 > u.len() {
    } else if exp_valid(u.subrange(s, s + 21)) {
        let d = exp_digits(u.subrange(s, s + 21));
        assert(all_digits(d)) by {
            assert forall|k: int| 0 <= k < 16 implies #[trigger] d[k] < 34 by {
                crate::symbols::lemma_value_symbol(u.subrange(s, s + 21)[exp_pos(k)]);
            }
        }
        lemma_value34_bound(d);
        lemma_exp_round_trip(value34(d));
    } else {
        lemma_exp_scan_canonical(u, s + 1);
    }
}

/// Text without a slash holds no current code.
pub proof fn lemma_exp_scan_needs_slash(u: Seq<char>, s: int)
    requires
        forall|i: int| 0 <= i < u.len() ==> #[trigger] u[i] != '/',
    ensures
        exp_scan(u, s) is None,
    decreases u.len() - s,
{
    if s < 0 || s + 21 > u.len() {
    } else {
        assert(u.subrange(s, s + 21)[1] == u[s + 1]);
        lemma_exp_scan_needs_slash(u, s + 1);
    }
}

} // verus!
