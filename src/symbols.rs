//! The 34-symbol alphabet of room codes and base-34 numbers written in it.

use vstd::prelude::*;

verus! {

/// ASCII upper case of one character.
pub open spec fn upper(c: char) -> char {
    if 97 <= c as u32 <= 122 {
        ((c as u32) - 32) as char
    } else {
        c
    }
}

/// ASCII lower case of one character.
pub open spec fn lower(c: char) -> char {
    if 65 <= c as u32 <= 90 {
        ((c as u32) + 32) as char
    } else {
        c
    }
}

/// The value of a symbol of `0123456789ABCDEFGHJKLMNPQRSTUVWXYZ`, read case-blind,
/// with `I` read as `1` and `O` as `0`.
pub open spec fn symbol_value(c: char) -> Option<u8> {
    let u = upper(c) as u32;
    if 48 <= u <= 57 {
        Some((u - 48) as u8)
    } else if u == 73 {
        Some(1)
    } else if u == 79 {
        Some(0)
    } else if 65 <= u <= 72 {
        Some((u - 65 + 10) as u8)
    } else if 74 <= u <= 78 {
        Some((u - 74 + 18) as u8)
    } else if 80 <= u <= 90 {
        Some((u - 80 + 23) as u8)
    } else {
        None
    }
}

/// The symbol of a digit below 34.
pub open spec fn symbol(d: u8) -> char {
    if d < 10 {
        (48 + d) as char
    } else if d < 18 {
        (65 + d - 10) as char
    } else if d < 23 {
        (74 + d - 18) as char
    } else {
        (80 + d - 23) as char
    }
}

/// Every digit of `d` is below 34.
pub open spec fn all_digits(d: Seq<u8>) -> bool {
    forall|i: int| 0 <= i < d.len() ==> #[trigger] d[i] < 34
}

/// The number whose base-34 digits, least significant first, are `d`.
pub open spec fn value34(d: Seq<u8>) -> nat
    decreases d.len(),
{
    if d.len() == 0 {
        0
    } else {
        d[0] as nat + 34 * value34(d.drop_first())
    }
}

/// The first `n` base-34 digits of `v`, least significant first.
pub open spec fn digits34(v: nat, n: nat) -> Seq<u8>
    decreases n,
{
    if n == 0 {
        Seq::empty()
    } else {
        seq![(v % 34) as u8] + digits34(v / 34, (n - 1) as nat)
    }
}

/// 34 to the power `n`.
pub open spec fn pow34(n: nat) -> nat
    decreases n,
{
    if n == 0 {
        1
    } else {
        34 * pow34((n - 1) as nat)
    }
}

/// Sum of the first `n` digits of `d`.
pub open spec fn digit_sum(d: Seq<u8>, n: nat) -> nat
    decreases n,
{
    if n == 0 || n > d.len() {
        0
    } else {
        digit_sum(d, (n - 1) as nat) + d[n - 1] as nat
    }
}

/// A symbol read back gives the digit it was written from.
pub proof fn lemma_symbol_round_trip(d: u8)
    requires
        d < 34,
    ensures
        symbol_value(symbol(d)) == Some(d),
        symbol_value(lower(symbol(d))) == Some(d),
        upper(symbol(d)) == symbol(d),
{
}

/// The digit of a symbol is written back as its canonical, upper-case symbol.
pub proof fn lemma_value_symbol(c: char)
    requires
        symbol_value(c) is Some,
    ensures
        symbol_value(c).unwrap() < 34,
        symbol(symbol_value(c).unwrap()) == if upper(c) == 'I' {
            '1'
        } else if upper(c) == 'O' {
            '0'
        } else {
            upper(c)
        },
{
}

pub proof fn lemma_value34_step(d: Seq<u8>, i: int)
    requires
        0 <= i < d.len(),
    ensures
        value34(d.subrange(i, d.len() as int)) == d[i] as nat + 34 * value34(
            d.subrange(i + 1, d.len() as int),
        ),
{
    assert(d.subrange(i, d.len() as int).drop_first() =~= d.subrange(i + 1, d.len() as int));
}

pub proof fn lemma_value34_bound(d: Seq<u8>)
    requires
        all_digits(d),
    ensures
        value34(d) < pow34(d.len()),
    decreases d.len(),
{
    if d.len() > 0 {
        let t = d.drop_first();
        assert(all_digits(t));
        lemma_value34_bound(t);
        assert(value34(d) == d[0] as nat + 34 * value34(t));
        assert(d[0] < 34);
        assert(value34(d) < pow34(d.len())) by (nonlinear_arith)
            requires
                value34(d) == d[0] as nat + 34 * value34(t),
                value34(t) < pow34(t.len()),
                pow34(d.len()) == 34 * pow34(t.len()),
                d[0] < 34,
        ;
    }
}

/// Writing `v` in `n` digits and reading them back gives `v`, when `v` fits.
pub proof fn lemma_digits34_value(v: nat, n: nat)
    requires
        v < pow34(n),
    ensures
        value34(digits34(v, n)) == v,
        digits34(v, n).len() == n,
        all_digits(digits34(v, n)),
    decreases n,
{
    if n > 0 {
        let q = v / 34;
        assert(q < pow34((n - 1) as nat)) by (nonlinear_arith)
            requires
                v < pow34(n),
                pow34(n) == 34 * pow34((n - 1) as nat),
                q == v / 34,
        ;
        lemma_digits34_value(q, (n - 1) as nat);
        let s = digits34(v, n);
        assert(s.drop_first() =~= digits34(q, (n - 1) as nat));
        assert(v == v % 34 + 34 * q) by (nonlinear_arith)
            requires
                q == v / 34,
        ;
    }
}

/// Reading digits and writing the number back in as many digits gives the same digits.
pub proof fn lemma_value34_digits(d: Seq<u8>)
    requires
        all_digits(d),
    ensures
        digits34(value34(d), d.len()) == d,
    decreases d.len(),
{
    if d.len() > 0 {
        let t = d.drop_first();
        assert(all_digits(t));
        lemma_value34_digits(t);
        let v = value34(d);
        assert(v == d[0] as nat + 34 * value34(t));
        assert(v % 34 == d[0] as nat && v / 34 == value34(t)) by (nonlinear_arith)
            requires
                v == d[0] as nat + 34 * value34(t),
                d[0] < 34,
        ;
        assert(digits34(v, d.len()) =~= d);
    }
}

/// Case-blind lookup of a symbol's value.
pub fn lookup_char(c: char) -> (r: Option<u8>)
    ensures
        r == symbol_value(c),
{
    let u: u32 = if 97 <= c as u32 && c as u32 <= 122 {
        c as u32 - 32
    } else {
        c as u32
    };
    if 48 <= u && u <= 57 {
        Some((u - 48) as u8)
    } else if u == 73 {
        Some(1)
    } else if u == 79 {
        Some(0)
    } else if 65 <= u && u <= 72 {
        Some((u - 65 + 10) as u8)
    } else if 74 <= u && u <= 78 {
        Some((u - 74 + 18) as u8)
    } else if 80 <= u && u <= 90 {
        Some((u - 80 + 23) as u8)
    } else {
        None
    }
}

/// The canonical symbol of a digit.
pub fn symbol_of(d: u8) -> (c: char)
    requires
        d < 34,
    ensures
        c == symbol(d),
{
    if d < 10 {
        (48 + d) as char
    } else if d < 18 {
        (65 + d - 10) as char
    } else if d < 23 {
        (74 + d - 18) as char
    } else {
        (80 + d - 23) as char
    }
}

/// ASCII lower case of one character.
pub fn to_lower(c: char) -> (r: char)
    ensures
        r == lower(c),
{
    if 65 <= c as u32 && c as u32 <= 90 {
        ((c as u32 + 32) as u8) as char
    } else {
        c
    }
}

/// ASCII upper case of one character.
pub fn to_upper(c: char) -> (r: char)
    ensures
        r == upper(c),
{
    if 97 <= c as u32 && c as u32 <= 122 {
        ((c as u32 - 32) as u8) as char
    } else {
        c
    }
}

} // verus!
