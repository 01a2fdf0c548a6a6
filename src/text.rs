//! Conversions between strings and character vectors.

use vstd::prelude::*;

verus! {

/// Relies on `str::chars` collected into a `Vec`: the characters of `s`, in order.
#[verifier::external_body]
pub(crate) fn chars_of(s: &str) -> (r: Vec<char>)
    ensures
        r@ == s@,
{
    s.chars().collect()
}

/// Relies on `String: FromIterator<char>`: the string of the characters of `v`, in order.
#[verifier::external_body]
pub(crate) fn string_of(v: &Vec<char>) -> (r: String)
    ensures
        r@ == v@,
{
    v.iter().collect()
}

} // verus!

verus! {

/// The decimal digit of `d < 10`.
pub open spec fn decimal_digit(d: nat) -> char {
    (48 + d) as char
}

/// The decimal writing of `v`, without leading zeros.
pub open spec fn decimal(v: nat) -> Seq<char>
    decreases v,
{
    if v < 10 {
        seq![decimal_digit(v)]
    } else {
        decimal(v / 10) + seq![decimal_digit(v % 10)]
    }
}

/// Appends `src[from..to]` to `out`.
pub fn push_range(out: &mut Vec<char>, src: &Vec<char>, from: usize, to: usize)
    requires
        from <= to <= src@.len(),
    ensures
        final(out)@ == old(out)@ + src@.subrange(from as int, to as int),
{
    let ghost start = out@;
    let mut i: usize = from;
    while i < to
        invariant
            from <= i <= to <= src@.len(),
            out@ == start + src@.subrange(from as int, i as int),
        decreases to - i,
    {
        out.push(src[i]);
        i += 1;
        assert(out@ =~= start + src@.subrange(from as int, i as int));
    }
}

/// The decimal writing of `v`.
pub fn decimal_of(v: u64) -> (r: Vec<char>)
    ensures
        r@ == decimal(v as nat),
{
    let mut out: Vec<char> = Vec::new();
    let mut cur: u64 = v;
    while cur >= 10
        invariant
            decimal(v as nat) == decimal(cur as nat) + out@,
        decreases cur,
    {
        let d = (cur % 10) as u8;
        out.insert(0, (48 + d) as char);
        let ghost old_out = out@;
        assert(decimal(cur as nat) == decimal(cur as nat / 10) + seq![decimal_digit(cur as nat % 10)]);
        cur = cur / 10;
        assert(decimal(v as nat) =~= decimal(cur as nat) + out@);
    }
    out.insert(0, (48 + cur as u8) as char);
    assert(decimal(v as nat) =~= out@);
    out
}

} // verus!
