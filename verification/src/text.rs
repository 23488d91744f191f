//! Verified text formatting for progress messages: decimal numbers and the
//! megabyte size label.

use vstd::prelude::*;

verus! {

/// The decimal digit character for one digit value.
pub open spec fn digit_char(d: int) -> char {
    if d == 0 { '0' }
    else if d == 1 { '1' }
    else if d == 2 { '2' }
    else if d == 3 { '3' }
    else if d == 4 { '4' }
    else if d == 5 { '5' }
    else if d == 6 { '6' }
    else if d == 7 { '7' }
    else if d == 8 { '8' }
    else { '9' }
}

/// The decimal form of a number, most significant digit first.
pub open spec fn dec_of(n: nat) -> Seq<char>
    decreases n,
{
    if n < 10 {
        seq![digit_char(n as int)]
    } else {
        dec_of(n / 10).push(digit_char((n % 10) as int))
    }
}

/// One decimal digit as a string slice.
fn digit_str(d: u64) -> (r: &'static str)
    requires
        d < 10,
    ensures
        r@ == seq![digit_char(d as int)],
{
    let digits = "0123456789";
    proof {
        reveal_strlit("0123456789");
    }
    let r = digits.substring_ascii(d as usize, d as usize + 1);
    proof {
        assert(r@ =~= seq![digit_char(d as int)]);
    }
    r
}

/// The decimal form of `n`.
pub fn u64_string(n: u64) -> (r: String)
    ensures
        r@ == dec_of(n as nat),
    decreases n,
{
    if n < 10 {
        digit_str(n).to_owned()
    } else {
        let mut s = u64_string(n / 10);
        s.append(digit_str(n % 10));
        s
    }
}

/// The megabyte label of a byte count: whole megabytes, a dot, and two
/// truncated fractional digits.
pub open spec fn mb_of(bytes: nat) -> Seq<char> {
    let whole = bytes / 1_000_000;
    let frac = (bytes % 1_000_000) / 10_000;
    dec_of(whole) + seq!['.'] + (if frac < 10 { seq!['0'] } else { Seq::empty() }) + dec_of(frac) + seq!['M', 'B']
}

/// A human-readable size in megabytes, e.g. for progress reporting.
pub fn mb_string(bytes: usize) -> (r: String)
    ensures
        r@ == mb_of(bytes as nat),
{
    let whole = (bytes / 1_000_000) as u64;
    let frac = ((bytes % 1_000_000) / 10_000) as u64;
    let mut s = u64_string(whole);
    s.append(".");
    if frac < 10 {
        s.append("0");
    }
    let f = u64_string(frac);
    s.append(f.as_str());
    s.append("MB");
    proof {
        reveal_strlit(".");
        reveal_strlit("0");
        reveal_strlit("MB");
        assert(s@ =~= mb_of(bytes as nat));
    }
    s
}

} // verus!
