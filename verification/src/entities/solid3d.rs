//! 3D solids: how the properties panel describes the ACIS data they carry.

use vstd::prelude::*;
use crate::text_util::{push_char, push_str};

verus! {

/// The decimal digits of `n`, most significant first, without leading
/// zeros (`0` is "0").
pub open spec fn decimal_spec(n: nat) -> Seq<char>
    decreases n,
{
    if n < 10 {
        seq![((n + 48) as u32) as char]
    } else {
        decimal_spec(n / 10).push((((n % 10) + 48) as u32) as char)
    }
}

/// `n` written in decimal, as `format!("{}", n)` writes it.
pub fn decimal(n: usize) -> (s: String)
    ensures
        s@ == decimal_spec(n as nat),
    decreases n,
{
    if n < 10 {
        let mut s = String::new();
        push_char(&mut s, digit_char(n));
        proof {
            assert(s@ =~= decimal_spec(n as nat));
        }
        s
    } else {
        let mut s = decimal(n / 10);
        push_char(&mut s, digit_char(n % 10));
        s
    }
}

/// The character of the digit `d`.
fn digit_char(d: usize) -> (c: char)
    requires
        d < 10,
    ensures
        c == ((d + 48) as u32) as char,
{
    if d == 0 { '0' } else if d == 1 { '1' } else if d == 2 { '2' } else if d == 3 { '3' } else if d == 4 {
        '4'
    } else if d == 5 { '5' } else if d == 6 { '6' } else if d == 7 { '7' } else if d == 8 { '8' } else {
        '9'
    }
}

/// The properties-panel description of a solid's ACIS data: "none" when it
/// has none, else the size of the binary (SAB) or text (SAT) form it holds.
pub fn acis_size_str(has_data: bool, sat_len: usize, sab_len: usize, is_binary: bool) -> (s: String)
    ensures
        !has_data ==> s@ == "none"@,
        has_data && is_binary ==> s@ == decimal_spec(sab_len as nat) + " bytes (SAB)"@,
        has_data && !is_binary ==> s@ == decimal_spec(sat_len as nat) + " bytes (SAT)"@,
{
    if !has_data {
        return "none".to_owned();
    }
    if is_binary {
        let mut s = decimal(sab_len);
        push_str(&mut s, " bytes (SAB)");
        s
    } else {
        let mut s = decimal(sat_len);
        push_str(&mut s, " bytes (SAT)");
        s
    }
}

} // verus!
