//! Construction of numbered port names (`in0`, `out3`, `rd0addr`, ...).

use vstd::prelude::*;

use crate::vector3vl::hex_digit_char;

verus! {

/// The decimal digit characters of `n`, most significant first.
pub open spec fn dec_str(n: nat) -> Seq<char>
    decreases n,
{
    if n < 10 {
        seq![hex_digit_char(n)]
    } else {
        dec_str(n / 10).push(hex_digit_char(n % 10))
    }
}

/// The character of one decimal digit.
pub fn digit_str(d: u32) -> (r: &'static str)
    requires
        d < 10,
    ensures
        r@ == seq![hex_digit_char(d as nat)],
{
    let r: &'static str = if d == 0 {
        "0"
    } else if d == 1 {
        "1"
    } else if d == 2 {
        "2"
    } else if d == 3 {
        "3"
    } else if d == 4 {
        "4"
    } else if d == 5 {
        "5"
    } else if d == 6 {
        "6"
    } else if d == 7 {
        "7"
    } else if d == 8 {
        "8"
    } else {
        "9"
    };
    proof {
        reveal_strlit("0");
        reveal_strlit("1");
        reveal_strlit("2");
        reveal_strlit("3");
        reveal_strlit("4");
        reveal_strlit("5");
        reveal_strlit("6");
        reveal_strlit("7");
        reveal_strlit("8");
        reveal_strlit("9");
        assert(r@ =~= seq![hex_digit_char(d as nat)]);
    }
    r
}

/// The decimal rendering of a number.
pub fn u32_dec(n: u32) -> (r: String)
    ensures
        r@ == dec_str(n as nat),
    decreases n,
{
    if n < 10 {
        digit_str(n).to_owned()
    } else {
        let mut s = u32_dec(n / 10);
        s.append(digit_str(n % 10));
        proof {
            assert(s@ =~= dec_str((n / 10) as nat).push(hex_digit_char((n % 10) as nat)));
        }
        s
    }
}

/// A prefix followed by a decimal number (`in3`, `out0`, ...).
pub fn numbered_name(prefix: &str, n: u32) -> (r: String)
    ensures
        r@ == prefix@ + dec_str(n as nat),
{
    let mut s = prefix.to_owned();
    let d = u32_dec(n);
    s.append(d.as_str());
    s
}

/// A prefix, a decimal number, and a suffix (`rd0addr`, `wr1clk`, ...).
pub fn port_field_name(prefix: &str, n: u32, suffix: &str) -> (r: String)
    ensures
        r@ == prefix@ + dec_str(n as nat) + suffix@,
{
    let mut s = numbered_name(prefix, n);
    s.append(suffix);
    s
}

} // verus!
