//! Text rendering of the numeric and boolean values handed to the server.

use vstd::prelude::*;

verus! {

/// The decimal digit character for `d` (`d < 10`).
pub open spec fn digit_char(d: nat) -> char {
    if d == 0 {
        '0'
    } else if d == 1 {
        '1'
    } else if d == 2 {
        '2'
    } else if d == 3 {
        '3'
    } else if d == 4 {
        '4'
    } else if d == 5 {
        '5'
    } else if d == 6 {
        '6'
    } else if d == 7 {
        '7'
    } else if d == 8 {
        '8'
    } else {
        '9'
    }
}

/// The decimal notation of `n`, without leading zeros.
pub open spec fn decimal(n: nat) -> Seq<char>
    decreases n,
{
    if n < 10 {
        seq![digit_char(n)]
    } else {
        decimal(n / 10).push(digit_char(n % 10))
    }
}

/// `n / 60` minutes rounded to the nearest hundredth, counted in hundredths.
pub open spec fn minute_hundredths(seconds: nat) -> nat {
    (100 * seconds + 30) / 60
}

/// A duration in seconds written as minutes with two decimals.
pub open spec fn minutes_text(seconds: nat) -> Seq<char> {
    let h = minute_hundredths(seconds);
    decimal(h / 100) + seq!['.', digit_char((h % 100) / 10), digit_char(h % 10)]
}

/// The flag text of a boolean setting.
pub open spec fn flag_text(val: bool) -> Seq<char> {
    if val {
        seq!['1']
    } else {
        seq!['0']
    }
}

fn digit_str(d: u64) -> (r: &'static str)
    requires
        d < 10,
    ensures
        r@ == seq![digit_char(d as nat)],
{
    proof {
        reveal_strlit("0");
        reveal_strlit("1");
        reveal_strlit("2");
        reveal_strlit("3");
        reveal_strlit("4");
        reveal_strlit("5");
        reveal_strlit("6");
        reveal_strlit("7");
        reveal_strlit("8");
        reveal_strlit("9");
    }
    let r = if d == 0 {
        "0"
    } else if d == 1 {
        "1"
    } else if d == 2 {
        "2"
    } else if d == 3 {
        "3"
    } else if d == 4 {
        "4"
    } else if d == 5 {
        "5"
    } else if d == 6 {
        "6"
    } else if d == 7 {
        "7"
    } else if d == 8 {
        "8"
    } else {
        "9"
    };
    assert(r@ =~= seq![digit_char(d as nat)]);
    r
}

/// Appends the decimal notation of `n` to `out`.
pub fn push_decimal(out: &mut String, n: u64)
    ensures
        final(out)@ == old(out)@ + decimal(n as nat),
    decreases n,
{
    if n >= 10 {
        push_decimal(out, n / 10);
    }
    out.append(digit_str(n % 10));
    assert(final(out)@ =~= old(out)@ + decimal(n as nat));
}

/// The decimal notation of `n`.
pub fn u64_to_str(n: u64) -> (r: String)
    ensures
        r@ == decimal(n as nat),
{
    let mut s = String::new();
    push_decimal(&mut s, n);
    assert(s@ =~= decimal(n as nat));
    s
}

/// A duration in seconds as minutes with two decimals, rounded to the
/// nearest hundredth (`115` gives `1.92`).
pub fn seconds_to_minutes_str(seconds: u32) -> (r: String)
    ensures
        r@ == minutes_text(seconds as nat),
{
    let h: u64 = (100 * (seconds as u64) + 30) / 60;
    let mut s = String::new();
    push_decimal(&mut s, h / 100);
    proof {
        reveal_strlit(".");
    }
    s.append(".");
    s.append(digit_str((h % 100) / 10));
    s.append(digit_str(h % 10));
    assert(s@ =~= minutes_text(seconds as nat));
    s
}

/// A boolean setting as the server reads it: `1` or `0`.
pub fn bool_to_str(val: bool) -> (r: String)
    ensures
        r@ == flag_text(val),
{
    proof {
        reveal_strlit("1");
        reveal_strlit("0");
    }
    let r = if val {
        String::from_str("1")
    } else {
        String::from_str("0")
    };
    assert(r@ =~= flag_text(val));
    r
}

} // verus!
