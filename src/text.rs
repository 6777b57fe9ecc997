//! Decimal rendering of counts for display, with `?` for a value that is
//! not known yet.
use vstd::prelude::*;

verus! {

/// The character of the decimal digit `d`.
pub open spec fn digit_char(d: nat) -> char
    recommends
        d < 10,
{
    seq!['0', '1', '2', '3', '4', '5', '6', '7', '8', '9'][d as int]
}

/// The decimal digits of `n`, most significant first, without leading zeros.
pub open spec fn decimal(n: nat) -> Seq<char>
    decreases n,
{
    if n < 10 {
        seq![digit_char(n)]
    } else {
        decimal(n / 10).push(digit_char(n % 10))
    }
}

/// An optional count as shown to a user: its digits, or `?` when absent.
pub open spec fn shown(o: Option<u32>) -> Seq<char> {
    match o {
        Some(n) => decimal(n as nat),
        None => seq!['?'],
    }
}

fn digit_str(d: u32) -> (r: &'static str)
    requires
        d < 10,
    ensures
        r@ == seq![digit_char(d as nat)],
{
    proof {
        reveal_strlit("0");
        reveal_strlit("1");
        reveal_strlit("2");
        reveal_strlit("3");
        reveal_strlit("4");
        reveal_strlit("5");
        reveal_strlit("6");
        reveal_strlit("7");
        reveal_strlit("8");
        reveal_strlit("9");
    }
    let r = match d {
        0 => "0",
        1 => "1",
        2 => "2",
        3 => "3",
        4 => "4",
        5 => "5",
        6 => "6",
        7 => "7",
        8 => "8",
        _ => "9",
    };
    assert(r@ =~= seq![digit_char(d as nat)]);
    r
}

/// Appends the decimal digits of `n` to `s`.
pub fn push_decimal(s: &mut String, n: u32)
    ensures
        final(s)@ == old(s)@ + decimal(n as nat),
    decreases n,
{
    if n >= 10 {
        push_decimal(s, n / 10);
    }
    s.append(digit_str(n % 10));
    assert(s@ =~= old(s)@ + decimal(n as nat));
}

/// The decimal digits of `n` as a new string.
pub fn decimal_string(n: u32) -> (r: String)
    ensures
        r@ == decimal(n as nat),
{
    let mut s = String::new();
    push_decimal(&mut s, n);
    assert(s@ =~= decimal(n as nat));
    s
}

/// An optional count as shown to a user: its digits, or `?` when absent.
pub fn shown_string(o: Option<u32>) -> (r: String)
    ensures
        r@ == shown(o),
{
    match o {
        Some(n) => decimal_string(n),
        None => {
            proof {
                reveal_strlit("?");
            }
            let r = String::from_str("?");
            assert(r@ =~= seq!['?']);
            r
        },
    }
}

} // verus!
