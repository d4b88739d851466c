//! Plain-text rendering of numbers: decimal for stack values and counters,
//! hexadecimal (zero-padded) for addresses and raw bytes.  The fault
//! reporting and the disassembly view build their strings from these.

use vstd::prelude::*;
use vstd::string::StringExecFns;

verus! {

/// The character for one digit value below 16.
pub open spec fn digit_char(d: nat) -> char {
    if d == 0 {
        '0'
    } else if d == 1 {
        '1'
    } else if d == 2 {
        '2'
    } else if d == 3 {
        '3'
    } else if d == 4 {
        '4'
    } else if d == 5 {
        '5'
    } else if d == 6 {
        '6'
    } else if d == 7 {
        '7'
    } else if d == 8 {
        '8'
    } else if d == 9 {
        '9'
    } else if d == 10 {
        'a'
    } else if d == 11 {
        'b'
    } else if d == 12 {
        'c'
    } else if d == 13 {
        'd'
    } else if d == 14 {
        'e'
    } else {
        'f'
    }
}

/// The decimal rendering of `n`, most significant digit first, no leading
/// zeros (`0` renders as "0").
pub open spec fn dec_str(n: nat) -> Seq<char>
    decreases n,
{
    if n < 10 {
        seq![digit_char(n)]
    } else {
        dec_str(n / 10).push(digit_char(n % 10))
    }
}

/// The hexadecimal rendering of `n`, zero-padded on the left to at least
/// `pad` digits.
pub open spec fn hex_str(n: nat, pad: nat) -> Seq<char>
    decreases n + pad,
{
    if n < 16 && pad <= 1 {
        seq![digit_char(n)]
    } else {
        hex_str(n / 16, if pad <= 1 {
            0nat
        } else {
            (pad - 1) as nat
        }).push(digit_char(n % 16))
    }
}

/// The decimal rendering of a signed value: a minus sign before the
/// magnitude when negative.
pub open spec fn dec_str_i64(v: i64) -> Seq<char> {
    if v >= 0 {
        dec_str(v as nat)
    } else {
        seq!['-'] + dec_str((-(v as int)) as nat)
    }
}

/// Append the character for one digit value below 16.
fn push_digit(s: &mut String, d: u8)
    requires
        d < 16,
    ensures
        final(s)@ == old(s)@.push(digit_char(d as nat)),
{
    proof {
        reveal_strlit("0");
        reveal_strlit("1");
        reveal_strlit("2");
        reveal_strlit("3");
        reveal_strlit("4");
        reveal_strlit("5");
        reveal_strlit("6");
        reveal_strlit("7");
        reveal_strlit("8");
        reveal_strlit("9");
        reveal_strlit("a");
        reveal_strlit("b");
        reveal_strlit("c");
        reveal_strlit("d");
        reveal_strlit("e");
        reveal_strlit("f");
    }
    let c = match d {
        0 => "0",
        1 => "1",
        2 => "2",
        3 => "3",
        4 => "4",
        5 => "5",
        6 => "6",
        7 => "7",
        8 => "8",
        9 => "9",
        10 => "a",
        11 => "b",
        12 => "c",
        13 => "d",
        14 => "e",
        _ => "f",
    };
    s.append(c);
    proof {
        assert(final(s)@ =~= old(s)@.push(digit_char(d as nat)));
    }
}

/// Render `n` in decimal.
pub fn dec_string(n: u64) -> (r: String)
    ensures
        r@ == dec_str(n as nat),
    decreases n,
{
    if n < 10 {
        let mut s = String::new();
        push_digit(&mut s, n as u8);
        proof {
            assert(s@ =~= dec_str(n as nat));
        }
        s
    } else {
        let mut s = dec_string(n / 10);
        push_digit(&mut s, (n % 10) as u8);
        s
    }
}

/// Render `n` in hexadecimal, zero-padded to at least `pad` digits.
pub fn hex_string(n: u64, pad: usize) -> (r: String)
    ensures
        r@ == hex_str(n as nat, pad as nat),
    decreases n + pad,
{
    if n < 16 && pad <= 1 {
        let mut s = String::new();
        push_digit(&mut s, n as u8);
        proof {
            assert(s@ =~= hex_str(n as nat, pad as nat));
        }
        s
    } else {
        let rest = if pad <= 1 {
            0
        } else {
            pad - 1
        };
        let mut s = hex_string(n / 16, rest);
        push_digit(&mut s, (n % 16) as u8);
        s
    }
}

/// Render a signed value in decimal.
pub fn i64_string(v: i64) -> (r: String)
    ensures
        r@ == dec_str_i64(v),
{
    if v >= 0 {
        dec_string(v as u64)
    } else {
        let mut s = String::from_str("-");
        let magnitude: u64 = if v == i64::MIN {
            0x8000_0000_0000_0000
        } else {
            (-v) as u64
        };
        let t = dec_string(magnitude);
        s.append(t.as_str());
        proof {
            reveal_strlit("-");
            assert(s@ =~= dec_str_i64(v));
        }
        s
    }
}

} // verus!
