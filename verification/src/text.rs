//! Verified rendering of unsigned integers as decimal, hexadecimal and
//! fixed-point fractional text.

use vstd::prelude::*;

verus! {

/// The decimal digit character for a value below ten.
pub open spec fn dec_digit(d: nat) -> char
    recommends
        d < 10,
{
    if d == 0 {
        '0'
    } else if d == 1 {
        '1'
    } else if d == 2 {
        '2'
    } else if d == 3 {
        '3'
    } else if d == 4 {
        '4'
    } else if d == 5 {
        '5'
    } else if d == 6 {
        '6'
    } else if d == 7 {
        '7'
    } else if d == 8 {
        '8'
    } else {
        '9'
    }
}

/// The lowercase hexadecimal digit character for a value below sixteen.
pub open spec fn hex_digit(d: nat) -> char
    recommends
        d < 16,
{
    if d < 10 {
        dec_digit(d)
    } else if d == 10 {
        'a'
    } else if d == 11 {
        'b'
    } else if d == 12 {
        'c'
    } else if d == 13 {
        'd'
    } else if d == 14 {
        'e'
    } else {
        'f'
    }
}

/// The decimal text of `n`, without sign, padding or separators.
pub open spec fn dec_str(n: nat) -> Seq<char>
    decreases n,
{
    if n < 10 {
        seq![dec_digit(n)]
    } else {
        dec_str(n / 10) + seq![dec_digit(n % 10)]
    }
}

/// The lowercase hexadecimal text of `n`, without the `0x` prefix.
pub open spec fn hex_str(n: nat) -> Seq<char>
    decreases n,
{
    if n < 16 {
        seq![hex_digit(n)]
    } else {
        hex_str(n / 16) + seq![hex_digit(n % 16)]
    }
}

fn dec_digit_str(d: u32) -> (r: &'static str)
    requires
        d < 10,
    ensures
        r@ == seq![dec_digit(d as nat)],
{
    let s: &'static str = match d {
        0 => "0",
        1 => "1",
        2 => "2",
        3 => "3",
        4 => "4",
        5 => "5",
        6 => "6",
        7 => "7",
        8 => "8",
        _ => "9",
    };
    proof {
        reveal_strlit("0");
        reveal_strlit("1");
        reveal_strlit("2");
        reveal_strlit("3");
        reveal_strlit("4");
        reveal_strlit("5");
        reveal_strlit("6");
        reveal_strlit("7");
        reveal_strlit("8");
        reveal_strlit("9");
        assert(s@ =~= seq![dec_digit(d as nat)]);
    }
    s
}

fn hex_digit_str(d: u32) -> (r: &'static str)
    requires
        d < 16,
    ensures
        r@ == seq![hex_digit(d as nat)],
{
    if d < 10 {
        dec_digit_str(d)
    } else {
        let s: &'static str = match d {
            10 => "a",
            11 => "b",
            12 => "c",
            13 => "d",
            14 => "e",
            _ => "f",
        };
        proof {
            reveal_strlit("a");
            reveal_strlit("b");
            reveal_strlit("c");
            reveal_strlit("d");
            reveal_strlit("e");
            reveal_strlit("f");
            assert(s@ =~= seq![hex_digit(d as nat)]);
        }
        s
    }
}

/// Renders `n` in decimal, exactly as `dec_str` states.
pub fn dec_u32(n: u32) -> (r: String)
    ensures
        r@ == dec_str(n as nat),
    decreases n,
{
    if n < 10 {
        String::from_str(dec_digit_str(n))
    } else {
        let mut s = dec_u32(n / 10);
        s.append(dec_digit_str(n % 10));
        proof {
            assert(s@ =~= dec_str(n as nat));
        }
        s
    }
}

/// Renders `n` in lowercase hexadecimal without prefix, as `hex_str` states.
pub fn hex_u32(n: u32) -> (r: String)
    ensures
        r@ == hex_str(n as nat),
    decreases n,
{
    if n < 16 {
        String::from_str(hex_digit_str(n))
    } else {
        let mut s = hex_u32(n / 16);
        s.append(hex_digit_str(n % 16));
        proof {
            assert(s@ =~= hex_str(n as nat));
        }
        s
    }
}

/// The three-digit, zero-padded decimal text of `n`, for `n < 1000`.
pub open spec fn frac3(n: nat) -> Seq<char>
    recommends
        n < 1000,
{
    seq![dec_digit(n / 100), dec_digit((n / 10) % 10), dec_digit(n % 10)]
}

/// The text of the rational `n / 1000` with exactly three decimal places,
/// e.g. `0.690` for 690. Used by the spaced RGBFloat palette format.
pub open spec fn float3_spaced(n: nat) -> Seq<char>
    recommends
        n <= 1000,
{
    dec_str(n / 1000) + seq!['.'] + frac3(n % 1000)
}

/// `frac3` with its trailing zeros removed; `n` must have at least one
/// nonzero digit (`n % 1000 != 0`).
pub open spec fn frac3_trimmed(n: nat) -> Seq<char>
    recommends
        0 < n < 1000,
{
    if n % 100 == 0 {
        seq![dec_digit(n / 100)]
    } else if n % 10 == 0 {
        seq![dec_digit(n / 100), dec_digit((n / 10) % 10)]
    } else {
        frac3(n)
    }
}

/// The shortest text of the rational `n / 1000` tolerated by the target
/// shader grammar: trailing zeros are dropped, and so is a leading `0`
/// before the decimal point (`.69`, not `0.69`). Used by the compact
/// RGBFloat palette format.
pub open spec fn float3_compact(n: nat) -> Seq<char>
    recommends
        n <= 1000,
{
    if n % 1000 == 0 {
        dec_str(n / 1000)
    } else {
        seq!['.'] + frac3_trimmed(n % 1000)
    }
}

/// Renders `n / 1000` with exactly three decimal places.
pub fn float3_spaced_text(n: u32) -> (r: String)
    requires
        n <= 1000,
    ensures
        r@ == float3_spaced(n as nat),
{
    let mut s = dec_u32(n / 1000);
    s.append(".");
    proof {
        reveal_strlit(".");
    }
    let f = n % 1000;
    s.append(dec_digit_str(f / 100));
    s.append(dec_digit_str((f / 10) % 10));
    s.append(dec_digit_str(f % 10));
    proof {
        assert(s@ =~= float3_spaced(n as nat));
    }
    s
}

/// Renders `n / 1000` in the compact form of `float3_compact`.
pub fn float3_compact_text(n: u32) -> (r: String)
    requires
        n <= 1000,
    ensures
        r@ == float3_compact(n as nat),
{
    if n % 1000 == 0 {
        dec_u32(n / 1000)
    } else {
        let mut s = String::from_str(".");
        proof {
            reveal_strlit(".");
        }
        let f = n % 1000;
        if f % 100 == 0 {
            s.append(dec_digit_str(f / 100));
        } else if f % 10 == 0 {
            s.append(dec_digit_str(f / 100));
            s.append(dec_digit_str((f / 10) % 10));
        } else {
            s.append(dec_digit_str(f / 100));
            s.append(dec_digit_str((f / 10) % 10));
            s.append(dec_digit_str(f % 10));
        }
        proof {
            assert(s@ =~= float3_compact(n as nat));
        }
        s
    }
}

} // verus!
