//! Decimal rendering of unsigned numbers and fixed-width padding, the
//! raw material of the long format's aligned columns.

use vstd::prelude::*;
use vstd::string::*;

verus! {

/// The character of one decimal digit.
pub open spec fn dec_digit(d: nat) -> char {
    if d == 0 {
        '0'
    } else if d == 1 {
        '1'
    } else if d == 2 {
        '2'
    } else if d == 3 {
        '3'
    } else if d == 4 {
        '4'
    } else if d == 5 {
        '5'
    } else if d == 6 {
        '6'
    } else if d == 7 {
        '7'
    } else if d == 8 {
        '8'
    } else {
        '9'
    }
}

/// The decimal digit string of `n`, without sign or leading zeros
/// (except the single digit of zero itself).
pub open spec fn spec_decimal(n: nat) -> Seq<char>
    decreases n,
{
    if n < 10 {
        seq![dec_digit(n)]
    } else {
        spec_decimal(n / 10).push(dec_digit(n % 10))
    }
}

/// The printed width of `n` in decimal.
pub open spec fn dec_width(n: nat) -> nat {
    spec_decimal(n).len()
}

fn digit_str(d: u64) -> (r: &'static str)
    requires
        d < 10,
    ensures
        r@ =~= seq![dec_digit(d as nat)],
{
    proof {
        reveal_strlit("0");
        reveal_strlit("1");
        reveal_strlit("2");
        reveal_strlit("3");
        reveal_strlit("4");
        reveal_strlit("5");
        reveal_strlit("6");
        reveal_strlit("7");
        reveal_strlit("8");
        reveal_strlit("9");
    }
    match d {
        0 => "0",
        1 => "1",
        2 => "2",
        3 => "3",
        4 => "4",
        5 => "5",
        6 => "6",
        7 => "7",
        8 => "8",
        _ => "9",
    }
}

/// Render `n` in decimal.
pub fn decimal_string(n: u64) -> (s: String)
    ensures
        s@ == spec_decimal(n as nat),
    decreases n,
{
    if n < 10 {
        String::from_str(digit_str(n))
    } else {
        let mut s = decimal_string(n / 10);
        s.append(digit_str(n % 10));
        proof {
            assert(s@ =~= spec_decimal(n as nat));
        }
        s
    }
}

/// A run of `n` spaces.
pub open spec fn spec_spaces(n: nat) -> Seq<char> {
    Seq::new(n, |i: int| ' ')
}

/// `s` padded with leading spaces up to width `w`; a string already at
/// least `w` long is returned unchanged.
pub open spec fn spec_pad_left(s: Seq<char>, w: nat) -> Seq<char> {
    spec_spaces(if s.len() >= w {
        0
    } else {
        (w - s.len()) as nat
    }) + s
}

/// `s` padded with trailing spaces up to width `w`; a string already at
/// least `w` long is returned unchanged.
pub open spec fn spec_pad_right(s: Seq<char>, w: nat) -> Seq<char> {
    s + spec_spaces(if s.len() >= w {
        0
    } else {
        (w - s.len()) as nat
    })
}

/// A padded field is exactly as wide as the requested width, when the
/// contents already fit in it.
pub proof fn lemma_pad_widths(s: Seq<char>, w: nat)
    ensures
        s.len() <= w ==> spec_pad_left(s, w).len() == w,
        s.len() <= w ==> spec_pad_right(s, w).len() == w,
        spec_pad_left(s, w).len() >= w,
        spec_pad_right(s, w).len() >= w,
{
}

fn spaces(n: usize) -> (r: String)
    ensures
        r@ == spec_spaces(n as nat),
{
    proof {
        reveal_strlit(" ");
    }
    let mut r = String::new();
    let mut i: usize = 0;
    while i < n
        invariant
            i <= n,
            r@ =~= spec_spaces(i as nat),
        decreases n - i,
    {
        r.append(" ");
        i = i + 1;
        proof {
            reveal_strlit(" ");
            assert(r@ =~= spec_spaces(i as nat));
        }
    }
    r
}

/// Right-align `s` in a field of width `w` by prefixing spaces.
pub fn pad_left(s: &str, w: usize) -> (r: String)
    ensures
        r@ == spec_pad_left(s@, w as nat),
{
    let n = s.unicode_len();
    let pad = if w > n {
        w - n
    } else {
        0
    };
    let mut r = spaces(pad);
    r.append(s);
    proof {
        assert(r@ =~= spec_pad_left(s@, w as nat));
    }
    r
}

/// Left-align `s` in a field of width `w` by appending spaces.
pub fn pad_right(s: &str, w: usize) -> (r: String)
    ensures
        r@ == spec_pad_right(s@, w as nat),
{
    let n = s.unicode_len();
    let pad = if w > n {
        w - n
    } else {
        0
    };
    let mut r = String::from_str(s);
    let sp = spaces(pad);
    r.append(sp.as_str());
    proof {
        assert(r@ =~= spec_pad_right(s@, w as nat));
    }
    r
}

} // verus!
