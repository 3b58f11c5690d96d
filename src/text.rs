//! Text renderings of fingerprints: lowercase hexadecimal, and binary
//! zero-padded to the fingerprint's bit width.
use vstd::prelude::*;

verus! {

/// The lowercase hexadecimal digit for `d`, `0 <= d < 16`.
pub open spec fn hex_digit(d: int) -> char {
    if d < 10 {
        (48 + d) as char
    } else {
        (87 + d) as char
    }
}

/// `n` in lowercase hexadecimal, without leading zeros (zero is `0`).
pub open spec fn hex_of(n: nat) -> Seq<char>
    decreases n,
{
    if n < 16 {
        seq![hex_digit(n as int)]
    } else {
        hex_of(n / 16).push(hex_digit((n % 16) as int))
    }
}

/// The low `width` bits of `n` in binary, most significant first.
pub open spec fn binary_of(n: nat, width: nat) -> Seq<char>
    decreases width,
{
    if width == 0 {
        Seq::empty()
    } else {
        binary_of(n / 2, (width - 1) as nat).push(
            if n % 2 == 1 {
                '1'
            } else {
                '0'
            },
        )
    }
}

/// Relies on `String::from_iter` over characters: the string holds exactly
/// the given characters, in order.
#[verifier::external_body]
fn string_from_chars(chars: Vec<char>) -> (r: String)
    ensures
        r@ == chars@,
{
    String::from_iter(chars)
}

fn hex_char(d: u64) -> (c: char)
    requires
        d < 16,
    ensures
        c == hex_digit(d as int),
{
    if d < 10 {
        ((48 + d) as u8) as char
    } else {
        ((87 + d) as u8) as char
    }
}

/// `n` in lowercase hexadecimal, without leading zeros.
pub fn hex_string(n: u64) -> (r: String)
    ensures
        r@ == hex_of(n as nat),
{
    let mut digits: Vec<char> = Vec::new();
    digits.push(hex_char(n % 16));
    let mut x: u64 = n / 16;
    proof {
        if n < 16 {
            assert(digits@ =~= hex_of(n as nat));
        } else {
            assert(hex_of(n as nat) =~= hex_of(x as nat) + digits@);
        }
    }
    while x > 0
        invariant
            x == 0 ==> digits@ == hex_of(n as nat),
            x > 0 ==> hex_of(n as nat) == hex_of(x as nat) + digits@,
        decreases x,
    {
        let ghost before = digits@;
        digits.insert(0, hex_char(x % 16));
        proof {
            if x < 16 {
                assert(hex_of(x as nat) =~= seq![hex_digit((x % 16) as int)]);
                assert(digits@ =~= hex_of(x as nat) + before);
            } else {
                assert(hex_of(x as nat) + before =~= hex_of((x / 16) as nat) + digits@);
            }
        }
        x = x / 16;
    }
    string_from_chars(digits)
}

/// The low `width` bits of `n` in binary, most significant first, padded
/// with zeros to `width` characters.
pub fn binary_string(n: u64, width: u32) -> (r: String)
    ensures
        r@ == binary_of(n as nat, width as nat),
{
    let mut digits: Vec<char> = Vec::new();
    let mut x: u64 = n;
    let mut k: u32 = 0;
    while k < width
        invariant
            k <= width,
            binary_of(n as nat, width as nat) == binary_of(x as nat, (width - k) as nat)
                + digits@,
        decreases width - k,
    {
        let ghost before = digits@;
        let bit: char = if x % 2 == 1 {
            '1'
        } else {
            '0'
        };
        digits.insert(0, bit);
        proof {
            assert(binary_of(x as nat, (width - k) as nat) + before =~= binary_of(
                (x / 2) as nat,
                (width - k - 1) as nat,
            ) + digits@);
        }
        x = x / 2;
        k = k + 1;
    }
    proof {
        assert(binary_of(n as nat, width as nat) =~= digits@);
    }
    string_from_chars(digits)
}

} // verus!
