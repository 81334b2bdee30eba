//! Uppercase hexadecimal rendering of machine integers, with left zero
//! padding to a minimum width.

use vstd::prelude::*;
use vstd::string::*;

verus! {

/// The sixteen uppercase hexadecimal digit characters, indexed by value.
pub open spec fn hex_digit(d: int) -> char {
    seq!['0', '1', '2', '3', '4', '5', '6', '7', '8', '9', 'A', 'B', 'C', 'D', 'E', 'F'][d]
}

/// Uppercase hexadecimal rendering of `v`, most significant digit first,
/// with no leading zeroes (a single `0` for zero itself).
pub open spec fn hex_uint(v: nat) -> Seq<char>
    decreases v,
{
    if v < 16 {
        seq![hex_digit(v as int)]
    } else {
        hex_uint(v / 16).push(hex_digit((v % 16) as int))
    }
}

/// A run of `n` zero characters.
pub open spec fn zero_run(n: nat) -> Seq<char> {
    Seq::new(n, |i: int| '0')
}

/// `v` in uppercase hexadecimal, left-padded with zeroes to at least `w` digits.
pub open spec fn hex_pad(v: nat, w: nat) -> Seq<char> {
    let d = hex_uint(v);
    if d.len() >= w {
        d
    } else {
        zero_run((w - d.len()) as nat) + d
    }
}

/// Sixteen to the power `k`.
pub open spec fn pow16(k: nat) -> nat
    decreases k,
{
    if k == 0 {
        1
    } else {
        16 * pow16((k - 1) as nat)
    }
}

/// The unpadded rendering of `v` has at most `k` digits when `v < 16^k`.
pub proof fn lemma_hex_uint_len(v: nat, k: nat)
    requires
        1 <= k,
        v < pow16(k),
    ensures
        1 <= hex_uint(v).len() <= k,
    decreases v,
{
    if v >= 16 {
        assert(pow16(k) == 16 * pow16((k - 1) as nat));
        assert(v / 16 < pow16((k - 1) as nat)) by (nonlinear_arith)
            requires
                v < 16 * pow16((k - 1) as nat),
        ;
        assert(k >= 2) by {
            if k == 1 {
                assert(pow16(1nat) == 16);
            }
        }
        lemma_hex_uint_len(v / 16, (k - 1) as nat);
    }
}

/// Every `u64` renders to at most sixteen digits.
pub proof fn lemma_hex_uint_len_u64(v: u64)
    ensures
        1 <= hex_uint(v as nat).len() <= 16,
{
    reveal_with_fuel(pow16, 17);
    assert(pow16(16) == 0x1_0000_0000_0000_0000);
    lemma_hex_uint_len(v as nat, 16);
}

/// The padded rendering is exactly `max(w, len(hex_uint(v)))` characters long.
pub proof fn lemma_hex_pad_len(v: nat, w: nat)
    ensures
        hex_pad(v, w).len() == if hex_uint(v).len() >= w {
            hex_uint(v).len()
        } else {
            w
        },
{
}

/// One hexadecimal digit as a string slice.
fn hex_digit_str(d: u64) -> (r: &'static str)
    requires
        d < 16,
    ensures
        r@ =~= seq![hex_digit(d as int)],
{
    proof {
        reveal_strlit("0");
        reveal_strlit("1");
        reveal_strlit("2");
        reveal_strlit("3");
        reveal_strlit("4");
        reveal_strlit("5");
        reveal_strlit("6");
        reveal_strlit("7");
        reveal_strlit("8");
        reveal_strlit("9");
        reveal_strlit("A");
        reveal_strlit("B");
        reveal_strlit("C");
        reveal_strlit("D");
        reveal_strlit("E");
        reveal_strlit("F");
    }
    if d == 0 {
        "0"
    } else if d == 1 {
        "1"
    } else if d == 2 {
        "2"
    } else if d == 3 {
        "3"
    } else if d == 4 {
        "4"
    } else if d == 5 {
        "5"
    } else if d == 6 {
        "6"
    } else if d == 7 {
        "7"
    } else if d == 8 {
        "8"
    } else if d == 9 {
        "9"
    } else if d == 10 {
        "A"
    } else if d == 11 {
        "B"
    } else if d == 12 {
        "C"
    } else if d == 13 {
        "D"
    } else if d == 14 {
        "E"
    } else {
        "F"
    }
}

/// The unpadded uppercase hexadecimal digits of `v`.
fn hex_digits(v: u64) -> (r: String)
    ensures
        r@ == hex_uint(v as nat),
    decreases v,
{
    if v < 16 {
        String::from_str(hex_digit_str(v))
    } else {
        let mut s = hex_digits(v / 16);
        s.append(hex_digit_str(v % 16));
        proof {
            assert(s@ =~= hex_uint((v / 16) as nat).push(hex_digit((v % 16) as int)));
        }
        s
    }
}

/// `v` in uppercase hexadecimal, left-padded with zeroes to at least `w` digits.
pub fn to_hex_padded(v: u64, w: usize) -> (r: String)
    ensures
        r@ == hex_pad(v as nat, w as nat),
{
    let d = hex_digits(v);
    let dlen = d.as_str().unicode_len();
    if dlen >= w {
        d
    } else {
        proof {
            reveal_strlit("0");
        }
        let mut s = String::new();
        let mut i: usize = 0;
        while i < w - dlen
            invariant
                dlen < w,
                i <= w - dlen,
                dlen == hex_uint(v as nat).len(),
                s@ =~= zero_run(i as nat),
                "0"@ =~= seq!['0'],
            decreases w - dlen - i,
        {
            s.append("0");
            proof {
                assert(s@ =~= zero_run((i + 1) as nat));
            }
            i += 1;
        }
        s.append(d.as_str());
        proof {
            assert(s@ =~= hex_pad(v as nat, w as nat));
        }
        s
    }
}

/// Whether `c` is one of the sixteen uppercase hexadecimal digit characters.
pub open spec fn is_hex_char(c: char) -> bool {
    c == '0' || c == '1' || c == '2' || c == '3' || c == '4' || c == '5' || c == '6' || c == '7'
        || c == '8' || c == '9' || c == 'A' || c == 'B' || c == 'C' || c == 'D' || c == 'E' || c
        == 'F'
}

/// Every digit character is a hexadecimal character.
pub proof fn lemma_hex_digit_char(d: int)
    requires
        0 <= d < 16,
    ensures
        is_hex_char(hex_digit(d)),
{
}

/// Every character of an unpadded rendering is a hexadecimal character.
pub proof fn lemma_hex_uint_chars(v: nat)
    ensures
        forall|j: int| 0 <= j < hex_uint(v).len() ==> is_hex_char(#[trigger] hex_uint(v)[j]),
    decreases v,
{
    if v < 16 {
        lemma_hex_digit_char(v as int);
    } else {
        lemma_hex_uint_chars(v / 16);
        lemma_hex_digit_char((v % 16) as int);
        let p = hex_uint(v / 16);
        assert forall|j: int| 0 <= j < hex_uint(v).len() implies is_hex_char(
            #[trigger] hex_uint(v)[j],
        ) by {
            if j < p.len() {
                assert(hex_uint(v)[j] == p[j]);
            } else {
                assert(hex_uint(v)[j] == hex_digit((v % 16) as int));
            }
        }
    }
}

/// The last digit of an unpadded rendering is the value's lowest digit.
pub proof fn lemma_hex_uint_last(v: nat)
    ensures
        hex_uint(v).last() == hex_digit((v % 16) as int),
{
    if v < 16 {
        assert(v % 16 == v);
    }
}

} // verus!
