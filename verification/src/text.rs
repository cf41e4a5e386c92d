//! Small text helpers: equality of string slices and the decimal and
//! hexadecimal renderings used in messages.
use vstd::prelude::*;

verus! {

/// Whether two string slices hold the same text.
pub fn str_eq(a: &str, b: &str) -> (r: bool)
    ensures
        r == (a@ == b@),
{
    let x = a.to_owned();
    let y = b.to_owned();
    x.eq(&y)
}

/// The upper-case hexadecimal digit of `d`.
pub open spec fn hex_digit(d: nat) -> char {
    if d < 10 {
        ((d + 48) as u8) as char
    } else {
        ((d + 55) as u8) as char
    }
}

/// `16` to the power `n`.
pub open spec fn pow16(n: nat) -> nat
    decreases n,
{
    if n == 0 {
        1
    } else {
        16 * pow16((n - 1) as nat)
    }
}

proof fn lemma_pow16_pos(n: nat)
    ensures
        pow16(n) >= 1,
    decreases n,
{
    if n > 0 {
        lemma_pow16_pos((n - 1) as nat);
    }
}

/// The `n` lowest hexadecimal digits of `v`, most significant first.
pub open spec fn hex_digits(v: nat, n: nat) -> Seq<char>
    decreases n,
{
    if n == 0 {
        Seq::empty()
    } else {
        seq![hex_digit((v / pow16((n - 1) as nat)) % 16)] + hex_digits(v, (n - 1) as nat)
    }
}

/// The decimal rendering of `v`, without leading zeros.
pub open spec fn dec_digits(v: nat) -> Seq<char>
    decreases v,
{
    if v < 10 {
        seq![hex_digit(v)]
    } else {
        dec_digits(v / 10).push(hex_digit(v % 10))
    }
}

/// The one-character string of digit `d` (`d < 16`).
fn digit_str(d: u32) -> (s: &'static str)
    requires
        d < 16,
    ensures
        s@ == seq![hex_digit(d as nat)],
{
    proof {
        reveal_strlit("0");
        reveal_strlit("1");
        reveal_strlit("2");
        reveal_strlit("3");
        reveal_strlit("4");
        reveal_strlit("5");
        reveal_strlit("6");
        reveal_strlit("7");
        reveal_strlit("8");
        reveal_strlit("9");
        reveal_strlit("A");
        reveal_strlit("B");
        reveal_strlit("C");
        reveal_strlit("D");
        reveal_strlit("E");
        reveal_strlit("F");
    }
    let s = if d == 0 {
        "0"
    } else if d == 1 {
        "1"
    } else if d == 2 {
        "2"
    } else if d == 3 {
        "3"
    } else if d == 4 {
        "4"
    } else if d == 5 {
        "5"
    } else if d == 6 {
        "6"
    } else if d == 7 {
        "7"
    } else if d == 8 {
        "8"
    } else if d == 9 {
        "9"
    } else if d == 10 {
        "A"
    } else if d == 11 {
        "B"
    } else if d == 12 {
        "C"
    } else if d == 13 {
        "D"
    } else if d == 14 {
        "E"
    } else {
        "F"
    };
    assert(s@ =~= seq![hex_digit(d as nat)]);
    s
}

/// The eight-digit upper-case hexadecimal rendering of `v`.
pub fn hex8(v: u32) -> (s: String)
    ensures
        s@ == hex_digits(v as nat, 8),
{
    let mut out = String::new();
    let mut k: u32 = 8;
    let mut div: u32 = 0x1000_0000;
    proof {
        reveal_with_fuel(pow16, 8);
        assert(out@ + hex_digits(v as nat, 8) =~= hex_digits(v as nat, 8));
    }
    while k > 0
        invariant
            k <= 8,
            k > 0 ==> div == pow16((k - 1) as nat),
            hex_digits(v as nat, 8) == out@ + hex_digits(v as nat, k as nat),
        decreases k,
    {
        proof {
            lemma_pow16_pos((k - 1) as nat);
        }
        let d = (v / div) % 16;
        let ghost before = out@;
        out.append(digit_str(d));
        proof {
            assert(hex_digits(v as nat, k as nat) == seq![hex_digit(d as nat)] + hex_digits(v as nat, (k - 1) as nat));
            assert(out@ + hex_digits(v as nat, (k - 1) as nat) =~= before + hex_digits(v as nat, k as nat));
            if k > 1 {
                assert(pow16((k - 1) as nat) == 16 * pow16((k - 2) as nat));
                lemma_pow16_pos((k - 2) as nat);
            }
        }
        k = k - 1;
        if k > 0 {
            div = div / 16;
        }
    }
    proof {
        assert(out@ + hex_digits(v as nat, 0) =~= out@);
    }
    out
}

/// The decimal rendering of `v`.
pub fn dec_u8(v: u8) -> (s: String)
    ensures
        s@ == dec_digits(v as nat),
{
    let mut out = String::new();
    if v >= 100 {
        out.append(digit_str((v / 100) as u32));
        out.append(digit_str(((v / 10) % 10) as u32));
        out.append(digit_str((v % 10) as u32));
        proof {
            reveal_with_fuel(dec_digits, 3);
            assert((v as nat / 10) / 10 == v as nat / 100);
            assert(out@ =~= dec_digits(v as nat));
        }
    } else if v >= 10 {
        out.append(digit_str((v / 10) as u32));
        out.append(digit_str((v % 10) as u32));
        proof {
            reveal_with_fuel(dec_digits, 2);
            assert(out@ =~= dec_digits(v as nat));
        }
    } else {
        out.append(digit_str(v as u32));
        proof {
            assert(out@ =~= dec_digits(v as nat));
        }
    }
    out
}

/// The two-digit upper-case hexadecimal rendering of `v`.
pub fn hex2(v: u8) -> (s: String)
    ensures
        s@ == hex_digits(v as nat, 2),
{
    let mut out = String::new();
    out.append(digit_str((v / 16) as u32));
    out.append(digit_str((v % 16) as u32));
    proof {
        assert(pow16(0) == 1);
        assert(pow16(1) == 16);
        assert(hex_digits(v as nat, 0) =~= Seq::<char>::empty());
        assert(hex_digits(v as nat, 1) =~= seq![hex_digit((v as nat / 1) % 16)]);
        assert(v as nat / 1 == v as nat);
        assert(hex_digits(v as nat, 2) =~= seq![hex_digit((v as nat / 16) % 16)] + hex_digits(v as nat, 1));
        assert((v as nat / 16) % 16 == v as nat / 16);
        assert(out@ =~= hex_digits(v as nat, 2));
    }
    out
}

/// The decimal rendering of `v`.
pub fn dec_usize(v: usize) -> (s: String)
    ensures
        s@ == dec_digits(v as nat),
    decreases v,
{
    if v < 10 {
        let mut out = String::new();
        out.append(digit_str(v as u32));
        proof {
            assert(out@ =~= dec_digits(v as nat));
        }
        out
    } else {
        let mut out = dec_usize(v / 10);
        out.append(digit_str((v % 10) as u32));
        proof {
            assert(out@ =~= dec_digits(v as nat));
        }
        out
    }
}

} // verus!
