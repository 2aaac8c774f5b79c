//! Canvas identifiers.
//!
//! The registry assigns each canvas the decimal rendering of a counter that
//! only ever grows, so an identifier is produced fresh per registration and is
//! never reused for a different canvas. [`lemma_identifiers_distinct`] is the
//! heart of that guarantee: distinct counter values render to distinct
//! identifier strings.

use vstd::prelude::*;
use vstd::string::StringExecFns;

verus! {

/// Decimal digit character for a value below ten.
pub open spec fn dec_digit(d: nat) -> char {
    if d == 0 {
        '0'
    } else if d == 1 {
        '1'
    } else if d == 2 {
        '2'
    } else if d == 3 {
        '3'
    } else if d == 4 {
        '4'
    } else if d == 5 {
        '5'
    } else if d == 6 {
        '6'
    } else if d == 7 {
        '7'
    } else if d == 8 {
        '8'
    } else {
        '9'
    }
}

/// Decimal rendering of a natural number, most significant digit first.
pub open spec fn dec_of(n: nat) -> Seq<char>
    decreases n,
{
    if n < 10 {
        seq![dec_digit(n)]
    } else {
        dec_of(n / 10) + seq![dec_digit(n % 10)]
    }
}

/// A decimal rendering is never empty, and has at least two digits from ten on.
pub proof fn lemma_dec_of_len(n: nat)
    ensures
        dec_of(n).len() >= 1,
        n >= 10 ==> dec_of(n).len() >= 2,
    decreases n,
{
    if n >= 10 {
        lemma_dec_of_len(n / 10);
    }
}

/// Digit characters determine their digit.
proof fn lemma_dec_digit_injective(a: nat, b: nat)
    requires
        a < 10,
        b < 10,
        dec_digit(a) == dec_digit(b),
    ensures
        a == b,
{
}

/// Equal decimal renderings come from equal numbers.
pub proof fn lemma_dec_of_injective(a: nat, b: nat)
    requires
        dec_of(a) == dec_of(b),
    ensures
        a == b,
    decreases a + b,
{
    lemma_dec_of_len(a);
    lemma_dec_of_len(b);
    if a < 10 && b < 10 {
        assert(dec_of(a)[0] == dec_digit(a));
        assert(dec_of(b)[0] == dec_digit(b));
        lemma_dec_digit_injective(a, b);
    } else if a < 10 || b < 10 {
        // one rendering has one digit, the other at least two
        assert(false);
    } else {
        let la = dec_of(a).len();
        assert(dec_of(a).last() == dec_digit(a % 10));
        assert(dec_of(b).last() == dec_digit(b % 10));
        assert(a % 10 < 10 && b % 10 < 10) by {
            vstd::arithmetic::div_mod::lemma_mod_bound(a as int, 10);
            vstd::arithmetic::div_mod::lemma_mod_bound(b as int, 10);
        }
        lemma_dec_digit_injective((a % 10) as nat, (b % 10) as nat);
        assert(dec_of(a).drop_last() =~= dec_of(a / 10));
        assert(dec_of(b).drop_last() =~= dec_of(b / 10));
        assert(a / 10 + b / 10 < a + b) by {
            vstd::arithmetic::div_mod::lemma_div_decreases(a as int, 10);
            vstd::arithmetic::div_mod::lemma_div_decreases(b as int, 10);
        }
        lemma_dec_of_injective((a / 10) as nat, (b / 10) as nat);
        assert(a == 10 * (a / 10) + a % 10) by {
            vstd::arithmetic::div_mod::lemma_fundamental_div_mod(a as int, 10);
        }
        assert(b == 10 * (b / 10) + b % 10) by {
            vstd::arithmetic::div_mod::lemma_fundamental_div_mod(b as int, 10);
        }
    }
}

/// Distinct counter values render to distinct identifiers. Together with the
/// registry's contracts — registration assigns the rendering of the current
/// counter and strictly increases it, and no other operation ever lowers it —
/// this means no two registrations in a process lifetime are ever assigned
/// the same identifier, even after the earlier canvas is gone.
pub proof fn lemma_identifiers_distinct(a: nat, b: nat)
    requires
        a != b,
    ensures
        dec_of(a) != dec_of(b),
{
    if dec_of(a) == dec_of(b) {
        lemma_dec_of_injective(a, b);
    }
}

/// Character sequence rendered by a stack of digits, least significant first.
pub open spec fn digits_chars(ds: Seq<u64>) -> Seq<char>
    decreases ds.len(),
{
    if ds.len() == 0 {
        Seq::empty()
    } else {
        seq![dec_digit(ds.last() as nat)] + digits_chars(ds.drop_last())
    }
}

/// Pointwise description of `digits_chars`.
proof fn lemma_digits_chars_index(ds: Seq<u64>, j: int)
    requires
        0 <= j < ds.len(),
    ensures
        digits_chars(ds).len() == ds.len(),
        digits_chars(ds)[j] == dec_digit(ds[ds.len() - 1 - j] as nat),
    decreases ds.len(),
{
    lemma_digits_chars_len(ds);
    if j > 0 {
        lemma_digits_chars_index(ds.drop_last(), j - 1);
    }
}

proof fn lemma_digits_chars_len(ds: Seq<u64>)
    ensures
        digits_chars(ds).len() == ds.len(),
    decreases ds.len(),
{
    if ds.len() > 0 {
        lemma_digits_chars_len(ds.drop_last());
    }
}

/// One-character string slice for a digit.
fn digit_str(d: u64) -> (s: &'static str)
    requires
        d < 10,
    ensures
        s@ == seq![dec_digit(d as nat)],
{
    if d == 0 {
        proof {
            reveal_strlit("0");
            assert("0"@ =~= seq![dec_digit(0)]);
        }
        "0"
    } else if d == 1 {
        proof {
            reveal_strlit("1");
            assert("1"@ =~= seq![dec_digit(1)]);
        }
        "1"
    } else if d == 2 {
        proof {
            reveal_strlit("2");
            assert("2"@ =~= seq![dec_digit(2)]);
        }
        "2"
    } else if d == 3 {
        proof {
            reveal_strlit("3");
            assert("3"@ =~= seq![dec_digit(3)]);
        }
        "3"
    } else if d == 4 {
        proof {
            reveal_strlit("4");
            assert("4"@ =~= seq![dec_digit(4)]);
        }
        "4"
    } else if d == 5 {
        proof {
            reveal_strlit("5");
            assert("5"@ =~= seq![dec_digit(5)]);
        }
        "5"
    } else if d == 6 {
        proof {
            reveal_strlit("6");
            assert("6"@ =~= seq![dec_digit(6)]);
        }
        "6"
    } else if d == 7 {
        proof {
            reveal_strlit("7");
            assert("7"@ =~= seq![dec_digit(7)]);
        }
        "7"
    } else if d == 8 {
        proof {
            reveal_strlit("8");
            assert("8"@ =~= seq![dec_digit(8)]);
        }
        "8"
    } else {
        proof {
            reveal_strlit("9");
            assert("9"@ =~= seq![dec_digit(9)]);
        }
        "9"
    }
}

/// Renders an identifier counter value as its decimal string.
pub fn format_id(n: u64) -> (s: String)
    ensures
        s@ == dec_of(n as nat),
{
    let mut digits: Vec<u64> = Vec::new();
    let mut m: u64 = n;
    digits.push(m % 10);
    m = m / 10;
    proof {
        assert(digits@ =~= seq![n % 10]);
        assert(digits@.drop_last() =~= Seq::<u64>::empty());
        assert(digits_chars(Seq::<u64>::empty()) =~= Seq::<char>::empty());
        assert(digits_chars(digits@) =~= seq![dec_digit((n % 10) as nat)]);
        if n < 10 {
            assert(n % 10 == n) by {
                vstd::arithmetic::div_mod::lemma_small_mod(n as nat, 10);
            }
            assert(dec_of(n as nat) =~= digits_chars(digits@));
        } else {
            assert(dec_of(n as nat) =~= dec_of((m as nat)) + digits_chars(digits@));
        }
    }
    while m > 0
        invariant
            forall|k: int| 0 <= k < digits@.len() ==> digits@[k] < 10,
            digits@.len() >= 1,
            m > 0 ==> dec_of(n as nat) == dec_of(m as nat) + digits_chars(digits@),
            m == 0 ==> dec_of(n as nat) == digits_chars(digits@),
        decreases m,
    {
        let ghost pre_m = m as nat;
        let ghost pre_digits = digits@;
        digits.push(m % 10);
        m = m / 10;
        proof {
            assert(digits@.last() == pre_m % 10);
            assert(digits@.drop_last() =~= pre_digits);
            assert(digits_chars(digits@) == seq![dec_digit((pre_m % 10) as nat)]
                + digits_chars(pre_digits));
            if pre_m < 10 {
                assert(m == 0);
                assert(pre_m % 10 == pre_m) by {
                    vstd::arithmetic::div_mod::lemma_small_mod(pre_m, 10);
                }
                assert(dec_of(pre_m) =~= seq![dec_digit(pre_m)]);
                assert(dec_of(n as nat) =~= digits_chars(digits@));
            } else {
                assert(dec_of(pre_m) == dec_of(pre_m / 10) + seq![dec_digit(pre_m % 10)]);
                assert(dec_of(n as nat) =~= dec_of(m as nat) + digits_chars(digits@));
                assert(m < pre_m) by {
                    vstd::arithmetic::div_mod::lemma_div_decreases(pre_m as int, 10);
                }
            }
        }
    }
    let ghost all_chars = digits_chars(digits@);
    proof {
        lemma_digits_chars_len(digits@);
    }
    let mut s = String::new();
    let mut i: usize = digits.len();
    proof {
        assert(s@ =~= all_chars.take(0));
    }
    while i > 0
        invariant
            i <= digits@.len(),
            forall|k: int| 0 <= k < digits@.len() ==> digits@[k] < 10,
            all_chars == digits_chars(digits@),
            all_chars.len() == digits@.len(),
            s@ == all_chars.take(digits@.len() - i),
        decreases i,
    {
        i = i - 1;
        let ghost pre_s = s@;
        let d = digits[i];
        let piece = digit_str(d);
        s.append(piece);
        proof {
            let taken = (digits@.len() - i) as int;
            lemma_digits_chars_index(digits@, taken - 1);
            assert(all_chars[taken - 1] == dec_digit(digits@[i as int] as nat));
            assert(s@ =~= all_chars.take(taken));
        }
    }
    proof {
        assert(s@ =~= all_chars);
    }
    s
}

} // verus!
