//! Canonical decimal rendering of version numbers, e.g. `2` to `"2"` and
//! `10` to `"10"`, with no leading zeros.

use vstd::prelude::*;

verus! {

use vstd::string::StringExecFns;

/// The character for a single decimal digit.
pub open spec fn digit_char(d: nat) -> char {
    if d == 0 {
        '0'
    } else if d == 1 {
        '1'
    } else if d == 2 {
        '2'
    } else if d == 3 {
        '3'
    } else if d == 4 {
        '4'
    } else if d == 5 {
        '5'
    } else if d == 6 {
        '6'
    } else if d == 7 {
        '7'
    } else if d == 8 {
        '8'
    } else {
        '9'
    }
}

/// The canonical decimal rendering of a natural number.
pub open spec fn decimal_seq(n: nat) -> Seq<char>
    decreases n,
{
    if n < 10 {
        seq![digit_char(n)]
    } else {
        decimal_seq(n / 10) + seq![digit_char(n % 10)]
    }
}

/// The rendering `"major.minor.patch"` of a version triple.
pub open spec fn version_seq(major: nat, minor: nat, patch: nat) -> Seq<char> {
    decimal_seq(major) + seq!['.'] + decimal_seq(minor) + seq!['.'] + decimal_seq(patch)
}

pub open spec fn is_ascii_digit(c: char) -> bool {
    '0' <= c && c <= '9'
}

pub open spec fn digit_val(c: char) -> nat {
    ((c as int) - ('0' as int)) as nat
}

pub open spec fn all_digits(s: Seq<char>) -> bool {
    forall|k: int| 0 <= k < s.len() ==> is_ascii_digit(#[trigger] s[k])
}

/// The number a digit sequence denotes, most significant digit first.
pub open spec fn digits_value(s: Seq<char>) -> nat
    decreases s.len(),
{
    if s.len() == 0 {
        0
    } else {
        digits_value(s.drop_last()) * 10 + digit_val(s.last())
    }
}

pub open spec fn pow10(k: nat) -> nat
    decreases k,
{
    if k == 0 {
        1
    } else {
        10 * pow10((k - 1) as nat)
    }
}

/// A rendered number consists of digits, at least one.
pub proof fn lemma_decimal_digits(n: nat)
    ensures
        decimal_seq(n).len() >= 1,
        all_digits(decimal_seq(n)),
    decreases n,
{
    if n >= 10 {
        lemma_decimal_digits(n / 10);
        assert forall|k: int| 0 <= k < decimal_seq(n).len() implies is_ascii_digit(
            #[trigger] decimal_seq(n)[k],
        ) by {
            if k < decimal_seq(n / 10).len() {
                assert(decimal_seq(n)[k] == decimal_seq(n / 10)[k]);
            }
        }
    }
}

/// Reading a digit character back gives the digit.
pub proof fn lemma_digit_char_val(d: nat)
    requires
        d < 10,
    ensures
        digit_val(digit_char(d)) == d,
{
    if d == 0 {
        assert(digit_val('0') == 0);
    } else if d == 1 {
        assert(digit_val('1') == 1);
    } else if d == 2 {
        assert(digit_val('2') == 2);
    } else if d == 3 {
        assert(digit_val('3') == 3);
    } else if d == 4 {
        assert(digit_val('4') == 4);
    } else if d == 5 {
        assert(digit_val('5') == 5);
    } else if d == 6 {
        assert(digit_val('6') == 6);
    } else if d == 7 {
        assert(digit_val('7') == 7);
    } else if d == 8 {
        assert(digit_val('8') == 8);
    } else {
        assert(digit_val('9') == 9);
    }
}

/// The rendering denotes the number it was made from.
pub proof fn lemma_decimal_value(n: nat)
    ensures
        digits_value(decimal_seq(n)) == n,
    decreases n,
{
    if n < 10 {
        lemma_digit_char_val(n);
        assert(digits_value(Seq::<char>::empty()) == 0);
        assert(decimal_seq(n).drop_last() =~= Seq::<char>::empty());
        assert(decimal_seq(n).last() == digit_char(n));
    } else {
        lemma_digit_char_val(n % 10);
        lemma_decimal_value(n / 10);
        assert(decimal_seq(n).drop_last() =~= decimal_seq(n / 10));
        assert(decimal_seq(n).last() == digit_char(n % 10));
    }
}

/// A number below `pow10(k)` renders in at most `k` digits.
pub proof fn lemma_decimal_len_bound(n: nat, k: nat)
    requires
        1 <= k,
        n < pow10(k),
    ensures
        decimal_seq(n).len() <= k,
    decreases k,
{
    if n >= 10 {
        assert(pow10(k) == 10 * pow10((k - 1) as nat));
        assert(pow10((k - 1) as nat) >= 1) by {
            lemma_pow10_positive((k - 1) as nat);
        }
        assert(k >= 2) by {
            if k == 1 {
                assert(pow10(1nat) == 10);
            }
        }
        assert(n / 10 < pow10((k - 1) as nat)) by (nonlinear_arith)
            requires
                n < 10 * pow10((k - 1) as nat),
                n >= 10,
        ;
        lemma_decimal_len_bound(n / 10, (k - 1) as nat);
    }
}

pub proof fn lemma_pow10_positive(k: nat)
    ensures
        pow10(k) >= 1,
    decreases k,
{
    if k > 0 {
        lemma_pow10_positive((k - 1) as nat);
    }
}

/// A digit string's value is below `pow10` of its length.
pub proof fn lemma_digits_value_bound(s: Seq<char>)
    requires
        all_digits(s),
    ensures
        digits_value(s) < pow10(s.len()),
    decreases s.len(),
{
    if s.len() > 0 {
        assert(all_digits(s.drop_last())) by {
            assert(forall|k: int|
                0 <= k < s.drop_last().len() ==> s.drop_last()[k] == s[k] && is_ascii_digit(
                    #[trigger] s[k],
                ));
        }
        lemma_digits_value_bound(s.drop_last());
        assert(is_ascii_digit(s.last()));
        assert(digit_val(s.last()) <= 9);
        assert(digits_value(s.drop_last()) * 10 + 9 < pow10(s.len())) by (nonlinear_arith)
            requires
                digits_value(s.drop_last()) < pow10(s.drop_last().len()),
                s.drop_last().len() == s.len() - 1,
                pow10(s.len()) == 10 * pow10((s.len() - 1) as nat),
        ;
    }
}

/// A `u64` renders in at most twenty digits, and its rendering denotes a
/// value that fits back in a `u64`.
pub proof fn lemma_u64_decimal(n: u64)
    ensures
        1 <= decimal_seq(n as nat).len() <= 20,
        all_digits(decimal_seq(n as nat)),
        digits_value(decimal_seq(n as nat)) == n,
{
    lemma_decimal_digits(n as nat);
    lemma_decimal_value(n as nat);
    assert(pow10(20) == 100000000000000000000) by {
        reveal_with_fuel(pow10, 21);
    }
    lemma_decimal_len_bound(n as nat, 20);
}

fn digit_str(d: u64) -> (r: &'static str)
    requires
        d < 10,
    ensures
        r@ == seq![digit_char(d as nat)],
{
    let r: &'static str = match d {
        0 => "0",
        1 => "1",
        2 => "2",
        3 => "3",
        4 => "4",
        5 => "5",
        6 => "6",
        7 => "7",
        8 => "8",
        _ => "9",
    };
    proof {
        reveal_strlit("0");
        reveal_strlit("1");
        reveal_strlit("2");
        reveal_strlit("3");
        reveal_strlit("4");
        reveal_strlit("5");
        reveal_strlit("6");
        reveal_strlit("7");
        reveal_strlit("8");
        reveal_strlit("9");
        assert(r@ =~= seq![digit_char(d as nat)]);
    }
    r
}

/// Renders a number in canonical decimal.
pub fn format_u64(n: u64) -> (r: String)
    ensures
        r@ == decimal_seq(n as nat),
    decreases n,
{
    if n < 10 {
        digit_str(n).to_owned()
    } else {
        let mut prefix = format_u64(n / 10);
        prefix.append(digit_str(n % 10));
        proof {
            assert(prefix@ =~= decimal_seq(n as nat));
        }
        prefix
    }
}

/// Renders a version triple as `"major.minor.patch"`.
pub fn format_version(major: u64, minor: u64, patch: u64) -> (r: String)
    ensures
        r@ == version_seq(major as nat, minor as nat, patch as nat),
{
    let mut s = format_u64(major);
    s.append(".");
    let minor_s = format_u64(minor);
    s.append(minor_s.as_str());
    s.append(".");
    let patch_s = format_u64(patch);
    s.append(patch_s.as_str());
    proof {
        reveal_strlit(".");
        assert(s@ =~= version_seq(major as nat, minor as nat, patch as nat));
    }
    s
}

} // verus!
