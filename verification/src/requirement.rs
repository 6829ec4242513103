//! Minimum-satisfying-version extraction from a requirement string.
//!
//! The range grammar itself is the parser crate's work; this module wraps that
//! call, guards it against inputs whose numeric components exceed `u64`, and
//! renders the first comparator's `major.minor.patch` as a version string.

use vstd::prelude::*;

use crate::decimal::{
    all_digits, decimal_seq, digits_value, format_version, is_ascii_digit, lemma_digits_value_bound,
    lemma_pow10_positive, lemma_u64_decimal, pow10, version_seq,
};
use crate::domain::{CrateRequirement, CrateVersion};

verus! {

use vstd::string::StrSliceExecFns;

/// Error of a requirement string that yields no minimum version.
#[derive(Clone, Copy, Debug, PartialEq, Eq, Structural)]
pub struct MalformedRequirement;

/// Twenty-one decimal digits in a row: the denoted number cannot fit in `u64`.
pub open spec fn overflowing_window(s: Seq<char>, i: int) -> bool {
    &&& 0 <= i
    &&& i + 21 <= s.len()
    &&& all_digits(s.subrange(i, i + 21))
}

/// A twenty-digit component, starting where a digit run starts, whose value
/// reaches `u64::MAX`. The largest `u64` itself is out of bounds: while
/// expanding a range the parser also computes component successors, so only
/// values strictly below `u64::MAX` are safe everywhere.
pub open spec fn overflowing_run20(s: Seq<char>, i: int) -> bool {
    &&& 0 <= i
    &&& i + 20 <= s.len()
    &&& all_digits(s.subrange(i, i + 20))
    &&& (i == 0 || !is_ascii_digit(s[i - 1]))
    &&& digits_value(s.subrange(i, i + 20)) >= u64::MAX
}

/// Whether the string holds a numeric component beyond what the range
/// parser's `u64` arithmetic accepts. The scan covers every digit run, with
/// no regard to position: a long number inside pre-release or build text,
/// which the parser itself would read fallibly, also counts. Strings flagged
/// here are rejected as malformed rather than handed to the parser.
pub open spec fn has_numeric_overflow(s: Seq<char>) -> bool {
    (exists|i: int| overflowing_window(s, i)) || (exists|i: int| overflowing_run20(s, i))
}

/// The `(major, minor, patch)` of the first comparator of the first range
/// that the range parser derives from a requirement string, in cargo
/// compatibility mode; `None` where the string does not parse.
pub uninterp spec fn minimum_triple_of(s: Seq<char>) -> Option<(u64, u64, u64)>;

/// The rendering `^major.minor.patch` of a caret requirement.
pub open spec fn caret_seq(major: u64, minor: u64, patch: u64) -> Seq<char> {
    seq!['^'] + version_seq(major as nat, minor as nat, patch as nat)
}

/// Relies on `semver_parser::RangeSet::parse` with `Compat::Cargo`: the
/// outcome depends on the string alone; a parsed `^major.minor.patch`
/// requirement's first comparator carries exactly those three numbers; and a
/// string whose numeric components all lie strictly below `u64::MAX` never
/// makes the parser panic — components are read with `u64` parsing and range
/// expansion computes at most their successors.
#[verifier::external_body]
fn parse_minimum_triple(s: &str) -> (r: Option<(u64, u64, u64)>)
    requires
        !has_numeric_overflow(s@),
    ensures
        r == minimum_triple_of(s@),
        forall|a: u64, b: u64, c: u64| s@ == caret_seq(a, b, c) ==> r == Some((a, b, c)),
{
    match semver_parser::RangeSet::parse(s, semver_parser::Compat::Cargo) {
        Ok(set) => set.ranges.first().and_then(|range| range.comparator_set.first()).map(
            |comparator| (comparator.major, comparator.minor, comparator.patch),
        ),
        Err(_) => None,
    }
}

fn is_digit(c: char) -> (r: bool)
    ensures
        r == is_ascii_digit(c),
{
    let u = c as u32;
    48 <= u && u <= 57
}

/// Detects numeric components too large for the range parser.
pub fn numeric_overflow(s: &str) -> (r: bool)
    ensures
        r == has_numeric_overflow(s@),
{
    let n = s.unicode_len();
    let mut i: usize = 0;
    while i < n
        invariant
            i <= n,
            n == s@.len(),
            i == 0 || i == n || !is_ascii_digit(s@[i - 1]) || !is_ascii_digit(s@[i as int]),
            forall|i0: int| 0 <= i0 < i ==> !overflowing_window(s@, i0),
            forall|i0: int| 0 <= i0 < i ==> !overflowing_run20(s@, i0),
        decreases n - i,
    {
        let c = s.get_char(i);
        if is_digit(c) {
            // a digit run starts here
            let mut b: usize = i + 1;
            while b < n
                invariant
                    i < b <= n,
                    n == s@.len(),
                    forall|k: int| i <= k < b ==> is_ascii_digit(#[trigger] s@[k]),
                ensures
                    i < b <= n,
                    n == s@.len(),
                    forall|k: int| i <= k < b ==> is_ascii_digit(#[trigger] s@[k]),
                    b == n || !is_ascii_digit(s@[b as int]),
                decreases n - b,
            {
                let cb = s.get_char(b);
                if !is_digit(cb) {
                    break ;
                }
                b = b + 1;
            }
            if b - i >= 21 {
                proof {
                    assert(all_digits(s@.subrange(i as int, i + 21))) by {
                        assert(forall|k: int|
                            0 <= k < 21 ==> #[trigger] s@.subrange(i as int, i + 21)[k] == s@[i
                                + k]);
                    }
                    assert(overflowing_window(s@, i as int));
                }
                return true;
            }
            if b - i == 20 {
                let ghost run = s@.subrange(i as int, i + 20);
                proof {
                    assert(all_digits(run)) by {
                        assert(forall|k: int| 0 <= k < 20 ==> #[trigger] run[k] == s@[i + k]);
                    }
                }
                let mut val: u128 = 0;
                let mut k: usize = 0;
                while k < 20
                    invariant
                        k <= 20,
                        n == s@.len(),
                        i + 20 <= n,
                        run == s@.subrange(i as int, i + 20),
                        all_digits(run),
                        val == digits_value(run.subrange(0, k as int)),
                        val < pow10(k as nat),
                    decreases 20 - k,
                {
                    let ck = s.get_char(i + k);
                    proof {
                        assert(ck == run[k as int]);
                        assert(is_ascii_digit(ck));
                        assert(run.subrange(0, k as int).len() == k);
                        lemma_digits_value_bound(run.subrange(0, k + 1));
                        assert(run.subrange(0, k + 1).drop_last() =~= run.subrange(0, k as int));
                        assert(run.subrange(0, k + 1).last() == run[k as int]);
                        assert(pow10(21) == 1000000000000000000000) by {
                            reveal_with_fuel(pow10, 22);
                        }
                        assert(pow10((k + 1) as nat) <= pow10(21)) by {
                            lemma_pow10_increases((k + 1) as nat, 21);
                        }
                    }
                    let d: u128 = (ck as u32 - 48) as u128;
                    val = val * 10 + d;
                    k = k + 1;
                }
                proof {
                    assert(run.subrange(0, 20) =~= run);
                }
                if val >= 18446744073709551615u128 {
                    proof {
                        assert(overflowing_run20(s@, i as int));
                    }
                    return true;
                }
                proof {
                    assert(digits_value(s@.subrange(i as int, i + 20)) < u64::MAX);
                }
            }
            proof {
                // nothing oversized begins inside this run
                assert forall|i0: int| i <= i0 < b implies !overflowing_window(s@, i0)
                    && !overflowing_run20(s@, i0) by {
                    if overflowing_window(s@, i0) {
                        assert(b < i0 + 21 && i0 + 21 <= n);
                        assert(s@.subrange(i0, i0 + 21)[b - i0] == s@[b as int]);
                    }
                    if overflowing_run20(s@, i0) {
                        if i0 > i {
                            assert(is_ascii_digit(s@[i0 - 1]));
                        } else {
                            if b - i < 20 {
                                assert(s@.subrange(i0, i0 + 20)[b - i0] == s@[b as int]);
                            }
                        }
                    }
                }
            }
            i = b;
        } else {
            proof {
                assert forall|i0: int| i0 == i implies !overflowing_window(s@, i0)
                    && !overflowing_run20(s@, i0) by {
                    if overflowing_window(s@, i0) {
                        assert(s@.subrange(i0, i0 + 21)[0] == s@[i0]);
                    }
                    if overflowing_run20(s@, i0) {
                        assert(s@.subrange(i0, i0 + 20)[0] == s@[i0]);
                    }
                }
            }
            i = i + 1;
        }
    }
    proof {
        assert forall|i0: int| !overflowing_window(s@, i0) by {
            if overflowing_window(s@, i0) {
                assert(0 <= i0 < n);
            }
        }
        assert forall|i0: int| !overflowing_run20(s@, i0) by {
            if overflowing_run20(s@, i0) {
                assert(0 <= i0 < n);
            }
        }
    }
    false
}

pub proof fn lemma_pow10_increases(a: nat, b: nat)
    requires
        a <= b,
    ensures
        pow10(a) <= pow10(b),
    decreases b,
{
    if a < b {
        lemma_pow10_increases(a, (b - 1) as nat);
        lemma_pow10_positive((b - 1) as nat);
    }
}

/// A caret requirement rendered from numbers strictly below `u64::MAX` never
/// holds an oversized numeric component.
pub proof fn lemma_caret_no_overflow(major: u64, minor: u64, patch: u64)
    requires
        major < u64::MAX,
        minor < u64::MAX,
        patch < u64::MAX,
    ensures
        !has_numeric_overflow(caret_seq(major, minor, patch)),
{
    let s = caret_seq(major, minor, patch);
    let aa = decimal_seq(major as nat);
    let bb = decimal_seq(minor as nat);
    let cc = decimal_seq(patch as nat);
    lemma_u64_decimal(major);
    lemma_u64_decimal(minor);
    lemma_u64_decimal(patch);
    let la = aa.len() as int;
    let lb = bb.len() as int;
    let lc = cc.len() as int;
    let p1 = 1 + la;
    let p2 = 2 + la + lb;
    let len = s.len() as int;
    assert(len == 3 + la + lb + lc);
    assert(s[0] == '^');
    assert(s[p1] == '.');
    assert(s[p2] == '.');
    assert(forall|k: int| 1 <= k < p1 ==> s[k] == aa[k - 1]);
    assert(forall|k: int| p1 < k < p2 ==> s[k] == bb[k - p1 - 1]);
    assert(forall|k: int| p2 < k < len ==> s[k] == cc[k - p2 - 1]);
    assert(!is_ascii_digit('^'));
    assert(!is_ascii_digit('.'));
    assert forall|i: int| !overflowing_window(s, i) by {
        if overflowing_window(s, i) {
            let w = s.subrange(i, i + 21);
            assert forall|k: int| i <= k < i + 21 implies is_ascii_digit(#[trigger] s[k]) by {
                assert(is_ascii_digit(w[k - i]));
            }
            assert(!(i <= 0 < i + 21));
            assert(!(i <= p1 < i + 21));
            assert(!(i <= p2 < i + 21));
            assert(false);
        }
    }
    assert forall|i: int| !overflowing_run20(s, i) by {
        if overflowing_run20(s, i) {
            let w = s.subrange(i, i + 20);
            assert forall|k: int| i <= k < i + 20 implies is_ascii_digit(#[trigger] s[k]) by {
                assert(is_ascii_digit(w[k - i]));
            }
            assert(!(i <= 0 < i + 20));
            assert(!(i <= p1 < i + 20));
            assert(!(i <= p2 < i + 20));
            assert(i >= 1);
            // the only non-digit positions are the caret and the two dots
            assert forall|k: int|
                1 <= k < len && k != p1 && k != p2 implies is_ascii_digit(#[trigger] s[k]) by {
                if k < p1 {
                    assert(is_ascii_digit(aa[k - 1]));
                } else if k < p2 {
                    assert(is_ascii_digit(bb[k - p1 - 1]));
                } else {
                    assert(is_ascii_digit(cc[k - p2 - 1]));
                }
            }
            assert(!is_ascii_digit(s[i - 1]));
            assert(i == 1 || i == p1 + 1 || i == p2 + 1);
            if i == 1 {
                assert(la == 20 && i + 20 == p1);
                assert(forall|k: int| 0 <= k < 20 ==> #[trigger] w[k] == aa[k]);
                assert(w =~= aa);
            } else if i == p1 + 1 {
                assert(lb == 20 && i + 20 == p2);
                assert(forall|k: int| 0 <= k < 20 ==> #[trigger] w[k] == bb[k]);
                assert(w =~= bb);
            } else {
                assert(lc == 20 && i + 20 == len);
                assert(forall|k: int| 0 <= k < 20 ==> #[trigger] w[k] == cc[k]);
                assert(w =~= cc);
            }
            assert(false);
        }
    }
}

impl CrateRequirement {
    /// The lowest version literal implied by the requirement's first
    /// comparator, rendered as `major.minor.patch`; `MalformedRequirement`
    /// where the string does not parse as a comparator range. A digit run
    /// anywhere in the string whose value reaches `u64::MAX` also counts as
    /// malformed — the range parser's successor arithmetic cannot be trusted
    /// with such components, and the guard does not distinguish component
    /// positions from pre-release or build text.
    pub fn minimum_version(&self) -> (r: Result<CrateVersion, MalformedRequirement>)
        ensures
            r is Ok <==> (!has_numeric_overflow(self@) && minimum_triple_of(self@) is Some),
            r matches Ok(v) ==> (minimum_triple_of(self@) matches Some(t) && v@ == version_seq(
                t.0 as nat,
                t.1 as nat,
                t.2 as nat,
            )),
            forall|a: u64, b: u64, c: u64|
                a < u64::MAX && b < u64::MAX && c < u64::MAX && self@ == caret_seq(a, b, c) ==> (
                r matches Ok(v) && v@ == version_seq(a as nat, b as nat, c as nat)),
    {
        if numeric_overflow(self.as_str()) {
            proof {
                assert forall|a: u64, b: u64, c: u64|
                    a < u64::MAX && b < u64::MAX && c < u64::MAX implies self@ != caret_seq(
                    a,
                    b,
                    c,
                ) by {
                    lemma_caret_no_overflow(a, b, c);
                }
            }
            return Err(MalformedRequirement);
        }
        match parse_minimum_triple(self.as_str()) {
            Some((major, minor, patch)) => {
                let rendered = format_version(major, minor, patch);
                match CrateVersion::parse(rendered.as_str()) {
                    Ok(version) => Ok(version),
                    Err(_) => Err(MalformedRequirement),
                }
            },
            None => Err(MalformedRequirement),
        }
    }
}

} // verus!

