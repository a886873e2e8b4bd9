//! Decimal rendering and reading of unsigned integers, used for the
//! `Content-Length` header and the numeric part of status lines.

use vstd::prelude::*;

verus! {

/// The decimal digits of `n`, most significant first.
pub open spec fn spec_decimal(n: nat) -> Seq<u8>
    decreases n,
{
    if n < 10 {
        seq![(48 + n) as u8]
    } else {
        spec_decimal(n / 10).push((48 + n % 10) as u8)
    }
}

/// The value of a digit string, read left to right; `None` unless `s` is
/// nonempty and all digits.
pub open spec fn spec_parse_decimal(s: Seq<u8>) -> Option<nat>
    decreases s.len(),
{
    if s.len() == 0 {
        None
    } else if !(48 <= s[s.len() - 1] <= 57) {
        None
    } else if s.len() == 1 {
        Some((s[0] - 48) as nat)
    } else {
        match spec_parse_decimal(s.drop_last()) {
            Some(v) => Some(v * 10 + (s[s.len() - 1] - 48) as nat),
            None => None,
        }
    }
}

/// Reading back the digits of `n` yields `n`.
pub proof fn lemma_decimal_round_trip(n: nat)
    ensures
        spec_parse_decimal(spec_decimal(n)) == Some(n),
    decreases n,
{
    if n < 10 {
    } else {
        lemma_decimal_round_trip(n / 10);
        let s = spec_decimal(n);
        assert(s.drop_last() =~= spec_decimal(n / 10));
        assert(n / 10 * 10 + n % 10 == n) by {
            vstd::arithmetic::div_mod::lemma_fundamental_div_mod(n as int, 10);
        }
    }
}

/// Every byte of a decimal rendering is a digit, and the rendering is nonempty.
pub proof fn lemma_decimal_digits(n: nat)
    ensures
        spec_decimal(n).len() > 0,
        forall|i: int| 0 <= i < spec_decimal(n).len() ==> 48 <= #[trigger] spec_decimal(n)[i] <= 57,
    decreases n,
{
    if n >= 10 {
        lemma_decimal_digits(n / 10);
    }
}

/// Render `n` in decimal.
pub fn decimal_u64(n: u64) -> (r: Vec<u8>)
    ensures
        r@ == spec_decimal(n as nat),
    decreases n,
{
    if n < 10 {
        let mut r: Vec<u8> = Vec::new();
        r.push(48 + (n as u8));
        proof {
            assert(r@ =~= spec_decimal(n as nat));
        }
        r
    } else {
        let mut r = decimal_u64(n / 10);
        r.push(48 + ((n % 10) as u8));
        r
    }
}

/// Read a digit string as a `u64`; `None` unless `s` is nonempty, all digits,
/// and the value fits.
pub fn parse_decimal_u64(s: &[u8]) -> (r: Option<u64>)
    ensures
        match spec_parse_decimal(s@) {
            Some(v) => r == if v <= u64::MAX {
                Some(v as u64)
            } else {
                None::<u64>
            },
            None => r is None,
        },
{
    if s.len() == 0 {
        return None;
    }
    let mut acc: u64 = 0;
    let mut i: usize = 0;
    let mut overflow = false;
    while i < s.len()
        invariant
            i <= s.len(),
            s.len() > 0,
            i == 0 ==> !overflow && acc == 0,
            i > 0 ==> match spec_parse_decimal(s@.take(i as int)) {
                Some(v) => overflow == (v > u64::MAX) && (!overflow ==> acc == v),
                None => false,
            },
        decreases s.len() - i,
    {
        let b = s[i];
        if b < 48 || b > 57 {
            proof {
                lemma_parse_decimal_bad_digit(s@, i as int);
            }
            return None;
        }
        let d = (b - 48) as u64;
        proof {
            assert(s@.take(i + 1).drop_last() =~= s@.take(i as int));
        }
        if !overflow {
            match acc.checked_mul(10) {
                Some(t) => match t.checked_add(d) {
                    Some(u) => {
                        acc = u;
                    },
                    None => {
                        overflow = true;
                        acc = 0;
                    },
                },
                None => {
                    overflow = true;
                    acc = 0;
                },
            }
        } else {
            proof {
                let v = spec_parse_decimal(s@.take(i as int)) -> Some_0;
                assert(v * 10 + (s@[i as int] - 48) > u64::MAX) by {
                    assert(v * 10 >= v) by (nonlinear_arith)
                        requires
                            v > 0,
                    ;
                }
            }
        }
        i += 1;
    }
    proof {
        assert(s@.take(s@.len() as int) =~= s@);
    }
    if overflow {
        None
    } else {
        Some(acc)
    }
}

/// A non-digit anywhere makes the whole string unreadable.
proof fn lemma_parse_decimal_bad_digit(s: Seq<u8>, i: int)
    requires
        0 <= i < s.len(),
        !(48 <= s[i] <= 57),
    ensures
        spec_parse_decimal(s) is None,
    decreases s.len(),
{
    if s.len() > 0 && i < s.len() - 1 {
        lemma_parse_decimal_bad_digit(s.drop_last(), i);
    }
}

} // verus!
