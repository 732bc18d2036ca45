//! Parsing an I2C slave address from command-line text: hexadecimal with
//! a `0x` prefix, or decimal without one. Range checking against the bus
//! limits stays with the caller.

use vstd::prelude::*;
use vstd::string::StringSliceAdditionalSpecFns;

verus! {

/// Numeric value of `b` as a digit for `radix`, or -1 when it is none.
pub open spec fn digit_value(b: u8, radix: int) -> int {
    if 0x30 <= b && b <= 0x39 && b - 0x30 < radix {
        b - 0x30
    } else if radix == 16 && 0x41 <= b && b <= 0x46 {
        b - 0x37
    } else if radix == 16 && 0x61 <= b && b <= 0x66 {
        b - 0x57
    } else {
        -1
    }
}

/// Every byte of `s` is a digit for `radix`.
pub open spec fn all_digits(s: Seq<u8>, radix: int) -> bool {
    forall|i: int| 0 <= i < s.len() ==> digit_value(#[trigger] s[i], radix) >= 0
}

/// The number the digit string denotes, most significant digit first.
pub open spec fn digits_value(s: Seq<u8>, radix: int) -> int
    decreases s.len(),
{
    if s.len() == 0 {
        0
    } else {
        digits_value(s.take(s.len() - 1), radix) * radix + digit_value(s[s.len() - 1], radix)
    }
}

/// An unsigned byte parsed from a digit string: some digits, all valid,
/// value within range.
pub open spec fn spec_parse_u8(s: Seq<u8>, radix: int) -> Option<u8> {
    if s.len() > 0 && all_digits(s, radix) && digits_value(s, radix) <= 255 {
        Some(digits_value(s, radix) as u8)
    } else {
        None
    }
}

/// What `parse_address` returns: a `0x` prefix switches to hexadecimal.
pub open spec fn spec_parse_address(s: Seq<u8>) -> Option<u8> {
    if s.len() >= 2 && s[0] == 0x30 && s[1] == 0x78 {
        spec_parse_u8(s.skip(2), 16)
    } else {
        spec_parse_u8(s, 10)
    }
}

/// Decodes one digit for the given radix.
fn digit_of(b: u8, radix: u32) -> (r: Option<u8>)
    requires
        radix == 10 || radix == 16,
    ensures
        r is Some <==> digit_value(b, radix as int) >= 0,
        r matches Some(d) ==> d as int == digit_value(b, radix as int) && d < 16,
{
    if 0x30 <= b && b <= 0x39 {
        Some(b - 0x30)
    } else if radix == 16 && 0x41 <= b && b <= 0x46 {
        Some(b - 0x37)
    } else if radix == 16 && 0x61 <= b && b <= 0x66 {
        Some(b - 0x57)
    } else {
        None
    }
}

/// Parses the digits of `b` from `start` on as one number for `radix`.
#[verifier::loop_isolation(false)]
fn parse_u8_digits(b: &[u8], start: usize, radix: u32) -> (r: Option<u8>)
    requires
        start <= b@.len(),
        radix == 10 || radix == 16,
    ensures
        r == spec_parse_u8(b@.skip(start as int), radix as int),
{
    let n: usize = b.len();
    if n == start {
        return None;
    }
    let ghost s = b@.skip(start as int);
    let mut acc: u32 = 0;
    let mut i: usize = start;
    proof {
        assert(s.take(0) =~= Seq::<u8>::empty());
    }
    while i < n
        invariant
            start <= i <= n,
            n == b@.len(),
            s == b@.skip(start as int),
            acc <= 0x10000F,
            all_digits(s.take(i - start), radix as int),
            digits_value(s.take(i - start), radix as int) <= 255 ==> acc as int == digits_value(
                s.take(i - start),
                radix as int,
            ),
            digits_value(s.take(i - start), radix as int) > 255 ==> acc > 255,
            digits_value(s.take(i - start), radix as int) >= 0,
        decreases n - i,
    {
        let d = match digit_of(b[i], radix) {
            Some(d) => d,
            None => {
                proof {
                    assert(s[i - start] == b@[i as int]);
                }
                return None;
            },
        };
        proof {
            assert(s[i - start] == b@[i as int]);
            let p = s.take(i - start);
            let q = s.take(i + 1 - start);
            assert(q.take(q.len() - 1) =~= p);
            assert(q[q.len() - 1] == s[i - start]);
            assert(digits_value(q, radix as int) == digits_value(p, radix as int) * radix
                + digit_value(s[i - start], radix as int));
            if digits_value(p, radix as int) > 255 {
                assert(digits_value(p, radix as int) * radix >= digits_value(p, radix as int))
                    by (nonlinear_arith)
                    requires
                        digits_value(p, radix as int) >= 0,
                        radix >= 1,
                ;
            }
            assert forall|j: int| 0 <= j < q.len() implies digit_value(
                #[trigger] q[j],
                radix as int,
            ) >= 0 by {
                if j < p.len() {
                    assert(q[j] == p[j]);
                }
            }
        }
        if acc <= 0xFFFF {
            acc = acc * radix + d as u32;
        }
        i = i + 1;
    }
    proof {
        assert(s.take(n - start) =~= s);
    }
    if acc <= 255 {
        Some(acc as u8)
    } else {
        None
    }
}

/// Parses an I2C address: `0x`-prefixed hexadecimal or plain decimal.
/// `None` when the text is empty, holds a non-digit, or names a value
/// past 255.
pub fn parse_address(s: &str) -> (r: Option<u8>)
    ensures
        r == spec_parse_address(s.spec_bytes()),
{
    let b: &[u8] = s.as_bytes();
    if b.len() >= 2 && b[0] == 0x30 && b[1] == 0x78 {
        parse_u8_digits(b, 2, 16)
    } else {
        proof {
            assert(b@.skip(0) =~= b@);
        }
        parse_u8_digits(b, 0, 10)
    }
}

} // verus!
