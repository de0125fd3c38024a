//! Small text helpers for the protocol engine: ASCII decoding of 7-bit
//! payload bytes, decimal rendering for the log, and the hexadecimal
//! value parser used by configuration messages.

use vstd::prelude::*;

use vstd::string::StringExecFns;

verus! {

/// The characters of a run of ASCII bytes, one character per byte.
pub open spec fn ascii_chars(s: Seq<u8>) -> Seq<char> {
    s.map_values(|b: u8| b as char)
}

/// Relies on `String::from_utf8_lossy` (std): bytes below 128 are ASCII
/// and decode to exactly one character each, unchanged.
#[verifier::external_body]
pub fn ascii_string(bytes: &[u8]) -> (r: String)
    requires
        forall|i: int| 0 <= i < bytes@.len() ==> bytes@[i] < 128,
    ensures
        r@ == ascii_chars(bytes@),
{
    String::from_utf8_lossy(bytes).into_owned()
}

/// The ASCII digits of `n` in decimal, most significant first.
pub open spec fn decimal_digits(n: nat) -> Seq<u8>
    decreases n,
{
    if n < 10 {
        seq![(48 + n) as u8]
    } else {
        decimal_digits(n / 10).push((48 + n % 10) as u8)
    }
}

/// `n` rendered in decimal.
pub open spec fn decimal_str(n: nat) -> Seq<char> {
    ascii_chars(decimal_digits(n))
}

/// A signed magnitude rendered in decimal; zero never takes a sign.
pub open spec fn signed_decimal_str(negative: bool, magnitude: nat) -> Seq<char> {
    if negative && magnitude > 0 {
        seq!['-'] + decimal_str(magnitude)
    } else {
        decimal_str(magnitude)
    }
}

proof fn lemma_decimal_digits_ascii(n: nat)
    ensures
        forall|i: int| 0 <= i < decimal_digits(n).len() ==> 48 <= #[trigger] decimal_digits(n)[i]
            < 58,
    decreases n,
{
    if n >= 10 {
        lemma_decimal_digits_ascii(n / 10);
        assert forall|i: int| 0 <= i < decimal_digits(n).len() implies 48
            <= #[trigger] decimal_digits(n)[i] < 58 by {
            if i < decimal_digits(n).len() - 1 {
                assert(decimal_digits(n)[i] == decimal_digits(n / 10)[i]);
            }
        };
    }
}

fn push_decimal(n: u64, out: &mut Vec<u8>)
    ensures
        final(out)@ == old(out)@ + decimal_digits(n as nat),
    decreases n,
{
    if n >= 10 {
        push_decimal(n / 10, out);
    }
    out.push((n % 10) as u8 + 48);
    proof {
        if n >= 10 {
            assert(old(out)@ + decimal_digits((n / 10) as nat).push((48 + n as nat % 10) as u8)
                =~= old(out)@ + decimal_digits(n as nat));
        } else {
            assert(old(out)@ + decimal_digits(n as nat) =~= old(out)@.push((48 + n as nat) as u8));
        }
    }
}

/// Renders `n` in decimal.
pub fn u64_to_string(n: u64) -> (r: String)
    ensures
        r@ == decimal_str(n as nat),
{
    let mut digits: Vec<u8> = Vec::new();
    push_decimal(n, &mut digits);
    proof {
        lemma_decimal_digits_ascii(n as nat);
        assert(digits@ =~= decimal_digits(n as nat));
    }
    ascii_string(digits.as_slice())
}

/// Renders a parsed signed magnitude in decimal.
pub fn signed_to_string(negative: bool, magnitude: u64) -> (r: String)
    ensures
        r@ == signed_decimal_str(negative, magnitude as nat),
{
    let mut digits: Vec<u8> = Vec::new();
    if negative && magnitude > 0 {
        digits.push(45);
    }
    push_decimal(magnitude, &mut digits);
    proof {
        lemma_decimal_digits_ascii(magnitude as nat);
        if negative && magnitude > 0 {
            assert(digits@ =~= seq![45u8] + decimal_digits(magnitude as nat));
            assert(ascii_chars(digits@) =~= seq!['-'] + decimal_str(magnitude as nat));
        } else {
            assert(digits@ =~= decimal_digits(magnitude as nat));
        }
    }
    ascii_string(digits.as_slice())
}

/// A byte sequence rendered as a bracketed decimal list, as the log
/// shows raw frames: "[1, 2, 3]".
pub open spec fn decimal_list(s: Seq<u8>) -> Seq<char>
    decreases s.len(),
{
    if s.len() == 0 {
        "[]"@
    } else {
        "["@ + decimal_list_body(s) + "]"@
    }
}

/// The comma-separated body of a decimal list.
pub open spec fn decimal_list_body(s: Seq<u8>) -> Seq<char>
    decreases s.len(),
{
    if s.len() == 0 {
        Seq::empty()
    } else if s.len() == 1 {
        decimal_str(s[0] as nat)
    } else {
        decimal_str(s[0] as nat) + ", "@ + decimal_list_body(s.skip(1))
    }
}

/// Renders a byte sequence as a bracketed decimal list.
pub fn bytes_to_list_string(bytes: &[u8]) -> (r: String)
    ensures
        r@ == decimal_list(bytes@),
{
    let n = bytes.len();
    let mut out = String::from_str("[");
    let mut i: usize = 0;
    while i < n
        invariant
            n == bytes@.len(),
            i <= n,
            i == 0 ==> out@ == "["@,
            0 < i <= n ==> out@ == "["@ + decimal_list_body(bytes@.take(i as int)),
        decreases n - i,
    {
        if i > 0 {
            out.append(", ");
        }
        let d = u64_to_string(bytes[i] as u64);
        out.append(d.as_str());
        proof {
            lemma_decimal_list_body_snoc(bytes@, i as int);
        }
        i += 1;
    }
    out.append("]");
    proof {
        if n == 0 {
            assert(out@ =~= "[]"@) by {
                reveal_strlit("[");
                reveal_strlit("]");
                reveal_strlit("[]");
            };
        } else {
            assert(bytes@.take(n as int) =~= bytes@);
        }
    }
    out
}

proof fn lemma_decimal_list_body_snoc(s: Seq<u8>, i: int)
    requires
        0 <= i < s.len(),
    ensures
        i == 0 ==> decimal_list_body(s.take(1)) == decimal_str(s[0] as nat),
        i > 0 ==> decimal_list_body(s.take(i + 1)) == decimal_list_body(s.take(i)) + ", "@
            + decimal_str(s[i] as nat),
    decreases i,
{
    if i == 0 {
        assert(s.take(1).len() == 1);
        assert(s.take(1)[0] == s[0]);
    } else {
        lemma_decimal_list_body_snoc(s.skip(1), i - 1);
        let t = s.take(i + 1);
        assert(t.len() >= 2);
        assert(t[0] == s[0]);
        assert(t.skip(1) =~= s.skip(1).take(i));
        assert(s.take(i)[0] == s[0]);
        assert(s.take(i).skip(1) =~= s.skip(1).take(i - 1));
        assert(s.skip(1)[i - 1] == s[i]);
        if i == 1 {
            assert(decimal_list_body(t) == decimal_str(s[0] as nat) + ", "@ + decimal_list_body(
                s.skip(1).take(1),
            ));
            assert(decimal_list_body(s.take(1)) == decimal_str(s[0] as nat));
        } else {
            assert(decimal_list_body(t) == decimal_str(s[0] as nat) + ", "@ + decimal_list_body(
                s.skip(1).take(i),
            ));
            assert(decimal_list_body(s.take(i)) == decimal_str(s[0] as nat) + ", "@
                + decimal_list_body(s.skip(1).take(i - 1)));
            assert(decimal_list_body(s.skip(1).take(i)) == decimal_list_body(s.skip(1).take(i - 1))
                + ", "@ + decimal_str(s.skip(1)[i - 1] as nat));
            assert((decimal_str(s[0] as nat) + ", "@ + (decimal_list_body(s.skip(1).take(i - 1))
                + ", "@ + decimal_str(s[i] as nat))) =~= ((decimal_str(s[0] as nat) + ", "@
                + decimal_list_body(s.skip(1).take(i - 1))) + ", "@ + decimal_str(s[i] as nat)));
        }
    }
}

/// The configuration value was not a valid hexadecimal number.
#[derive(Clone, Copy, Debug, PartialEq, Eq, Structural)]
pub struct HexParseError;

/// The value of one ASCII hexadecimal digit, `None` for any other byte.
pub open spec fn hex_digit_val(b: u8) -> Option<u8> {
    if 48 <= b && b <= 57 {
        Some((b - 48) as u8)
    } else if 97 <= b && b <= 102 {
        Some((b - 87) as u8)
    } else if 65 <= b && b <= 70 {
        Some((b - 55) as u8)
    } else {
        None
    }
}

/// All bytes are hexadecimal digits, and there is at least one.
pub open spec fn hex_digits_valid(s: Seq<u8>) -> bool {
    &&& s.len() > 0
    &&& forall|i: int| 0 <= i < s.len() ==> #[trigger] hex_digit_val(s[i]) is Some
}

/// The unbounded value of a run of hexadecimal digits.
pub open spec fn hex_value(s: Seq<u8>) -> nat
    decreases s.len(),
{
    if s.len() == 0 {
        0
    } else {
        hex_value(s.drop_last()) * 16 + (match hex_digit_val(s.last()) {
            Some(d) => d as nat,
            None => 0,
        })
    }
}

/// The sign and magnitude a hexadecimal string denotes: an optional
/// leading `+` or `-`, then at least one digit; `None` for any other
/// shape.  This is the grammar of `i64::from_str_radix(_, 16)`, before
/// its range check.
pub open spec fn hex_parse_spec(s: Seq<u8>) -> Option<(bool, nat)> {
    if s.len() > 0 && (s[0] == 43 || s[0] == 45) {
        if hex_digits_valid(s.skip(1)) {
            Some((s[0] == 45, hex_value(s.skip(1))))
        } else {
            None
        }
    } else {
        if hex_digits_valid(s) {
            Some((false, hex_value(s)))
        } else {
            None
        }
    }
}

/// The magnitude bound of a signed 64-bit value of the given sign.
pub open spec fn i64_magnitude_bound(negative: bool) -> nat {
    if negative {
        0x8000_0000_0000_0000nat
    } else {
        0x7FFF_FFFF_FFFF_FFFFnat
    }
}

proof fn lemma_hex_value_take_mono(s: Seq<u8>, i: int)
    requires
        0 <= i <= s.len(),
    ensures
        hex_value(s.take(i)) <= hex_value(s),
    decreases s.len() - i,
{
    if i < s.len() {
        lemma_hex_value_take_mono(s, i + 1);
        assert(s.take(i + 1).drop_last() =~= s.take(i));
        assert(hex_value(s.take(i)) <= hex_value(s.take(i + 1)));
    } else {
        assert(s.take(i) =~= s);
    }
}

fn hex_digit(b: u8) -> (r: Option<u8>)
    ensures
        r == hex_digit_val(b),
{
    if 48 <= b && b <= 57 {
        Some(b - 48)
    } else if 97 <= b && b <= 102 {
        Some(b - 87)
    } else if 65 <= b && b <= 70 {
        Some(b - 55)
    } else {
        None
    }
}

/// Parses an ASCII hexadecimal string as a signed 64-bit value, with
/// the grammar and range of `i64::from_str_radix(_, 16)`.  The result
/// is the sign and the magnitude; a magnitude beyond the range of the
/// signed value is an error.
pub fn parse_hex_i64(s: &[u8]) -> (r: Result<(bool, u64), HexParseError>)
    ensures
        match hex_parse_spec(s@) {
            Some((negative, magnitude)) => {
                if magnitude <= i64_magnitude_bound(negative) {
                    r == Ok::<_, HexParseError>((negative, magnitude as u64))
                } else {
                    r == Err::<(bool, u64), _>(HexParseError)
                }
            },
            None => r == Err::<(bool, u64), _>(HexParseError),
        },
{
    let n = s.len();
    let mut start: usize = 0;
    let mut negative = false;
    if n > 0 && (s[0] == 43 || s[0] == 45) {
        negative = s[0] == 45;
        start = 1;
    }
    let ghost digits = s@.skip(start as int);
    proof {
        if start == 0 {
            assert(digits =~= s@);
        }
        assert(hex_parse_spec(s@) == (if hex_digits_valid(digits) {
            Some((negative, hex_value(digits)))
        } else {
            None::<(bool, nat)>
        }));
    }
    if start >= n {
        return Err(HexParseError);
    }
    let limit: u64 = if negative {
        0x8000_0000_0000_0000
    } else {
        0x7FFF_FFFF_FFFF_FFFF
    };
    let mut acc: u64 = 0;
    let mut i: usize = start;
    while i < n
        invariant
            n == s@.len(),
            start <= i <= n,
            start < n,
            digits == s@.skip(start as int),
            limit == i64_magnitude_bound(negative),
            acc <= limit,
            acc == hex_value(digits.take((i - start) as int)),
            forall|j: int| 0 <= j < i - start ==> #[trigger] hex_digit_val(digits[j]) is Some,
            hex_parse_spec(s@) == (if hex_digits_valid(digits) {
                Some((negative, hex_value(digits)))
            } else {
                None::<(bool, nat)>
            }),
        decreases n - i,
    {
        proof {
            assert(digits[(i - start) as int] == s@[i as int]);
        }
        let d = match hex_digit(s[i]) {
            Some(d) => d,
            None => {
                return Err(HexParseError);
            },
        };
        if acc > (limit - (d as u64)) / 16 {
            proof {
                let t = digits.take((i - start + 1) as int);
                assert(t.drop_last() =~= digits.take((i - start) as int));
                assert(t.last() == s@[i as int]);
                assert(hex_value(t) == acc * 16 + d);
                assert(acc * 16 + d > limit) by (nonlinear_arith)
                    requires
                        acc > (limit - (d as u64)) / 16,
                        d <= limit,
                        acc >= 0,
                        d >= 0,
                        limit >= 0,
                ;
                lemma_hex_value_take_mono(digits, (i - start + 1) as int);
                assert(hex_value(digits) > limit);
            }
            return Err(HexParseError);
        }
        proof {
            assert(acc * 16 + d <= limit) by (nonlinear_arith)
                requires
                    acc <= (limit - (d as u64)) / 16,
                    d <= limit,
                    acc >= 0,
                    d >= 0,
                    limit >= 0,
            ;
            let t = digits.take((i - start + 1) as int);
            assert(t.drop_last() =~= digits.take((i - start) as int));
            assert(t.last() == s@[i as int]);
        }
        acc = acc * 16 + (d as u64);
        i += 1;
    }
    proof {
        assert(digits.take((n - start) as int) =~= digits);
        assert(hex_digits_valid(digits));
    }
    Ok((negative, acc))
}

} // verus!
