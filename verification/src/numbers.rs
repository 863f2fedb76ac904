//! Decimal and hexadecimal text of integers, and their parsing.
use vstd::prelude::*;

verus! {

/// The ASCII digit character of `d` (0..=9).
pub open spec fn digit_char(d: int) -> char {
    ((0x30 + d) as u8) as char
}

/// The decimal text of `n`, without leading zeros (`"0"` for zero).
pub open spec fn decimal(n: nat) -> Seq<char>
    decreases n,
{
    if n < 10 {
        seq![digit_char(n as int)]
    } else {
        decimal(n / 10).push(digit_char((n % 10) as int))
    }
}

/// The decimal text of a signed `n`: a `-` before the magnitude of a
/// negative number.
pub open spec fn signed_decimal(n: int) -> Seq<char> {
    if n < 0 {
        seq!['-'] + decimal((-n) as nat)
    } else {
        decimal(n as nat)
    }
}

/// Appends the decimal text of `n`.
pub fn push_decimal(out: &mut Vec<char>, n: u64)
    ensures
        final(out)@ == old(out)@ + decimal(n as nat),
    decreases n,
{
    if n < 10 {
        out.push(((0x30u8 + n as u8) as char));
    } else {
        push_decimal(out, n / 10);
        out.push(((0x30u8 + (n % 10) as u8) as char));
    }
}

/// Appends the decimal text of a signed `n`.
pub fn push_signed_decimal(out: &mut Vec<char>, n: i64)
    ensures
        final(out)@ == old(out)@ + signed_decimal(n as int),
{
    if n < 0 {
        out.push('-');
        let m: i128 = -(n as i128);
        let ghost before = out@;
        push_decimal(out, m as u64);
        assert(out@ =~= old(out)@ + (seq!['-'] + decimal((-n) as nat)));
    } else {
        push_decimal(out, n as u64);
    }
}

/// The value of the decimal digits `s` (every byte an ASCII digit).
pub open spec fn digits_value(s: Seq<u8>) -> nat
    decreases s.len(),
{
    if s.len() == 0 {
        0
    } else {
        digits_value(s.drop_last()) * 10 + (s.last() - 0x30) as nat
    }
}

/// The value of one hexadecimal digit (`0-9`, `a-f`, `A-F`), if it is one.
pub open spec fn hex_digit(c: char) -> Option<nat> {
    if '0' <= c && c <= '9' {
        Some((c as u32 - 0x30) as nat)
    } else if 'a' <= c && c <= 'f' {
        Some((c as u32 - 0x61 + 10) as nat)
    } else if 'A' <= c && c <= 'F' {
        Some((c as u32 - 0x41 + 10) as nat)
    } else {
        None
    }
}

/// The value of the hexadecimal digits `s`, if every one is a digit.
pub open spec fn hex_value(s: Seq<char>) -> Option<nat>
    decreases s.len(),
{
    if s.len() == 0 {
        Some(0)
    } else {
        match (hex_value(s.drop_last()), hex_digit(s.last())) {
            (Some(v), Some(d)) => Some(v * 16 + d),
            _ => None,
        }
    }
}

/// What `u64::from_str_radix(s, 16)` accepts: an optional `+`, then at
/// least one hexadecimal digit, with a value that fits in 64 bits.
pub open spec fn parse_hex_u64(s: Seq<char>) -> Option<u64> {
    let body = if s.len() > 0 && s[0] == '+' {
        s.drop_first()
    } else {
        s
    };
    if body.len() == 0 {
        None
    } else {
        match hex_value(body) {
            Some(v) => if v <= u64::MAX {
                Some(v as u64)
            } else {
                None
            },
            None => None,
        }
    }
}

/// The value of the decimal digits `s`, if every one is a digit.
pub open spec fn dec_value(s: Seq<char>) -> Option<nat>
    decreases s.len(),
{
    if s.len() == 0 {
        Some(0)
    } else {
        match dec_value(s.drop_last()) {
            Some(v) => if '0' <= s.last() && s.last() <= '9' {
                Some(v * 10 + (s.last() as u32 - 0x30) as nat)
            } else {
                None
            },
            None => None,
        }
    }
}

/// What `str::parse::<i64>` accepts: an optional sign, then at least one
/// decimal digit, with a value in the `i64` range.
pub open spec fn parse_i64(s: Seq<char>) -> Option<i64> {
    let neg = s.len() > 0 && s[0] == '-';
    let body = if s.len() > 0 && (s[0] == '+' || s[0] == '-') {
        s.drop_first()
    } else {
        s
    };
    if body.len() == 0 {
        None
    } else {
        match dec_value(body) {
            Some(v) => {
                let x: int = if neg {
                    -(v as int)
                } else {
                    v as int
                };
                if i64::MIN <= x && x <= i64::MAX {
                    Some(x as i64)
                } else {
                    None
                }
            },
            None => None,
        }
    }
}

proof fn lemma_hex_value_monotone(s: Seq<char>, k: int)
    requires
        0 <= k <= s.len(),
        hex_value(s) is Some,
    ensures
        hex_value(s.take(k)) is Some,
        hex_value(s.take(k))->0 <= hex_value(s)->0,
    decreases s.len() - k,
{
    if k < s.len() {
        assert(s.drop_last().take(k) =~= s.take(k)) by {
            if k <= s.len() - 1 {
            }
        }
        if k == s.len() - 1 {
            assert(s.take(k) =~= s.drop_last());
        } else {
            lemma_hex_value_monotone(s.drop_last(), k);
        }
        assert(hex_value(s)->0 >= hex_value(s.drop_last())->0) by (nonlinear_arith)
            requires
                hex_value(s)->0 == hex_value(s.drop_last())->0 * 16 + hex_digit(s.last())->0,
        ;
    } else {
        assert(s.take(k) =~= s);
    }
}

/// `u64::from_str_radix(s, 16)`, as `parse_hex_u64` specifies it.
pub fn parse_hex_u64_exec(s: &str) -> (r: Option<u64>)
    ensures
        r == parse_hex_u64(s@),
{
    let v = crate::chars::chars_of(s);
    let mut i: usize = 0;
    if v.len() > 0 && v[0] == '+' {
        i = 1;
    }
    let ghost body = if v@.len() > 0 && v@[0] == '+' {
        v@.drop_first()
    } else {
        v@
    };
    assert(body =~= v@.skip(i as int));
    if i == v.len() {
        return None;
    }
    let start = i;
    let mut acc: u64 = 0;
    assert(body.take(0) =~= Seq::<char>::empty());
    while i < v.len()
        invariant
            start <= i <= v@.len(),
            body == v@.skip(start as int),
            v@ == s@,
            body == (if s@.len() > 0 && s@[0] == '+' {
                s@.drop_first()
            } else {
                s@
            }),
            body.len() > 0,
            hex_value(body.take(i - start)) == Some(acc as nat),
        decreases v@.len() - i,
    {
        let c = v[i];
        let d: u64 = if '0' <= c && c <= '9' {
            c as u64 - 0x30
        } else if 'a' <= c && c <= 'f' {
            c as u64 - 0x61 + 10
        } else if 'A' <= c && c <= 'F' {
            c as u64 - 0x41 + 10
        } else {
            proof {
                assert(body.take(i - start + 1).drop_last() =~= body.take(i - start));
                assert(body.take(i - start + 1).last() == c);
                assert(hex_value(body.take(i - start + 1)) is None);
                if hex_value(body) is Some {
                    lemma_hex_value_monotone(body, i - start + 1);
                }
            }
            return None;
        };
        assert(body.take(i - start + 1).drop_last() =~= body.take(i - start));
        assert(body.take(i - start + 1).last() == c);
        assert(hex_value(body.take(i - start + 1)) == Some((acc * 16 + d) as nat));
        if acc > (u64::MAX - d) / 16 {
            proof {
                assert(acc * 16 + d > u64::MAX) by (nonlinear_arith)
                    requires
                        acc > (u64::MAX - d) / 16,
                        d < 16,
                ;
                if hex_value(body) is Some {
                    lemma_hex_value_monotone(body, i - start + 1);
                }
            }
            return None;
        }
        assert(acc * 16 + d <= u64::MAX) by (nonlinear_arith)
            requires
                acc <= (u64::MAX - d) / 16,
                d < 16,
        ;
        acc = acc * 16 + d;
        i += 1;
    }
    assert(body.take(i - start) =~= body);
    Some(acc)
}

proof fn lemma_dec_value_monotone(s: Seq<char>, k: int)
    requires
        0 <= k <= s.len(),
        dec_value(s) is Some,
    ensures
        dec_value(s.take(k)) is Some,
        dec_value(s.take(k))->0 <= dec_value(s)->0,
    decreases s.len() - k,
{
    if k < s.len() {
        if k == s.len() - 1 {
            assert(s.take(k) =~= s.drop_last());
        } else {
            assert(s.drop_last().take(k) =~= s.take(k));
            lemma_dec_value_monotone(s.drop_last(), k);
        }
    } else {
        assert(s.take(k) =~= s);
    }
}

/// `str::parse::<i64>`, as `parse_i64` specifies it.
pub fn parse_i64_exec(s: &str) -> (r: Option<i64>)
    ensures
        r == parse_i64(s@),
{
    let v = crate::chars::chars_of(s);
    let neg = v.len() > 0 && v[0] == '-';
    let mut i: usize = 0;
    if v.len() > 0 && (v[0] == '+' || v[0] == '-') {
        i = 1;
    }
    let ghost body = if v@.len() > 0 && (v@[0] == '+' || v@[0] == '-') {
        v@.drop_first()
    } else {
        v@
    };
    assert(body =~= v@.skip(i as int));
    if i == v.len() {
        return None;
    }
    let start = i;
    // Magnitude so far; the largest accepted magnitude is 2^63 (for `-`).
    let mut acc: u64 = 0;
    let limit: u64 = if neg {
        0x8000_0000_0000_0000u64
    } else {
        0x7fff_ffff_ffff_ffffu64
    };
    assert(body.take(0) =~= Seq::<char>::empty());
    while i < v.len()
        invariant
            start <= i <= v@.len(),
            body == v@.skip(start as int),
            v@ == s@,
            body == (if s@.len() > 0 && (s@[0] == '+' || s@[0] == '-') {
                s@.drop_first()
            } else {
                s@
            }),
            body.len() > 0,
            neg == (s@.len() > 0 && s@[0] == '-'),
            acc <= limit,
            limit == (if neg {
                0x8000_0000_0000_0000u64
            } else {
                0x7fff_ffff_ffff_ffffu64
            }),
            dec_value(body.take(i - start)) == Some(acc as nat),
        decreases v@.len() - i,
    {
        let c = v[i];
        assert(body.take(i - start + 1).drop_last() =~= body.take(i - start));
        assert(body.take(i - start + 1).last() == c);
        if !('0' <= c && c <= '9') {
            proof {
                assert(dec_value(body.take(i - start + 1)) is None);
                if dec_value(body) is Some {
                    lemma_dec_value_monotone(body, i - start + 1);
                }
            }
            return None;
        }
        let d: u64 = c as u64 - 0x30;
        if acc > (limit - d) / 10 {
            proof {
                assert(acc * 10 + d > limit) by (nonlinear_arith)
                    requires
                        acc > (limit - d) / 10,
                        d < 10,
                ;
                assert(dec_value(body.take(i - start + 1)) == Some((acc * 10 + d) as nat));
                if dec_value(body) is Some {
                    lemma_dec_value_monotone(body, i - start + 1);
                }
            }
            return None;
        }
        assert(acc * 10 + d <= limit) by (nonlinear_arith)
            requires
                acc <= (limit - d) / 10,
                d < 10,
        ;
        acc = acc * 10 + d;
        i += 1;
    }
    assert(body.take(i - start) =~= body);
    if neg {
        if acc == 0x8000_0000_0000_0000u64 {
            Some(i64::MIN)
        } else {
            Some(-(acc as i64))
        }
    } else {
        Some(acc as i64)
    }
}

/// The `n`-digit lowercase hexadecimal text of the low `4 * n` bits of
/// `v`, zero padded (`format!("{:0n$x}")` for values that fit).
pub open spec fn hex_digits(v: nat, n: nat) -> Seq<char>
    decreases n,
{
    if n == 0 {
        Seq::empty()
    } else {
        hex_digits(v / 16, (n - 1) as nat).push(hex_char((v % 16) as int))
    }
}

/// The lowercase hexadecimal digit of `d` (0..=15).
pub open spec fn hex_char(d: int) -> char {
    if d < 10 {
        ((0x30 + d) as u8) as char
    } else {
        ((0x61 + d - 10) as u8) as char
    }
}

/// Appends the `n` low hexadecimal digits of `v`, zero padded.
pub fn push_hex_digits(out: &mut Vec<char>, v: u64, n: usize)
    ensures
        final(out)@ == old(out)@ + hex_digits(v as nat, n as nat),
    decreases n,
{
    if n > 0 {
        push_hex_digits(out, v / 16, n - 1);
        let d = v % 16;
        let c = if d < 10 {
            ((0x30u8 + d as u8) as char)
        } else {
            ((0x61u8 + (d as u8 - 10)) as char)
        };
        out.push(c);
    }
}

} // verus!
