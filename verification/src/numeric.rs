//! Numbers as text: parsing signed decimal integers from input lines, and
//! rendering stack values for the output channel.
//!
//! An integer literal is an optional `+` or `-` sign followed by one or
//! more ASCII digits, and must fit in a signed 64-bit value — the same
//! shape `str::parse::<i64>` accepts.  Output renders a value in decimal,
//! and a character code of 0 through 255 as the UTF-8 bytes of the
//! corresponding Latin-1 character.

use vstd::prelude::*;

verus! {

/// An ASCII decimal digit.
pub open spec fn is_digit_char(c: char) -> bool {
    48 <= c as u32 <= 57
}

/// The numeric value of an ASCII digit.
pub open spec fn digit_code(c: char) -> int {
    c as u32 - 48
}

pub open spec fn all_digits(s: Seq<char>) -> bool {
    forall|i: int| 0 <= i < s.len() ==> is_digit_char(#[trigger] s[i])
}

/// The value of a digit string read in base 10.
pub open spec fn digits_val(s: Seq<char>) -> int
    decreases s.len(),
{
    if s.len() == 0 {
        0
    } else {
        digits_val(s.drop_last()) * 10 + digit_code(s.last())
    }
}

/// The mathematical value of an integer literal: an optional sign, then
/// at least one digit.  `None` when `s` has any other shape.
pub open spec fn int_literal_value(s: Seq<char>) -> Option<int> {
    if s.len() == 0 {
        None
    } else {
        let has_sign = s[0] == '+' || s[0] == '-';
        let digits = if has_sign {
            s.drop_first()
        } else {
            s
        };
        if digits.len() > 0 && all_digits(digits) {
            Some(
                if s[0] == '-' {
                    -digits_val(digits)
                } else {
                    digits_val(digits)
                },
            )
        } else {
            None
        }
    }
}

/// What `str::parse::<i64>` returns on `s`: the literal's value when it
/// exists and fits in a signed 64-bit integer, `None` otherwise.
pub open spec fn parse_i64_spec(s: Seq<char>) -> Option<i64> {
    match int_literal_value(s) {
        Some(val) => if i64::MIN <= val <= i64::MAX {
            Some(val as i64)
        } else {
            None
        },
        None => None,
    }
}

pub proof fn lemma_digits_val_nonneg(s: Seq<char>)
    requires
        all_digits(s),
    ensures
        digits_val(s) >= 0,
    decreases s.len(),
{
    if s.len() == 0 {
    } else {
        assert forall|i: int| 0 <= i < s.drop_last().len() implies is_digit_char(
            #[trigger] s.drop_last()[i],
        ) by {
            assert(s.drop_last()[i] == s[i]);
        }
        lemma_digits_val_nonneg(s.drop_last());
        assert(is_digit_char(s[s.len() - 1]));
    }
}

/// Appending digits never shrinks the value of a digit string.
pub proof fn lemma_digits_val_prefix_le(s: Seq<char>, i: int)
    requires
        all_digits(s),
        0 <= i <= s.len(),
    ensures
        digits_val(s.take(i)) <= digits_val(s),
    decreases s.len() - i,
{
    if i == s.len() {
        assert(s.take(i) =~= s);
    } else {
        assert(s.take(i + 1).drop_last() =~= s.take(i));
        assert(s.take(i + 1).last() == s[i]);
        assert forall|k: int| 0 <= k < s.take(i).len() implies is_digit_char(
            #[trigger] s.take(i)[k],
        ) by {
            assert(s.take(i)[k] == s[k]);
        }
        lemma_digits_val_nonneg(s.take(i));
        assert(is_digit_char(s[i]));
        assert(digits_val(s.take(i + 1)) == digits_val(s.take(i)) * 10 + digit_code(s[i]));
        assert(digits_val(s.take(i)) <= digits_val(s.take(i + 1)));
        lemma_digits_val_prefix_le(s, i + 1);
    }
}

/// Parse a signed 64-bit integer, exactly as `str::parse::<i64>` would.
pub fn parse_int_chars(v: &Vec<char>) -> (r: Option<i64>)
    ensures
        r == parse_i64_spec(v@),
{
    let ghost s = v@;
    if v.len() == 0 {
        return None;
    }
    let c0 = v[0];
    let neg = c0 == '-';
    let has_sign = c0 == '-' || c0 == '+';
    let start: usize = if has_sign {
        1
    } else {
        0
    };
    let ghost digits = s.subrange(start as int, s.len() as int);
    proof {
        if has_sign {
            assert(digits =~= s.drop_first());
        } else {
            assert(digits =~= s);
        }
    }
    if start == v.len() {
        // a bare sign has no digits
        return None;
    }
    let mut acc: u128 = 0;
    let mut i: usize = start;
    while i < v.len()
        invariant
            start as int <= i as int <= v.len(),
            (start as int) < v.len(),
            s == v@,
            s.len() > 0,
            has_sign == (s[0] == '+' || s[0] == '-'),
            neg == (s[0] == '-'),
            start == if has_sign {
                1usize
            } else {
                0usize
            },
            digits == s.subrange(start as int, s.len() as int),
            all_digits(s.subrange(start as int, i as int)),
            acc == digits_val(s.subrange(start as int, i as int)),
            acc <= 0x8000_0000_0000_0000,
        decreases v.len() - i,
    {
        let code = v[i] as u32;
        if code < 48 || code > 57 {
            proof {
                if has_sign {
                    assert(digits =~= s.drop_first());
                } else {
                    assert(digits =~= s);
                }
                assert(digits[i - start] == s[i as int]);
                assert(!is_digit_char(digits[i - start]));
            }
            return None;
        }
        let d = (code - 48) as u128;
        let new_acc = acc * 10 + d;
        proof {
            let prefix = s.subrange(start as int, i as int + 1);
            assert(prefix.drop_last() =~= s.subrange(start as int, i as int));
            assert(prefix.last() == s[i as int]);
            assert(new_acc == digits_val(prefix));
            assert forall|k: int| 0 <= k < prefix.len() implies is_digit_char(
                #[trigger] prefix[k],
            ) by {
                if k < prefix.len() - 1 {
                    assert(prefix[k] == s.subrange(start as int, i as int)[k]);
                }
            }
        }
        if new_acc > 0x8000_0000_0000_0000 {
            proof {
                let prefix = s.subrange(start as int, i as int + 1);
                if has_sign {
                    assert(digits =~= s.drop_first());
                } else {
                    assert(digits =~= s);
                }
                if int_literal_value(s) is Some {
                    assert(all_digits(digits));
                    assert(prefix =~= digits.take(i as int + 1 - start));
                    lemma_digits_val_prefix_le(digits, i as int + 1 - start);
                    assert(digits_val(digits) > 0x8000_0000_0000_0000);
                }
            }
            return None;
        }
        acc = new_acc;
        i += 1;
    }
    proof {
        assert(s.subrange(start as int, v.len() as int) =~= digits);
        assert(digits.len() > 0);
        assert(int_literal_value(s) == Some(
            if neg {
                -digits_val(digits)
            } else {
                digits_val(digits)
            },
        ));
    }
    if neg {
        if acc == 0x8000_0000_0000_0000 {
            Some(i64::MIN)
        } else {
            Some(-(acc as i64))
        }
    } else {
        if acc == 0x8000_0000_0000_0000 {
            None
        } else {
            Some(acc as i64)
        }
    }
}

/// The ASCII digits of `n` in base 10, most significant first.
pub open spec fn dec_digits(n: nat) -> Seq<u8>
    decreases n,
{
    if n < 10 {
        seq![(48 + n) as u8]
    } else {
        dec_digits(n / 10) + seq![(48 + n % 10) as u8]
    }
}

/// The decimal rendering of `v`: a `-` sign when negative, then digits.
pub open spec fn dec_bytes(v: i64) -> Seq<u8> {
    if v < 0 {
        seq![45u8] + dec_digits((-(v as int)) as nat)
    } else {
        dec_digits(v as nat)
    }
}

proof fn lemma_reverse_push(s: Seq<u8>, x: u8)
    ensures
        s.push(x).reverse() =~= seq![x] + s.reverse(),
{
}

/// Append the decimal rendering of `v` to the output bytes.
pub fn push_decimal(out: &mut Vec<u8>, v: i64)
    ensures
        final(out)@ == old(out)@ + dec_bytes(v),
{
    let ghost base = old(out)@;
    let neg = v < 0;
    let mut m: u64 = if v == i64::MIN {
        9223372036854775808u64
    } else if v < 0 {
        (-v) as u64
    } else {
        v as u64
    };
    let ghost m0 = m;
    let ghost sign_seq: Seq<u8> = if neg {
        seq![45u8]
    } else {
        Seq::empty()
    };
    if neg {
        out.push(45u8);
    }
    proof {
        assert(out@ =~= base + sign_seq);
        assert(dec_bytes(v) =~= sign_seq + dec_digits(m0 as nat));
    }
    let mut tmp: Vec<u8> = Vec::new();
    loop
        invariant_except_break
            (tmp@.len() == 0 && m == m0) || (m > 0 && dec_digits(m0 as nat) == dec_digits(m as nat)
                + tmp@.reverse()),
        ensures
            dec_digits(m0 as nat) == tmp@.reverse(),
        decreases m,
    {
        let ghost m_at_entry = m;
        let ghost tmp_before = tmp@;
        let d = (m % 10) as u8;
        let b = 48 + d;
        tmp.push(b);
        proof {
            lemma_reverse_push(tmp_before, b);
        }
        let next = m / 10;
        if next == 0 {
            proof {
                assert(m_at_entry < 10);
                assert(dec_digits(m_at_entry as nat) =~= seq![b]);
                if tmp_before.len() == 0 {
                    assert(tmp@.reverse() =~= seq![b] + tmp_before.reverse());
                    assert(tmp_before.reverse() =~= Seq::<u8>::empty());
                    assert(dec_digits(m0 as nat) =~= tmp@.reverse());
                } else {
                    assert(dec_digits(m0 as nat) =~= dec_digits(m_at_entry as nat)
                        + tmp_before.reverse());
                    assert(dec_digits(m0 as nat) =~= tmp@.reverse());
                }
            }
            break;
        }
        proof {
            assert(m_at_entry >= 10);
            assert(dec_digits(m_at_entry as nat) =~= dec_digits((m_at_entry / 10) as nat) + seq![b]);
            if tmp_before.len() == 0 {
                assert(dec_digits(m0 as nat) =~= dec_digits((m_at_entry / 10) as nat)
                    + tmp@.reverse());
            } else {
                assert(dec_digits(m0 as nat) =~= (dec_digits((m_at_entry / 10) as nat) + seq![b]) + tmp_before.reverse());
                assert((dec_digits((m_at_entry / 10) as nat) + seq![b]) + tmp_before.reverse()
                    =~= dec_digits((m_at_entry / 10) as nat) + tmp@.reverse());
            }
        }
        m = next;
    }
    let mut j: usize = 0;
    while j < tmp.len()
        invariant
            j <= tmp@.len(),
            dec_digits(m0 as nat) == tmp@.reverse(),
            out@ == base + sign_seq + tmp@.reverse().take(j as int),
        decreases tmp.len() - j,
    {
        out.push(tmp[tmp.len() - 1 - j]);
        proof {
            assert(tmp@.reverse()[j as int] == tmp@[tmp@.len() - 1 - j]);
            assert(out@ =~= base + sign_seq + tmp@.reverse().take(j as int + 1));
        }
        j += 1;
    }
    proof {
        assert(tmp@.reverse().take(tmp@.len() as int) =~= tmp@.reverse());
        assert(out@ =~= base + dec_bytes(v));
    }
}

/// The UTF-8 bytes of the character with code `v`, for codes 0 through
/// 255: one byte below 128, two bytes above.
pub open spec fn latin1_bytes(v: int) -> Seq<u8> {
    if v < 128 {
        seq![v as u8]
    } else {
        seq![(192 + v / 64) as u8, (128 + v % 64) as u8]
    }
}

/// Append the UTF-8 bytes of character code `v` to the output bytes.
pub fn push_latin1(out: &mut Vec<u8>, v: i64)
    requires
        0 <= v <= 255,
    ensures
        final(out)@ == old(out)@ + latin1_bytes(v as int),
{
    if v < 128 {
        out.push(v as u8);
        proof {
            assert(out@ =~= old(out)@ + latin1_bytes(v as int));
        }
    } else {
        let u = v as u64;
        out.push((192 + u / 64) as u8);
        out.push((128 + u % 64) as u8);
        proof {
            assert(u / 64 == v as int / 64);
            assert(u % 64 == v as int % 64);
            assert(out@ =~= old(out)@ + latin1_bytes(v as int));
        }
    }
}

} // verus!
