//! Decimal text: rendering numbers and parsing progress values.
//!
//! Progress travels as a decimal in `[0, 1]` (for example `0.75`) and is
//! held as thousandths of completion; fraction digits past the third are
//! dropped.

use vstd::prelude::*;
use vstd::string::StringSliceAdditionalSpecFns;

verus! {

/// The character for one decimal digit.
pub open spec fn spec_digit_char(d: int) -> char {
    ((48 + d) as u8) as char
}

/// Decimal rendering of a non-negative number, most significant digit
/// first.
pub open spec fn spec_decimal(n: int) -> Seq<char>
    decreases n,
{
    if n < 0 {
        Seq::empty()
    } else if n < 10 {
        seq![spec_digit_char(n)]
    } else {
        spec_decimal(n / 10).push(spec_digit_char(n % 10))
    }
}

fn digit_char(d: u8) -> (r: char)
    requires
        d < 10,
    ensures
        r == spec_digit_char(d as int),
{
    (48 + d) as char
}

/// Relies on String::push: appends exactly the given character.
#[verifier::external_body]
fn push_char(s: &mut String, c: char)
    ensures
        final(s)@ == old(s)@.push(c),
{
    s.push(c);
}

/// Renders a number in decimal.
pub fn u64_to_decimal(n: u64) -> (r: String)
    ensures
        r@ == spec_decimal(n as int),
{
    let mut digits: Vec<char> = Vec::new();
    let mut m: u64 = n;
    loop
        invariant_except_break
            (digits@.len() == 0 && m == n) || (digits@.len() > 0 && m > 0 && spec_decimal(
                n as int,
            ) == spec_decimal(m as int) + digits@.reverse()),
        ensures
            spec_decimal(n as int) == digits@.reverse(),
        decreases m,
    {
        let d: u8 = (m % 10) as u8;
        let c = digit_char(d);
        let ghost before = digits@;
        let ghost m0 = m as int;
        digits.push(c);
        m = m / 10;
        proof {
            assert(digits@.reverse() =~= seq![c] + before.reverse());
            if m0 >= 10 {
                assert(spec_decimal(m0) == spec_decimal(m0 / 10).push(spec_digit_char(m0 % 10)));
                assert(spec_decimal(m0 / 10) + digits@.reverse() =~= spec_decimal(m0)
                    + before.reverse());
                if before.len() == 0 {
                    assert(spec_decimal(n as int) =~= spec_decimal(m0) + before.reverse());
                }
            } else {
                assert(spec_decimal(m0) =~= seq![c]);
                assert(spec_decimal(m0) + before.reverse() =~= digits@.reverse());
                if before.len() == 0 {
                    assert(spec_decimal(n as int) =~= digits@.reverse());
                }
            }
        }
        if m == 0 {
            break;
        }
    }
    let mut out = String::new();
    let mut i: usize = digits.len();
    while i > 0
        invariant
            i <= digits.len(),
            out@ == digits@.subrange(i as int, digits@.len() as int).reverse(),
        decreases i,
    {
        i = i - 1;
        push_char(&mut out, digits[i]);
        proof {
            assert(digits@.subrange(i as int, digits@.len() as int).reverse() =~= digits@.subrange(
                i + 1,
                digits@.len() as int,
            ).reverse().push(digits@[i as int]));
        }
    }
    proof {
        assert(digits@.subrange(0, digits@.len() as int) =~= digits@);
        assert(out@ == digits@.reverse());
    }
    out
}

/// Whether a byte is a decimal digit.
pub open spec fn spec_is_digit(b: u8) -> bool {
    48 <= b <= 57
}

/// Whether every byte is a decimal digit.
pub open spec fn spec_all_digits(s: Seq<u8>) -> bool {
    forall|i: int| 0 <= i < s.len() ==> spec_is_digit(#[trigger] s[i])
}

/// The number a digit string denotes.
pub open spec fn spec_digits_val(s: Seq<u8>) -> int
    decreases s.len(),
{
    if s.len() == 0 {
        0
    } else {
        spec_digits_val(s.drop_last()) * 10 + (s.last() - 48)
    }
}

/// Index of the first occurrence of `b`, or -1 when absent.
pub open spec fn spec_find_byte(s: Seq<u8>, b: u8) -> int
    decreases s.len(),
{
    if s.len() == 0 {
        -1
    } else if s[0] == b {
        0
    } else {
        let r = spec_find_byte(s.drop_first(), b);
        if r == -1 {
            -1
        } else {
            r + 1
        }
    }
}

/// What `spec_find_byte` means position by position.
pub proof fn lemma_find_byte(s: Seq<u8>, b: u8)
    ensures
        spec_find_byte(s, b) == -1 ==> forall|i: int| 0 <= i < s.len() ==> s[i] != b,
        spec_find_byte(s, b) != -1 ==> {
            let k = spec_find_byte(s, b);
            &&& 0 <= k < s.len()
            &&& s[k] == b
            &&& forall|i: int| 0 <= i < k ==> s[i] != b
        },
    decreases s.len(),
{
    if s.len() > 0 && s[0] != b {
        let sub = s.drop_first();
        lemma_find_byte(sub, b);
        let r = spec_find_byte(sub, b);
        if r == -1 {
            assert forall|i: int| 0 <= i < s.len() implies s[i] != b by {
                if i > 0 {
                    assert(sub[i - 1] == s[i]);
                }
            }
        } else {
            let k = spec_find_byte(s, b);
            assert(s[k] == sub[r]);
            assert forall|i: int| 0 <= i < k implies s[i] != b by {
                if i > 0 {
                    assert(sub[i - 1] == s[i]);
                }
            }
        }
    }
}

/// A digit string's value only grows as digits are appended, and is never
/// negative.
proof fn lemma_digits_val_grows(s: Seq<u8>, k: int)
    requires
        0 <= k <= s.len(),
        spec_all_digits(s),
    ensures
        spec_digits_val(s) >= spec_digits_val(s.take(k)),
        spec_digits_val(s) >= 0,
    decreases s.len(),
{
    if s.len() == 0 {
        assert(s.take(k) =~= s);
    } else {
        let sub = s.drop_last();
        assert(spec_all_digits(sub));
        lemma_digits_val_grows(
            sub,
            if k <= sub.len() {
                k
            } else {
                sub.len() as int
            },
        );
        if k == s.len() {
            assert(s.take(k) =~= s);
        } else {
            assert(s.take(k) =~= sub.take(k));
        }
    }
}

/// The fraction digits as thousandths: the first three digits, padded with
/// zeros when fewer are given; later digits are dropped.
pub open spec fn spec_frac_thousandths(fp: Seq<u8>) -> int {
    let f3 = if fp.len() >= 3 {
        fp.take(3)
    } else {
        fp + Seq::new((3 - fp.len()) as nat, |i: int| 48u8)
    };
    spec_digits_val(f3)
}

/// The progress a header value denotes, in thousandths: a decimal
/// `digits[.digits]` no greater than one (measured on the first three
/// fraction digits; the rest are dropped), and `None` for anything else.
pub open spec fn spec_parse_progress(s: Seq<u8>) -> Option<u32> {
    let dot = spec_find_byte(s, 46);
    let ip = if dot == -1 {
        s
    } else {
        s.take(dot)
    };
    let fp = if dot == -1 {
        Seq::<u8>::empty()
    } else {
        s.skip(dot + 1)
    };
    if ip.len() == 0 || !spec_all_digits(ip) || !spec_all_digits(fp) {
        None
    } else {
        let v = spec_digits_val(ip) * 1000 + spec_frac_thousandths(fp);
        if v > 1000 {
            None
        } else {
            Some(v as u32)
        }
    }
}

/// The padded fraction value is never negative.
proof fn lemma_frac_nonneg(fp: Seq<u8>)
    requires
        spec_all_digits(fp),
    ensures
        spec_frac_thousandths(fp) >= 0,
{
    let f3 = if fp.len() >= 3 {
        fp.take(3)
    } else {
        fp + Seq::new((3 - fp.len()) as nat, |i: int| 48u8)
    };
    assert(spec_all_digits(f3));
    lemma_digits_val_grows(f3, 0);
}

/// Parses a progress header value into thousandths of completion.
#[verifier::loop_isolation(false)]
pub fn parse_progress(s: &str) -> (r: Option<u32>)
    ensures
        r == spec_parse_progress(s.spec_bytes()),
        r matches Some(v) ==> v <= 1000,
{
    let b = s.as_bytes();
    let n = b.len();
    proof {
        lemma_find_byte(b@, 46);
    }
    // Find the dot, if any.
    let mut dot: usize = n;
    let mut i: usize = 0;
    while i < n
        invariant
            i <= n,
            dot <= n,
            n == b@.len(),
            dot == n ==> forall|k: int| 0 <= k < i ==> b@[k] != 46,
            dot < n ==> (b@[dot as int] == 46 && forall|k: int| 0 <= k < dot ==> b@[k] != 46),
        decreases n - i,
    {
        if dot == n && b[i] == 46 {
            dot = i;
        }
        i = i + 1;
    }
    let ghost spec_dot = spec_find_byte(b@, 46);
    proof {
        if dot < n {
            assert(spec_dot != -1);
            if spec_dot < dot as int {
                assert(b@[spec_dot] != 46);
            }
            if spec_dot > dot as int {
                assert(b@[dot as int] != 46);
            }
            assert(spec_dot == dot as int);
        } else {
            if spec_dot != -1 {
                assert(b@[spec_dot] != 46);
            }
            assert(spec_dot == -1);
        }
    }
    let ip_end: usize = if dot < n {
        dot
    } else {
        n
    };
    let ghost ip = if spec_dot == -1 {
        b@
    } else {
        b@.take(spec_dot)
    };
    let ghost fp = if spec_dot == -1 {
        Seq::<u8>::empty()
    } else {
        b@.skip(spec_dot + 1)
    };
    proof {
        assert(ip =~= b@.take(ip_end as int));
    }
    if ip_end == 0 {
        return None;
    }
    // Integer part.
    let mut acc: u32 = 0;
    let mut j: usize = 0;
    while j < ip_end
        invariant
            j <= ip_end,
            ip_end <= n == b@.len(),
            ip == b@.take(ip_end as int),
            ip.len() == ip_end,
            acc == spec_digits_val(ip.take(j as int)),
            acc <= 1000,
            spec_all_digits(ip.take(j as int)),
        decreases ip_end - j,
    {
        let c = b[j];
        if c < 48 || c > 57 {
            proof {
                assert(ip[j as int] == b@[j as int]);
                assert(!spec_is_digit(ip[j as int]));
            }
            return None;
        }
        let d: u32 = (c - 48) as u32;
        let next: u32 = acc * 10 + d;
        proof {
            assert(ip.take(j + 1).drop_last() =~= ip.take(j as int));
            assert(ip.take(j + 1).last() == b@[j as int]);
            assert(spec_digits_val(ip.take(j + 1)) == next);
            assert(spec_all_digits(ip.take(j + 1)));
        }
        if next > 1000 {
            proof {
                if spec_all_digits(ip) && spec_all_digits(fp) {
                    lemma_digits_val_grows(ip, j + 1);
                    assert(spec_digits_val(ip) >= next);
                    lemma_frac_nonneg(fp);
                }
            }
            return None;
        }
        acc = next;
        j = j + 1;
    }
    proof {
        assert(ip.take(ip_end as int) =~= ip);
    }
    // Fraction part: every byte must be a digit; the first three carry
    // value.
    let mut frac: u32 = 0;
    let mut seen: usize = 0;
    let fstart: usize = if dot < n {
        dot + 1
    } else {
        n
    };
    proof {
        assert(fp =~= b@.skip(fstart as int));
    }
    let mut k: usize = fstart;
    while k < n
        invariant
            fstart <= k <= n,
            n == b@.len(),
            fp == b@.skip(fstart as int),
            fp.len() == n - fstart,
            seen == if k - fstart <= 3 {
                k - fstart
            } else {
                3int
            },
            spec_all_digits(fp.take(k - fstart)),
            frac == spec_digits_val(fp.take(seen as int)),
            frac <= (if seen == 0 {
                0int
            } else if seen == 1 {
                9int
            } else if seen == 2 {
                99int
            } else {
                999int
            }),
        decreases n - k,
    {
        let c = b[k];
        if c < 48 || c > 57 {
            proof {
                assert(fp[k - fstart] == b@[k as int]);
                assert(!spec_is_digit(fp[k - fstart]));
            }
            return None;
        }
        proof {
            assert(fp.take(k - fstart + 1).drop_last() =~= fp.take(k - fstart));
            assert(fp.take(k - fstart + 1).last() == b@[k as int]);
        }
        if seen < 3 {
            frac = frac * 10 + (c - 48) as u32;
            seen = seen + 1;
            proof {
                assert(fp.take(seen as int) =~= fp.take(k - fstart + 1));
            }
        }
        k = k + 1;
    }
    proof {
        assert(fp.take(n - fstart) =~= fp);
        assert(spec_all_digits(fp));
    }
    // Pad the fraction out to three digits.
    proof {
        assert(fp.take(seen as int) + Seq::new(0nat, |i: int| 48u8) =~= fp.take(seen as int));
    }
    let mut pad: usize = seen;
    while pad < 3
        invariant
            seen <= pad <= 3,
            seen <= fp.len(),
            spec_all_digits(fp),
            frac == spec_digits_val(
                fp.take(seen as int) + Seq::new((pad - seen) as nat, |i: int| 48u8),
            ),
            frac <= (if pad == 0 {
                0int
            } else if pad == 1 {
                9int
            } else if pad == 2 {
                99int
            } else {
                999int
            }),
        decreases 3 - pad,
    {
        proof {
            let cur = fp.take(seen as int) + Seq::new((pad - seen) as nat, |i: int| 48u8);
            let next_seq = fp.take(seen as int) + Seq::new((pad + 1 - seen) as nat, |i: int| 48u8);
            assert(next_seq.drop_last() =~= cur);
            assert(next_seq.last() == 48u8);
        }
        frac = frac * 10;
        pad = pad + 1;
    }
    proof {
        if fp.len() >= 3 {
            assert(fp.take(seen as int) + Seq::new(0nat, |i: int| 48u8) =~= fp.take(3));
        } else {
            assert(fp.take(seen as int) + Seq::new((3 - seen) as nat, |i: int| 48u8) =~= fp
                + Seq::new((3 - fp.len()) as nat, |i: int| 48u8));
        }
        assert(frac == spec_frac_thousandths(fp));
    }
    let v: u32 = acc * 1000 + frac;
    if v > 1000 {
        None
    } else {
        Some(v)
    }
}

} // verus!
