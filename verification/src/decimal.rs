//! ASCII decimal integers, as the wire protocol and the stream identifiers
//! write them: an optional sign followed by one or more digits.

use vstd::prelude::*;

verus! {

pub open spec fn is_digit(b: u8) -> bool {
    48 <= b <= 57
}

pub open spec fn all_digits(s: Seq<u8>) -> bool {
    forall|i: int| 0 <= i < s.len() ==> is_digit(#[trigger] s[i])
}

/// The number that a run of digits denotes; leading zeros count for nothing.
pub open spec fn digits_value(s: Seq<u8>) -> nat
    decreases s.len(),
{
    if s.len() == 0 {
        0
    } else {
        digits_value(s.drop_last()) * 10 + (s.last() - 48) as nat
    }
}

/// A run of one or more digits, optionally preceded by `+`.
pub open spec fn unsigned_digits(s: Seq<u8>) -> Option<Seq<u8>> {
    let d = if s.len() > 0 && s[0] == 43 {
        s.skip(1)
    } else {
        s
    };
    if d.len() > 0 && all_digits(d) {
        Some(d)
    } else {
        None
    }
}

/// The unsigned 64-bit integer that `s` denotes, if it denotes one.
pub open spec fn spec_parse_u64(s: Seq<u8>) -> Option<u64> {
    match unsigned_digits(s) {
        Some(d) => if digits_value(d) <= u64::MAX {
            Some(digits_value(d) as u64)
        } else {
            None
        },
        None => None,
    }
}

/// The signed 64-bit integer that `s` denotes, if it denotes one.
pub open spec fn spec_parse_i64(s: Seq<u8>) -> Option<i64> {
    if s.len() > 0 && s[0] == 45 {
        let d = s.skip(1);
        if d.len() > 0 && all_digits(d) && digits_value(d) <= 0x8000_0000_0000_0000 {
            Some((-(digits_value(d) as int)) as i64)
        } else {
            None
        }
    } else {
        match unsigned_digits(s) {
            Some(d) => if digits_value(d) <= i64::MAX {
                Some(digits_value(d) as i64)
            } else {
                None
            },
            None => None,
        }
    }
}

/// The shortest run of digits that denotes `n`.
pub open spec fn spec_format_nat(n: nat) -> Seq<u8>
    decreases n,
{
    if n < 10 {
        seq![(48 + n) as u8]
    } else {
        spec_format_nat(n / 10).push((48 + n % 10) as u8)
    }
}

pub open spec fn spec_format_u64(n: u64) -> Seq<u8> {
    spec_format_nat(n as nat)
}

/// Decimal text of a signed integer: `-` before the digits of a negative one.
pub open spec fn spec_format_i64(i: i64) -> Seq<u8> {
    if i < 0 {
        seq![45u8] + spec_format_nat((-(i as int)) as nat)
    } else {
        spec_format_nat(i as nat)
    }
}

pub proof fn lemma_format_nat(n: nat)
    ensures
        spec_format_nat(n).len() >= 1,
        all_digits(spec_format_nat(n)),
        digits_value(spec_format_nat(n)) == n,
    decreases n,
{
    if n < 10 {
        let s = spec_format_nat(n);
        assert(s.drop_last() =~= Seq::<u8>::empty());
        assert(digits_value(s.drop_last()) == 0);
    } else {
        lemma_format_nat(n / 10);
        let p = spec_format_nat(n / 10);
        let s = spec_format_nat(n);
        assert(s.drop_last() =~= p);
        assert(s.last() == (48 + n % 10) as u8);
    }
}

/// The value of a run of digits never shrinks when digits are appended.
pub proof fn lemma_digits_value_prefix(s: Seq<u8>, k: int)
    requires
        0 <= k <= s.len(),
        all_digits(s),
    ensures
        digits_value(s.take(k)) <= digits_value(s),
    decreases s.len() - k,
{
    if k < s.len() {
        lemma_digits_value_prefix(s, k + 1);
        let t = s.take(k + 1);
        assert(t.drop_last() =~= s.take(k));
    } else {
        assert(s.take(k) =~= s);
    }
}

/// Formatting then parsing gives the number back.
pub proof fn lemma_parse_format_u64(n: u64)
    ensures
        spec_parse_u64(spec_format_u64(n)) == Some(n),
{
    lemma_format_nat(n as nat);
}

/// Formatting then parsing gives the number back.
pub proof fn lemma_parse_format_i64(i: i64)
    ensures
        spec_parse_i64(spec_format_i64(i)) == Some(i),
{
    if i < 0 {
        let m = (-(i as int)) as nat;
        lemma_format_nat(m);
        let s = spec_format_i64(i);
        assert(s.skip(1) =~= spec_format_nat(m));
    } else {
        lemma_format_nat(i as nat);
    }
}

/// The text of a number holds neither a carriage return nor a line feed.
pub proof fn lemma_format_i64_plain(i: i64)
    ensures
        forall|k: int| 0 <= k < spec_format_i64(i).len() ==> {
            let b = #[trigger] spec_format_i64(i)[k];
            is_digit(b) || b == 45
        },
        spec_format_i64(i).len() >= 1,
{
    if i < 0 {
        lemma_format_nat((-(i as int)) as nat);
    } else {
        lemma_format_nat(i as nat);
    }
}

/// Reads the digits `s[start..]` as an unsigned number.
fn parse_digits(s: &[u8], start: usize) -> (r: Option<u64>)
    requires
        start <= s@.len(),
    ensures
        r == (if s@.len() > start && all_digits(s@.skip(start as int)) && digits_value(
            s@.skip(start as int),
        ) <= u64::MAX {
            Some(digits_value(s@.skip(start as int)) as u64)
        } else {
            None
        }),
{
    let ghost d = s@.skip(start as int);
    if s.len() == start {
        return None;
    }
    let mut acc: u64 = 0;
    let mut i: usize = start;
    proof {
        assert(d.take(0) =~= Seq::<u8>::empty());
    }
    while i < s.len()
        invariant
            start <= i <= s@.len(),
            d == s@.skip(start as int),
            all_digits(d.take(i - start)),
            acc == digits_value(d.take(i - start)),
        decreases s@.len() - i,
    {
        let b = s[i];
        let ghost next = d.take(i - start + 1);
        proof {
            assert(next.drop_last() =~= d.take(i - start));
            assert(next.last() == b);
            assert(d[i - start] == b);
        }
        if b < 48 || b > 57 {
            assert(!all_digits(d));
            return None;
        }
        let digit: u64 = (b - 48) as u64;
        if acc > (u64::MAX - digit) / 10 {
            proof {
                assert(digits_value(next) > u64::MAX);
                if all_digits(d) {
                    lemma_digits_value_prefix(d, i - start + 1);
                }
            }
            return None;
        }
        acc = acc * 10 + digit;
        i = i + 1;
        proof {
            assert forall|k: int| 0 <= k < next.len() implies is_digit(#[trigger] next[k]) by {
                if k < next.len() - 1 {
                    assert(d.take(i - start - 1)[k] == next[k]);
                }
            }
        }
    }
    proof {
        assert(d.take(i - start) =~= d);
    }
    Some(acc)
}

/// Parses an unsigned 64-bit integer written in decimal.
pub fn parse_u64(s: &[u8]) -> (r: Option<u64>)
    ensures
        r == spec_parse_u64(s@),
{
    let start: usize = if s.len() > 0 && s[0] == 43 {
        1
    } else {
        0
    };
    proof {
        if start == 0 {
            assert(s@.skip(0) =~= s@);
        }
    }
    parse_digits(s, start)
}

/// Parses a signed 64-bit integer written in decimal.
pub fn parse_i64(s: &[u8]) -> (r: Option<i64>)
    ensures
        r == spec_parse_i64(s@),
{
    if s.len() > 0 && s[0] == 45 {
        match parse_digits(s, 1) {
            Some(m) => {
                if m <= 0x7fff_ffff_ffff_ffff {
                    Some(-(m as i64))
                } else if m == 0x8000_0000_0000_0000 {
                    Some(i64::MIN)
                } else {
                    None
                }
            },
            None => None,
        }
    } else {
        match parse_u64(s) {
            Some(m) => {
                if m <= 0x7fff_ffff_ffff_ffff {
                    Some(m as i64)
                } else {
                    None
                }
            },
            None => None,
        }
    }
}

/// Appends the decimal text of `n` to `out`.
pub fn push_u64(out: &mut Vec<u8>, n: u64)
    ensures
        final(out)@ == old(out)@ + spec_format_u64(n),
{
    let mut digits: Vec<u8> = Vec::new();
    let mut rest: u64 = n;
    // Least significant digit first.
    while rest >= 10
        invariant
            spec_format_nat(n as nat) == spec_format_nat(rest as nat) + digits@.reverse(),
        decreases rest,
    {
        let d: u8 = (48 + rest % 10) as u8;
        proof {
            let a = spec_format_nat((rest / 10) as nat);
            assert(spec_format_nat(rest as nat) == a.push(d));
            assert(digits@.push(d).reverse() =~= seq![d] + digits@.reverse());
            assert(a.push(d) + digits@.reverse() =~= a + digits@.push(d).reverse());
        }
        digits.push(d);
        rest = rest / 10;
    }
    let lead: u8 = (48 + rest) as u8;
    out.push(lead);
    let ghost mid = out@;
    let mut k: usize = digits.len();
    while k > 0
        invariant
            k <= digits@.len(),
            out@ == mid + digits@.reverse().take(digits@.len() - k),
        decreases k,
    {
        k = k - 1;
        out.push(digits[k]);
        proof {
            let r = digits@.reverse();
            let j = digits@.len() - k - 1;
            assert(r[j] == digits@[k as int]);
            assert(r.take(j + 1) =~= r.take(j).push(r[j]));
        }
    }
    proof {
        let r = digits@.reverse();
        assert(r.take(digits@.len() as int) =~= r);
        assert(spec_format_nat(rest as nat) =~= seq![lead]);
        assert(out@ =~= old(out)@ + spec_format_u64(n));
    }
}

/// Appends the decimal text of `i` to `out`.
pub fn push_i64(out: &mut Vec<u8>, i: i64)
    ensures
        final(out)@ == old(out)@ + spec_format_i64(i),
{
    if i < 0 {
        out.push(45);
        let m: u64 = if i == i64::MIN {
            0x8000_0000_0000_0000
        } else {
            (-i) as u64
        };
        push_u64(out, m);
        assert(out@ =~= old(out)@ + spec_format_i64(i));
    } else {
        push_u64(out, i as u64);
    }
}

} // verus!
