//! Rendering integers as digit strings and reading them back.
use crate::bigint::{limbs_value, BigInt};
use vstd::arithmetic::div_mod::{
    lemma_div_decreases, lemma_fundamental_div_mod, lemma_fundamental_div_mod_converse,
    lemma_mod_bound, lemma_small_mod,
};
use vstd::prelude::*;
use vstd::string::StrSliceExecFns;

verus! {

/// The character of digit `d` (below 36): `0`-`9`, then `a`-`z`.
pub open spec fn digit_char(d: nat) -> char {
    if d < 10 {
        ((d + 48) as u8) as char
    } else {
        ((d + 87) as u8) as char
    }
}

/// The digits of `n` in base `b`, most significant first, with no leading zero.
pub open spec fn radix_digits(n: nat, b: nat) -> Seq<char>
    recommends
        b >= 2,
    decreases n,
    via radix_digits_decreases
{
    if b < 2 || n < b {
        seq![digit_char(n % 36)]
    } else {
        radix_digits(n / b, b).push(digit_char(n % b))
    }
}

#[via_fn]
proof fn radix_digits_decreases(n: nat, b: nat) {
    if !(b < 2 || n < b) {
        lemma_div_decreases(n as int, b as int);
    }
}

/// `v` written in base `b`, with a leading `-` where it is negative.
pub open spec fn radix_text(v: int, b: nat) -> Seq<char> {
    if v < 0 {
        seq!['-'] + radix_digits((-v) as nat, b)
    } else {
        radix_digits(v as nat, b)
    }
}

/// Relies on `String::push`, which appends one character.
#[verifier::external_body]
fn push_char(s: &mut String, c: char)
    ensures
        final(s)@ == old(s)@.push(c),
{
    s.push(c);
}

fn digit(d: u32) -> (c: char)
    requires
        d < 36,
    ensures
        c == digit_char(d as nat),
{
    if d < 10 {
        ((d + 48) as u8) as char
    } else {
        ((d + 87) as u8) as char
    }
}

fn push_u128_digits(s: &mut String, n: u128, b: u32)
    requires
        2 <= b <= 36,
    ensures
        final(s)@ == old(s)@ + radix_digits(n as nat, b as nat),
    decreases n,
{
    let bb: u128 = b as u128;
    if n >= bb {
        proof {
            lemma_div_decreases(n as int, bb as int);
        }
        push_u128_digits(s, n / bb, b);
    }
    proof {
        lemma_mod_bound(n as int, bb as int);
    }
    push_char(s, digit((n % bb) as u32));
    proof {
        if n < bb {
            assert(n as nat % 36 == n as nat);
            lemma_small_mod(n as nat, b as nat);
        }
    }
}

/// `v` written in base `base`.
pub fn i128_to_string_radix(v: i128, base: u32) -> (r: String)
    requires
        2 <= base <= 36,
    ensures
        r@ == radix_text(v as int, base as nat),
{
    let mut s = String::new();
    let mag: u128 = if v < 0 {
        push_char(&mut s, '-');
        ((-(v + 1)) as u128) + 1
    } else {
        v as u128
    };
    push_u128_digits(&mut s, mag, base);
    proof {
        if v < 0 {
            assert(s@ =~= seq!['-'] + radix_digits((-v) as nat, base as nat));
        } else {
            assert(s@ =~= radix_digits(v as nat, base as nat));
        }
    }
    s
}

/// A sequence of limbs is worth zero exactly when every limb is zero.
proof fn lemma_limbs_zero(s: Seq<u32>)
    ensures
        (limbs_value(s) == 0) == (forall|i: int| 0 <= i < s.len() ==> s[i] == 0),
    decreases s.len(),
{
    if s.len() > 0 {
        let d = s.drop_last();
        lemma_limbs_zero(d);
        assert(limbs_value(s) == limbs_value(d) * 4294967296 + s.last() as nat);
        if limbs_value(s) == 0 {
            assert(limbs_value(d) == 0) by (nonlinear_arith)
                requires
                    limbs_value(d) * 4294967296 + s.last() as nat == 0,
            ;
            assert forall|i: int| 0 <= i < s.len() implies s[i] == 0 by {
                if i < s.len() - 1 {
                    assert(d[i] == s[i]);
                }
            }
        } else {
            if limbs_value(d) == 0 {
                assert(s.last() != 0);
            } else {
                let i = choose|i: int| 0 <= i < d.len() && d[i] != 0;
                assert(s[i] == d[i]);
            }
        }
    }
}

fn all_zero(v: &Vec<u32>) -> (r: bool)
    ensures
        r == (limbs_value(v@) == 0),
{
    proof {
        lemma_limbs_zero(v@);
    }
    let mut i: usize = 0;
    while i < v.len()
        invariant
            i <= v@.len(),
            forall|j: int| 0 <= j < i ==> v@[j] == 0,
        decreases v@.len() - i,
    {
        if v[i] != 0 {
            proof {
                lemma_limbs_zero(v@);
                assert(v@[i as int] != 0);
                assert(!(forall|j: int| 0 <= j < v@.len() ==> v@[j] == 0));
            }
            return false;
        }
        i = i + 1;
    }
    true
}

/// Divides the value of `limbs` by `b`: the quotient's limbs and the remainder.
fn div_small(limbs: &Vec<u32>, b: u32) -> (r: (Vec<u32>, u32))
    requires
        2 <= b <= 36,
    ensures
        limbs_value(limbs@) == limbs_value(r.0@) * b as nat + r.1 as nat,
        r.1 < b,
{
    let mut q: Vec<u32> = Vec::new();
    let mut rem: u32 = 0;
    let mut i: usize = 0;
    assert(limbs@.take(0) =~= Seq::<u32>::empty());
    assert(q@ =~= Seq::<u32>::empty());
    assert(limbs_value(Seq::<u32>::empty()) == 0);
    while i < limbs.len()
        invariant
            2 <= b <= 36,
            i <= limbs@.len(),
            rem < b,
            limbs_value(limbs@.take(i as int)) == limbs_value(q@) * b as nat + rem as nat,
        decreases limbs@.len() - i,
    {
        let limb = limbs[i];
        let cur: u64 = rem as u64 * 4294967296 + limb as u64;
        let qd: u64 = cur / b as u64;
        let rd: u64 = cur % b as u64;
        proof {
            lemma_fundamental_div_mod(cur as int, b as int);
            lemma_mod_bound(cur as int, b as int);
            assert(cur == qd * b + rd) by (nonlinear_arith)
                requires
                    cur == b * (cur / b as u64) + (cur % b as u64),
                    qd == cur / b as u64,
                    rd == cur % b as u64,
            ;
            assert(qd < 4294967296) by (nonlinear_arith)
                requires
                    cur == qd * b + rd,
                    cur < b as nat * 4294967296,
                    b >= 2,
            ;
            let old_q = q@;
            let t = limbs@.take(i as int + 1);
            assert(t.drop_last() =~= limbs@.take(i as int));
            assert(old_q.push(qd as u32).drop_last() =~= old_q);
            assert(limbs_value(t) == limbs_value(old_q.push(qd as u32)) * b as nat + rd as nat)
                by (nonlinear_arith)
                requires
                    limbs_value(t) == limbs_value(limbs@.take(i as int)) * 4294967296 + limb as nat,
                    limbs_value(limbs@.take(i as int)) == limbs_value(old_q) * b as nat + rem as nat,
                    limbs_value(old_q.push(qd as u32)) == limbs_value(old_q) * 4294967296 + qd as nat,
                    cur == rem as nat * 4294967296 + limb as nat,
                    cur == qd * b + rd,
            ;
        }
        q.push(qd as u32);
        rem = rd as u32;
        i = i + 1;
    }
    assert(limbs@.take(limbs@.len() as int) =~= limbs@);
    (q, rem)
}

fn push_limbs_digits(s: &mut String, limbs: &Vec<u32>, b: u32)
    requires
        2 <= b <= 36,
    ensures
        final(s)@ == old(s)@ + radix_digits(limbs_value(limbs@), b as nat),
    decreases limbs_value(limbs@),
{
    let ghost n = limbs_value(limbs@);
    let (q, r) = div_small(limbs, b);
    let ghost qv = limbs_value(q@);
    if !all_zero(&q) {
        proof {
            assert(qv < n) by (nonlinear_arith)
                requires
                    n == qv * b as nat + r as nat,
                    qv > 0,
                    b >= 2,
            ;
        }
        push_limbs_digits(s, &q, b);
    }
    push_char(s, digit(r));
    proof {
        if qv == 0 {
            assert(qv * b as nat == 0) by (nonlinear_arith)
                requires
                    qv == 0,
            ;
            assert(n == r as nat);
            lemma_small_mod(n, 36);
        } else {
            assert(n >= b) by (nonlinear_arith)
                requires
                    n == qv * b as nat + r as nat,
                    qv > 0,
            ;
            lemma_fundamental_div_mod_converse(n as int, b as int, qv as int, r as int);
        }
    }
}

impl BigInt {
    /// The value written in base `base`.
    pub fn to_string_radix(&self, base: u32) -> (r: String)
        requires
            2 <= base <= 36,
        ensures
            r@ == radix_text(self@, base as nat),
    {
        let mut s = String::new();
        let limbs = self.limbs();
        if self.is_negative() && !all_zero(limbs) {
            push_char(&mut s, '-');
        }
        push_limbs_digits(&mut s, limbs, base);
        proof {
            if self@ < 0 {
                assert(s@ =~= seq!['-'] + radix_digits((-self@) as nat, base as nat));
            } else {
                assert(s@ =~= radix_digits(self@ as nat, base as nat));
            }
        }
        s
    }
}

pub open spec fn is_decimal_digit(c: char) -> bool {
    '0' <= c && c <= '9'
}

pub open spec fn all_decimal_digits(s: Seq<char>) -> bool {
    forall|i: int| 0 <= i < s.len() ==> is_decimal_digit(#[trigger] s[i])
}

/// The value of a string of decimal digits.
pub open spec fn decimal_value(s: Seq<char>) -> nat
    decreases s.len(),
{
    if s.len() == 0 {
        0
    } else {
        decimal_value(s.drop_last()) * 10 + ((s.last() as u32) - 48) as nat
    }
}

/// The integer a string denotes: an optional `+` or `-`, then one or more decimal digits.
pub open spec fn parsed_integer(s: Seq<char>) -> Option<int> {
    if s.len() > 0 && (s[0] == '-' || s[0] == '+') {
        let rest = s.drop_first();
        if rest.len() > 0 && all_decimal_digits(rest) {
            if s[0] == '-' {
                Some(-(decimal_value(rest) as int))
            } else {
                Some(decimal_value(rest) as int)
            }
        } else {
            None
        }
    } else if s.len() > 0 && all_decimal_digits(s) {
        Some(decimal_value(s) as int)
    } else {
        None
    }
}

proof fn lemma_decimal_prefix_le(s: Seq<char>, k: int)
    requires
        0 <= k <= s.len(),
    ensures
        decimal_value(s.take(k)) <= decimal_value(s),
    decreases s.len() - k,
{
    if k < s.len() {
        lemma_decimal_prefix_le(s, k + 1);
        let t = s.take(k + 1);
        assert(t.drop_last() =~= s.take(k));
    } else {
        assert(s.take(k) =~= s);
    }
}

proof fn lemma_decimal_digits_value(n: nat)
    ensures
        radix_digits(n, 10).len() > 0,
        all_decimal_digits(radix_digits(n, 10)),
        decimal_value(radix_digits(n, 10)) == n,
    decreases n,
{
    let s = radix_digits(n, 10);
    if n < 10 {
        lemma_small_mod(n, 36);
        assert(s == seq![digit_char(n)]);
        assert(s.drop_last() =~= Seq::<char>::empty());
        assert(decimal_value(Seq::<char>::empty()) == 0);
    } else {
        lemma_div_decreases(n as int, 10);
        lemma_decimal_digits_value(n / 10);
        lemma_mod_bound(n as int, 10);
        lemma_fundamental_div_mod(n as int, 10);
        let p = radix_digits(n / 10, 10);
        assert(s == p.push(digit_char(n % 10)));
        assert(s.drop_last() =~= p);
        assert forall|i: int| 0 <= i < s.len() implies is_decimal_digit(#[trigger] s[i]) by {
            if i < p.len() {
                assert(s[i] == p[i]);
            }
        }
    }
}

/// Writing an integer in decimal and reading the text back gives the integer.
pub proof fn lemma_decimal_round_trip(v: int)
    ensures
        parsed_integer(radix_text(v, 10)) == Some(v),
{
    if v < 0 {
        let d = radix_digits((-v) as nat, 10);
        lemma_decimal_digits_value((-v) as nat);
        let s = seq!['-'] + d;
        assert(s.drop_first() =~= d);
        assert(s[0] == '-');
    } else {
        let d = radix_digits(v as nat, 10);
        lemma_decimal_digits_value(v as nat);
        assert(is_decimal_digit(d[0]));
    }
}

/// Reads an `i128` the way `str::parse::<i128>` does: `None` where the text is not
/// an integer or the integer does not fit.
pub fn parse_i128(s: &str) -> (r: Option<i128>)
    ensures
        r == (match parsed_integer(s@) {
            Some(v) => if i128::MIN <= v <= i128::MAX {
                Some(v as i128)
            } else {
                None
            },
            None => None,
        }),
{
    let n = s.unicode_len();
    if n == 0 {
        return None;
    }
    let first = s.get_char(0);
    let negative = first == '-';
    let start: usize = if first == '-' || first == '+' { 1 } else { 0 };
    if start == n {
        return None;
    }
    let ghost digits = s@.subrange(start as int, n as int);
    proof {
        if start == 1 {
            assert(digits =~= s@.drop_first());
        } else {
            assert(digits =~= s@);
        }
        assert(digits.take(0) =~= Seq::<char>::empty());
        assert(parsed_integer(s@) == (if all_decimal_digits(digits) {
            Some(
                if negative {
                    -(decimal_value(digits) as int)
                } else {
                    decimal_value(digits) as int
                },
            )
        } else {
            None
        }));
    }
    let mut acc: u128 = 0;
    let mut i: usize = start;
    while i < n
        invariant
            n == s@.len(),
            start <= i <= n,
            start < n,
            digits == s@.subrange(start as int, n as int),
            parsed_integer(s@) == (if all_decimal_digits(digits) {
                Some(
                    if negative {
                        -(decimal_value(digits) as int)
                    } else {
                        decimal_value(digits) as int
                    },
                )
            } else {
                None
            }),
            forall|j: int| 0 <= j < i - start ==> is_decimal_digit(#[trigger] digits[j]),
            acc as nat == decimal_value(digits.take(i - start)),
            acc <= 0x8000_0000_0000_0000_0000_0000_0000_0000u128,
        decreases n - i,
    {
        let c = s.get_char(i);
        if !('0' <= c && c <= '9') {
            assert(digits[i - start] == c);
            assert(!is_decimal_digit(digits[i - start]));
            return None;
        }
        let d: u128 = ((c as u32) - 48) as u128;
        proof {
            let t = digits.take(i - start + 1);
            assert(t.drop_last() =~= digits.take(i - start));
            assert(t.last() == c);
        }
        if acc > 0x0ccc_cccc_cccc_cccc_cccc_cccc_cccc_cccdu128 {
            proof {
                lemma_decimal_prefix_le(digits, i - start + 1);
                assert(acc as nat * 10 + d as nat > 0x8000_0000_0000_0000_0000_0000_0000_0000)
                    by (nonlinear_arith)
                    requires
                        acc > 0x0ccc_cccc_cccc_cccc_cccc_cccc_cccc_cccdu128,
                ;
            }
            return None;
        }
        let next: u128 = acc * 10 + d;
        if next > 0x8000_0000_0000_0000_0000_0000_0000_0000u128 {
            proof {
                lemma_decimal_prefix_le(digits, i - start + 1);
            }
            return None;
        }
        acc = next;
        i = i + 1;
    }
    proof {
        assert(digits.take(n - start) =~= digits);
        assert(all_decimal_digits(digits));
    }
    if negative {
        if acc == 0x8000_0000_0000_0000_0000_0000_0000_0000u128 {
            Some(i128::MIN)
        } else {
            Some(-(acc as i128))
        }
    } else if acc == 0x8000_0000_0000_0000_0000_0000_0000_0000u128 {
        None
    } else {
        Some(acc as i128)
    }
}

} // verus!
