use vstd::prelude::*;

verus! {



/// The value of a sequence of 32-bit limbs, most significant first.
pub open spec fn limbs_value(s: Seq<u32>) -> nat
    decreases s.len(),
{
    if s.len() == 0 {
        0
    } else {
        limbs_value(s.drop_last()) * 4294967296 + s.last() as nat
    }
}

/// An arbitrary-precision signed integer held as a sign and a magnitude.
#[derive(Clone, Debug)]
pub struct BigInt {
    negative: bool,
    limbs: Vec<u32>,
}

impl BigInt {
    pub closed spec fn view(&self) -> int {
        if self.negative {
            -(limbs_value(self.limbs@) as int)
        } else {
            limbs_value(self.limbs@) as int
        }
    }

    pub fn zero() -> (r: Self)
        ensures
            r@ == 0,
    {
        BigInt { negative: false, limbs: Vec::new() }
    }

    /// Builds a value from its sign and its magnitude's 32-bit limbs, most significant first.
    pub fn from_limbs(negative: bool, limbs: Vec<u32>) -> (r: Self)
        ensures
            r@ == (if negative {
                -(limbs_value(limbs@) as int)
            } else {
                limbs_value(limbs@) as int
            }),
    {
        BigInt { negative, limbs }
    }

    /// Whether the sign is negative (a zero magnitude may carry either sign).
    pub fn is_negative(&self) -> (r: bool)
        ensures
            r ==> self@ <= 0,
            self@ < 0 ==> r,
    {
        self.negative
    }

    /// The magnitude's 32-bit limbs, most significant first.
    pub fn limbs(&self) -> (r: &Vec<u32>)
        ensures
            limbs_value(r@) as int == (if self@ < 0 {
                -self@
            } else {
                self@
            }),
    {
        &self.limbs
    }

    pub fn from_u32(v: u32) -> (r: Self)
        ensures
            r@ == v as int,
    {
        if v == 0 {
            BigInt::zero()
        } else {
            let limbs = vec![v];
            assert(limbs@.drop_last() =~= Seq::<u32>::empty());
            assert(limbs_value(Seq::<u32>::empty()) == 0);
            BigInt { negative: false, limbs }
        }
    }

    /// The value as an `i128`, or `None` where it does not fit.
    pub fn to_i128(&self) -> (r: Option<i128>)
        ensures
            r == (if i128::MIN <= self@ <= i128::MAX {
                Some(self@ as i128)
            } else {
                None
            }),
    {
        let n = self.limbs.len();
        let mut acc: u128 = 0;
        let mut i: usize = 0;
        while i < n
            invariant
                n == self.limbs@.len(),
                i <= n,
                acc as nat == limbs_value(self.limbs@.take(i as int)),
                acc <= 0x8000_0000_0000_0000_0000_0000_0000_0000u128,
            decreases n - i,
        {
            let limb = self.limbs[i];
            proof {
                let t = self.limbs@.take(i as int + 1);
                assert(t.drop_last() =~= self.limbs@.take(i as int));
            }
            if acc > 0x8000_0000_0000_0000_0000_0000u128 {
                proof {
                    lemma_prefix_le(self.limbs@, i as int + 1);
                    assert(limbs_value(self.limbs@.take(i as int + 1)) >= acc as nat * 4294967296) by (nonlinear_arith)
                        requires
                            limbs_value(self.limbs@.take(i as int + 1)) == acc as nat * 4294967296 + limb as nat,
                    ;
                    assert(self.limbs@.take(n as int) =~= self.limbs@);
                    assert(acc as nat * 4294967296 > 0x8000_0000_0000_0000_0000_0000_0000_0000) by (nonlinear_arith)
                        requires
                            acc > 0x8000_0000_0000_0000_0000_0000u128,
                    ;
                }
                return None;
            }
            let next: u128 = acc * 4294967296 + limb as u128;
            if next > 0x8000_0000_0000_0000_0000_0000_0000_0000u128 {
                proof {
                    lemma_prefix_le(self.limbs@, i as int + 1);
                    assert(self.limbs@.take(n as int) =~= self.limbs@);
                }
                return None;
            }
            acc = next;
            i = i + 1;
        }
        proof {
            assert(self.limbs@.take(n as int) =~= self.limbs@);
        }
        if self.negative {
            if acc == 0x8000_0000_0000_0000_0000_0000_0000_0000u128 {
                Some(i128::MIN)
            } else {
                Some(-(acc as i128))
            }
        } else if acc == 0x8000_0000_0000_0000_0000_0000_0000_0000u128 {
            None
        } else {
            Some(acc as i128)
        }
    }
}

/// A prefix never has a larger value than the whole sequence.
proof fn lemma_prefix_le(s: Seq<u32>, k: int)
    requires
        0 <= k <= s.len(),
    ensures
        limbs_value(s.take(k)) <= limbs_value(s),
    decreases s.len() - k,
{
    if k < s.len() {
        lemma_prefix_le(s, k + 1);
        let t = s.take(k + 1);
        assert(t.drop_last() =~= s.take(k));
        assert(limbs_value(t) >= limbs_value(s.take(k))) by (nonlinear_arith)
            requires
                limbs_value(t) == limbs_value(s.take(k)) * 4294967296 + t.last() as nat,
        ;
    } else {
        assert(s.take(k) =~= s);
    }
}

} // verus!
