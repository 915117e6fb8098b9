//! How many elements of a collection an augmentation touches.
use vstd::prelude::*;

verus! {

/// A fraction `num / den` with a positive denominator.
#[derive(Clone, Copy, Debug, PartialEq, Eq, Structural)]
pub struct Fraction {
    pub num: i64,
    pub den: u64,
}

impl Fraction {
    pub open spec fn wf(&self) -> bool {
        self.den > 0
    }

    pub fn new(num: i64, den: u64) -> (r: Self)
        requires
            den > 0,
        ensures
            r.wf(),
            r.num == num,
            r.den == den,
    {
        Fraction { num, den }
    }
}

/// The fraction used when none is given: three tenths.
pub open spec fn default_fraction() -> Fraction {
    Fraction { num: 3, den: 10 }
}

/// `ceil(p * size)`, where a fraction that is not positive gives zero, and
/// the result is capped at the largest `usize`.
pub open spec fn ceil_count(p: Fraction, size: nat) -> nat {
    if p.num <= 0 {
        0
    } else {
        let c = ((p.num * size + p.den - 1) / (p.den as int)) as nat;
        if c > usize::MAX {
            usize::MAX as nat
        } else {
            c
        }
    }
}

/// Three parameters that fix the number of elements to augment.
#[derive(Clone, Copy, Debug)]
pub struct AugCountParams {
    /// Minimum number of elements to augment.
    aug_min: Option<usize>,
    /// Maximum number of elements to augment.
    aug_max: Option<usize>,
    /// Fraction of the input elements to augment.
    aug_p: Option<Fraction>,
}

impl AugCountParams {
    pub closed spec fn min_spec(&self) -> Option<usize> {
        self.aug_min
    }

    pub closed spec fn max_spec(&self) -> Option<usize> {
        self.aug_max
    }

    pub closed spec fn p_spec(&self) -> Option<Fraction> {
        self.aug_p
    }

    /// The fraction in force.
    pub open spec fn fraction(&self) -> Fraction {
        match self.p_spec() {
            Some(p) => p,
            None => default_fraction(),
        }
    }

    pub open spec fn wf(&self) -> bool {
        self.fraction().wf()
    }

    /// The count for a collection of `size` elements: zero for an empty one;
    /// otherwise `ceil(p * size)`, raised to the minimum if that is larger,
    /// else lowered to the maximum if that is smaller.
    pub open spec fn count_spec(&self, size: nat) -> nat {
        if size == 0 {
            0
        } else {
            let c = ceil_count(self.fraction(), size);
            if self.min_spec() is Some && self.min_spec()->0 > c {
                self.min_spec()->0 as nat
            } else if self.max_spec() is Some && self.max_spec()->0 < c {
                self.max_spec()->0 as nat
            } else {
                c
            }
        }
    }

    pub fn new(aug_min: Option<usize>, aug_max: Option<usize>, aug_p: Option<Fraction>) -> (r: Self)
        requires
            aug_p matches Some(p) ==> p.wf(),
        ensures
            r.wf(),
            r.min_spec() == aug_min,
            r.max_spec() == aug_max,
            r.p_spec() == aug_p,
    {
        AugCountParams { aug_min, aug_max, aug_p }
    }

    /// Number of elements to augment out of `size`.
    pub fn calculate_aug_cnt(&self, size: usize) -> (r: usize)
        requires
            self.wf(),
        ensures
            r == self.count_spec(size as nat),
    {
        let percent = match self.aug_p {
            Some(p) => p,
            None => Fraction { num: 3, den: 10 },
        };
        if size == 0 {
            return 0;
        }
        let count: usize = if percent.num <= 0 {
            0
        } else {
            let num = percent.num as u128;
            let den = percent.den as u128;
            let sz = size as u128;
            assert(num * sz <= 0x7fff_ffff_ffff_ffffu128 * 0xffff_ffff_ffff_ffffu128) by (nonlinear_arith)
                requires
                    num <= 0x7fff_ffff_ffff_ffffu128,
                    sz <= 0xffff_ffff_ffff_ffffu128,
            ;
            let c = (num * sz + den - 1) / den;
            if c > usize::MAX as u128 {
                usize::MAX
            } else {
                c as usize
            }
        };
        if let Some(val) = self.aug_min {
            if val > count {
                return val;
            }
        }
        if let Some(val) = self.aug_max {
            if val < count {
                return val;
            }
        }
        count
    }
}

} // verus!
