//! Lane-wise boolean algebra on masks. A plain boolean operand stands for the
//! mask with that value in every lane.
use vstd::prelude::*;
use vstd::std_specs::ops::{BitAndSpecImpl, BitOrSpecImpl, BitXorSpecImpl, NotSpecImpl};
use crate::masks::element::MaskElement;
use crate::masks::encoding::Encoding;
use crate::masks::{lanes_splat, Mask, SimdMask};

verus! {

/// Lane-wise "and" of two sequences of lanes.
pub open spec fn lanes_and(a: Seq<bool>, b: Seq<bool>) -> Seq<bool> {
    Seq::new(a.len(), |i: int| a[i] && b[i])
}

/// Lane-wise "or" of two sequences of lanes.
pub open spec fn lanes_or(a: Seq<bool>, b: Seq<bool>) -> Seq<bool> {
    Seq::new(a.len(), |i: int| a[i] || b[i])
}

/// Lane-wise "xor" of two sequences of lanes.
pub open spec fn lanes_xor(a: Seq<bool>, b: Seq<bool>) -> Seq<bool> {
    Seq::new(a.len(), |i: int| a[i] != b[i])
}

/// Lane-wise "not" of a sequence of lanes.
pub open spec fn lanes_not(a: Seq<bool>) -> Seq<bool> {
    Seq::new(a.len(), |i: int| !a[i])
}

impl<T: MaskElement, const LANES: usize> std::ops::BitAnd for SimdMask<T, LANES> where Self: Mask {
    type Output = Self;

    fn bitand(self, rhs: Self) -> (r: Self)
        ensures
            r@ == lanes_and(self@, rhs@),
    {
        proof {
            self.lemma_len();
        }
        let r = SimdMask(self.0.and(rhs.0));
        assert(r@ =~= lanes_and(self@, rhs@));
        r
    }
}

impl<T: MaskElement, const LANES: usize> BitAndSpecImpl for SimdMask<T, LANES> where Self: Mask {
    open spec fn obeys_bitand_spec() -> bool {
        false
    }

    open spec fn bitand_req(self, rhs: Self) -> bool {
        true
    }

    open spec fn bitand_spec(self, rhs: Self) -> Self {
        arbitrary()
    }
}

impl<T: MaskElement, const LANES: usize> std::ops::BitAnd<bool> for SimdMask<T, LANES> where Self: Mask {
    type Output = Self;

    fn bitand(self, rhs: bool) -> (r: Self)
        ensures
            r@ == lanes_and(self@, lanes_splat(LANES as nat, rhs)),
    {
        self & Self::splat(rhs)
    }
}

impl<T: MaskElement, const LANES: usize> BitAndSpecImpl<bool> for SimdMask<T, LANES> where Self: Mask {
    open spec fn obeys_bitand_spec() -> bool {
        false
    }

    open spec fn bitand_req(self, rhs: bool) -> bool {
        true
    }

    open spec fn bitand_spec(self, rhs: bool) -> Self {
        arbitrary()
    }
}

impl<T: MaskElement, const LANES: usize> std::ops::BitAnd<SimdMask<T, LANES>> for bool where SimdMask<T, LANES>: Mask {
    type Output = SimdMask<T, LANES>;

    fn bitand(self, rhs: SimdMask<T, LANES>) -> (r: SimdMask<T, LANES>)
        ensures
            r@ == lanes_and(lanes_splat(LANES as nat, self), rhs@),
    {
        proof {
            rhs.lemma_len();
        }
        let r = SimdMask::<T, LANES>::splat(self) & rhs;
        assert(r@ =~= lanes_and(lanes_splat(LANES as nat, self), rhs@));
        r
    }
}

impl<T: MaskElement, const LANES: usize> BitAndSpecImpl<SimdMask<T, LANES>> for bool where SimdMask<T, LANES>: Mask {
    open spec fn obeys_bitand_spec() -> bool {
        false
    }

    open spec fn bitand_req(self, rhs: SimdMask<T, LANES>) -> bool {
        true
    }

    open spec fn bitand_spec(self, rhs: SimdMask<T, LANES>) -> SimdMask<T, LANES> {
        arbitrary()
    }
}

impl<T: MaskElement, const LANES: usize> std::ops::BitAndAssign for SimdMask<T, LANES> where Self: Mask {
    fn bitand_assign(&mut self, rhs: Self)
        ensures
            final(self)@ == lanes_and(old(self)@, rhs@),
    {
        *self = *self & rhs;
    }
}

impl<T: MaskElement, const LANES: usize> std::ops::BitAndAssign<bool> for SimdMask<T, LANES> where Self: Mask {
    fn bitand_assign(&mut self, rhs: bool)
        ensures
            final(self)@ == lanes_and(old(self)@, lanes_splat(LANES as nat, rhs)),
    {
        *self = *self & Self::splat(rhs);
    }
}

impl<T: MaskElement, const LANES: usize> std::ops::BitOr for SimdMask<T, LANES> where Self: Mask {
    type Output = Self;

    fn bitor(self, rhs: Self) -> (r: Self)
        ensures
            r@ == lanes_or(self@, rhs@),
    {
        proof {
            self.lemma_len();
        }
        let r = SimdMask(self.0.or(rhs.0));
        assert(r@ =~= lanes_or(self@, rhs@));
        r
    }
}

impl<T: MaskElement, const LANES: usize> BitOrSpecImpl for SimdMask<T, LANES> where Self: Mask {
    open spec fn obeys_bitor_spec() -> bool {
        false
    }

    open spec fn bitor_req(self, rhs: Self) -> bool {
        true
    }

    open spec fn bitor_spec(self, rhs: Self) -> Self {
        arbitrary()
    }
}

impl<T: MaskElement, const LANES: usize> std::ops::BitOr<bool> for SimdMask<T, LANES> where Self: Mask {
    type Output = Self;

    fn bitor(self, rhs: bool) -> (r: Self)
        ensures
            r@ == lanes_or(self@, lanes_splat(LANES as nat, rhs)),
    {
        self | Self::splat(rhs)
    }
}

impl<T: MaskElement, const LANES: usize> BitOrSpecImpl<bool> for SimdMask<T, LANES> where Self: Mask {
    open spec fn obeys_bitor_spec() -> bool {
        false
    }

    open spec fn bitor_req(self, rhs: bool) -> bool {
        true
    }

    open spec fn bitor_spec(self, rhs: bool) -> Self {
        arbitrary()
    }
}

impl<T: MaskElement, const LANES: usize> std::ops::BitOr<SimdMask<T, LANES>> for bool where SimdMask<T, LANES>: Mask {
    type Output = SimdMask<T, LANES>;

    fn bitor(self, rhs: SimdMask<T, LANES>) -> (r: SimdMask<T, LANES>)
        ensures
            r@ == lanes_or(lanes_splat(LANES as nat, self), rhs@),
    {
        proof {
            rhs.lemma_len();
        }
        let r = SimdMask::<T, LANES>::splat(self) | rhs;
        assert(r@ =~= lanes_or(lanes_splat(LANES as nat, self), rhs@));
        r
    }
}

impl<T: MaskElement, const LANES: usize> BitOrSpecImpl<SimdMask<T, LANES>> for bool where SimdMask<T, LANES>: Mask {
    open spec fn obeys_bitor_spec() -> bool {
        false
    }

    open spec fn bitor_req(self, rhs: SimdMask<T, LANES>) -> bool {
        true
    }

    open spec fn bitor_spec(self, rhs: SimdMask<T, LANES>) -> SimdMask<T, LANES> {
        arbitrary()
    }
}

impl<T: MaskElement, const LANES: usize> std::ops::BitOrAssign for SimdMask<T, LANES> where Self: Mask {
    fn bitor_assign(&mut self, rhs: Self)
        ensures
            final(self)@ == lanes_or(old(self)@, rhs@),
    {
        *self = *self | rhs;
    }
}

impl<T: MaskElement, const LANES: usize> std::ops::BitOrAssign<bool> for SimdMask<T, LANES> where Self: Mask {
    fn bitor_assign(&mut self, rhs: bool)
        ensures
            final(self)@ == lanes_or(old(self)@, lanes_splat(LANES as nat, rhs)),
    {
        *self = *self | Self::splat(rhs);
    }
}

impl<T: MaskElement, const LANES: usize> std::ops::BitXor for SimdMask<T, LANES> where Self: Mask {
    type Output = Self;

    fn bitxor(self, rhs: Self) -> (r: Self)
        ensures
            r@ == lanes_xor(self@, rhs@),
    {
        proof {
            self.lemma_len();
        }
        let r = SimdMask(self.0.xor(rhs.0));
        assert(r@ =~= lanes_xor(self@, rhs@));
        r
    }
}

impl<T: MaskElement, const LANES: usize> BitXorSpecImpl for SimdMask<T, LANES> where Self: Mask {
    open spec fn obeys_bitxor_spec() -> bool {
        false
    }

    open spec fn bitxor_req(self, rhs: Self) -> bool {
        true
    }

    open spec fn bitxor_spec(self, rhs: Self) -> Self {
        arbitrary()
    }
}

impl<T: MaskElement, const LANES: usize> std::ops::BitXor<bool> for SimdMask<T, LANES> where Self: Mask {
    type Output = Self;

    fn bitxor(self, rhs: bool) -> (r: Self)
        ensures
            r@ == lanes_xor(self@, lanes_splat(LANES as nat, rhs)),
    {
        self ^ Self::splat(rhs)
    }
}

impl<T: MaskElement, const LANES: usize> BitXorSpecImpl<bool> for SimdMask<T, LANES> where Self: Mask {
    open spec fn obeys_bitxor_spec() -> bool {
        false
    }

    open spec fn bitxor_req(self, rhs: bool) -> bool {
        true
    }

    open spec fn bitxor_spec(self, rhs: bool) -> Self {
        arbitrary()
    }
}

impl<T: MaskElement, const LANES: usize> std::ops::BitXor<SimdMask<T, LANES>> for bool where SimdMask<T, LANES>: Mask {
    type Output = SimdMask<T, LANES>;

    fn bitxor(self, rhs: SimdMask<T, LANES>) -> (r: SimdMask<T, LANES>)
        ensures
            r@ == lanes_xor(lanes_splat(LANES as nat, self), rhs@),
    {
        proof {
            rhs.lemma_len();
        }
        let r = SimdMask::<T, LANES>::splat(self) ^ rhs;
        assert(r@ =~= lanes_xor(lanes_splat(LANES as nat, self), rhs@));
        r
    }
}

impl<T: MaskElement, const LANES: usize> BitXorSpecImpl<SimdMask<T, LANES>> for bool where SimdMask<T, LANES>: Mask {
    open spec fn obeys_bitxor_spec() -> bool {
        false
    }

    open spec fn bitxor_req(self, rhs: SimdMask<T, LANES>) -> bool {
        true
    }

    open spec fn bitxor_spec(self, rhs: SimdMask<T, LANES>) -> SimdMask<T, LANES> {
        arbitrary()
    }
}

impl<T: MaskElement, const LANES: usize> std::ops::BitXorAssign for SimdMask<T, LANES> where Self: Mask {
    fn bitxor_assign(&mut self, rhs: Self)
        ensures
            final(self)@ == lanes_xor(old(self)@, rhs@),
    {
        *self = *self ^ rhs;
    }
}

impl<T: MaskElement, const LANES: usize> std::ops::BitXorAssign<bool> for SimdMask<T, LANES> where Self: Mask {
    fn bitxor_assign(&mut self, rhs: bool)
        ensures
            final(self)@ == lanes_xor(old(self)@, lanes_splat(LANES as nat, rhs)),
    {
        *self = *self ^ Self::splat(rhs);
    }
}

impl<T: MaskElement, const LANES: usize> std::ops::Not for SimdMask<T, LANES> where Self: Mask {
    type Output = SimdMask<T, LANES>;

    fn not(self) -> (r: SimdMask<T, LANES>)
        ensures
            r@ == lanes_not(self@),
    {
        proof {
            self.lemma_len();
        }
        let r = SimdMask(self.0.not());
        assert(r@ =~= lanes_not(self@));
        r
    }
}

impl<T: MaskElement, const LANES: usize> NotSpecImpl for SimdMask<T, LANES> where Self: Mask {
    open spec fn obeys_not_spec() -> bool {
        false
    }

    open spec fn not_req(self) -> bool {
        true
    }

    open spec fn not_spec(self) -> SimdMask<T, LANES> {
        arbitrary()
    }
}

} // verus!
