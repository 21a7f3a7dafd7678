//! Conversions of masks: from and to arrays of booleans, and between the masks
//! of vectors of different element widths and one number of lanes.
use vstd::prelude::*;
use vstd::std_specs::cmp::PartialEqSpecImpl;
use vstd::std_specs::convert::FromSpecImpl;
use crate::masks::element::MaskElement;
use crate::masks::{lanes_splat, Mask, SimdMask};

verus! {

impl<T: MaskElement, const LANES: usize> Default for SimdMask<T, LANES> where Self: Mask {
    fn default() -> (r: Self)
        ensures
            r@ == lanes_splat(LANES as nat, false),
    {
        Self::splat(false)
    }
}

impl<T: MaskElement, const LANES: usize> PartialEq for SimdMask<T, LANES> where Self: Mask {
    fn eq(&self, other: &Self) -> (r: bool) {
        let mut i: usize = 0;
        proof {
            self.lemma_len();
            other.lemma_len();
        }
        while i < LANES
            invariant
                i <= LANES,
                self@.len() == LANES,
                other@.len() == LANES,
                forall|k: int| 0 <= k < i ==> self@[k] == other@[k],
            decreases LANES - i,
        {
            if self.test_unchecked(i) != other.test_unchecked(i) {
                return false;
            }
            i += 1;
        }
        assert(self@ =~= other@);
        true
    }
}

impl<T: MaskElement, const LANES: usize> PartialEqSpecImpl for SimdMask<T, LANES> where Self: Mask {
    open spec fn obeys_eq_spec() -> bool {
        true
    }

    open spec fn eq_spec(&self, other: &Self) -> bool {
        self@ == other@
    }
}

impl<T: MaskElement, const LANES: usize> From<[bool; LANES]> for SimdMask<T, LANES> where Self: Mask {
    fn from(array: [bool; LANES]) -> (r: Self)
        ensures
            r@ == array@,
    {
        Self::from_array(array)
    }
}

impl<T: MaskElement, const LANES: usize> FromSpecImpl<[bool; LANES]> for SimdMask<T, LANES> where Self: Mask {
    open spec fn obeys_from_spec() -> bool {
        false
    }

    open spec fn from_spec(array: [bool; LANES]) -> Self {
        arbitrary()
    }
}

impl<T: MaskElement, const LANES: usize> From<SimdMask<T, LANES>> for [bool; LANES] where SimdMask<T, LANES>: Mask {
    fn from(vector: SimdMask<T, LANES>) -> (r: Self)
        ensures
            r@ == vector@,
    {
        vector.to_array()
    }
}

impl<T: MaskElement, const LANES: usize> FromSpecImpl<SimdMask<T, LANES>> for [bool; LANES] where SimdMask<T, LANES>: Mask {
    open spec fn obeys_from_spec() -> bool {
        false
    }

    open spec fn from_spec(vector: SimdMask<T, LANES>) -> Self {
        arbitrary()
    }
}

impl<const LANES: usize> From<SimdMask<i8, LANES>> for SimdMask<i16, LANES> where SimdMask<i8, LANES>: Mask, Self: Mask {
    fn from(value: SimdMask<i8, LANES>) -> (r: Self)
        ensures
            r@ == value@,
    {
        value.cast::<i16>()
    }
}

impl<const LANES: usize> FromSpecImpl<SimdMask<i8, LANES>> for SimdMask<i16, LANES> where SimdMask<i8, LANES>: Mask, Self: Mask {
    open spec fn obeys_from_spec() -> bool {
        false
    }

    open spec fn from_spec(value: SimdMask<i8, LANES>) -> Self {
        arbitrary()
    }
}

impl<const LANES: usize> From<SimdMask<i8, LANES>> for SimdMask<i32, LANES> where SimdMask<i8, LANES>: Mask, Self: Mask {
    fn from(value: SimdMask<i8, LANES>) -> (r: Self)
        ensures
            r@ == value@,
    {
        value.cast::<i32>()
    }
}

impl<const LANES: usize> FromSpecImpl<SimdMask<i8, LANES>> for SimdMask<i32, LANES> where SimdMask<i8, LANES>: Mask, Self: Mask {
    open spec fn obeys_from_spec() -> bool {
        false
    }

    open spec fn from_spec(value: SimdMask<i8, LANES>) -> Self {
        arbitrary()
    }
}

impl<const LANES: usize> From<SimdMask<i8, LANES>> for SimdMask<i64, LANES> where SimdMask<i8, LANES>: Mask, Self: Mask {
    fn from(value: SimdMask<i8, LANES>) -> (r: Self)
        ensures
            r@ == value@,
    {
        value.cast::<i64>()
    }
}

impl<const LANES: usize> FromSpecImpl<SimdMask<i8, LANES>> for SimdMask<i64, LANES> where SimdMask<i8, LANES>: Mask, Self: Mask {
    open spec fn obeys_from_spec() -> bool {
        false
    }

    open spec fn from_spec(value: SimdMask<i8, LANES>) -> Self {
        arbitrary()
    }
}

impl<const LANES: usize> From<SimdMask<i8, LANES>> for SimdMask<isize, LANES> where SimdMask<i8, LANES>: Mask, Self: Mask {
    fn from(value: SimdMask<i8, LANES>) -> (r: Self)
        ensures
            r@ == value@,
    {
        value.cast::<isize>()
    }
}

impl<const LANES: usize> FromSpecImpl<SimdMask<i8, LANES>> for SimdMask<isize, LANES> where SimdMask<i8, LANES>: Mask, Self: Mask {
    open spec fn obeys_from_spec() -> bool {
        false
    }

    open spec fn from_spec(value: SimdMask<i8, LANES>) -> Self {
        arbitrary()
    }
}

impl<const LANES: usize> From<SimdMask<i16, LANES>> for SimdMask<i8, LANES> where SimdMask<i16, LANES>: Mask, Self: Mask {
    fn from(value: SimdMask<i16, LANES>) -> (r: Self)
        ensures
            r@ == value@,
    {
        value.cast::<i8>()
    }
}

impl<const LANES: usize> FromSpecImpl<SimdMask<i16, LANES>> for SimdMask<i8, LANES> where SimdMask<i16, LANES>: Mask, Self: Mask {
    open spec fn obeys_from_spec() -> bool {
        false
    }

    open spec fn from_spec(value: SimdMask<i16, LANES>) -> Self {
        arbitrary()
    }
}

impl<const LANES: usize> From<SimdMask<i16, LANES>> for SimdMask<i32, LANES> where SimdMask<i16, LANES>: Mask, Self: Mask {
    fn from(value: SimdMask<i16, LANES>) -> (r: Self)
        ensures
            r@ == value@,
    {
        value.cast::<i32>()
    }
}

impl<const LANES: usize> FromSpecImpl<SimdMask<i16, LANES>> for SimdMask<i32, LANES> where SimdMask<i16, LANES>: Mask, Self: Mask {
    open spec fn obeys_from_spec() -> bool {
        false
    }

    open spec fn from_spec(value: SimdMask<i16, LANES>) -> Self {
        arbitrary()
    }
}

impl<const LANES: usize> From<SimdMask<i16, LANES>> for SimdMask<i64, LANES> where SimdMask<i16, LANES>: Mask, Self: Mask {
    fn from(value: SimdMask<i16, LANES>) -> (r: Self)
        ensures
            r@ == value@,
    {
        value.cast::<i64>()
    }
}

impl<const LANES: usize> FromSpecImpl<SimdMask<i16, LANES>> for SimdMask<i64, LANES> where SimdMask<i16, LANES>: Mask, Self: Mask {
    open spec fn obeys_from_spec() -> bool {
        false
    }

    open spec fn from_spec(value: SimdMask<i16, LANES>) -> Self {
        arbitrary()
    }
}

impl<const LANES: usize> From<SimdMask<i16, LANES>> for SimdMask<isize, LANES> where SimdMask<i16, LANES>: Mask, Self: Mask {
    fn from(value: SimdMask<i16, LANES>) -> (r: Self)
        ensures
            r@ == value@,
    {
        value.cast::<isize>()
    }
}

impl<const LANES: usize> FromSpecImpl<SimdMask<i16, LANES>> for SimdMask<isize, LANES> where SimdMask<i16, LANES>: Mask, Self: Mask {
    open spec fn obeys_from_spec() -> bool {
        false
    }

    open spec fn from_spec(value: SimdMask<i16, LANES>) -> Self {
        arbitrary()
    }
}

impl<const LANES: usize> From<SimdMask<i32, LANES>> for SimdMask<i8, LANES> where SimdMask<i32, LANES>: Mask, Self: Mask {
    fn from(value: SimdMask<i32, LANES>) -> (r: Self)
        ensures
            r@ == value@,
    {
        value.cast::<i8>()
    }
}

impl<const LANES: usize> FromSpecImpl<SimdMask<i32, LANES>> for SimdMask<i8, LANES> where SimdMask<i32, LANES>: Mask, Self: Mask {
    open spec fn obeys_from_spec() -> bool {
        false
    }

    open spec fn from_spec(value: SimdMask<i32, LANES>) -> Self {
        arbitrary()
    }
}

impl<const LANES: usize> From<SimdMask<i32, LANES>> for SimdMask<i16, LANES> where SimdMask<i32, LANES>: Mask, Self: Mask {
    fn from(value: SimdMask<i32, LANES>) -> (r: Self)
        ensures
            r@ == value@,
    {
        value.cast::<i16>()
    }
}

impl<const LANES: usize> FromSpecImpl<SimdMask<i32, LANES>> for SimdMask<i16, LANES> where SimdMask<i32, LANES>: Mask, Self: Mask {
    open spec fn obeys_from_spec() -> bool {
        false
    }

    open spec fn from_spec(value: SimdMask<i32, LANES>) -> Self {
        arbitrary()
    }
}

impl<const LANES: usize> From<SimdMask<i32, LANES>> for SimdMask<i64, LANES> where SimdMask<i32, LANES>: Mask, Self: Mask {
    fn from(value: SimdMask<i32, LANES>) -> (r: Self)
        ensures
            r@ == value@,
    {
        value.cast::<i64>()
    }
}

impl<const LANES: usize> FromSpecImpl<SimdMask<i32, LANES>> for SimdMask<i64, LANES> where SimdMask<i32, LANES>: Mask, Self: Mask {
    open spec fn obeys_from_spec() -> bool {
        false
    }

    open spec fn from_spec(value: SimdMask<i32, LANES>) -> Self {
        arbitrary()
    }
}

impl<const LANES: usize> From<SimdMask<i32, LANES>> for SimdMask<isize, LANES> where SimdMask<i32, LANES>: Mask, Self: Mask {
    fn from(value: SimdMask<i32, LANES>) -> (r: Self)
        ensures
            r@ == value@,
    {
        value.cast::<isize>()
    }
}

impl<const LANES: usize> FromSpecImpl<SimdMask<i32, LANES>> for SimdMask<isize, LANES> where SimdMask<i32, LANES>: Mask, Self: Mask {
    open spec fn obeys_from_spec() -> bool {
        false
    }

    open spec fn from_spec(value: SimdMask<i32, LANES>) -> Self {
        arbitrary()
    }
}

impl<const LANES: usize> From<SimdMask<i64, LANES>> for SimdMask<i8, LANES> where SimdMask<i64, LANES>: Mask, Self: Mask {
    fn from(value: SimdMask<i64, LANES>) -> (r: Self)
        ensures
            r@ == value@,
    {
        value.cast::<i8>()
    }
}

impl<const LANES: usize> FromSpecImpl<SimdMask<i64, LANES>> for SimdMask<i8, LANES> where SimdMask<i64, LANES>: Mask, Self: Mask {
    open spec fn obeys_from_spec() -> bool {
        false
    }

    open spec fn from_spec(value: SimdMask<i64, LANES>) -> Self {
        arbitrary()
    }
}

impl<const LANES: usize> From<SimdMask<i64, LANES>> for SimdMask<i16, LANES> where SimdMask<i64, LANES>: Mask, Self: Mask {
    fn from(value: SimdMask<i64, LANES>) -> (r: Self)
        ensures
            r@ == value@,
    {
        value.cast::<i16>()
    }
}

impl<const LANES: usize> FromSpecImpl<SimdMask<i64, LANES>> for SimdMask<i16, LANES> where SimdMask<i64, LANES>: Mask, Self: Mask {
    open spec fn obeys_from_spec() -> bool {
        false
    }

    open spec fn from_spec(value: SimdMask<i64, LANES>) -> Self {
        arbitrary()
    }
}

impl<const LANES: usize> From<SimdMask<i64, LANES>> for SimdMask<i32, LANES> where SimdMask<i64, LANES>: Mask, Self: Mask {
    fn from(value: SimdMask<i64, LANES>) -> (r: Self)
        ensures
            r@ == value@,
    {
        value.cast::<i32>()
    }
}

impl<const LANES: usize> FromSpecImpl<SimdMask<i64, LANES>> for SimdMask<i32, LANES> where SimdMask<i64, LANES>: Mask, Self: Mask {
    open spec fn obeys_from_spec() -> bool {
        false
    }

    open spec fn from_spec(value: SimdMask<i64, LANES>) -> Self {
        arbitrary()
    }
}

impl<const LANES: usize> From<SimdMask<i64, LANES>> for SimdMask<isize, LANES> where SimdMask<i64, LANES>: Mask, Self: Mask {
    fn from(value: SimdMask<i64, LANES>) -> (r: Self)
        ensures
            r@ == value@,
    {
        value.cast::<isize>()
    }
}

impl<const LANES: usize> FromSpecImpl<SimdMask<i64, LANES>> for SimdMask<isize, LANES> where SimdMask<i64, LANES>: Mask, Self: Mask {
    open spec fn obeys_from_spec() -> bool {
        false
    }

    open spec fn from_spec(value: SimdMask<i64, LANES>) -> Self {
        arbitrary()
    }
}

impl<const LANES: usize> From<SimdMask<isize, LANES>> for SimdMask<i8, LANES> where SimdMask<isize, LANES>: Mask, Self: Mask {
    fn from(value: SimdMask<isize, LANES>) -> (r: Self)
        ensures
            r@ == value@,
    {
        value.cast::<i8>()
    }
}

impl<const LANES: usize> FromSpecImpl<SimdMask<isize, LANES>> for SimdMask<i8, LANES> where SimdMask<isize, LANES>: Mask, Self: Mask {
    open spec fn obeys_from_spec() -> bool {
        false
    }

    open spec fn from_spec(value: SimdMask<isize, LANES>) -> Self {
        arbitrary()
    }
}

impl<const LANES: usize> From<SimdMask<isize, LANES>> for SimdMask<i16, LANES> where SimdMask<isize, LANES>: Mask, Self: Mask {
    fn from(value: SimdMask<isize, LANES>) -> (r: Self)
        ensures
            r@ == value@,
    {
        value.cast::<i16>()
    }
}

impl<const LANES: usize> FromSpecImpl<SimdMask<isize, LANES>> for SimdMask<i16, LANES> where SimdMask<isize, LANES>: Mask, Self: Mask {
    open spec fn obeys_from_spec() -> bool {
        false
    }

    open spec fn from_spec(value: SimdMask<isize, LANES>) -> Self {
        arbitrary()
    }
}

impl<const LANES: usize> From<SimdMask<isize, LANES>> for SimdMask<i32, LANES> where SimdMask<isize, LANES>: Mask, Self: Mask {
    fn from(value: SimdMask<isize, LANES>) -> (r: Self)
        ensures
            r@ == value@,
    {
        value.cast::<i32>()
    }
}

impl<const LANES: usize> FromSpecImpl<SimdMask<isize, LANES>> for SimdMask<i32, LANES> where SimdMask<isize, LANES>: Mask, Self: Mask {
    open spec fn obeys_from_spec() -> bool {
        false
    }

    open spec fn from_spec(value: SimdMask<isize, LANES>) -> Self {
        arbitrary()
    }
}

impl<const LANES: usize> From<SimdMask<isize, LANES>> for SimdMask<i64, LANES> where SimdMask<isize, LANES>: Mask, Self: Mask {
    fn from(value: SimdMask<isize, LANES>) -> (r: Self)
        ensures
            r@ == value@,
    {
        value.cast::<i64>()
    }
}

impl<const LANES: usize> FromSpecImpl<SimdMask<isize, LANES>> for SimdMask<i64, LANES> where SimdMask<isize, LANES>: Mask, Self: Mask {
    open spec fn obeys_from_spec() -> bool {
        false
    }

    open spec fn from_spec(value: SimdMask<isize, LANES>) -> Self {
        arbitrary()
    }
}

} // verus!
