//! The nine dimensions along which sub-blocks are addressed, and the bit
//! masks that say which of them a coordinate or a bound carries.

use crate::error::CziError;
use vstd::prelude::*;
use vstd::std_specs::convert::TryFromSpecImpl;

verus! {

/// The number of dimensions.
pub const DIMENSION_COUNT: usize = 9;

/// One of the dimensions of a document. Each has a number from 1 to 9; bit
/// `n - 1` of a validity mask stands for the dimension with number `n`.
#[derive(Clone, Copy, Debug, PartialEq, Eq, Structural)]
pub enum Dimension {
    /// The Z-dimension.
    Z,
    /// The C-dimension ("channel").
    C,
    /// The T-dimension ("time").
    T,
    /// The R-dimension ("rotation").
    R,
    /// The S-dimension ("scene").
    S,
    /// The I-dimension ("illumination").
    I,
    /// The H-dimension ("phase").
    H,
    /// The V-dimension ("view").
    V,
    /// The B-dimension ("block"), whose use is deprecated.
    B,
}

/// Whether bit `bit` of `mask` is set.
pub open spec fn bit_is_set(mask: u32, bit: u32) -> bool {
    (mask >> bit) & 1 == 1
}

/// How many of the bits below `bit` are set in `mask`: the place that the
/// value of the dimension at `bit` takes in a packed array.
pub open spec fn rank(mask: u32, bit: u32) -> nat
    decreases bit,
{
    if bit == 0 {
        0
    } else {
        let below = (bit - 1) as u32;
        rank(mask, below) + if bit_is_set(mask, below) {
            1nat
        } else {
            0nat
        }
    }
}

/// A rank never exceeds the number of bits counted.
pub proof fn lemma_rank_bound(mask: u32, bit: u32)
    ensures
        rank(mask, bit) <= bit,
    decreases bit,
{
    if bit > 0 {
        lemma_rank_bound(mask, (bit - 1) as u32);
    }
}

/// Ranks grow with the bit: a set bit below `high` has a smaller rank than
/// `high` itself.
pub proof fn lemma_rank_strictly_monotone(mask: u32, low: u32, high: u32)
    requires
        low < high,
        bit_is_set(mask, low),
    ensures
        rank(mask, low) < rank(mask, high),
    decreases high,
{
    if high - 1 > low {
        lemma_rank_strictly_monotone(mask, low, (high - 1) as u32);
    }
}

impl Dimension {
    /// The number of this dimension, from 1 for `Z` to 9 for `B`.
    pub open spec fn index_spec(self) -> int {
        match self {
            Dimension::Z => 1,
            Dimension::C => 2,
            Dimension::T => 3,
            Dimension::R => 4,
            Dimension::S => 5,
            Dimension::I => 6,
            Dimension::H => 7,
            Dimension::V => 8,
            Dimension::B => 9,
        }
    }

    /// The dimension with the given number, if there is one.
    pub open spec fn of_index(index: int) -> Option<Dimension> {
        if index == 1 {
            Some(Dimension::Z)
        } else if index == 2 {
            Some(Dimension::C)
        } else if index == 3 {
            Some(Dimension::T)
        } else if index == 4 {
            Some(Dimension::R)
        } else if index == 5 {
            Some(Dimension::S)
        } else if index == 6 {
            Some(Dimension::I)
        } else if index == 7 {
            Some(Dimension::H)
        } else if index == 8 {
            Some(Dimension::V)
        } else if index == 9 {
            Some(Dimension::B)
        } else {
            None
        }
    }

    /// The bit of a validity mask that stands for this dimension.
    pub open spec fn bit_spec(self) -> u32 {
        (self.index_spec() - 1) as u32
    }

    /// The dimensions numbered 1 to `upto` whose bit is set in `bit_flags`,
    /// in rising order.
    pub open spec fn flagged(bit_flags: u32, upto: int) -> Seq<Dimension>
        decreases upto,
    {
        if upto <= 0 {
            Seq::empty()
        } else {
            let before = Dimension::flagged(bit_flags, upto - 1);
            match Dimension::of_index(upto) {
                Some(dimension) => if bit_is_set(bit_flags, dimension.bit_spec()) {
                    before.push(dimension)
                } else {
                    before
                },
                None => before,
            }
        }
    }

    /// The number of this dimension.
    pub fn index(&self) -> (index: i32)
        ensures
            index == self.index_spec(),
            1 <= index <= 9,
    {
        match self {
            Dimension::Z => 1,
            Dimension::C => 2,
            Dimension::T => 3,
            Dimension::R => 4,
            Dimension::S => 5,
            Dimension::I => 6,
            Dimension::H => 7,
            Dimension::V => 8,
            Dimension::B => 9,
        }
    }

    /// The bit of a validity mask that stands for this dimension.
    pub fn bit(&self) -> (bit: u32)
        ensures
            bit == self.bit_spec(),
            bit < 9,
    {
        match self {
            Dimension::Z => 0,
            Dimension::C => 1,
            Dimension::T => 2,
            Dimension::R => 3,
            Dimension::S => 4,
            Dimension::I => 5,
            Dimension::H => 6,
            Dimension::V => 7,
            Dimension::B => 8,
        }
    }

    /// The dimensions that a validity mask names, in rising order. Bits above
    /// the ninth name no dimension and are passed over.
    pub fn vec_from_bitflags(bit_flags: u32) -> (dimensions: Vec<Dimension>)
        ensures
            dimensions@ == Dimension::flagged(bit_flags, 9),
    {
        let mut dimensions: Vec<Dimension> = Vec::with_capacity(9);
        let mut i: i32 = 1;
        while i <= 9
            invariant
                1 <= i <= 10,
                dimensions@ == Dimension::flagged(bit_flags, i - 1),
            decreases 10 - i,
        {
            let found = Dimension::try_from(i);
            match found {
                Ok(dimension) => {
                    let bit: u32 = dimension.bit();
                    if (bit_flags >> bit) & 1 == 1 {
                        dimensions.push(dimension);
                    }
                },
                Err(_) => {},
            }
            i = i + 1;
        }
        dimensions
    }
}

impl TryFrom<i32> for Dimension {
    type Error = CziError;

    fn try_from(dimension: i32) -> (res: Result<Self, CziError>) {
        match dimension {
            1 => Ok(Dimension::Z),
            2 => Ok(Dimension::C),
            3 => Ok(Dimension::T),
            4 => Ok(Dimension::R),
            5 => Ok(Dimension::S),
            6 => Ok(Dimension::I),
            7 => Ok(Dimension::H),
            8 => Ok(Dimension::V),
            9 => Ok(Dimension::B),
            _ => Err(CziError::UnknownDimension(dimension)),
        }
    }
}

impl TryFromSpecImpl<i32> for Dimension {
    open spec fn obeys_try_from_spec() -> bool {
        true
    }

    open spec fn try_from_spec(dimension: i32) -> Result<Self, CziError> {
        match Dimension::of_index(dimension as int) {
            Some(found) => Ok(found),
            None => Err(CziError::UnknownDimension(dimension)),
        }
    }
}

/// A dimension is found again by its number, and a number by its dimension.
pub proof fn lemma_dimension_index_round_trip(dimension: Dimension, index: int)
    ensures
        Dimension::of_index(dimension.index_spec()) == Some(dimension),
        Dimension::of_index(index) matches Some(found) ==> found.index_spec() == index,
        Dimension::of_index(index) is Some <==> 1 <= index <= 9,
{
}

/// A mask names a dimension exactly when the dimension is among those that
/// `vec_from_bitflags` returns, and these come in strictly rising order.
pub proof fn lemma_flagged_contents(bit_flags: u32, upto: int)
    requires
        0 <= upto <= 9,
    ensures
        forall|d: Dimension|
            Dimension::flagged(bit_flags, upto).contains(d) <==> (d.index_spec() <= upto
                && bit_is_set(bit_flags, d.bit_spec())),
        forall|i: int, j: int|
            0 <= i < j < Dimension::flagged(bit_flags, upto).len() ==> (#[trigger] Dimension::flagged(
                bit_flags,
                upto,
            )[i]).index_spec() < (#[trigger] Dimension::flagged(bit_flags, upto)[j]).index_spec(),
    decreases upto,
{
    if upto > 0 {
        lemma_flagged_contents(bit_flags, upto - 1);
        let before = Dimension::flagged(bit_flags, upto - 1);
        let all = Dimension::flagged(bit_flags, upto);
        let dimension = Dimension::of_index(upto).unwrap();
        assert(dimension.index_spec() == upto);
        assert forall|d: Dimension|
            all.contains(d) <==> (d.index_spec() <= upto && bit_is_set(
                bit_flags,
                d.bit_spec(),
            )) by {
            if bit_is_set(bit_flags, dimension.bit_spec()) {
                assert(all == before.push(dimension));
                if all.contains(d) {
                    let k = choose|k: int| 0 <= k < all.len() && all[k] == d;
                    if k < before.len() {
                        assert(before[k] == d);
                        assert(before.contains(d));
                    }
                }
                if d.index_spec() <= upto && bit_is_set(bit_flags, d.bit_spec()) {
                    if d.index_spec() == upto {
                        assert(d == dimension);
                        assert(all[before.len() as int] == d);
                    } else {
                        assert(before.contains(d));
                        let k = choose|k: int| 0 <= k < before.len() && before[k] == d;
                        assert(all[k] == d);
                    }
                }
            } else {
                assert(all == before);
                if d.index_spec() == upto {
                    assert(d == dimension);
                }
            }
        }
        assert forall|i: int, j: int| 0 <= i < j < all.len() implies (#[trigger] all[i]).index_spec()
            < (#[trigger] all[j]).index_spec() by {
            if j == before.len() {
                assert(before.contains(before[i]));
            }
        }
    }
}

} // verus!
