//! Sparse vectors over the nine dimensions: the coordinate of a sub-block and
//! the bounds of a document.
//!
//! Both are stored packed. A validity mask says which dimensions are present,
//! and the values of the present dimensions stand side by side at the start of
//! a fixed array, in the order of their bits.

use crate::dimension::{bit_is_set, rank, Dimension};
use vstd::prelude::*;

verus! {

/// The coordinate of a sub-block: a value for each dimension that is present.
///
/// Bit `i` of `dimensions_valid` says whether the dimension with number
/// `i + 1` is present. `value[k]` belongs to the present dimension with `k`
/// present dimensions below it. With `dimensions_valid == 0b11` and
/// `value == [0, 2, ..]` the coordinate is Z = 0, C = 2.
#[derive(Clone, Copy, Debug)]
pub struct Coordinate {
    pub dimensions_valid: u32,
    pub value: [i32; 9],
}

/// The bounds of a set of dimensions: a start and a size for each dimension
/// that is present, packed as in a [`Coordinate`]. A dimension with start `s`
/// and size `n` spans the values from `s` up to, but not including, `s + n`.
#[derive(Clone, Copy, Debug)]
pub struct DimBounds {
    pub dimensions_valid: u32,
    pub start: [i32; 9],
    pub size: [i32; 9],
}

/// The start and the size of one dimension.
#[derive(Clone, Copy, Debug, PartialEq, Eq, Structural)]
pub struct Interval {
    pub start: i32,
    pub size: i32,
}

/// The largest validity mask that names known dimensions only.
pub const ALL_DIMENSIONS: u32 = 0x1ff;

/// Setting one bit of a mask sets that bit and leaves the others as they were.
pub proof fn lemma_set_bit(mask: u32, bit: u32, other: u32)
    requires
        bit < 32,
        other < 32,
    ensures
        bit_is_set(mask | (1u32 << bit), other) == (other == bit || bit_is_set(mask, other)),
{
    assert(((mask | (1u32 << bit)) >> other) & 1 == 1 <==> (other == bit || (mask >> other) & 1 == 1))
        by (bit_vector)
        requires
            bit < 32,
            other < 32,
    ;
}

/// No bit of the empty mask is set.
pub proof fn lemma_no_bit_of_zero(bit: u32)
    requires
        bit < 32,
    ensures
        !bit_is_set(0, bit),
{
    assert((0u32 >> bit) & 1 != 1) by (bit_vector)
        requires
            bit < 32,
    ;
}

/// A mask whose bits from the ninth on are clear names known dimensions only.
pub proof fn lemma_mask_bound(mask: u32)
    requires
        forall|bit: u32| 9 <= bit < 32 ==> !bit_is_set(mask, bit),
    ensures
        mask <= ALL_DIMENSIONS,
{
    assert(!bit_is_set(mask, 9));
    assert(!bit_is_set(mask, 10));
    assert(!bit_is_set(mask, 11));
    assert(!bit_is_set(mask, 12));
    assert(!bit_is_set(mask, 13));
    assert(!bit_is_set(mask, 14));
    assert(!bit_is_set(mask, 15));
    assert(!bit_is_set(mask, 16));
    assert(!bit_is_set(mask, 17));
    assert(!bit_is_set(mask, 18));
    assert(!bit_is_set(mask, 19));
    assert(!bit_is_set(mask, 20));
    assert(!bit_is_set(mask, 21));
    assert(!bit_is_set(mask, 22));
    assert(!bit_is_set(mask, 23));
    assert(!bit_is_set(mask, 24));
    assert(!bit_is_set(mask, 25));
    assert(!bit_is_set(mask, 26));
    assert(!bit_is_set(mask, 27));
    assert(!bit_is_set(mask, 28));
    assert(!bit_is_set(mask, 29));
    assert(!bit_is_set(mask, 30));
    assert(!bit_is_set(mask, 31));
    assert(mask <= 0x1ff) by (bit_vector)
        requires
            (mask >> 9) & 1 != 1,
            (mask >> 10) & 1 != 1,
            (mask >> 11) & 1 != 1,
            (mask >> 12) & 1 != 1,
            (mask >> 13) & 1 != 1,
            (mask >> 14) & 1 != 1,
            (mask >> 15) & 1 != 1,
            (mask >> 16) & 1 != 1,
            (mask >> 17) & 1 != 1,
            (mask >> 18) & 1 != 1,
            (mask >> 19) & 1 != 1,
            (mask >> 20) & 1 != 1,
            (mask >> 21) & 1 != 1,
            (mask >> 22) & 1 != 1,
            (mask >> 23) & 1 != 1,
            (mask >> 24) & 1 != 1,
            (mask >> 25) & 1 != 1,
            (mask >> 26) & 1 != 1,
            (mask >> 27) & 1 != 1,
            (mask >> 28) & 1 != 1,
            (mask >> 29) & 1 != 1,
            (mask >> 30) & 1 != 1,
            (mask >> 31) & 1 != 1,
    ;
}

/// Two masks that agree on the bits below `bit` give the same rank there.
pub proof fn lemma_rank_depends_on_lower_bits(first: u32, second: u32, bit: u32)
    requires
        forall|below: u32| below < bit ==> bit_is_set(first, below) == bit_is_set(second, below),
    ensures
        rank(first, bit) == rank(second, bit),
    decreases bit,
{
    if bit > 0 {
        lemma_rank_depends_on_lower_bits(first, second, (bit - 1) as u32);
    }
}

/// How many of the bits below `bit` are set in `mask`.
pub fn rank_of(mask: u32, bit: u32) -> (place: usize)
    requires
        bit < 32,
    ensures
        place == rank(mask, bit),
        place <= bit,
{
    let mut place: usize = 0;
    let mut below: u32 = 0;
    while below < bit
        invariant
            below <= bit < 32,
            place == rank(mask, below),
            place <= below,
        decreases bit - below,
    {
        if (mask >> below) & 1 == 1 {
            place = place + 1;
        }
        below = below + 1;
    }
    place
}

impl Coordinate {
    /// Whether the mask names known dimensions only.
    pub open spec fn is_valid_spec(self) -> bool {
        self.dimensions_valid <= ALL_DIMENSIONS
    }

    /// The value of a dimension, if the dimension is present.
    pub open spec fn value_of(self, dimension: Dimension) -> Option<i32> {
        if bit_is_set(self.dimensions_valid, dimension.bit_spec()) {
            Some(self.value[rank(self.dimensions_valid, dimension.bit_spec()) as int])
        } else {
            None
        }
    }

    /// Whether two coordinates have the same dimensions present, with the
    /// same values.
    pub open spec fn same_position_spec(self, other: Coordinate) -> bool {
        forall|dimension: Dimension| self.value_of(dimension) == other.value_of(dimension)
    }

    /// What `pack` stores for a dimension.
    pub open spec fn unpacked(present: [bool; 9], values: [i32; 9], dimension: Dimension) -> Option<
        i32,
    > {
        if present[dimension.bit_spec() as int] {
            Some(values[dimension.bit_spec() as int])
        } else {
            None
        }
    }

    pub fn new(dimensions_valid: u32, value: [i32; 9]) -> (coordinate: Self)
        ensures
            coordinate.dimensions_valid == dimensions_valid,
            coordinate.value == value,
    {
        Coordinate { dimensions_valid, value }
    }

    /// The coordinate that has `values[i]` for the dimension with number
    /// `i + 1` wherever `present[i]` holds, and no other dimension.
    pub fn pack(present: [bool; 9], values: [i32; 9]) -> (coordinate: Self)
        ensures
            coordinate.is_valid_spec(),
            forall|dimension: Dimension|
                coordinate.value_of(dimension) == Coordinate::unpacked(present, values, dimension),
    {
        let packed = pack_columns(present, values, [0i32;9]);
        let coordinate = Coordinate { dimensions_valid: packed.0, value: packed.1 };
        assert forall|dimension: Dimension|
            coordinate.value_of(dimension) == Coordinate::unpacked(present, values, dimension) by {
            assert(dimension.bit_spec() < 9);
        }
        coordinate
    }

    pub fn get_dimensions_valid(&self) -> (dimensions_valid: u32)
        ensures
            dimensions_valid == self.dimensions_valid,
    {
        self.dimensions_valid
    }

    pub fn get_value(&self) -> (value: [i32; 9])
        ensures
            value == self.value,
    {
        self.value
    }

    pub fn set_dimensions_valid(&mut self, dimensions_valid: u32)
        ensures
            final(self).dimensions_valid == dimensions_valid,
            final(self).value == old(self).value,
    {
        self.dimensions_valid = dimensions_valid;
    }

    pub fn set_value(&mut self, value: [i32; 9])
        ensures
            final(self).value == value,
            final(self).dimensions_valid == old(self).dimensions_valid,
    {
        self.value = value;
    }

    /// Whether the mask names known dimensions only.
    pub fn is_valid(&self) -> (valid: bool)
        ensures
            valid == self.is_valid_spec(),
    {
        self.dimensions_valid <= ALL_DIMENSIONS
    }

    /// The value of a dimension, or `None` where the dimension is absent.
    pub fn try_get(&self, dimension: Dimension) -> (value: Option<i32>)
        ensures
            value == self.value_of(dimension),
    {
        let bit: u32 = dimension.bit();
        if (self.dimensions_valid >> bit) & 1 == 1 {
            let place: usize = rank_of(self.dimensions_valid, bit);
            Some(self.value[place])
        } else {
            None
        }
    }

    /// Whether two coordinates have the same dimensions present, with the
    /// same values.
    pub fn same_position(&self, other: &Coordinate) -> (same: bool)
        ensures
            same == self.same_position_spec(*other),
    {
        let mut number: i32 = 1;
        while number <= 9
            invariant
                1 <= number <= 10,
                forall|dimension: Dimension|
                    dimension.index_spec() < number ==> self.value_of(dimension) == other.value_of(
                        dimension,
                    ),
            decreases 10 - number,
        {
            let found = Dimension::try_from(number);
            match found {
                Ok(dimension) => {
                    let mine = self.try_get(dimension);
                    let theirs = other.try_get(dimension);
                    let equal = match (mine, theirs) {
                        (None, None) => true,
                        (Some(a), Some(b)) => a == b,
                        _ => false,
                    };
                    if !equal {
                        return false;
                    }
                    assert forall|d: Dimension| d.index_spec() < number + 1 implies self.value_of(d)
                        == other.value_of(d) by {
                        if d.index_spec() == number {
                            assert(d == dimension);
                        }
                    }
                },
                Err(_) => {},
            }
            number = number + 1;
        }
        true
    }
}

/// Packs two columns of values: for each `i` with `present[i]`, in rising
/// order, `first[i]` and `second[i]` are put at the next free place.
fn pack_columns(present: [bool; 9], first: [i32; 9], second: [i32; 9]) -> (packed: (
    u32,
    [i32; 9],
    [i32; 9],
))
    ensures
        packed.0 <= ALL_DIMENSIONS,
        forall|bit: u32| bit < 9 ==> bit_is_set(packed.0, bit) == present[bit as int],
        forall|bit: u32|
            bit < 9 && present[bit as int] ==> {
                &&& rank(packed.0, bit) < 9
                &&& packed.1[rank(packed.0, bit) as int] == first[bit as int]
                &&& packed.2[rank(packed.0, bit) as int] == second[bit as int]
            },
{
    let mut mask: u32 = 0;
    let mut one: [i32; 9] = [0i32;9];
    let mut two: [i32; 9] = [0i32;9];
    let mut place: usize = 0;
    let mut bit: u32 = 0;
    proof {
        assert forall|k: u32| k < 32 implies !bit_is_set(0u32, k) by {
            lemma_no_bit_of_zero(k);
        }
    }
    while bit < 9
        invariant
            bit <= 9,
            place == rank(mask, bit),
            place <= bit,
            forall|k: u32| bit <= k < 32 ==> !bit_is_set(mask, k),
            forall|k: u32| k < bit ==> bit_is_set(mask, k) == present[k as int],
            forall|k: u32|
                k < bit && present[k as int] ==> {
                    &&& rank(mask, k) < place
                    &&& one[rank(mask, k) as int] == first[k as int]
                    &&& two[rank(mask, k) as int] == second[k as int]
                },
        decreases 9 - bit,
    {
        let ghost before = mask;
        let ghost one_before = one;
        let ghost two_before = two;
        if present[bit as usize] {
            one[place] = first[bit as usize];
            two[place] = second[bit as usize];
            mask = mask | (1u32 << bit);
            proof {
                assert forall|k: u32| k < 32 implies bit_is_set(mask, k) == (k == bit || bit_is_set(
                    before,
                    k,
                )) by {
                    lemma_set_bit(before, bit, k);
                }
                assert forall|k: u32| k <= bit implies rank(mask, k) == rank(before, k) by {
                    lemma_rank_depends_on_lower_bits(mask, before, k);
                }
                assert(rank(mask, (bit + 1) as u32) == place + 1);
            }
            place = place + 1;
        } else {
            proof {
                assert(rank(mask, (bit + 1) as u32) == place);
            }
        }
        bit = bit + 1;
    }
    proof {
        lemma_mask_bound(mask);
    }
    (mask, one, two)
}

impl DimBounds {
    /// Whether the mask names known dimensions only, and no size is negative.
    pub open spec fn is_valid_spec(self) -> bool {
        &&& self.dimensions_valid <= ALL_DIMENSIONS
        &&& forall|dimension: Dimension|
            (#[trigger] self.interval_of(dimension)) matches Some(interval) ==> interval.size >= 0
    }

    /// The start and the size of a dimension, if the dimension is present.
    pub open spec fn interval_of(self, dimension: Dimension) -> Option<Interval> {
        if bit_is_set(self.dimensions_valid, dimension.bit_spec()) {
            let place = rank(self.dimensions_valid, dimension.bit_spec()) as int;
            Some(Interval { start: self.start[place], size: self.size[place] })
        } else {
            None
        }
    }

    /// What `pack` stores for a dimension.
    pub open spec fn unpacked(
        present: [bool; 9],
        start: [i32; 9],
        size: [i32; 9],
        dimension: Dimension,
    ) -> Option<Interval> {
        if present[dimension.bit_spec() as int] {
            Some(
                Interval {
                    start: start[dimension.bit_spec() as int],
                    size: size[dimension.bit_spec() as int],
                },
            )
        } else {
            None
        }
    }

    pub fn new(dimensions_valid: u32, start: [i32; 9], size: [i32; 9]) -> (bounds: Self)
        ensures
            bounds.dimensions_valid == dimensions_valid,
            bounds.start == start,
            bounds.size == size,
    {
        DimBounds { dimensions_valid, start, size }
    }

    /// The bounds that have start `start[i]` and size `size[i]` for the
    /// dimension with number `i + 1` wherever `present[i]` holds, and no
    /// other dimension.
    pub fn pack(present: [bool; 9], start: [i32; 9], size: [i32; 9]) -> (bounds: Self)
        ensures
            bounds.dimensions_valid <= ALL_DIMENSIONS,
            forall|dimension: Dimension|
                bounds.interval_of(dimension) == DimBounds::unpacked(present, start, size, dimension),
    {
        let packed = pack_columns(present, start, size);
        let bounds = DimBounds { dimensions_valid: packed.0, start: packed.1, size: packed.2 };
        assert forall|dimension: Dimension|
            bounds.interval_of(dimension) == DimBounds::unpacked(
                present,
                start,
                size,
                dimension,
            ) by {
            assert(dimension.bit_spec() < 9);
        }
        bounds
    }

    pub fn get_dimensions_valid(&self) -> (dimensions_valid: u32)
        ensures
            dimensions_valid == self.dimensions_valid,
    {
        self.dimensions_valid
    }

    pub fn get_start(&self) -> (start: [i32; 9])
        ensures
            start == self.start,
    {
        self.start
    }

    pub fn get_size(&self) -> (size: [i32; 9])
        ensures
            size == self.size,
    {
        self.size
    }

    pub fn set_dimensions_valid(&mut self, dimensions_valid: u32)
        ensures
            final(self).dimensions_valid == dimensions_valid,
            final(self).start == old(self).start,
            final(self).size == old(self).size,
    {
        self.dimensions_valid = dimensions_valid;
    }

    pub fn set_start(&mut self, start: [i32; 9])
        ensures
            final(self).start == start,
            final(self).dimensions_valid == old(self).dimensions_valid,
            final(self).size == old(self).size,
    {
        self.start = start;
    }

    pub fn set_size(&mut self, size: [i32; 9])
        ensures
            final(self).size == size,
            final(self).dimensions_valid == old(self).dimensions_valid,
            final(self).start == old(self).start,
    {
        self.size = size;
    }

    /// The start and the size of a dimension, or `None` where the dimension
    /// is absent.
    pub fn try_get(&self, dimension: Dimension) -> (interval: Option<Interval>)
        ensures
            interval == self.interval_of(dimension),
    {
        let bit: u32 = dimension.bit();
        if (self.dimensions_valid >> bit) & 1 == 1 {
            let place: usize = rank_of(self.dimensions_valid, bit);
            Some(Interval { start: self.start[place], size: self.size[place] })
        } else {
            None
        }
    }
}

} // verus!
