//! The entropy coding of Zstandard: bits that are read forwards and
//! backwards, and the tables of the finite-state coder.
//!
//! Every function here gives `None` for input that breaks a rule of the
//! format, and also wherever a number leaves the range that the format
//! allows for it.

use crate::zoom::power_of_two;
use vstd::arithmetic::power2::{lemma2_to64, lemma_pow2_strictly_increases, lemma_pow2_unfold, pow2};
use vstd::prelude::*;

verus! {

/// The largest number of bytes of a stream of bits.
pub const MAX_STREAM: usize = 0x100_0000;

/// The bit at a place of the bytes, counted from the lowest bit of the
/// first byte on; 0 at a place outside the bytes.
pub open spec fn bit_at(s: Seq<u8>, pos: int) -> int {
    if 0 <= pos < 8 * s.len() {
        (s[pos / 8] as int / pow2((pos % 8) as nat) as int) % 2
    } else {
        0
    }
}

/// The number that `count` bits hold from the place `lo` on, the lowest
/// bit first.
pub open spec fn bits_value(s: Seq<u8>, lo: int, count: nat) -> int
    decreases count,
{
    if count == 0 {
        0
    } else {
        bit_at(s, lo) + 2 * bits_value(s, lo + 1, (count - 1) as nat)
    }
}

/// A number of `count` bits is below two to the power of `count`.
pub proof fn lemma_bits_bound(s: Seq<u8>, lo: int, count: nat)
    ensures
        0 <= bits_value(s, lo, count) < pow2(count),
    decreases count,
{
    lemma2_to64();
    if count > 0 {
        lemma_bits_bound(s, lo + 1, (count - 1) as nat);
        lemma_pow2_unfold(count);
    }
}

/// Two to the power of `exponent`.
pub fn power(exponent: u32) -> (p: i64)
    requires
        exponent <= 32,
    ensures
        p == pow2(exponent as nat),
        1 <= p <= 0x1_0000_0000,
{
    proof {
        lemma2_to64();
        if exponent < 32 {
            lemma_pow2_strictly_increases(exponent as nat, 32);
        }
    }
    power_of_two(exponent) as i64
}

/// The bit at a place of the bytes.
fn read_bit(s: &[u8], pos: i64) -> (bit: i64)
    ensures
        bit == bit_at(s@, pos as int),
        0 <= bit <= 1,
{
    if pos < 0 || (pos / 8) as u64 >= s.len() as u64 {
        return 0;
    }
    let byte: i64 = s[(pos / 8) as usize] as i64;
    (byte / power((pos % 8) as u32)) % 2
}

/// The number that `count` bits hold from the place `lo` on.
pub fn read_bits(s: &[u8], lo: i64, count: u32) -> (value: i64)
    requires
        count <= 32,
        -0x1_0000_0000 <= lo <= 0x1_0000_0000,
    ensures
        value == bits_value(s@, lo as int, count as nat),
        0 <= value <= 0xffff_ffff,
{
    let mut value: i64 = 0;
    let mut left: u32 = count;
    proof {
        lemma2_to64();
    }
    while left > 0
        invariant
            left <= count <= 32,
            -0x1_0000_0000 <= lo <= 0x1_0000_0000,
            value == bits_value(s@, lo + left, (count - left) as nat),
            0 <= value < pow2((count - left) as nat),
        decreases left,
    {
        proof {
            lemma_pow2_unfold((count - left + 1) as nat);
            lemma_pow2_strictly_increases((count - left) as nat, 33);
            vstd::arithmetic::power2::lemma2_to64_rest();
        }
        left = left - 1;
        value = read_bit(s, lo + left as i64) + 2 * value;
    }
    proof {
        lemma_bits_bound(s@, lo as int, count as nat);
        if count < 32 {
            lemma_pow2_strictly_increases(count as nat, 32);
        }
    }
    value
}

/// The place of the highest bit of a number that is set, looked for from
/// `n` on: the least place from `n` on such that the number is below two to
/// the power of the next place, and 32 at most.
pub open spec fn highest_bit_from(x: int, n: nat) -> nat
    decreases 32 - n,
{
    if n >= 32 || x < pow2(n + 1) {
        n
    } else {
        highest_bit_from(x, n + 1)
    }
}

/// The place of the highest bit of a number that is set; 0 for 0.
pub open spec fn highest_bit(x: int) -> nat {
    highest_bit_from(x, 0)
}

/// The place of the highest bit of a number that is set.
pub fn highest_bit_of(x: i64) -> (n: u32)
    ensures
        n == highest_bit(x as int),
        n <= 32,
{
    let mut n: u32 = 0;
    while n < 32 && x >= power(n + 1)
        invariant
            n <= 32,
            highest_bit_from(x as int, n as nat) == highest_bit(x as int),
        decreases 32 - n,
    {
        n = n + 1;
    }
    n
}

/// One state of a table of the finite-state coder: the symbol that the
/// state stands for, how many bits are read to leave it, and the number
/// that is added to them to give the next state.
#[derive(Clone, Copy, Debug)]
pub struct FseEntry {
    pub symbol: u8,
    pub bits: u8,
    pub base: u16,
}

/// The counts with `repeat` more symbols that do not occur.
pub open spec fn with_zeros(counts: Seq<i32>, repeat: int) -> Seq<i32> {
    counts + Seq::new(repeat as nat, |i: int| 0i32)
}

/// The counts after the flags that follow a symbol that does not occur:
/// two bits say how many more symbols do not occur, and the number 3 says
/// that two more bits follow. Gives the counts and the place behind the
/// flags.
pub open spec fn zeros_from(s: Seq<u8>, pos: int, counts: Seq<i32>) -> Option<(Seq<i32>, int)>
    decreases 8 * s.len() - pos,
{
    if pos < 0 || pos + 2 > 8 * s.len() {
        None
    } else {
        let repeat = bits_value(s, pos, 2);
        if repeat == 3 {
            zeros_from(s, pos + 2, with_zeros(counts, repeat))
        } else {
            Some((with_zeros(counts, repeat), pos + 2))
        }
    }
}

/// The counts of the symbols, read from the place `pos` on, while
/// `remaining` of the states of the table are not given out. A count of -1
/// stands for a symbol that takes one state and occurs less often than
/// that. Gives the counts and the place behind them.
pub open spec fn counts_from(s: Seq<u8>, pos: int, remaining: int, counts: Seq<i32>) -> Option<
    (Seq<i32>, int),
>
    decreases 8 * s.len() + 64 - pos,
{
    if remaining == 0 {
        Some((counts, pos))
    } else if pos < 0 || pos >= 8 * s.len() || counts.len() > 255 || remaining < 0 || remaining
        > 512 {
        None
    } else {
        let bits = highest_bit(remaining + 1) + 1;
        if bits < 2 || bits > 16 {
            None
        } else {
            let low = bits_value(s, pos, (bits - 1) as nat);
            let all = bits_value(s, pos, bits);
            let threshold = pow2(bits) - 1 - (remaining + 1);
            let used: int = if low < threshold {
                bits - 1
            } else {
                bits as int
            };
            let value = if low < threshold {
                low
            } else if all >= pow2((bits - 1) as nat) {
                all - threshold
            } else {
                all
            };
            let count = value - 1;
            let taken = if count < 0 {
                1
            } else {
                count
            };
            if taken > remaining {
                None
            } else if count == 0 {
                match zeros_from(s, pos + used, counts.push(0i32)) {
                    None => None,
                    Some((more, next)) => if next <= pos || next > 8 * s.len() {
                        None
                    } else {
                        counts_from(s, next, remaining, more)
                    },
                }
            } else {
                counts_from(s, pos + used, remaining - taken, counts.push(count as i32))
            }
        }
    }
}

/// What the description of a table says: the counts of the symbols, the
/// number of bits of a state, and how many bytes the description takes.
/// The first four bits hold the number of bits of a state less 5.
pub open spec fn table_description(s: Seq<u8>, max_accuracy: int) -> Option<(Seq<i32>, int, int)> {
    let accuracy = 5 + bits_value(s, 0, 4);
    if accuracy > max_accuracy || accuracy > 9 || s.len() > MAX_STREAM {
        None
    } else {
        match counts_from(s, 4, pow2(accuracy as nat) as int, Seq::empty()) {
            None => None,
            Some((counts, pos)) => if pos > 8 * s.len() || pos < 0 || counts.len() > 256 {
                None
            } else {
                Some((counts, accuracy, (pos + 7) / 8))
            },
        }
    }
}

/// Reads the flags that follow a symbol that does not occur.
fn read_zeros(s: &[u8], pos: i64, counts: &mut Vec<i32>) -> (next: Option<i64>)
    requires
        s@.len() <= MAX_STREAM,
        0 <= pos <= 0x1000_0000,
    ensures
        match next {
            Some(place) => zeros_from(s@, pos as int, old(counts)@) == Some(
                (final(counts)@, place as int),
            ) && pos < place <= 8 * s@.len(),
            None => zeros_from(s@, pos as int, old(counts)@) is None,
        },
{
    let mut place: i64 = pos;
    loop
        invariant
            s@.len() <= MAX_STREAM,
            0 <= pos <= place <= 0x1000_0000,
            place == pos || place <= 8 * s@.len(),
            zeros_from(s@, place as int, counts@) == zeros_from(s@, pos as int, old(counts)@),
        decreases 8 * s@.len() - place,
    {
        if place + 2 > 8 * s.len() as i64 {
            return None;
        }
        let repeat: i64 = read_bits(s, place, 2);
        let ghost before = counts@;
        let mut done: i64 = 0;
        assert(counts@ =~= with_zeros(before, 0));
        while done < repeat
            invariant
                0 <= done <= repeat,
                counts@ == with_zeros(before, done as int),
            decreases repeat - done,
        {
            counts.push(0);
            done = done + 1;
            assert(counts@ =~= with_zeros(before, done as int));
        }
        place = place + 2;
        if repeat != 3 {
            return Some(place);
        }
    }
}

/// Reads the counts of the symbols.
fn read_counts(s: &[u8], accuracy: u32) -> (found: Option<(Vec<i32>, i64)>)
    requires
        s@.len() <= MAX_STREAM,
        accuracy <= 9,
    ensures
        match found {
            Some((counts, place)) => counts_from(
                s@,
                4,
                pow2(accuracy as nat) as int,
                Seq::empty(),
            ) == Some((counts@, place as int)) && 0 <= place <= 0x1000_0000,
            None => counts_from(s@, 4, pow2(accuracy as nat) as int, Seq::empty()) is None,
        },
{
    let mut counts: Vec<i32> = Vec::new();
    let mut pos: i64 = 4;
    let mut remaining: i64 = power(accuracy);
    let ghost goal = counts_from(s@, 4, pow2(accuracy as nat) as int, Seq::empty());
    while remaining != 0
        invariant
            s@.len() <= MAX_STREAM,
            0 <= pos <= 0x1000_0000,
            accuracy <= 9,
            goal == counts_from(s@, 4, pow2(accuracy as nat) as int, Seq::empty()),
            counts_from(s@, pos as int, remaining as int, counts@) == goal,
        decreases 8 * s@.len() + 64 - pos,
    {
        if pos >= 8 * s.len() as i64 || counts.len() > 255 || remaining < 0 || remaining > 512 {
            return None;
        }
        let bits: u32 = highest_bit_of(remaining + 1) + 1;
        if bits < 2 || bits > 16 {
            return None;
        }
        let low: i64 = read_bits(s, pos, bits - 1);
        let all: i64 = read_bits(s, pos, bits);
        let threshold: i64 = power(bits) - 1 - (remaining + 1);
        let used: i64 = if low < threshold {
            bits as i64 - 1
        } else {
            bits as i64
        };
        let value: i64 = if low < threshold {
            low
        } else if all >= power(bits - 1) {
            all - threshold
        } else {
            all
        };
        let count: i64 = value - 1;
        let taken: i64 = if count < 0 {
            1
        } else {
            count
        };
        if taken > remaining {
            return None;
        }
        if count == 0 {
            counts.push(0);
            match read_zeros(s, pos + used, &mut counts) {
                None => {
                    return None;
                },
                Some(next) => {
                    pos = next;
                },
            }
        } else {
            counts.push(count as i32);
            pos = pos + used;
            remaining = remaining - taken;
        }
    }
    Some((counts, pos))
}

/// Reads the description of a table.
pub fn read_table_description(s: &[u8], max_accuracy: u32) -> (found: Option<(Vec<i32>, u32, usize)>)
    ensures
        match found {
            Some((counts, accuracy, used)) => table_description(s@, max_accuracy as int) == Some(
                (counts@, accuracy as int, used as int),
            ) && accuracy <= 9 && used <= s@.len() && counts@.len() <= 256,
            None => table_description(s@, max_accuracy as int) is None,
        },
{
    let accuracy: i64 = 5 + read_bits(s, 0, 4);
    if accuracy > max_accuracy as i64 || accuracy > 9 || s.len() > MAX_STREAM {
        return None;
    }
    match read_counts(s, accuracy as u32) {
        None => None,
        Some((counts, pos)) => {
            if pos > 8 * s.len() as i64 || counts.len() > 256 {
                return None;
            }
            Some((counts, accuracy as u32, ((pos + 7) / 8) as usize))
        },
    }
}

/// The cells of a table with the symbols of count -1 set from the top
/// down, in the order of the symbols from `symbol` on. Gives the cells and
/// the lowest cell that was set.
pub open spec fn rare_from(counts: Seq<i32>, cells: Seq<u8>, high: int, symbol: int) -> Option<
    (Seq<u8>, int),
>
    decreases counts.len() - symbol,
{
    if symbol < 0 || symbol >= counts.len() || symbol > 255 {
        Some((cells, high))
    } else if counts[symbol] == -1 {
        if 0 < high <= cells.len() {
            rare_from(counts, cells.update(high - 1, symbol as u8), high - 1, symbol + 1)
        } else {
            None
        }
    } else {
        rare_from(counts, cells, high, symbol + 1)
    }
}

/// The cell that is set after the cell `pos`: a fixed step further, around
/// the end of the table, and further again while that is a cell from
/// `high` on.
pub open spec fn next_cell(pos: int, size: int, high: int, fuel: nat) -> Option<int>
    decreases fuel,
{
    let further = pos + size / 2 + size / 8 + 3;
    let around = if further >= size {
        further - size
    } else {
        further
    };
    if fuel == 0 || around < 0 || around >= size {
        None
    } else if around < high {
        Some(around)
    } else {
        next_cell(around, size, high, (fuel - 1) as nat)
    }
}

/// The cells of a table with the symbols spread over them, each as often
/// as its count says, from the symbol `symbol` on, of which `done` cells
/// are set already. Gives the cells and the cell that would be set next.
pub open spec fn spread_from(
    counts: Seq<i32>,
    cells: Seq<u8>,
    pos: int,
    high: int,
    symbol: int,
    done: int,
) -> Option<(Seq<u8>, int)>
    decreases counts.len() - symbol, if 0 <= symbol < counts.len() {
        counts[symbol] - done
    } else {
        0
    },
{
    if symbol < 0 || symbol >= counts.len() || symbol > 255 {
        Some((cells, pos))
    } else if done < 0 || done >= counts[symbol] {
        spread_from(counts, cells, pos, high, symbol + 1, 0)
    } else if pos < 0 || pos >= cells.len() {
        None
    } else {
        match next_cell(pos, cells.len() as int, high, cells.len()) {
            None => None,
            Some(next) => spread_from(
                counts,
                cells.update(pos, symbol as u8),
                next,
                high,
                symbol,
                done + 1,
            ),
        }
    }
}

/// How many states each symbol has before the states are numbered: its
/// count, and 1 for a count of -1.
pub open spec fn first_numbers(counts: Seq<i32>) -> Seq<i64> {
    Seq::new(
        256,
        |i: int|
            if i < counts.len() {
                if counts[i] == -1 {
                    1i64
                } else {
                    counts[i] as i64
                }
            } else {
                0i64
            },
    )
}

/// The states of a table from the cell `cell` on. The states of a symbol
/// are numbered from its count on, in the order of the cells; a state with
/// the number `x` reads as many bits as the highest bit of `x` lies below
/// the number of bits of a state, and goes on from `x` times two to the
/// power of those bits, less the size of the table.
pub open spec fn states_from(
    cells: Seq<u8>,
    numbers: Seq<i64>,
    accuracy: int,
    cell: int,
    entries: Seq<FseEntry>,
) -> Option<Seq<FseEntry>>
    decreases cells.len() - cell,
{
    if cell < 0 || cell >= cells.len() {
        Some(entries)
    } else if numbers.len() != 256 {
        None
    } else {
        let symbol = cells[cell];
        let number = numbers[symbol as int];
        let high = highest_bit(number as int);
        if number <= 0 || number > 1024 || high > accuracy || accuracy > 9 {
            None
        } else {
            let bits = accuracy - high;
            let base = number * pow2(bits as nat) - cells.len();
            if base < 0 || base > 0xffff {
                None
            } else {
                states_from(
                    cells,
                    numbers.update(symbol as int, (number + 1) as i64),
                    accuracy,
                    cell + 1,
                    entries.push(FseEntry { symbol, bits: bits as u8, base: base as u16 }),
                )
            }
        }
    }
}

/// The table that the counts of the symbols give, with states of
/// `accuracy` bits.
pub open spec fn fse_table(counts: Seq<i32>, accuracy: int) -> Option<Seq<FseEntry>> {
    if accuracy < 0 || accuracy > 9 || counts.len() > 256 {
        None
    } else {
        let size = pow2(accuracy as nat);
        match rare_from(counts, Seq::new(size, |i: int| 0u8), size as int, 0) {
            None => None,
            Some((rare, high)) => match spread_from(counts, rare, 0, high, 0, 0) {
                None => None,
                Some((cells, pos)) => if pos != 0 || cells.len() != size {
                    None
                } else {
                    states_from(cells, first_numbers(counts), accuracy, 0, Seq::empty())
                },
            },
        }
    }
}

/// The cell that is set after the cell `pos`.
fn find_next_cell(pos: i64, size: i64, high: i64) -> (next: Option<i64>)
    requires
        0 <= size <= 512,
        0 <= pos < size,
    ensures
        match next {
            Some(cell) => next_cell(pos as int, size as int, high as int, size as nat) == Some(
                cell as int,
            ) && 0 <= cell < size,
            None => next_cell(pos as int, size as int, high as int, size as nat) is None,
        },
{
    let mut cell: i64 = pos;
    let mut fuel: i64 = size;
    loop
        invariant
            0 <= size <= 512,
            0 <= cell < size,
            0 <= fuel <= size,
            next_cell(cell as int, size as int, high as int, fuel as nat) == next_cell(
                pos as int,
                size as int,
                high as int,
                size as nat,
            ),
        decreases fuel,
    {
        let further: i64 = cell + size / 2 + size / 8 + 3;
        let around: i64 = if further >= size {
            further - size
        } else {
            further
        };
        if fuel == 0 || around < 0 || around >= size {
            return None;
        }
        if around < high {
            return Some(around);
        }
        cell = around;
        fuel = fuel - 1;
    }
}

/// The table that the counts of the symbols give.
#[verifier::loop_isolation(false)]
pub fn make_fse_table(counts: &Vec<i32>, accuracy: u32) -> (table: Option<Vec<FseEntry>>)
    ensures
        match table {
            Some(entries) => fse_table(counts@, accuracy as int) == Some(entries@),
            None => fse_table(counts@, accuracy as int) is None,
        },
{
    if accuracy > 9 || counts.len() > 256 {
        return None;
    }
    let size: i64 = power(accuracy);
    proof {
        lemma2_to64();
        if accuracy < 9 {
            lemma_pow2_strictly_increases(accuracy as nat, 9);
        }
    }
    let mut cells: Vec<u8> = Vec::new();
    while (cells.len() as i64) < size
        invariant
            0 <= size <= 512,
            cells@.len() <= size,
            forall|i: int| 0 <= i < cells@.len() ==> cells@[i] == 0u8,
        decreases size - cells@.len(),
    {
        cells.push(0);
    }
    let ghost empty = Seq::new(size as nat, |i: int| 0u8);
    assert(cells@ =~= empty);
    // The symbols of count -1, from the top down.
    let mut high: i64 = size;
    let mut symbol: usize = 0;
    while symbol < counts.len() && symbol <= 255
        invariant
            0 <= size <= 512,
            cells@.len() == size,
            symbol <= counts@.len(),
            high <= size,
            rare_from(counts@, cells@, high as int, symbol as int) == rare_from(
                counts@,
                empty,
                size as int,
                0,
            ),
        decreases counts@.len() - symbol,
    {
        if counts[symbol] == -1 {
            if !(0 < high) {
                return None;
            }
            cells[(high - 1) as usize] = symbol as u8;
            high = high - 1;
        }
        symbol = symbol + 1;
    }
    let ghost rare = cells@;
    // The other symbols, spread over the cells.
    let mut pos: i64 = 0;
    let mut symbol: usize = 0;
    let mut done: i64 = 0;
    while symbol < counts.len() && symbol <= 255
        invariant
            0 <= size <= 512,
            cells@.len() == size,
            symbol <= counts@.len(),
            0 <= done,
            spread_from(counts@, cells@, pos as int, high as int, symbol as int, done as int)
                == spread_from(counts@, rare, 0, high as int, 0, 0),
        decreases counts@.len() - symbol, if symbol < counts@.len() {
            counts@[symbol as int] - done
        } else {
            0
        },
    {
        if done >= counts[symbol] as i64 {
            symbol = symbol + 1;
            done = 0;
        } else {
            if pos < 0 || pos >= size {
                return None;
            }
            match find_next_cell(pos, size, high) {
                None => {
                    return None;
                },
                Some(next) => {
                    cells[pos as usize] = symbol as u8;
                    pos = next;
                    done = done + 1;
                },
            }
        }
    }
    if pos != 0 {
        return None;
    }
    // The numbers of the states.
    let mut numbers: Vec<i64> = Vec::new();
    while numbers.len() < 256
        invariant
            numbers@.len() <= 256,
            forall|i: int| 0 <= i < numbers@.len() ==> numbers@[i] == first_numbers(counts@)[i],
        decreases 256 - numbers@.len(),
    {
        let i: usize = numbers.len();
        numbers.push(
            if i < counts.len() {
                if counts[i] == -1 {
                    1
                } else {
                    counts[i] as i64
                }
            } else {
                0
            },
        );
    }
    assert(numbers@ =~= first_numbers(counts@));
    let mut entries: Vec<FseEntry> = Vec::new();
    let mut cell: usize = 0;
    while cell < cells.len()
        invariant
            0 <= size <= 512,
            cells@.len() == size,
            accuracy <= 9,
            cell <= cells@.len(),
            numbers@.len() == 256,
            states_from(cells@, numbers@, accuracy as int, cell as int, entries@) == states_from(
                cells@,
                first_numbers(counts@),
                accuracy as int,
                0,
                Seq::empty(),
            ),
        decreases cells@.len() - cell,
    {
        let symbol: u8 = cells[cell];
        let number: i64 = numbers[symbol as usize];
        let top: u32 = highest_bit_of(number);
        if number <= 0 || number > 1024 || top > accuracy {
            return None;
        }
        let bits: u32 = accuracy - top;
        let factor: i64 = power(bits);
        assert(number * factor <= 1024 * 0x1_0000_0000) by (nonlinear_arith)
            requires
                0 < number <= 1024,
                0 < factor <= 0x1_0000_0000,
        ;
        let base: i64 = number * factor - size;
        if base < 0 || base > 0xffff {
            return None;
        }
        numbers[symbol as usize] = number + 1;
        entries.push(FseEntry { symbol, bits: bits as u8, base: base as u16 });
        cell = cell + 1;
    }
    Some(entries)
}

/// Whether a number is a place in a list of the given length.
pub fn is_place(index: i64, len: usize) -> (within: bool)
    ensures
        within == (0 <= index < len),
{
    index >= 0 && (index as u64) < (len as u64)
}

} // verus!
