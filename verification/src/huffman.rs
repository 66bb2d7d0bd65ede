//! The Huffman coding of Zstandard: the weights of the symbols, the table
//! that they give, and the streams of bits that are read backwards with it.

use crate::entropy::{
    bits_value, fse_table, highest_bit, highest_bit_of, is_place, make_fse_table, power, read_bits,
    read_table_description, table_description, FseEntry, MAX_STREAM,
};
use vstd::arithmetic::power2::pow2;
use vstd::prelude::*;
use vstd::slice::slice_subrange;

verus! {

/// One entry of a Huffman table: the symbol that the bits at hand stand
/// for, and how many of them belong to it.
#[derive(Clone, Copy, Debug)]
pub struct HuffEntry {
    pub symbol: u8,
    pub bits: u8,
}

/// How many bits a stream holds that is read backwards: those below the
/// highest bit that is set in its last byte. `None` for a stream without
/// bytes, and for one whose last byte is 0.
pub open spec fn stream_bits(s: Seq<u8>) -> Option<int> {
    if s.len() == 0 || s.len() > MAX_STREAM || s[s.len() - 1] == 0 {
        None
    } else {
        Some(8 * (s.len() - 1) + highest_bit(s[s.len() - 1] as int))
    }
}

/// How many bits a stream holds that is read backwards.
pub fn count_stream_bits(s: &[u8]) -> (bits: Option<i64>)
    ensures
        match bits {
            Some(count) => stream_bits(s@) == Some(count as int) && 0 <= count <= 8 * s@.len()
                && s@.len() <= MAX_STREAM,
            None => stream_bits(s@) is None,
        },
{
    if s.len() == 0 || s.len() > MAX_STREAM || s[s.len() - 1] == 0 {
        return None;
    }
    let top: u32 = highest_bit_of(s[s.len() - 1] as i64);
    assert(top <= 7) by {
        vstd::arithmetic::power2::lemma2_to64();
        reveal_with_fuel(crate::entropy::highest_bit_from, 9);
    }
    Some(8 * (s.len() as i64 - 1) + top as i64)
}

/// The weights that two states of the finite-state coder give in turn,
/// read backwards from the place `pos`. The state `first` gives its symbol
/// and reads its bits; when the bits run out, the other state gives its
/// symbol too, and the weights are complete.
pub open spec fn weights_from(
    table: Seq<FseEntry>,
    s: Seq<u8>,
    pos: int,
    first: int,
    second: int,
    out: Seq<u8>,
) -> Option<Seq<u8>>
    decreases 256 - out.len(),
{
    if first < 0 || first >= table.len() || second < 0 || second >= table.len() || out.len() >= 254
        || pos < 0 || pos > 8 * s.len() {
        None
    } else {
        let entry = table[first];
        let left = pos - entry.bits;
        let next = entry.base + bits_value(s, left, entry.bits as nat);
        if entry.bits > 16 {
            None
        } else if left < 0 {
            Some(out.push(entry.symbol).push(table[second].symbol))
        } else {
            weights_from(table, s, left, second, next, out.push(entry.symbol))
        }
    }
}

/// The weights that a stream of the finite-state coder holds, with states
/// of `accuracy` bits.
pub open spec fn coded_weights(table: Seq<FseEntry>, accuracy: int, s: Seq<u8>) -> Option<Seq<u8>> {
    match stream_bits(s) {
        None => None,
        Some(bits) => if accuracy < 0 || accuracy > 9 || bits < 2 * accuracy {
            None
        } else {
            weights_from(
                table,
                s,
                bits - 2 * accuracy,
                bits_value(s, bits - accuracy, accuracy as nat),
                bits_value(s, bits - 2 * accuracy, accuracy as nat),
                Seq::empty(),
            )
        },
    }
}

/// The weights that stand four bits each in the bytes, the upper four
/// bits of a byte first.
pub open spec fn plain_weights(s: Seq<u8>, count: nat) -> Seq<u8> {
    Seq::new(
        count,
        |i: int|
            if i % 2 == 0 {
                s[i / 2] / 16
            } else {
                s[i / 2] % 16
            },
    )
}

/// The weights of the symbols but the last, and how many bytes their
/// description takes. A first byte below 128 says how many bytes hold the
/// weights in the finite-state coding; a larger one says that it is
/// followed by 127 fewer weights of four bits each.
pub open spec fn weights_of(s: Seq<u8>) -> Option<(Seq<u8>, int)> {
    if s.len() == 0 {
        None
    } else if s[0] >= 128 {
        let count = s[0] - 127;
        let used = 1 + (count + 1) / 2;
        if used > s.len() {
            None
        } else {
            Some((plain_weights(s.subrange(1, used), count as nat), used))
        }
    } else {
        let used = 1 + s[0];
        if used > s.len() {
            None
        } else {
            match table_description(s.subrange(1, used), 6) {
                None => None,
                Some((counts, accuracy, taken)) => match fse_table(counts, accuracy) {
                    None => None,
                    Some(table) => match coded_weights(
                        table,
                        accuracy,
                        s.subrange(1 + taken, used),
                    ) {
                        None => None,
                        Some(weights) => Some((weights, used)),
                    },
                },
            }
        }
    }
}

/// Reads the weights that two states of the finite-state coder give.
fn read_coded_weights(table: &Vec<FseEntry>, accuracy: u32, s: &[u8]) -> (weights: Option<Vec<u8>>)
    ensures
        match weights {
            Some(found) => coded_weights(table@, accuracy as int, s@) == Some(found@),
            None => coded_weights(table@, accuracy as int, s@) is None,
        },
{
    let bits = match count_stream_bits(s) {
        Some(found) => found,
        None => {
            return None;
        },
    };
    if accuracy > 9 || bits < 2 * accuracy as i64 {
        return None;
    }
    let mut first: i64 = read_bits(s, bits - accuracy as i64, accuracy);
    let mut second: i64 = read_bits(s, bits - 2 * accuracy as i64, accuracy);
    let mut pos: i64 = bits - 2 * accuracy as i64;
    let mut out: Vec<u8> = Vec::new();
    let ghost goal = coded_weights(table@, accuracy as int, s@);
    loop
        invariant
            s@.len() <= MAX_STREAM,
            0 <= first <= 0x2_0000_0000,
            0 <= second <= 0x2_0000_0000,
            weights_from(table@, s@, pos as int, first as int, second as int, out@) == goal,
            goal == coded_weights(table@, accuracy as int, s@),
        decreases 256 - out@.len(),
    {
        if !is_place(first, table.len()) || !is_place(second, table.len()) || out.len() >= 254 || pos
            < 0 || pos > 8 * s.len() as i64 {
            return None;
        }
        let entry = table[first as usize];
        if entry.bits > 16 {
            return None;
        }
        let left: i64 = pos - entry.bits as i64;
        let next: i64 = entry.base as i64 + read_bits(s, left, entry.bits as u32);
        out.push(entry.symbol);
        if left < 0 {
            out.push(table[second as usize].symbol);
            return Some(out);
        }
        pos = left;
        first = second;
        second = next;
    }
}

/// Reads the weights of the symbols but the last.
pub fn read_weights(s: &[u8]) -> (found: Option<(Vec<u8>, usize)>)
    ensures
        match found {
            Some((weights, used)) => weights_of(s@) == Some((weights@, used as int)) && used
                <= s@.len(),
            None => weights_of(s@) is None,
        },
{
    if s.len() == 0 {
        return None;
    }
    if s[0] >= 128 {
        let count: usize = (s[0] - 127) as usize;
        let used: usize = 1 + (count + 1) / 2;
        if used > s.len() {
            return None;
        }
        let part = slice_subrange(s, 1, used);
        let mut weights: Vec<u8> = Vec::new();
        while weights.len() < count
            invariant
                weights@.len() <= count,
                part@.len() == (count + 1) / 2,
                forall|i: int|
                    0 <= i < weights@.len() ==> weights@[i] == plain_weights(part@, count as nat)[i],
            decreases count - weights@.len(),
        {
            let i: usize = weights.len();
            weights.push(
                if i % 2 == 0 {
                    part[i / 2] / 16
                } else {
                    part[i / 2] % 16
                },
            );
        }
        assert(weights@ =~= plain_weights(part@, count as nat));
        Some((weights, used))
    } else {
        let used: usize = 1 + s[0] as usize;
        if used > s.len() {
            return None;
        }
        let (counts, accuracy, taken) = match read_table_description(slice_subrange(s, 1, used), 6) {
            Some(found) => found,
            None => {
                return None;
            },
        };
        let table = match make_fse_table(&counts, accuracy) {
            Some(found) => found,
            None => {
                return None;
            },
        };
        match read_coded_weights(&table, accuracy, slice_subrange(s, 1 + taken, used)) {
            Some(weights) => Some((weights, used)),
            None => None,
        }
    }
}

/// What the first `count` weights add up to: a weight above 0 counts two
/// to the power of one less than itself.
pub open spec fn weight_sum(weights: Seq<u8>, count: nat) -> int
    decreases count,
{
    if count == 0 {
        0
    } else {
        weight_sum(weights, (count - 1) as nat) + if 0 < weights[count - 1] <= 11 {
            pow2((weights[count - 1] - 1) as nat) as int
        } else {
            0
        }
    }
}

/// The same entry, `count` times.
pub open spec fn run_of(entry: HuffEntry, count: nat) -> Seq<HuffEntry> {
    Seq::new(count, |i: int| entry)
}

/// The entries of the first `count` symbols that have the weight
/// `weight`: for each of them, in their order, two to the power of one
/// less than the weight entries.
pub open spec fn row(weights: Seq<u8>, max_bits: int, weight: int, count: nat) -> Seq<HuffEntry>
    decreases count,
{
    if count == 0 {
        Seq::empty()
    } else {
        row(weights, max_bits, weight, (count - 1) as nat) + if weights[count - 1] == weight {
            run_of(
                HuffEntry { symbol: (count - 1) as u8, bits: (max_bits + 1 - weight) as u8 },
                pow2((weight - 1) as nat),
            )
        } else {
            Seq::empty()
        }
    }
}

/// The entries of the symbols with the weights from 1 to `upto`, by
/// rising weight.
pub open spec fn rows(weights: Seq<u8>, max_bits: int, upto: nat) -> Seq<HuffEntry>
    decreases upto,
{
    if upto == 0 {
        Seq::empty()
    } else {
        rows(weights, max_bits, (upto - 1) as nat) + row(
            weights,
            max_bits,
            upto as int,
            weights.len(),
        )
    }
}

/// The Huffman table that the weights of the symbols but the last give,
/// and the number of bits of its longest code. The weights add up to less
/// than a power of two; what is missing is a power of two itself and gives
/// the weight of the last symbol. A symbol of weight `w` has a code of as
/// many bits as `w` lies below the longest code plus one, and takes two to
/// the power of `w - 1` entries; the symbols stand by rising weight, and
/// in their order among equals.
pub open spec fn huff_table(given: Seq<u8>) -> Option<(Seq<HuffEntry>, int)> {
    if given.len() == 0 || given.len() > 255 || (exists|i: int|
        0 <= i < given.len() && given[i] > 11) {
        None
    } else {
        let sum = weight_sum(given, given.len());
        let max_bits = highest_bit(sum) + 1;
        let left = pow2(max_bits) - sum;
        let last = highest_bit(left) + 1;
        if sum <= 0 || max_bits > 11 || left <= 0 || pow2(highest_bit(left)) != left {
            None
        } else {
            let table = rows(given.push(last as u8), max_bits as int, max_bits);
            if table.len() != pow2(max_bits) {
                None
            } else {
                Some((table, max_bits as int))
            }
        }
    }
}

/// The Huffman table that the weights of the symbols but the last give.
#[verifier::loop_isolation(false)]
pub fn make_huff_table(given: &Vec<u8>) -> (found: Option<(Vec<HuffEntry>, u32)>)
    ensures
        match found {
            Some((table, max_bits)) => huff_table(given@) == Some((table@, max_bits as int))
                && max_bits <= 11,
            None => huff_table(given@) is None,
        },
{
    if given.len() == 0 || given.len() > 255 {
        return None;
    }
    let mut sum: i64 = 0;
    let mut place: usize = 0;
    while place < given.len()
        invariant
            place <= given@.len(),
            sum == weight_sum(given@, place as nat),
            0 <= sum <= 1024 * place,
            forall|i: int| 0 <= i < place ==> given@[i] <= 11,
        decreases given@.len() - place,
    {
        let weight: u8 = given[place];
        if weight > 11 {
            return None;
        }
        if weight > 0 {
            proof {
                vstd::arithmetic::power2::lemma2_to64();
                if weight < 11 {
                    vstd::arithmetic::power2::lemma_pow2_strictly_increases((weight - 1) as nat, 10);
                }
            }
            sum = sum + power(weight as u32 - 1);
        }
        place = place + 1;
    }
    let max_bits: u32 = highest_bit_of(sum) + 1;
    if sum <= 0 || max_bits > 11 {
        return None;
    }
    let left: i64 = power(max_bits) - sum;
    let top: u32 = highest_bit_of(left);
    if left <= 0 || power(top) != left {
        return None;
    }
    let last: u32 = top + 1;
    let mut weights: Vec<u8> = given.clone();
    weights.push(last as u8);
    assert(weights@ =~= given@.push(last as u8));
    let count: usize = weights.len();
    let mut table: Vec<HuffEntry> = Vec::new();
    let mut weight: u32 = 1;
    while weight <= max_bits
        invariant
            1 <= weight <= max_bits + 1,
            table@ == rows(weights@, max_bits as int, (weight - 1) as nat),
        decreases max_bits + 1 - weight,
    {
        let ghost above = table@;
        let mut symbol: usize = 0;
        assert(table@ =~= above + row(weights@, max_bits as int, weight as int, 0));
        while symbol < count
            invariant
                symbol <= count,
                table@ == above + row(weights@, max_bits as int, weight as int, symbol as nat),
            decreases count - symbol,
        {
            let ghost before = table@;
            if weights[symbol] as u32 == weight {
                let entry = HuffEntry { symbol: symbol as u8, bits: (max_bits + 1 - weight) as u8 };
                let many: i64 = power(weight - 1);
                let mut done: i64 = 0;
                assert(table@ =~= before + run_of(entry, 0));
                while done < many
                    invariant
                        0 <= done <= many,
                        table@ == before + run_of(entry, done as nat),
                    decreases many - done,
                {
                    table.push(entry);
                    done = done + 1;
                    assert(table@ =~= before + run_of(entry, done as nat));
                }
                assert(table@ =~= above + row(
                    weights@,
                    max_bits as int,
                    weight as int,
                    (symbol + 1) as nat,
                ));
            } else {
                assert(table@ =~= above + row(
                    weights@,
                    max_bits as int,
                    weight as int,
                    (symbol + 1) as nat,
                ));
            }
            symbol = symbol + 1;
        }
        weight = weight + 1;
    }
    proof {
        vstd::arithmetic::power2::lemma2_to64();
        vstd::arithmetic::power2::lemma_pow2_strictly_increases(max_bits as nat, 12);
    }
    if table.len() > 4096 || table.len() as i64 != power(max_bits) {
        return None;
    }
    Some((table, max_bits))
}

/// The symbols that a stream of bits holds, read backwards from the place
/// `pos` with a Huffman table, behind the symbols `out`, up to `want`
/// symbols in all. The bits at hand, with zeros below the first bit of the
/// stream, pick an entry of the table; its symbol is given and its bits are
/// taken. The stream must end with its first bit when the last symbol is
/// given.
pub open spec fn symbols_from(
    table: Seq<HuffEntry>,
    max_bits: int,
    s: Seq<u8>,
    pos: int,
    out: Seq<u8>,
    want: int,
) -> Option<Seq<u8>>
    decreases want - out.len(),
{
    if pos == 0 {
        if out.len() == want {
            Some(out)
        } else {
            None
        }
    } else if out.len() >= want || pos < 0 || pos > 8 * s.len() || max_bits < 0 || max_bits > 11 {
        None
    } else {
        let index = bits_value(s, pos - max_bits, max_bits as nat);
        if index >= table.len() || table[index].bits > pos {
            None
        } else {
            symbols_from(
                table,
                max_bits,
                s,
                pos - table[index].bits,
                out.push(table[index].symbol),
                want,
            )
        }
    }
}

/// The symbols that a whole stream holds, behind the symbols `out`.
pub open spec fn stream_symbols(
    table: Seq<HuffEntry>,
    max_bits: int,
    s: Seq<u8>,
    out: Seq<u8>,
    want: int,
) -> Option<Seq<u8>> {
    match stream_bits(s) {
        None => None,
        Some(bits) => symbols_from(table, max_bits, s, bits, out, want),
    }
}

/// Appends the symbols that a whole stream holds, up to `want` symbols in
/// all. Says whether the stream could be read.
pub fn read_stream_symbols(table: &Vec<HuffEntry>, max_bits: u32, s: &[u8], out: &mut Vec<u8>, want: usize) -> (read:
    bool)
    ensures
        read ==> stream_symbols(table@, max_bits as int, s@, old(out)@, want as int) == Some(
            final(out)@,
        ),
        !read ==> stream_symbols(table@, max_bits as int, s@, old(out)@, want as int) is None,
{
    let mut pos: i64 = match count_stream_bits(s) {
        Some(found) => found,
        None => {
            return false;
        },
    };
    let ghost goal = stream_symbols(table@, max_bits as int, s@, old(out)@, want as int);
    while pos != 0
        invariant
            s@.len() <= MAX_STREAM,
            symbols_from(table@, max_bits as int, s@, pos as int, out@, want as int) == goal,
            goal == stream_symbols(table@, max_bits as int, s@, old(out)@, want as int),
        decreases want - out@.len(),
    {
        if out.len() >= want || pos < 0 || pos > 8 * s.len() as i64 || max_bits > 11 {
            return false;
        }
        let index: i64 = read_bits(s, pos - max_bits as i64, max_bits);
        if !is_place(index, table.len()) {
            return false;
        }
        let entry = table[index as usize];
        if entry.bits as i64 > pos {
            return false;
        }
        pos = pos - entry.bits as i64;
        out.push(entry.symbol);
    }
    out.len() == want
}

} // verus!
