//! The literals of a compressed block of Zstandard: bytes that stand as
//! they are, one byte that is repeated, or Huffman streams.

use crate::huffman::{
    huff_table, make_huff_table, read_stream_symbols, read_weights, stream_symbols, weights_of,
    HuffEntry,
};
use vstd::prelude::*;
use vstd::slice::slice_subrange;

verus! {

/// What the header of the literals says: their kind (0 as they are, 1 one
/// byte repeated, 2 Huffman streams with a table, 3 Huffman streams with
/// the table that was used before), how many literals there are, how many
/// bytes hold them, in how many streams, and how many bytes the header
/// takes.
pub struct LiteralsHeader {
    pub kind: int,
    pub regenerated: int,
    pub stored: int,
    pub streams: int,
    pub size: int,
}

/// The number that the bytes from `pos` on hold in `count` bytes, the
/// lowest byte first; bytes that are not there count as 0.
pub open spec fn le_number(b: Seq<u8>, count: nat) -> int
    decreases count,
{
    if count == 0 {
        0
    } else {
        (if count - 1 < b.len() {
            b[count - 1] as int
        } else {
            0
        }) * pow256((count - 1) as nat) + le_number(b, (count - 1) as nat)
    }
}

/// 256 to the power of a number up to 5.
pub open spec fn pow256(n: nat) -> int {
    if n == 0 {
        1
    } else if n == 1 {
        0x100
    } else if n == 2 {
        0x1_0000
    } else if n == 3 {
        0x100_0000
    } else if n == 4 {
        0x1_0000_0000
    } else {
        0x100_0000_0000
    }
}

/// What the header of the literals says. The two lowest bits of the first
/// byte hold the kind, the next two the form of the sizes.
pub open spec fn literals_header(b: Seq<u8>) -> Option<LiteralsHeader> {
    if b.len() == 0 {
        None
    } else {
        let kind = (b[0] % 4) as int;
        let form = ((b[0] / 4) % 4) as int;
        let size: int = if kind < 2 {
            if form == 1 {
                2
            } else if form == 3 {
                3
            } else {
                1
            }
        } else if form < 2 {
            3
        } else if form == 2 {
            4
        } else {
            5
        };
        let number = le_number(b, size as nat);
        if size > b.len() {
            None
        } else if kind < 2 {
            Some(
                LiteralsHeader {
                    kind,
                    regenerated: if size == 1 {
                        number / 8
                    } else {
                        number / 16
                    },
                    stored: 0,
                    streams: 1,
                    size,
                },
            )
        } else {
            Some(
                LiteralsHeader {
                    kind,
                    regenerated: if size == 3 {
                        (number / 16) % 0x400
                    } else if size == 4 {
                        (number / 16) % 0x4000
                    } else {
                        (number / 16) % 0x4_0000
                    },
                    stored: if size == 3 {
                        (number / 0x4000) % 0x400
                    } else if size == 4 {
                        (number / 0x4_0000) % 0x4000
                    } else {
                        (number / 0x40_0000) % 0x4_0000
                    },
                    streams: if form == 0 {
                        1
                    } else {
                        4
                    },
                    size,
                },
            )
        }
    }
}

/// The literals that four Huffman streams hold. Six bytes state the sizes
/// of the first three streams; the fourth takes the rest. Each of the
/// first three streams holds a fourth of the literals, rounded up, and the
/// fourth stream the others.
pub open spec fn four_streams(table: Seq<HuffEntry>, max_bits: int, r: Seq<u8>, want: int) -> Option<
    Seq<u8>,
> {
    let first = le_number(r, 2);
    let second = le_number(r.subrange(2, r.len() as int), 2);
    let third = le_number(r.subrange(4, r.len() as int), 2);
    let each = (want + 3) / 4;
    if r.len() < 6 || 6 + first + second + third > r.len() || 3 * each > want {
        None
    } else {
        match stream_symbols(table, max_bits, r.subrange(6, 6 + first), Seq::empty(), each) {
            None => None,
            Some(one) => match stream_symbols(
                table,
                max_bits,
                r.subrange(6 + first, 6 + first + second),
                one,
                2 * each,
            ) {
                None => None,
                Some(two) => match stream_symbols(
                    table,
                    max_bits,
                    r.subrange(6 + first + second, 6 + first + second + third),
                    two,
                    3 * each,
                ) {
                    None => None,
                    Some(three) => stream_symbols(
                        table,
                        max_bits,
                        r.subrange(6 + first + second + third, r.len() as int),
                        three,
                        want,
                    ),
                },
            },
        }
    }
}

/// The literals of a block: the literals, the Huffman table that is at
/// hand after them, and how many bytes of the block they take. `previous`
/// is the Huffman table that was at hand before.
pub open spec fn literals_of(b: Seq<u8>, previous: Option<(Seq<HuffEntry>, int)>) -> Option<
    (Seq<u8>, Option<(Seq<HuffEntry>, int)>, int),
> {
    match literals_header(b) {
        None => None,
        Some(h) => if h.kind == 0 {
            if h.size + h.regenerated > b.len() {
                None
            } else {
                Some((b.subrange(h.size, h.size + h.regenerated), previous, h.size + h.regenerated))
            }
        } else if h.kind == 1 {
            if h.size + 1 > b.len() {
                None
            } else {
                Some((Seq::new(h.regenerated as nat, |i: int| b[h.size]), previous, h.size + 1))
            }
        } else if h.size + h.stored > b.len() {
            None
        } else {
            let body = b.subrange(h.size, h.size + h.stored);
            let chosen: Option<((Seq<HuffEntry>, int), int)> = if h.kind == 2 {
                match weights_of(body) {
                    None => None,
                    Some((weights, used)) => match huff_table(weights) {
                        None => None,
                        Some(table) => Some((table, used)),
                    },
                }
            } else {
                match previous {
                    None => None,
                    Some(table) => Some((table, 0int)),
                }
            };
            match chosen {
                None => None,
                Some((table, used)) => if used > body.len() {
                    None
                } else {
                    let streams = body.subrange(used, body.len() as int);
                    let literals = if h.streams == 1 {
                        stream_symbols(table.0, table.1, streams, Seq::empty(), h.regenerated)
                    } else {
                        four_streams(table.0, table.1, streams, h.regenerated)
                    };
                    match literals {
                        None => None,
                        Some(found) => Some((found, Some(table), h.size + h.stored)),
                    }
                },
            }
        },
    }
}

/// A Huffman table and the number of bits of its longest code.
#[derive(Debug)]
pub struct HuffTable {
    pub entries: Vec<HuffEntry>,
    pub max_bits: u32,
}

impl View for HuffTable {
    type V = (Seq<HuffEntry>, int);

    open spec fn view(&self) -> (Seq<HuffEntry>, int) {
        (self.entries@, self.max_bits as int)
    }
}

/// The view of a table that may be at hand.
pub open spec fn huff_view(table: Option<HuffTable>) -> Option<(Seq<HuffEntry>, int)> {
    match table {
        Some(found) => Some(found@),
        None => None,
    }
}

/// The number that the first `count` bytes hold.
pub fn read_le_number(b: &[u8], count: usize) -> (number: i64)
    requires
        count <= 5,
    ensures
        number == le_number(b@, count as nat),
        0 <= number < pow256(count as nat),
{
    let mut number: i64 = 0;
    let mut place: usize = 0;
    let mut factor: i64 = 1;
    while place < count
        invariant
            place <= count <= 5,
            factor == pow256(place as nat),
            number == le_number(b@, place as nat),
            0 <= number < factor,
        decreases count - place,
    {
        let byte: i64 = if place < b.len() {
            b[place] as i64
        } else {
            0
        };
        assert(byte * factor <= 255 * factor) by (nonlinear_arith)
            requires
                0 <= byte <= 255,
                0 < factor,
        ;
        number = byte * factor + number;
        place = place + 1;
        factor = factor * 256;
    }
    number
}

/// What the header of the literals says, with machine numbers: kind,
/// literals, bytes, streams, size of the header.
fn read_literals_header(b: &[u8]) -> (found: Option<(u8, usize, usize, u8, usize)>)
    ensures
        match found {
            Some((kind, regenerated, stored, streams, size)) => literals_header(b@) == Some(
                LiteralsHeader {
                    kind: kind as int,
                    regenerated: regenerated as int,
                    stored: stored as int,
                    streams: streams as int,
                    size: size as int,
                },
            ) && size <= b@.len() && regenerated <= 0x20_0000 && stored <= 0x4_0000,
            None => literals_header(b@) is None,
        },
{
    if b.len() == 0 {
        return None;
    }
    let kind: u8 = b[0] % 4;
    let form: u8 = (b[0] / 4) % 4;
    let size: usize = if kind < 2 {
        if form == 1 {
            2
        } else if form == 3 {
            3
        } else {
            1
        }
    } else if form < 2 {
        3
    } else if form == 2 {
        4
    } else {
        5
    };
    let number: i64 = read_le_number(b, size);
    if size > b.len() {
        return None;
    }
    if kind < 2 {
        let regenerated: i64 = if size == 1 {
            number / 8
        } else {
            number / 16
        };
        Some((kind, regenerated as usize, 0, 1, size))
    } else {
        let regenerated: i64 = if size == 3 {
            (number / 16) % 0x400
        } else if size == 4 {
            (number / 16) % 0x4000
        } else {
            (number / 16) % 0x4_0000
        };
        let stored: i64 = if size == 3 {
            (number / 0x4000) % 0x400
        } else if size == 4 {
            (number / 0x4_0000) % 0x4000
        } else {
            (number / 0x40_0000) % 0x4_0000
        };
        Some(
            (
                kind,
                regenerated as usize,
                stored as usize,
                if form == 0 {
                    1
                } else {
                    4
                },
                size,
            ),
        )
    }
}

/// The literals that four Huffman streams hold.
fn read_four_streams(table: &HuffTable, r: &[u8], want: usize) -> (literals: Option<Vec<u8>>)
    requires
        want <= 0x20_0000,
    ensures
        match literals {
            Some(found) => four_streams(table@.0, table@.1, r@, want as int) == Some(found@),
            None => four_streams(table@.0, table@.1, r@, want as int) is None,
        },
{
    if r.len() < 6 {
        return None;
    }
    let first: usize = read_le_number(r, 2) as usize;
    let second: usize = read_le_number(slice_subrange(r, 2, r.len()), 2) as usize;
    let third: usize = read_le_number(slice_subrange(r, 4, r.len()), 2) as usize;
    let each: usize = (want + 3) / 4;
    if 6 + first + second + third > r.len() || 3 * each > want {
        return None;
    }
    let mut out: Vec<u8> = Vec::new();
    assert(out@ =~= Seq::<u8>::empty());
    if !read_stream_symbols(
        &table.entries,
        table.max_bits,
        slice_subrange(r, 6, 6 + first),
        &mut out,
        each,
    ) {
        return None;
    }
    let ghost one = out@;
    assert(stream_symbols(
        table@.0,
        table@.1,
        r@.subrange(6, 6 + first),
        Seq::empty(),
        each as int,
    ) == Some(one));
    if !read_stream_symbols(
        &table.entries,
        table.max_bits,
        slice_subrange(r, 6 + first, 6 + first + second),
        &mut out,
        2 * each,
    ) {
        return None;
    }
    let ghost two = out@;
    assert(stream_symbols(
        table@.0,
        table@.1,
        r@.subrange(6 + first, 6 + first + second),
        one,
        2 * each,
    ) == Some(two));
    if !read_stream_symbols(
        &table.entries,
        table.max_bits,
        slice_subrange(r, 6 + first + second, 6 + first + second + third),
        &mut out,
        3 * each,
    ) {
        return None;
    }
    let ghost three = out@;
    assert(stream_symbols(
        table@.0,
        table@.1,
        r@.subrange(6 + first + second, 6 + first + second + third),
        two,
        3 * each,
    ) == Some(three));
    if !read_stream_symbols(
        &table.entries,
        table.max_bits,
        slice_subrange(r, 6 + first + second + third, r.len()),
        &mut out,
        want,
    ) {
        return None;
    }
    assert(stream_symbols(
        table@.0,
        table@.1,
        r@.subrange(6 + first + second + third, r@.len() as int),
        three,
        want as int,
    ) == Some(out@));
    assert(first == le_number(r@, 2));
    assert(second == le_number(r@.subrange(2, r@.len() as int), 2));
    assert(third == le_number(r@.subrange(4, r@.len() as int), 2));
    Some(out)
}

/// Reads the literals of a block. The Huffman table at hand is replaced
/// where the block brings one. Gives the literals and how many bytes of the
/// block they take.
pub fn read_literals(b: &[u8], table: &mut Option<HuffTable>) -> (found: Option<(Vec<u8>, usize)>)
    ensures
        match found {
            Some((literals, used)) => literals_of(b@, huff_view(*old(table))) == Some(
                (literals@, huff_view(*final(table)), used as int),
            ) && used <= b@.len(),
            None => literals_of(b@, huff_view(*old(table))) is None,
        },
{
    let (kind, regenerated, stored, streams, size) = match read_literals_header(b) {
        Some(found) => found,
        None => {
            return None;
        },
    };
    if kind == 0 {
        if regenerated > b.len() - size {
            return None;
        }
        let literals = vstd::slice::slice_to_vec(slice_subrange(b, size, size + regenerated));
        return Some((literals, size + regenerated));
    }
    if kind == 1 {
        if size + 1 > b.len() {
            return None;
        }
        let byte: u8 = b[size];
        let mut literals: Vec<u8> = Vec::new();
        while literals.len() < regenerated
            invariant
                literals@.len() <= regenerated,
                forall|i: int| 0 <= i < literals@.len() ==> literals@[i] == byte,
            decreases regenerated - literals@.len(),
        {
            literals.push(byte);
        }
        assert(literals@ =~= Seq::new(regenerated as nat, |i: int| b@[size as int]));
        return Some((literals, size + 1));
    }
    if stored > b.len() - size {
        return None;
    }
    let body = slice_subrange(b, size, size + stored);
    let mut used: usize = 0;
    if kind == 2 {
        let (weights, taken) = match read_weights(body) {
            Some(found) => found,
            None => {
                return None;
            },
        };
        let (entries, max_bits) = match make_huff_table(&weights) {
            Some(found) => found,
            None => {
                return None;
            },
        };
        *table = Some(HuffTable { entries, max_bits });
        used = taken;
    }
    let literals = match table {
        None => {
            return None;
        },
        Some(chosen) => {
            if used > body.len() {
                return None;
            }
            let region = slice_subrange(body, used, body.len());
            if streams == 1 {
                let mut out: Vec<u8> = Vec::new();
                assert(out@ =~= Seq::<u8>::empty());
                if !read_stream_symbols(
                    &chosen.entries,
                    chosen.max_bits,
                    region,
                    &mut out,
                    regenerated,
                ) {
                    return None;
                }
                out
            } else {
                match read_four_streams(chosen, region, regenerated) {
                    Some(found) => found,
                    None => {
                        return None;
                    },
                }
            }
        },
    };
    Some((literals, size + stored))
}

} // verus!
