//! The compressed blocks of Zstandard: literals and sequences, and what
//! they write.

use crate::entropy::FseEntry;
use crate::huffman::HuffEntry;
use crate::literals::{huff_view, literals_of, read_literals, HuffTable};
use crate::sequences::{
    coding_table, fse_view, literal_length_counts, literal_length_counts_list,
    match_length_counts, match_length_counts_list, offset_counts, offset_counts_list,
    read_stream_sequences, sequence_count, stream_sequences, FseTable, Sequence,
};
use vstd::prelude::*;
use vstd::slice::slice_subrange;

verus! {

/// The three distances that were used last, the latest first.
#[derive(Clone, Copy, Debug)]
pub struct Offsets {
    pub first: i64,
    pub second: i64,
    pub third: i64,
}

impl Offsets {
    /// Whether none of the three distances is below 0 or a number of more
    /// than 32 bits.
    pub open spec fn is_plain(self) -> bool {
        &&& 0 <= self.first <= 0x1_0000_0000
        &&& 0 <= self.second <= 0x1_0000_0000
        &&& 0 <= self.third <= 0x1_0000_0000
    }
}

/// The distance that a sequence means, and the distances that were used
/// last after it. A number above 3 stands for the distance 3 less than
/// itself. The numbers 1 to 3 stand for the distances that were used last;
/// for a sequence without literals they stand for the second, the third,
/// and one less than the first. A distance that is used moves to the
/// front.
pub open spec fn resolve(value: int, literals: int, recent: Offsets) -> Option<(int, Offsets)> {
    if value > 3 {
        Some(
            (
                value - 3,
                Offsets { first: (value - 3) as i64, second: recent.first, third: recent.second },
            ),
        )
    } else if value < 1 {
        None
    } else {
        let place = value - 1 + if literals == 0 {
            1int
        } else {
            0int
        };
        if place == 0 {
            Some((recent.first as int, recent))
        } else if place == 1 {
            Some(
                (
                    recent.second as int,
                    Offsets { first: recent.second, second: recent.first, third: recent.third },
                ),
            )
        } else if place == 2 {
            Some(
                (
                    recent.third as int,
                    Offsets { first: recent.third, second: recent.first, third: recent.second },
                ),
            )
        } else {
            Some(
                (
                    recent.first - 1,
                    Offsets {
                        first: (recent.first - 1) as i64,
                        second: recent.first,
                        third: recent.second,
                    },
                ),
            )
        }
    }
}

/// What was written with `count` more bytes, each a copy of the byte that
/// stands `distance` bytes before the end.
pub open spec fn with_match(out: Seq<u8>, distance: int, count: nat) -> Seq<u8>
    decreases count,
{
    if count == 0 || distance <= 0 || distance > out.len() {
        out
    } else {
        with_match(out.push(out[out.len() - distance]), distance, (count - 1) as nat)
    }
}

/// What the sequences from the place `place` on write behind `out`, with
/// the literals from `start` on: each sequence copies its literals, and
/// then its match from what was written; the literals that are left over
/// follow the last sequence. A distance must lie within what was written.
pub open spec fn run_from(
    sequences: Seq<Sequence>,
    place: int,
    literals: Seq<u8>,
    start: int,
    out: Seq<u8>,
    recent: Offsets,
) -> Option<(Seq<u8>, Offsets)>
    decreases sequences.len() - place,
{
    if start < 0 || start > literals.len() || place < 0 {
        None
    } else if place >= sequences.len() {
        Some((out + literals.subrange(start, literals.len() as int), recent))
    } else {
        let sequence = sequences[place];
        if sequence.literals < 0 || start + sequence.literals > literals.len() || sequence.matched
            < 0 || sequence.offset < 0 || sequence.offset > 0x1_0000_0000 {
            None
        } else {
            let copied = out + literals.subrange(start, start + sequence.literals);
            match resolve(sequence.offset as int, sequence.literals as int, recent) {
                None => None,
                Some((distance, latest)) => if distance <= 0 || distance > copied.len() || distance
                    > 0x7fff_ffff {
                    None
                } else {
                    run_from(
                        sequences,
                        place + 1,
                        literals,
                        start + sequence.literals,
                        with_match(copied, distance, sequence.matched as nat),
                        latest,
                    )
                },
            }
        }
    }
}

/// The distance that a sequence means.
fn resolve_distance(value: i64, literals: i64, recent: &mut Offsets) -> (distance: Option<i64>)
    requires
        0 <= old(recent).first <= 0x1_0000_0000,
        0 <= value <= 0x1_0000_0000,
    ensures
        match distance {
            Some(found) => resolve(value as int, literals as int, *old(recent)) == Some(
                (found as int, *final(recent)),
            ),
            None => resolve(value as int, literals as int, *old(recent)) is None,
        },
{
    let before = *recent;
    if value > 3 {
        *recent = Offsets { first: value - 3, second: before.first, third: before.second };
        return Some(value - 3);
    }
    if value < 1 {
        return None;
    }
    let place: i64 = value - 1 + if literals == 0 {
        1
    } else {
        0
    };
    if place == 0 {
        Some(before.first)
    } else if place == 1 {
        *recent = Offsets { first: before.second, second: before.first, third: before.third };
        Some(before.second)
    } else if place == 2 {
        *recent = Offsets { first: before.third, second: before.first, third: before.second };
        Some(before.third)
    } else {
        *recent = Offsets { first: before.first - 1, second: before.first, third: before.second };
        Some(before.first - 1)
    }
}

/// Writes what the sequences write. Says whether they could be carried
/// out.
#[verifier::loop_isolation(false)]
pub fn run_sequences(sequences: &Vec<Sequence>, literals: &[u8], out: &mut Vec<u8>, recent: &mut Offsets) -> (done:
    bool)
    requires
        old(recent).is_plain(),
    ensures
        done ==> run_from(sequences@, 0, literals@, 0, old(out)@, *old(recent)) == Some(
            (final(out)@, *final(recent)),
        ) && final(recent).is_plain(),
        !done ==> run_from(sequences@, 0, literals@, 0, old(out)@, *old(recent)) is None,
{
    let mut place: usize = 0;
    let mut start: usize = 0;
    let ghost goal = run_from(sequences@, 0, literals@, 0, old(out)@, *old(recent));
    while place < sequences.len()
        invariant
            place <= sequences@.len(),
            start <= literals@.len(),
            recent.is_plain(),
            run_from(sequences@, place as int, literals@, start as int, out@, *recent) == goal,
        decreases sequences@.len() - place,
    {
        let sequence = sequences[place];
        if sequence.literals < 0 || sequence.matched < 0 || sequence.literals as u64 > (
        literals.len() - start) as u64 || sequence.offset < 0 || sequence.offset > 0x1_0000_0000 {
            return false;
        }
        let count: usize = sequence.literals as usize;
        let ghost before = out@;
        out.extend_from_slice(slice_subrange(literals, start, start + count));
        assert(out@ =~= before + literals@.subrange(start as int, start + count));
        let distance = match resolve_distance(sequence.offset, sequence.literals, recent) {
            Some(found) => found,
            None => {
                return false;
            },
        };
        if distance <= 0 || distance > 0x7fff_ffff || distance as u64 > out.len() as u64 {
            return false;
        }
        let back: usize = distance as usize;
        let ghost copied = out@;
        let mut left: i64 = sequence.matched;
        while left > 0
            invariant
                0 <= left <= sequence.matched,
                0 < back <= out@.len(),
                with_match(out@, back as int, left as nat) == with_match(
                    copied,
                    back as int,
                    sequence.matched as nat,
                ),
            decreases left,
        {
            let byte: u8 = out[out.len() - back];
            out.push(byte);
            left = left - 1;
        }
        start = start + count;
        place = place + 1;
    }
    let ghost before = out@;
    out.extend_from_slice(slice_subrange(literals, start, literals.len()));
    assert(out@ =~= before + literals@.subrange(start as int, literals@.len() as int));
    true
}

/// What is at hand from one block to the next: the Huffman table, the
/// tables for the three kinds of codes, and the distances that were used
/// last.
pub struct CoderView {
    pub huff: Option<(Seq<HuffEntry>, int)>,
    pub literals: Option<(Seq<FseEntry>, int)>,
    pub offsets: Option<(Seq<FseEntry>, int)>,
    pub matches: Option<(Seq<FseEntry>, int)>,
    pub recent: Offsets,
}

/// What is at hand from one block to the next.
#[derive(Debug)]
pub struct Coder {
    pub huff: Option<HuffTable>,
    pub literals: Option<FseTable>,
    pub offsets: Option<FseTable>,
    pub matches: Option<FseTable>,
    pub recent: Offsets,
}

impl View for Coder {
    type V = CoderView;

    open spec fn view(&self) -> CoderView {
        CoderView {
            huff: huff_view(self.huff),
            literals: fse_view(self.literals),
            offsets: fse_view(self.offsets),
            matches: fse_view(self.matches),
            recent: self.recent,
        }
    }
}

/// What is at hand before the first block: no table, and the distances 1,
/// 4 and 8.
pub open spec fn first_coder() -> CoderView {
    CoderView {
        huff: None,
        literals: None,
        offsets: None,
        matches: None,
        recent: Offsets { first: 1, second: 4, third: 8 },
    }
}

/// What the sequences of a block write behind `out`, and what is at hand
/// after them. `rest` is the block behind its literals: the number of
/// sequences, a byte with the modes of the three tables, two bits each
/// from the top and two bits that are 0, the tables in the order
/// literals, distances, matches, and the stream of the sequences. A block
/// without sequences ends with their number and writes its literals.
pub open spec fn sequences_section(rest: Seq<u8>, literals: Seq<u8>, coder: CoderView, out: Seq<u8>) -> Option<
    (CoderView, Seq<u8>),
> {
    match sequence_count(rest) {
        None => None,
        Some((count, taken)) => if count == 0 {
            if taken != rest.len() {
                None
            } else {
                Some((coder, out + literals))
            }
        } else if rest.len() < taken + 1 || rest[taken] % 4 != 0 {
            None
        } else {
            let modes = rest[taken] as int;
            let first = taken + 1;
            match coding_table(
                modes / 64,
                rest.subrange(first, rest.len() as int),
                coder.literals,
                literal_length_counts(),
                6,
                9,
            ) {
                None => None,
                Some((for_literals, one)) => if first + one > rest.len() {
                    None
                } else {
                    match coding_table(
                        (modes / 16) % 4,
                        rest.subrange(first + one, rest.len() as int),
                        coder.offsets,
                        offset_counts(),
                        5,
                        8,
                    ) {
                        None => None,
                        Some((for_offsets, two)) => if first + one + two > rest.len() {
                            None
                        } else {
                            match coding_table(
                                (modes / 4) % 4,
                                rest.subrange(first + one + two, rest.len() as int),
                                coder.matches,
                                match_length_counts(),
                                6,
                                9,
                            ) {
                                None => None,
                                Some((for_matches, three)) => if first + one + two + three
                                    > rest.len() {
                                    None
                                } else {
                                    match stream_sequences(
                                        for_literals,
                                        for_offsets,
                                        for_matches,
                                        rest.subrange(
                                            first + one + two + three,
                                            rest.len() as int,
                                        ),
                                        count,
                                    ) {
                                        None => None,
                                        Some(sequences) => match run_from(
                                            sequences,
                                            0,
                                            literals,
                                            0,
                                            out,
                                            coder.recent,
                                        ) {
                                            None => None,
                                            Some((written, recent)) => Some(
                                                (
                                                    CoderView {
                                                        huff: coder.huff,
                                                        literals: Some(for_literals),
                                                        offsets: Some(for_offsets),
                                                        matches: Some(for_matches),
                                                        recent,
                                                    },
                                                    written,
                                                ),
                                            ),
                                        },
                                    }
                                },
                            }
                        },
                    }
                },
            }
        },
    }
}

/// What a compressed block writes behind `out`, and what is at hand after
/// it: the block holds its literals, and then its sequences.
pub open spec fn compressed_block(b: Seq<u8>, coder: CoderView, out: Seq<u8>) -> Option<
    (CoderView, Seq<u8>),
> {
    match literals_of(b, coder.huff) {
        None => None,
        Some((literals, huff, used)) => if used > b.len() {
            None
        } else {
            sequences_section(
                b.subrange(used, b.len() as int),
                literals,
                CoderView { huff, ..coder },
                out,
            )
        },
    }
}

/// How many sequences a block has, and how many bytes say so.
fn read_sequence_count(b: &[u8]) -> (found: Option<(usize, usize)>)
    ensures
        match found {
            Some((count, taken)) => sequence_count(b@) == Some((count as int, taken as int))
                && taken <= b@.len() && count <= 0x2_0000,
            None => sequence_count(b@) is None,
        },
{
    if b.len() == 0 {
        None
    } else if b[0] < 128 {
        Some((b[0] as usize, 1))
    } else if b[0] < 255 {
        if b.len() < 2 {
            None
        } else {
            Some(((b[0] as usize - 128) * 256 + b[1] as usize, 2))
        }
    } else if b.len() < 3 {
        None
    } else {
        Some((b[1] as usize + 256 * b[2] as usize + 0x7f00, 3))
    }
}

/// Writes what the sequences of a block write.
fn read_sequences_section(rest: &[u8], literals: &[u8], coder: &mut Coder, out: &mut Vec<u8>) -> (done:
    bool)
    requires
        old(coder).recent.is_plain(),
    ensures
        done ==> sequences_section(rest@, literals@, old(coder)@, old(out)@) == Some(
            (final(coder)@, final(out)@),
        ) && final(coder).recent.is_plain(),
        !done ==> sequences_section(rest@, literals@, old(coder)@, old(out)@) is None,
{
    let (count, taken) = match read_sequence_count(rest) {
        Some(found) => found,
        None => {
            return false;
        },
    };
    if count == 0 {
        if taken != rest.len() {
            return false;
        }
        out.extend_from_slice(literals);
        return true;
    }
    if rest.len() < taken + 1 || rest[taken] % 4 != 0 {
        return false;
    }
    let modes: u8 = rest[taken];
    let first: usize = taken + 1;
    let one = match read_coding_table_of(
        modes / 64,
        slice_subrange(rest, first, rest.len()),
        &mut coder.literals,
        0,
    ) {
        Some(found) => found,
        None => {
            return false;
        },
    };
    let two = match read_coding_table_of(
        (modes / 16) % 4,
        slice_subrange(rest, first + one, rest.len()),
        &mut coder.offsets,
        1,
    ) {
        Some(found) => found,
        None => {
            return false;
        },
    };
    let three = match read_coding_table_of(
        (modes / 4) % 4,
        slice_subrange(rest, first + one + two, rest.len()),
        &mut coder.matches,
        2,
    ) {
        Some(found) => found,
        None => {
            return false;
        },
    };
    let sequences = match (&coder.literals, &coder.offsets, &coder.matches) {
        (Some(for_literals), Some(for_offsets), Some(for_matches)) => match read_stream_sequences(
            for_literals,
            for_offsets,
            for_matches,
            slice_subrange(rest, first + one + two + three, rest.len()),
            count,
        ) {
            Some(found) => found,
            None => {
                return false;
            },
        },
        _ => {
            return false;
        },
    };
    run_sequences(&sequences, literals, out, &mut coder.recent)
}

/// The table for one kind of code: 0 for the number of literals, 1 for
/// the distance, 2 for the length of the match.
fn read_coding_table_of(mode: u8, b: &[u8], table: &mut Option<FseTable>, kind: u8) -> (used: Option<
    usize,
>)
    requires
        kind <= 2,
    ensures
        match used {
            Some(taken) => coding_table(
                mode as int,
                b@,
                fse_view(*old(table)),
                counts_of(kind),
                accuracy_of(kind),
                limit_of(kind),
            ) == Some((fse_view(*final(table))->0, taken as int)) && fse_view(*final(table)) is Some
                && taken <= b@.len(),
            None => coding_table(
                mode as int,
                b@,
                fse_view(*old(table)),
                counts_of(kind),
                accuracy_of(kind),
                limit_of(kind),
            ) is None,
        },
{
    if kind == 0 {
        crate::sequences::read_coding_table(mode, b, table, literal_length_counts_list(), 6, 9)
    } else if kind == 1 {
        crate::sequences::read_coding_table(mode, b, table, offset_counts_list(), 5, 8)
    } else {
        crate::sequences::read_coding_table(mode, b, table, match_length_counts_list(), 6, 9)
    }
}

/// The counts that are laid down for a kind of code.
pub open spec fn counts_of(kind: u8) -> Seq<i32> {
    if kind == 0 {
        literal_length_counts()
    } else if kind == 1 {
        offset_counts()
    } else {
        match_length_counts()
    }
}

/// The number of bits of the states that are laid down for a kind of code.
pub open spec fn accuracy_of(kind: u8) -> int {
    if kind == 1 {
        5
    } else {
        6
    }
}

/// The largest number of bits that the states of a kind of code can have.
pub open spec fn limit_of(kind: u8) -> int {
    if kind == 1 {
        8
    } else {
        9
    }
}

/// Writes what a compressed block writes. Says whether the block could be
/// read.
pub fn read_compressed_block(b: &[u8], coder: &mut Coder, out: &mut Vec<u8>) -> (done: bool)
    requires
        old(coder).recent.is_plain(),
    ensures
        done ==> compressed_block(b@, old(coder)@, old(out)@) == Some((final(coder)@, final(out)@))
            && final(coder).recent.is_plain(),
        !done ==> compressed_block(b@, old(coder)@, old(out)@) is None,
{
    let (literals, used) = match read_literals(b, &mut coder.huff) {
        Some(found) => found,
        None => {
            return false;
        },
    };
    read_sequences_section(slice_subrange(b, used, b.len()), literals.as_slice(), coder, out)
}

} // verus!
