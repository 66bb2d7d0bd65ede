//! The sequences of a compressed block of Zstandard: each says how many
//! literals are copied, and how many bytes are then copied from which
//! distance behind the end of what was written.

use crate::entropy::{
    bits_value, fse_table, is_place, make_fse_table, power, read_bits, read_table_description,
    table_description, FseEntry,
};
use crate::huffman::{count_stream_bits, stream_bits};
use vstd::arithmetic::power2::pow2;
use vstd::prelude::*;

verus! {

/// The least number of literals that each code for the number of literals stands for.
pub open spec fn literal_length_bases() -> Seq<i64> {
    seq![0i64, 1i64, 2i64, 3i64, 4i64, 5i64, 6i64, 7i64, 8i64, 9i64, 10i64, 11i64, 12i64, 13i64, 14i64, 15i64, 16i64, 18i64, 20i64, 22i64, 24i64, 28i64, 32i64, 40i64, 48i64, 64i64, 128i64, 256i64, 512i64, 1024i64, 2048i64, 4096i64, 8192i64, 16384i64, 32768i64, 65536i64]
}

/// The least number of literals that each code for the number of literals stands for.
pub fn literal_length_bases_list() -> (list: Vec<i64>)
    ensures
        list@ == literal_length_bases(),
{
    let list: [i64; 36] = [0, 1, 2, 3, 4, 5, 6, 7, 8, 9, 10, 11, 12, 13, 14, 15, 16, 18, 20, 22, 24, 28, 32, 40, 48, 64, 128, 256, 512, 1024, 2048, 4096, 8192, 16384, 32768, 65536];
    assert(list@ =~= literal_length_bases());
    vstd::slice::slice_to_vec(list.as_slice())
}

/// How many more bits each code for the number of literals reads.
pub open spec fn literal_length_bits() -> Seq<u32> {
    seq![0u32, 0u32, 0u32, 0u32, 0u32, 0u32, 0u32, 0u32, 0u32, 0u32, 0u32, 0u32, 0u32, 0u32, 0u32, 0u32, 1u32, 1u32, 1u32, 1u32, 2u32, 2u32, 3u32, 3u32, 4u32, 6u32, 7u32, 8u32, 9u32, 10u32, 11u32, 12u32, 13u32, 14u32, 15u32, 16u32]
}

/// How many more bits each code for the number of literals reads.
pub fn literal_length_bits_list() -> (list: Vec<u32>)
    ensures
        list@ == literal_length_bits(),
{
    let list: [u32; 36] = [0, 0, 0, 0, 0, 0, 0, 0, 0, 0, 0, 0, 0, 0, 0, 0, 1, 1, 1, 1, 2, 2, 3, 3, 4, 6, 7, 8, 9, 10, 11, 12, 13, 14, 15, 16];
    assert(list@ =~= literal_length_bits());
    vstd::slice::slice_to_vec(list.as_slice())
}

/// The least length of a match that each code for the length of a match stands for.
pub open spec fn match_length_bases() -> Seq<i64> {
    seq![3i64, 4i64, 5i64, 6i64, 7i64, 8i64, 9i64, 10i64, 11i64, 12i64, 13i64, 14i64, 15i64, 16i64, 17i64, 18i64, 19i64, 20i64, 21i64, 22i64, 23i64, 24i64, 25i64, 26i64, 27i64, 28i64, 29i64, 30i64, 31i64, 32i64, 33i64, 34i64, 35i64, 37i64, 39i64, 41i64, 43i64, 47i64, 51i64, 59i64, 67i64, 83i64, 99i64, 131i64, 259i64, 515i64, 1027i64, 2051i64, 4099i64, 8195i64, 16387i64, 32771i64, 65539i64]
}

/// The least length of a match that each code for the length of a match stands for.
pub fn match_length_bases_list() -> (list: Vec<i64>)
    ensures
        list@ == match_length_bases(),
{
    let list: [i64; 53] = [3, 4, 5, 6, 7, 8, 9, 10, 11, 12, 13, 14, 15, 16, 17, 18, 19, 20, 21, 22, 23, 24, 25, 26, 27, 28, 29, 30, 31, 32, 33, 34, 35, 37, 39, 41, 43, 47, 51, 59, 67, 83, 99, 131, 259, 515, 1027, 2051, 4099, 8195, 16387, 32771, 65539];
    assert(list@ =~= match_length_bases());
    vstd::slice::slice_to_vec(list.as_slice())
}

/// How many more bits each code for the length of a match reads.
pub open spec fn match_length_bits() -> Seq<u32> {
    seq![0u32, 0u32, 0u32, 0u32, 0u32, 0u32, 0u32, 0u32, 0u32, 0u32, 0u32, 0u32, 0u32, 0u32, 0u32, 0u32, 0u32, 0u32, 0u32, 0u32, 0u32, 0u32, 0u32, 0u32, 0u32, 0u32, 0u32, 0u32, 0u32, 0u32, 0u32, 0u32, 1u32, 1u32, 1u32, 1u32, 2u32, 2u32, 3u32, 3u32, 4u32, 4u32, 5u32, 7u32, 8u32, 9u32, 10u32, 11u32, 12u32, 13u32, 14u32, 15u32, 16u32]
}

/// How many more bits each code for the length of a match reads.
pub fn match_length_bits_list() -> (list: Vec<u32>)
    ensures
        list@ == match_length_bits(),
{
    let list: [u32; 53] = [0, 0, 0, 0, 0, 0, 0, 0, 0, 0, 0, 0, 0, 0, 0, 0, 0, 0, 0, 0, 0, 0, 0, 0, 0, 0, 0, 0, 0, 0, 0, 0, 1, 1, 1, 1, 2, 2, 3, 3, 4, 4, 5, 7, 8, 9, 10, 11, 12, 13, 14, 15, 16];
    assert(list@ =~= match_length_bits());
    vstd::slice::slice_to_vec(list.as_slice())
}

/// The counts of the codes for the number of literals where a block brings none of its own; their states have 6 bits.
pub open spec fn literal_length_counts() -> Seq<i32> {
    seq![4i32, 3i32, 2i32, 2i32, 2i32, 2i32, 2i32, 2i32, 2i32, 2i32, 2i32, 2i32, 2i32, 1i32, 1i32, 1i32, 2i32, 2i32, 2i32, 2i32, 2i32, 2i32, 2i32, 2i32, 2i32, 3i32, 2i32, 1i32, 1i32, 1i32, 1i32, 1i32, -1i32, -1i32, -1i32, -1i32]
}

/// The counts of the codes for the number of literals where a block brings none of its own; their states have 6 bits.
pub fn literal_length_counts_list() -> (list: Vec<i32>)
    ensures
        list@ == literal_length_counts(),
{
    let list: [i32; 36] = [4, 3, 2, 2, 2, 2, 2, 2, 2, 2, 2, 2, 2, 1, 1, 1, 2, 2, 2, 2, 2, 2, 2, 2, 2, 3, 2, 1, 1, 1, 1, 1, -1, -1, -1, -1];
    assert(list@ =~= literal_length_counts());
    vstd::slice::slice_to_vec(list.as_slice())
}

/// The counts of the codes for the distance where a block brings none of its own; their states have 5 bits.
pub open spec fn offset_counts() -> Seq<i32> {
    seq![1i32, 1i32, 1i32, 1i32, 1i32, 1i32, 2i32, 2i32, 2i32, 1i32, 1i32, 1i32, 1i32, 1i32, 1i32, 1i32, 1i32, 1i32, 1i32, 1i32, 1i32, 1i32, 1i32, 1i32, -1i32, -1i32, -1i32, -1i32, -1i32]
}

/// The counts of the codes for the distance where a block brings none of its own; their states have 5 bits.
pub fn offset_counts_list() -> (list: Vec<i32>)
    ensures
        list@ == offset_counts(),
{
    let list: [i32; 29] = [1, 1, 1, 1, 1, 1, 2, 2, 2, 1, 1, 1, 1, 1, 1, 1, 1, 1, 1, 1, 1, 1, 1, 1, -1, -1, -1, -1, -1];
    assert(list@ =~= offset_counts());
    vstd::slice::slice_to_vec(list.as_slice())
}

/// The counts of the codes for the length of a match where a block brings none of its own; their states have 6 bits.
pub open spec fn match_length_counts() -> Seq<i32> {
    seq![1i32, 4i32, 3i32, 2i32, 2i32, 2i32, 2i32, 2i32, 2i32, 1i32, 1i32, 1i32, 1i32, 1i32, 1i32, 1i32, 1i32, 1i32, 1i32, 1i32, 1i32, 1i32, 1i32, 1i32, 1i32, 1i32, 1i32, 1i32, 1i32, 1i32, 1i32, 1i32, 1i32, 1i32, 1i32, 1i32, 1i32, 1i32, 1i32, 1i32, 1i32, 1i32, 1i32, 1i32, 1i32, 1i32, -1i32, -1i32, -1i32, -1i32, -1i32, -1i32, -1i32]
}

/// The counts of the codes for the length of a match where a block brings none of its own; their states have 6 bits.
pub fn match_length_counts_list() -> (list: Vec<i32>)
    ensures
        list@ == match_length_counts(),
{
    let list: [i32; 53] = [1, 4, 3, 2, 2, 2, 2, 2, 2, 1, 1, 1, 1, 1, 1, 1, 1, 1, 1, 1, 1, 1, 1, 1, 1, 1, 1, 1, 1, 1, 1, 1, 1, 1, 1, 1, 1, 1, 1, 1, 1, 1, 1, 1, 1, 1, -1, -1, -1, -1, -1, -1, -1];
    assert(list@ =~= match_length_counts());
    vstd::slice::slice_to_vec(list.as_slice())
}

/// A table of the finite-state coder and the number of bits of its
/// states.
#[derive(Debug)]
pub struct FseTable {
    pub entries: Vec<FseEntry>,
    pub accuracy: u32,
}

impl View for FseTable {
    type V = (Seq<FseEntry>, int);

    open spec fn view(&self) -> (Seq<FseEntry>, int) {
        (self.entries@, self.accuracy as int)
    }
}

/// The view of a table that may be at hand.
pub open spec fn fse_view(table: Option<FseTable>) -> Option<(Seq<FseEntry>, int)> {
    match table {
        Some(found) => Some(found@),
        None => None,
    }
}

/// One sequence: how many literals are copied, how many bytes are copied
/// after them, and the number that stands for the distance.
#[derive(Clone, Copy, Debug)]
pub struct Sequence {
    pub literals: i64,
    pub matched: i64,
    pub offset: i64,
}

/// How many sequences a block has, and how many bytes say so: one byte
/// below 128; two bytes where the first is below 255, which counts from
/// 128 on in units of 256; else three bytes, of which the last two count
/// from 0x7f00 on.
pub open spec fn sequence_count(b: Seq<u8>) -> Option<(int, int)> {
    if b.len() == 0 {
        None
    } else if b[0] < 128 {
        Some((b[0] as int, 1int))
    } else if b[0] < 255 {
        if b.len() < 2 {
            None
        } else {
            Some(((b[0] - 128) * 256 + b[1], 2int))
        }
    } else if b.len() < 3 {
        None
    } else {
        Some((b[1] + 256 * b[2] + 0x7f00, 3int))
    }
}

/// The table for one kind of code, by the mode that the block states for
/// it, and how many bytes of the block describe it. Mode 0 takes the
/// table of the counts that are laid down; mode 1 a table whose one state
/// stands for the byte that follows; mode 2 the table that is described;
/// mode 3 the table that was used before.
pub open spec fn coding_table(
    mode: int,
    b: Seq<u8>,
    previous: Option<(Seq<FseEntry>, int)>,
    counts: Seq<i32>,
    accuracy: int,
    max_accuracy: int,
) -> Option<((Seq<FseEntry>, int), int)> {
    if mode == 0 {
        match fse_table(counts, accuracy) {
            None => None,
            Some(table) => Some(((table, accuracy), 0int)),
        }
    } else if mode == 1 {
        if b.len() == 0 {
            None
        } else {
            Some(((seq![FseEntry { symbol: b[0], bits: 0, base: 0 }], 0int), 1int))
        }
    } else if mode == 2 {
        match table_description(b, max_accuracy) {
            None => None,
            Some((found, bits, used)) => match fse_table(found, bits) {
                None => None,
                Some(table) => Some(((table, bits), used)),
            },
        }
    } else {
        match previous {
            None => None,
            Some(table) => Some((table, 0int)),
        }
    }
}

/// The table for one kind of code. The table at hand is replaced by it.
/// Gives how many bytes describe it.
pub fn read_coding_table(
    mode: u8,
    b: &[u8],
    table: &mut Option<FseTable>,
    counts: Vec<i32>,
    accuracy: u32,
    max_accuracy: u32,
) -> (used: Option<usize>)
    ensures
        match used {
            Some(taken) => coding_table(
                mode as int,
                b@,
                fse_view(*old(table)),
                counts@,
                accuracy as int,
                max_accuracy as int,
            ) == Some((fse_view(*final(table))->0, taken as int)) && fse_view(*final(table)) is Some
                && taken <= b@.len(),
            None => coding_table(
                mode as int,
                b@,
                fse_view(*old(table)),
                counts@,
                accuracy as int,
                max_accuracy as int,
            ) is None,
        },
{
    if mode == 0 {
        match make_fse_table(&counts, accuracy) {
            None => None,
            Some(entries) => {
                *table = Some(FseTable { entries, accuracy });
                Some(0)
            },
        }
    } else if mode == 1 {
        if b.len() == 0 {
            return None;
        }
        let mut entries: Vec<FseEntry> = Vec::new();
        entries.push(FseEntry { symbol: b[0], bits: 0, base: 0 });
        assert(entries@ =~= seq![FseEntry { symbol: b@[0], bits: 0, base: 0 }]);
        *table = Some(FseTable { entries, accuracy: 0 });
        Some(1)
    } else if mode == 2 {
        match read_table_description(b, max_accuracy) {
            None => None,
            Some((found, bits, used)) => match make_fse_table(&found, bits) {
                None => None,
                Some(entries) => {
                    *table = Some(FseTable { entries, accuracy: bits });
                    Some(used)
                },
            },
        }
    } else {
        match table {
            None => None,
            Some(_) => Some(0),
        }
    }
}

/// The sequence that three codes stand for, with the bits that are read
/// backwards from the place `pos`: those of the distance first, then those
/// of the length of the match, then those of the number of literals.
/// Gives the sequence and the place of the last bit that was read.
pub open spec fn sequence_at(
    literal_code: int,
    offset_code: int,
    match_code: int,
    s: Seq<u8>,
    pos: int,
) -> (Sequence, int) {
    let first = pos - offset_code;
    let second = first - match_length_bits()[match_code];
    let third = second - literal_length_bits()[literal_code];
    (
        Sequence {
            literals: (literal_length_bases()[literal_code] + bits_value(
                s,
                third,
                literal_length_bits()[literal_code] as nat,
            )) as i64,
            matched: (match_length_bases()[match_code] + bits_value(
                s,
                second,
                match_length_bits()[match_code] as nat,
            )) as i64,
            offset: (pow2(offset_code as nat) + bits_value(s, first, offset_code as nat)) as i64,
        },
        third,
    )
}

/// The state that follows the state of an entry, with the bits that are
/// read backwards from the place `pos`, and the place of the last bit that
/// was read.
pub open spec fn state_after(entry: FseEntry, s: Seq<u8>, pos: int) -> (int, int) {
    (entry.base + bits_value(s, pos - entry.bits, entry.bits as nat), pos - entry.bits)
}

/// The sequences that a stream of bits holds, read backwards from the
/// place `pos`, behind the sequences `out`, while `left` sequences are
/// still to come. The three states stand for the codes of the number of
/// literals, of the distance and of the length of the match. But for the
/// last sequence, the states then go on, that of the literals first, then
/// that of the match, then that of the distance. The stream must end with
/// its first bit.
pub open spec fn sequences_from(
    literals: Seq<FseEntry>,
    offsets: Seq<FseEntry>,
    matches: Seq<FseEntry>,
    s: Seq<u8>,
    pos: int,
    literal_state: int,
    offset_state: int,
    match_state: int,
    left: int,
    out: Seq<Sequence>,
) -> Option<Seq<Sequence>>
    decreases left,
{
    if left <= 0 {
        if pos == 0 {
            Some(out)
        } else {
            None
        }
    } else if !(0 <= literal_state < literals.len()) || !(0 <= offset_state < offsets.len()) || !(0
        <= match_state < matches.len()) || pos < 0 || pos > 8 * s.len() {
        None
    } else if literals[literal_state].symbol > 35 || offsets[offset_state].symbol > 31
        || matches[match_state].symbol > 52 || literals[literal_state].bits > 16
        || matches[match_state].bits > 16 || offsets[offset_state].bits > 16 {
        None
    } else {
        let (sequence, third) = sequence_at(
            literals[literal_state].symbol as int,
            offsets[offset_state].symbol as int,
            matches[match_state].symbol as int,
            s,
            pos,
        );
        let (next_literal, fourth) = state_after(literals[literal_state], s, third);
        let (next_match, fifth) = state_after(matches[match_state], s, fourth);
        let (next_offset, sixth) = state_after(offsets[offset_state], s, fifth);
        if third < 0 {
            None
        } else if left == 1 {
            sequences_from(
                literals,
                offsets,
                matches,
                s,
                third,
                literal_state,
                offset_state,
                match_state,
                0,
                out.push(sequence),
            )
        } else if sixth < 0 {
            None
        } else {
            sequences_from(
                literals,
                offsets,
                matches,
                s,
                sixth,
                next_literal,
                next_offset,
                next_match,
                left - 1,
                out.push(sequence),
            )
        }
    }
}

/// The sequence that three codes stand for.
fn read_sequence(literal_code: u8, offset_code: u8, match_code: u8, s: &[u8], pos: i64) -> (found: (
    Sequence,
    i64,
))
    requires
        literal_code <= 35,
        offset_code <= 31,
        match_code <= 52,
        0 <= pos <= 0x1000_0000,
    ensures
        found.0 == sequence_at(
            literal_code as int,
            offset_code as int,
            match_code as int,
            s@,
            pos as int,
        ).0,
        found.1 == sequence_at(
            literal_code as int,
            offset_code as int,
            match_code as int,
            s@,
            pos as int,
        ).1,
        pos - 64 <= found.1 <= pos,
{
    let bases = literal_length_bases_list();
    let more = literal_length_bits_list();
    let match_bases = match_length_bases_list();
    let match_more = match_length_bits_list();
    let literal_base: i64 = bases[literal_code as usize];
    let literal_bits: u32 = more[literal_code as usize];
    let match_base: i64 = match_bases[match_code as usize];
    let match_bits: u32 = match_more[match_code as usize];
    assert(0 <= literal_base <= 65536 && literal_bits <= 16 && 0 <= match_base <= 65539
        && match_bits <= 16);
    let first: i64 = pos - offset_code as i64;
    let second: i64 = first - match_bits as i64;
    let third: i64 = second - literal_bits as i64;
    let offset: i64 = power(offset_code as u32) + read_bits(s, first, offset_code as u32);
    let matched: i64 = match_base + read_bits(s, second, match_bits);
    let copied: i64 = literal_base + read_bits(s, third, literal_bits);
    (Sequence { literals: copied, matched, offset }, third)
}

/// The state that follows the state of an entry.
fn read_state_after(entry: FseEntry, s: &[u8], pos: i64) -> (found: (i64, i64))
    requires
        entry.bits <= 16,
        -0x1000 <= pos <= 0x1000_0000,
    ensures
        found.0 == state_after(entry, s@, pos as int).0,
        found.1 == state_after(entry, s@, pos as int).1,
        0 <= found.0 <= 0x2_0000_0000,
        found.1 == pos - entry.bits,
{
    let left: i64 = pos - entry.bits as i64;
    (entry.base as i64 + read_bits(s, left, entry.bits as u32), left)
}

/// The sequences of a whole stream: the three states are read first, that
/// of the literals, that of the distance and that of the match, each with
/// the bits of its table.
pub open spec fn stream_sequences(
    literals: (Seq<FseEntry>, int),
    offsets: (Seq<FseEntry>, int),
    matches: (Seq<FseEntry>, int),
    s: Seq<u8>,
    count: int,
) -> Option<Seq<Sequence>> {
    match stream_bits(s) {
        None => None,
        Some(bits) => {
            let first = bits - literals.1;
            let second = first - offsets.1;
            let third = second - matches.1;
            if literals.1 < 0 || literals.1 > 9 || offsets.1 < 0 || offsets.1 > 9 || matches.1 < 0
                || matches.1 > 9 || third < 0 {
                None
            } else {
                sequences_from(
                    literals.0,
                    offsets.0,
                    matches.0,
                    s,
                    third,
                    bits_value(s, first, literals.1 as nat),
                    bits_value(s, second, offsets.1 as nat),
                    bits_value(s, third, matches.1 as nat),
                    count,
                    Seq::empty(),
                )
            }
        },
    }
}

/// Reads the sequences of a whole stream.
#[verifier::loop_isolation(false)]
pub fn read_stream_sequences(
    literals: &FseTable,
    offsets: &FseTable,
    matches: &FseTable,
    s: &[u8],
    count: usize,
) -> (found: Option<Vec<Sequence>>)
    requires
        count <= 0x2_0000,
    ensures
        match found {
            Some(sequences) => stream_sequences(
                literals@,
                offsets@,
                matches@,
                s@,
                count as int,
            ) == Some(sequences@),
            None => stream_sequences(literals@, offsets@, matches@, s@, count as int) is None,
        },
{
    let bits = match count_stream_bits(s) {
        Some(found) => found,
        None => {
            return None;
        },
    };
    if literals.accuracy > 9 || offsets.accuracy > 9 || matches.accuracy > 9 {
        return None;
    }
    let first: i64 = bits - literals.accuracy as i64;
    let second: i64 = first - offsets.accuracy as i64;
    let third: i64 = second - matches.accuracy as i64;
    if third < 0 {
        return None;
    }
    let mut literal_state: i64 = read_bits(s, first, literals.accuracy);
    let mut offset_state: i64 = read_bits(s, second, offsets.accuracy);
    let mut match_state: i64 = read_bits(s, third, matches.accuracy);
    let mut pos: i64 = third;
    let mut left: usize = count;
    let mut out: Vec<Sequence> = Vec::new();
    let ghost goal = stream_sequences(literals@, offsets@, matches@, s@, count as int);
    while left > 0
        invariant
            left <= count,
            -0x1000 <= pos <= 8 * s@.len(),
            0 <= literal_state <= 0x2_0000_0000,
            0 <= offset_state <= 0x2_0000_0000,
            0 <= match_state <= 0x2_0000_0000,
            sequences_from(
                literals@.0,
                offsets@.0,
                matches@.0,
                s@,
                pos as int,
                literal_state as int,
                offset_state as int,
                match_state as int,
                left as int,
                out@,
            ) == goal,
        decreases left,
    {
        if !is_place(literal_state, literals.entries.len()) || !is_place(
            offset_state,
            offsets.entries.len(),
        ) || !is_place(match_state, matches.entries.len()) || pos < 0 {
            return None;
        }
        let literal_entry = literals.entries[literal_state as usize];
        let offset_entry = offsets.entries[offset_state as usize];
        let match_entry = matches.entries[match_state as usize];
        if literal_entry.symbol > 35 || offset_entry.symbol > 31 || match_entry.symbol > 52
            || literal_entry.bits > 16 || match_entry.bits > 16 || offset_entry.bits > 16 {
            return None;
        }
        let (sequence, third) = read_sequence(
            literal_entry.symbol,
            offset_entry.symbol,
            match_entry.symbol,
            s,
            pos,
        );
        if third < 0 {
            return None;
        }
        let (next_literal, fourth) = read_state_after(literal_entry, s, third);
        let (next_match, fifth) = read_state_after(match_entry, s, fourth);
        let (next_offset, sixth) = read_state_after(offset_entry, s, fifth);
        out.push(sequence);
        if left == 1 {
            pos = third;
        } else {
            if sixth < 0 {
                return None;
            }
            literal_state = next_literal;
            match_state = next_match;
            offset_state = next_offset;
            pos = sixth;
        }
        left = left - 1;
    }
    if pos != 0 {
        return None;
    }
    Some(out)
}

} // verus!
