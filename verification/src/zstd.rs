//! Frames in the Zstandard format. The blocks of a frame hold the content
//! as it is, as one byte and how often it is repeated, or compressed, as
//! literals and sequences. `frame_content` says what a frame holds;
//! `stored_content` is the case of a frame without compressed blocks, and
//! `stored_frame` the frame that is written here.
//!
//! A frame starts with four bytes that mark it, a byte that describes its
//! header, and the rest of the header: the size of the window unless the
//! frame is a single segment, the number of a dictionary, and the size of
//! the content. Blocks follow, each with a header of three bytes that
//! holds, from the lowest bit on, whether the block is the last, the kind
//! of the block in two bits, and the size of the block in 21 bits. A
//! checksum of four bytes may close the frame; it is not held against the
//! content.

use crate::wire::{
    get_u32, get_u64, lemma_u64_field, put_slice, put_u64, u32_at, u64_at, u64_bytes,
};
use crate::blocks::{
    compressed_block, first_coder, read_compressed_block, Coder, CoderView, Offsets,
};
use vstd::prelude::*;
use vstd::slice::slice_subrange;

verus! {

/// The largest size of a block that is written.
pub const BLOCK_SIZE: usize = 0x2_0000;

/// The four bytes that mark a frame.
pub open spec fn frame_mark() -> Seq<u8> {
    seq![0x28u8, 0xb5u8, 0x2fu8, 0xfdu8]
}

/// What the header of a frame says: how many bytes the mark and the header
/// take, the size of the content where the header states it, and whether a
/// checksum closes the frame.
pub struct FrameHeader {
    pub size: int,
    pub content_size: Option<int>,
    pub has_checksum: bool,
}

/// Whether the descriptor says that the frame is a single segment, which
/// has no size of a window in its header.
pub open spec fn is_single_segment(descriptor: u8) -> bool {
    (descriptor / 32) % 2 == 1
}

/// How many bytes the number of the dictionary takes, by the two lowest
/// bits of the descriptor.
pub open spec fn dictionary_bytes(descriptor: u8) -> int {
    if descriptor % 4 == 3 {
        4
    } else {
        (descriptor % 4) as int
    }
}

/// How many bytes the size of the content takes, by the two highest bits of
/// the descriptor and by whether the frame is a single segment.
pub open spec fn content_size_bytes(descriptor: u8) -> int {
    if descriptor / 64 == 0 {
        if is_single_segment(descriptor) {
            1
        } else {
            0
        }
    } else if descriptor / 64 == 1 {
        2
    } else if descriptor / 64 == 2 {
        4
    } else {
        8
    }
}

/// The size of the content that stands at `at` in as many bytes as the
/// descriptor says, the lowest byte first; a size in two bytes stands for
/// 256 more than the bytes hold. `None` where the header has no size.
pub open spec fn stated_size(bytes: Seq<u8>, at: int, descriptor: u8) -> Option<int> {
    if content_size_bytes(descriptor) == 0 {
        None
    } else if content_size_bytes(descriptor) == 1 {
        Some(bytes[at] as int)
    } else if content_size_bytes(descriptor) == 2 {
        Some(bytes[at] + 256 * bytes[at + 1] + 256)
    } else if content_size_bytes(descriptor) == 4 {
        Some(u32_at(bytes, at) as int)
    } else {
        Some(u64_at(bytes, at) as int)
    }
}

/// The number of the dictionary that the header names in `count` bytes
/// from `from` on, the lowest byte first; 0 where it names none.
pub open spec fn dictionary_number(bytes: Seq<u8>, from: int, count: int) -> int {
    if count == 1 {
        bytes[from] as int
    } else if count == 2 {
        bytes[from] + 256 * bytes[from + 1]
    } else if count == 4 {
        bytes[from] + 256 * bytes[from + 1] + 65536 * bytes[from + 2] + 16777216 * bytes[from + 3]
    } else {
        0
    }
}

/// What the header of the frame says that the bytes start with, or `None`
/// where they start with no frame that can be read: where the mark is
/// missing, the reserved bit of the descriptor is set, the bytes end within
/// the header, or the header names a dictionary, which is not at hand.
pub open spec fn frame_header(bytes: Seq<u8>) -> Option<FrameHeader> {
    if bytes.len() < 5 || bytes.subrange(0, 4) != frame_mark() || (bytes[4] / 8) % 2 == 1 {
        None
    } else {
        let descriptor = bytes[4];
        let window: int = if is_single_segment(descriptor) {
            0
        } else {
            1
        };
        let at = 5 + window + dictionary_bytes(descriptor);
        let size = at + content_size_bytes(descriptor);
        if size > bytes.len() || dictionary_number(
            bytes,
            5 + window,
            dictionary_bytes(descriptor),
        ) != 0 {
            None
        } else {
            Some(
                FrameHeader {
                    size,
                    content_size: stated_size(bytes, at, descriptor),
                    has_checksum: (descriptor / 4) % 2 == 1,
                },
            )
        }
    }
}

/// The number that the three bytes of the header of a block hold, the
/// lowest byte first.
pub open spec fn block_header(bytes: Seq<u8>, pos: int) -> int {
    bytes[pos] + 256 * bytes[pos + 1] + 65536 * bytes[pos + 2]
}

/// The content of the block at `pos` and the place behind the block: the
/// bytes of a block that holds its content as it is, and the byte of a
/// block that holds one byte, as often as the size of the block says.
/// `None` for a block that is compressed or of no known kind, and where
/// the bytes end within the block.
pub open spec fn block_content(bytes: Seq<u8>, pos: int) -> Option<(Seq<u8>, int)> {
    let size = block_header(bytes, pos) / 8;
    let kind = (block_header(bytes, pos) / 2) % 4;
    if pos < 0 || pos + 3 > bytes.len() {
        None
    } else if kind == 0 && pos + 3 + size <= bytes.len() {
        Some((bytes.subrange(pos + 3, pos + 3 + size), pos + 3 + size))
    } else if kind == 1 && pos + 4 <= bytes.len() {
        Some((Seq::new(size as nat, |i: int| bytes[pos + 3]), pos + 4))
    } else {
        None
    }
}

/// The content of the blocks from `pos` on, up to the last block, and the
/// place behind the last block. `None` where a block cannot be read, or
/// where the bytes end before the last block does.
pub open spec fn blocks_content(bytes: Seq<u8>, pos: int) -> Option<(Seq<u8>, int)>
    decreases bytes.len() - pos,
{
    match block_content(bytes, pos) {
        None => None,
        Some((content, next)) => if block_header(bytes, pos) % 2 == 1 {
            Some((content, next))
        } else if !(pos < next <= bytes.len()) {
            None
        } else {
            match blocks_content(bytes, next) {
                None => None,
                Some((rest, end)) => Some((content + rest, end)),
            }
        },
    }
}

/// The content of the frame that the bytes are, or `None` where they are
/// no frame that stores its content: the bytes are one frame from their
/// first to their last, every block of it holds its content as it is or as
/// one byte that is repeated, and the content has the size that the header
/// states, if it states one.
pub open spec fn stored_content(bytes: Seq<u8>) -> Option<Seq<u8>> {
    match frame_header(bytes) {
        None => None,
        Some(header) => match blocks_content(bytes, header.size) {
            None => None,
            Some((content, end)) => if end + (if header.has_checksum {
                4int
            } else {
                0int
            }) == bytes.len() && (header.content_size is None || header.content_size == Some(
                content.len() as int,
            )) {
                Some(content)
            } else {
                None
            },
        },
    }
}

/// What the header of a frame says, with machine numbers.
struct HeaderFound {
    size: usize,
    content_size: Option<u64>,
    has_checksum: bool,
}

impl HeaderFound {
    spec fn says(self) -> FrameHeader {
        FrameHeader {
            size: self.size as int,
            content_size: match self.content_size {
                Some(size) => Some(size as int),
                None => None,
            },
            has_checksum: self.has_checksum,
        }
    }
}

/// What the header of the frame says that the bytes start with.
fn read_frame_header(bytes: &[u8]) -> (found: Option<HeaderFound>)
    ensures
        match found {
            Some(header) => frame_header(bytes@) == Some(header.says()) && 5 <= header.size
                <= bytes@.len(),
            None => frame_header(bytes@) is None,
        },
{
    let mark: [u8; 4] = [0x28, 0xb5, 0x2f, 0xfd];
    assert(mark@ =~= frame_mark());
    if bytes.len() < 5 || !crate::wire::has_bytes_at(bytes, 0, mark.as_slice()) {
        return None;
    }
    let descriptor: u8 = bytes[4];
    if (descriptor / 8) % 2 == 1 {
        return None;
    }
    let single: bool = (descriptor / 32) % 2 == 1;
    let window: usize = if single {
        0
    } else {
        1
    };
    let dictionary: usize = if descriptor % 4 == 3 {
        4
    } else {
        (descriptor % 4) as usize
    };
    let flag: u8 = descriptor / 64;
    let content: usize = if flag == 0 {
        if single {
            1
        } else {
            0
        }
    } else if flag == 1 {
        2
    } else if flag == 2 {
        4
    } else {
        8
    };
    let at: usize = 5 + window + dictionary;
    let size: usize = at + content;
    if size > bytes.len() {
        return None;
    }
    let from: usize = 5 + window;
    let named: u64 = if dictionary == 1 {
        bytes[from] as u64
    } else if dictionary == 2 {
        bytes[from] as u64 + 256 * bytes[from + 1] as u64
    } else if dictionary == 4 {
        bytes[from] as u64 + 256 * bytes[from + 1] as u64 + 65536 * bytes[from + 2] as u64
            + 16777216 * bytes[from + 3] as u64
    } else {
        0
    };
    if named != 0 {
        return None;
    }
    let content_size: Option<u64> = if content == 0 {
        None
    } else if content == 1 {
        Some(bytes[at] as u64)
    } else if content == 2 {
        Some(bytes[at] as u64 + 256 * bytes[at + 1] as u64 + 256)
    } else if content == 4 {
        Some(get_u32(bytes, at) as u64)
    } else {
        Some(get_u64(bytes, at))
    };
    Some(HeaderFound { size, content_size, has_checksum: (descriptor / 4) % 2 == 1 })
}

/// Appends the content of the blocks from `pos` on and gives the place
/// behind the last block, or `None` where a block cannot be read.
fn read_blocks(out: &mut Vec<u8>, bytes: &[u8], pos: usize) -> (end: Option<usize>)
    requires
        pos <= bytes@.len(),
    ensures
        match end {
            Some(place) => blocks_content(bytes@, pos as int) == Some(
                (final(out)@.skip(old(out)@.len() as int), place as int),
            ) && final(out)@.take(old(out)@.len() as int) == old(out)@ && place <= bytes@.len()
                && old(out)@.len() <= final(out)@.len(),
            None => blocks_content(bytes@, pos as int) is None,
        },
{
    let ghost before = out@;
    let mut place: usize = pos;
    loop
        invariant
            pos <= place <= bytes@.len(),
            before == old(out)@,
            before.len() <= out@.len(),
            out@.take(before.len() as int) == before,
            match blocks_content(bytes@, place as int) {
                None => blocks_content(bytes@, pos as int) is None,
                Some((rest, end)) => blocks_content(bytes@, pos as int) == Some(
                    (out@.skip(before.len() as int) + rest, end),
                ),
            },
        decreases bytes@.len() - place,
    {
        if bytes.len() - place < 3 {
            return None;
        }
        let header: usize = bytes[place] as usize + 256 * bytes[place + 1] as usize + 65536
            * bytes[place + 2] as usize;
        let size: usize = header / 8;
        let kind: usize = (header / 2) % 4;
        let last: bool = header % 2 == 1;
        let ghost so_far = out@;
        let next: usize;
        if kind == 0 && size <= bytes.len() - place - 3 {
            let content = slice_subrange(bytes, place + 3, place + 3 + size);
            put_slice(out, content);
            next = place + 3 + size;
        } else if kind == 1 && bytes.len() - place >= 4 {
            let byte: u8 = bytes[place + 3];
            let mut count: usize = 0;
            while count < size
                invariant
                    count <= size,
                    out@ == so_far + Seq::new(count as nat, |i: int| byte),
                decreases size - count,
            {
                out.push(byte);
                count = count + 1;
                assert(out@ =~= so_far + Seq::new(count as nat, |i: int| byte));
            }
            next = place + 4;
        } else {
            return None;
        }
        proof {
            let block = block_content(bytes@, place as int)->0;
            assert(out@ =~= so_far + block.0);
            assert(out@.skip(before.len() as int) =~= so_far.skip(before.len() as int) + block.0);
            assert(out@.take(before.len() as int) =~= before);
            if !last {
                match blocks_content(bytes@, next as int) {
                    None => {},
                    Some((rest, end)) => {
                        assert(so_far.skip(before.len() as int) + (block.0 + rest) =~= out@.skip(
                            before.len() as int,
                        ) + rest);
                    },
                }
            } else {
                assert(so_far.skip(before.len() as int) + block.0 =~= out@.skip(
                    before.len() as int,
                ));
            }
        }
        if last {
            return Some(next);
        }
        if next <= place {
            return None;
        }
        place = next;
    }
}

/// The content of the frame that the bytes are, or `None` where they are
/// no frame that stores its content.
pub fn read_stored_frame(bytes: &[u8]) -> (content: Option<Vec<u8>>)
    ensures
        match content {
            Some(found) => stored_content(bytes@) == Some(found@),
            None => stored_content(bytes@) is None,
        },
{
    let header = match read_frame_header(bytes) {
        Some(found) => found,
        None => {
            return None;
        },
    };
    let mut content: Vec<u8> = Vec::new();
    let end = match read_blocks(&mut content, bytes, header.size) {
        Some(found) => found,
        None => {
            return None;
        },
    };
    assert(content@.skip(0) =~= content@);
    let closing: usize = if header.has_checksum {
        4
    } else {
        0
    };
    if bytes.len() - end != closing {
        return None;
    }
    match header.content_size {
        None => Some(content),
        Some(size) => if size == content.len() as u64 {
            Some(content)
        } else {
            None
        },
    }
}

/// The three bytes of the header of a block that holds its content as it
/// is.
pub open spec fn block_header_bytes(size: int, last: bool) -> Seq<u8> {
    let header = 8 * size + if last {
        1int
    } else {
        0int
    };
    seq![(header % 256) as u8, ((header / 256) % 256) as u8, (header / 65536) as u8]
}

/// The blocks that store a content: blocks of the largest size that is
/// written, and a last block with the rest.
pub open spec fn stored_blocks(content: Seq<u8>) -> Seq<u8>
    decreases content.len(),
{
    if content.len() <= BLOCK_SIZE {
        block_header_bytes(content.len() as int, true) + content
    } else {
        block_header_bytes(BLOCK_SIZE as int, false) + content.take(BLOCK_SIZE as int)
            + stored_blocks(content.skip(BLOCK_SIZE as int))
    }
}

/// The frame that stores a content: a single segment that states the size
/// of the content in eight bytes, without a dictionary and without a
/// checksum, with blocks that hold the content as it is.
pub open spec fn stored_frame(content: Seq<u8>) -> Seq<u8> {
    frame_mark() + seq![0xe0u8] + u64_bytes(content.len() as u64) + stored_blocks(content)
}

/// The header of a block holds the size of the block and whether it is the
/// last.
pub proof fn lemma_block_header(size: int, last: bool)
    requires
        0 <= size <= BLOCK_SIZE,
    ensures
        block_header_bytes(size, last).len() == 3,
        block_header(block_header_bytes(size, last), 0) == 8 * size + if last {
            1int
        } else {
            0int
        },
{
}

/// A block that stands behind `front` and holds `content` as it is, is
/// read as `content`.
proof fn lemma_block_is_read_back(front: Seq<u8>, content: Seq<u8>, last: bool, behind: Seq<u8>)
    requires
        content.len() <= BLOCK_SIZE,
    ensures
        block_content(
            front + block_header_bytes(content.len() as int, last) + content + behind,
            front.len() as int,
        ) == Some((content, (front.len() + 3 + content.len()) as int)),
        block_header(
            front + block_header_bytes(content.len() as int, last) + content + behind,
            front.len() as int,
        ) % 2 == if last {
            1int
        } else {
            0int
        },
{
    let header = block_header_bytes(content.len() as int, last);
    let bytes = front + header + content + behind;
    let pos = front.len() as int;
    lemma_block_header(content.len() as int, last);
    assert(bytes[pos] == header[0]);
    assert(bytes[pos + 1] == header[1]);
    assert(bytes[pos + 2] == header[2]);
    assert(block_header(bytes, pos) == block_header(header, 0));
    assert(bytes.subrange(pos + 3, pos + 3 + content.len()) =~= content);
}

/// The blocks that store a content are read back as the content, whatever
/// stands in front of them.
pub proof fn lemma_stored_blocks_are_read_back(front: Seq<u8>, content: Seq<u8>)
    ensures
        blocks_content(front + stored_blocks(content), front.len() as int) == Some(
            (content, (front + stored_blocks(content)).len() as int),
        ),
    decreases content.len(),
{
    if content.len() <= BLOCK_SIZE {
        lemma_last_block(front, content);
    } else {
        let header = block_header_bytes(BLOCK_SIZE as int, false);
        let first = content.take(BLOCK_SIZE as int);
        let rest = content.skip(BLOCK_SIZE as int);
        let tail = stored_blocks(rest);
        assert(stored_blocks(content) == header + first + tail);
        lemma_stored_blocks_are_read_back(front + header + first, rest);
        lemma_stored_blocks_size(rest);
        lemma_one_more_block(front, first, tail, rest);
        assert(first + rest =~= content);
        assert(front + stored_blocks(content) =~= front + header + first + tail);
    }
}

/// The last block, behind `front`, is read as its content.
proof fn lemma_last_block(front: Seq<u8>, content: Seq<u8>)
    requires
        content.len() <= BLOCK_SIZE,
    ensures
        blocks_content(front + stored_blocks(content), front.len() as int) == Some(
            (content, (front + stored_blocks(content)).len() as int),
        ),
{
    let header = block_header_bytes(content.len() as int, true);
    let whole = front + header + content + Seq::<u8>::empty();
    assert(front + stored_blocks(content) =~= whole);
    lemma_block_is_read_back(front, content, true, Seq::empty());
    assert(whole.len() == front.len() + 3 + content.len());
}

/// A block that is not the last, behind `front`, is read as its content
/// and the content of the blocks behind it.
proof fn lemma_one_more_block(front: Seq<u8>, first: Seq<u8>, tail: Seq<u8>, rest: Seq<u8>)
    requires
        first.len() == BLOCK_SIZE,
        blocks_content(
            front + block_header_bytes(BLOCK_SIZE as int, false) + first + tail,
            (front.len() + 3 + BLOCK_SIZE) as int,
        ) == Some(
            (rest, (front + block_header_bytes(BLOCK_SIZE as int, false) + first + tail).len() as int),
        ),
        tail.len() >= 3,
    ensures
        blocks_content(
            front + block_header_bytes(BLOCK_SIZE as int, false) + first + tail,
            front.len() as int,
        ) == Some(
            (
                first + rest,
                (front + block_header_bytes(BLOCK_SIZE as int, false) + first + tail).len() as int,
            ),
        ),
{
    lemma_block_is_read_back(front, first, false, tail);
}

/// Storing and reading are inverse to each other: the frame that stores a
/// content is read back as the content.
pub proof fn lemma_stored_frame_round_trip(content: Seq<u8>)
    requires
        content.len() <= u64::MAX,
    ensures
        stored_content(stored_frame(content)) == Some(content),
{
    let front = frame_mark() + seq![0xe0u8] + u64_bytes(content.len() as u64);
    let bytes = stored_frame(content);
    crate::wire::lemma_number_bytes(0, 0, content.len() as u64);
    assert(bytes =~= front + stored_blocks(content));
    assert(front.len() == 13);
    assert(bytes.subrange(0, 4) =~= frame_mark());
    assert(bytes[4] == 0xe0u8);
    assert(bytes.subrange(5, 13) =~= u64_bytes(content.len() as u64));
    lemma_stored_blocks_size(content);
    lemma_u64_field(bytes, 5, content.len() as u64);
    lemma_stored_blocks_are_read_back(front, content);
}

/// The blocks that store a content take three bytes at least.
pub proof fn lemma_stored_blocks_size(content: Seq<u8>)
    ensures
        stored_blocks(content).len() >= 3 + content.len(),
    decreases content.len(),
{
    if content.len() > BLOCK_SIZE {
        lemma_stored_blocks_size(content.skip(BLOCK_SIZE as int));
    }
}

/// Appends the header of a block that holds its content as it is.
fn put_block_header(out: &mut Vec<u8>, size: usize, last: bool)
    requires
        size <= BLOCK_SIZE,
    ensures
        final(out)@ == old(out)@ + block_header_bytes(size as int, last),
{
    let header: usize = 8 * size + if last {
        1
    } else {
        0
    };
    out.push((header % 256) as u8);
    out.push(((header / 256) % 256) as u8);
    out.push((header / 65536) as u8);
    assert(out@ =~= old(out)@ + block_header_bytes(size as int, last));
}

/// The frame that stores a content.
pub fn write_stored_frame(content: &[u8]) -> (frame: Vec<u8>)
    ensures
        frame@ == stored_frame(content@),
{
    let mut frame: Vec<u8> = Vec::new();
    frame.push(0x28);
    frame.push(0xb5);
    frame.push(0x2f);
    frame.push(0xfd);
    frame.push(0xe0);
    put_u64(&mut frame, content.len() as u64);
    let ghost front = frame@;
    assert(front =~= frame_mark() + seq![0xe0u8] + u64_bytes(content@.len() as u64));
    let mut pos: usize = 0;
    assert(content@.skip(0) =~= content@);
    while content.len() - pos > BLOCK_SIZE
        invariant
            pos <= content@.len(),
            frame@ + stored_blocks(content@.skip(pos as int)) == front + stored_blocks(content@),
        decreases content@.len() - pos,
    {
        let ghost so_far = frame@;
        let ghost left = content@.skip(pos as int);
        put_block_header(&mut frame, BLOCK_SIZE, false);
        let block = slice_subrange(content, pos, pos + BLOCK_SIZE);
        put_slice(&mut frame, block);
        assert(block@ =~= left.take(BLOCK_SIZE as int));
        assert(left.skip(BLOCK_SIZE as int) =~= content@.skip(pos + BLOCK_SIZE));
        assert(frame@ + stored_blocks(content@.skip(pos + BLOCK_SIZE)) =~= so_far + stored_blocks(
            left,
        ));
        pos = pos + BLOCK_SIZE;
    }
    let ghost so_far = frame@;
    let ghost left = content@.skip(pos as int);
    put_block_header(&mut frame, content.len() - pos, true);
    let block = slice_subrange(content, pos, content.len());
    put_slice(&mut frame, block);
    assert(block@ =~= left);
    assert(frame@ =~= so_far + stored_blocks(left));
    frame
}

/// A content whose bytes were put apart: the lower byte of every pair of
/// bytes first, and then the upper byte of every pair.
pub open spec fn put_together(content: Seq<u8>) -> Seq<u8> {
    Seq::new(
        content.len(),
        |i: int|
            if i % 2 == 0 {
                content[i / 2]
            } else {
                content[content.len() / 2 + i / 2]
            },
    )
}

/// What stands in front of a frame and says how its content is to be
/// read: a byte with the size of what stands in front, itself counted,
/// which is 1, or 3 where a byte 1 and a byte of flags follow. The lowest
/// bit of the flags says that the bytes of the content were put apart.
/// Gives whether they were, and where the frame starts; `None` for
/// anything else.
pub open spec fn frame_start(data: Seq<u8>) -> Option<(bool, int)> {
    if data.len() >= 1 && data[0] == 1 {
        Some((false, 1int))
    } else if data.len() >= 3 && data[0] == 3 && data[1] == 1 {
        Some((data[2] % 2 == 1, 3int))
    } else {
        None
    }
}

/// Puts a content together whose bytes were put apart.
pub fn put_bytes_together(content: &[u8]) -> (whole: Vec<u8>)
    ensures
        whole@ == put_together(content@),
{
    let size: usize = content.len();
    let half: usize = size / 2;
    let mut whole: Vec<u8> = Vec::new();
    let mut place: usize = 0;
    while place < size
        invariant
            place <= size,
            size == content@.len(),
            half == size / 2,
            whole@.len() == place,
            forall|i: int| 0 <= i < place ==> whole@[i] == put_together(content@)[i],
        decreases size - place,
    {
        let byte: u8 = if place % 2 == 0 {
            content[place / 2]
        } else {
            content[half + place / 2]
        };
        whole.push(byte);
        place = place + 1;
    }
    assert(whole@ =~= put_together(content@));
    whole
}

/// What stands in front of a frame: whether the bytes of the content were
/// put apart, and where the frame starts.
pub fn read_frame_start(data: &[u8]) -> (start: Option<(bool, usize)>)
    ensures
        match start {
            Some((apart, place)) => frame_start(data@) == Some((apart, place as int)) && place
                <= data@.len(),
            None => frame_start(data@) is None,
        },
{
    if data.len() >= 1 && data[0] == 1 {
        Some((false, 1))
    } else if data.len() >= 3 && data[0] == 3 && data[1] == 1 {
        Some((data[2] % 2 == 1, 3))
    } else {
        None
    }
}

/// What the blocks from `pos` on write behind `out`, up to the last block,
/// and the place behind the last block. A block holds its content as it
/// is, as one byte that is repeated, or compressed; `coder` is what is at
/// hand for a compressed block. `None` where a block cannot be read, or
/// where the bytes end before the last block does.
pub open spec fn blocks_from(bytes: Seq<u8>, pos: int, coder: CoderView, out: Seq<u8>) -> Option<
    (Seq<u8>, int),
>
    decreases bytes.len() - pos,
{
    let size = block_header(bytes, pos) / 8;
    let kind = (block_header(bytes, pos) / 2) % 4;
    if pos < 0 || pos + 3 > bytes.len() {
        None
    } else {
        let block: Option<(CoderView, Seq<u8>, int)> = if kind == 0 && pos + 3 + size
            <= bytes.len() {
            Some((coder, out + bytes.subrange(pos + 3, pos + 3 + size), pos + 3 + size))
        } else if kind == 1 && pos + 4 <= bytes.len() {
            Some((coder, out + Seq::new(size as nat, |i: int| bytes[pos + 3]), pos + 4))
        } else if kind == 2 && pos + 3 + size <= bytes.len() {
            match compressed_block(bytes.subrange(pos + 3, pos + 3 + size), coder, out) {
                None => None,
                Some((after, written)) => Some((after, written, pos + 3 + size)),
            }
        } else {
            None
        };
        match block {
            None => None,
            Some((after, written, next)) => if block_header(bytes, pos) % 2 == 1 {
                Some((written, next))
            } else if !(pos < next <= bytes.len()) {
                None
            } else {
                blocks_from(bytes, next, after, written)
            },
        }
    }
}

/// The content of the frame that the bytes are, or `None` where they are
/// no frame: the bytes are one frame from their first to their last, every
/// block of it can be read, and the content has the size that the header
/// states, if it states one. The checksum is not held against the
/// content, nor the size of a block against the size of the window.
pub open spec fn frame_content(bytes: Seq<u8>) -> Option<Seq<u8>> {
    match frame_header(bytes) {
        None => None,
        Some(header) => match blocks_from(bytes, header.size, first_coder(), Seq::empty()) {
            None => None,
            Some((content, end)) => if end + (if header.has_checksum {
                4int
            } else {
                0int
            }) == bytes.len() && (header.content_size is None || header.content_size == Some(
                content.len() as int,
            )) {
                Some(content)
            } else {
                None
            },
        },
    }
}

/// What blocks that store their content hold, and the place behind them.
pub open spec fn stored_part(bytes: Seq<u8>, pos: int) -> (Seq<u8>, int) {
    match blocks_content(bytes, pos) {
        Some(found) => found,
        None => (Seq::empty(), pos),
    }
}

/// Blocks that store their content write it, whatever is at hand.
pub proof fn lemma_stored_blocks_are_written(bytes: Seq<u8>, pos: int, coder: CoderView, out: Seq<u8>)
    requires
        blocks_content(bytes, pos) is Some,
    ensures
        blocks_from(bytes, pos, coder, out) == Some(
            (out + stored_part(bytes, pos).0, stored_part(bytes, pos).1),
        ),
    decreases bytes.len() - pos,
{
    let block = block_content(bytes, pos)->0;
    if block_header(bytes, pos) % 2 == 1 {
    } else {
        lemma_stored_blocks_are_written(bytes, block.1, coder, out + block.0);
        let rest = blocks_content(bytes, block.1)->0;
        assert((out + block.0) + rest.0 =~= out + (block.0 + rest.0));
    }
}

/// A frame that stores its content holds that content.
pub proof fn lemma_stored_content_is_frame_content(bytes: Seq<u8>)
    requires
        stored_content(bytes) is Some,
    ensures
        frame_content(bytes) == stored_content(bytes),
{
    let header = frame_header(bytes)->0;
    lemma_stored_blocks_are_written(bytes, header.size, first_coder(), Seq::empty());
    let content = stored_part(bytes, header.size).0;
    assert(Seq::<u8>::empty() + content =~= content);
}

/// Writes what the blocks from `pos` on write, and gives the place behind
/// the last block, or `None` where a block cannot be read.
fn read_frame_blocks(bytes: &[u8], pos: usize, out: &mut Vec<u8>) -> (end: Option<usize>)
    requires
        pos <= bytes@.len(),
        old(out)@.len() == 0,
    ensures
        match end {
            Some(place) => blocks_from(bytes@, pos as int, first_coder(), Seq::empty()) == Some(
                (final(out)@, place as int),
            ) && place <= bytes@.len(),
            None => blocks_from(bytes@, pos as int, first_coder(), Seq::empty()) is None,
        },
{
    let mut coder = Coder {
        huff: None,
        literals: None,
        offsets: None,
        matches: None,
        recent: Offsets { first: 1, second: 4, third: 8 },
    };
    let mut place: usize = pos;
    let ghost goal = blocks_from(bytes@, pos as int, first_coder(), Seq::empty());
    assert(out@ =~= Seq::<u8>::empty());
    loop
        invariant
            pos <= place <= bytes@.len(),
            coder.recent.is_plain(),
            goal == blocks_from(bytes@, pos as int, first_coder(), Seq::empty()),
            blocks_from(bytes@, place as int, coder@, out@) == goal,
        decreases bytes@.len() - place,
    {
        if bytes.len() - place < 3 {
            return None;
        }
        let header: usize = bytes[place] as usize + 256 * bytes[place + 1] as usize + 65536
            * bytes[place + 2] as usize;
        let size: usize = header / 8;
        let kind: usize = (header / 2) % 4;
        let last: bool = header % 2 == 1;
        let ghost so_far = out@;
        let next: usize;
        if kind == 0 && size <= bytes.len() - place - 3 {
            put_slice(out, slice_subrange(bytes, place + 3, place + 3 + size));
            next = place + 3 + size;
        } else if kind == 1 && bytes.len() - place >= 4 {
            let byte: u8 = bytes[place + 3];
            let mut count: usize = 0;
            assert(out@ =~= so_far + Seq::new(0, |i: int| byte));
            while count < size
                invariant
                    count <= size,
                    out@ == so_far + Seq::new(count as nat, |i: int| byte),
                decreases size - count,
            {
                out.push(byte);
                count = count + 1;
                assert(out@ =~= so_far + Seq::new(count as nat, |i: int| byte));
            }
            next = place + 4;
        } else if kind == 2 && size <= bytes.len() - place - 3 {
            if !read_compressed_block(
                slice_subrange(bytes, place + 3, place + 3 + size),
                &mut coder,
                out,
            ) {
                return None;
            }
            next = place + 3 + size;
        } else {
            return None;
        }
        if last {
            return Some(next);
        }
        if next <= place {
            return None;
        }
        place = next;
    }
}

/// The content of the frame that the bytes are, or `None` where they are
/// no frame.
pub fn read_frame(bytes: &[u8]) -> (content: Option<Vec<u8>>)
    ensures
        match content {
            Some(found) => frame_content(bytes@) == Some(found@),
            None => frame_content(bytes@) is None,
        },
{
    let header = match read_frame_header(bytes) {
        Some(found) => found,
        None => {
            return None;
        },
    };
    let mut content: Vec<u8> = Vec::new();
    let end = match read_frame_blocks(bytes, header.size, &mut content) {
        Some(found) => found,
        None => {
            return None;
        },
    };
    let closing: usize = if header.has_checksum {
        4
    } else {
        0
    };
    if bytes.len() - end != closing {
        return None;
    }
    match header.content_size {
        None => Some(content),
        Some(size) => if size == content.len() as u64 {
            Some(content)
        } else {
            None
        },
    }
}

/// A compressed block that holds up to 31 bytes as literals, and no
/// sequences: a byte with the number of literals in its upper five bits,
/// the literals, and a byte 0.
pub open spec fn literals_block(literals: Seq<u8>) -> Seq<u8> {
    seq![(8 * literals.len()) as u8] + literals + seq![0u8]
}

/// The frame whose one block is a compressed block of literals without
/// sequences: a single segment that states the size of its content in one
/// byte.
pub open spec fn literals_frame(literals: Seq<u8>) -> Seq<u8> {
    frame_mark() + seq![
        0x20u8,
        literals.len() as u8,
        ((8 * (literals.len() + 2) + 5) % 256) as u8,
        ((8 * (literals.len() + 2) + 5) / 256) as u8,
        0u8,
    ] + literals_block(literals)
}

/// A compressed block of literals without sequences writes its literals,
/// and leaves what is at hand as it is.
pub proof fn lemma_literals_block_is_written(literals: Seq<u8>, coder: CoderView, out: Seq<u8>)
    requires
        literals.len() <= 31,
    ensures
        compressed_block(literals_block(literals), coder, out) == Some((coder, out + literals)),
{
    let b = literals_block(literals);
    let n = literals.len() as int;
    assert(b.len() == n + 2);
    assert(b[0] == (8 * n) as u8);
    reveal_with_fuel(crate::literals::le_number, 2);
    assert(crate::literals::le_number(b, 1) == 8 * n);
    let header = crate::literals::literals_header(b)->0;
    assert(crate::literals::literals_header(b) is Some);
    assert(header.kind == 0 && header.size == 1 && header.regenerated == n);
    assert(b.subrange(1, 1 + n) =~= literals);
    assert(crate::literals::literals_of(b, coder.huff) == Some((literals, coder.huff, 1 + n)));
    let rest = b.subrange(1 + n, b.len() as int);
    assert(rest =~= seq![0u8]);
    assert(crate::sequences::sequence_count(rest) == Some((0int, 1int)));
    assert((CoderView { huff: coder.huff, ..coder }) == coder);
}

/// What the header of a frame of literals says.
proof fn lemma_literals_frame_header(literals: Seq<u8>)
    requires
        literals.len() <= 31,
    ensures
        literals_frame(literals).len() == literals.len() + 11,
        frame_header(literals_frame(literals)) == Some(
            FrameHeader {
                size: 6,
                content_size: Some(literals.len() as int),
                has_checksum: false,
            },
        ),
        block_header(literals_frame(literals), 6) == 8 * (literals.len() + 2) + 5,
        literals_frame(literals).subrange(9, (literals.len() + 11) as int) == literals_block(literals),
{
    let n = literals.len() as int;
    let bytes = literals_frame(literals);
    assert(bytes.subrange(0, 4) =~= frame_mark());
    assert(bytes[4] == 0x20u8);
    assert(bytes[5] == n as u8);
    assert(bytes[6] == ((8 * (n + 2) + 5) % 256) as u8);
    assert(bytes[7] == ((8 * (n + 2) + 5) / 256) as u8);
    assert(bytes[8] == 0u8);
    assert(bytes.subrange(9, n + 11) =~= literals_block(literals));
}

/// The frame of a compressed block of literals holds the literals.
pub proof fn lemma_literals_frame_is_read(literals: Seq<u8>)
    requires
        literals.len() <= 31,
    ensures
        frame_content(literals_frame(literals)) == Some(literals),
{
    let n = literals.len() as int;
    let bytes = literals_frame(literals);
    lemma_literals_frame_header(literals);
    lemma_literals_block_is_written(literals, first_coder(), Seq::empty());
    assert(Seq::<u8>::empty() + literals =~= literals);
    assert(compressed_block(bytes.subrange(9, n + 11), first_coder(), Seq::empty()) == Some(
        (first_coder(), literals),
    ));
    assert(blocks_from(bytes, 6, first_coder(), Seq::empty()) == Some((literals, n + 11)));
}

} // verus!
