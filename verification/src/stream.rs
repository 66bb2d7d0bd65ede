//! Streams: the bytes of a container, held in memory, and what a caller
//! hands over to have a stream of its own served.

use crate::error::{CziError, LibCZIApiError};
use crate::text::{is_utf8_text_of, text_from_utf8};
use vstd::prelude::*;

verus! {

/// A block of memory that the engine hands to its caller.
#[derive(Debug)]
pub struct MemoryAllocation {
    pub data: Vec<u8>,
}

/// A source of bytes that can be read at any offset.
#[derive(Debug)]
pub struct InputStream {
    data: Vec<u8>,
}

/// A sink of bytes that can be written at any offset.
#[derive(Debug)]
pub struct OutputStream {
    data: Vec<u8>,
}

/// A kind of input stream that can be made by its name.
#[derive(Debug)]
pub struct InputStreamClassInfo {
    /// The name of the kind, as UTF-8.
    pub name: Vec<u8>,
    /// A description of the kind, as UTF-8.
    pub description: Vec<u8>,
}

/// What a stream of the caller's own says of an error.
#[derive(Debug)]
pub struct ExternalStreamErrorInfo {
    pub error_code: i32,
    /// The message, as the bytes of a text.
    pub error_message: MemoryAllocation,
}

/// The two tokens that are handed back to the caller with every read of a
/// stream of its own.
#[derive(Clone, Copy, Debug, PartialEq, Eq, Structural)]
pub struct ExternalInputStreamStruct {
    pub opaque_handle1: u64,
    pub opaque_handle2: u64,
}

/// The two tokens that are handed back to the caller with every write to a
/// stream of its own.
#[derive(Clone, Copy, Debug, PartialEq, Eq, Structural)]
pub struct ExternalOutputStreamStruct {
    pub opaque_handle1: u64,
    pub opaque_handle2: u64,
}

/// What a reader needs to open a document: the stream to read from.
#[derive(Debug)]
pub struct ReaderOpenInfo {
    pub stream: InputStream,
}

impl Clone for MemoryAllocation {
    fn clone(&self) -> (copy: Self)
        ensures
            copy.data@ == self.data@,
    {
        MemoryAllocation { data: self.data.clone() }
    }
}

/// A block of memory of the given size, filled with zero bytes. The call
/// always succeeds.
pub fn allocate_memory(size: usize) -> (allocation: Result<MemoryAllocation, LibCZIApiError>)
    ensures
        allocation matches Ok(block) && block.data@ == Seq::new(size as nat, |i: int| 0u8),
{
    let mut data: Vec<u8> = Vec::new();
    let mut done: usize = 0;
    while done < size
        invariant
            done <= size,
            data@ == Seq::new(done as nat, |i: int| 0u8),
        decreases size - done,
    {
        data.push(0u8);
        done = done + 1;
        assert(data@ =~= Seq::new(done as nat, |i: int| 0u8));
    }
    Ok(MemoryAllocation { data })
}

/// Gives a block of memory back.
pub fn free(data: MemoryAllocation) {
}

impl View for InputStream {
    type V = Seq<u8>;

    closed spec fn view(&self) -> Seq<u8> {
        self.data@
    }
}

impl Clone for InputStream {
    fn clone(&self) -> (copy: Self)
        ensures
            copy@ == self@,
    {
        InputStream { data: self.data.clone() }
    }
}

/// What a read of `length` bytes at `offset` gives: the bytes of the stream
/// from `offset` on, as many as there are, but no more than `length`.
pub open spec fn read_spec(content: Seq<u8>, offset: int, length: int) -> Seq<u8> {
    if offset < 0 || length <= 0 || offset >= content.len() {
        Seq::empty()
    } else if offset + length <= content.len() {
        content.subrange(offset, offset + length)
    } else {
        content.subrange(offset, content.len() as int)
    }
}

impl InputStream {
    /// A stream over the given bytes.
    pub fn from_bytes(data: Vec<u8>) -> (stream: Self)
        ensures
            stream@ == data@,
    {
        InputStream { data }
    }

    /// How many bytes the stream has.
    pub fn size(&self) -> (size: usize)
        ensures
            size == self@.len(),
    {
        self.data.len()
    }

    /// The bytes of the stream.
    pub fn bytes(&self) -> (bytes: &[u8])
        ensures
            bytes@ == self@,
    {
        self.data.as_slice()
    }

    /// Gives the stream up. The call always succeeds.
    pub fn release(self) -> (done: Result<(), LibCZIApiError>)
        ensures
            done is Ok,
    {
        Ok(())
    }

    /// Reads up to `length` bytes at `offset`. Fewer bytes come back where
    /// the stream ends before `offset + length`, none where it ends at or
    /// before `offset`.
    pub fn read(&self, offset: u64, length: u64) -> (bytes: Vec<u8>)
        ensures
            bytes@ == read_spec(self@, offset as int, length as int),
    {
        let size: usize = self.data.len();
        if length == 0 || offset >= size as u64 {
            return Vec::new();
        }
        let start: usize = offset as usize;
        let rest: usize = size - start;
        let end: usize = if length <= rest as u64 {
            start + length as usize
        } else {
            size
        };
        let part = vstd::slice::slice_subrange(self.data.as_slice(), start, end);
        vstd::slice::slice_to_vec(part)
    }
}

impl View for OutputStream {
    type V = Seq<u8>;

    closed spec fn view(&self) -> Seq<u8> {
        self.data@
    }
}

impl Clone for OutputStream {
    fn clone(&self) -> (copy: Self)
        ensures
            copy@ == self@,
    {
        OutputStream { data: self.data.clone() }
    }
}

/// What a stream holds after `bytes` were written at `offset`: the bytes
/// stand at `offset`, what was there before is replaced, what lies elsewhere
/// stays, and a gap between the former end and `offset` is filled with zero
/// bytes.
pub open spec fn write_spec(content: Seq<u8>, offset: int, bytes: Seq<u8>) -> Seq<u8> {
    Seq::new(
        if content.len() > offset + bytes.len() {
            content.len()
        } else {
            (offset + bytes.len()) as nat
        },
        |i: int|
            if offset <= i < offset + bytes.len() {
                bytes[i - offset]
            } else if i < content.len() {
                content[i]
            } else {
                0u8
            },
    )
}

/// Writing at the end of a stream adds the bytes to it.
pub proof fn lemma_write_at_end(content: Seq<u8>, bytes: Seq<u8>)
    ensures
        write_spec(content, content.len() as int, bytes) == content + bytes,
{
    assert(write_spec(content, content.len() as int, bytes) =~= content + bytes);
}

impl OutputStream {
    /// Writes `bytes` at `offset`. Fails with `OutOfMemory`, and changes
    /// nothing, if and only if the end of the written bytes would lie
    /// farther than memory can reach.
    pub fn write(&mut self, offset: u64, bytes: &[u8]) -> (done: Result<(), LibCZIApiError>)
        ensures
            match done {
                Ok(_) => offset + bytes@.len() <= usize::MAX && final(self)@ == write_spec(
                    old(self)@,
                    offset as int,
                    bytes@,
                ),
                Err(e) => e == LibCZIApiError::OutOfMemory && offset + bytes@.len() > usize::MAX
                    && final(self)@ == old(self)@,
            },
    {
        let count: usize = bytes.len();
        if offset > usize::MAX as u64 || count > usize::MAX - offset as usize {
            return Err(LibCZIApiError::OutOfMemory);
        }
        let start: usize = offset as usize;
        let ghost before = self.data@;
        while self.data.len() < start
            invariant
                self.data@.len() <= start || self.data@ == before,
                before.len() <= self.data@.len(),
                forall|i: int| 0 <= i < before.len() ==> self.data@[i] == before[i],
                forall|i: int| before.len() <= i < self.data@.len() ==> self.data@[i] == 0,
            decreases start - self.data@.len(),
        {
            self.data.push(0u8);
        }
        let ghost padded = self.data@;
        let mut done: usize = 0;
        while done < count
            invariant
                done <= count,
                count == bytes@.len(),
                start + count <= usize::MAX,
                start <= padded.len(),
                padded.len() <= self.data@.len(),
                self.data@.len() == if padded.len() > start + done {
                    padded.len()
                } else {
                    (start + done) as nat
                },
                forall|i: int| 0 <= i < start ==> self.data@[i] == padded[i],
                forall|i: int| start <= i < start + done ==> self.data@[i] == bytes@[i - start],
                forall|i: int| start + done <= i < padded.len() ==> self.data@[i] == padded[i],
            decreases count - done,
        {
            if start + done < self.data.len() {
                self.data[start + done] = bytes[done];
            } else {
                self.data.push(bytes[done]);
            }
            done = done + 1;
        }
        proof {
            let after = write_spec(before, offset as int, bytes@);
            assert(padded.len() == if before.len() > start {
                before.len()
            } else {
                start as nat
            });
            assert(self.data@.len() == after.len());
            assert forall|i: int| 0 <= i < after.len() implies self.data@[i] == after[i] by {
                if i < start {
                    assert(self.data@[i] == padded[i]);
                } else if i < start + count {
                    assert(self.data@[i] == bytes@[i - start]);
                } else {
                    assert(self.data@[i] == padded[i]);
                }
            }
            assert(self.data@ =~= after);
        }
        Ok(())
    }

    /// An empty stream.
    pub fn new() -> (stream: Self)
        ensures
            stream@ == Seq::<u8>::empty(),
    {
        OutputStream { data: Vec::new() }
    }

    /// How many bytes were written so far.
    pub fn size(&self) -> (size: usize)
        ensures
            size == self@.len(),
    {
        self.data.len()
    }

    /// The bytes that were written so far.
    pub fn bytes(&self) -> (bytes: &[u8])
        ensures
            bytes@ == self@,
    {
        self.data.as_slice()
    }

    /// Gives the stream up. The call always succeeds.
    pub fn release(self) -> (done: Result<(), LibCZIApiError>)
        ensures
            done is Ok,
    {
        Ok(())
    }

    /// Hands the written bytes over.
    pub fn into_bytes(self) -> (bytes: Vec<u8>)
        ensures
            bytes@ == self@,
    {
        self.data
    }
}

impl Clone for InputStreamClassInfo {
    fn clone(&self) -> (copy: Self)
        ensures
            copy.name@ == self.name@,
            copy.description@ == self.description@,
    {
        InputStreamClassInfo { name: self.name.clone(), description: self.description.clone() }
    }
}

impl InputStreamClassInfo {
    /// The name of the kind, or `InvalidUtf8` where the bytes are no text.
    pub fn get_name(&self) -> (text: Result<&str, CziError>)
        ensures
            is_utf8_text_of(text, self.name@),
    {
        text_from_utf8(self.name.as_slice())
    }

    /// The description of the kind, or `InvalidUtf8` where the bytes are no
    /// text.
    pub fn get_description(&self) -> (text: Result<&str, CziError>)
        ensures
            is_utf8_text_of(text, self.description@),
    {
        text_from_utf8(self.description.as_slice())
    }
}

impl Clone for ExternalStreamErrorInfo {
    fn clone(&self) -> (copy: Self)
        ensures
            copy.error_code == self.error_code,
            copy.error_message.data@ == self.error_message.data@,
    {
        ExternalStreamErrorInfo {
            error_code: self.error_code,
            error_message: self.error_message.clone(),
        }
    }
}

impl ExternalStreamErrorInfo {
    pub fn get_error_code(&self) -> (error_code: i32)
        ensures
            error_code == self.error_code,
    {
        self.error_code
    }

    /// A copy of the message.
    pub fn get_error_message(&self) -> (error_message: MemoryAllocation)
        ensures
            error_message.data@ == self.error_message.data@,
    {
        self.error_message.clone()
    }
}

impl ExternalInputStreamStruct {
    pub fn get_opaque_handle1(&self) -> (opaque_handle1: u64)
        ensures
            opaque_handle1 == self.opaque_handle1,
    {
        self.opaque_handle1
    }

    pub fn get_opaque_handle2(&self) -> (opaque_handle2: u64)
        ensures
            opaque_handle2 == self.opaque_handle2,
    {
        self.opaque_handle2
    }

    pub fn set_opaque_handle1(&mut self, opaque_handle1: u64)
        ensures
            *final(self) == (ExternalInputStreamStruct { opaque_handle1, ..*old(self) }),
    {
        self.opaque_handle1 = opaque_handle1;
    }

    pub fn set_opaque_handle2(&mut self, opaque_handle2: u64)
        ensures
            *final(self) == (ExternalInputStreamStruct { opaque_handle2, ..*old(self) }),
    {
        self.opaque_handle2 = opaque_handle2;
    }
}

impl ExternalOutputStreamStruct {
    pub fn get_opaque_handle1(&self) -> (opaque_handle1: u64)
        ensures
            opaque_handle1 == self.opaque_handle1,
    {
        self.opaque_handle1
    }

    pub fn get_opaque_handle2(&self) -> (opaque_handle2: u64)
        ensures
            opaque_handle2 == self.opaque_handle2,
    {
        self.opaque_handle2
    }

    pub fn set_opaque_handle1(&mut self, opaque_handle1: u64)
        ensures
            *final(self) == (ExternalOutputStreamStruct { opaque_handle1, ..*old(self) }),
    {
        self.opaque_handle1 = opaque_handle1;
    }

    pub fn set_opaque_handle2(&mut self, opaque_handle2: u64)
        ensures
            *final(self) == (ExternalOutputStreamStruct { opaque_handle2, ..*old(self) }),
    {
        self.opaque_handle2 = opaque_handle2;
    }
}

impl Clone for ReaderOpenInfo {
    fn clone(&self) -> (copy: Self)
        ensures
            copy.stream@ == self.stream@,
    {
        ReaderOpenInfo { stream: self.stream.clone() }
    }
}

impl ReaderOpenInfo {
    /// What a reader needs to open the document in `stream`. The stream's
    /// bytes are shared by copy.
    pub fn new(stream: &InputStream) -> (info: Self)
        ensures
            info.stream@ == stream@,
    {
        ReaderOpenInfo { stream: stream.clone() }
    }

    /// A copy of the stream to read from.
    pub fn get_stream(&self) -> (stream: InputStream)
        ensures
            stream@ == self.stream@,
    {
        self.stream.clone()
    }
}

} // verus!
