//! Bitmaps: decoded pixel buffers, and the lock that guards them.

use crate::error::{CziError, LibCZIApiError};
use crate::pixel::{lemma_pixel_type_code_round_trip, PixelType};
use vstd::prelude::*;

verus! {

/// The width, the height and the pixel type of a bitmap. The pixel type is
/// kept as its number, which is checked when it is read.
#[derive(Clone, Copy, Debug, PartialEq, Eq, Structural)]
pub struct BitmapInfo {
    pub width: u32,
    pub height: u32,
    pub pixel_type: i32,
}

/// What a lock on a bitmap hands out: the pixel data and how it is laid out.
#[derive(Debug)]
pub struct BitmapLockInfo {
    /// How many bytes lie between the starts of two rows.
    pub stride: u32,
    /// How many bytes the pixel data has.
    pub size: u64,
    /// The pixel data, row by row.
    pub data: Vec<u8>,
}

impl BitmapInfo {
    pub fn new(width: u32, height: u32, pixel_type: PixelType) -> (info: Self)
        ensures
            info == (BitmapInfo { width, height, pixel_type: pixel_type.code_spec() as i32 }),
    {
        BitmapInfo { width, height, pixel_type: pixel_type.code() }
    }

    /// What the stored number says of the pixel type: the pixel type it
    /// stands for, or `UnknownPixelType` with the number.
    pub open spec fn pixel_type_spec(self) -> Result<PixelType, CziError> {
        match PixelType::of_code(self.pixel_type as int) {
            Some(found) => Ok(found),
            None => Err(CziError::UnknownPixelType(self.pixel_type)),
        }
    }

    pub fn get_width(&self) -> (width: u32)
        ensures
            width == self.width,
    {
        self.width
    }

    pub fn get_height(&self) -> (height: u32)
        ensures
            height == self.height,
    {
        self.height
    }

    /// The pixel type, or `UnknownPixelType` where the stored number stands
    /// for none.
    pub fn get_pixel_type(&self) -> (pixel_type: Result<PixelType, CziError>)
        ensures
            pixel_type == self.pixel_type_spec(),
    {
        PixelType::try_from(self.pixel_type)
    }

    pub fn set_width(&mut self, width: u32)
        ensures
            *final(self) == (BitmapInfo { width, ..*old(self) }),
    {
        self.width = width;
    }

    pub fn set_height(&mut self, height: u32)
        ensures
            *final(self) == (BitmapInfo { height, ..*old(self) }),
    {
        self.height = height;
    }

    pub fn set_pixel_type(&mut self, pixel_type: PixelType)
        ensures
            *final(self) == (BitmapInfo { pixel_type: pixel_type.code_spec() as i32, ..*old(self) }),
    {
        self.pixel_type = pixel_type.code();
    }
}

impl Clone for BitmapLockInfo {
    fn clone(&self) -> (copy: Self)
        ensures
            copy.stride == self.stride,
            copy.size == self.size,
            copy.data@ == self.data@,
    {
        BitmapLockInfo { stride: self.stride, size: self.size, data: self.data.clone() }
    }
}

impl BitmapLockInfo {
    /// The pixel data.
    pub fn get_data_roi(&self) -> (data: Vec<u8>)
        ensures
            data@ == self.data@,
    {
        self.data.clone()
    }

    pub fn get_stride(&self) -> (stride: u32)
        ensures
            stride == self.stride,
    {
        self.stride
    }

    pub fn get_size(&self) -> (size: u64)
        ensures
            size == self.size,
    {
        self.size
    }
}

/// What unlocking does to the number of locks that are held: it takes one
/// away, and fails with `LockUnlockSemanticViolated` where none is held.
pub open spec fn unlock_step(locks: nat) -> Result<nat, LibCZIApiError> {
    if locks == 0 {
        Err(LibCZIApiError::LockUnlockSemanticViolated)
    } else {
        Ok((locks - 1) as nat)
    }
}

/// What releasing a bitmap gives with this number of locks held: it fails
/// with `LockUnlockSemanticViolated` while a lock is held.
pub open spec fn release_step(locks: nat) -> Result<(), LibCZIApiError> {
    if locks > 0 {
        Err(LibCZIApiError::LockUnlockSemanticViolated)
    } else {
        Ok(())
    }
}

/// A call on the lock of a bitmap.
pub enum LockCall {
    Lock,
    Unlock,
}

/// The number of locks held after a run of calls, starting with `locks`, or
/// the error of the first call that failed.
pub open spec fn locks_after(locks: nat, calls: Seq<LockCall>) -> Result<nat, LibCZIApiError>
    decreases calls.len(),
{
    if calls.len() == 0 {
        Ok(locks)
    } else {
        match locks_after(locks, calls.drop_last()) {
            Err(e) => Err(e),
            Ok(held) => match calls.last() {
                LockCall::Lock => Ok(held + 1),
                LockCall::Unlock => unlock_step(held),
            },
        }
    }
}

/// How many of the calls are of the given kind.
pub open spec fn count_calls(calls: Seq<LockCall>, lock: bool) -> int
    decreases calls.len(),
{
    if calls.len() == 0 {
        0
    } else {
        count_calls(calls.drop_last(), lock) + if (calls.last() is Lock) == lock {
            1int
        } else {
            0int
        }
    }
}

/// Lock and unlock calls must balance. A run of calls on a bitmap that was
/// never locked fails exactly when at some point more unlocks than locks
/// have been made, and then with `LockUnlockSemanticViolated`. After a run
/// that did not fail, the locks held are the locks made less the unlocks
/// made, and the bitmap can be released exactly when they are equal.
pub proof fn lemma_lock_balance(calls: Seq<LockCall>)
    ensures
        match locks_after(0, calls) {
            Ok(held) => {
                &&& held == count_calls(calls, true) - count_calls(calls, false)
                &&& forall|n: int|
                    0 <= n <= calls.len() ==> count_calls(#[trigger] calls.take(n), false)
                        <= count_calls(calls.take(n), true)
                &&& release_step(held) is Ok <==> count_calls(calls, true) == count_calls(
                    calls,
                    false,
                )
            },
            Err(e) => {
                &&& e == LibCZIApiError::LockUnlockSemanticViolated
                &&& exists|n: int|
                    0 <= n <= calls.len() && count_calls(#[trigger] calls.take(n), false)
                        > count_calls(calls.take(n), true)
            },
        },
    decreases calls.len(),
{
    if calls.len() == 0 {
        assert forall|n: int| 0 <= n <= calls.len() implies count_calls(
            #[trigger] calls.take(n),
            false,
        ) <= count_calls(calls.take(n), true) by {
            assert(calls.take(n) == calls);
        }
    } else {
        let front = calls.drop_last();
        lemma_lock_balance(front);
        assert(calls.take(calls.len() as int) == calls);
        assert forall|n: int| 0 <= n < calls.len() implies #[trigger] calls.take(n) == front.take(n) by {
            assert(calls.take(n) =~= front.take(n));
        }
        match locks_after(0, front) {
            Ok(held) => {
                match locks_after(0, calls) {
                    Ok(now) => {
                        assert forall|n: int| 0 <= n <= calls.len() implies count_calls(
                            #[trigger] calls.take(n),
                            false,
                        ) <= count_calls(calls.take(n), true) by {
                            if n < calls.len() {
                                assert(calls.take(n) == front.take(n));
                            }
                        }
                    },
                    Err(e) => {
                        assert(count_calls(calls.take(calls.len() as int), false) > count_calls(
                            calls.take(calls.len() as int),
                            true,
                        ));
                    },
                }
            },
            Err(e) => {
                let n = choose|n: int|
                    0 <= n <= front.len() && count_calls(#[trigger] front.take(n), false)
                        > count_calls(front.take(n), true);
                assert(calls.take(n) =~= front.take(n));
            },
        }
    }
}

/// Unlocking a bitmap that was never locked fails, and so does releasing a
/// bitmap that was locked twice and unlocked once.
pub proof fn lemma_unbalanced_calls_fail()
    ensures
        unlock_step(0) == Err::<nat, LibCZIApiError>(LibCZIApiError::LockUnlockSemanticViolated),
        locks_after(0, seq![LockCall::Lock, LockCall::Lock, LockCall::Unlock]) == Ok::<
            nat,
            LibCZIApiError,
        >(1),
        release_step(1) == Err::<(), LibCZIApiError>(LibCZIApiError::LockUnlockSemanticViolated),
{
    let calls = seq![LockCall::Lock, LockCall::Lock, LockCall::Unlock];
    let two = seq![LockCall::Lock, LockCall::Lock];
    let one = seq![LockCall::Lock];
    assert(calls.drop_last() == two);
    assert(two.drop_last() == one);
    assert(one.drop_last() == Seq::<LockCall>::empty());
    assert(locks_after(0, one.drop_last()) == Ok::<nat, LibCZIApiError>(0));
    assert(locks_after(0, one) == Ok::<nat, LibCZIApiError>(1));
    assert(locks_after(0, two) == Ok::<nat, LibCZIApiError>(2));
}

/// How many bytes the pixels of one row take, or 0 where the pixel type is
/// not known.
pub open spec fn row_bytes(info: BitmapInfo) -> int {
    match PixelType::of_code(info.pixel_type as int) {
        Some(pixel_type) => info.width * pixel_type.bytes_per_pixel_spec(),
        None => 0,
    }
}

/// Whether a buffer of `size` bytes can hold a bitmap like `info` with rows
/// that start `stride` bytes apart: the pixel type is known, a row fits
/// into the stride, and the buffer holds exactly `height` rows.
pub open spec fn layout_is_valid(info: BitmapInfo, stride: u32, size: int) -> bool {
    &&& PixelType::of_code(info.pixel_type as int) is Some
    &&& row_bytes(info) <= stride
    &&& size == stride * info.height
}

/// The pixels of row `row`, without the padding behind them.
pub open spec fn row_of(pixels: Seq<u8>, stride: int, row_bytes: int, row: int) -> Seq<u8> {
    pixels.subrange(stride * row, stride * row + row_bytes)
}

/// The first `rows` rows laid out anew with rows `stride` bytes apart, and
/// zero bytes as padding.
pub open spec fn restride(
    pixels: Seq<u8>,
    old_stride: int,
    stride: int,
    row_bytes: int,
    rows: nat,
) -> Seq<u8>
    decreases rows,
{
    if rows == 0 {
        Seq::empty()
    } else {
        restride(pixels, old_stride, stride, row_bytes, (rows - 1) as nat) + row_of(
            pixels,
            old_stride,
            row_bytes,
            rows - 1,
        ) + Seq::new((stride - row_bytes) as nat, |i: int| 0u8)
    }
}

/// What copying a bitmap into a buffer of the given form gives: the new
/// pixel buffer, `InvalidArgument` where the form is not that of the bitmap
/// or the stride is too small for a row, and `OutOfMemory` where the buffer
/// would be larger than memory can be.
pub open spec fn copy_spec(
    info: BitmapInfo,
    old_stride: u32,
    pixels: Seq<u8>,
    width: u32,
    height: u32,
    pixel_type: PixelType,
    stride: u32,
) -> Result<Seq<u8>, LibCZIApiError> {
    if width != info.width || height != info.height || pixel_type.code_spec() != info.pixel_type
        || stride < row_bytes(info) {
        Err(LibCZIApiError::InvalidArgument)
    } else if stride * height > usize::MAX {
        Err(LibCZIApiError::OutOfMemory)
    } else {
        Ok(restride(pixels, old_stride as int, stride as int, row_bytes(info), height as nat))
    }
}

/// The first `rows` rows of a pixel buffer, laid out anew with rows
/// `stride` bytes apart and zero bytes as padding.
pub fn restride_rows(pixels: &[u8], old_stride: usize, stride: usize, row: usize, rows: usize) -> (out:
    Vec<u8>)
    requires
        row <= old_stride,
        row <= stride,
        old_stride * rows == pixels@.len(),
        stride * rows <= usize::MAX,
    ensures
        out@ == restride(pixels@, old_stride as int, stride as int, row as int, rows as nat),
        out@.len() == stride * rows,
{
    let mut out: Vec<u8> = Vec::new();
    let mut done: usize = 0;
    let mut start: usize = 0;
    let size: usize = pixels.len();
    assert(old_stride * 0 == 0 && stride * 0 == 0) by (nonlinear_arith);
    while done < rows
        invariant
            done <= rows,
            size == pixels@.len(),
            row <= old_stride,
            row <= stride,
            old_stride * rows == pixels@.len(),
            stride * rows <= usize::MAX,
            start == old_stride * done,
            out@.len() == stride * done,
            out@ == restride(pixels@, old_stride as int, stride as int, row as int, done as nat),
        decreases rows - done,
    {
        assert(old_stride * (done + 1) <= old_stride * rows && old_stride * (done + 1) == old_stride
            * done + old_stride && stride * (done + 1) <= stride * rows && stride * (done + 1)
            == stride * done + stride) by (nonlinear_arith)
            requires
                done + 1 <= rows,
                old_stride >= 0,
                stride >= 0,
        ;
        let ghost before = out@;
        let part = vstd::slice::slice_subrange(pixels, start, start + row);
        out.extend_from_slice(part);
        assert(out@ =~= before + row_of(pixels@, old_stride as int, row as int, done as int));
        let mut padded: usize = row;
        while padded < stride
            invariant
                row <= padded <= stride,
                out@.len() == stride * done + padded,
                stride * done + stride <= usize::MAX,
                out@ == before + row_of(pixels@, old_stride as int, row as int, done as int)
                    + Seq::new((padded - row) as nat, |i: int| 0u8),
            decreases stride - padded,
        {
            out.push(0u8);
            padded = padded + 1;
            assert(out@ == before + row_of(pixels@, old_stride as int, row as int, done as int)
                + Seq::new((padded - row) as nat, |i: int| 0u8));
        }
        start = start + old_stride;
        done = done + 1;
    }
    out
}

/// Rows that are laid out anew take `stride` bytes each.
pub proof fn lemma_restride_len(
    pixels: Seq<u8>,
    old_stride: int,
    stride: int,
    row_bytes: int,
    rows: nat,
)
    requires
        0 <= row_bytes <= stride,
        row_bytes <= old_stride,
        old_stride * rows <= pixels.len(),
    ensures
        restride(pixels, old_stride, stride, row_bytes, rows).len() == stride * rows,
    decreases rows,
{
    if rows == 0 {
        assert(stride * 0 == 0) by (nonlinear_arith);
    } else {
        assert(old_stride * (rows - 1) + old_stride == old_stride * rows && stride * (rows - 1)
            + stride == stride * rows && old_stride * (rows - 1) >= 0) by (nonlinear_arith)
            requires
                rows >= 1,
                old_stride >= 0,
        ;
        lemma_restride_len(pixels, old_stride, stride, row_bytes, (rows - 1) as nat);
    }
}

/// Rows that follow each other without padding stay as they are when they
/// are laid out anew without padding.
pub proof fn lemma_restride_without_padding(pixels: Seq<u8>, row: int, rows: nat)
    requires
        0 <= row,
        pixels.len() == row * rows,
    ensures
        restride(pixels, row, row, row, rows) == pixels,
{
    lemma_restride_prefix(pixels, row, rows, rows);
    assert(pixels.subrange(0, row * rows) == pixels);
}

/// The first rows of rows without padding are the first bytes of the buffer.
proof fn lemma_restride_prefix(pixels: Seq<u8>, row: int, rows: nat, count: nat)
    requires
        0 <= row,
        pixels.len() == row * rows,
        count <= rows,
    ensures
        row * count <= pixels.len(),
        restride(pixels, row, row, row, count) == pixels.subrange(0, row * count),
    decreases count,
{
    if count == 0 {
        assert(row * 0 == 0) by (nonlinear_arith);
        assert(pixels.subrange(0, 0) =~= Seq::<u8>::empty());
    } else {
        lemma_restride_prefix(pixels, row, rows, (count - 1) as nat);
        assert(row * count == row * (count - 1) + row && row * count <= row * rows)
            by (nonlinear_arith)
            requires
                1 <= count <= rows,
                0 <= row,
        ;
        assert(restride(pixels, row, row, row, count) =~= pixels.subrange(0, row * count));
    }
}

/// A decoded pixel buffer with its width, height and pixel type.
///
/// The buffer is guarded by a lock. Lock and unlock calls are counted and
/// must balance; a bitmap can be released only while no lock is held.
#[derive(Debug)]
pub struct Bitmap {
    info: BitmapInfo,
    stride: u32,
    data: Vec<u8>,
    locks: u32,
}

/// A bitmap with a lock held on it, so that its pixels can be read.
#[derive(Debug)]
pub struct LockedBitmap {
    bitmap: Bitmap,
    pub lock_info: BitmapLockInfo,
}

impl Bitmap {
    pub closed spec fn info_spec(&self) -> BitmapInfo {
        self.info
    }

    /// How many bytes lie between the starts of two rows.
    pub closed spec fn stride_spec(&self) -> u32 {
        self.stride
    }

    /// The pixel buffer, row by row.
    pub closed spec fn pixels(&self) -> Seq<u8> {
        self.data@
    }

    /// How many locks are held.
    pub closed spec fn locks_spec(&self) -> nat {
        self.locks as nat
    }

    /// The buffer has the size that the width, height, pixel type and stride
    /// ask for.
    pub closed spec fn wf(&self) -> bool {
        layout_is_valid(self.info, self.stride, self.data@.len() as int)
    }

    /// The layout of a well-formed bitmap is valid.
    pub proof fn lemma_wf(&self)
        requires
            self.wf(),
        ensures
            layout_is_valid(self.info_spec(), self.stride_spec(), self.pixels().len() as int),
    {
    }

    /// A bitmap over the given buffer, with no lock held. Fails with
    /// `InvalidArgument` if and only if the buffer does not have the size
    /// that the other arguments ask for, or the stride is too small for a row.
    pub fn create(width: u32, height: u32, pixel_type: PixelType, stride: u32, data: Vec<u8>) -> (bitmap:
        Result<Bitmap, LibCZIApiError>)
        ensures
            bitmap is Ok <==> layout_is_valid(
                BitmapInfo { width, height, pixel_type: pixel_type.code_spec() as i32 },
                stride,
                data@.len() as int,
            ),
            match bitmap {
                Ok(made) => {
                    &&& made.wf()
                    &&& made.info_spec() == (BitmapInfo {
                        width,
                        height,
                        pixel_type: pixel_type.code_spec() as i32,
                    })
                    &&& made.stride_spec() == stride
                    &&& made.pixels() == data@
                    &&& made.locks_spec() == 0
                },
                Err(e) => e == LibCZIApiError::InvalidArgument,
            },
    {
        let info = BitmapInfo::new(width, height, pixel_type);
        let per_pixel: u64 = pixel_type.bytes_per_pixel() as u64;
        assert(width as u64 * per_pixel <= 0xffff_ffff * 24) by (nonlinear_arith)
            requires
                width <= 0xffff_ffff,
                per_pixel <= 24,
        ;
        assert(stride as u64 * height as u64 <= 0xffff_ffff * 0xffff_ffff) by (nonlinear_arith)
            requires
                stride <= 0xffff_ffff,
                height <= 0xffff_ffff,
        ;
        let row: u64 = width as u64 * per_pixel;
        let size: u64 = stride as u64 * height as u64;
        if row > stride as u64 || size != data.len() as u64 {
            return Err(LibCZIApiError::InvalidArgument);
        }
        Ok(Bitmap { info, stride, data, locks: 0 })
    }

    /// The width, the height and the pixel type. The call always succeeds.
    pub fn get_info(&self) -> (info: Result<BitmapInfo, LibCZIApiError>)
        ensures
            info == Ok::<BitmapInfo, LibCZIApiError>(self.info_spec()),
    {
        Ok(self.info)
    }

    /// How many bytes lie between the starts of two rows.
    pub fn get_stride(&self) -> (stride: u32)
        ensures
            stride == self.stride_spec(),
    {
        self.stride
    }

    /// The pixel buffer, for the engine's own reading.
    pub(crate) fn data(&self) -> (pixels: &[u8])
        ensures
            pixels@ == self.pixels(),
    {
        self.data.as_slice()
    }

    /// How many locks are held.
    pub fn lock_count(&self) -> (locks: u32)
        ensures
            locks == self.locks_spec(),
    {
        self.locks
    }

    /// Takes one more lock and hands out the pixels. Fails with
    /// `UnspecifiedError`, and changes nothing, if and only if the count of
    /// locks is at its limit.
    pub fn lock_raw(&mut self) -> (lock: Result<BitmapLockInfo, LibCZIApiError>)
        ensures
            final(self).wf() == old(self).wf(),
            final(self).info_spec() == old(self).info_spec(),
            final(self).stride_spec() == old(self).stride_spec(),
            final(self).pixels() == old(self).pixels(),
            match lock {
                Ok(info) => {
                    &&& old(self).locks_spec() < u32::MAX
                    &&& final(self).locks_spec() == old(self).locks_spec() + 1
                    &&& info.stride == old(self).stride_spec()
                    &&& info.size == old(self).pixels().len()
                    &&& info.data@ == old(self).pixels()
                },
                Err(e) => {
                    &&& e == LibCZIApiError::UnspecifiedError
                    &&& old(self).locks_spec() == u32::MAX
                    &&& final(self).locks_spec() == old(self).locks_spec()
                },
            },
    {
        if self.locks == u32::MAX {
            return Err(LibCZIApiError::UnspecifiedError);
        }
        self.locks = self.locks + 1;
        Ok(
            BitmapLockInfo {
                stride: self.stride,
                size: self.data.len() as u64,
                data: self.data.clone(),
            },
        )
    }

    /// Gives one lock back. Fails with `LockUnlockSemanticViolated`, and
    /// changes nothing, if and only if no lock is held.
    pub fn unlock_raw(&mut self) -> (done: Result<(), LibCZIApiError>)
        ensures
            final(self).wf() == old(self).wf(),
            final(self).info_spec() == old(self).info_spec(),
            final(self).stride_spec() == old(self).stride_spec(),
            final(self).pixels() == old(self).pixels(),
            match done {
                Ok(_) => unlock_step(old(self).locks_spec()) == Ok::<nat, LibCZIApiError>(
                    final(self).locks_spec(),
                ),
                Err(e) => {
                    &&& unlock_step(old(self).locks_spec()) == Err::<nat, LibCZIApiError>(e)
                    &&& final(self).locks_spec() == old(self).locks_spec()
                },
            },
    {
        if self.locks == 0 {
            return Err(LibCZIApiError::LockUnlockSemanticViolated);
        }
        self.locks = self.locks - 1;
        Ok(())
    }

    /// Gives the bitmap up. Fails with `LockUnlockSemanticViolated` if and
    /// only if a lock is still held.
    pub fn release(self) -> (done: Result<(), LibCZIApiError>)
        ensures
            done == release_step(self.locks_spec()),
    {
        if self.locks > 0 {
            Err(LibCZIApiError::LockUnlockSemanticViolated)
        } else {
            Ok(())
        }
    }

    /// Takes a lock for as long as the result lives. Fails with
    /// `UnspecifiedError` if and only if the count of locks is at its limit.
    pub fn lock(self) -> (locked: Result<LockedBitmap, LibCZIApiError>)
        ensures
            match locked {
                Ok(held) => {
                    &&& self.locks_spec() < u32::MAX
                    &&& held.wf()
                    &&& held.bitmap_spec().wf() == self.wf()
                    &&& held.bitmap_spec().info_spec() == self.info_spec()
                    &&& held.bitmap_spec().stride_spec() == self.stride_spec()
                    &&& held.bitmap_spec().pixels() == self.pixels()
                    &&& held.bitmap_spec().locks_spec() == self.locks_spec() + 1
                },
                Err(e) => e == LibCZIApiError::UnspecifiedError && self.locks_spec() == u32::MAX,
            },
    {
        let mut bitmap = self;
        match bitmap.lock_raw() {
            Ok(lock_info) => Ok(LockedBitmap { bitmap, lock_info }),
            Err(e) => Err(e),
        }
    }
}

impl LockedBitmap {
    /// The bitmap that the lock is held on.
    pub closed spec fn bitmap_spec(&self) -> Bitmap {
        self.bitmap
    }

    /// What the lock handed out.
    pub closed spec fn lock_info_spec(&self) -> BitmapLockInfo {
        self.lock_info
    }

    /// A lock is held, and what it handed out is the pixel buffer of the
    /// bitmap.
    pub closed spec fn wf(&self) -> bool {
        &&& self.bitmap.locks >= 1
        &&& self.lock_info.stride == self.bitmap.stride
        &&& self.lock_info.size == self.bitmap.data@.len()
        &&& self.lock_info.data@ == self.bitmap.data@
    }

    /// What a well-formed locked bitmap hands out.
    pub proof fn lemma_wf(&self)
        requires
            self.wf(),
        ensures
            self.bitmap_spec().locks_spec() >= 1,
            self.lock_info_spec().stride == self.bitmap_spec().stride_spec(),
            self.lock_info_spec().size == self.bitmap_spec().pixels().len(),
            self.lock_info_spec().data@ == self.bitmap_spec().pixels(),
    {
    }

    /// What the lock handed out.
    pub fn get_lock_info(&self) -> (info: &BitmapLockInfo)
        ensures
            *info == self.lock_info_spec(),
    {
        &self.lock_info
    }

    /// The width, the height and the pixel type. The call always succeeds.
    pub fn get_info(&self) -> (info: Result<BitmapInfo, LibCZIApiError>)
        ensures
            info == Ok::<BitmapInfo, LibCZIApiError>(self.bitmap_spec().info_spec()),
    {
        Ok(self.bitmap.info)
    }

    /// Gives the lock back and hands the bitmap out again. A locked bitmap
    /// holds a lock, so this succeeds.
    pub fn unlock(self) -> (bitmap: Result<Bitmap, LibCZIApiError>)
        requires
            self.wf(),
        ensures
            bitmap matches Ok(free) && {
                &&& free.wf() == self.bitmap_spec().wf()
                &&& free.info_spec() == self.bitmap_spec().info_spec()
                &&& free.stride_spec() == self.bitmap_spec().stride_spec()
                &&& free.pixels() == self.bitmap_spec().pixels()
                &&& free.locks_spec() == self.bitmap_spec().locks_spec() - 1
            },
    {
        let mut bitmap = self.bitmap;
        match bitmap.unlock_raw() {
            Ok(_) => Ok(bitmap),
            Err(e) => Err(e),
        }
    }

    /// A copy of the pixels in a buffer of the given form, as a bitmap of
    /// its own with no lock held.
    ///
    /// The width, the height and the pixel type must be those of this
    /// bitmap, and the stride must have room for a row: else the call fails
    /// with `InvalidArgument`. It fails with `OutOfMemory` where the buffer
    /// would be larger than memory can be.
    pub fn copy(&self, width: u32, height: u32, pixel_type: PixelType, stride: u32) -> (copy: Result<
        Bitmap,
        LibCZIApiError,
    >)
        requires
            self.bitmap_spec().wf(),
        ensures
            match copy {
                Ok(made) => {
                    &&& copy_spec(
                        self.bitmap_spec().info_spec(),
                        self.bitmap_spec().stride_spec(),
                        self.bitmap_spec().pixels(),
                        width,
                        height,
                        pixel_type,
                        stride,
                    ) == Ok::<Seq<u8>, LibCZIApiError>(made.pixels())
                    &&& made.wf()
                    &&& made.info_spec() == self.bitmap_spec().info_spec()
                    &&& made.stride_spec() == stride
                    &&& made.locks_spec() == 0
                },
                Err(e) => copy_spec(
                    self.bitmap_spec().info_spec(),
                    self.bitmap_spec().stride_spec(),
                    self.bitmap_spec().pixels(),
                    width,
                    height,
                    pixel_type,
                    stride,
                ) == Err::<Seq<u8>, LibCZIApiError>(e),
            },
    {
        let source = &self.bitmap;
        let per_pixel: u64 = pixel_type.bytes_per_pixel() as u64;
        assert(width as u64 * per_pixel <= 0xffff_ffff * 24) by (nonlinear_arith)
            requires
                width <= 0xffff_ffff,
                per_pixel <= 24,
        ;
        assert(stride as u64 * height as u64 <= 0xffff_ffff * 0xffff_ffff) by (nonlinear_arith)
            requires
                stride <= 0xffff_ffff,
                height <= 0xffff_ffff,
        ;
        if width != source.info.width || height != source.info.height || pixel_type.code()
            != source.info.pixel_type || (stride as u64) < width as u64 * per_pixel {
            return Err(LibCZIApiError::InvalidArgument);
        }
        let total: u64 = stride as u64 * height as u64;
        if total > usize::MAX as u64 {
            return Err(LibCZIApiError::OutOfMemory);
        }
        proof {
            lemma_pixel_type_code_round_trip(pixel_type, 0);
        }
        let row: usize = (width as u64 * per_pixel) as usize;
        let out = restride_rows(
            source.data.as_slice(),
            source.stride as usize,
            stride as usize,
            row,
            height as usize,
        );
        Ok(Bitmap { info: source.info, stride, data: out, locks: 0 })
    }
}

} // verus!
