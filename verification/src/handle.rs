//! Handles: the only way the objects of the engine are referred to across a
//! boundary.
//!
//! A table keeps the objects in slots. A handle names a slot and the
//! generation of the object that was put there, so that a handle whose
//! object is gone is told from a handle to the object that took its slot.
//! Every object is counted: it leaves the table when as many releases as
//! references have been made.

use crate::bitmap::{release_step, unlock_step, Bitmap, BitmapLockInfo};
use crate::error::LibCZIApiError;
use vstd::prelude::*;

verus! {

/// The name of an object in a table. No object ever has generation 0, so
/// the handle made of two zeros names no object.
#[derive(Clone, Copy, Debug, PartialEq, Eq, Structural)]
pub struct Handle {
    pub index: u32,
    pub generation: u32,
}

struct Slot<T> {
    generation: u32,
    references: u32,
    object: Option<T>,
}

/// The objects of one kind that handles have been given out for.
pub struct HandleTable<T> {
    slots: Vec<Slot<T>>,
}

impl Handle {
    /// The handle that names no object.
    pub open spec fn invalid_spec() -> Handle {
        Handle { index: 0, generation: 0 }
    }

    /// The handle that names no object.
    pub fn invalid() -> (handle: Handle)
        ensures
            handle == Handle::invalid_spec(),
    {
        Handle { index: 0, generation: 0 }
    }

    /// Whether this is the handle that names no object.
    pub fn is_invalid(&self) -> (invalid: bool)
        ensures
            invalid == (*self == Handle::invalid_spec()),
    {
        self.index == 0 && self.generation == 0
    }
}

impl<T> HandleTable<T> {
    /// How many slots the table has made so far.
    pub closed spec fn slot_count_spec(&self) -> nat {
        self.slots@.len()
    }

    /// Whether the handle names an object that is in the table.
    pub closed spec fn is_live(&self, handle: Handle) -> bool {
        &&& handle.index < self.slots@.len()
        &&& self.slots@[handle.index as int].generation == handle.generation
        &&& self.slots@[handle.index as int].references > 0
    }

    /// Whether the handle was ever given out by this table.
    pub closed spec fn was_issued(&self, handle: Handle) -> bool {
        &&& handle.index < self.slots@.len()
        &&& 1 <= handle.generation <= self.slots@[handle.index as int].generation
    }

    /// The object that a live handle names.
    pub closed spec fn object_of(&self, handle: Handle) -> T {
        self.slots@[handle.index as int].object->0
    }

    /// How many references to the object of a live handle are held.
    pub closed spec fn references_of(&self, handle: Handle) -> nat {
        self.slots@[handle.index as int].references as nat
    }

    /// Whether an object can still be put into the table: a slot is free
    /// whose generations are not used up, or one more slot can be made.
    pub closed spec fn has_room(&self) -> bool {
        ||| self.slots@.len() < u32::MAX
        ||| exists|i: int|
            0 <= i < self.slots@.len() && (#[trigger] self.slots@[i]).references == 0
                && self.slots@[i].generation < u32::MAX
    }

    /// What holds of every table: a slot holds an object exactly while
    /// references to it are held, and no object has generation 0.
    pub closed spec fn wf(&self) -> bool {
        &&& self.slots@.len() <= u32::MAX
        &&& forall|i: int|
            0 <= i < self.slots@.len() ==> {
                &&& (#[trigger] self.slots@[i]).references > 0 <==> self.slots@[i].object is Some
                &&& self.slots@[i].generation >= 1
            }
    }

    /// A live handle was given out, the handle that names no object never
    /// is live, and a table with fewer slots than a handle can count has
    /// room.
    pub proof fn lemma_live_handles(&self, handle: Handle)
        requires
            self.wf(),
        ensures
            self.is_live(handle) ==> self.was_issued(handle),
            !self.is_live(Handle::invalid_spec()),
            !self.was_issued(Handle::invalid_spec()),
            self.slot_count_spec() < u32::MAX ==> self.has_room(),
    {
    }

    /// The empty table.
    pub fn new() -> (table: Self)
        ensures
            table.wf(),
            table.slot_count_spec() == 0,
            table.has_room(),
            forall|handle: Handle| !table.is_live(handle) && !table.was_issued(handle),
    {
        HandleTable { slots: Vec::new() }
    }

    /// Whether the handle names an object that is in the table.
    pub fn contains(&self, handle: Handle) -> (live: bool)
        ensures
            live == self.is_live(handle),
    {
        (handle.index as usize) < self.slots.len() && self.slots[handle.index as usize].generation
            == handle.generation && self.slots[handle.index as usize].references > 0
    }

    /// The first free slot whose generations are not used up.
    fn free_slot(&self) -> (place: Option<usize>)
        ensures
            match place {
                Some(i) => i < self.slots@.len() && self.slots@[i as int].references == 0
                    && self.slots@[i as int].generation < u32::MAX,
                None => forall|i: int|
                    0 <= i < self.slots@.len() ==> !((#[trigger] self.slots@[i]).references == 0
                        && self.slots@[i].generation < u32::MAX),
            },
    {
        let mut i: usize = 0;
        while i < self.slots.len()
            invariant
                i <= self.slots@.len(),
                forall|j: int|
                    0 <= j < i ==> !((#[trigger] self.slots@[j]).references == 0
                        && self.slots@[j].generation < u32::MAX),
            decreases self.slots@.len() - i,
        {
            if self.slots[i].references == 0 && self.slots[i].generation < u32::MAX {
                return Some(i);
            }
            i = i + 1;
        }
        None
    }

    /// Puts an object into the table and gives out a handle to it, with one
    /// reference held.
    ///
    /// The handle is fresh: this table never gave it out before, and will
    /// never give it out again. Every other handle is as it was. Fails with
    /// `OutOfMemory`, and changes nothing, if and only if the table has no
    /// room.
    pub fn create(&mut self, object: T) -> (handle: Result<Handle, LibCZIApiError>)
        requires
            old(self).wf(),
        ensures
            final(self).wf(),
            handle is Ok <==> old(self).has_room(),
            forall|other: Handle| old(self).was_issued(other) ==> final(self).was_issued(other),
            forall|other: Handle|
                !(handle matches Ok(made) && made == other) ==> {
                    &&& final(self).is_live(other) == old(self).is_live(other)
                    &&& final(self).was_issued(other) == old(self).was_issued(other)
                    &&& old(self).is_live(other) ==> final(self).object_of(other) == old(
                        self,
                    ).object_of(other) && final(self).references_of(other) == old(
                        self,
                    ).references_of(other)
                },
            match handle {
                Ok(made) => {
                    &&& made != Handle::invalid_spec()
                    &&& !old(self).was_issued(made)
                    &&& final(self).was_issued(made)
                    &&& final(self).is_live(made)
                    &&& final(self).object_of(made) == object
                    &&& final(self).references_of(made) == 1
                },
                Err(e) => e == LibCZIApiError::OutOfMemory,
            },
    {
        match self.free_slot() {
            Some(place) => {
                let generation: u32 = self.slots[place].generation + 1;
                let mut slot = Slot { generation, references: 1, object: Some(object) };
                core::mem::swap(&mut self.slots[place], &mut slot);
                Ok(Handle { index: place as u32, generation })
            },
            None => {
                if self.slots.len() >= u32::MAX as usize {
                    return Err(LibCZIApiError::OutOfMemory);
                }
                let index: u32 = self.slots.len() as u32;
                self.slots.push(Slot { generation: 1, references: 1, object: Some(object) });
                Ok(Handle { index, generation: 1 })
            },
        }
    }

    /// Takes one more reference to the object of a handle. Fails with
    /// `InvalidHandle` if and only if the handle is not live, and with
    /// `UnspecifiedError` if and only if it is live and the count of
    /// references is at its limit. Nothing changes where it fails.
    pub fn add_ref(&mut self, handle: Handle) -> (done: Result<(), LibCZIApiError>)
        requires
            old(self).wf(),
        ensures
            final(self).wf(),
            forall|other: Handle|
                {
                    &&& final(self).is_live(other) == old(self).is_live(other)
                    &&& final(self).was_issued(other) == old(self).was_issued(other)
                    &&& old(self).is_live(other) ==> final(self).object_of(other) == old(
                        self,
                    ).object_of(other)
                    &&& old(self).is_live(other) && other != handle ==> final(self).references_of(
                        other,
                    ) == old(self).references_of(other)
                },
            match done {
                Ok(_) => {
                    &&& old(self).is_live(handle)
                    &&& final(self).references_of(handle) == old(self).references_of(handle) + 1
                },
                Err(e) => {
                    &&& final(self).references_of(handle) == old(self).references_of(handle)
                    &&& if old(self).is_live(handle) {
                        e == LibCZIApiError::UnspecifiedError && old(self).references_of(handle)
                            == u32::MAX
                    } else {
                        e == LibCZIApiError::InvalidHandle
                    }
                },
            },
    {
        if !self.contains(handle) {
            return Err(LibCZIApiError::InvalidHandle);
        }
        let place: usize = handle.index as usize;
        if self.slots[place].references == u32::MAX {
            return Err(LibCZIApiError::UnspecifiedError);
        }
        self.slots[place].references = self.slots[place].references + 1;
        Ok(())
    }

    /// Gives back one reference to the object of a handle. When the last
    /// reference is given back the object leaves the table and is handed
    /// out, and the handle is not live any more, nor ever again.
    ///
    /// Fails with `InvalidHandle`, and changes nothing, if and only if the
    /// handle is not live.
    pub fn release(&mut self, handle: Handle) -> (gone: Result<Option<T>, LibCZIApiError>)
        requires
            old(self).wf(),
        ensures
            final(self).wf(),
            forall|other: Handle| final(self).was_issued(other) == old(self).was_issued(other),
            forall|other: Handle|
                other != handle ==> {
                    &&& final(self).is_live(other) == old(self).is_live(other)
                    &&& old(self).is_live(other) ==> final(self).object_of(other) == old(
                        self,
                    ).object_of(other) && final(self).references_of(other) == old(
                        self,
                    ).references_of(other)
                },
            match gone {
                Err(e) => {
                    &&& e == LibCZIApiError::InvalidHandle
                    &&& !old(self).is_live(handle)
                    &&& !final(self).is_live(handle)
                },
                Ok(None) => {
                    &&& old(self).is_live(handle)
                    &&& old(self).references_of(handle) > 1
                    &&& final(self).is_live(handle)
                    &&& final(self).references_of(handle) == old(self).references_of(handle) - 1
                    &&& final(self).object_of(handle) == old(self).object_of(handle)
                },
                Ok(Some(object)) => {
                    &&& old(self).is_live(handle)
                    &&& old(self).references_of(handle) == 1
                    &&& object == old(self).object_of(handle)
                    &&& !final(self).is_live(handle)
                },
            },
    {
        if !self.contains(handle) {
            return Err(LibCZIApiError::InvalidHandle);
        }
        let place: usize = handle.index as usize;
        if self.slots[place].references > 1 {
            self.slots[place].references = self.slots[place].references - 1;
            Ok(None)
        } else {
            let mut slot = Slot { generation: handle.generation, references: 0, object: None };
            core::mem::swap(&mut self.slots[place], &mut slot);
            Ok(slot.object)
        }
    }

    /// The object of a handle. Fails with `InvalidHandle` if and only if the
    /// handle is not live.
    pub fn get(&self, handle: Handle) -> (object: Result<&T, LibCZIApiError>)
        requires
            self.wf(),
        ensures
            match object {
                Ok(found) => self.is_live(handle) && *found == self.object_of(handle),
                Err(e) => e == LibCZIApiError::InvalidHandle && !self.is_live(handle),
            },
    {
        if !self.contains(handle) {
            return Err(LibCZIApiError::InvalidHandle);
        }
        match &self.slots[handle.index as usize].object {
            Some(found) => Ok(found),
            None => Err(LibCZIApiError::InvalidHandle),
        }
    }

    /// How many references to the object of a handle are held. Fails with
    /// `InvalidHandle` if and only if the handle is not live.
    pub fn reference_count(&self, handle: Handle) -> (count: Result<u32, LibCZIApiError>)
        ensures
            match count {
                Ok(held) => self.is_live(handle) && held == self.references_of(handle),
                Err(e) => e == LibCZIApiError::InvalidHandle && !self.is_live(handle),
            },
    {
        if !self.contains(handle) {
            return Err(LibCZIApiError::InvalidHandle);
        }
        Ok(self.slots[handle.index as usize].references)
    }

    /// Puts another object in the place of the object of a handle, and hands
    /// the former out. The handle and its references stay as they are.
    /// Fails with `InvalidHandle`, and changes nothing, if and only if the
    /// handle is not live.
    pub fn replace(&mut self, handle: Handle, object: T) -> (former: Result<T, LibCZIApiError>)
        requires
            old(self).wf(),
        ensures
            final(self).wf(),
            forall|other: Handle|
                {
                    &&& final(self).is_live(other) == old(self).is_live(other)
                    &&& final(self).was_issued(other) == old(self).was_issued(other)
                    &&& old(self).is_live(other) ==> final(self).references_of(other) == old(
                        self,
                    ).references_of(other)
                    &&& old(self).is_live(other) && other != handle ==> final(self).object_of(other)
                        == old(self).object_of(other)
                },
            match former {
                Ok(found) => {
                    &&& old(self).is_live(handle)
                    &&& found == old(self).object_of(handle)
                    &&& final(self).object_of(handle) == object
                },
                Err(e) => e == LibCZIApiError::InvalidHandle && !old(self).is_live(handle),
            },
    {
        if !self.contains(handle) {
            return Err(LibCZIApiError::InvalidHandle);
        }
        let place: usize = handle.index as usize;
        let mut slot = Slot {
            generation: handle.generation,
            references: self.slots[place].references,
            object: Some(object),
        };
        core::mem::swap(&mut self.slots[place], &mut slot);
        match slot.object {
            Some(found) => Ok(found),
            None => Err(LibCZIApiError::InvalidHandle),
        }
    }
}

/// Whether two tables of bitmaps hold the same for every handle but one.
pub open spec fn same_but(
    first: HandleTable<Bitmap>,
    second: HandleTable<Bitmap>,
    handle: Handle,
) -> bool {
    forall|other: Handle|
        {
            &&& second.was_issued(other) == first.was_issued(other)
            &&& other != handle ==> second.is_live(other) == first.is_live(other)
            &&& other != handle && first.is_live(other) ==> second.object_of(other)
                == first.object_of(other) && second.references_of(other) == first.references_of(
                other,
            )
        }
}

/// Whether a bitmap is another with a different number of locks held.
pub open spec fn same_pixels(first: Bitmap, second: Bitmap) -> bool {
    &&& second.wf() == first.wf()
    &&& second.info_spec() == first.info_spec()
    &&& second.stride_spec() == first.stride_spec()
    &&& second.pixels() == first.pixels()
}

impl HandleTable<Bitmap> {
    /// Takes a lock on the bitmap of a handle and hands out its pixels.
    ///
    /// Fails with `InvalidHandle` where the handle is not live, and with
    /// `UnspecifiedError` where the count of locks is at its limit. Nothing
    /// changes where it fails.
    pub fn lock_bitmap(&mut self, handle: Handle) -> (lock: Result<BitmapLockInfo, LibCZIApiError>)
        requires
            old(self).wf(),
        ensures
            final(self).wf(),
            same_but(*old(self), *final(self), handle),
            final(self).is_live(handle) == old(self).is_live(handle),
            match lock {
                Ok(info) => {
                    &&& old(self).is_live(handle)
                    &&& final(self).references_of(handle) == old(self).references_of(handle)
                    &&& same_pixels(old(self).object_of(handle), final(self).object_of(handle))
                    &&& final(self).object_of(handle).locks_spec() == old(self).object_of(
                        handle,
                    ).locks_spec() + 1
                    &&& info.stride == old(self).object_of(handle).stride_spec()
                    &&& info.size == old(self).object_of(handle).pixels().len()
                    &&& info.data@ == old(self).object_of(handle).pixels()
                },
                Err(e) => if old(self).is_live(handle) {
                    &&& e == LibCZIApiError::UnspecifiedError
                    &&& old(self).object_of(handle).locks_spec() == u32::MAX
                    &&& same_pixels(old(self).object_of(handle), final(self).object_of(handle))
                    &&& final(self).object_of(handle).locks_spec() == old(self).object_of(
                        handle,
                    ).locks_spec()
                    &&& final(self).references_of(handle) == old(self).references_of(handle)
                } else {
                    e == LibCZIApiError::InvalidHandle
                },
            },
    {
        if !self.contains(handle) {
            return Err(LibCZIApiError::InvalidHandle);
        }
        let place: usize = handle.index as usize;
        let references: u32 = self.slots[place].references;
        let mut slot = Slot { generation: handle.generation, references, object: None };
        core::mem::swap(&mut self.slots[place], &mut slot);
        let mut taken = slot.object;
        let lock = match &mut taken {
            Some(bitmap) => bitmap.lock_raw(),
            None => Err(LibCZIApiError::InvalidHandle),
        };
        let mut back = Slot { generation: handle.generation, references, object: taken };
        core::mem::swap(&mut self.slots[place], &mut back);
        lock
    }

    /// Gives back a lock on the bitmap of a handle.
    ///
    /// Fails with `InvalidHandle` where the handle is not live, and with
    /// `LockUnlockSemanticViolated` where no lock is held on the bitmap.
    /// Nothing changes where it fails.
    pub fn unlock_bitmap(&mut self, handle: Handle) -> (done: Result<(), LibCZIApiError>)
        requires
            old(self).wf(),
        ensures
            final(self).wf(),
            same_but(*old(self), *final(self), handle),
            final(self).is_live(handle) == old(self).is_live(handle),
            match done {
                Ok(_) => {
                    &&& old(self).is_live(handle)
                    &&& final(self).references_of(handle) == old(self).references_of(handle)
                    &&& same_pixels(old(self).object_of(handle), final(self).object_of(handle))
                    &&& unlock_step(old(self).object_of(handle).locks_spec()) == Ok::<
                        nat,
                        LibCZIApiError,
                    >(final(self).object_of(handle).locks_spec())
                },
                Err(e) => if old(self).is_live(handle) {
                    &&& unlock_step(old(self).object_of(handle).locks_spec()) == Err::<
                        nat,
                        LibCZIApiError,
                    >(e)
                    &&& same_pixels(old(self).object_of(handle), final(self).object_of(handle))
                    &&& final(self).object_of(handle).locks_spec() == old(self).object_of(
                        handle,
                    ).locks_spec()
                    &&& final(self).references_of(handle) == old(self).references_of(handle)
                } else {
                    e == LibCZIApiError::InvalidHandle
                },
            },
    {
        if !self.contains(handle) {
            return Err(LibCZIApiError::InvalidHandle);
        }
        let place: usize = handle.index as usize;
        let references: u32 = self.slots[place].references;
        let mut slot = Slot { generation: handle.generation, references, object: None };
        core::mem::swap(&mut self.slots[place], &mut slot);
        let mut taken = slot.object;
        let done = match &mut taken {
            Some(bitmap) => bitmap.unlock_raw(),
            None => Err(LibCZIApiError::InvalidHandle),
        };
        let mut back = Slot { generation: handle.generation, references, object: taken };
        core::mem::swap(&mut self.slots[place], &mut back);
        done
    }

    /// Gives back one reference to the bitmap of a handle. With the last
    /// reference the bitmap is given up.
    ///
    /// Fails with `InvalidHandle` where the handle is not live, and with
    /// `LockUnlockSemanticViolated` where the last reference is given back
    /// while a lock is held on the bitmap. Nothing changes where it fails.
    pub fn release_bitmap(&mut self, handle: Handle) -> (done: Result<(), LibCZIApiError>)
        requires
            old(self).wf(),
        ensures
            final(self).wf(),
            same_but(*old(self), *final(self), handle),
            match done {
                Ok(_) => {
                    &&& old(self).is_live(handle)
                    &&& if old(self).references_of(handle) == 1 {
                        &&& release_step(old(self).object_of(handle).locks_spec()) is Ok
                        &&& !final(self).is_live(handle)
                    } else {
                        &&& final(self).is_live(handle)
                        &&& final(self).references_of(handle) == old(self).references_of(handle) - 1
                        &&& final(self).object_of(handle) == old(self).object_of(handle)
                    }
                },
                Err(e) => {
                    &&& final(self).is_live(handle) == old(self).is_live(handle)
                    &&& if old(self).is_live(handle) {
                        &&& old(self).references_of(handle) == 1
                        &&& release_step(old(self).object_of(handle).locks_spec()) == Err::<
                            (),
                            LibCZIApiError,
                        >(e)
                        &&& final(self).object_of(handle) == old(self).object_of(handle)
                        &&& final(self).references_of(handle) == old(self).references_of(handle)
                    } else {
                        e == LibCZIApiError::InvalidHandle
                    }
                },
            },
    {
        if !self.contains(handle) {
            return Err(LibCZIApiError::InvalidHandle);
        }
        let place: usize = handle.index as usize;
        if self.slots[place].references == 1 {
            let locked = match &self.slots[place].object {
                Some(bitmap) => bitmap.lock_count() > 0,
                None => false,
            };
            if locked {
                return Err(LibCZIApiError::LockUnlockSemanticViolated);
            }
        }
        match self.release(handle) {
            Ok(_) => Ok(()),
            Err(e) => Err(e),
        }
    }
}

} // verus!
