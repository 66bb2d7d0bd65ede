use libczi::handle::{Handle, HandleTable};
use libczi::LibCZIApiError;

#[test]
fn a_fresh_handle_names_its_object() {
    let mut table: HandleTable<String> = HandleTable::new();
    let first = table.create("reader".to_string()).unwrap();
    let second = table.create("writer".to_string()).unwrap();
    assert_ne!(first, second);
    assert!(!first.is_invalid());
    assert!(table.contains(first));
    assert_eq!(table.get(first).unwrap(), "reader");
    assert_eq!(table.get(second).unwrap(), "writer");
    assert_eq!(table.reference_count(first), Ok(1));
}

#[test]
fn the_handle_of_two_zeros_names_no_object() {
    let mut table: HandleTable<u8> = HandleTable::new();
    assert!(Handle::invalid().is_invalid());
    assert_eq!(Handle::invalid(), Handle { index: 0, generation: 0 });
    assert!(!table.contains(Handle::invalid()));
    let made = table.create(1).unwrap();
    assert!(!made.is_invalid());
    assert!(!table.contains(Handle::invalid()));
    assert_eq!(
        table.get(Handle::invalid()).err(),
        Some(LibCZIApiError::InvalidHandle)
    );
}

#[test]
fn an_object_leaves_when_its_last_reference_is_given_back() {
    let mut table: HandleTable<Vec<u8>> = HandleTable::new();
    let handle = table.create(vec![1, 2, 3]).unwrap();
    assert_eq!(table.add_ref(handle), Ok(()));
    assert_eq!(table.reference_count(handle), Ok(2));
    assert_eq!(table.release(handle), Ok(None));
    assert!(table.contains(handle));
    assert_eq!(table.release(handle), Ok(Some(vec![1, 2, 3])));
    assert!(!table.contains(handle));
}

#[test]
fn a_handle_whose_object_is_gone_is_invalid_for_good() {
    let mut table: HandleTable<u32> = HandleTable::new();
    let stale = table.create(10).unwrap();
    assert_eq!(table.release(stale), Ok(Some(10)));
    assert_eq!(table.get(stale).err(), Some(LibCZIApiError::InvalidHandle));
    assert_eq!(table.add_ref(stale), Err(LibCZIApiError::InvalidHandle));
    assert_eq!(table.release(stale), Err(LibCZIApiError::InvalidHandle));
    assert_eq!(table.replace(stale, 5).err(), Some(LibCZIApiError::InvalidHandle));
    assert_eq!(
        table.reference_count(stale),
        Err(LibCZIApiError::InvalidHandle)
    );
    let next = table.create(11).unwrap();
    assert_eq!(next.index, stale.index);
    assert_ne!(next.generation, stale.generation);
    assert_ne!(next, stale);
    assert!(!table.contains(stale));
    assert_eq!(table.get(stale).err(), Some(LibCZIApiError::InvalidHandle));
    assert_eq!(table.get(next), Ok(&11));
}

#[test]
fn an_object_can_be_replaced_under_its_handle() {
    let mut table: HandleTable<i64> = HandleTable::new();
    let handle = table.create(-1).unwrap();
    assert_eq!(table.add_ref(handle), Ok(()));
    assert_eq!(table.replace(handle, 7), Ok(-1));
    assert_eq!(table.get(handle), Ok(&7));
    assert_eq!(table.reference_count(handle), Ok(2));
    let unknown = Handle { index: 5, generation: 1 };
    assert_eq!(table.get(unknown).err(), Some(LibCZIApiError::InvalidHandle));
}

fn gray(pixels: &[u8]) -> libczi::bitmap::Bitmap {
    libczi::bitmap::Bitmap::create(
        pixels.len() as u32,
        1,
        libczi::pixel::PixelType::Gray8,
        pixels.len() as u32,
        pixels.to_vec(),
    )
    .unwrap()
}

#[test]
fn a_bitmap_that_is_still_locked_cannot_be_released_by_its_last_handle() {
    let mut table: HandleTable<libczi::bitmap::Bitmap> = HandleTable::new();
    let handle = table.create(gray(&[1, 2, 3])).unwrap();
    assert_eq!(table.lock_bitmap(handle).unwrap().get_data_roi(), vec![1, 2, 3]);
    assert_eq!(table.lock_bitmap(handle).unwrap().get_data_roi(), vec![1, 2, 3]);
    assert_eq!(table.unlock_bitmap(handle), Ok(()));
    assert_eq!(
        table.release_bitmap(handle),
        Err(LibCZIApiError::LockUnlockSemanticViolated)
    );
    assert!(table.contains(handle));
    assert_eq!(table.get(handle).unwrap().lock_count(), 1);
    assert_eq!(table.unlock_bitmap(handle), Ok(()));
    assert_eq!(table.release_bitmap(handle), Ok(()));
    assert!(!table.contains(handle));
    assert_eq!(
        table.lock_bitmap(handle).err(),
        Some(LibCZIApiError::InvalidHandle)
    );
    assert_eq!(table.unlock_bitmap(handle), Err(LibCZIApiError::InvalidHandle));
    assert_eq!(table.release_bitmap(handle), Err(LibCZIApiError::InvalidHandle));
}

#[test]
fn unlocking_by_handle_a_bitmap_that_was_never_locked_fails() {
    let mut table: HandleTable<libczi::bitmap::Bitmap> = HandleTable::new();
    let handle = table.create(gray(&[9])).unwrap();
    assert_eq!(
        table.unlock_bitmap(handle),
        Err(LibCZIApiError::LockUnlockSemanticViolated)
    );
    assert_eq!(table.get(handle).unwrap().lock_count(), 0);
    assert_eq!(table.release_bitmap(handle), Ok(()));
}

#[test]
fn locks_and_references_are_counted_apart() {
    let mut table: HandleTable<libczi::bitmap::Bitmap> = HandleTable::new();
    let handle = table.create(gray(&[4, 5])).unwrap();
    let other = table.create(gray(&[6])).unwrap();
    assert_eq!(table.add_ref(handle), Ok(()));
    assert!(table.lock_bitmap(handle).is_ok());
    assert_eq!(table.release_bitmap(handle), Ok(()));
    assert!(table.contains(handle));
    assert_eq!(table.reference_count(handle), Ok(1));
    assert_eq!(table.get(handle).unwrap().lock_count(), 1);
    assert_eq!(
        table.release_bitmap(handle),
        Err(LibCZIApiError::LockUnlockSemanticViolated)
    );
    assert_eq!(table.get(other).unwrap().lock_count(), 0);
    assert_eq!(table.release_bitmap(other), Ok(()));
    assert_eq!(table.unlock_bitmap(handle), Ok(()));
    assert_eq!(table.release_bitmap(handle), Ok(()));
}
