use libczi::bitmap::{Bitmap, BitmapInfo};
use libczi::pixel::PixelType;
use libczi::{CziError, LibCZIApiError};

fn gray(width: u32, height: u32) -> Bitmap {
    let data: Vec<u8> = (0..width * height).map(|i| i as u8).collect();
    Bitmap::create(width, height, PixelType::Gray8, width, data).unwrap()
}

#[test]
fn a_bitmap_needs_a_buffer_of_the_right_size() {
    assert!(Bitmap::create(4, 3, PixelType::Gray8, 4, vec![0; 12]).is_ok());
    assert!(Bitmap::create(4, 3, PixelType::Gray8, 6, vec![0; 18]).is_ok());
    assert!(Bitmap::create(4, 3, PixelType::Gray16, 8, vec![0; 24]).is_ok());
    assert_eq!(
        Bitmap::create(4, 3, PixelType::Gray8, 4, vec![0; 11]).err(),
        Some(LibCZIApiError::InvalidArgument)
    );
    assert_eq!(
        Bitmap::create(4, 3, PixelType::Gray16, 7, vec![0; 21]).err(),
        Some(LibCZIApiError::InvalidArgument)
    );
    assert!(Bitmap::create(0, 0, PixelType::Bgr24, 0, vec![]).is_ok());
}

#[test]
fn unlocking_a_bitmap_that_was_never_locked_fails() {
    let mut bitmap = gray(2, 2);
    assert_eq!(bitmap.lock_count(), 0);
    assert_eq!(
        bitmap.unlock_raw(),
        Err(LibCZIApiError::LockUnlockSemanticViolated)
    );
    assert_eq!(bitmap.lock_count(), 0);
    assert_eq!(bitmap.release(), Ok(()));
}

#[test]
fn releasing_a_bitmap_that_is_still_locked_fails() {
    let mut bitmap = gray(2, 2);
    assert!(bitmap.lock_raw().is_ok());
    assert!(bitmap.lock_raw().is_ok());
    assert_eq!(bitmap.lock_count(), 2);
    assert_eq!(bitmap.unlock_raw(), Ok(()));
    assert_eq!(bitmap.lock_count(), 1);
    assert_eq!(
        bitmap.release(),
        Err(LibCZIApiError::LockUnlockSemanticViolated)
    );
}

#[test]
fn balanced_locks_leave_a_bitmap_that_can_be_released() {
    let mut bitmap = gray(3, 2);
    let lock = bitmap.lock_raw().unwrap();
    assert_eq!(lock.get_stride(), 3);
    assert_eq!(lock.get_size(), 6);
    assert_eq!(lock.get_data_roi(), vec![0, 1, 2, 3, 4, 5]);
    let again = bitmap.lock_raw().unwrap();
    assert_eq!(again.get_data_roi(), vec![0, 1, 2, 3, 4, 5]);
    assert_eq!(bitmap.unlock_raw(), Ok(()));
    assert_eq!(bitmap.unlock_raw(), Ok(()));
    assert_eq!(
        bitmap.unlock_raw(),
        Err(LibCZIApiError::LockUnlockSemanticViolated)
    );
    assert_eq!(bitmap.release(), Ok(()));
}

#[test]
fn a_locked_bitmap_hands_its_pixels_out_and_unlocks_again() {
    let bitmap = gray(3, 2);
    let locked = bitmap.lock().unwrap();
    assert_eq!(locked.lock_info.get_data_roi(), vec![0, 1, 2, 3, 4, 5]);
    assert_eq!(locked.get_lock_info().get_stride(), 3);
    let info = locked.get_info().unwrap();
    assert_eq!(info.get_width(), 3);
    assert_eq!(info.get_height(), 2);
    assert_eq!(info.get_pixel_type(), Ok(PixelType::Gray8));
    let bitmap = locked.unlock().unwrap();
    assert_eq!(bitmap.lock_count(), 0);
    assert_eq!(bitmap.get_stride(), 3);
    assert_eq!(bitmap.release(), Ok(()));
}

#[test]
fn a_copy_has_the_rows_of_the_source_and_zero_padding() {
    let locked = gray(3, 2).lock().unwrap();
    let copy = locked.copy(3, 2, PixelType::Gray8, 5).unwrap();
    assert_eq!(copy.get_stride(), 5);
    assert_eq!(copy.lock_count(), 0);
    assert_eq!(copy.get_info(), Ok(BitmapInfo::new(3, 2, PixelType::Gray8)));
    let pixels = copy.lock().unwrap();
    assert_eq!(
        pixels.lock_info.get_data_roi(),
        vec![0, 1, 2, 0, 0, 3, 4, 5, 0, 0]
    );
    let same = locked.copy(3, 2, PixelType::Gray8, 3).unwrap();
    assert_eq!(
        same.lock().unwrap().lock_info.get_data_roi(),
        vec![0, 1, 2, 3, 4, 5]
    );
}

#[test]
fn a_copy_from_padded_rows_drops_the_padding() {
    let source = Bitmap::create(
        2,
        2,
        PixelType::Gray16,
        6,
        vec![1, 2, 3, 4, 9, 9, 5, 6, 7, 8, 9, 9],
    )
    .unwrap();
    let locked = source.lock().unwrap();
    let copy = locked.copy(2, 2, PixelType::Gray16, 4).unwrap();
    assert_eq!(
        copy.lock().unwrap().lock_info.get_data_roi(),
        vec![1, 2, 3, 4, 5, 6, 7, 8]
    );
}

#[test]
fn a_copy_of_another_form_is_refused() {
    let locked = gray(3, 2).lock().unwrap();
    for (width, height, pixel_type, stride) in [
        (4, 2, PixelType::Gray8, 4),
        (3, 3, PixelType::Gray8, 3),
        (3, 2, PixelType::Gray16, 6),
        (3, 2, PixelType::Gray8, 2),
    ] {
        assert_eq!(
            locked.copy(width, height, pixel_type, stride).err(),
            Some(LibCZIApiError::InvalidArgument)
        );
    }
}

#[test]
fn what_is_known_of_a_bitmap_keeps_what_it_is_given() {
    let mut info = BitmapInfo::new(640, 480, PixelType::Bgr24);
    assert_eq!(info.get_width(), 640);
    assert_eq!(info.get_height(), 480);
    assert_eq!(info.get_pixel_type(), Ok(PixelType::Bgr24));
    info.set_width(1);
    info.set_height(2);
    info.set_pixel_type(PixelType::Gray64Float);
    assert_eq!(info, BitmapInfo { width: 1, height: 2, pixel_type: 13 });
    info.pixel_type = 7;
    assert_eq!(info.get_pixel_type(), Err(CziError::UnknownPixelType(7)));
}
