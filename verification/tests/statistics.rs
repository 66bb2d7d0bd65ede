use libczi::coordinate::{Coordinate, Interval};
use libczi::dimension::Dimension;
use libczi::directory::SubBlockDirectory;
use libczi::geometry::{IntRect, IntSize};
use libczi::statistics::{BoundingBoxes, SubBlockStatistics};
use libczi::subblock::{SubBlockDirectoryEntry, NO_M_INDEX};
use libczi::{DimBounds, LibCZIApiError};

fn entry(scene: Option<i32>, channel: i32, rect: IntRect, stored: IntSize, m: Option<i32>) -> SubBlockDirectoryEntry {
    let mut present = [false; 9];
    let mut values = [0; 9];
    present[1] = true;
    values[1] = channel;
    if let Some(s) = scene {
        present[4] = true;
        values[4] = s;
    }
    SubBlockDirectoryEntry {
        coordinate: Coordinate::pack(present, values),
        logical_rect: rect,
        physical_size: stored,
        pixel_type: 0,
        compression_mode_raw: 0,
        m_index_valid: m.is_some(),
        m_index: m.unwrap_or(0),
        file_position: 0,
    }
}

fn full(scene: Option<i32>, channel: i32, x: i32, y: i32, w: i32, h: i32, m: Option<i32>) -> SubBlockDirectoryEntry {
    entry(scene, channel, IntRect::new(x, y, w, h), IntSize::new(w, h), m)
}

fn join(first: IntRect, second: IntRect) -> IntRect {
    if !first.is_valid() {
        return second;
    }
    if !second.is_valid() {
        return first;
    }
    let left = first.x.min(second.x);
    let top = first.y.min(second.y);
    let right = (first.x + first.w).max(second.x + second.w);
    let bottom = (first.y + first.h).max(second.y + second.h);
    IntRect::new(left, top, right - left, bottom - top)
}

#[test]
fn the_figures_of_an_empty_directory() {
    let directory = SubBlockDirectory::new();
    let statistics = directory.get_statistics_simple();
    assert_eq!(statistics.get_sub_block_count(), 0);
    assert_eq!(statistics.get_min_m_index(), i32::MAX);
    assert_eq!(statistics.get_max_m_index(), i32::MIN);
    assert!(!statistics.has_m_index());
    assert_eq!(statistics.get_bounding_box(), IntRect::invalid());
    assert_eq!(statistics.get_bounding_box_layer0(), IntRect::invalid());
    assert_eq!(statistics.get_dim_bounds().get_dimensions_valid(), 0);
    assert_eq!(directory.scene_count(), 0);
    assert_eq!(directory.count(), 0);
    assert_eq!(directory.declared_count(), 0);
}

#[test]
fn the_figures_are_drawn_from_every_entry() {
    let mut directory = SubBlockDirectory::new();
    assert_eq!(directory.push(full(None, 0, 0, 0, 100, 50, Some(3))), Ok(()));
    assert_eq!(directory.push(full(None, 2, -20, 10, 30, 100, None)), Ok(()));
    assert_eq!(
        directory.push(entry(
            None,
            5,
            IntRect::new(0, 0, 400, 400),
            IntSize::new(200, 200),
            Some(-4)
        )),
        Ok(())
    );
    let statistics = directory.get_statistics_simple();
    assert_eq!(statistics.get_sub_block_count(), 3);
    assert_eq!(statistics.get_min_m_index(), -4);
    assert_eq!(statistics.get_max_m_index(), 3);
    assert!(statistics.has_m_index());
    assert_eq!(statistics.get_bounding_box(), IntRect::new(-20, 0, 420, 400));
    assert_eq!(
        statistics.get_bounding_box_layer0(),
        IntRect::new(-20, 0, 120, 110)
    );
    let bounds = statistics.get_dim_bounds();
    assert_eq!(bounds.get_dimensions_valid(), 0b10);
    assert_eq!(
        bounds.try_get(Dimension::C),
        Some(Interval { start: 0, size: 6 })
    );
    assert_eq!(bounds.try_get(Dimension::S), None);
}

#[test]
fn test_statistics_ex_truncation_reports_true_scene_count() {
    let mut directory = SubBlockDirectory::new();
    for i in 0..100 {
        let scene = [7, 3, 5][(i % 3) as usize];
        assert_eq!(
            directory.push(full(Some(scene), i % 4, i * 10, scene * 1000, 10, 10, Some(i))),
            Ok(())
        );
    }
    let (statistics, available) = directory.get_statistics_ex(1).unwrap();
    assert_eq!(available, 3);
    assert_eq!(statistics.get_number_of_per_scenes_bounding_boxes(), 1);
    assert_eq!(statistics.per_scenes_bounding_boxes.len(), 1);
    let first = statistics.get_per_scene_bounding_boxes(0).unwrap();
    assert_eq!(first.get_scene_index(), 3);
    assert_eq!(first.get_bounding_box(), IntRect::new(10, 3000, 970, 10));
    assert_eq!(first.get_bounding_box_layer0_only(), IntRect::new(10, 3000, 970, 10));
    assert!(statistics.get_per_scene_bounding_boxes(1).is_none());
    assert_eq!(statistics.get_simple().get_sub_block_count(), 100);
}

#[test]
fn no_room_for_scenes_still_reports_how_many_there_are() {
    let mut directory = SubBlockDirectory::new();
    for scene in [4, 1, 4, 9, 1] {
        assert_eq!(directory.push(full(Some(scene), 0, scene, scene, 5, 5, None)), Ok(()));
    }
    let (statistics, available) = directory.get_statistics_ex(0).unwrap();
    assert_eq!(available, 3);
    assert_eq!(statistics.get_number_of_per_scenes_bounding_boxes(), 0);
    assert!(statistics.per_scenes_bounding_boxes.is_empty());
    assert_eq!(statistics.get_simple().get_sub_block_count(), 5);
    assert_eq!(directory.scene_count(), 3);
}

#[test]
fn a_negative_room_for_scenes_is_refused() {
    let directory = SubBlockDirectory::new();
    assert_eq!(
        directory.get_statistics_ex(-1).err(),
        Some(LibCZIApiError::InvalidArgument)
    );
}

#[test]
fn asking_again_with_more_room_gives_every_scene_in_rising_order() {
    let mut directory = SubBlockDirectory::new();
    for (scene, x) in [(4, 0), (1, 100), (4, 50), (9, -30), (1, 120)] {
        assert_eq!(directory.push(full(Some(scene), 0, x, 0, 10, 10, None)), Ok(()));
    }
    let (first, available) = directory.get_statistics_ex(1).unwrap();
    assert_eq!(first.per_scenes_bounding_boxes.len(), 1);
    let (all, again) = directory.get_statistics_ex(available).unwrap();
    assert_eq!(again, available);
    let scenes: Vec<i32> = all
        .per_scenes_bounding_boxes
        .iter()
        .map(|boxes| boxes.get_scene_index())
        .collect();
    assert_eq!(scenes, vec![1, 4, 9]);
    assert_eq!(
        all.per_scenes_bounding_boxes[0].get_bounding_box(),
        IntRect::new(100, 0, 30, 10)
    );
    assert_eq!(
        all.per_scenes_bounding_boxes[1].get_bounding_box(),
        IntRect::new(0, 0, 60, 10)
    );
    assert_eq!(
        all.per_scenes_bounding_boxes[2].get_bounding_box(),
        IntRect::new(-30, 0, 10, 10)
    );
    let (more, count) = directory.get_statistics_ex(50).unwrap();
    assert_eq!(count, 3);
    assert_eq!(more.per_scenes_bounding_boxes.len(), 3);
}

#[test]
fn the_boxes_of_the_scenes_join_to_the_box_of_the_document() {
    let mut directory = SubBlockDirectory::new();
    let tiles = [
        (2, 0, 0, 64, 64),
        (0, 1000, -500, 32, 48),
        (2, 64, 0, 64, 64),
        (1, -300, 700, 10, 20),
        (0, 1032, -500, 32, 48),
    ];
    for (scene, x, y, w, h) in tiles {
        assert_eq!(directory.push(full(Some(scene), 0, x, y, w, h, None)), Ok(()));
    }
    let (statistics, available) = directory.get_statistics_ex(8).unwrap();
    assert_eq!(available, 3);
    let mut joined = IntRect::invalid();
    let mut joined_layer0 = IntRect::invalid();
    for boxes in statistics.per_scenes_bounding_boxes.iter() {
        joined = join(joined, boxes.get_bounding_box());
        joined_layer0 = join(joined_layer0, boxes.get_bounding_box_layer0_only());
    }
    assert_eq!(joined, statistics.bounding_box);
    assert_eq!(joined, directory.get_statistics_simple().get_bounding_box());
    assert_eq!(joined_layer0, statistics.bounding_box_layer0);
    assert_eq!(joined, IntRect::new(-300, -500, 1364, 1220));
}

#[test]
fn a_sub_block_without_a_scene_can_lie_outside_every_scene() {
    let mut directory = SubBlockDirectory::new();
    assert_eq!(directory.push(full(Some(0), 0, 0, 0, 10, 10, None)), Ok(()));
    assert_eq!(directory.push(full(None, 0, 100, 100, 10, 10, None)), Ok(()));
    let (statistics, available) = directory.get_statistics_ex(4).unwrap();
    assert_eq!(available, 1);
    assert_eq!(
        statistics.per_scenes_bounding_boxes[0].get_bounding_box(),
        IntRect::new(0, 0, 10, 10)
    );
    assert_eq!(statistics.bounding_box, IntRect::new(0, 0, 110, 110));
}

#[test]
fn a_look_up_tells_an_empty_place_from_a_place_out_of_range() {
    let mut directory = SubBlockDirectory::new();
    assert_eq!(directory.push(full(None, 0, 0, 0, 1, 1, Some(4))), Ok(()));
    assert_eq!(directory.push(full(None, 1, 5, 5, 1, 1, None)), Ok(()));
    assert_eq!(directory.declare(4), Ok(()));
    assert_eq!(directory.count(), 2);
    assert_eq!(directory.declared_count(), 4);
    let found = directory.try_find_for_index(0).unwrap().unwrap();
    assert_eq!(found.get_m_index(), 4);
    assert!(found.has_m_index());
    let second = directory.try_find_for_index(1).unwrap().unwrap();
    assert_eq!(second.get_m_index(), NO_M_INDEX);
    assert!(!second.has_m_index());
    assert_eq!(second.get_logical_rect(), IntRect::new(5, 5, 1, 1));
    assert!(directory.try_find_for_index(2).unwrap().is_none());
    assert!(directory.try_find_for_index(3).unwrap().is_none());
    assert_eq!(
        directory.try_find_for_index(4).err(),
        Some(LibCZIApiError::IndexOutOfRange)
    );
    assert_eq!(
        directory.try_find_for_index(-1).err(),
        Some(LibCZIApiError::IndexOutOfRange)
    );
    assert_eq!(
        directory.try_find_for_index(i32::MAX).err(),
        Some(LibCZIApiError::IndexOutOfRange)
    );
    assert!(directory.entry(1).is_ok());
    assert_eq!(directory.entry(2).err(), Some(LibCZIApiError::IndexOutOfRange));
    assert_eq!(directory.entry(-1).err(), Some(LibCZIApiError::IndexOutOfRange));
}

#[test]
fn fewer_places_than_entries_cannot_be_declared() {
    let mut directory = SubBlockDirectory::new();
    assert_eq!(directory.push(full(None, 0, 0, 0, 1, 1, None)), Ok(()));
    assert_eq!(directory.push(full(None, 0, 0, 0, 1, 1, None)), Ok(()));
    assert_eq!(directory.declare(1), Err(LibCZIApiError::InvalidArgument));
    assert_eq!(directory.declare(-3), Err(LibCZIApiError::InvalidArgument));
    assert_eq!(directory.declared_count(), 2);
    assert_eq!(directory.declare(2), Ok(()));
}

#[test]
fn entries_that_are_not_admissible_are_refused() {
    let mut directory = SubBlockDirectory::new();
    let negative = full(None, 0, 0, 0, -1, 5, None);
    assert!(!negative.is_admissible());
    assert!(!directory.accepts(&negative));
    assert_eq!(directory.push(negative), Err(LibCZIApiError::InvalidArgument));
    let mut unknown = full(None, 0, 0, 0, 1, 1, None);
    unknown.coordinate = Coordinate::new(0x400, [0; 9]);
    assert_eq!(directory.push(unknown), Err(LibCZIApiError::InvalidArgument));
    let mut marked = full(None, 0, 0, 0, 1, 1, None);
    marked.m_index_valid = true;
    marked.m_index = NO_M_INDEX;
    assert_eq!(directory.push(marked), Err(LibCZIApiError::InvalidArgument));
    assert_eq!(directory.count(), 0);
}

#[test]
fn entries_whose_figures_would_not_fit_are_refused() {
    let mut directory = SubBlockDirectory::new();
    assert_eq!(directory.push(full(None, i32::MIN, i32::MIN, 0, 10, 10, None)), Ok(()));
    let far = full(None, -2, i32::MAX - 10, 0, 10, 10, None);
    assert!(!directory.accepts(&far));
    assert_eq!(directory.push(far), Err(LibCZIApiError::InvalidArgument));
    let near = full(None, -2, -11, 0, 10, 10, None);
    assert!(directory.accepts(&near));
    assert_eq!(directory.push(near), Ok(()));
    assert_eq!(
        directory.push(full(None, -1, 0, 0, 1, 1, None)),
        Err(LibCZIApiError::InvalidArgument)
    );
    assert_eq!(
        directory.push(full(None, i32::MAX, -20, 0, 1, 1, None)),
        Err(LibCZIApiError::InvalidArgument)
    );
    let statistics = directory.get_statistics_simple();
    assert_eq!(statistics.get_sub_block_count(), 2);
    assert_eq!(
        statistics.get_bounding_box(),
        IntRect::new(i32::MIN, 0, i32::MAX, 10)
    );
    assert_eq!(
        statistics.get_dim_bounds().try_get(Dimension::C),
        Some(Interval { start: i32::MIN, size: i32::MAX })
    );
}

#[test]
fn entries_stand_for_the_same_sub_block_by_place_m_index_and_rectangle() {
    let mut directory = SubBlockDirectory::new();
    let first = full(Some(1), 2, 10, 20, 30, 40, Some(5));
    assert_eq!(directory.push(first), Ok(()));
    let mut same = first;
    same.file_position = 999;
    same.pixel_type = 3;
    assert!(first.same_identity(&same));
    assert!(directory.contains_identity(&same));
    assert!(!directory.contains_identity(&full(Some(1), 2, 10, 20, 30, 41, Some(5))));
    assert!(!directory.contains_identity(&full(Some(1), 2, 10, 20, 30, 40, Some(6))));
    assert!(!directory.contains_identity(&full(Some(1), 2, 10, 20, 30, 40, None)));
    assert!(!directory.contains_identity(&full(Some(2), 2, 10, 20, 30, 40, Some(5))));
    assert!(!directory.contains_identity(&full(None, 2, 10, 20, 30, 40, Some(5))));
}

#[test]
fn plain_figures_keep_what_they_are_given() {
    let mut boxes = BoundingBoxes::new(3, IntRect::new(1, 2, 3, 4), IntRect::new(5, 6, 7, 8));
    assert_eq!(boxes.get_scene_index(), 3);
    assert_eq!(boxes.get_bounding_box(), IntRect::new(1, 2, 3, 4));
    assert_eq!(boxes.get_bounding_box_layer0_only(), IntRect::new(5, 6, 7, 8));
    boxes.set_scene_index(4);
    boxes.set_bounding_box(IntRect::new(0, 0, 1, 1));
    boxes.set_bounding_box_layer0_only(IntRect::new(0, 0, 2, 2));
    assert_eq!(boxes.get_scene_index(), 4);
    assert_eq!(boxes.get_bounding_box(), IntRect::new(0, 0, 1, 1));
    assert_eq!(boxes.get_bounding_box_layer0_only(), IntRect::new(0, 0, 2, 2));
    let bounds = DimBounds::new(1, [0; 9], [2, 0, 0, 0, 0, 0, 0, 0, 0]);
    let mut statistics = SubBlockStatistics::new(
        5,
        1,
        4,
        IntRect::new(0, 0, 10, 10),
        IntRect::new(0, 0, 5, 5),
        bounds,
    );
    assert_eq!(statistics.get_sub_block_count(), 5);
    assert_eq!(statistics.get_min_m_index(), 1);
    assert_eq!(statistics.get_max_m_index(), 4);
    assert_eq!(statistics.get_bounding_box(), IntRect::new(0, 0, 10, 10));
    assert_eq!(statistics.get_bounding_box_layer0(), IntRect::new(0, 0, 5, 5));
    assert_eq!(statistics.get_dim_bounds().get_size()[0], 2);
    statistics.set_sub_block_count(6);
    statistics.set_min_m_index(-1);
    statistics.set_max_m_index(9);
    statistics.set_bounding_box(IntRect::new(1, 1, 1, 1));
    statistics.set_bounding_box_layer0(IntRect::new(2, 2, 2, 2));
    statistics.set_dim_bounds(DimBounds::new(2, [7; 9], [8; 9]));
    assert_eq!(statistics.get_sub_block_count(), 6);
    assert_eq!(statistics.get_min_m_index(), -1);
    assert_eq!(statistics.get_max_m_index(), 9);
    assert_eq!(statistics.get_bounding_box(), IntRect::new(1, 1, 1, 1));
    assert_eq!(statistics.get_bounding_box_layer0(), IntRect::new(2, 2, 2, 2));
    assert_eq!(statistics.get_dim_bounds().get_dimensions_valid(), 2);
}
