//! The figures that describe a whole document: how many sub-blocks it has,
//! what area they cover, and which range each dimension spans.

use crate::coordinate::{DimBounds, Interval};
use crate::dimension::Dimension;
use crate::geometry::{
    hull_contains, hull_fits, hull_of, hull_rect, join_hulls, lemma_contained_hull_fits,
    lemma_hull_contains_is_order, lemma_hull_of_is_least, Extent, IntRect,
};
use crate::subblock::SubBlockDirectoryEntry;
use vstd::prelude::*;

verus! {

/// The area that the sub-blocks of one scene cover.
#[derive(Clone, Copy, Debug)]
pub struct BoundingBoxes {
    /// The value of the scene dimension that these boxes belong to.
    pub scene_index: i32,
    /// The smallest rectangle that holds every sub-block of the scene.
    pub bounding_box: IntRect,
    /// The same, of the sub-blocks at full resolution only.
    pub bounding_box_layer0_only: IntRect,
}

/// The figures of a document, without the break-down by scene.
#[derive(Clone, Copy, Debug)]
pub struct SubBlockStatistics {
    /// How many sub-blocks the document has.
    pub sub_block_count: i32,
    /// The smallest M-index among the sub-blocks that have one. Where the
    /// smallest is above the largest, no sub-block has an M-index.
    pub min_m_index: i32,
    /// The largest M-index among the sub-blocks that have one.
    pub max_m_index: i32,
    /// The smallest rectangle that holds every sub-block.
    pub bounding_box: IntRect,
    /// The same, of the sub-blocks at full resolution only.
    pub bounding_box_layer0: IntRect,
    /// The range that each dimension spans.
    pub dim_bounds: DimBounds,
}

/// The figures of a document with the break-down by scene. The list of
/// scenes may be cut short to the room the caller offered; how many scenes
/// there are is known from the count handed back beside it.
#[derive(Debug)]
pub struct SubBlockStatisticsEx {
    pub sub_block_count: i32,
    pub min_m_index: i32,
    pub max_m_index: i32,
    pub bounding_box: IntRect,
    pub bounding_box_layer0: IntRect,
    pub dim_bounds: DimBounds,
    /// How many scenes `per_scenes_bounding_boxes` holds.
    pub number_of_per_scenes_bounding_boxes: i32,
    /// The boxes of the scenes, by rising scene index.
    pub per_scenes_bounding_boxes: Vec<BoundingBoxes>,
}

impl BoundingBoxes {
    pub fn new(scene_index: i32, bounding_box: IntRect, bounding_box_layer0_only: IntRect) -> (boxes:
        Self)
        ensures
            boxes == (BoundingBoxes { scene_index, bounding_box, bounding_box_layer0_only }),
    {
        BoundingBoxes { scene_index, bounding_box, bounding_box_layer0_only }
    }

    pub fn get_scene_index(&self) -> (scene_index: i32)
        ensures
            scene_index == self.scene_index,
    {
        self.scene_index
    }

    pub fn get_bounding_box(&self) -> (bounding_box: IntRect)
        ensures
            bounding_box == self.bounding_box,
    {
        self.bounding_box
    }

    pub fn get_bounding_box_layer0_only(&self) -> (bounding_box_layer0_only: IntRect)
        ensures
            bounding_box_layer0_only == self.bounding_box_layer0_only,
    {
        self.bounding_box_layer0_only
    }

    pub fn set_scene_index(&mut self, scene_index: i32)
        ensures
            *final(self) == (BoundingBoxes { scene_index, ..*old(self) }),
    {
        self.scene_index = scene_index;
    }

    pub fn set_bounding_box(&mut self, bounding_box: IntRect)
        ensures
            *final(self) == (BoundingBoxes { bounding_box, ..*old(self) }),
    {
        self.bounding_box = bounding_box;
    }

    pub fn set_bounding_box_layer0_only(&mut self, bounding_box_layer0_only: IntRect)
        ensures
            *final(self) == (BoundingBoxes { bounding_box_layer0_only, ..*old(self) }),
    {
        self.bounding_box_layer0_only = bounding_box_layer0_only;
    }
}

impl SubBlockStatistics {
    pub fn new(
        sub_block_count: i32,
        min_m_index: i32,
        max_m_index: i32,
        bounding_box: IntRect,
        bounding_box_layer0: IntRect,
        dim_bounds: DimBounds,
    ) -> (statistics: Self)
        ensures
            statistics == (SubBlockStatistics {
                sub_block_count,
                min_m_index,
                max_m_index,
                bounding_box,
                bounding_box_layer0,
                dim_bounds,
            }),
    {
        SubBlockStatistics {
            sub_block_count,
            min_m_index,
            max_m_index,
            bounding_box,
            bounding_box_layer0,
            dim_bounds,
        }
    }

    /// Whether at least one sub-block has an M-index.
    pub open spec fn has_m_index_spec(self) -> bool {
        self.min_m_index <= self.max_m_index
    }

    /// Whether at least one sub-block has an M-index.
    pub fn has_m_index(&self) -> (has: bool)
        ensures
            has == self.has_m_index_spec(),
    {
        self.min_m_index <= self.max_m_index
    }

    pub fn get_sub_block_count(&self) -> (sub_block_count: i32)
        ensures
            sub_block_count == self.sub_block_count,
    {
        self.sub_block_count
    }

    pub fn get_min_m_index(&self) -> (min_m_index: i32)
        ensures
            min_m_index == self.min_m_index,
    {
        self.min_m_index
    }

    pub fn get_max_m_index(&self) -> (max_m_index: i32)
        ensures
            max_m_index == self.max_m_index,
    {
        self.max_m_index
    }

    pub fn get_bounding_box(&self) -> (bounding_box: IntRect)
        ensures
            bounding_box == self.bounding_box,
    {
        self.bounding_box
    }

    pub fn get_bounding_box_layer0(&self) -> (bounding_box_layer0: IntRect)
        ensures
            bounding_box_layer0 == self.bounding_box_layer0,
    {
        self.bounding_box_layer0
    }

    pub fn get_dim_bounds(&self) -> (dim_bounds: DimBounds)
        ensures
            dim_bounds == self.dim_bounds,
    {
        self.dim_bounds
    }

    pub fn set_sub_block_count(&mut self, sub_block_count: i32)
        ensures
            *final(self) == (SubBlockStatistics { sub_block_count, ..*old(self) }),
    {
        self.sub_block_count = sub_block_count;
    }

    pub fn set_min_m_index(&mut self, min_m_index: i32)
        ensures
            *final(self) == (SubBlockStatistics { min_m_index, ..*old(self) }),
    {
        self.min_m_index = min_m_index;
    }

    pub fn set_max_m_index(&mut self, max_m_index: i32)
        ensures
            *final(self) == (SubBlockStatistics { max_m_index, ..*old(self) }),
    {
        self.max_m_index = max_m_index;
    }

    pub fn set_bounding_box(&mut self, bounding_box: IntRect)
        ensures
            *final(self) == (SubBlockStatistics { bounding_box, ..*old(self) }),
    {
        self.bounding_box = bounding_box;
    }

    pub fn set_bounding_box_layer0(&mut self, bounding_box_layer0: IntRect)
        ensures
            *final(self) == (SubBlockStatistics { bounding_box_layer0, ..*old(self) }),
    {
        self.bounding_box_layer0 = bounding_box_layer0;
    }

    pub fn set_dim_bounds(&mut self, dim_bounds: DimBounds)
        ensures
            *final(self) == (SubBlockStatistics { dim_bounds, ..*old(self) }),
    {
        self.dim_bounds = dim_bounds;
    }
}

impl SubBlockStatisticsEx {
    /// The figures without the break-down by scene.
    pub open spec fn simple_spec(self) -> SubBlockStatistics {
        SubBlockStatistics {
            sub_block_count: self.sub_block_count,
            min_m_index: self.min_m_index,
            max_m_index: self.max_m_index,
            bounding_box: self.bounding_box,
            bounding_box_layer0: self.bounding_box_layer0,
            dim_bounds: self.dim_bounds,
        }
    }

    /// The figures without the break-down by scene.
    pub fn get_simple(&self) -> (statistics: SubBlockStatistics)
        ensures
            statistics == self.simple_spec(),
    {
        SubBlockStatistics {
            sub_block_count: self.sub_block_count,
            min_m_index: self.min_m_index,
            max_m_index: self.max_m_index,
            bounding_box: self.bounding_box,
            bounding_box_layer0: self.bounding_box_layer0,
            dim_bounds: self.dim_bounds,
        }
    }

    /// How many scenes the list holds.
    pub fn get_number_of_per_scenes_bounding_boxes(&self) -> (number: i32)
        ensures
            number == self.number_of_per_scenes_bounding_boxes,
    {
        self.number_of_per_scenes_bounding_boxes
    }

    /// The boxes of the scene at place `index` of the list, or `None` past
    /// its end.
    pub fn get_per_scene_bounding_boxes(&self, index: usize) -> (boxes: Option<BoundingBoxes>)
        ensures
            boxes == if index < self.per_scenes_bounding_boxes@.len() {
                Some(self.per_scenes_bounding_boxes@[index as int])
            } else {
                None
            },
    {
        if index < self.per_scenes_bounding_boxes.len() {
            Some(self.per_scenes_bounding_boxes[index])
        } else {
            None
        }
    }
}

/// Which sub-blocks a figure is drawn from.
pub enum Selection {
    /// Every sub-block.
    All,
    /// The sub-blocks at full resolution.
    Layer0,
    /// The sub-blocks of one scene.
    Scene(i32),
    /// The sub-blocks of one scene at full resolution.
    SceneLayer0(i32),
}

impl Selection {
    /// Whether the selection takes the entry.
    pub open spec fn selects(self, entry: SubBlockDirectoryEntry) -> bool {
        match self {
            Selection::All => true,
            Selection::Layer0 => entry.is_layer0_spec(),
            Selection::Scene(scene) => entry.scene_spec() == Some(scene),
            Selection::SceneLayer0(scene) => entry.scene_spec() == Some(scene)
                && entry.is_layer0_spec(),
        }
    }
}

/// The smallest area that holds the rectangle of every selected entry.
pub open spec fn hull_where(entries: Seq<SubBlockDirectoryEntry>, selection: Selection) -> Option<
    Extent,
>
    decreases entries.len(),
{
    if entries.len() == 0 {
        None
    } else {
        let before = hull_where(entries.drop_last(), selection);
        if selection.selects(entries.last()) {
            join_hulls(before, entries.last().logical_rect.hull())
        } else {
            before
        }
    }
}

/// The smallest M-index among the entries that have one, and the largest
/// 32-bit number where none has.
pub open spec fn min_m_index(entries: Seq<SubBlockDirectoryEntry>) -> int
    decreases entries.len(),
{
    if entries.len() == 0 {
        i32::MAX as int
    } else {
        let before = min_m_index(entries.drop_last());
        if entries.last().m_index_valid && entries.last().m_index < before {
            entries.last().m_index as int
        } else {
            before
        }
    }
}

/// The largest M-index among the entries that have one, and the smallest
/// 32-bit number where none has.
pub open spec fn max_m_index(entries: Seq<SubBlockDirectoryEntry>) -> int
    decreases entries.len(),
{
    if entries.len() == 0 {
        i32::MIN as int
    } else {
        let before = max_m_index(entries.drop_last());
        if entries.last().m_index_valid && entries.last().m_index > before {
            entries.last().m_index as int
        } else {
            before
        }
    }
}

/// The values that a dimension takes, from the lowest to the highest.
pub struct ValueRange {
    pub low: int,
    pub high: int,
}

impl ValueRange {
    /// The range widened to hold `value`.
    pub open spec fn with(self, value: int) -> ValueRange {
        ValueRange {
            low: if value < self.low {
                value
            } else {
                self.low
            },
            high: if value > self.high {
                value
            } else {
                self.high
            },
        }
    }

    /// Whether the number of values from the lowest to the highest is a
    /// 32-bit number.
    pub open spec fn fits(self) -> bool {
        self.high - self.low + 1 <= i32::MAX
    }

    /// The range as a start and a size: it starts at the lowest value and
    /// ends behind the highest.
    pub open spec fn interval(self) -> Interval {
        Interval { start: self.low as i32, size: (self.high - self.low + 1) as i32 }
    }
}

/// A range widened to hold the value of one more entry, where the entry has
/// the dimension.
pub open spec fn range_with(range: Option<ValueRange>, value: Option<i32>) -> Option<ValueRange> {
    match value {
        None => range,
        Some(found) => match range {
            None => Some(ValueRange { low: found as int, high: found as int }),
            Some(so_far) => Some(so_far.with(found as int)),
        },
    }
}

/// The range of the values that the entries have in a dimension, or `None`
/// where no entry has the dimension.
pub open spec fn range_of(entries: Seq<SubBlockDirectoryEntry>, dimension: Dimension) -> Option<
    ValueRange,
>
    decreases entries.len(),
{
    if entries.len() == 0 {
        None
    } else {
        range_with(
            range_of(entries.drop_last(), dimension),
            entries.last().coordinate.value_of(dimension),
        )
    }
}

/// Whether the range of a dimension can be shown as a start and a size.
pub open spec fn range_fits(range: Option<ValueRange>) -> bool {
    match range {
        None => true,
        Some(found) => found.fits(),
    }
}

/// The range of a dimension as a start and a size.
pub open spec fn range_interval(range: Option<ValueRange>) -> Option<Interval> {
    match range {
        None => None,
        Some(found) => Some(found.interval()),
    }
}

/// Where `scene` stands, or would stand, in a rising list of scenes: the
/// number of scenes at the start of the list that are below it.
pub open spec fn lower_bound(scenes: Seq<i32>, scene: i32) -> int
    decreases scenes.len(),
{
    if scenes.len() == 0 || scenes[0] >= scene {
        0
    } else {
        1 + lower_bound(scenes.drop_first(), scene)
    }
}

/// A rising list of scenes with `scene` put in, unless it is there already.
pub open spec fn with_scene(scenes: Seq<i32>, scene: i32) -> Seq<i32> {
    let place = lower_bound(scenes, scene);
    if place < scenes.len() && scenes[place] == scene {
        scenes
    } else {
        scenes.insert(place, scene)
    }
}

/// The scenes that the entries belong to, each once, in rising order.
pub open spec fn scene_values(entries: Seq<SubBlockDirectoryEntry>) -> Seq<i32>
    decreases entries.len(),
{
    if entries.len() == 0 {
        Seq::empty()
    } else {
        let before = scene_values(entries.drop_last());
        match entries.last().scene_spec() {
            None => before,
            Some(scene) => with_scene(before, scene),
        }
    }
}

/// The boxes of one scene.
pub open spec fn scene_boxes(entries: Seq<SubBlockDirectoryEntry>, scene: i32) -> BoundingBoxes {
    BoundingBoxes {
        scene_index: scene,
        bounding_box: hull_rect(hull_where(entries, Selection::Scene(scene))),
        bounding_box_layer0_only: hull_rect(hull_where(entries, Selection::SceneLayer0(scene))),
    }
}

/// The boxes of every scene, by rising scene index.
pub open spec fn all_scene_boxes(entries: Seq<SubBlockDirectoryEntry>) -> Seq<BoundingBoxes> {
    Seq::new(
        scene_values(entries).len(),
        |place: int| scene_boxes(entries, scene_values(entries)[place]),
    )
}

/// Whether every figure of the entries is a 32-bit number: their count, the
/// size of the area they cover, and the number of values in each dimension.
pub open spec fn statistics_fit(entries: Seq<SubBlockDirectoryEntry>) -> bool {
    &&& entries.len() <= i32::MAX
    &&& hull_fits(hull_where(entries, Selection::All))
    &&& forall|dimension: Dimension| range_fits(#[trigger] range_of(entries, dimension))
}

/// Whether `statistics` holds the figures of the entries: their count, the
/// range of their M-indices, the area that all of them cover, the area that
/// those at full resolution cover, and for each dimension that an entry has,
/// its lowest value as the start and the number of values up to its highest
/// as the size.
pub open spec fn is_statistics_of(
    statistics: SubBlockStatistics,
    entries: Seq<SubBlockDirectoryEntry>,
) -> bool {
    &&& statistics.sub_block_count == entries.len()
    &&& statistics.min_m_index == min_m_index(entries)
    &&& statistics.max_m_index == max_m_index(entries)
    &&& statistics.bounding_box == hull_rect(hull_where(entries, Selection::All))
    &&& statistics.bounding_box_layer0 == hull_rect(hull_where(entries, Selection::Layer0))
    &&& statistics.dim_bounds.dimensions_valid <= crate::coordinate::ALL_DIMENSIONS
    &&& forall|dimension: Dimension|
        statistics.dim_bounds.interval_of(dimension) == range_interval(
            #[trigger] range_of(entries, dimension),
        )
}

/// The hull of a selection holds the rectangle of every selected entry, and
/// every hull that holds each of those holds it. Its corners are in order,
/// and its left and top are 32-bit numbers. It is no area at all exactly
/// when no selected entry has a valid rectangle.
pub proof fn lemma_hull_where_is_least(
    entries: Seq<SubBlockDirectoryEntry>,
    selection: Selection,
    bound: Option<Extent>,
)
    ensures
        forall|i: int|
            0 <= i < entries.len() && selection.selects(#[trigger] entries[i]) ==> hull_contains(
                hull_where(entries, selection),
                entries[i].logical_rect.hull(),
            ),
        (forall|i: int|
            0 <= i < entries.len() && selection.selects(#[trigger] entries[i]) ==> hull_contains(
                bound,
                entries[i].logical_rect.hull(),
            )) ==> hull_contains(bound, hull_where(entries, selection)),
        hull_where(entries, selection) matches Some(e) ==> e.left <= e.right && e.top <= e.bottom
            && i32::MIN <= e.left <= i32::MAX && i32::MIN <= e.top <= i32::MAX,
        hull_where(entries, selection) is None <==> (forall|i: int|
            0 <= i < entries.len() && selection.selects(#[trigger] entries[i])
                ==> !entries[i].logical_rect.is_valid_spec()),
    decreases entries.len(),
{
    if entries.len() > 0 {
        let front = entries.drop_last();
        lemma_hull_where_is_least(front, selection, bound);
        assert forall|i: int|
            0 <= i < entries.len() && selection.selects(#[trigger] entries[i]) implies hull_contains(
            hull_where(entries, selection),
            entries[i].logical_rect.hull(),
        ) by {
            if i < front.len() {
                assert(front[i] == entries[i]);
            }
        }
        if forall|i: int|
            0 <= i < entries.len() && selection.selects(#[trigger] entries[i]) ==> hull_contains(
                bound,
                entries[i].logical_rect.hull(),
            ) {
            assert forall|i: int|
                0 <= i < front.len() && selection.selects(#[trigger] front[i]) implies hull_contains(
                bound,
                front[i].logical_rect.hull(),
            ) by {
                assert(front[i] == entries[i]);
            }
            if selection.selects(entries.last()) {
                assert(hull_contains(bound, entries[entries.len() - 1].logical_rect.hull()));
            }
        }
        if hull_where(entries, selection) is None {
            assert forall|i: int|
                0 <= i < entries.len() && selection.selects(
                    #[trigger] entries[i],
                ) implies !entries[i].logical_rect.is_valid_spec() by {
                if i < front.len() {
                    assert(front[i] == entries[i]);
                }
            }
        } else {
            if hull_where(front, selection) is Some {
                let i = choose|i: int|
                    0 <= i < front.len() && selection.selects(#[trigger] front[i])
                        && front[i].logical_rect.is_valid_spec();
                assert(front[i] == entries[i]);
            } else {
                assert(selection.selects(entries[entries.len() - 1]));
            }
        }
    }
}

/// A selection that takes no more than another has its hull inside the
/// other's, and fits where the other's fits.
pub proof fn lemma_hull_where_narrower(
    entries: Seq<SubBlockDirectoryEntry>,
    narrow: Selection,
    wide: Selection,
)
    requires
        forall|entry: SubBlockDirectoryEntry| narrow.selects(entry) ==> wide.selects(entry),
    ensures
        hull_contains(hull_where(entries, wide), hull_where(entries, narrow)),
        hull_fits(hull_where(entries, wide)) ==> hull_fits(hull_where(entries, narrow)),
{
    lemma_hull_where_is_least(entries, wide, None);
    lemma_hull_where_is_least(entries, narrow, hull_where(entries, wide));
    if hull_fits(hull_where(entries, wide)) {
        lemma_contained_hull_fits(hull_where(entries, wide), hull_where(entries, narrow));
    }
}

/// Whether a list of scenes rises strictly.
pub open spec fn rises(scenes: Seq<i32>) -> bool {
    forall|i: int, j: int| 0 <= i < j < scenes.len() ==> scenes[i] < scenes[j]
}

/// The place that `lower_bound` gives lies in the list or at its end, every
/// scene before it is below `scene`, and the scene at it, if there is one,
/// is not.
pub proof fn lemma_lower_bound_splits(scenes: Seq<i32>, scene: i32)
    ensures
        0 <= lower_bound(scenes, scene) <= scenes.len(),
        forall|j: int| 0 <= j < lower_bound(scenes, scene) ==> scenes[j] < scene,
        lower_bound(scenes, scene) == scenes.len() || scenes[lower_bound(scenes, scene)] >= scene,
    decreases scenes.len(),
{
    if scenes.len() == 0 || scenes[0] >= scene {
    } else {
        let rest = scenes.drop_first();
        lemma_lower_bound_splits(rest, scene);
        let place = lower_bound(rest, scene);
        assert forall|j: int| 0 <= j < 1 + place implies scenes[j] < scene by {
            if j > 0 {
                assert(rest[j - 1] == scenes[j]);
            }
        }
        if place < rest.len() {
            assert(rest[place] == scenes[place + 1]);
        }
    }
}

/// A place that splits the list as `lower_bound` does is the place that
/// `lower_bound` gives.
pub proof fn lemma_lower_bound_is(scenes: Seq<i32>, scene: i32, place: int)
    requires
        0 <= place <= scenes.len(),
        forall|j: int| 0 <= j < place ==> scenes[j] < scene,
        place == scenes.len() || scenes[place] >= scene,
    ensures
        lower_bound(scenes, scene) == place,
    decreases place,
{
    if place > 0 {
        let rest = scenes.drop_first();
        assert(scenes[0] < scene);
        assert forall|j: int| 0 <= j < place - 1 implies rest[j] < scene by {
            assert(rest[j] == scenes[j + 1]);
        }
        if place - 1 < rest.len() {
            assert(rest[place - 1] == scenes[place]);
        }
        lemma_lower_bound_is(rest, scene, place - 1);
    }
}

/// Putting a scene into a rising list keeps the list rising, adds the scene
/// and nothing else, and makes the list longer by one at most.
pub proof fn lemma_with_scene(scenes: Seq<i32>, scene: i32)
    requires
        rises(scenes),
    ensures
        rises(with_scene(scenes, scene)),
        forall|other: i32|
            with_scene(scenes, scene).contains(other) <==> (other == scene || scenes.contains(
                other,
            )),
        scenes.len() <= with_scene(scenes, scene).len() <= scenes.len() + 1,
{
    lemma_lower_bound_splits(scenes, scene);
    let place = lower_bound(scenes, scene);
    let after = with_scene(scenes, scene);
    if place < scenes.len() && scenes[place] == scene {
        assert(scenes.contains(scene));
    } else {
        assert(after == scenes.insert(place, scene));
        assert forall|i: int, j: int| 0 <= i < j < after.len() implies after[i] < after[j] by {
            if j < place {
            } else if j == place {
            } else if i < place {
                assert(after[j] == scenes[j - 1]);
                if j - 1 > place {
                    assert(scenes[place] < scenes[j - 1]);
                }
            } else if i == place {
                assert(after[j] == scenes[j - 1]);
                if j - 1 > place {
                    assert(scenes[place] < scenes[j - 1]);
                }
            } else {
                assert(after[i] == scenes[i - 1]);
                assert(after[j] == scenes[j - 1]);
            }
        }
        assert forall|other: i32|
            after.contains(other) <==> (other == scene || scenes.contains(other)) by {
            if after.contains(other) {
                let k = choose|k: int| 0 <= k < after.len() && after[k] == other;
                if k < place {
                    assert(scenes[k] == other);
                } else if k > place {
                    assert(scenes[k - 1] == other);
                }
            }
            if other == scene {
                assert(after[place] == other);
            }
            if scenes.contains(other) {
                let k = choose|k: int| 0 <= k < scenes.len() && scenes[k] == other;
                if k < place {
                    assert(after[k] == other);
                } else {
                    assert(after[k + 1] == other);
                }
            }
        }
    }
}

/// The list of scenes rises strictly, holds a scene exactly when an entry
/// belongs to it, and is no longer than the list of entries.
pub proof fn lemma_scene_values(entries: Seq<SubBlockDirectoryEntry>)
    ensures
        rises(scene_values(entries)),
        forall|scene: i32|
            scene_values(entries).contains(scene) <==> (exists|i: int|
                0 <= i < entries.len() && (#[trigger] entries[i]).scene_spec() == Some(scene)),
        scene_values(entries).len() <= entries.len(),
    decreases entries.len(),
{
    if entries.len() > 0 {
        let front = entries.drop_last();
        let last = entries.last();
        lemma_scene_values(front);
        let before = scene_values(front);
        match last.scene_spec() {
            None => {},
            Some(found) => {
                lemma_with_scene(before, found);
            },
        }
        assert forall|scene: i32|
            scene_values(entries).contains(scene) <==> (exists|i: int|
                0 <= i < entries.len() && (#[trigger] entries[i]).scene_spec() == Some(
                    scene,
                )) by {
            if scene_values(entries).contains(scene) {
                if before.contains(scene) {
                    let i = choose|i: int|
                        0 <= i < front.len() && (#[trigger] front[i]).scene_spec() == Some(scene);
                    assert(entries[i] == front[i]);
                } else {
                    assert(entries[entries.len() - 1].scene_spec() == Some(scene));
                }
            }
            if exists|i: int|
                0 <= i < entries.len() && (#[trigger] entries[i]).scene_spec() == Some(scene) {
                let i = choose|i: int|
                    0 <= i < entries.len() && (#[trigger] entries[i]).scene_spec() == Some(scene);
                if i < front.len() {
                    assert(front[i] == entries[i]);
                    assert(before.contains(scene));
                }
            }
        }
    }
}

/// The rectangles that hold all of each scene, by rising scene index.
pub open spec fn scene_rects(entries: Seq<SubBlockDirectoryEntry>) -> Seq<IntRect> {
    Seq::new(
        scene_values(entries).len(),
        |place: int| all_scene_boxes(entries)[place].bounding_box,
    )
}

/// The rectangles that hold the full-resolution part of each scene, by
/// rising scene index.
pub open spec fn scene_rects_layer0(entries: Seq<SubBlockDirectoryEntry>) -> Seq<IntRect> {
    Seq::new(
        scene_values(entries).len(),
        |place: int| all_scene_boxes(entries)[place].bounding_box_layer0_only,
    )
}

/// The rectangle that stands for a hull that fits covers the hull again.
pub proof fn lemma_hull_rect_round_trip(hull: Option<Extent>)
    requires
        hull_fits(hull),
    ensures
        hull_rect(hull).hull() == hull,
{
}

/// The boxes of the scenes, joined, are the box of the whole document if and
/// only if every sub-block without a scene lies within the joined boxes of
/// the scenes. So they are whenever every sub-block belongs to a scene.
pub proof fn lemma_scene_boxes_join_to_whole(entries: Seq<SubBlockDirectoryEntry>)
    requires
        statistics_fit(entries),
    ensures
        hull_rect(hull_of(scene_rects(entries))) == hull_rect(hull_where(entries, Selection::All))
            <==> (forall|i: int|
            0 <= i < entries.len() && (#[trigger] entries[i]).scene_spec() is None ==> hull_contains(
                hull_of(scene_rects(entries)),
                entries[i].logical_rect.hull(),
            )),
        (forall|i: int| 0 <= i < entries.len() ==> (#[trigger] entries[i]).scene_spec() is Some)
            ==> hull_rect(hull_of(scene_rects(entries))) == hull_rect(
            hull_where(entries, Selection::All),
        ),
{
    let rects = scene_rects(entries);
    let joined = hull_of(rects);
    let whole = hull_where(entries, Selection::All);
    let values = scene_values(entries);
    lemma_scene_values(entries);
    lemma_hull_where_is_least(entries, Selection::All, joined);
    lemma_hull_of_is_least(rects, whole);
    assert forall|k: int| 0 <= k < rects.len() implies #[trigger] rects[k].hull() == hull_where(
        entries,
        Selection::Scene(values[k]),
    ) && hull_contains(whole, rects[k].hull()) by {
        lemma_hull_where_narrower(entries, Selection::Scene(values[k]), Selection::All);
        lemma_hull_rect_round_trip(hull_where(entries, Selection::Scene(values[k])));
    }
    assert(hull_contains(whole, joined));
    assert forall|i: int|
        0 <= i < entries.len() && (#[trigger] entries[i]).scene_spec() is Some implies hull_contains(
        joined,
        entries[i].logical_rect.hull(),
    ) by {
        let scene = entries[i].scene_spec().unwrap();
        assert(values.contains(scene));
        let k = choose|k: int| 0 <= k < values.len() && values[k] == scene;
        lemma_hull_where_is_least(entries, Selection::Scene(scene), None);
        assert(Selection::Scene(scene).selects(entries[i]));
        assert(hull_contains(rects[k].hull(), entries[i].logical_rect.hull()));
        assert(hull_contains(joined, rects[k].hull()));
        lemma_hull_contains_is_order(joined, rects[k].hull(), entries[i].logical_rect.hull());
    }
    if forall|i: int|
        0 <= i < entries.len() && (#[trigger] entries[i]).scene_spec() is None ==> hull_contains(
            joined,
            entries[i].logical_rect.hull(),
        ) {
        assert forall|i: int|
            0 <= i < entries.len() && Selection::All.selects(#[trigger] entries[i]) implies hull_contains(
            joined,
            entries[i].logical_rect.hull(),
        ) by {
            if entries[i].scene_spec() is Some {
            }
        }
        assert(hull_contains(joined, whole));
        lemma_hull_contains_is_order(joined, whole, joined);
        assert(joined == whole);
    }
    lemma_contained_hull_fits(whole, joined);
    lemma_hull_rect_round_trip(joined);
    lemma_hull_rect_round_trip(whole);
    if hull_rect(joined) == hull_rect(whole) {
        assert(joined == whole);
        assert forall|i: int|
            0 <= i < entries.len() && (#[trigger] entries[i]).scene_spec() is None implies hull_contains(
            joined,
            entries[i].logical_rect.hull(),
        ) by {
            assert(Selection::All.selects(entries[i]));
        }
    }
}

/// Figures that fit with an entry fit without it.
pub proof fn lemma_fit_without_last(
    entries: Seq<SubBlockDirectoryEntry>,
    entry: SubBlockDirectoryEntry,
)
    requires
        statistics_fit(entries.push(entry)),
    ensures
        statistics_fit(entries),
{
    let after = entries.push(entry);
    assert(after.drop_last() == entries);
    assert(after.last() == entry);
    lemma_hull_where_is_least(entries, Selection::All, None);
    lemma_hull_where_is_least(after, Selection::All, None);
    lemma_contained_hull_fits(
        hull_where(after, Selection::All),
        hull_where(entries, Selection::All),
    );
    assert forall|dimension: Dimension| range_fits(#[trigger] range_of(entries, dimension)) by {
        assert(range_fits(range_of(after, dimension)));
    }
}

/// Figures that fit for a list of entries fit for every start of the list.
pub proof fn lemma_fit_prefix(entries: Seq<SubBlockDirectoryEntry>, count: int)
    requires
        statistics_fit(entries),
        0 <= count <= entries.len(),
    ensures
        statistics_fit(entries.take(count)),
    decreases entries.len() - count,
{
    if count == entries.len() {
        assert(entries.take(count) == entries);
    } else {
        lemma_fit_prefix(entries, count + 1);
        assert(entries.take(count + 1) == entries.take(count).push(entries[count]));
        lemma_fit_without_last(entries.take(count), entries[count]);
    }
}

/// The boxes of the full-resolution parts of the scenes, joined, are the
/// box of the full-resolution part of the whole document if and only if
/// every sub-block at full resolution without a scene lies within the
/// joined boxes of the scenes.
pub proof fn lemma_scene_boxes_layer0_join_to_whole(entries: Seq<SubBlockDirectoryEntry>)
    requires
        statistics_fit(entries),
    ensures
        hull_rect(hull_of(scene_rects_layer0(entries))) == hull_rect(
            hull_where(entries, Selection::Layer0),
        ) <==> (forall|i: int|
            0 <= i < entries.len() && (#[trigger] entries[i]).scene_spec() is None
                && entries[i].is_layer0_spec() ==> hull_contains(
                hull_of(scene_rects_layer0(entries)),
                entries[i].logical_rect.hull(),
            )),
{
    let rects = scene_rects_layer0(entries);
    let joined = hull_of(rects);
    let whole = hull_where(entries, Selection::Layer0);
    let values = scene_values(entries);
    lemma_scene_values(entries);
    lemma_hull_where_narrower(entries, Selection::Layer0, Selection::All);
    lemma_hull_where_is_least(entries, Selection::Layer0, joined);
    lemma_hull_of_is_least(rects, whole);
    assert forall|k: int| 0 <= k < rects.len() implies #[trigger] rects[k].hull() == hull_where(
        entries,
        Selection::SceneLayer0(values[k]),
    ) && hull_contains(whole, rects[k].hull()) by {
        lemma_hull_where_narrower(entries, Selection::SceneLayer0(values[k]), Selection::All);
        lemma_hull_where_narrower(entries, Selection::SceneLayer0(values[k]), Selection::Layer0);
        lemma_hull_rect_round_trip(hull_where(entries, Selection::SceneLayer0(values[k])));
    }
    assert(hull_contains(whole, joined));
    assert forall|i: int|
        0 <= i < entries.len() && (#[trigger] entries[i]).scene_spec() is Some
            && entries[i].is_layer0_spec() implies hull_contains(
        joined,
        entries[i].logical_rect.hull(),
    ) by {
        let scene = entries[i].scene_spec().unwrap();
        assert(values.contains(scene));
        let k = choose|k: int| 0 <= k < values.len() && values[k] == scene;
        lemma_hull_where_is_least(entries, Selection::SceneLayer0(scene), None);
        assert(Selection::SceneLayer0(scene).selects(entries[i]));
        assert(hull_contains(rects[k].hull(), entries[i].logical_rect.hull()));
        assert(hull_contains(joined, rects[k].hull()));
        lemma_hull_contains_is_order(joined, rects[k].hull(), entries[i].logical_rect.hull());
    }
    if forall|i: int|
        0 <= i < entries.len() && (#[trigger] entries[i]).scene_spec() is None
            && entries[i].is_layer0_spec() ==> hull_contains(
            joined,
            entries[i].logical_rect.hull(),
        ) {
        assert forall|i: int|
            0 <= i < entries.len() && Selection::Layer0.selects(#[trigger] entries[i]) implies hull_contains(
            joined,
            entries[i].logical_rect.hull(),
        ) by {
            if entries[i].scene_spec() is Some {
            }
        }
        assert(hull_contains(joined, whole));
        lemma_hull_contains_is_order(joined, whole, joined);
        assert(joined == whole);
    }
    lemma_contained_hull_fits(whole, joined);
    lemma_hull_rect_round_trip(joined);
    lemma_hull_rect_round_trip(whole);
    if hull_rect(joined) == hull_rect(whole) {
        assert(joined == whole);
        assert forall|i: int|
            0 <= i < entries.len() && (#[trigger] entries[i]).scene_spec() is None
                && entries[i].is_layer0_spec() implies hull_contains(
            joined,
            entries[i].logical_rect.hull(),
        ) by {
            assert(Selection::Layer0.selects(entries[i]));
        }
    }
}

/// The range of a dimension starts at or below where it ends.
pub proof fn lemma_range_is_ordered(entries: Seq<SubBlockDirectoryEntry>, dimension: Dimension)
    ensures
        range_of(entries, dimension) matches Some(range) ==> i32::MIN <= range.low <= range.high
            <= i32::MAX,
    decreases entries.len(),
{
    if entries.len() > 0 {
        lemma_range_is_ordered(entries.drop_last(), dimension);
    }
}

/// The bounds in the figures of a document are valid: they name known
/// dimensions only, and every dimension that they name spans one value at
/// least.
pub proof fn lemma_statistics_bounds_are_valid(
    statistics: SubBlockStatistics,
    entries: Seq<SubBlockDirectoryEntry>,
)
    requires
        is_statistics_of(statistics, entries),
        statistics_fit(entries),
    ensures
        statistics.dim_bounds.is_valid_spec(),
        forall|dimension: Dimension|
            (#[trigger] statistics.dim_bounds.interval_of(dimension)) matches Some(interval)
                ==> interval.size >= 1,
{
    assert forall|dimension: Dimension|
        (#[trigger] statistics.dim_bounds.interval_of(dimension)) is Some implies statistics.dim_bounds.interval_of(
        dimension,
    )->0.size >= 1 by {
        lemma_range_is_ordered(entries, dimension);
        assert(range_fits(range_of(entries, dimension)));
        assert(statistics.dim_bounds.interval_of(dimension) == range_interval(
            range_of(entries, dimension),
        ));
    }
}

} // verus!
