//! The sub-block directory: every sub-block of a document by its place in
//! the order they were added, with the figures of the whole kept up to date.

use crate::coordinate::DimBounds;
use crate::dimension::Dimension;
use crate::error::LibCZIApiError;
use crate::geometry::{ hull_rect, join_hulls, IntRect, Span};
use crate::statistics::{
    all_scene_boxes, is_statistics_of, lemma_hull_where_is_least, lemma_hull_where_narrower,
    lemma_lower_bound_is, lemma_scene_values, max_m_index, min_m_index, range_fits,
    range_of, range_with, scene_values, statistics_fit, with_scene,
    BoundingBoxes, Selection, SubBlockStatistics, SubBlockStatisticsEx, ValueRange, hull_where,
};
use crate::geometry::hull_of;
use crate::statistics::{lemma_fit_prefix, lemma_scene_boxes_join_to_whole, scene_rects};
use crate::subblock::{
    entry_bytes, lemma_entry_round_trip, parse_entry, read_entry, write_entry,
    SubBlockDirectoryEntry, SubBlockInfo,
};
use crate::wire::{get_u32, lemma_u32_field, put_u32, put_zeros, u32_at, u32_bytes, zeros};
use vstd::bytes::lemma_auto_spec_u32_to_from_le_bytes;
use vstd::prelude::*;

verus! {

/// The area of one scene in the making.
#[derive(Clone, Copy, Debug)]
pub struct SceneSpan {
    scene: i32,
    all: Span,
    layer0: Span,
}

/// The sub-blocks of a document in the order of their places, counted
/// from 0.
///
/// A directory may declare more places than it has entries: a place past the
/// last entry, but within the declared count, is valid and empty.
#[derive(Debug)]
pub struct SubBlockDirectory {
    entries: Vec<SubBlockDirectoryEntry>,
    declared_count: usize,
    m_min: i32,
    m_max: i32,
    all: Span,
    layer0: Span,
    dim_any: [bool; 9],
    dim_low: [i32; 9],
    dim_high: [i32; 9],
    scenes: Vec<SceneSpan>,
}

/// The range that the three arrays keep for the dimension at `bit`.
pub open spec fn cached_range(any: [bool; 9], low: [i32; 9], high: [i32; 9], bit: int) -> Option<
    ValueRange,
> {
    if any[bit] {
        Some(ValueRange { low: low[bit] as int, high: high[bit] as int })
    } else {
        None
    }
}

/// Whether the areas kept by scene are those of the entries.
pub closed spec fn scenes_match(scenes: Seq<SceneSpan>, entries: Seq<SubBlockDirectoryEntry>) -> bool {
    &&& scenes.len() == scene_values(entries).len()
    &&& forall|k: int|
        0 <= k < scenes.len() ==> {
            &&& (#[trigger] scenes[k]).scene == scene_values(entries)[k]
            &&& scenes[k].all.wf()
            &&& scenes[k].layer0.wf()
            &&& scenes[k].all@ == hull_where(entries, Selection::Scene(scenes[k].scene))
            &&& scenes[k].layer0@ == hull_where(entries, Selection::SceneLayer0(scenes[k].scene))
        }
}

/// Taking in an entry without a scene leaves the areas by scene as they are.
proof fn lemma_scene_skipped(
    scenes: Seq<SceneSpan>,
    entries: Seq<SubBlockDirectoryEntry>,
    entry: SubBlockDirectoryEntry,
)
    requires
        scenes_match(scenes, entries),
        entry.scene_spec() is None,
    ensures
        scenes_match(scenes, entries.push(entry)),
{
    let after = entries.push(entry);
    assert(after.drop_last() == entries);
    assert(after.last() == entry);
    assert(scene_values(after) == scene_values(entries));
}

/// Taking in an entry of a scene that is kept at `place` widens the areas of
/// that scene and leaves the others as they are.
proof fn lemma_scene_found(
    scenes: Seq<SceneSpan>,
    entries: Seq<SubBlockDirectoryEntry>,
    entry: SubBlockDirectoryEntry,
    scene: i32,
    place: int,
    updated: SceneSpan,
)
    requires
        scenes_match(scenes, entries),
        entry.scene_spec() == Some(scene),
        0 <= place < scenes.len(),
        scenes[place].scene == scene,
        updated.scene == scene,
        updated.all.wf(),
        updated.layer0.wf(),
        updated.all@ == join_hulls(scenes[place].all@, entry.logical_rect.hull()),
        updated.layer0@ == if entry.is_layer0_spec() {
            join_hulls(scenes[place].layer0@, entry.logical_rect.hull())
        } else {
            scenes[place].layer0@
        },
    ensures
        scenes_match(scenes.update(place, updated), entries.push(entry)),
{
    let after = entries.push(entry);
    let values = scene_values(entries);
    assert(after.drop_last() == entries);
    assert(after.last() == entry);
    lemma_scene_values(entries);
    assert(values[place] == scene);
    lemma_lower_bound_is(values, scene, place);
    assert(with_scene(values, scene) == values);
    assert(scene_values(after) == values);
    let now = scenes.update(place, updated);
    assert forall|k: int| 0 <= k < now.len() implies {
        &&& (#[trigger] now[k]).scene == scene_values(after)[k]
        &&& now[k].all.wf()
        &&& now[k].layer0.wf()
        &&& now[k].all@ == hull_where(after, Selection::Scene(now[k].scene))
        &&& now[k].layer0@ == hull_where(after, Selection::SceneLayer0(now[k].scene))
    } by {
        if k != place {
            assert(now[k] == scenes[k]);
            assert(values[k] != scene);
        }
    }
}

/// Taking in an entry of a scene that is not kept yet puts the areas of that
/// scene at the place where its number belongs.
proof fn lemma_scene_added(
    scenes: Seq<SceneSpan>,
    entries: Seq<SubBlockDirectoryEntry>,
    entry: SubBlockDirectoryEntry,
    scene: i32,
    place: int,
    added: SceneSpan,
)
    requires
        scenes_match(scenes, entries),
        entry.scene_spec() == Some(scene),
        0 <= place <= scenes.len(),
        forall|j: int| 0 <= j < place ==> (#[trigger] scenes[j]).scene < scene,
        place == scenes.len() || scenes[place].scene > scene,
        added.scene == scene,
        added.all.wf(),
        added.layer0.wf(),
        added.all@ == entry.logical_rect.hull(),
        added.layer0@ == if entry.is_layer0_spec() {
            entry.logical_rect.hull()
        } else {
            None
        },
    ensures
        scenes_match(scenes.insert(place, added), entries.push(entry)),
{
    let after = entries.push(entry);
    let values = scene_values(entries);
    assert(after.drop_last() == entries);
    assert(after.last() == entry);
    lemma_scene_values(entries);
    assert forall|j: int| 0 <= j < place implies values[j] < scene by {
        assert(scenes[j].scene == values[j]);
    }
    lemma_lower_bound_is(values, scene, place);
    assert(with_scene(values, scene) == values.insert(place, scene));
    assert(scene_values(after) == values.insert(place, scene));
    assert(!values.contains(scene)) by {
        if values.contains(scene) {
            let k = choose|k: int| 0 <= k < values.len() && values[k] == scene;
            assert(scenes[k].scene == values[k]);
            if k < place {
            } else if k > place {
                assert(values[place] < values[k]);
            }
        }
    }
    lemma_hull_where_is_least(entries, Selection::Scene(scene), None);
    lemma_hull_where_is_least(entries, Selection::SceneLayer0(scene), None);
    assert(hull_where(entries, Selection::Scene(scene)) is None);
    assert(hull_where(entries, Selection::SceneLayer0(scene)) is None);
    let now = scenes.insert(place, added);
    assert forall|k: int| 0 <= k < now.len() implies {
        &&& (#[trigger] now[k]).scene == scene_values(after)[k]
        &&& now[k].all.wf()
        &&& now[k].layer0.wf()
        &&& now[k].all@ == hull_where(after, Selection::Scene(now[k].scene))
        &&& now[k].layer0@ == hull_where(after, Selection::SceneLayer0(now[k].scene))
    } by {
        if k < place {
            assert(now[k] == scenes[k]);
            assert(values[k] != scene);
        } else if k > place {
            assert(now[k] == scenes[k - 1]);
            assert(values[k - 1] != scene);
        }
    }
}

/// Where the areas of `scene` are kept, or would be put.
fn scene_place(scenes: &Vec<SceneSpan>, scene: i32) -> (place: usize)
    ensures
        place <= scenes@.len(),
        forall|j: int| 0 <= j < place ==> (#[trigger] scenes@[j]).scene < scene,
        place == scenes@.len() || scenes@[place as int].scene >= scene,
{
    let mut place: usize = 0;
    while place < scenes.len() && scenes[place].scene < scene
        invariant
            place <= scenes@.len(),
            forall|j: int| 0 <= j < place ==> (#[trigger] scenes@[j]).scene < scene,
        decreases scenes@.len() - place,
    {
        place = place + 1;
    }
    place
}

/// The ranges of the nine dimensions, each widened by the value that the
/// coordinate has in it. The last part of the result says whether every
/// widened range fits; the ranges are as stated only if it holds.
fn widen_ranges(
    any: [bool; 9],
    low: [i32; 9],
    high: [i32; 9],
    coordinate: &crate::coordinate::Coordinate,
) -> (widened: ([bool; 9], [i32; 9], [i32; 9], bool))
    requires
        forall|bit: int| 0 <= bit < 9 && any[bit] ==> low[bit] <= high[bit],
        forall|d: Dimension| range_fits(#[trigger] cached_range(any, low, high, d.bit_spec() as int)),
    ensures
        widened.3 == (forall|d: Dimension|
            range_fits(
                #[trigger] range_with(
                    cached_range(any, low, high, d.bit_spec() as int),
                    coordinate.value_of(d),
                ),
            )),
        widened.3 ==> forall|d: Dimension|
            #[trigger] cached_range(widened.0, widened.1, widened.2, d.bit_spec() as int)
                == range_with(
                cached_range(any, low, high, d.bit_spec() as int),
                coordinate.value_of(d),
            ),
        widened.3 ==> forall|bit: int|
            0 <= bit < 9 && widened.0[bit] ==> widened.1[bit] <= widened.2[bit],
{
    let mut new_any: [bool; 9] = any;
    let mut new_low: [i32; 9] = low;
    let mut new_high: [i32; 9] = high;
    let mut number: i32 = 1;
    while number <= 9
        invariant
            1 <= number <= 10,
            forall|bit: int| 0 <= bit < 9 && any[bit] ==> low[bit] <= high[bit],
            forall|d: Dimension|
                range_fits(#[trigger] cached_range(any, low, high, d.bit_spec() as int)),
            forall|bit: int| 0 <= bit < 9 && new_any[bit] ==> new_low[bit] <= new_high[bit],
            forall|d: Dimension|
                d.index_spec() < number ==> {
                    &&& #[trigger] cached_range(new_any, new_low, new_high, d.bit_spec() as int)
                        == range_with(
                        cached_range(any, low, high, d.bit_spec() as int),
                        coordinate.value_of(d),
                    )
                    &&& range_fits(cached_range(new_any, new_low, new_high, d.bit_spec() as int))
                },
            forall|d: Dimension|
                d.index_spec() >= number ==> #[trigger] cached_range(
                    new_any,
                    new_low,
                    new_high,
                    d.bit_spec() as int,
                ) == cached_range(any, low, high, d.bit_spec() as int),
        decreases 10 - number,
    {
        let found = Dimension::try_from(number);
        match found {
            Ok(dimension) => {
                let bit: usize = dimension.bit() as usize;
                let ghost before_any = new_any;
                let ghost before_low = new_low;
                let ghost before_high = new_high;
                match coordinate.try_get(dimension) {
                    None => {},
                    Some(value) => {
                        if !new_any[bit] {
                            new_any[bit] = true;
                            new_low[bit] = value;
                            new_high[bit] = value;
                        } else {
                            if value < new_low[bit] {
                                new_low[bit] = value;
                            }
                            if value > new_high[bit] {
                                new_high[bit] = value;
                            }
                        }
                        if new_high[bit] as i64 - new_low[bit] as i64 + 1 > i32::MAX as i64 {
                            proof {
                                assert(cached_range(before_any, before_low, before_high, bit as int)
                                    == cached_range(any, low, high, dimension.bit_spec() as int));
                                assert(!range_fits(
                                    range_with(
                                        cached_range(any, low, high, dimension.bit_spec() as int),
                                        coordinate.value_of(dimension),
                                    ),
                                ));
                            }
                            return (new_any, new_low, new_high, false);
                        }
                    },
                }
                proof {
                    assert(cached_range(before_any, before_low, before_high, bit as int)
                        == cached_range(any, low, high, dimension.bit_spec() as int));
                    assert forall|d: Dimension| d.index_spec() < number + 1 implies {
                        &&& #[trigger] cached_range(new_any, new_low, new_high, d.bit_spec() as int)
                            == range_with(
                            cached_range(any, low, high, d.bit_spec() as int),
                            coordinate.value_of(d),
                        )
                        &&& range_fits(
                            cached_range(new_any, new_low, new_high, d.bit_spec() as int),
                        )
                    } by {
                        if d.index_spec() == number {
                            assert(d == dimension);
                        } else {
                            assert(d.bit_spec() != bit);
                            assert(cached_range(new_any, new_low, new_high, d.bit_spec() as int)
                                == cached_range(
                                before_any,
                                before_low,
                                before_high,
                                d.bit_spec() as int,
                            ));
                        }
                    }
                    assert forall|d: Dimension| d.index_spec() >= number + 1 implies #[trigger] cached_range(
                        new_any,
                        new_low,
                        new_high,
                        d.bit_spec() as int,
                    ) == cached_range(any, low, high, d.bit_spec() as int) by {
                        assert(d.bit_spec() != bit);
                        assert(cached_range(new_any, new_low, new_high, d.bit_spec() as int)
                            == cached_range(
                            before_any,
                            before_low,
                            before_high,
                            d.bit_spec() as int,
                        ));
                    }
                }
            },
            Err(_) => {},
        }
        number = number + 1;
    }
    proof {
        assert forall|d: Dimension|
            range_fits(
                #[trigger] range_with(
                    cached_range(any, low, high, d.bit_spec() as int),
                    coordinate.value_of(d),
                ),
            ) by {
            assert(range_fits(cached_range(new_any, new_low, new_high, d.bit_spec() as int)));
        }
    }
    (new_any, new_low, new_high, true)
}

impl View for SubBlockDirectory {
    type V = Seq<SubBlockDirectoryEntry>;

    closed spec fn view(&self) -> Seq<SubBlockDirectoryEntry> {
        self.entries@
    }
}

impl SubBlockDirectory {
    /// How many places the directory declares: at least as many as it has
    /// entries.
    pub closed spec fn declared_spec(&self) -> nat {
        self.declared_count as nat
    }

    /// What holds of every directory: its entries are admissible, its figures
    /// fit, it declares no fewer places than it has entries, and what it
    /// keeps of the figures is what its entries give.
    pub closed spec fn wf(&self) -> bool {
        &&& self.entries@.len() <= self.declared_count <= i32::MAX
        &&& forall|i: int|
            0 <= i < self.entries@.len() ==> (#[trigger] self.entries@[i]).is_admissible_spec()
        &&& statistics_fit(self.entries@)
        &&& self.m_min == min_m_index(self.entries@)
        &&& self.m_max == max_m_index(self.entries@)
        &&& self.all.wf()
        &&& self.layer0.wf()
        &&& self.all@ == hull_where(self.entries@, Selection::All)
        &&& self.layer0@ == hull_where(self.entries@, Selection::Layer0)
        &&& forall|bit: int|
            0 <= bit < 9 && self.dim_any[bit] ==> self.dim_low[bit] <= self.dim_high[bit]
        &&& forall|d: Dimension|
            #[trigger] range_of(self.entries@, d) == cached_range(
                self.dim_any,
                self.dim_low,
                self.dim_high,
                d.bit_spec() as int,
            )
        &&& scenes_match(self.scenes@, self.entries@)
    }

    /// A well-formed directory has admissible entries and figures that fit.
    pub proof fn lemma_wf(&self)
        requires
            self.wf(),
        ensures
            self@.len() <= self.declared_spec() <= i32::MAX,
            forall|i: int| 0 <= i < self@.len() ==> (#[trigger] self@[i]).is_admissible_spec(),
            statistics_fit(self@),
    {
    }

    /// The directory without entries, which declares no place.
    pub fn new() -> (directory: Self)
        ensures
            directory.wf(),
            directory@ == Seq::<SubBlockDirectoryEntry>::empty(),
            directory.declared_spec() == 0,
    {
        let directory = SubBlockDirectory {
            entries: Vec::new(),
            declared_count: 0,
            m_min: i32::MAX,
            m_max: i32::MIN,
            all: Span::empty(),
            layer0: Span::empty(),
            dim_any: [false;9],
            dim_low: [0i32;9],
            dim_high: [0i32;9],
            scenes: Vec::new(),
        };
        proof {
            assert(directory.entries@ =~= Seq::<SubBlockDirectoryEntry>::empty());
        }
        directory
    }

    /// The entries of the directory, in the order of their places.
    pub fn entries(&self) -> (entries: &[SubBlockDirectoryEntry])
        ensures
            entries@ == self@,
    {
        self.entries.as_slice()
    }

    /// How many entries the directory has.
    pub fn len(&self) -> (count: usize)
        ensures
            count == self@.len(),
    {
        self.entries.len()
    }

    /// How many entries the directory has.
    pub fn count(&self) -> (count: i32)
        requires
            self.wf(),
        ensures
            count == self@.len(),
    {
        self.entries.len() as i32
    }

    /// How many places the directory declares.
    pub fn declared_count(&self) -> (count: i32)
        requires
            self.wf(),
        ensures
            count == self.declared_spec(),
    {
        self.declared_count as i32
    }

    /// Declares `count` places. Fails with `InvalidArgument`, and changes
    /// nothing, if and only if `count` is below the number of entries.
    pub fn declare(&mut self, count: i32) -> (done: Result<(), LibCZIApiError>)
        requires
            old(self).wf(),
        ensures
            final(self).wf(),
            final(self)@ == old(self)@,
            match done {
                Ok(_) => count >= old(self)@.len() && final(self).declared_spec() == count,
                Err(e) => {
                    &&& e == LibCZIApiError::InvalidArgument
                    &&& count < old(self)@.len()
                    &&& final(self).declared_spec() == old(self).declared_spec()
                },
            },
    {
        if count < 0 || (count as usize) < self.entries.len() {
            return Err(LibCZIApiError::InvalidArgument);
        }
        self.declared_count = count as usize;
        Ok(())
    }

    /// Whether the directory takes the entry in: the entry is admissible
    /// and the figures of the directory fit with it.
    pub fn accepts(&self, entry: &SubBlockDirectoryEntry) -> (taken: bool)
        requires
            self.wf(),
        ensures
            taken == (entry.is_admissible_spec() && statistics_fit(self@.push(*entry))),
    {
        let ghost before = self.entries@;
        let ghost after = self.entries@.push(*entry);
        proof {
            assert(after.drop_last() == before);
            assert(after.last() == *entry);
        }
        if !entry.is_admissible() {
            return false;
        }
        if self.entries.len() >= i32::MAX as usize {
            return false;
        }
        let all = self.all.with_rect(&entry.logical_rect);
        if !all.fits() {
            return false;
        }
        proof {
            assert forall|d: Dimension|
                range_fits(
                    #[trigger] cached_range(
                        self.dim_any,
                        self.dim_low,
                        self.dim_high,
                        d.bit_spec() as int,
                    ),
                ) by {
                assert(range_fits(range_of(before, d)));
            }
        }
        let widened = widen_ranges(self.dim_any, self.dim_low, self.dim_high, &entry.coordinate);
        proof {
            assert forall|d: Dimension| #[trigger]
                range_of(after, d) == range_with(
                    cached_range(self.dim_any, self.dim_low, self.dim_high, d.bit_spec() as int),
                    entry.coordinate.value_of(d),
                ) by {
                assert(range_of(before, d) == cached_range(
                    self.dim_any,
                    self.dim_low,
                    self.dim_high,
                    d.bit_spec() as int,
                ));
            }
            if !widened.3 {
                let d = choose|d: Dimension|
                    !range_fits(
                        #[trigger] range_with(
                            cached_range(
                                self.dim_any,
                                self.dim_low,
                                self.dim_high,
                                d.bit_spec() as int,
                            ),
                            entry.coordinate.value_of(d),
                        ),
                    );
                assert(!range_fits(range_of(after, d)));
            }
        }
        widened.3
    }

    /// Adds an entry at the next place. The directory then declares that
    /// place too.
    ///
    /// Fails with `InvalidArgument`, and changes nothing, if and only if the
    /// entry is not admissible or the figures of the directory would no
    /// longer fit with it.
    pub fn push(&mut self, entry: SubBlockDirectoryEntry) -> (done: Result<(), LibCZIApiError>)
        requires
            old(self).wf(),
        ensures
            final(self).wf(),
            done is Ok <==> entry.is_admissible_spec() && statistics_fit(old(self)@.push(entry)),
            match done {
                Ok(_) => {
                    &&& final(self)@ == old(self)@.push(entry)
                    &&& final(self).declared_spec() == if old(self).declared_spec() > old(self)@.len() {
                        old(self).declared_spec()
                    } else {
                        (old(self)@.len() + 1) as nat
                    }
                },
                Err(e) => {
                    &&& e == LibCZIApiError::InvalidArgument
                    &&& final(self)@ == old(self)@
                    &&& final(self).declared_spec() == old(self).declared_spec()
                },
            },
    {
        let ghost before = self.entries@;
        let ghost after = self.entries@.push(entry);
        proof {
            assert(after.drop_last() == before);
            assert(after.last() == entry);
        }
        if !self.accepts(&entry) {
            return Err(LibCZIApiError::InvalidArgument);
        }
        let all = self.all.with_rect(&entry.logical_rect);
        proof {
            assert forall|d: Dimension|
                range_fits(
                    #[trigger] cached_range(
                        self.dim_any,
                        self.dim_low,
                        self.dim_high,
                        d.bit_spec() as int,
                    ),
                ) by {
                assert(range_fits(range_of(before, d)));
            }
        }
        let widened = widen_ranges(self.dim_any, self.dim_low, self.dim_high, &entry.coordinate);
        proof {
            assert forall|d: Dimension| #[trigger]
                range_of(after, d) == range_with(
                    cached_range(self.dim_any, self.dim_low, self.dim_high, d.bit_spec() as int),
                    entry.coordinate.value_of(d),
                ) by {
                assert(range_of(before, d) == cached_range(
                    self.dim_any,
                    self.dim_low,
                    self.dim_high,
                    d.bit_spec() as int,
                ));
            }
            assert forall|d: Dimension|
                range_fits(
                    #[trigger] range_with(
                        cached_range(
                            self.dim_any,
                            self.dim_low,
                            self.dim_high,
                            d.bit_spec() as int,
                        ),
                        entry.coordinate.value_of(d),
                    ),
                ) by {
                assert(range_fits(range_of(after, d)));
            }
            assert(widened.3);
        }
        let layer0 = if entry.is_layer0() {
            self.layer0.with_rect(&entry.logical_rect)
        } else {
            self.layer0
        };
        match entry.scene() {
            None => {
                proof {
                    lemma_scene_skipped(self.scenes@, before, entry);
                }
            },
            Some(scene) => {
                let place: usize = scene_place(&self.scenes, scene);
                if place < self.scenes.len() && self.scenes[place].scene == scene {
                    let kept = self.scenes[place];
                    let updated = SceneSpan {
                        scene,
                        all: kept.all.with_rect(&entry.logical_rect),
                        layer0: if entry.is_layer0() {
                            kept.layer0.with_rect(&entry.logical_rect)
                        } else {
                            kept.layer0
                        },
                    };
                    proof {
                        lemma_scene_found(self.scenes@, before, entry, scene, place as int, updated);
                    }
                    self.scenes[place] = updated;
                } else {
                    let added = SceneSpan {
                        scene,
                        all: Span::empty().with_rect(&entry.logical_rect),
                        layer0: if entry.is_layer0() {
                            Span::empty().with_rect(&entry.logical_rect)
                        } else {
                            Span::empty()
                        },
                    };
                    proof {
                        lemma_scene_added(self.scenes@, before, entry, scene, place as int, added);
                    }
                    self.scenes.insert(place, added);
                }
            },
        }
        if entry.m_index_valid && entry.m_index < self.m_min {
            self.m_min = entry.m_index;
        }
        if entry.m_index_valid && entry.m_index > self.m_max {
            self.m_max = entry.m_index;
        }
        self.all = all;
        self.layer0 = layer0;
        self.dim_any = widened.0;
        self.dim_low = widened.1;
        self.dim_high = widened.2;
        self.entries.push(entry);
        if self.declared_count < self.entries.len() {
            self.declared_count = self.entries.len();
        }
        proof {
            assert(self.entries@ == after);
            assert forall|i: int| 0 <= i < after.len() implies (#[trigger] after[i]).is_admissible_spec() by {
                if i < before.len() {
                    assert(after[i] == before[i]);
                }
            }
        }
        Ok(())
    }

    /// The figures of the directory, without the break-down by scene.
    pub fn get_statistics_simple(&self) -> (statistics: SubBlockStatistics)
        requires
            self.wf(),
        ensures
            is_statistics_of(statistics, self@),
    {
        let mut size: [i32; 9] = [0i32;9];
        let mut number: i32 = 1;
        while number <= 9
            invariant
                1 <= number <= 10,
                self.wf(),
                forall|d: Dimension|
                    d.index_spec() < number && self.dim_any[d.bit_spec() as int] ==> size[d.bit_spec() as int]
                        == self.dim_high[d.bit_spec() as int] - self.dim_low[d.bit_spec() as int] + 1,
            decreases 10 - number,
        {
            let found = Dimension::try_from(number);
            match found {
                Ok(dimension) => {
                    let bit: usize = dimension.bit() as usize;
                    let ghost before = size;
                    if self.dim_any[bit] {
                        proof {
                            assert(range_fits(range_of(self.entries@, dimension)));
                        }
                        size[bit] = (self.dim_high[bit] as i64 - self.dim_low[bit] as i64 + 1) as i32;
                    }
                    proof {
                        assert forall|d: Dimension|
                            d.index_spec() < number + 1 && self.dim_any[d.bit_spec() as int] implies size[d.bit_spec() as int]
                            == self.dim_high[d.bit_spec() as int] - self.dim_low[d.bit_spec() as int]
                            + 1 by {
                            if d.index_spec() == number {
                                assert(d == dimension);
                            } else {
                                assert(d.bit_spec() != bit);
                                assert(size[d.bit_spec() as int] == before[d.bit_spec() as int]);
                            }
                        }
                    }
                },
                Err(_) => {},
            }
            number = number + 1;
        }
        let dim_bounds = DimBounds::pack(self.dim_any, self.dim_low, size);
        proof {
            lemma_hull_where_narrower(self.entries@, Selection::Layer0, Selection::All);
            assert forall|d: Dimension|
                dim_bounds.interval_of(d) == crate::statistics::range_interval(
                    #[trigger] range_of(self.entries@, d),
                ) by {
                assert(range_fits(range_of(self.entries@, d)));
                assert(dim_bounds.interval_of(d) == DimBounds::unpacked(
                    self.dim_any,
                    self.dim_low,
                    size,
                    d,
                ));
            }
        }
        SubBlockStatistics {
            sub_block_count: self.entries.len() as i32,
            min_m_index: self.m_min,
            max_m_index: self.m_max,
            bounding_box: self.all.to_rect(),
            bounding_box_layer0: self.layer0.to_rect(),
            dim_bounds,
        }
    }

    /// How many scenes the sub-blocks of the directory belong to.
    pub fn scene_count(&self) -> (count: i32)
        requires
            self.wf(),
        ensures
            count == scene_values(self@).len(),
    {
        proof {
            lemma_scene_values(self.entries@);
        }
        self.scenes.len() as i32
    }

    /// The figures of the directory with the break-down by scene, and beside
    /// them the number of scenes that there are.
    ///
    /// The list of scenes holds the first `capacity` scenes by rising scene
    /// index, or all of them where there are fewer. The number handed back
    /// beside the figures is the number of all scenes, whatever `capacity`
    /// is: a caller that finds it above `capacity` asks again with more room.
    ///
    /// Fails with `InvalidArgument` if and only if `capacity` is negative.
    pub fn get_statistics_ex(&self, capacity: i32) -> (statistics: Result<
        (SubBlockStatisticsEx, i32),
        LibCZIApiError,
    >)
        requires
            self.wf(),
        ensures
            statistics_ex_holds(statistics, self@, capacity),
    {
        if capacity < 0 {
            return Err(LibCZIApiError::InvalidArgument);
        }
        proof {
            lemma_scene_values(self.entries@);
        }
        let simple = self.get_statistics_simple();
        let available: usize = self.scenes.len();
        let shown: usize = if (capacity as usize) < available {
            capacity as usize
        } else {
            available
        };
        let mut boxes: Vec<BoundingBoxes> = Vec::new();
        let mut place: usize = 0;
        while place < shown
            invariant
                place <= shown <= available,
                available == self.scenes@.len(),
                self.wf(),
                boxes@ == all_scene_boxes(self.entries@).take(place as int),
            decreases shown - place,
        {
            let kept = self.scenes[place];
            proof {
                lemma_hull_where_narrower(
                    self.entries@,
                    Selection::Scene(kept.scene),
                    Selection::All,
                );
                lemma_hull_where_narrower(
                    self.entries@,
                    Selection::SceneLayer0(kept.scene),
                    Selection::All,
                );
            }
            let next = BoundingBoxes {
                scene_index: kept.scene,
                bounding_box: kept.all.to_rect(),
                bounding_box_layer0_only: kept.layer0.to_rect(),
            };
            boxes.push(next);
            proof {
                let all = all_scene_boxes(self.entries@);
                assert(next == all[place as int]);
                assert(all.take(place + 1) == all.take(place as int).push(all[place as int]));
            }
            place = place + 1;
        }
        Ok(
            (
                SubBlockStatisticsEx {
                    sub_block_count: simple.sub_block_count,
                    min_m_index: simple.min_m_index,
                    max_m_index: simple.max_m_index,
                    bounding_box: simple.bounding_box,
                    bounding_box_layer0: simple.bounding_box_layer0,
                    dim_bounds: simple.dim_bounds,
                    number_of_per_scenes_bounding_boxes: shown as i32,
                    per_scenes_bounding_boxes: boxes,
                },
                available as i32,
            ),
        )
    }

    /// The entry at a place. Fails with `IndexOutOfRange` if and only if the
    /// directory has no entry there.
    pub fn entry(&self, index: i32) -> (entry: Result<SubBlockDirectoryEntry, LibCZIApiError>)
        requires
            self.wf(),
        ensures
            match entry {
                Ok(found) => 0 <= index < self@.len() && found == self@[index as int],
                Err(e) => e == LibCZIApiError::IndexOutOfRange && !(0 <= index < self@.len()),
            },
    {
        if index < 0 || index as usize >= self.entries.len() {
            Err(LibCZIApiError::IndexOutOfRange)
        } else {
            Ok(self.entries[index as usize])
        }
    }

    /// What the directory says of the sub-block at a place.
    ///
    /// A place outside the declared places fails with `IndexOutOfRange`. A
    /// declared place past the last entry is no error: it gives `None`.
    pub fn try_find_for_index(&self, index: i32) -> (info: Result<
        Option<SubBlockInfo>,
        LibCZIApiError,
    >)
        requires
            self.wf(),
        ensures
            info == lookup_spec(self@, self.declared_spec(), index),
    {
        if index < 0 || index as usize >= self.declared_count {
            Err(LibCZIApiError::IndexOutOfRange)
        } else if index as usize >= self.entries.len() {
            Ok(None)
        } else {
            Ok(Some(self.entries[index as usize].info()))
        }
    }

    /// Whether the directory has an entry that stands for the same sub-block
    /// as `entry`.
    pub fn contains_identity(&self, entry: &SubBlockDirectoryEntry) -> (found: bool)
        ensures
            found == has_identity(self@, *entry),
    {
        let mut i: usize = 0;
        while i < self.entries.len()
            invariant
                i <= self.entries@.len(),
                forall|j: int| 0 <= j < i ==> !(#[trigger] self.entries@[j]).same_identity_spec(*entry),
            decreases self.entries@.len() - i,
        {
            if self.entries[i].same_identity(entry) {
                return true;
            }
            i = i + 1;
        }
        false
    }
}

/// How many scenes are shown where there is room for `capacity` of
/// `available` scenes.
pub open spec fn shown_scenes(capacity: int, available: int) -> int {
    if capacity < available {
        capacity
    } else {
        available
    }
}

/// Whether `statistics` is what asking for the figures with the break-down
/// by scene gives, with room for `capacity` scenes: `InvalidArgument` for a
/// negative `capacity`, and else the figures of the entries, the first
/// `capacity` scenes, and beside them the number of all scenes.
pub open spec fn statistics_ex_holds(
    statistics: Result<(SubBlockStatisticsEx, i32), LibCZIApiError>,
    entries: Seq<SubBlockDirectoryEntry>,
    capacity: i32,
) -> bool {
    match statistics {
        Err(e) => e == LibCZIApiError::InvalidArgument && capacity < 0,
        Ok((figures, available)) => {
            &&& capacity >= 0
            &&& available == scene_values(entries).len()
            &&& is_statistics_of(figures.simple_spec(), entries)
            &&& figures.number_of_per_scenes_bounding_boxes == shown_scenes(
                capacity as int,
                available as int,
            )
            &&& figures.per_scenes_bounding_boxes@ == all_scene_boxes(entries).take(
                shown_scenes(capacity as int, available as int),
            )
        },
    }
}

/// What a look-up at `index` gives in a directory with these entries that
/// declares `declared` places: `IndexOutOfRange` outside the declared
/// places, `None` at a declared place past the last entry, and else what the
/// entry there says of its sub-block.
pub open spec fn lookup_spec(
    entries: Seq<SubBlockDirectoryEntry>,
    declared: nat,
    index: i32,
) -> Result<Option<SubBlockInfo>, LibCZIApiError> {
    if index < 0 || index >= declared {
        Err(LibCZIApiError::IndexOutOfRange)
    } else if index >= entries.len() {
        Ok(None)
    } else {
        Ok(Some(entries[index as int].info_spec()))
    }
}

/// Whether one of the entries stands for the same sub-block as `entry`.
pub open spec fn has_identity(
    entries: Seq<SubBlockDirectoryEntry>,
    entry: SubBlockDirectoryEntry,
) -> bool {
    exists|i: int| 0 <= i < entries.len() && (#[trigger] entries[i]).same_identity_spec(entry)
}

/// How many bytes stand before the entries in the payload of a directory
/// segment.
pub const DIRECTORY_HEAD_SIZE: usize = 128;

/// What a directory takes in: entries that are admissible, with figures
/// that fit.
pub open spec fn directory_accepts(entries: Seq<SubBlockDirectoryEntry>) -> bool {
    &&& forall|i: int| 0 <= i < entries.len() ==> (#[trigger] entries[i]).is_admissible_spec()
    &&& statistics_fit(entries)
}

/// The bytes of the entries, one after the other.
pub open spec fn entries_bytes(entries: Seq<SubBlockDirectoryEntry>) -> Seq<u8>
    decreases entries.len(),
{
    if entries.len() == 0 {
        Seq::empty()
    } else {
        entries_bytes(entries.drop_last()) + entry_bytes(entries.last())
    }
}

/// The payload of a directory segment: the number of places that the
/// directory declares, zero bytes up to the size of the head, and the
/// entries.
pub open spec fn directory_payload(entries: Seq<SubBlockDirectoryEntry>, declared: u32) -> Seq<u8> {
    u32_bytes(declared) + zeros(124) + entries_bytes(entries)
}

/// The first `count` entries that stand in a payload, or the error of the
/// first that is none.
pub open spec fn parse_entries(payload: Seq<u8>, count: nat) -> Result<
    Seq<SubBlockDirectoryEntry>,
    LibCZIApiError,
>
    decreases count,
{
    if count == 0 {
        Ok(Seq::empty())
    } else {
        match parse_entries(payload, (count - 1) as nat) {
            Err(e) => Err(e),
            Ok(front) => match parse_entry(
                payload.subrange(128 + 128 * (count - 1), 128 + 128 * (count as int)),
            ) {
                Err(e) => Err(e),
                Ok(entry) => Ok(front.push(entry)),
            },
        }
    }
}

/// How many entries a payload holds where it declares `declared` places:
/// as many as stand in it whole, but no more than it declares.
pub open spec fn present_entries(payload_size: int, declared: int) -> int {
    let whole = (payload_size - 128) / 128;
    if declared < whole {
        declared
    } else {
        whole
    }
}

/// What a payload says as a directory: its entries, and the number of
/// places that it declares.
///
/// `CorruptData` where the payload is shorter than its head, where it
/// declares more places than a 32-bit index can reach, or where an entry
/// is none.
pub open spec fn parse_directory(payload: Seq<u8>) -> Result<
    (Seq<SubBlockDirectoryEntry>, nat),
    LibCZIApiError,
> {
    if payload.len() < 128 || u32_at(payload, 0) > i32::MAX {
        Err(LibCZIApiError::CorruptData)
    } else {
        let declared = u32_at(payload, 0) as nat;
        match parse_entries(
            payload,
            present_entries(payload.len() as int, declared as int) as nat,
        ) {
            Err(e) => Err(e),
            Ok(entries) => Ok((entries, declared)),
        }
    }
}

/// The bytes of `n` entries take `128 * n` bytes, and each entry stands at
/// its place among them.
pub proof fn lemma_entries_bytes(entries: Seq<SubBlockDirectoryEntry>)
    ensures
        entries_bytes(entries).len() == 128 * entries.len(),
        forall|i: int|
            0 <= i < entries.len() ==> #[trigger] entries_bytes(entries).subrange(
                128 * i,
                128 * i + 128,
            ) == entry_bytes(entries[i]),
    decreases entries.len(),
{
    if entries.len() > 0 {
        let front = entries.drop_last();
        lemma_entries_bytes(front);
        lemma_entry_round_trip(entries.last());
        let all = entries_bytes(entries);
        assert forall|i: int| 0 <= i < entries.len() implies #[trigger] all.subrange(
            128 * i,
            128 * i + 128,
        ) == entry_bytes(entries[i]) by {
            if i < front.len() {
                assert(all.subrange(128 * i, 128 * i + 128) =~= entries_bytes(front).subrange(
                    128 * i,
                    128 * i + 128,
                ));
                assert(front[i] == entries[i]);
            } else {
                assert(all.subrange(128 * i, 128 * i + 128) =~= entry_bytes(entries.last()));
            }
        }
    }
}

/// A directory of no more entries than a 32-bit index can reach is read
/// back from its payload.
pub proof fn lemma_directory_round_trip(entries: Seq<SubBlockDirectoryEntry>)
    requires
        entries.len() <= i32::MAX,
    ensures
        directory_payload(entries, entries.len() as u32).len() == 128 + 128 * entries.len(),
        parse_directory(directory_payload(entries, entries.len() as u32)) == Ok::<
            (Seq<SubBlockDirectoryEntry>, nat),
            LibCZIApiError,
        >((entries, entries.len())),
{
    lemma_auto_spec_u32_to_from_le_bytes();
    lemma_entries_bytes(entries);
    let payload = directory_payload(entries, entries.len() as u32);
    assert(payload.subrange(0, 4) == u32_bytes(entries.len() as u32));
    lemma_u32_field(payload, 0, entries.len() as u32);
    assert(present_entries(payload.len() as int, entries.len() as int) == entries.len());
    assert(payload.subrange(128, payload.len() as int) =~= entries_bytes(entries));
    lemma_parse_entries(payload, entries, entries.len());
    assert(entries.take(entries.len() as int) == entries);
}

/// The entries that were written are the entries that are read.
proof fn lemma_parse_entries(payload: Seq<u8>, entries: Seq<SubBlockDirectoryEntry>, count: nat)
    requires
        count <= entries.len(),
        payload.len() == 128 + 128 * entries.len(),
        payload.subrange(128, payload.len() as int) == entries_bytes(entries),
    ensures
        parse_entries(payload, count) == Ok::<Seq<SubBlockDirectoryEntry>, LibCZIApiError>(
            entries.take(count as int),
        ),
    decreases count,
{
    if count == 0 {
        assert(entries.take(0) =~= Seq::<SubBlockDirectoryEntry>::empty());
    } else {
        lemma_parse_entries(payload, entries, (count - 1) as nat);
        lemma_entries_bytes(entries);
        let i = count - 1;
        assert(payload.subrange(128 + 128 * i, 128 + 128 * (count as int)) =~= entries_bytes(
            entries,
        ).subrange(128 * i, 128 * i + 128));
        lemma_entry_round_trip(entries[i]);
        assert(entries.take(count as int) =~= entries.take(i).push(entries[i]));
    }
}

impl SubBlockDirectory {
    /// The payload of the directory segment of this directory.
    pub fn to_payload(&self) -> (payload: Vec<u8>)
        requires
            self.wf(),
        ensures
            payload@ == directory_payload(self@, self.declared_spec() as u32),
    {
        let mut payload: Vec<u8> = Vec::new();
        put_u32(&mut payload, self.declared_count as u32);
        put_zeros(&mut payload, 124);
        let ghost head = payload@;
        let mut i: usize = 0;
        while i < self.entries.len()
            invariant
                i <= self.entries@.len(),
                payload@ == head + entries_bytes(self.entries@.take(i as int)),
            decreases self.entries@.len() - i,
        {
            write_entry(&mut payload, &self.entries[i]);
            proof {
                let next = self.entries@.take(i + 1);
                assert(next.drop_last() == self.entries@.take(i as int));
                assert(next.last() == self.entries@[i as int]);
                assert(payload@ =~= head + entries_bytes(next));
            }
            i = i + 1;
        }
        assert(self.entries@.take(i as int) == self.entries@);
        payload
    }

    /// The directory that a payload holds: the entries that stand in it,
    /// taken in one by one, with as many places declared as it says.
    ///
    /// `CorruptData` where the payload is none, or where the directory does
    /// not take its entries in.
    pub fn from_payload(payload: &[u8]) -> (directory: Result<SubBlockDirectory, LibCZIApiError>)
        ensures
            match directory {
                Ok(made) => {
                    &&& made.wf()
                    &&& parse_directory(payload@) == Ok::<
                        (Seq<SubBlockDirectoryEntry>, nat),
                        LibCZIApiError,
                    >((made@, made.declared_spec()))
                    &&& directory_accepts(made@)
                },
                Err(e) => {
                    &&& e == LibCZIApiError::CorruptData
                    &&& match parse_directory(payload@) {
                        Err(_) => true,
                        Ok((entries, declared)) => !directory_accepts(entries),
                    }
                },
            },
    {
        let size: usize = payload.len();
        if size < 128 {
            return Err(LibCZIApiError::CorruptData);
        }
        let declared: u32 = get_u32(payload, 0);
        if declared > i32::MAX as u32 {
            return Err(LibCZIApiError::CorruptData);
        }
        let whole: usize = (size - 128) / 128;
        let present: usize = if (declared as usize) < whole {
            declared as usize
        } else {
            whole
        };
        let mut directory = SubBlockDirectory::new();
        let mut i: usize = 0;
        while i < present
            invariant
                i <= present <= whole,
                present <= declared,
                declared == u32_at(payload@, 0),
                declared <= i32::MAX,
                present == present_entries(size as int, declared as int),
                whole == (size - 128) / 128,
                size == payload@.len(),
                size >= 128,
                directory.wf(),
                directory@.len() == i,
                directory.declared_spec() == i,
                parse_entries(payload@, i as nat) == Ok::<
                    Seq<SubBlockDirectoryEntry>,
                    LibCZIApiError,
                >(directory@),
            decreases present - i,
        {
            let ghost before = directory@;
            let ghost next_bytes = payload@.subrange(128 + 128 * i, 128 + 128 * (i + 1));
            match read_entry(payload, 128 + 128 * i) {
                Err(e) => {
                    proof {
                        assert(parse_entry(next_bytes) is Err);
                        assert(parse_entries(payload@, (i + 1) as nat) is Err);
                        lemma_parse_entries_fails(payload@, (i + 1) as nat, present as nat);
                    }
                    return Err(LibCZIApiError::CorruptData);
                },
                Ok(entry) => {
                    proof {
                        assert(parse_entry(next_bytes) == Ok::<
                            SubBlockDirectoryEntry,
                            LibCZIApiError,
                        >(entry));
                        assert(parse_entries(payload@, (i + 1) as nat) == Ok::<
                            Seq<SubBlockDirectoryEntry>,
                            LibCZIApiError,
                        >(before.push(entry)));
                    }
                    match directory.push(entry) {
                        Err(_) => {
                            proof {
                                if parse_entries(payload@, present as nat) is Ok {
                                    let all = parse_entries(payload@, present as nat)->Ok_0;
                                    lemma_parse_entries_length(payload@, present as nat);
                                    lemma_parse_entries_prefix(
                                        payload@,
                                        (i + 1) as nat,
                                        present as nat,
                                    );
                                    assert(all.take(i + 1) == before.push(entry));
                                    assert(all[i as int] == all.take(i + 1)[i as int]);
                                    if directory_accepts(all) {
                                        lemma_fit_prefix(all, i + 1);
                                        assert(all[i as int].is_admissible_spec());
                                    }
                                }
                            }
                            return Err(LibCZIApiError::CorruptData);
                        },
                        Ok(_) => {},
                    }
                },
            }
            i = i + 1;
        }
        proof {
            directory.lemma_wf();
        }
        match directory.declare(declared as i32) {
            Ok(_) => Ok(directory),
            Err(_) => Err(LibCZIApiError::CorruptData),
        }
    }
}

/// Where the first entries are none, so are more of them.
proof fn lemma_parse_entries_fails(payload: Seq<u8>, count: nat, more: nat)
    requires
        count <= more,
        parse_entries(payload, count) is Err,
    ensures
        parse_entries(payload, more) is Err,
    decreases more - count,
{
    if count < more {
        lemma_parse_entries_fails(payload, count, (more - 1) as nat);
    }
}

/// The first entries of more entries are the entries that are read first.
proof fn lemma_parse_entries_prefix(payload: Seq<u8>, count: nat, more: nat)
    requires
        count <= more,
        parse_entries(payload, more) is Ok,
    ensures
        parse_entries(payload, count) == Ok::<Seq<SubBlockDirectoryEntry>, LibCZIApiError>(
            parse_entries(payload, more)->Ok_0.take(count as int),
        ),
    decreases more - count,
{
    let all = parse_entries(payload, more)->Ok_0;
    if count == more {
        lemma_parse_entries_length(payload, more);
        assert(all.take(count as int) == all);
    } else {
        lemma_parse_entries_prefix(payload, count, (more - 1) as nat);
        let front = parse_entries(payload, (more - 1) as nat)->Ok_0;
        lemma_parse_entries_length(payload, (more - 1) as nat);
        assert(front.take(count as int) =~= all.take(count as int));
    }
}

/// As many entries are read as were asked for.
proof fn lemma_parse_entries_length(payload: Seq<u8>, count: nat)
    requires
        parse_entries(payload, count) is Ok,
    ensures
        parse_entries(payload, count)->Ok_0.len() == count,
    decreases count,
{
    if count > 0 {
        lemma_parse_entries_length(payload, (count - 1) as nat);
    }
}

/// Entries that cannot be read are corrupt data, whatever is wrong with
/// them.
pub proof fn lemma_parse_directory_error(payload: Seq<u8>)
    ensures
        parse_directory(payload) matches Err(e) ==> e == LibCZIApiError::CorruptData,
        forall|count: nat| #[trigger]
            parse_entries(payload, count) matches Err(e) ==> e == LibCZIApiError::CorruptData,
{
    assert forall|count: nat| #[trigger]
        parse_entries(payload, count) matches Err(e) ==> e == LibCZIApiError::CorruptData by {
        lemma_parse_entries_error(payload, count);
    }
}

/// Entries that cannot be read are corrupt data.
proof fn lemma_parse_entries_error(payload: Seq<u8>, count: nat)
    ensures
        parse_entries(payload, count) matches Err(e) ==> e == LibCZIApiError::CorruptData,
    decreases count,
{
    if count > 0 {
        lemma_parse_entries_error(payload, (count - 1) as nat);
    }
}

/// The rectangles that hold all of each scene in a list of boxes.
pub open spec fn box_rects(boxes: Seq<BoundingBoxes>) -> Seq<IntRect> {
    Seq::new(boxes.len(), |place: int| boxes[place].bounding_box)
}

/// Without room for scenes, the figures still come with the number of all
/// scenes, and with no scene in their list.
pub proof fn lemma_statistics_ex_without_room(
    statistics: Result<(SubBlockStatisticsEx, i32), LibCZIApiError>,
    entries: Seq<SubBlockDirectoryEntry>,
)
    requires
        statistics_ex_holds(statistics, entries, 0),
    ensures
        statistics matches Ok((figures, available)) && {
            &&& available == scene_values(entries).len()
            &&& figures.number_of_per_scenes_bounding_boxes == 0
            &&& figures.per_scenes_bounding_boxes@.len() == 0
        },
{
}

/// With room for every scene, the boxes in the list, joined, are the box
/// of the whole document, provided that every sub-block belongs to a scene
/// or at least lies within the joined boxes of the scenes.
pub proof fn lemma_statistics_ex_boxes_join_to_whole(
    figures: SubBlockStatisticsEx,
    available: i32,
    entries: Seq<SubBlockDirectoryEntry>,
    capacity: i32,
)
    requires
        statistics_fit(entries),
        statistics_ex_holds(
            Ok::<(SubBlockStatisticsEx, i32), LibCZIApiError>((figures, available)),
            entries,
            capacity,
        ),
        available <= capacity,
        forall|i: int|
            0 <= i < entries.len() && (#[trigger] entries[i]).scene_spec() is None ==> crate::geometry::hull_contains(
                hull_of(scene_rects(entries)),
                entries[i].logical_rect.hull(),
            ),
    ensures
        figures.per_scenes_bounding_boxes@ == all_scene_boxes(entries),
        hull_rect(hull_of(box_rects(figures.per_scenes_bounding_boxes@))) == figures.bounding_box,
{
    let all = all_scene_boxes(entries);
    assert(all.take(all.len() as int) == all);
    lemma_scene_boxes_join_to_whole(entries);
    assert(box_rects(all) =~= scene_rects(entries));
}

} // verus!
