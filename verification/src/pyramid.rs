//! The layers of the pyramid: how many sub-blocks a document has of each
//! scene at each factor of minification.

use crate::subblock::SubBlockDirectoryEntry;
use crate::text::{append_number, number_chars};
use crate::tiles::{minification, minification_of};
use vstd::prelude::*;

verus! {

/// How many sub-blocks one scene has on one layer of the pyramid.
#[derive(Clone, Copy, Debug, PartialEq, Eq, Structural)]
pub struct PyramidLayerStatistics {
    /// The scene, or `None` for the sub-blocks that belong to no scene.
    pub scene_index: Option<i32>,
    /// By which factor the sub-blocks of the layer are smaller than what
    /// they show; 1 for the layer at full resolution.
    pub minification_factor: u32,
    /// How many sub-blocks the scene has on the layer.
    pub count: i32,
}

/// Whether the entry is of the given scene and on the layer of the given
/// factor.
pub open spec fn is_on_layer(entry: SubBlockDirectoryEntry, scene: Option<i32>, factor: int) -> bool {
    entry.scene_spec() == scene && minification(entry) == factor
}

/// How many of the first `count` entries are of the given scene and on the
/// layer of the given factor.
pub open spec fn count_on_layer(
    entries: Seq<SubBlockDirectoryEntry>,
    scene: Option<i32>,
    factor: int,
    count: nat,
) -> nat
    decreases count,
{
    if count == 0 {
        0
    } else {
        count_on_layer(entries, scene, factor, (count - 1) as nat) + if is_on_layer(
            entries[count - 1],
            scene,
            factor,
        ) {
            1nat
        } else {
            0nat
        }
    }
}

/// Whether the entry at `place` is the first of its scene on its layer.
pub open spec fn is_first_on_layer(entries: Seq<SubBlockDirectoryEntry>, place: int) -> bool {
    forall|before: int|
        0 <= before < place ==> !is_on_layer(
            #[trigger] entries[before],
            entries[place].scene_spec(),
            minification(entries[place]),
        )
}

/// The figures of the layers that the first `count` entries open: one line
/// for each scene and layer, in the order in which the directory first has
/// a sub-block of them, with the number of all sub-blocks of the scene on
/// the layer.
pub open spec fn pyramid_layers(entries: Seq<SubBlockDirectoryEntry>, count: nat) -> Seq<
    PyramidLayerStatistics,
>
    decreases count,
{
    if count == 0 {
        Seq::empty()
    } else {
        let before = pyramid_layers(entries, (count - 1) as nat);
        let entry = entries[count - 1];
        if is_first_on_layer(entries, count - 1) {
            before.push(
                PyramidLayerStatistics {
                    scene_index: entry.scene_spec(),
                    minification_factor: minification(entry) as u32,
                    count: count_on_layer(
                        entries,
                        entry.scene_spec(),
                        minification(entry),
                        entries.len(),
                    ) as i32,
                },
            )
        } else {
            before
        }
    }
}

/// No more entries are on a layer than there are entries.
pub proof fn lemma_count_on_layer_bound(
    entries: Seq<SubBlockDirectoryEntry>,
    scene: Option<i32>,
    factor: int,
    count: nat,
)
    ensures
        count_on_layer(entries, scene, factor, count) <= count,
    decreases count,
{
    if count > 0 {
        lemma_count_on_layer_bound(entries, scene, factor, (count - 1) as nat);
    }
}

/// The figures of the layers of the pyramid.
pub fn pyramid_statistics(entries: &[SubBlockDirectoryEntry]) -> (layers: Vec<PyramidLayerStatistics>)
    requires
        entries@.len() <= i32::MAX,
    ensures
        layers@ == pyramid_layers(entries@, entries@.len()),
{
    let mut layers: Vec<PyramidLayerStatistics> = Vec::new();
    let mut place: usize = 0;
    while place < entries.len()
        invariant
            place <= entries@.len(),
            entries@.len() <= i32::MAX,
            layers@ == pyramid_layers(entries@, place as nat),
        decreases entries@.len() - place,
    {
        let entry = &entries[place];
        let scene = entry.scene();
        let factor: u32 = minification_of(entry);
        let mut first: bool = true;
        let mut before: usize = 0;
        while before < place && first
            invariant
                before <= place < entries@.len(),
                scene == entries@[place as int].scene_spec(),
                factor == minification(entries@[place as int]),
                first ==> forall|j: int|
                    0 <= j < before ==> !is_on_layer(#[trigger] entries@[j], scene, factor as int),
                !first ==> !is_first_on_layer(entries@, place as int),
            decreases place - before + if first {
                1int
            } else {
                0int
            },
        {
            let other = &entries[before];
            let same_scene = match (other.scene(), scene) {
                (None, None) => true,
                (Some(a), Some(b)) => a == b,
                _ => false,
            };
            if same_scene && minification_of(other) == factor {
                first = false;
                assert(is_on_layer(entries@[before as int], scene, factor as int));
            } else {
                before = before + 1;
            }
        }
        if first {
            let mut count: usize = 0;
            let mut seen: usize = 0;
            while seen < entries.len()
                invariant
                    seen <= entries@.len(),
                    entries@.len() <= i32::MAX,
                    count == count_on_layer(entries@, scene, factor as int, seen as nat),
                    count <= seen,
                decreases entries@.len() - seen,
            {
                let other = &entries[seen];
                let same_scene = match (other.scene(), scene) {
                    (None, None) => true,
                    (Some(a), Some(b)) => a == b,
                    _ => false,
                };
                if same_scene && minification_of(other) == factor {
                    count = count + 1;
                }
                seen = seen + 1;
            }
            layers.push(
                PyramidLayerStatistics {
                    scene_index: scene,
                    minification_factor: factor,
                    count: count as i32,
                },
            );
        }
        place = place + 1;
    }
    layers
}

/// The number of the layer with the given factor of minification: how
/// often the factor is halved, fractions dropped, until it is 1. The layer
/// at full resolution has the number 0.
pub open spec fn layer_number(factor: nat) -> nat
    decreases factor,
{
    if factor < 2 {
        0
    } else {
        1 + layer_number(factor / 2)
    }
}

/// The number of the layer with the given factor of minification.
pub fn layer_number_of(factor: u32) -> (number: u32)
    ensures
        number == layer_number(factor as nat),
        number <= 32,
{
    let mut rest: u32 = factor;
    let mut number: u32 = 0;
    proof {
        vstd::arithmetic::power2::lemma2_to64();
    }
    while rest >= 2
        invariant
            number + layer_number(rest as nat) == layer_number(factor as nat),
            number <= 32,
            rest as int * vstd::arithmetic::power2::pow2(number as nat) <= u32::MAX,
        decreases rest,
    {
        proof {
            let power = vstd::arithmetic::power2::pow2(number as nat) as int;
            vstd::arithmetic::power2::lemma_pow2_unfold((number + 1) as nat);
            vstd::arithmetic::power2::lemma_pow2_pos(number as nat);
            assert((rest / 2) as int * (2 * power) <= rest as int * power) by (nonlinear_arith)
                requires
                    rest >= 0,
                    power > 0,
            ;
            if number == 32 {
                vstd::arithmetic::power2::lemma2_to64();
                assert(rest as int * power >= 2 * power) by (nonlinear_arith)
                    requires
                        rest >= 2,
                        power > 0,
                ;
            }
        }
        rest = rest / 2;
        number = number + 1;
    }
    number
}

/// One line of the figures as JSON.
pub open spec fn layer_json(layer: PyramidLayerStatistics) -> Seq<char> {
    "{\"layerInfo\":{\"minificationFactor\":"@ + number_chars(layer.minification_factor as int)
        + ",\"pyramidLayerNo\":"@ + number_chars(
        layer_number(layer.minification_factor as nat) as int,
    ) + "},\"count\":"@ + number_chars(layer.count as int) + "}"@
}

/// Whether the line at `place` is the first of its scene.
pub open spec fn opens_scene(layers: Seq<PyramidLayerStatistics>, place: int) -> bool {
    forall|before: int|
        0 <= before < place ==> (#[trigger] layers[before]).scene_index
            != layers[place].scene_index
}

/// The lines of one scene among the first `count` lines as JSON, with
/// commas between them.
pub open spec fn scene_layers_json(
    layers: Seq<PyramidLayerStatistics>,
    scene: Option<i32>,
    count: nat,
) -> Seq<char>
    decreases count,
{
    if count == 0 {
        Seq::empty()
    } else {
        let before = scene_layers_json(layers, scene, (count - 1) as nat);
        if layers[count - 1].scene_index != scene {
            before
        } else if opens_scene(layers, count - 1) {
            before + layer_json(layers[count - 1])
        } else {
            before + ","@ + layer_json(layers[count - 1])
        }
    }
}

/// The number under which the lines of a scene stand: the index of the
/// scene, and the largest 32-bit number for the sub-blocks that belong to
/// no scene.
pub open spec fn scene_key(scene: Option<i32>) -> int {
    match scene {
        Some(index) => index as int,
        None => i32::MAX as int,
    }
}

/// One scene as a member of a JSON object: its number as the key, and the
/// list of its lines.
pub open spec fn scene_json(layers: Seq<PyramidLayerStatistics>, scene: Option<i32>) -> Seq<char> {
    "\""@ + number_chars(scene_key(scene)) + "\":["@ + scene_layers_json(
        layers,
        scene,
        layers.len(),
    ) + "]"@
}

/// The scenes that the first `count` lines open, as members of a JSON
/// object, with commas between them.
pub open spec fn scenes_json(layers: Seq<PyramidLayerStatistics>, count: nat) -> Seq<char>
    decreases count,
{
    if count == 0 {
        Seq::empty()
    } else {
        let before = scenes_json(layers, (count - 1) as nat);
        if !opens_scene(layers, count - 1) {
            before
        } else if count == 1 {
            before + scene_json(layers, layers[count - 1].scene_index)
        } else {
            before + ","@ + scene_json(layers, layers[count - 1].scene_index)
        }
    }
}

/// The figures as a JSON text: an object with the one member
/// `scenePyramidStatistics`, an object that has for each scene, in the
/// order in which the scenes first occur, the list of its layers, each
/// with its factor of minification, its number and its count.
pub open spec fn pyramid_json(layers: Seq<PyramidLayerStatistics>) -> Seq<char> {
    "{\"scenePyramidStatistics\":{"@ + scenes_json(layers, layers.len()) + "}}"@
}

/// Whether two scenes are the same.
fn same_scene(first: Option<i32>, second: Option<i32>) -> (same: bool)
    ensures
        same == (first == second),
{
    match (first, second) {
        (None, None) => true,
        (Some(a), Some(b)) => a == b,
        _ => false,
    }
}

/// Appends one line of the figures as JSON.
fn append_layer(json: &mut String, layer: &PyramidLayerStatistics)
    ensures
        final(json)@ == old(json)@ + layer_json(*layer),
{
    json.append("{\"layerInfo\":{\"minificationFactor\":");
    append_number(json, layer.minification_factor as i64);
    json.append(",\"pyramidLayerNo\":");
    append_number(json, layer_number_of(layer.minification_factor) as i64);
    json.append("},\"count\":");
    append_number(json, layer.count as i64);
    json.append("}");
    assert(json@ =~= old(json)@ + layer_json(*layer));
}

/// Whether no line before the one at `place` is of the same scene.
fn is_first_of_scene(layers: &[PyramidLayerStatistics], place: usize) -> (first: bool)
    requires
        place < layers@.len(),
    ensures
        first == opens_scene(layers@, place as int),
{
    let scene = layers[place].scene_index;
    let mut before: usize = 0;
    while before < place
        invariant
            before <= place < layers@.len(),
            scene == layers@[place as int].scene_index,
            forall|j: int| 0 <= j < before ==> (#[trigger] layers@[j]).scene_index != scene,
        decreases place - before,
    {
        if same_scene(layers[before].scene_index, scene) {
            return false;
        }
        before = before + 1;
    }
    true
}

/// Appends one scene as a member of a JSON object.
fn append_scene(json: &mut String, layers: &[PyramidLayerStatistics], scene: Option<i32>)
    ensures
        final(json)@ == old(json)@ + scene_json(layers@, scene),
{
    json.append("\"");
    let key: i64 = match scene {
        Some(index) => index as i64,
        None => i32::MAX as i64,
    };
    append_number(json, key);
    json.append("\":[");
    let ghost head = json@;
    let mut place: usize = 0;
    assert(json@ =~= head + scene_layers_json(layers@, scene, 0));
    while place < layers.len()
        invariant
            place <= layers@.len(),
            json@ == head + scene_layers_json(layers@, scene, place as nat),
        decreases layers@.len() - place,
    {
        let ghost before = scene_layers_json(layers@, scene, place as nat);
        if same_scene(layers[place].scene_index, scene) {
            if !is_first_of_scene(layers, place) {
                json.append(",");
            }
            append_layer(json, &layers[place]);
            assert(json@ =~= head + scene_layers_json(layers@, scene, (place + 1) as nat));
        }
        place = place + 1;
    }
    json.append("]");
    assert(json@ =~= old(json)@ + scene_json(layers@, scene));
}

/// The figures of the layers of the pyramid as a JSON text.
pub fn pyramid_statistics_json(layers: &[PyramidLayerStatistics]) -> (json: String)
    ensures
        json@ == pyramid_json(layers@),
{
    let mut json = String::new();
    json.append("{\"scenePyramidStatistics\":{");
    let ghost head = json@;
    let mut place: usize = 0;
    assert(json@ =~= head + scenes_json(layers@, 0));
    while place < layers.len()
        invariant
            place <= layers@.len(),
            json@ == head + scenes_json(layers@, place as nat),
        decreases layers@.len() - place,
    {
        if is_first_of_scene(layers, place) {
            if place > 0 {
                json.append(",");
            }
            append_scene(&mut json, layers, layers[place].scene_index);
            assert(json@ =~= head + scenes_json(layers@, (place + 1) as nat));
        }
        place = place + 1;
    }
    json.append("}}");
    assert(json@ =~= pyramid_json(layers@));
    json
}

} // verus!
