//! The tile accessor: it puts the sub-blocks of one plane together, within
//! a region of interest and at a zoom factor.
//!
//! Of the pyramid layers that the document has for the plane and the
//! region, the coarsest one is taken that is still fine enough for the zoom
//! factor, so that nothing is ever scaled up where finer data is at hand.
//! Where no layer is fine enough, the finest one is taken. The sub-blocks of
//! that layer are painted one over the other: by rising M-index where that
//! is asked for, with sub-blocks without an M-index first, and in the order
//! of the directory among equals and where it is not. What no sub-block
//! covers has the background colour. The picture has the pixel type of the
//! first sub-block that is painted; a sub-block of another pixel type
//! cannot be painted with it.
//!
//! A sub-block ends up hidden where a sub-block that is painted after it
//! holds all that it has within the region. Where the caller allows it,
//! hidden sub-blocks are not read at all; the picture is the same.

use crate::accessor::AccessorOptions;
use crate::bitmap::{Bitmap, BitmapInfo};
use crate::container::sub_block_at;
use crate::coordinate::Coordinate;
use crate::dimension::Dimension;
use crate::error::LibCZIApiError;
use crate::geometry::{IntRect, IntSize};
use crate::pixel::PixelType;
use crate::stream::InputStream;
use crate::reader::read_payload;
use crate::segment::SegmentKind;
use crate::subblock::{
    decode_spec, pixels_of, read_sub_block_payload, SubBlock, SubBlockDirectoryEntry,
};
use crate::zoom::{exponent_bits, fraction_bits, sign_bit, Zoom};
use vstd::prelude::*;
use vstd::slice::slice_subrange;

verus! {

/// What asking for the size of a picture gives: the width and the height of
/// the region, each times the zoom factor and rounded to the nearest whole
/// number.
///
/// `InvalidArgument` for a region without a point in it, for bits that
/// stand for no zoom factor above zero, and for a picture whose width or
/// height is no 32-bit number.
pub open spec fn calc_size_spec(roi: IntRect, zoom: u32) -> Result<IntSize, LibCZIApiError> {
    match Zoom::of_bits(zoom) {
        None => Err(LibCZIApiError::InvalidArgument),
        Some(factor) => if roi.w <= 0 || roi.h <= 0 || factor.scaled(roi.w as int) > i32::MAX
            || factor.scaled(roi.h as int) > i32::MAX {
            Err(LibCZIApiError::InvalidArgument)
        } else {
            Ok(IntSize { w: factor.scaled(roi.w as int) as i32, h: factor.scaled(roi.h as int) as i32 })
        },
    }
}

/// The size of the picture that a region gives at a zoom factor.
pub fn calc_picture_size(roi: &IntRect, zoom: u32) -> (size: Result<IntSize, LibCZIApiError>)
    ensures
        size == calc_size_spec(*roi, zoom),
{
    let factor = match Zoom::from_bits(zoom) {
        Some(found) => found,
        None => {
            return Err(LibCZIApiError::InvalidArgument);
        },
    };
    if roi.w <= 0 || roi.h <= 0 {
        return Err(LibCZIApiError::InvalidArgument);
    }
    match (factor.scale(roi.w as u32), factor.scale(roi.h as u32)) {
        (Some(w), Some(h)) => Ok(IntSize { w, h }),
        _ => Err(LibCZIApiError::InvalidArgument),
    }
}

/// Whether a sub-block lies in the plane that is asked for: it has every
/// dimension that the plane names, with the value that the plane gives it.
pub open spec fn in_plane(entry: Coordinate, plane: Coordinate) -> bool {
    forall|dimension: Dimension|
        (#[trigger] plane.value_of(dimension)) is Some ==> entry.value_of(dimension)
            == plane.value_of(dimension)
}

/// Whether a sub-block lies in the plane that is asked for.
pub fn is_in_plane(entry: &Coordinate, plane: &Coordinate) -> (inside: bool)
    ensures
        inside == in_plane(*entry, *plane),
{
    let mut number: i32 = 1;
    while number <= 9
        invariant
            1 <= number <= 10,
            forall|dimension: Dimension|
                dimension.index_spec() < number && (#[trigger] plane.value_of(dimension)) is Some
                    ==> entry.value_of(dimension) == plane.value_of(dimension),
        decreases 10 - number,
    {
        let found = Dimension::try_from(number);
        match found {
            Ok(dimension) => {
                match plane.try_get(dimension) {
                    None => {},
                    Some(asked) => {
                        let same = match entry.try_get(dimension) {
                            Some(value) => value == asked,
                            None => false,
                        };
                        if !same {
                            return false;
                        }
                    },
                }
                assert forall|d: Dimension|
                    d.index_spec() < number + 1 && (#[trigger] plane.value_of(d)) is Some implies entry.value_of(
                    d,
                ) == plane.value_of(d) by {
                    if d.index_spec() == number {
                        assert(d == dimension);
                    }
                }
            },
            Err(_) => {},
        }
        number = number + 1;
    }
    true
}

/// Whether a sub-block has a part in the picture: it lies in the plane, it
/// meets the region, and it has pixels stored.
pub open spec fn is_candidate(entry: SubBlockDirectoryEntry, plane: Coordinate, roi: IntRect) -> bool {
    &&& in_plane(entry.coordinate, plane)
    &&& entry.logical_rect.intersects_spec(roi)
    &&& entry.physical_size.w > 0
    &&& entry.physical_size.h > 0
}

/// By which factor a sub-block is smaller than what it shows: the width of
/// its rectangle divided by the width of its stored bitmap, and 1 at least.
pub open spec fn minification(entry: SubBlockDirectoryEntry) -> int {
    if entry.physical_size.w <= 0 || entry.logical_rect.w / entry.physical_size.w < 1 {
        1
    } else {
        entry.logical_rect.w as int / entry.physical_size.w as int
    }
}

/// Which of two factors is taken: the larger of two that are fine enough
/// for the zoom factor, the one that is fine enough where only one is, and
/// the smaller where neither is.
pub open spec fn better_factor(zoom: Zoom, first: int, second: int) -> int {
    if zoom.admits(first) && zoom.admits(second) {
        if second > first {
            second
        } else {
            first
        }
    } else if zoom.admits(first) {
        first
    } else if zoom.admits(second) {
        second
    } else if second < first {
        second
    } else {
        first
    }
}

/// The factor of the layer that is taken, among the first `count` entries:
/// `None` where none of them has a part in the picture.
pub open spec fn chosen_factor(
    entries: Seq<SubBlockDirectoryEntry>,
    plane: Coordinate,
    roi: IntRect,
    zoom: Zoom,
    count: nat,
) -> Option<int>
    decreases count,
{
    if count == 0 {
        None
    } else {
        let before = chosen_factor(entries, plane, roi, zoom, (count - 1) as nat);
        let entry = entries[count - 1];
        if !is_candidate(entry, plane, roi) {
            before
        } else {
            match before {
                None => Some(minification(entry)),
                Some(factor) => Some(better_factor(zoom, factor, minification(entry))),
            }
        }
    }
}

/// Whether a sub-block is painted: it has a part in the picture and is of
/// the layer that is taken.
pub open spec fn is_selected(
    entries: Seq<SubBlockDirectoryEntry>,
    plane: Coordinate,
    roi: IntRect,
    zoom: Zoom,
    place: int,
) -> bool {
    &&& 0 <= place < entries.len()
    &&& is_candidate(entries[place], plane, roi)
    &&& chosen_factor(entries, plane, roi, zoom, entries.len()) == Some(minification(entries[place]))
}

/// By which factor a sub-block is smaller than what it shows.
pub fn minification_of(entry: &SubBlockDirectoryEntry) -> (factor: u32)
    ensures
        factor == minification(*entry),
        factor >= 1,
{
    if entry.physical_size.w <= 0 || entry.logical_rect.w < entry.physical_size.w {
        proof {
            if entry.physical_size.w > 0 {
                let a = entry.logical_rect.w as int;
                let b = entry.physical_size.w as int;
                assert(a / b < 1) by (nonlinear_arith)
                    requires
                        a < b,
                        b > 0,
                ;
            }
        }
        1
    } else {
        proof {
            let a = entry.logical_rect.w as int;
            let b = entry.physical_size.w as int;
            assert(1 <= a / b <= a) by (nonlinear_arith)
                requires
                    a >= b,
                    b > 0,
            ;
        }
        (entry.logical_rect.w / entry.physical_size.w) as u32
    }
}

/// Whether a sub-block has a part in the picture.
pub fn has_part(entry: &SubBlockDirectoryEntry, plane: &Coordinate, roi: &IntRect) -> (part: bool)
    ensures
        part == is_candidate(*entry, *plane, *roi),
{
    is_in_plane(&entry.coordinate, plane) && entry.logical_rect.intersects(roi)
        && entry.physical_size.w > 0 && entry.physical_size.h > 0
}

/// The factor of the layer that is taken.
pub fn choose_layer(
    entries: &[SubBlockDirectoryEntry],
    plane: &Coordinate,
    roi: &IntRect,
    zoom: &Zoom,
) -> (factor: Option<u32>)
    requires
        zoom.is_valid_spec(),
    ensures
        match factor {
            Some(found) => chosen_factor(entries@, *plane, *roi, *zoom, entries@.len()) == Some(
                found as int,
            ),
            None => chosen_factor(entries@, *plane, *roi, *zoom, entries@.len()) is None,
        },
{
    let mut best: Option<u32> = None;
    let mut place: usize = 0;
    while place < entries.len()
        invariant
            place <= entries@.len(),
            zoom.is_valid_spec(),
            match best {
                Some(found) => chosen_factor(entries@, *plane, *roi, *zoom, place as nat) == Some(
                    found as int,
                ),
                None => chosen_factor(entries@, *plane, *roi, *zoom, place as nat) is None,
            },
        decreases entries@.len() - place,
    {
        let entry = &entries[place];
        if has_part(entry, plane, roi) {
            let factor: u32 = minification_of(entry);
            best = match best {
                None => Some(factor),
                Some(found) => {
                    let first_fine = zoom.is_fine_enough(found);
                    let second_fine = zoom.is_fine_enough(factor);
                    if first_fine && second_fine {
                        if factor > found {
                            Some(factor)
                        } else {
                            Some(found)
                        }
                    } else if first_fine {
                        Some(found)
                    } else if second_fine {
                        Some(factor)
                    } else if factor < found {
                        Some(factor)
                    } else {
                        Some(found)
                    }
                },
            };
        }
        place = place + 1;
    }
    best
}

/// One sub-block that is painted: where it lies, how large its stored
/// bitmap is, its rank in the order of painting, and its pixels, row by
/// row without padding.
pub struct TileView {
    pub rect: IntRect,
    pub width: int,
    pub height: int,
    pub key: int,
    pub data: Seq<u8>,
}

/// One sub-block that is painted.
#[derive(Debug)]
pub struct Tile {
    rect: IntRect,
    width: u32,
    height: u32,
    key: i64,
    data: Vec<u8>,
}

impl View for Tile {
    type V = TileView;

    closed spec fn view(&self) -> TileView {
        TileView {
            rect: self.rect,
            width: self.width as int,
            height: self.height as int,
            key: self.key as int,
            data: self.data@,
        }
    }
}

/// The rank of a sub-block in the order of painting: its M-index where the
/// sub-blocks are painted by M-index and it has one, a rank below every
/// M-index where it has none, and the same rank for all where they are
/// painted in the order of the directory.
pub open spec fn paint_key(entry: SubBlockDirectoryEntry, sort_by_m: bool) -> int {
    if !sort_by_m {
        0
    } else if entry.m_index_valid {
        entry.m_index as int
    } else {
        i32::MIN - 1
    }
}

impl TileView {
    /// What holds of the pixels of a tile of pixels of `bpp` bytes: the
    /// tile has an area, and as many pixels as its stored size says.
    pub open spec fn is_whole(self, bpp: int) -> bool {
        &&& self.rect.w > 0
        &&& self.rect.h > 0
        &&& self.width > 0
        &&& self.height > 0
        &&& self.data.len() == self.width * bpp * self.height
    }

    /// Whether the tile covers the point.
    pub open spec fn covers(self, x: int, y: int) -> bool {
        &&& self.rect.x <= x < self.rect.x + self.rect.w
        &&& self.rect.y <= y < self.rect.y + self.rect.h
    }

    /// The column of the stored bitmap that shows the point.
    pub open spec fn column_of(self, x: int) -> int {
        ((x - self.rect.x) * self.width) / (self.rect.w as int)
    }

    /// The row of the stored bitmap that shows the point.
    pub open spec fn row_of(self, y: int) -> int {
        ((y - self.rect.y) * self.height) / (self.rect.h as int)
    }

    /// The bytes of the pixel that shows the point.
    pub open spec fn pixel(self, x: int, y: int, bpp: int) -> Seq<u8> {
        let start = (self.width * bpp) * self.row_of(y) + bpp * self.column_of(x);
        self.data.subrange(start, start + bpp)
    }
}

/// The views of the tiles.
pub open spec fn tile_views(tiles: Seq<Tile>) -> Seq<TileView> {
    Seq::new(tiles.len(), |i: int| tiles[i]@)
}

/// Which of the first `count` tiles shows at the point: of those that
/// cover it, the one with the highest rank, and the last of these.
pub open spec fn winner(tiles: Seq<TileView>, x: int, y: int, count: nat) -> Option<int>
    decreases count,
{
    if count == 0 {
        None
    } else {
        let before = winner(tiles, x, y, (count - 1) as nat);
        if tiles[count - 1].covers(x, y) && (before matches Some(best) ==> tiles[count - 1].key
            >= tiles[best].key) {
            Some(count - 1)
        } else {
            before
        }
    }
}

/// The tile that shows at a point is the one that is painted last of those
/// that cover it: it covers the point, and every tile that covers the point
/// has a lower rank, or the same rank and a place before it. No tile shows
/// where none covers the point.
pub proof fn lemma_winner_is_painted_last(tiles: Seq<TileView>, x: int, y: int, count: nat)
    requires
        count <= tiles.len(),
    ensures
        match winner(tiles, x, y, count) {
            Some(best) => {
                &&& 0 <= best < count
                &&& tiles[best].covers(x, y)
                &&& forall|i: int|
                    0 <= i < count && (#[trigger] tiles[i]).covers(x, y) ==> tiles[i].key
                        < tiles[best].key || (tiles[i].key == tiles[best].key && i <= best)
            },
            None => forall|i: int| 0 <= i < count ==> !(#[trigger] tiles[i]).covers(x, y),
        },
    decreases count,
{
    if count > 0 {
        lemma_winner_is_painted_last(tiles, x, y, (count - 1) as nat);
    }
}

/// The bytes of the picture at a point of the source: the pixel of the tile
/// that shows there, and the background where none does.
pub open spec fn pixel_at(tiles: Seq<TileView>, x: int, y: int, bpp: int, background: Seq<u8>) -> Seq<
    u8,
> {
    match winner(tiles, x, y, tiles.len()) {
        Some(best) => tiles[best].pixel(x, y, bpp),
        None => background,
    }
}

/// The place in the source that a place in the picture is taken from: the
/// place in the picture divided by the zoom factor, rounded down, and the
/// last place of the region at most.
pub open spec fn source_place(zoom: Zoom, place: int, size: int) -> int {
    if zoom.unscaled(place) < size - 1 {
        zoom.unscaled(place)
    } else {
        size - 1
    }
}

/// The first `count` pixels of row `row` of the picture.
pub open spec fn picture_row(
    tiles: Seq<TileView>,
    roi: IntRect,
    zoom: Zoom,
    bpp: int,
    background: Seq<u8>,
    row: int,
    count: nat,
) -> Seq<u8>
    decreases count,
{
    if count == 0 {
        Seq::empty()
    } else {
        picture_row(tiles, roi, zoom, bpp, background, row, (count - 1) as nat) + pixel_at(
            tiles,
            roi.x + source_place(zoom, count - 1, roi.w as int),
            roi.y + source_place(zoom, row, roi.h as int),
            bpp,
            background,
        )
    }
}

/// The first `rows` rows of the picture, each of `width` pixels.
pub open spec fn picture(
    tiles: Seq<TileView>,
    roi: IntRect,
    zoom: Zoom,
    bpp: int,
    background: Seq<u8>,
    width: nat,
    rows: nat,
) -> Seq<u8>
    decreases rows,
{
    if rows == 0 {
        Seq::empty()
    } else {
        picture(tiles, roi, zoom, bpp, background, width, (rows - 1) as nat) + picture_row(
            tiles,
            roi,
            zoom,
            bpp,
            background,
            rows - 1,
            width,
        )
    }
}

/// Which of the tiles shows at the point.
fn find_winner(tiles: &Vec<Tile>, x: i64, y: i64) -> (best: Option<usize>)
    ensures
        match best {
            Some(found) => winner(tile_views(tiles@), x as int, y as int, tiles@.len()) == Some(
                found as int,
            ) && found < tiles@.len(),
            None => winner(tile_views(tiles@), x as int, y as int, tiles@.len()) is None,
        },
{
    let mut best: Option<usize> = None;
    let mut place: usize = 0;
    let ghost views = tile_views(tiles@);
    while place < tiles.len()
        invariant
            place <= tiles@.len(),
            views == tile_views(tiles@),
            match best {
                Some(found) => winner(views, x as int, y as int, place as nat) == Some(found as int)
                    && found < place,
                None => winner(views, x as int, y as int, place as nat) is None,
            },
        decreases tiles@.len() - place,
    {
        let tile = &tiles[place];
        assert(views[place as int] == tile@);
        let covers = tile.rect.x as i64 <= x && x < tile.rect.x as i64 + tile.rect.w as i64
            && tile.rect.y as i64 <= y && y < tile.rect.y as i64 + tile.rect.h as i64;
        if covers {
            let higher = match best {
                None => true,
                Some(found) => {
                    assert(views[found as int] == tiles@[found as int]@);
                    tile.key >= tiles[found].key
                },
            };
            if higher {
                best = Some(place);
            }
        }
        place = place + 1;
    }
    best
}

/// The byte that stands for a part of a colour between 0 and 1: the part
/// times 255, rounded to the nearest whole number. What is below 0 or no
/// number gives 0, what is above 1 gives 255.
pub open spec fn unit_to_byte(bits: u32) -> int {
    if sign_bit(bits) {
        0
    } else if exponent_bits(bits) == 255 {
        if fraction_bits(bits) == 0 {
            255
        } else {
            0
        }
    } else {
        match Zoom::of_bits(bits) {
            None => 0,
            Some(part) => if part.scaled(255) > 255 {
                255
            } else {
                part.scaled(255)
            },
        }
    }
}

/// The byte that stands for a part of a colour between 0 and 1.
pub fn color_byte(bits: u32) -> (byte: u8)
    ensures
        byte == unit_to_byte(bits),
{
    let exponent: u32 = (bits >> 23) & 0xff;
    let fraction: u32 = bits & 0x7f_ffff;
    if bits >> 31 == 1 {
        0
    } else if exponent == 255 {
        if fraction == 0 {
            255
        } else {
            0
        }
    } else {
        match Zoom::from_bits(bits) {
            None => 0,
            Some(part) => match part.scale(255) {
                None => 255,
                Some(scaled) => if scaled > 255 {
                    255
                } else {
                    scaled as u8
                },
            },
        }
    }
}

/// The bytes of a pixel of the background colour.
///
/// A gray pixel has the mean of the three parts of the colour. A sample of
/// 16 bits has the byte of its part twice. A pixel with an alpha part is
/// opaque. Pixel types whose samples are no whole numbers of 8 or 16 bits
/// have a black background.
pub open spec fn background_spec(pixel_type: PixelType, red: u32, green: u32, blue: u32) -> Seq<u8> {
    let r = unit_to_byte(red) as u8;
    let g = unit_to_byte(green) as u8;
    let b = unit_to_byte(blue) as u8;
    let gray = ((unit_to_byte(red) + unit_to_byte(green) + unit_to_byte(blue)) / 3) as u8;
    match pixel_type {
        PixelType::Gray8 => seq![gray],
        PixelType::Gray16 => seq![gray, gray],
        PixelType::Bgr24 => seq![b, g, r],
        PixelType::Bgr48 => seq![b, b, g, g, r, r],
        PixelType::Bgra32 => seq![b, g, r, 255u8],
        _ => Seq::new(pixel_type.bytes_per_pixel_spec() as nat, |i: int| 0u8),
    }
}

/// The bytes of a pixel of the background colour.
pub fn background_pixel(pixel_type: PixelType, red: u32, green: u32, blue: u32) -> (pixel: Vec<u8>)
    ensures
        pixel@ == background_spec(pixel_type, red, green, blue),
        pixel@.len() == pixel_type.bytes_per_pixel_spec(),
{
    let r: u8 = color_byte(red);
    let g: u8 = color_byte(green);
    let b: u8 = color_byte(blue);
    let gray: u8 = ((r as u32 + g as u32 + b as u32) / 3) as u8;
    let mut pixel: Vec<u8> = Vec::new();
    match pixel_type {
        PixelType::Gray8 => {
            pixel.push(gray);
        },
        PixelType::Gray16 => {
            pixel.push(gray);
            pixel.push(gray);
        },
        PixelType::Bgr24 => {
            pixel.push(b);
            pixel.push(g);
            pixel.push(r);
        },
        PixelType::Bgr48 => {
            pixel.push(b);
            pixel.push(b);
            pixel.push(g);
            pixel.push(g);
            pixel.push(r);
            pixel.push(r);
        },
        PixelType::Bgra32 => {
            pixel.push(b);
            pixel.push(g);
            pixel.push(r);
            pixel.push(255u8);
        },
        _ => {
            let size: u32 = pixel_type.bytes_per_pixel();
            let mut done: u32 = 0;
            while done < size
                invariant
                    done <= size,
                    pixel@ == Seq::new(done as nat, |i: int| 0u8),
                decreases size - done,
            {
                pixel.push(0u8);
                done = done + 1;
                assert(pixel@ =~= Seq::new(done as nat, |i: int| 0u8));
            }
        },
    }
    assert(pixel@ =~= background_spec(pixel_type, red, green, blue));
    pixel
}

/// A sub-block that is painted: its place in the directory, where it lies,
/// and its rank in the order of painting.
pub struct Placement {
    pub place: int,
    pub rect: IntRect,
    pub key: int,
}

/// A sub-block that is painted.
#[derive(Clone, Copy, Debug)]
pub struct Placed {
    place: usize,
    rect: IntRect,
    key: i64,
}

impl View for Placed {
    type V = Placement;

    closed spec fn view(&self) -> Placement {
        Placement { place: self.place as int, rect: self.rect, key: self.key as int }
    }
}

/// The views of the placements.
pub open spec fn placement_views(list: Seq<Placed>) -> Seq<Placement> {
    Seq::new(list.len(), |i: int| list[i]@)
}

/// The sub-blocks that are painted, of the first `count` entries, in the
/// order of the directory.
pub open spec fn placements(
    entries: Seq<SubBlockDirectoryEntry>,
    plane: Coordinate,
    roi: IntRect,
    zoom: Zoom,
    sort_by_m: bool,
    count: nat,
) -> Seq<Placement>
    decreases count,
{
    if count == 0 {
        Seq::empty()
    } else {
        let before = placements(entries, plane, roi, zoom, sort_by_m, (count - 1) as nat);
        if is_selected(entries, plane, roi, zoom, count - 1) {
            before.push(
                Placement {
                    place: count - 1,
                    rect: entries[count - 1].logical_rect,
                    key: paint_key(entries[count - 1], sort_by_m),
                },
            )
        } else {
            before
        }
    }
}

/// Every placement names a sub-block of the directory that is painted, with
/// its rectangle and its rank.
pub proof fn lemma_placements(
    entries: Seq<SubBlockDirectoryEntry>,
    plane: Coordinate,
    roi: IntRect,
    zoom: Zoom,
    sort_by_m: bool,
    count: nat,
)
    requires
        count <= entries.len(),
    ensures
        placements(entries, plane, roi, zoom, sort_by_m, count).len() <= count,
        forall|k: int|
            0 <= k < placements(entries, plane, roi, zoom, sort_by_m, count).len() ==> {
                let placement = #[trigger] placements(entries, plane, roi, zoom, sort_by_m, count)[k];
                &&& 0 <= placement.place < count
                &&& is_selected(entries, plane, roi, zoom, placement.place)
                &&& placement.rect == entries[placement.place].logical_rect
                &&& placement.key == paint_key(entries[placement.place], sort_by_m)
            },
    decreases count,
{
    if count > 0 {
        lemma_placements(entries, plane, roi, zoom, sort_by_m, (count - 1) as nat);
    }
}

/// Whether `outer` holds all that `inner` has within the region, for an
/// `inner` that meets the region.
pub open spec fn covers_within(outer: IntRect, inner: IntRect, roi: IntRect) -> bool {
    &&& outer.x <= inner.x || outer.x <= roi.x
    &&& outer.y <= inner.y || outer.y <= roi.y
    &&& inner.x + inner.w <= outer.x + outer.w || roi.x + roi.w <= outer.x + outer.w
    &&& inner.y + inner.h <= outer.y + outer.h || roi.y + roi.h <= outer.y + outer.h
}

/// Whether the tile at `first` is painted after the tile at `second`.
pub open spec fn outranks(tiles: Seq<TileView>, first: int, second: int) -> bool {
    tiles[first].key > tiles[second].key || (tiles[first].key == tiles[second].key && first
        > second)
}

/// Whether a tile ends up hidden: a tile that is painted after it holds all
/// that it has within the region.
pub open spec fn is_hidden(tiles: Seq<TileView>, place: int, roi: IntRect) -> bool {
    exists|other: int|
        0 <= other < tiles.len() && outranks(tiles, other, place) && covers_within(
            (#[trigger] tiles[other]).rect,
            tiles[place].rect,
            roi,
        )
}

/// A tile as it stands for a sub-block that is not read: with the
/// rectangle and the rank of the sub-block, and without pixels.
pub open spec fn blank_tile(placement: Placement) -> TileView {
    TileView { rect: placement.rect, width: 0, height: 0, key: placement.key, data: Seq::empty() }
}

/// The tiles that stand for the sub-blocks of a list, none of them read.
pub open spec fn blank_tiles(list: Seq<Placement>) -> Seq<TileView> {
    Seq::new(list.len(), |i: int| blank_tile(list[i]))
}

/// Whether two lists of tiles lie alike: they have the same rectangles and
/// the same ranks.
pub open spec fn same_layout(first: Seq<TileView>, second: Seq<TileView>) -> bool {
    &&& first.len() == second.len()
    &&& forall|i: int|
        0 <= i < first.len() ==> (#[trigger] first[i]).rect == second[i].rect && first[i].key
            == second[i].key
}

/// Which tile shows at a point, and which tiles end up hidden, is a matter
/// of where the tiles lie and how they rank, not of their pixels.
pub proof fn lemma_layout_decides(
    first: Seq<TileView>,
    second: Seq<TileView>,
    x: int,
    y: int,
    roi: IntRect,
    count: nat,
)
    requires
        same_layout(first, second),
        count <= first.len(),
    ensures
        winner(first, x, y, count) == winner(second, x, y, count),
        forall|k: int| 0 <= k < first.len() ==> is_hidden(first, k, roi) == is_hidden(second, k, roi),
    decreases count,
{
    if count > 0 {
        lemma_layout_decides(first, second, x, y, roi, (count - 1) as nat);
        assert(first[count - 1].rect == second[count - 1].rect);
        match winner(first, x, y, (count - 1) as nat) {
            Some(best) => {
                lemma_winner_is_painted_last(first, x, y, (count - 1) as nat);
                assert(first[best].key == second[best].key);
            },
            None => {},
        }
    }
    assert forall|k: int| 0 <= k < first.len() implies is_hidden(first, k, roi) == is_hidden(
        second,
        k,
        roi,
    ) by {
        assert(first[k].rect == second[k].rect);
        if is_hidden(first, k, roi) {
            let other = choose|other: int|
                0 <= other < first.len() && outranks(first, other, k) && covers_within(
                    (#[trigger] first[other]).rect,
                    first[k].rect,
                    roi,
                );
            assert(second[other].rect == first[other].rect);
            assert(outranks(second, other, k));
        }
        if is_hidden(second, k, roi) {
            let other = choose|other: int|
                0 <= other < second.len() && outranks(second, other, k) && covers_within(
                    (#[trigger] second[other]).rect,
                    second[k].rect,
                    roi,
                );
            assert(first[other].rect == second[other].rect);
            assert(outranks(first, other, k));
        }
    }
}

/// The tile that shows at a point of the region is not hidden.
pub proof fn lemma_winner_is_not_hidden(tiles: Seq<TileView>, x: int, y: int, roi: IntRect)
    requires
        roi.x <= x < roi.x + roi.w,
        roi.y <= y < roi.y + roi.h,
        winner(tiles, x, y, tiles.len()) is Some,
    ensures
        !is_hidden(tiles, winner(tiles, x, y, tiles.len())->0, roi),
{
    let best = winner(tiles, x, y, tiles.len())->0;
    lemma_winner_is_painted_last(tiles, x, y, tiles.len());
    if is_hidden(tiles, best, roi) {
        let other = choose|other: int|
            0 <= other < tiles.len() && outranks(tiles, other, best) && covers_within(
                (#[trigger] tiles[other]).rect,
                tiles[best].rect,
                roi,
            );
        assert(tiles[other].covers(x, y));
    }
}

/// How many bytes a pixel of the type with the given number takes, and 1
/// where the number stands for no type.
pub open spec fn pixel_size(pixel_type: i32) -> int {
    match PixelType::of_code(pixel_type as int) {
        Some(found) => found.bytes_per_pixel_spec(),
        None => 1,
    }
}

/// The tiles of the first `count` sub-blocks of a list, or the error of the
/// first sub-block among them that cannot take part.
///
/// A sub-block is read where its entry says and decoded. Its error is the
/// error of reading or decoding it; it is `CorruptData` where its segment
/// says that it has no pixels, and `InvalidArgument` where its pixel type
/// is not the one that is expected. Where hidden sub-blocks are left out, a
/// sub-block that ends up hidden is not read: it gives a tile without
/// pixels, and no error.
pub open spec fn tiles_from(
    stream: Seq<u8>,
    entries: Seq<SubBlockDirectoryEntry>,
    list: Seq<Placement>,
    roi: IntRect,
    pixel_type: i32,
    leave_hidden_out: bool,
    count: nat,
) -> Result<Seq<TileView>, LibCZIApiError>
    decreases count,
{
    if count == 0 {
        Ok(Seq::empty())
    } else {
        match tiles_from(
            stream,
            entries,
            list,
            roi,
            pixel_type,
            leave_hidden_out,
            (count - 1) as nat,
        ) {
            Err(e) => Err(e),
            Ok(tiles) => if leave_hidden_out && is_hidden(blank_tiles(list), count - 1, roi) {
                Ok(tiles.push(blank_tile(list[count - 1])))
            } else {
                match sub_block_at(stream, entries[list[count - 1].place].file_position as int) {
                    Err(e) => Err(e),
                    Ok(content) => match decode_spec(content) {
                        Err(e) => Err(e),
                        Ok((info, stride)) => if info.width == 0 || info.height == 0 {
                            Err(LibCZIApiError::CorruptData)
                        } else if info.pixel_type != pixel_type {
                            Err(LibCZIApiError::InvalidArgument)
                        } else {
                            Ok(
                                tiles.push(
                                    TileView {
                                        rect: list[count - 1].rect,
                                        width: info.width as int,
                                        height: info.height as int,
                                        key: list[count - 1].key,
                                        data: pixels_of(content)->Ok_0,
                                    },
                                ),
                            )
                        },
                    },
                }
            },
        }
    }
}

/// Whether a list of sub-blocks is one that can be painted in the region:
/// each of them names an entry and has a rectangle that meets the region.
pub open spec fn is_paintable(list: Seq<Placement>, entry_count: int, roi: IntRect) -> bool {
    forall|k: int|
        0 <= k < list.len() ==> 0 <= (#[trigger] list[k]).place < entry_count
            && list[k].rect.intersects_spec(roi)
}

/// The tiles of a list lie as the list says. Each of them is whole, or is
/// hidden and was left out.
pub proof fn lemma_tiles_from(
    stream: Seq<u8>,
    entries: Seq<SubBlockDirectoryEntry>,
    list: Seq<Placement>,
    roi: IntRect,
    pixel_type: i32,
    leave_hidden_out: bool,
    count: nat,
)
    requires
        count <= list.len(),
        is_paintable(list, entries.len() as int, roi),
        PixelType::of_code(pixel_type as int) is Some,
    ensures
        tiles_from(stream, entries, list, roi, pixel_type, leave_hidden_out, count) matches Ok(
            tiles,
        ) ==> {
            &&& tiles.len() == count
            &&& forall|k: int|
                0 <= k < count ==> {
                    &&& (#[trigger] tiles[k]).rect == list[k].rect
                    &&& tiles[k].key == list[k].key
                    &&& tiles[k].is_whole(pixel_size(pixel_type)) || (leave_hidden_out && is_hidden(
                        blank_tiles(list),
                        k,
                        roi,
                    ) && tiles[k] == blank_tile(list[k]))
                }
        },
    decreases count,
{
    if count > 0 {
        lemma_tiles_from(
            stream,
            entries,
            list,
            roi,
            pixel_type,
            leave_hidden_out,
            (count - 1) as nat,
        );
        let now = tiles_from(stream, entries, list, roi, pixel_type, leave_hidden_out, count);
        let before = tiles_from(
            stream,
            entries,
            list,
            roi,
            pixel_type,
            leave_hidden_out,
            (count - 1) as nat,
        );
        if now is Ok {
            let tiles = now->Ok_0;
            let front = before->Ok_0;
            assert(list[count - 1].rect.intersects_spec(roi));
            assert forall|k: int| 0 <= k < count implies {
                &&& (#[trigger] tiles[k]).rect == list[k].rect
                &&& tiles[k].key == list[k].key
                &&& tiles[k].is_whole(pixel_size(pixel_type)) || (leave_hidden_out && is_hidden(
                    blank_tiles(list),
                    k,
                    roi,
                ) && tiles[k] == blank_tile(list[k]))
            } by {
                if k < count - 1 {
                    assert(tiles[k] == front[k]);
                }
            }
        }
    }
}

/// Where the first sub-blocks of a list cannot all take part, neither can
/// more of them, and the error is the same.
proof fn lemma_tiles_fail(
    stream: Seq<u8>,
    entries: Seq<SubBlockDirectoryEntry>,
    list: Seq<Placement>,
    roi: IntRect,
    pixel_type: i32,
    leave_hidden_out: bool,
    count: nat,
    more: nat,
)
    requires
        count <= more,
        tiles_from(stream, entries, list, roi, pixel_type, leave_hidden_out, count) is Err,
    ensures
        tiles_from(stream, entries, list, roi, pixel_type, leave_hidden_out, more) == tiles_from(
            stream,
            entries,
            list,
            roi,
            pixel_type,
            leave_hidden_out,
            count,
        ),
    decreases more - count,
{
    if count < more {
        lemma_tiles_fail(
            stream,
            entries,
            list,
            roi,
            pixel_type,
            leave_hidden_out,
            count,
            (more - 1) as nat,
        );
    }
}

/// The sub-blocks that are painted, in the order of the directory.
fn collect_placements(
    entries: &[SubBlockDirectoryEntry],
    plane: &Coordinate,
    roi: &IntRect,
    zoom: &Zoom,
    sort_by_m: bool,
) -> (list: Vec<Placed>)
    requires
        zoom.is_valid_spec(),
    ensures
        placement_views(list@) == placements(
            entries@,
            *plane,
            *roi,
            *zoom,
            sort_by_m,
            entries@.len(),
        ),
{
    let layer = choose_layer(entries, plane, roi, zoom);
    let mut list: Vec<Placed> = Vec::new();
    let mut place: usize = 0;
    assert(placement_views(list@) =~= Seq::<Placement>::empty());
    while place < entries.len()
        invariant
            place <= entries@.len(),
            zoom.is_valid_spec(),
            match layer {
                Some(found) => chosen_factor(entries@, *plane, *roi, *zoom, entries@.len()) == Some(
                    found as int,
                ),
                None => chosen_factor(entries@, *plane, *roi, *zoom, entries@.len()) is None,
            },
            placement_views(list@) == placements(
                entries@,
                *plane,
                *roi,
                *zoom,
                sort_by_m,
                place as nat,
            ),
        decreases entries@.len() - place,
    {
        let entry = &entries[place];
        let selected = has_part(entry, plane, roi) && match layer {
            Some(found) => minification_of(entry) == found,
            None => false,
        };
        assert(selected == is_selected(entries@, *plane, *roi, *zoom, place as int));
        if selected {
            let key: i64 = if !sort_by_m {
                0
            } else if entry.m_index_valid {
                entry.m_index as i64
            } else {
                i32::MIN as i64 - 1
            };
            let ghost before = placement_views(list@);
            let placed = Placed { place, rect: entry.logical_rect, key };
            list.push(placed);
            assert(placement_views(list@) =~= before.push(placed@));
        }
        place = place + 1;
    }
    list
}

/// Whether `outer` holds all that `inner` has within the region.
fn holds_within(outer: &IntRect, inner: &IntRect, roi: &IntRect) -> (held: bool)
    ensures
        held == covers_within(*outer, *inner, *roi),
{
    let left: i64 = outer.x as i64;
    let top: i64 = outer.y as i64;
    let right: i64 = outer.x as i64 + outer.w as i64;
    let bottom: i64 = outer.y as i64 + outer.h as i64;
    (left <= inner.x as i64 || left <= roi.x as i64) && (top <= inner.y as i64 || top
        <= roi.y as i64) && (inner.x as i64 + inner.w as i64 <= right || roi.x as i64
        + roi.w as i64 <= right) && (inner.y as i64 + inner.h as i64 <= bottom || roi.y as i64
        + roi.h as i64 <= bottom)
}

/// Whether the sub-block at a place of the list ends up hidden.
fn ends_up_hidden(list: &Vec<Placed>, place: usize, roi: &IntRect) -> (hidden: bool)
    requires
        place < list@.len(),
    ensures
        hidden == is_hidden(blank_tiles(placement_views(list@)), place as int, *roi),
{
    let ghost tiles = blank_tiles(placement_views(list@));
    let mine = list[place];
    let mut other: usize = 0;
    while other < list.len()
        invariant
            other <= list@.len(),
            place < list@.len(),
            mine == list@[place as int],
            tiles == blank_tiles(placement_views(list@)),
            forall|j: int|
                0 <= j < other ==> !(outranks(tiles, j, place as int) && covers_within(
                    (#[trigger] tiles[j]).rect,
                    tiles[place as int].rect,
                    *roi,
                )),
        decreases list@.len() - other,
    {
        let theirs = list[other];
        assert(tiles[other as int] == blank_tile(list@[other as int]@));
        assert(tiles[place as int] == blank_tile(list@[place as int]@));
        let later = theirs.key > mine.key || (theirs.key == mine.key && other > place);
        if later && holds_within(&theirs.rect, &mine.rect, roi) {
            return true;
        }
        other = other + 1;
    }
    false
}

/// Reads and decodes the sub-blocks of a list.
fn collect_tiles(
    stream: &[u8],
    entries: &[SubBlockDirectoryEntry],
    list: &Vec<Placed>,
    roi: &IntRect,
    pixel_type: i32,
    leave_hidden_out: bool,
) -> (collected: Result<Vec<Tile>, LibCZIApiError>)
    requires
        is_paintable(placement_views(list@), entries@.len() as int, *roi),
    ensures
        match collected {
            Ok(tiles) => tiles_from(
                stream@,
                entries@,
                placement_views(list@),
                *roi,
                pixel_type,
                leave_hidden_out,
                list@.len(),
            ) == Ok::<Seq<TileView>, LibCZIApiError>(tile_views(tiles@)),
            Err(e) => tiles_from(
                stream@,
                entries@,
                placement_views(list@),
                *roi,
                pixel_type,
                leave_hidden_out,
                list@.len(),
            ) == Err::<Seq<TileView>, LibCZIApiError>(e),
        },
{
    let ghost views = placement_views(list@);
    let mut tiles: Vec<Tile> = Vec::new();
    let mut place: usize = 0;
    assert(tile_views(tiles@) =~= Seq::<TileView>::empty());
    while place < list.len()
        invariant
            place <= list@.len(),
            views == placement_views(list@),
            is_paintable(views, entries@.len() as int, *roi),
            tiles_from(stream@, entries@, views, *roi, pixel_type, leave_hidden_out, place as nat)
                == Ok::<Seq<TileView>, LibCZIApiError>(tile_views(tiles@)),
        decreases list@.len() - place,
    {
        let placed = list[place];
        let ghost before = tile_views(tiles@);
        assert(views[place as int] == placed@);
        if leave_hidden_out && ends_up_hidden(list, place, roi) {
            let tile = Tile { rect: placed.rect, width: 0, height: 0, key: placed.key, data: Vec::new() };
            let ghost view = tile@;
            tiles.push(tile);
            assert(view == blank_tile(views[place as int]));
            assert(tile_views(tiles@) =~= before.push(view));
        } else {
            let entry = &entries[placed.place];
            let payload = match read_payload(stream, entry.file_position, SegmentKind::SubBlock) {
                Ok(found) => found,
                Err(e) => {
                    proof {
                        lemma_tiles_fail(
                            stream@,
                            entries@,
                            views,
                            *roi,
                            pixel_type,
                            leave_hidden_out,
                            (place + 1) as nat,
                            list@.len(),
                        );
                    }
                    return Err(e);
                },
            };
            let sub_block = match read_sub_block_payload(payload) {
                Ok(found) => found,
                Err(e) => {
                    proof {
                        lemma_tiles_fail(
                            stream@,
                            entries@,
                            views,
                            *roi,
                            pixel_type,
                            leave_hidden_out,
                            (place + 1) as nat,
                            list@.len(),
                        );
                    }
                    return Err(e);
                },
            };
            let (info, stride, pixels) = match sub_block.decode() {
                Ok(found) => found,
                Err(e) => {
                    proof {
                        lemma_tiles_fail(
                            stream@,
                            entries@,
                            views,
                            *roi,
                            pixel_type,
                            leave_hidden_out,
                            (place + 1) as nat,
                            list@.len(),
                        );
                    }
                    return Err(e);
                },
            };
            if info.width == 0 || info.height == 0 || info.pixel_type != pixel_type {
                proof {
                    lemma_tiles_fail(
                        stream@,
                        entries@,
                        views,
                        *roi,
                        pixel_type,
                        leave_hidden_out,
                        (place + 1) as nat,
                        list@.len(),
                    );
                }
                if info.width == 0 || info.height == 0 {
                    return Err(LibCZIApiError::CorruptData);
                }
                return Err(LibCZIApiError::InvalidArgument);
            }
            let tile = Tile {
                rect: placed.rect,
                width: info.width,
                height: info.height,
                key: placed.key,
                data: pixels,
            };
            let ghost view = tile@;
            tiles.push(tile);
            assert(tile_views(tiles@) =~= before.push(view));
        }
        place = place + 1;
    }
    Ok(tiles)
}

impl Tile {
    /// The bytes of the pixel that shows the point.
    fn sample(&self, x: i64, y: i64, bpp: usize) -> (pixel: &[u8])
        requires
            1 <= bpp <= 24,
            self@.is_whole(bpp as int),
            self@.covers(x as int, y as int),
        ensures
            pixel@ == self@.pixel(x as int, y as int, bpp as int),
            pixel@.len() == bpp,
    {
        let size: usize = self.data.len();
        let across: u64 = (x - self.rect.x as i64) as u64;
        let down: u64 = (y - self.rect.y as i64) as u64;
        let width: u64 = self.width as u64;
        let height: u64 = self.height as u64;
        let w: u64 = self.rect.w as u64;
        let h: u64 = self.rect.h as u64;
        assert(across * width <= 0x7fff_ffff * 0xffff_ffff && down * height <= 0x7fff_ffff
            * 0xffff_ffff) by (nonlinear_arith)
            requires
                across <= 0x7fff_ffff,
                down <= 0x7fff_ffff,
                width <= 0xffff_ffff,
                height <= 0xffff_ffff,
        ;
        let column: u64 = (across * width) / w;
        let row: u64 = (down * height) / h;
        assert(column < width) by (nonlinear_arith)
            requires
                column as int == (across as int * width as int) / (w as int),
                0 <= across < w,
                width > 0,
        ;
        assert(row < height) by (nonlinear_arith)
            requires
                row as int == (down as int * height as int) / (h as int),
                0 <= down < h,
                height > 0,
        ;
        let ghost line = width as int * bpp as int;
        assert(line * row + bpp * column + bpp <= line * height && line * row >= 0 && bpp * column
            >= 0 && line >= 0 && line == width * bpp) by (nonlinear_arith)
            requires
                line == width as int * bpp as int,
                0 <= row < height,
                0 <= column < width,
                bpp >= 1,
        ;
        assert(width * bpp as u64 == line && line <= 0xffff_ffff * 24) by (nonlinear_arith)
            requires
                line == width as int * bpp as int,
                0 <= width <= 0xffff_ffff,
                1 <= bpp <= 24,
        ;
        let start: usize = ((width * bpp as u64) * row + bpp as u64 * column) as usize;
        slice_subrange(self.data.as_slice(), start, start + bpp)
    }
}

/// The bytes of the picture, row by row.
fn compose(
    tiles: &Vec<Tile>,
    roi: &IntRect,
    zoom: &Zoom,
    bpp: usize,
    background: &Vec<u8>,
    width: u32,
    height: u32,
) -> (out: Vec<u8>)
    requires
        zoom.is_valid_spec(),
        roi.w > 0,
        roi.h > 0,
        1 <= bpp <= 24,
        background@.len() == bpp,
        forall|i: int|
            0 <= i < tiles@.len() ==> (#[trigger] tile_views(tiles@)[i]).is_whole(bpp as int)
                || is_hidden(tile_views(tiles@), i, *roi),
    ensures
        out@ == picture(
            tile_views(tiles@),
            *roi,
            *zoom,
            bpp as int,
            background@,
            width as nat,
            height as nat,
        ),
        out@.len() == (width * bpp) * height,
{
    let ghost views = tile_views(tiles@);
    let mut out: Vec<u8> = Vec::new();
    let mut row: u32 = 0;
    assert((width * bpp) * 0 == 0) by (nonlinear_arith);
    while row < height
        invariant
            row <= height,
            zoom.is_valid_spec(),
            roi.w > 0,
            roi.h > 0,
            1 <= bpp <= 24,
            background@.len() == bpp,
            views == tile_views(tiles@),
            forall|i: int|
                0 <= i < tiles@.len() ==> (#[trigger] views[i]).is_whole(bpp as int) || is_hidden(
                    views,
                    i,
                    *roi,
                ),
            out@ == picture(views, *roi, *zoom, bpp as int, background@, width as nat, row as nat),
            out@.len() == (width * bpp) * row,
        decreases height - row,
    {
        let y: i64 = roi.y as i64 + zoom.unscale(row, (roi.h - 1) as u32) as i64;
        let ghost above = out@;
        let mut column: u32 = 0;
        assert(bpp * 0 == 0) by (nonlinear_arith);
        while column < width
            invariant
                column <= width,
                row < height,
                zoom.is_valid_spec(),
                roi.w > 0,
                roi.h > 0,
                1 <= bpp <= 24,
                background@.len() == bpp,
                views == tile_views(tiles@),
                forall|i: int|
                0 <= i < tiles@.len() ==> (#[trigger] views[i]).is_whole(bpp as int) || is_hidden(
                    views,
                    i,
                    *roi,
                ),
                y == roi.y + source_place(*zoom, row as int, roi.h as int),
                roi.y <= y < roi.y + roi.h,
                out@ == above + picture_row(
                    views,
                    *roi,
                    *zoom,
                    bpp as int,
                    background@,
                    row as int,
                    column as nat,
                ),
                out@.len() == above.len() + bpp * column,
            decreases width - column,
        {
            let x: i64 = roi.x as i64 + zoom.unscale(column, (roi.w - 1) as u32) as i64;
            let ghost so_far = out@;
            assert(bpp * (column + 1) == bpp * column + bpp) by (nonlinear_arith);
            match find_winner(tiles, x, y) {
                Some(best) => {
                    proof {
                        lemma_winner_is_painted_last(views, x as int, y as int, tiles@.len());
                        lemma_winner_is_not_hidden(views, x as int, y as int, *roi);
                        assert(views[best as int] == tiles@[best as int]@);
                    }
                    let pixel = tiles[best].sample(x, y, bpp);
                    out.extend_from_slice(pixel);
                    assert(out@ =~= so_far + pixel@);
                },
                None => {
                    out.extend_from_slice(background.as_slice());
                    assert(out@ =~= so_far + background@);
                },
            }
            assert(out@ =~= above + picture_row(
                views,
                *roi,
                *zoom,
                bpp as int,
                background@,
                row as int,
                (column + 1) as nat,
            ));
            column = column + 1;
        }
        assert((width * bpp) * (row + 1) == (width * bpp) * row + bpp * width) by (nonlinear_arith);
        row = row + 1;
    }
    out
}

/// A picture: its form, its stride, and its pixels.
pub struct PictureView {
    pub info: BitmapInfo,
    pub stride: u32,
    pub pixels: Seq<u8>,
}

/// The number of the pixel type of a picture: that of the first sub-block
/// that is painted, and that of 8-bit gray where none is.
pub open spec fn picture_pixel_type(entries: Seq<SubBlockDirectoryEntry>, list: Seq<Placement>) -> i32 {
    if list.len() > 0 {
        entries[list[0].place].pixel_type
    } else {
        0i32
    }
}

/// What asking for a picture gives.
///
/// The picture has the size that `calc_size_spec` states, the pixel type of
/// the sub-blocks that are painted, or 8-bit gray where none is, and rows
/// without padding. Each of its pixels is taken from the point of the
/// region that its place, divided by the zoom factor, lies at, and shows
/// the sub-block that is painted last of those that cover the point, or
/// the background colour.
///
/// `InvalidArgument` for a plane with dimensions that are not known, and
/// for a region or a zoom factor that `calc_size_spec` refuses;
/// `CorruptData` for a pixel type that is not known; the error of the first
/// sub-block that cannot take part; `OutOfMemory` for a picture that is
/// larger than memory can be.
pub open spec fn get_spec(
    stream: Seq<u8>,
    entries: Seq<SubBlockDirectoryEntry>,
    plane: Coordinate,
    roi: IntRect,
    zoom: u32,
    sort_by_m: bool,
    leave_hidden_out: bool,
    red: u32,
    green: u32,
    blue: u32,
) -> Result<PictureView, LibCZIApiError> {
    if !plane.is_valid_spec() {
        Err(LibCZIApiError::InvalidArgument)
    } else {
        match calc_size_spec(roi, zoom) {
            Err(e) => Err(e),
            Ok(size) => {
                let factor = Zoom::of_bits(zoom)->0;
                let list = placements(entries, plane, roi, factor, sort_by_m, entries.len());
                let pixel_code = picture_pixel_type(entries, list);
                let bpp = pixel_size(pixel_code);
                if PixelType::of_code(pixel_code as int) is None {
                    Err(LibCZIApiError::CorruptData)
                } else {
                    match tiles_from(
                        stream,
                        entries,
                        list,
                        roi,
                        pixel_code,
                        leave_hidden_out,
                        list.len(),
                    ) {
                        Err(e) => Err(e),
                        Ok(tiles) => if size.w * bpp > u32::MAX || (size.w * bpp) * size.h
                            > usize::MAX {
                            Err(LibCZIApiError::OutOfMemory)
                        } else {
                            Ok(
                                PictureView {
                                    info: BitmapInfo {
                                        width: size.w as u32,
                                        height: size.h as u32,
                                        pixel_type: pixel_code,
                                    },
                                    stride: (size.w * bpp) as u32,
                                    pixels: picture(
                                        tiles,
                                        roi,
                                        factor,
                                        bpp,
                                        background_spec(
                                            PixelType::of_code(pixel_code as int)->0,
                                            red,
                                            green,
                                            blue,
                                        ),
                                        size.w as nat,
                                        size.h as nat,
                                    ),
                                },
                            )
                        },
                    }
                }
            },
        }
    }
}

/// The same request gives the same picture, byte for byte, or the same
/// error, however often it is made.
pub proof fn lemma_get_is_repeatable(
    stream: Seq<u8>,
    entries: Seq<SubBlockDirectoryEntry>,
    plane: Coordinate,
    roi: IntRect,
    zoom: u32,
    sort_by_m: bool,
    leave_hidden_out: bool,
    red: u32,
    green: u32,
    blue: u32,
    first: Result<PictureView, LibCZIApiError>,
    second: Result<PictureView, LibCZIApiError>,
)
    requires
        first == get_spec(
            stream,
            entries,
            plane,
            roi,
            zoom,
            sort_by_m,
            leave_hidden_out,
            red,
            green,
            blue,
        ),
        second == get_spec(
            stream,
            entries,
            plane,
            roi,
            zoom,
            sort_by_m,
            leave_hidden_out,
            red,
            green,
            blue,
        ),
    ensures
        first == second,
        first matches Ok(picture) ==> second matches Ok(again) && again.pixels == picture.pixels,
{
}

/// A picture has the width and the height that asking for the size of the
/// picture gives.
pub proof fn lemma_picture_has_calculated_size(
    stream: Seq<u8>,
    entries: Seq<SubBlockDirectoryEntry>,
    plane: Coordinate,
    roi: IntRect,
    zoom: u32,
    sort_by_m: bool,
    leave_hidden_out: bool,
    red: u32,
    green: u32,
    blue: u32,
)
    ensures
        get_spec(
            stream,
            entries,
            plane,
            roi,
            zoom,
            sort_by_m,
            leave_hidden_out,
            red,
            green,
            blue,
        ) matches Ok(picture) ==> calc_size_spec(roi, zoom) == Ok::<IntSize, LibCZIApiError>(
            IntSize { w: picture.info.width as i32, h: picture.info.height as i32 },
        ),
{
    match Zoom::of_bits(zoom) {
        None => {},
        Some(factor) => {
            if roi.w > 0 && roi.h > 0 {
                lemma_scaled_is_not_negative(factor, roi.w as int);
                lemma_scaled_is_not_negative(factor, roi.h as int);
            }
        },
    }
}

/// A length that is not negative is not negative after scaling.
pub proof fn lemma_scaled_is_not_negative(zoom: Zoom, length: int)
    requires
        length >= 0,
    ensures
        zoom.scaled(length) >= 0,
{
    let power = vstd::arithmetic::power2::pow2(
        if zoom.exponent >= 0 {
            zoom.exponent as nat
        } else {
            (-zoom.exponent) as nat
        },
    ) as int;
    vstd::arithmetic::power2::lemma_pow2_pos(
        if zoom.exponent >= 0 {
            zoom.exponent as nat
        } else {
            (-zoom.exponent) as nat
        },
    );
    let mantissa = zoom.mantissa as int;
    if zoom.exponent >= 0 {
        assert(length * mantissa * power >= 0) by (nonlinear_arith)
            requires
                length >= 0,
                mantissa >= 0,
                power > 0,
        ;
    } else {
        assert((2 * length * mantissa + power) / (2 * power) >= 0) by (nonlinear_arith)
            requires
                length >= 0,
                mantissa >= 0,
                power > 0,
        ;
    }
}

/// The place in the source that a place in the picture is taken from lies
/// in the region.
pub proof fn lemma_source_place_bounds(zoom: Zoom, place: int, size: int)
    requires
        place >= 0,
        size >= 1,
        zoom.mantissa >= 1,
    ensures
        0 <= source_place(zoom, place, size) < size,
{
    let power = vstd::arithmetic::power2::pow2(
        if zoom.exponent >= 0 {
            zoom.exponent as nat
        } else {
            (-zoom.exponent) as nat
        },
    ) as int;
    vstd::arithmetic::power2::lemma_pow2_pos(
        if zoom.exponent >= 0 {
            zoom.exponent as nat
        } else {
            (-zoom.exponent) as nat
        },
    );
    let mantissa = zoom.mantissa as int;
    if zoom.exponent >= 0 {
        assert(place / (mantissa * power) >= 0) by (nonlinear_arith)
            requires
                place >= 0,
                mantissa >= 1,
                power > 0,
        ;
    } else {
        assert((place * power) / mantissa >= 0) by (nonlinear_arith)
            requires
                place >= 0,
                mantissa >= 1,
                power > 0,
        ;
    }
}

/// Two lists of tiles that lie alike, and whose tiles are the same where
/// they are not hidden, give the same pixels at every point of the region.
pub proof fn lemma_hidden_tiles_do_not_show(
    first: Seq<TileView>,
    second: Seq<TileView>,
    roi: IntRect,
    x: int,
    y: int,
    bpp: int,
    background: Seq<u8>,
)
    requires
        same_layout(first, second),
        forall|k: int|
            0 <= k < first.len() ==> (#[trigger] first[k]) == second[k] || is_hidden(first, k, roi),
        roi.x <= x < roi.x + roi.w,
        roi.y <= y < roi.y + roi.h,
    ensures
        pixel_at(first, x, y, bpp, background) == pixel_at(second, x, y, bpp, background),
{
    lemma_layout_decides(first, second, x, y, roi, first.len());
    if winner(first, x, y, first.len()) is Some {
        lemma_winner_is_not_hidden(first, x, y, roi);
        lemma_winner_is_painted_last(first, x, y, first.len());
    }
}

/// Two lists of tiles that lie alike, and whose tiles are the same where
/// they are not hidden, give the same picture.
pub proof fn lemma_hidden_tiles_do_not_change_the_picture(
    first: Seq<TileView>,
    second: Seq<TileView>,
    roi: IntRect,
    zoom: Zoom,
    bpp: int,
    background: Seq<u8>,
    width: nat,
    rows: nat,
)
    requires
        same_layout(first, second),
        forall|k: int|
            0 <= k < first.len() ==> (#[trigger] first[k]) == second[k] || is_hidden(first, k, roi),
        roi.w >= 1,
        roi.h >= 1,
        zoom.mantissa >= 1,
    ensures
        picture(first, roi, zoom, bpp, background, width, rows) == picture(
            second,
            roi,
            zoom,
            bpp,
            background,
            width,
            rows,
        ),
    decreases rows,
{
    if rows > 0 {
        lemma_hidden_tiles_do_not_change_the_picture(
            first,
            second,
            roi,
            zoom,
            bpp,
            background,
            width,
            (rows - 1) as nat,
        );
        lemma_hidden_tiles_do_not_change_the_row(
            first,
            second,
            roi,
            zoom,
            bpp,
            background,
            rows - 1,
            width,
        );
    }
}

/// Two lists of tiles that lie alike, and whose tiles are the same where
/// they are not hidden, give the same row of the picture.
proof fn lemma_hidden_tiles_do_not_change_the_row(
    first: Seq<TileView>,
    second: Seq<TileView>,
    roi: IntRect,
    zoom: Zoom,
    bpp: int,
    background: Seq<u8>,
    row: int,
    count: nat,
)
    requires
        same_layout(first, second),
        forall|k: int|
            0 <= k < first.len() ==> (#[trigger] first[k]) == second[k] || is_hidden(first, k, roi),
        roi.w >= 1,
        roi.h >= 1,
        zoom.mantissa >= 1,
        row >= 0,
    ensures
        picture_row(first, roi, zoom, bpp, background, row, count) == picture_row(
            second,
            roi,
            zoom,
            bpp,
            background,
            row,
            count,
        ),
    decreases count,
{
    if count > 0 {
        lemma_hidden_tiles_do_not_change_the_row(
            first,
            second,
            roi,
            zoom,
            bpp,
            background,
            row,
            (count - 1) as nat,
        );
        lemma_source_place_bounds(zoom, count - 1, roi.w as int);
        lemma_source_place_bounds(zoom, row, roi.h as int);
        lemma_hidden_tiles_do_not_show(
            first,
            second,
            roi,
            roi.x + source_place(zoom, count - 1, roi.w as int),
            roi.y + source_place(zoom, row, roi.h as int),
            bpp,
            background,
        );
    }
}

/// Leaving hidden sub-blocks out reads fewer sub-blocks and gives the same
/// tiles where they are not hidden.
pub proof fn lemma_tiles_with_hidden_left_out(
    stream: Seq<u8>,
    entries: Seq<SubBlockDirectoryEntry>,
    list: Seq<Placement>,
    roi: IntRect,
    pixel_type: i32,
    count: nat,
)
    requires
        count <= list.len(),
        tiles_from(stream, entries, list, roi, pixel_type, false, count) is Ok,
    ensures
        tiles_from(stream, entries, list, roi, pixel_type, true, count) is Ok,
        ({
            let all = tiles_from(stream, entries, list, roi, pixel_type, false, count)->Ok_0;
            let fewer = tiles_from(stream, entries, list, roi, pixel_type, true, count)->Ok_0;
            &&& all.len() == count
            &&& fewer.len() == count
            &&& forall|k: int|
                0 <= k < count ==> {
                    &&& (#[trigger] all[k]).rect == list[k].rect
                    &&& all[k].key == list[k].key
                    &&& fewer[k].rect == list[k].rect
                    &&& fewer[k].key == list[k].key
                    &&& all[k] == fewer[k] || is_hidden(blank_tiles(list), k, roi)
                }
        }),
    decreases count,
{
    if count > 0 {
        lemma_tiles_with_hidden_left_out(
            stream,
            entries,
            list,
            roi,
            pixel_type,
            (count - 1) as nat,
        );
        let all = tiles_from(stream, entries, list, roi, pixel_type, false, count)->Ok_0;
        let fewer = tiles_from(stream, entries, list, roi, pixel_type, true, count)->Ok_0;
        let all_front = tiles_from(
            stream,
            entries,
            list,
            roi,
            pixel_type,
            false,
            (count - 1) as nat,
        )->Ok_0;
        let fewer_front = tiles_from(
            stream,
            entries,
            list,
            roi,
            pixel_type,
            true,
            (count - 1) as nat,
        )->Ok_0;
        assert forall|k: int| 0 <= k < count implies {
            &&& (#[trigger] all[k]).rect == list[k].rect
            &&& all[k].key == list[k].key
            &&& fewer[k].rect == list[k].rect
            &&& fewer[k].key == list[k].key
            &&& all[k] == fewer[k] || is_hidden(blank_tiles(list), k, roi)
        } by {
            if k < count - 1 {
                assert(all[k] == all_front[k]);
                assert(fewer[k] == fewer_front[k]);
            }
        }
    }
}

/// Leaving out the sub-blocks that end up hidden never changes a picture:
/// whenever a picture comes out with every sub-block read, the same picture
/// comes out with the hidden ones left out.
pub proof fn lemma_visibility_check_keeps_the_picture(
    stream: Seq<u8>,
    entries: Seq<SubBlockDirectoryEntry>,
    plane: Coordinate,
    roi: IntRect,
    zoom: u32,
    sort_by_m: bool,
    red: u32,
    green: u32,
    blue: u32,
)
    ensures
        get_spec(stream, entries, plane, roi, zoom, sort_by_m, false, red, green, blue) is Ok
            ==> get_spec(stream, entries, plane, roi, zoom, sort_by_m, true, red, green, blue)
            == get_spec(stream, entries, plane, roi, zoom, sort_by_m, false, red, green, blue),
{
    if get_spec(stream, entries, plane, roi, zoom, sort_by_m, false, red, green, blue) is Ok {
        let factor = Zoom::of_bits(zoom)->0;
        let list = placements(entries, plane, roi, factor, sort_by_m, entries.len());
        let code = picture_pixel_type(entries, list);
        let bpp = pixel_size(code);
        let size = calc_size_spec(roi, zoom)->Ok_0;
        crate::zoom::lemma_of_bits_is_valid(zoom);
        lemma_scaled_is_not_negative(factor, roi.w as int);
        lemma_scaled_is_not_negative(factor, roi.h as int);
        lemma_tiles_with_hidden_left_out(stream, entries, list, roi, code, list.len());
        let all = tiles_from(stream, entries, list, roi, code, false, list.len())->Ok_0;
        let fewer = tiles_from(stream, entries, list, roi, code, true, list.len())->Ok_0;
        let blank = blank_tiles(list);
        assert(same_layout(all, blank));
        assert(same_layout(all, fewer));
        assert forall|k: int| 0 <= k < all.len() implies (#[trigger] all[k]) == fewer[k]
            || is_hidden(all, k, roi) by {
            lemma_layout_decides(all, blank, 0, 0, roi, 0);
        }
        lemma_hidden_tiles_do_not_change_the_picture(
            all,
            fewer,
            roi,
            factor,
            bpp,
            background_spec(PixelType::of_code(code as int)->0, red, green, blue),
            size.w as nat,
            size.h as nat,
        );
    }
}

/// The tile accessor of a document.
#[derive(Debug)]
pub struct SingleChannelScalingTileAccessor {
    stream: InputStream,
    entries: Vec<SubBlockDirectoryEntry>,
}

impl Clone for SingleChannelScalingTileAccessor {
    fn clone(&self) -> (copy: Self)
        ensures
            copy.stream_spec() == self.stream_spec(),
            copy.entries_spec() == self.entries_spec(),
    {
        SingleChannelScalingTileAccessor {
            stream: self.stream.clone(),
            entries: self.entries.clone(),
        }
    }
}

impl SingleChannelScalingTileAccessor {
    /// The bytes of the container.
    pub closed spec fn stream_spec(&self) -> Seq<u8> {
        self.stream@
    }

    /// The entries of the sub-block directory.
    pub closed spec fn entries_spec(&self) -> Seq<SubBlockDirectoryEntry> {
        self.entries@
    }

    /// An accessor over the container in the stream, with the given entries
    /// as its sub-block directory.
    pub fn new(stream: InputStream, entries: Vec<SubBlockDirectoryEntry>) -> (accessor: Self)
        ensures
            accessor.stream_spec() == stream@,
            accessor.entries_spec() == entries@,
    {
        SingleChannelScalingTileAccessor { stream, entries }
    }

    /// The size of the picture that a region gives at a zoom factor: the
    /// width and the height of the region, each times the zoom factor and
    /// rounded to the nearest whole number. The zoom factor is handed over
    /// as the 32 bits of a float.
    pub fn calc_size(&self, roi: IntRect, zoom: u32) -> (size: Result<IntSize, LibCZIApiError>)
        ensures
            size == calc_size_spec(roi, zoom),
    {
        calc_picture_size(&roi, zoom)
    }

    /// The picture of a plane within a region, at a zoom factor. The zoom
    /// factor is handed over as the 32 bits of a float. See `get_spec` for
    /// what the picture shows.
    ///
    /// Where the options ask for it, the sub-blocks that end up hidden
    /// behind a sub-block that is painted later are not read. That never
    /// changes a pixel of the picture; it only passes over what is wrong
    /// with a sub-block that would not show.
    pub fn get(&self, coordinate: Coordinate, roi: IntRect, zoom: u32, options: AccessorOptions) -> (bitmap:
        Result<Bitmap, LibCZIApiError>)
        ensures
            match bitmap {
                Ok(made) => {
                    &&& get_spec(
                        self.stream_spec(),
                        self.entries_spec(),
                        coordinate,
                        roi,
                        zoom,
                        options.sort_by_m,
                        options.use_visibility_check_optimization,
                        options.back_ground_color_r,
                        options.back_ground_color_g,
                        options.back_ground_color_b,
                    ) == Ok::<PictureView, LibCZIApiError>(
                        PictureView {
                            info: made.info_spec(),
                            stride: made.stride_spec(),
                            pixels: made.pixels(),
                        },
                    )
                    &&& made.wf()
                    &&& made.locks_spec() == 0
                },
                Err(e) => get_spec(
                    self.stream_spec(),
                    self.entries_spec(),
                    coordinate,
                    roi,
                    zoom,
                    options.sort_by_m,
                    options.use_visibility_check_optimization,
                    options.back_ground_color_r,
                    options.back_ground_color_g,
                    options.back_ground_color_b,
                ) == Err::<PictureView, LibCZIApiError>(e),
            },
    {
        if !coordinate.is_valid() {
            return Err(LibCZIApiError::InvalidArgument);
        }
        let size = match calc_picture_size(&roi, zoom) {
            Ok(found) => found,
            Err(e) => {
                return Err(e);
            },
        };
        let factor = match Zoom::from_bits(zoom) {
            Some(found) => found,
            None => {
                return Err(LibCZIApiError::InvalidArgument);
            },
        };
        let list = collect_placements(
            self.entries.as_slice(),
            &coordinate,
            &roi,
            &factor,
            options.sort_by_m,
        );
        let ghost views = placement_views(list@);
        proof {
            lemma_scaled_is_not_negative(factor, roi.w as int);
            lemma_scaled_is_not_negative(factor, roi.h as int);
            lemma_placements(
                self.entries@,
                coordinate,
                roi,
                factor,
                options.sort_by_m,
                self.entries@.len(),
            );
            assert(is_paintable(views, self.entries@.len() as int, roi));
        }
        let pixel_code: i32 = if list.len() > 0 {
            assert(views[0] == list@[0]@);
            self.entries[list[0].place].pixel_type
        } else {
            0
        };
        let pixel_type = match PixelType::try_from(pixel_code) {
            Ok(found) => found,
            Err(_) => {
                return Err(LibCZIApiError::CorruptData);
            },
        };
        proof {
            lemma_tiles_from(
                self.stream@,
                self.entries@,
                views,
                roi,
                pixel_code,
                options.use_visibility_check_optimization,
                views.len(),
            );
        }
        let tiles = match collect_tiles(
            self.stream.bytes(),
            self.entries.as_slice(),
            &list,
            &roi,
            pixel_code,
            options.use_visibility_check_optimization,
        ) {
            Ok(found) => found,
            Err(e) => {
                return Err(e);
            },
        };
        let bpp: u64 = pixel_type.bytes_per_pixel() as u64;
        let width: u64 = size.w as u64;
        let height: u64 = size.h as u64;
        assert(width * bpp <= 0x7fff_ffff * 24) by (nonlinear_arith)
            requires
                width <= 0x7fff_ffff,
                bpp <= 24,
        ;
        let stride: u64 = width * bpp;
        if stride > u32::MAX as u64 {
            return Err(LibCZIApiError::OutOfMemory);
        }
        assert(stride * height <= 0xffff_ffff * 0x7fff_ffff) by (nonlinear_arith)
            requires
                stride <= 0xffff_ffff,
                height <= 0x7fff_ffff,
        ;
        if stride * height > usize::MAX as u64 {
            return Err(LibCZIApiError::OutOfMemory);
        }
        let background = background_pixel(
            pixel_type,
            options.back_ground_color_r,
            options.back_ground_color_g,
            options.back_ground_color_b,
        );
        proof {
            let shown = tile_views(tiles@);
            let blank = blank_tiles(views);
            assert(same_layout(shown, blank));
            assert forall|i: int| 0 <= i < tiles@.len() implies (#[trigger] shown[i]).is_whole(
                bpp as int,
            ) || is_hidden(shown, i, roi) by {
                lemma_layout_decides(shown, blank, 0, 0, roi, 0);
            }
        }
        let pixels = compose(
            &tiles,
            &roi,
            &factor,
            bpp as usize,
            &background,
            size.w as u32,
            size.h as u32,
        );
        proof {
            crate::pixel::lemma_pixel_type_code_round_trip(pixel_type, pixel_code as int);
        }
        match Bitmap::create(size.w as u32, size.h as u32, pixel_type, stride as u32, pixels) {
            Ok(made) => Ok(made),
            Err(e) => Err(e),
        }
    }

    /// Gives the accessor up. The call always succeeds.
    pub fn release(self) -> (done: Result<(), LibCZIApiError>)
        ensures
            done is Ok,
    {
        Ok(())
    }
}

} // verus!
