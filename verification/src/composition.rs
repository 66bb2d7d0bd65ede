//! The composition of channels: several gray bitmaps of the same size are
//! put together into one picture in colour.
//!
//! The intensity of each pixel of a channel goes through the look-up table
//! of the channel, or is stretched between the black point and the white
//! point of the channel where it has no table, is tinted with the colour of
//! the channel, and is weighted with its weight. What the channels give is added up, part by part, and
//! cut at the largest value that a part can have.

use crate::accessor::{
    is_channel_place, ChannelDisplaySettings, CompositionChannelInfo, DisplaySettings,
};
use crate::bitmap::{layout_is_valid, Bitmap, BitmapInfo};
use crate::error::LibCZIApiError;
use crate::pixel::PixelType;
use crate::zoom::Zoom;
use vstd::prelude::*;

verus! {

/// One channel of a composition: its bitmap and how it is shown.
pub struct ChannelView {
    pub info: BitmapInfo,
    pub stride: u32,
    pub pixels: Seq<u8>,
    /// The weight, as the bits of a float.
    pub weight: u32,
    pub enable_tinting: bool,
    pub tinting_color_r: u8,
    pub tinting_color_g: u8,
    pub tinting_color_b: u8,
    /// The black point, as the bits of a float.
    pub black_point: u32,
    /// The white point, as the bits of a float.
    pub white_point: u32,
    pub look_up_table: Seq<u8>,
}

/// The intensity that a black or white point stands for: the point times
/// the largest intensity, rounded to the nearest whole number, and the
/// largest intensity at most. A point that is no number above zero stands
/// for the intensity 0.
pub open spec fn level(point: u32, largest: int) -> int {
    match Zoom::of_bits(point) {
        None => 0,
        Some(part) => if part.scaled(largest) > largest {
            largest
        } else {
            part.scaled(largest)
        },
    }
}

/// An intensity stretched between a black and a white level: 0 up to the
/// black level, 255 from the white level on, and between them as many
/// 255ths as the intensity has gone of the way from the one to the other,
/// rounded to the nearest whole number.
pub open spec fn stretch(intensity: int, black: int, white: int) -> int {
    if intensity <= black {
        0
    } else if intensity >= white {
        255
    } else {
        ((intensity - black) * 255 + (white - black) / 2) / (white - black)
    }
}

/// A stretched intensity is a number from 0 to 255.
pub proof fn lemma_stretch_bounds(intensity: int, black: int, white: int)
    ensures
        0 <= stretch(intensity, black, white) <= 255,
{
    if black < intensity < white {
        let way = intensity - black;
        let whole = white - black;
        assert(0 <= (way * 255 + whole / 2) / whole <= 255) by (nonlinear_arith)
            requires
                0 < way < whole,
        ;
    }
}

/// An intensity of 8 bits that is stretched over the whole range stays as
/// it is.
pub proof fn lemma_stretch_over_whole_range(intensity: int)
    requires
        0 <= intensity <= 255,
    ensures
        stretch(intensity, 0, 255) == intensity,
{
}

/// The three parts of a colour.
pub struct Parts {
    pub red: int,
    pub green: int,
    pub blue: int,
}

/// The channel that a bitmap and what is known of it make.
pub open spec fn channel_of(bitmap: Bitmap, info: CompositionChannelInfo) -> ChannelView {
    ChannelView {
        info: bitmap.info_spec(),
        stride: bitmap.stride_spec(),
        pixels: bitmap.pixels(),
        weight: info.weight,
        enable_tinting: info.enable_tinting != 0,
        tinting_color_r: info.tinting_color_r,
        tinting_color_g: info.tinting_color_g,
        tinting_color_b: info.tinting_color_b,
        black_point: info.black_point,
        white_point: info.white_point,
        look_up_table: info.look_up_table@,
    }
}

/// The channels that the bitmaps and what is known of them make.
pub open spec fn channels_of(bitmaps: Seq<Bitmap>, infos: Seq<CompositionChannelInfo>) -> Seq<
    ChannelView,
> {
    Seq::new(bitmaps.len(), |i: int| channel_of(bitmaps[i], infos[i]))
}

impl ChannelView {
    /// Whether the intensities of the channel have 16 bits.
    pub open spec fn is_sixteen(self) -> bool {
        self.info.pixel_type == 1
    }

    /// What a channel must be like: its bitmap is gray with 8 or 16 bits
    /// and of a valid layout, and it has no look-up table or one with a
    /// place for every intensity.
    pub open spec fn is_valid(self) -> bool {
        &&& self.info.pixel_type == 0 || self.info.pixel_type == 1
        &&& layout_is_valid(self.info, self.stride, self.pixels.len() as int)
        &&& self.look_up_table.len() == 0 || self.look_up_table.len() == if self.is_sixteen() {
            65536int
        } else {
            256int
        }
    }

    /// The intensity of the pixel at a place.
    pub open spec fn intensity(self, x: int, y: int) -> int {
        if self.is_sixteen() {
            self.pixels[self.stride * y + 2 * x] + 256 * self.pixels[self.stride * y + 2 * x + 1]
        } else {
            self.pixels[self.stride * y + x] as int
        }
    }

    /// The largest intensity that the channel can have.
    pub open spec fn largest(self) -> int {
        if self.is_sixteen() {
            65535
        } else {
            255
        }
    }

    /// What the look-up table makes of an intensity: the value at its
    /// place. A channel without a table stretches the intensity between
    /// the levels of its black point and its white point.
    pub open spec fn mapped(self, intensity: int) -> int {
        if self.look_up_table.len() > 0 {
            self.look_up_table[intensity] as int
        } else {
            stretch(
                intensity,
                level(self.black_point, self.largest()),
                level(self.white_point, self.largest()),
            )
        }
    }

    /// A value tinted with one part of the colour of the channel: the value
    /// times the part, divided by 255 and rounded to the nearest whole
    /// number. A channel that is not tinted leaves the value as it is.
    pub open spec fn tinted(self, value: int, part: u8) -> int {
        if self.enable_tinting {
            (value * part + 127) / 255
        } else {
            value
        }
    }

    /// A value times the weight of the channel, rounded to the nearest
    /// whole number and cut at 255. A weight that is no number above zero
    /// gives 0.
    pub open spec fn weighted(self, value: int) -> int {
        match Zoom::of_bits(self.weight) {
            None => 0,
            Some(weight) => if weight.scaled(value) > 255 {
                255
            } else {
                weight.scaled(value)
            },
        }
    }

    /// What the channel adds to the picture at a place.
    pub open spec fn parts_at(self, x: int, y: int) -> Parts {
        let value = self.mapped(self.intensity(x, y));
        Parts {
            red: self.weighted(self.tinted(value, self.tinting_color_r)),
            green: self.weighted(self.tinted(value, self.tinting_color_g)),
            blue: self.weighted(self.tinted(value, self.tinting_color_b)),
        }
    }
}

/// What the first `count` channels add up to at a place.
pub open spec fn parts_sum(channels: Seq<ChannelView>, x: int, y: int, count: nat) -> Parts
    decreases count,
{
    if count == 0 {
        Parts { red: 0, green: 0, blue: 0 }
    } else {
        let before = parts_sum(channels, x, y, (count - 1) as nat);
        let more = channels[count - 1].parts_at(x, y);
        Parts {
            red: before.red + more.red,
            green: before.green + more.green,
            blue: before.blue + more.blue,
        }
    }
}

/// A part of a colour, cut at 255.
pub open spec fn cut(part: int) -> u8 {
    if part > 255 {
        255u8
    } else {
        part as u8
    }
}

/// The three bytes of the picture at a place: blue, green and red.
pub open spec fn composed_pixel(channels: Seq<ChannelView>, x: int, y: int) -> Seq<u8> {
    let sum = parts_sum(channels, x, y, channels.len());
    seq![cut(sum.blue), cut(sum.green), cut(sum.red)]
}

/// The first `count` pixels of a row of the picture.
pub open spec fn composed_row(channels: Seq<ChannelView>, y: int, count: nat) -> Seq<u8>
    decreases count,
{
    if count == 0 {
        Seq::empty()
    } else {
        composed_row(channels, y, (count - 1) as nat) + composed_pixel(channels, count - 1, y)
    }
}

/// The first `rows` rows of the picture, each of `width` pixels.
pub open spec fn composed(channels: Seq<ChannelView>, width: nat, rows: nat) -> Seq<u8>
    decreases rows,
{
    if rows == 0 {
        Seq::empty()
    } else {
        composed(channels, width, (rows - 1) as nat) + composed_row(channels, rows - 1, width)
    }
}

/// What the composition of channels gives: the pixels of a picture with
/// three bytes for each pixel, of the width and the height of the channels,
/// with rows that follow each other without padding.
///
/// `InvalidArgument` where the number of channels is not the number of
/// bitmaps and of what is known of them, where there is no channel, where a
/// channel is not valid, or where the bitmaps do not all have the same
/// width and height. `OutOfMemory` for a picture that is larger than memory
/// can be.
pub open spec fn composition_spec(channel_count: i32, channels: Seq<ChannelView>, infos: int) -> Result<
    Seq<u8>,
    LibCZIApiError,
> {
    if channel_count <= 0 || channels.len() != channel_count || infos != channel_count || !(
    forall|i: int| 0 <= i < channels.len() ==> (#[trigger] channels[i]).is_valid()) || !(forall|
        i: int,
    |
        0 <= i < channels.len() ==> (#[trigger] channels[i]).info.width == channels[0].info.width
            && channels[i].info.height == channels[0].info.height) {
        Err(LibCZIApiError::InvalidArgument)
    } else if 3 * channels[0].info.width > u32::MAX || (3 * channels[0].info.width)
        * channels[0].info.height > usize::MAX {
        Err(LibCZIApiError::OutOfMemory)
    } else {
        Ok(composed(channels, channels[0].info.width as nat, channels[0].info.height as nat))
    }
}

/// How one channel is read while the picture is put together.
struct Channel<'a> {
    sixteen: bool,
    stride: usize,
    pixels: &'a [u8],
    weight: Option<Zoom>,
    enable_tinting: bool,
    tinting_color_r: u8,
    tinting_color_g: u8,
    tinting_color_b: u8,
    black: u32,
    white: u32,
    look_up_table: &'a [u8],
}

impl<'a> Channel<'a> {
    /// Whether this is how `view` is read, in a picture of the given size.
    spec fn reads(self, view: ChannelView, width: u32, height: u32) -> bool {
        &&& view.is_valid()
        &&& view.info.width == width
        &&& view.info.height == height
        &&& self.sixteen == view.is_sixteen()
        &&& self.stride == view.stride
        &&& self.pixels@ == view.pixels
        &&& self.weight == Zoom::of_bits(view.weight)
        &&& self.weight matches Some(weight) ==> weight.is_valid_spec()
        &&& self.enable_tinting == view.enable_tinting
        &&& self.tinting_color_r == view.tinting_color_r
        &&& self.tinting_color_g == view.tinting_color_g
        &&& self.tinting_color_b == view.tinting_color_b
        &&& self.black == level(view.black_point, view.largest())
        &&& self.white == level(view.white_point, view.largest())
        &&& self.look_up_table@ == view.look_up_table
    }

    /// A value tinted with a part of the colour and weighted.
    fn part(&self, value: u32, tint: u8, Ghost(view): Ghost<ChannelView>) -> (part: u32)
        requires
            value <= 255,
            self.enable_tinting == view.enable_tinting,
            self.weight == Zoom::of_bits(view.weight),
            self.weight matches Some(weight) ==> weight.is_valid_spec(),
        ensures
            part == view.weighted(view.tinted(value as int, tint)),
            part <= 255,
    {
        let tinted: u32 = if self.enable_tinting {
            assert(value * tint <= 255 * 255) by (nonlinear_arith)
                requires
                    value <= 255,
                    tint <= 255,
            ;
            (value * tint as u32 + 127) / 255
        } else {
            value
        };
        match &self.weight {
            None => 0,
            Some(weight) => match weight.scale(tinted) {
                None => 255,
                Some(scaled) => if scaled > 255 {
                    255
                } else {
                    scaled as u32
                },
            },
        }
    }

    /// What the channel adds to the picture at a place: red, green, blue.
    fn parts(&self, x: usize, y: usize, Ghost(view): Ghost<ChannelView>, Ghost(width): Ghost<u32>, Ghost(
        height,
    ): Ghost<u32>) -> (parts: (u32, u32, u32))
        requires
            self.reads(view, width, height),
            x < width,
            y < height,
        ensures
            parts.0 == view.parts_at(x as int, y as int).red,
            parts.1 == view.parts_at(x as int, y as int).green,
            parts.2 == view.parts_at(x as int, y as int).blue,
            parts.0 <= 255 && parts.1 <= 255 && parts.2 <= 255,
    {
        let size: usize = self.pixels.len();
        let ghost per_pixel: int = if self.sixteen {
            2
        } else {
            1
        };
        proof {
            crate::pixel::lemma_pixel_type_code_round_trip(PixelType::Gray8, 0);
            let stride = self.stride as int;
            assert(stride * y + per_pixel * x + per_pixel <= stride * height && stride * y >= 0)
                by (nonlinear_arith)
                requires
                    0 <= y < height,
                    0 <= x < width,
                    per_pixel * width <= stride,
                    per_pixel >= 1,
            ;
        }
        let intensity: usize = if self.sixteen {
            let at: usize = self.stride * y + 2 * x;
            self.pixels[at] as usize + 256 * self.pixels[at + 1] as usize
        } else {
            self.pixels[self.stride * y + x] as usize
        };
        let value: u32 = if self.look_up_table.len() > 0 {
            self.look_up_table[intensity] as u32
        } else {
            stretched(intensity as u32, self.black, self.white)
        };
        (
            self.part(value, self.tinting_color_r, Ghost(view)),
            self.part(value, self.tinting_color_g, Ghost(view)),
            self.part(value, self.tinting_color_b, Ghost(view)),
        )
    }
}

/// The intensity that a black or white point stands for.
fn level_of(point: u32, largest: u32) -> (found: u32)
    requires
        largest <= 65535,
    ensures
        found == level(point, largest as int),
        found <= largest,
{
    match Zoom::from_bits(point) {
        None => 0,
        Some(part) => match part.scale(largest) {
            None => largest,
            Some(scaled) => if scaled as u32 > largest {
                largest
            } else {
                scaled as u32
            },
        },
    }
}

/// An intensity stretched between a black and a white level.
fn stretched(intensity: u32, black: u32, white: u32) -> (value: u32)
    requires
        intensity <= 65535,
        black <= 65535,
        white <= 65535,
    ensures
        value == stretch(intensity as int, black as int, white as int),
        value <= 255,
{
    proof {
        lemma_stretch_bounds(intensity as int, black as int, white as int);
    }
    if intensity <= black {
        0
    } else if intensity >= white {
        255
    } else {
        let way: u32 = intensity - black;
        let whole: u32 = white - black;
        assert(way * 255 + whole / 2 <= 65535 * 256) by (nonlinear_arith)
            requires
                way <= 65535,
                whole <= 65535,
        ;
        (way * 255 + whole / 2) / whole
    }
}

/// What the channels add up to at a place: red, green, blue.
fn sum_parts(
    readers: &Vec<Channel>,
    x: usize,
    y: usize,
    Ghost(channels): Ghost<Seq<ChannelView>>,
    Ghost(width): Ghost<u32>,
    Ghost(height): Ghost<u32>,
) -> (sum: (u64, u64, u64))
    requires
        readers@.len() == channels.len(),
        readers@.len() <= i32::MAX,
        forall|i: int| 0 <= i < readers@.len() ==> (#[trigger] readers@[i]).reads(channels[i], width, height),
        x < width,
        y < height,
    ensures
        sum.0 == parts_sum(channels, x as int, y as int, channels.len()).red,
        sum.1 == parts_sum(channels, x as int, y as int, channels.len()).green,
        sum.2 == parts_sum(channels, x as int, y as int, channels.len()).blue,
{
    let mut red: u64 = 0;
    let mut green: u64 = 0;
    let mut blue: u64 = 0;
    let mut place: usize = 0;
    let count: usize = readers.len();
    while place < readers.len()
        invariant
            place <= readers@.len(),
            count == readers@.len(),
            readers@.len() == channels.len(),
            readers@.len() <= i32::MAX,
            forall|i: int|
                0 <= i < readers@.len() ==> (#[trigger] readers@[i]).reads(channels[i], width, height),
            x < width,
            y < height,
            red == parts_sum(channels, x as int, y as int, place as nat).red,
            green == parts_sum(channels, x as int, y as int, place as nat).green,
            blue == parts_sum(channels, x as int, y as int, place as nat).blue,
            red <= 255 * place,
            green <= 255 * place,
            blue <= 255 * place,
        decreases readers@.len() - place,
    {
        let parts = readers[place].parts(x, y, Ghost(channels[place as int]), Ghost(width), Ghost(height));
        red = red + parts.0 as u64;
        green = green + parts.1 as u64;
        blue = blue + parts.2 as u64;
        place = place + 1;
    }
    (red, green, blue)
}

/// Puts the bitmaps of several channels together into one picture.
///
/// The picture has three bytes for each pixel: blue, green and red. See
/// `composition_spec` for its pixels and for when the call fails.
pub fn compositor_do_multi_channel_composition(
    channel_count: i32,
    source_bitmaps: Vec<Bitmap>,
    channel_info: Vec<CompositionChannelInfo>,
) -> (bitmap: Result<Bitmap, LibCZIApiError>)
    ensures
        match bitmap {
            Ok(made) => {
                &&& composition_spec(
                    channel_count,
                    channels_of(source_bitmaps@, channel_info@),
                    channel_info@.len() as int,
                ) == Ok::<Seq<u8>, LibCZIApiError>(made.pixels())
                &&& made.wf()
                &&& made.info_spec() == (BitmapInfo {
                    width: source_bitmaps@[0].info_spec().width,
                    height: source_bitmaps@[0].info_spec().height,
                    pixel_type: 3,
                })
                &&& made.stride_spec() == 3 * source_bitmaps@[0].info_spec().width
                &&& made.locks_spec() == 0
            },
            Err(e) => composition_spec(
                channel_count,
                channels_of(source_bitmaps@, channel_info@),
                channel_info@.len() as int,
            ) == Err::<Seq<u8>, LibCZIApiError>(e),
        },
{
    let ghost channels = channels_of(source_bitmaps@, channel_info@);
    if channel_count <= 0 || source_bitmaps.len() != channel_count as usize || channel_info.len()
        != channel_count as usize {
        return Err(LibCZIApiError::InvalidArgument);
    }
    let first_info = match source_bitmaps[0].get_info() {
        Ok(found) => found,
        Err(e) => {
            return Err(e);
        },
    };
    let width: u32 = first_info.width;
    let height: u32 = first_info.height;
    assert(channels[0].info == first_info);
    let mut readers: Vec<Channel> = Vec::new();
    let mut place: usize = 0;
    while place < source_bitmaps.len()
        invariant
            place <= source_bitmaps@.len(),
            source_bitmaps@.len() == channel_info@.len(),
            channels == channels_of(source_bitmaps@, channel_info@),
            channels.len() == source_bitmaps@.len(),
            channels.len() > 0,
            channels[0].info.width == width,
            channels[0].info.height == height,
            readers@.len() == place,
            forall|i: int|
                0 <= i < place ==> (#[trigger] readers@[i]).reads(channels[i], width, height),
        decreases source_bitmaps@.len() - place,
    {
        let bitmap = &source_bitmaps[place];
        let info = &channel_info[place];
        let ghost view = channels[place as int];
        let form = match bitmap.get_info() {
            Ok(found) => found,
            Err(e) => {
                return Err(e);
            },
        };
        let stride: u32 = bitmap.get_stride();
        let pixels = bitmap.data();
        let table = info.look_up_table.as_slice();
        assert(view == channel_of(source_bitmaps@[place as int], channel_info@[place as int]));
        let sixteen: bool = form.pixel_type == 1;
        let per_pixel: u64 = if sixteen {
            2
        } else {
            1
        };
        let size: u64 = pixels.len() as u64;
        assert(per_pixel * form.width as u64 <= 2 * 0xffff_ffff && stride as u64
            * form.height as u64 <= 0xffff_ffff * 0xffff_ffff) by (nonlinear_arith)
            requires
                per_pixel <= 2,
                form.width <= 0xffff_ffff,
                stride <= 0xffff_ffff,
                form.height <= 0xffff_ffff,
        ;
        proof {
            crate::pixel::lemma_pixel_type_code_round_trip(PixelType::Gray8, form.pixel_type as int);
        }
        let valid: bool = (form.pixel_type == 0 || form.pixel_type == 1) && per_pixel
            * form.width as u64 <= stride as u64 && size == stride as u64 * form.height as u64 && (
        table.len() == 0 || table.len() == if sixteen {
            65536
        } else {
            256
        });
        assert(valid == view.is_valid());
        if !valid || form.width != width || form.height != height {
            return Err(LibCZIApiError::InvalidArgument);
        }
        let weight = Zoom::from_bits(info.weight);
        let largest: u32 = if sixteen {
            65535
        } else {
            255
        };
        let reader = Channel {
            sixteen,
            stride: stride as usize,
            pixels,
            weight,
            enable_tinting: info.enable_tinting != 0,
            tinting_color_r: info.tinting_color_r,
            tinting_color_g: info.tinting_color_g,
            tinting_color_b: info.tinting_color_b,
            black: level_of(info.black_point, largest),
            white: level_of(info.white_point, largest),
            look_up_table: table,
        };
        assert(reader.reads(view, width, height));
        readers.push(reader);
        place = place + 1;
    }
    proof {
        assert forall|i: int| 0 <= i < channels.len() implies (#[trigger] channels[i]).is_valid() by {
            assert(readers@[i].reads(channels[i], width, height));
        }
        assert forall|i: int| 0 <= i < channels.len() implies (#[trigger] channels[i]).info.width
            == channels[0].info.width && channels[i].info.height == channels[0].info.height by {
            assert(readers@[i].reads(channels[i], width, height));
        }
    }
    let row: u64 = 3 * width as u64;
    if row > u32::MAX as u64 {
        return Err(LibCZIApiError::OutOfMemory);
    }
    assert(row * height as u64 <= 0xffff_ffff * 0xffff_ffff) by (nonlinear_arith)
        requires
            row <= 0xffff_ffff,
            height <= 0xffff_ffff,
    ;
    if row * height as u64 > usize::MAX as u64 {
        return Err(LibCZIApiError::OutOfMemory);
    }
    let mut out: Vec<u8> = Vec::new();
    let mut y: u32 = 0;
    assert((3 * width) * 0 == 0) by (nonlinear_arith);
    while y < height
        invariant
            y <= height,
            readers@.len() == channels.len(),
            readers@.len() <= i32::MAX,
            forall|i: int|
                0 <= i < readers@.len() ==> (#[trigger] readers@[i]).reads(channels[i], width, height),
            out@ == composed(channels, width as nat, y as nat),
            out@.len() == (3 * width) * y,
        decreases height - y,
    {
        let ghost above = out@;
        let mut x: u32 = 0;
        while x < width
            invariant
                x <= width,
                y < height,
                readers@.len() == channels.len(),
                readers@.len() <= i32::MAX,
                forall|i: int|
                    0 <= i < readers@.len() ==> (#[trigger] readers@[i]).reads(channels[i], width, height),
                out@ == above + composed_row(channels, y as int, x as nat),
                out@.len() == above.len() + 3 * x,
            decreases width - x,
        {
            let sum = sum_parts(
                &readers,
                x as usize,
                y as usize,
                Ghost(channels),
                Ghost(width),
                Ghost(height),
            );
            let ghost so_far = out@;
            out.push(
                if sum.2 > 255 {
                    255u8
                } else {
                    sum.2 as u8
                },
            );
            out.push(
                if sum.1 > 255 {
                    255u8
                } else {
                    sum.1 as u8
                },
            );
            out.push(
                if sum.0 > 255 {
                    255u8
                } else {
                    sum.0 as u8
                },
            );
            assert(out@ =~= so_far + composed_pixel(channels, x as int, y as int));
            x = x + 1;
        }
        assert((3 * width) * (y + 1) == (3 * width) * y + 3 * width) by (nonlinear_arith);
        y = y + 1;
    }
    proof {
        crate::pixel::lemma_pixel_type_code_round_trip(PixelType::Bgr24, 3);
    }
    match Bitmap::create(width, height, PixelType::Bgr24, row as u32, out) {
        Ok(made) => Ok(made),
        Err(e) => Err(e),
    }
}

/// The look-up table that stretches every intensity between a black point
/// and a white point: it has a place for each intensity of 8 or of 16
/// bits, and holds there what `stretch` makes of the intensity.
pub open spec fn stretch_table(black_point: u32, white_point: u32, sixteen: bool) -> Seq<u8> {
    let largest: int = if sixteen {
        65535
    } else {
        255
    };
    Seq::new(
        (largest + 1) as nat,
        |intensity: int|
            stretch(intensity, level(black_point, largest), level(white_point, largest)) as u8,
    )
}

/// Whether `info` is what the composition needs to know of a channel that
/// is shown as `channel` says, with the look-up table written out.
pub open spec fn is_filled_out(
    info: CompositionChannelInfo,
    channel: ChannelDisplaySettings,
    sixteen: bool,
) -> bool {
    &&& info.weight == channel.weight
    &&& info.enable_tinting == if channel.enable_tinting {
        1u8
    } else {
        0u8
    }
    &&& info.tinting_color_r == channel.tinting_color_r
    &&& info.tinting_color_g == channel.tinting_color_g
    &&& info.tinting_color_b == channel.tinting_color_b
    &&& info.black_point == channel.black_point
    &&& info.white_point == channel.white_point
    &&& info.look_up_table@ == stretch_table(channel.black_point, channel.white_point, sixteen)
    &&& info.look_up_table_element_count == info.look_up_table@.len()
}

/// A channel shows the same with the look-up table that stretches between
/// its black point and its white point as without a table.
pub proof fn lemma_stretch_table_changes_nothing(channel: ChannelView, intensity: int)
    requires
        0 <= intensity <= channel.largest(),
    ensures
        (ChannelView {
            look_up_table: stretch_table(
                channel.black_point,
                channel.white_point,
                channel.is_sixteen(),
            ),
            ..channel
        }).mapped(intensity) == (ChannelView { look_up_table: Seq::empty(), ..channel }).mapped(
            intensity,
        ),
{
    lemma_stretch_bounds(
        intensity,
        level(channel.black_point, channel.largest()),
        level(channel.white_point, channel.largest()),
    );
}

impl DisplaySettings {
    /// What the composition needs to know of the first channel with the
    /// given number: how the channel is weighted and tinted, its black
    /// point and its white point, and the look-up table of 8 or of 16 bits
    /// that stretches the intensities between the two points. Fails with
    /// `InvalidArgument` if and only if no channel has the number.
    pub fn compositor_fill_out_composition_channel_info_interop(
        &self,
        channel_index: i32,
        sixteen_or_eight_bits_lut: bool,
    ) -> (info: Result<CompositionChannelInfo, LibCZIApiError>)
        ensures
            match info {
                Ok(made) => exists|i: int|
                    is_channel_place(self.channels@, channel_index, i) && is_filled_out(
                        made,
                        self.channels@[i],
                        sixteen_or_eight_bits_lut,
                    ),
                Err(e) => e == LibCZIApiError::InvalidArgument && forall|i: int|
                    0 <= i < self.channels@.len() ==> self.channels@[i].channel_id
                        != channel_index,
            },
    {
        let channel = match self.get_channel_display_settings(channel_index) {
            Ok(found) => found,
            Err(e) => {
                return Err(e);
            },
        };
        let largest: u32 = if sixteen_or_eight_bits_lut {
            65535
        } else {
            255
        };
        let black: u32 = level_of(channel.black_point, largest);
        let white: u32 = level_of(channel.white_point, largest);
        let ghost wanted = stretch_table(
            channel.black_point,
            channel.white_point,
            sixteen_or_eight_bits_lut,
        );
        let mut table: Vec<u8> = Vec::new();
        let mut intensity: u32 = 0;
        while intensity <= largest
            invariant
                intensity <= largest + 1,
                largest <= 65535,
                black <= 65535,
                white <= 65535,
                black == level(channel.black_point, largest as int),
                white == level(channel.white_point, largest as int),
                wanted.len() == largest + 1,
                wanted == stretch_table(
                    channel.black_point,
                    channel.white_point,
                    sixteen_or_eight_bits_lut,
                ),
                table@.len() == intensity,
                forall|i: int| 0 <= i < intensity ==> table@[i] == wanted[i],
            decreases largest + 1 - intensity,
        {
            table.push(stretched(intensity, black, white) as u8);
            intensity = intensity + 1;
        }
        assert(table@ =~= wanted);
        let made = CompositionChannelInfo {
            weight: channel.weight,
            enable_tinting: if channel.enable_tinting {
                1
            } else {
                0
            },
            tinting_color_r: channel.tinting_color_r,
            tinting_color_g: channel.tinting_color_g,
            tinting_color_b: channel.tinting_color_b,
            black_point: channel.black_point,
            white_point: channel.white_point,
            look_up_table_element_count: table.len() as i32,
            look_up_table: table,
        };
        Ok(made)
    }
}

} // verus!
