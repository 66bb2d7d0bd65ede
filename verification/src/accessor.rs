//! What a caller may ask of the tile accessor and of the composition of
//! channels.

use crate::error::{CziError, LibCZIApiError};
use crate::text::{first_zero, terminator_position};
use vstd::prelude::*;
use vstd::slice::slice_to_vec;
use vstd::string::StringSliceAdditionalSpecFns;

verus! {

/// The options of a request to the tile accessor. Each part of the
/// background colour is kept as the 32 bits of an IEEE 754 float.
#[derive(Debug)]
pub struct AccessorOptions {
    pub back_ground_color_r: u32,
    pub back_ground_color_g: u32,
    pub back_ground_color_b: u32,
    /// Whether the sub-blocks are painted by rising M-index.
    pub sort_by_m: bool,
    /// Whether sub-blocks that end up hidden may be left out. This never
    /// changes a pixel of the result.
    pub use_visibility_check_optimization: bool,
    /// Further options as a JSON text, without a zero byte in it.
    pub additional_parameters: String,
}

/// What the composition needs to know of one channel. The weight and the
/// black and white points are kept as the 32 bits of an IEEE 754 float.
#[derive(Debug)]
pub struct CompositionChannelInfo {
    pub weight: u32,
    /// Whether the channel is tinted; zero says no.
    pub enable_tinting: u8,
    pub tinting_color_r: u8,
    pub tinting_color_g: u8,
    pub tinting_color_b: u8,
    pub black_point: u32,
    pub white_point: u32,
    /// How many bytes the look-up table has.
    pub look_up_table_element_count: i32,
    pub look_up_table: Vec<u8>,
}

impl Clone for AccessorOptions {
    fn clone(&self) -> (copy: Self)
        ensures
            copy.additional_parameters@ == self.additional_parameters@,
            copy == (AccessorOptions { additional_parameters: copy.additional_parameters, ..*self }),
    {
        AccessorOptions {
            back_ground_color_r: self.back_ground_color_r,
            back_ground_color_g: self.back_ground_color_g,
            back_ground_color_b: self.back_ground_color_b,
            sort_by_m: self.sort_by_m,
            use_visibility_check_optimization: self.use_visibility_check_optimization,
            additional_parameters: self.additional_parameters.clone(),
        }
    }
}

impl AccessorOptions {
    /// Gathers the options. Fails with `InteriorNul` if and only if the text
    /// of the further options has a zero byte in it.
    pub fn new(
        back_ground_color_r: u32,
        back_ground_color_g: u32,
        back_ground_color_b: u32,
        sort_by_m: bool,
        use_visibility_check_optimization: bool,
        additional_parameters: &str,
    ) -> (options: Result<Self, CziError>)
        ensures
            match options {
                Ok(made) => {
                    &&& first_zero(additional_parameters.spec_bytes()) is None
                    &&& made.additional_parameters@ == additional_parameters@
                    &&& made == (AccessorOptions {
                        back_ground_color_r,
                        back_ground_color_g,
                        back_ground_color_b,
                        sort_by_m,
                        use_visibility_check_optimization,
                        additional_parameters: made.additional_parameters,
                    })
                },
                Err(e) => e == CziError::InteriorNul && first_zero(
                    additional_parameters.spec_bytes(),
                ) is Some,
            },
    {
        match terminator_position(additional_parameters.as_bytes()) {
            Some(_) => Err(CziError::InteriorNul),
            None => Ok(
                AccessorOptions {
                    back_ground_color_r,
                    back_ground_color_g,
                    back_ground_color_b,
                    sort_by_m,
                    use_visibility_check_optimization,
                    additional_parameters: additional_parameters.to_owned(),
                },
            ),
        }
    }

    pub fn get_background_color_r(&self) -> (bits: u32)
        ensures
            bits == self.back_ground_color_r,
    {
        self.back_ground_color_r
    }

    pub fn get_background_color_g(&self) -> (bits: u32)
        ensures
            bits == self.back_ground_color_g,
    {
        self.back_ground_color_g
    }

    pub fn get_background_color_b(&self) -> (bits: u32)
        ensures
            bits == self.back_ground_color_b,
    {
        self.back_ground_color_b
    }

    pub fn get_sort_by_m(&self) -> (sort_by_m: bool)
        ensures
            sort_by_m == self.sort_by_m,
    {
        self.sort_by_m
    }

    pub fn get_use_visibility_check_optimization(&self) -> (use_it: bool)
        ensures
            use_it == self.use_visibility_check_optimization,
    {
        self.use_visibility_check_optimization
    }

    /// The text of the further options. It is kept as a text, so reading it
    /// always succeeds.
    pub fn get_additional_parameters(&self) -> (text: Result<String, CziError>)
        ensures
            text matches Ok(parameters) && parameters@ == self.additional_parameters@,
    {
        Ok(self.additional_parameters.clone())
    }

    pub fn set_background_color_r(&mut self, bits: u32)
        ensures
            *final(self) == (AccessorOptions { back_ground_color_r: bits, ..*old(self) }),
    {
        self.back_ground_color_r = bits;
    }

    pub fn set_background_color_g(&mut self, bits: u32)
        ensures
            *final(self) == (AccessorOptions { back_ground_color_g: bits, ..*old(self) }),
    {
        self.back_ground_color_g = bits;
    }

    pub fn set_background_color_b(&mut self, bits: u32)
        ensures
            *final(self) == (AccessorOptions { back_ground_color_b: bits, ..*old(self) }),
    {
        self.back_ground_color_b = bits;
    }

    pub fn set_sort_by_m(&mut self, sort_by_m: bool)
        ensures
            *final(self) == (AccessorOptions { sort_by_m, ..*old(self) }),
    {
        self.sort_by_m = sort_by_m;
    }

    pub fn set_use_visibility_check_optimization(&mut self, use_visibility_check_optimization: bool)
        ensures
            *final(self) == (AccessorOptions { use_visibility_check_optimization, ..*old(self) }),
    {
        self.use_visibility_check_optimization = use_visibility_check_optimization;
    }

    /// Replaces the text of the further options. Fails with `InteriorNul`,
    /// and changes nothing, if and only if the text has a zero byte in it.
    pub fn set_additional_parameters(&mut self, additional_parameters: &str) -> (done: Result<
        (),
        CziError,
    >)
        ensures
            match done {
                Ok(_) => {
                    &&& first_zero(additional_parameters.spec_bytes()) is None
                    &&& final(self).additional_parameters@ == additional_parameters@
                    &&& *final(self) == (AccessorOptions {
                        additional_parameters: final(self).additional_parameters,
                        ..*old(self)
                    })
                },
                Err(e) => {
                    &&& e == CziError::InteriorNul
                    &&& first_zero(additional_parameters.spec_bytes()) is Some
                    &&& *final(self) == *old(self)
                },
            },
    {
        match terminator_position(additional_parameters.as_bytes()) {
            Some(_) => Err(CziError::InteriorNul),
            None => {
                self.additional_parameters = additional_parameters.to_owned();
                Ok(())
            },
        }
    }
}

impl Clone for CompositionChannelInfo {
    fn clone(&self) -> (copy: Self)
        ensures
            copy.look_up_table@ == self.look_up_table@,
            copy == (CompositionChannelInfo { look_up_table: copy.look_up_table, ..*self }),
    {
        CompositionChannelInfo {
            weight: self.weight,
            enable_tinting: self.enable_tinting,
            tinting_color_r: self.tinting_color_r,
            tinting_color_g: self.tinting_color_g,
            tinting_color_b: self.tinting_color_b,
            black_point: self.black_point,
            white_point: self.white_point,
            look_up_table_element_count: self.look_up_table_element_count,
            look_up_table: self.look_up_table.clone(),
        }
    }
}

impl CompositionChannelInfo {
    /// Gathers what describes a channel. The look-up table is copied; its
    /// element count is taken as given.
    pub fn new(
        weight: u32,
        enable_tinting: u8,
        tinting_color_r: u8,
        tinting_color_g: u8,
        tinting_color_b: u8,
        black_point: u32,
        white_point: u32,
        look_up_table_element_count: i32,
        look_up_table: &[u8],
    ) -> (info: Self)
        ensures
            info.look_up_table@ == look_up_table@,
            info == (CompositionChannelInfo {
                weight,
                enable_tinting,
                tinting_color_r,
                tinting_color_g,
                tinting_color_b,
                black_point,
                white_point,
                look_up_table_element_count,
                look_up_table: info.look_up_table,
            }),
    {
        CompositionChannelInfo {
            weight,
            enable_tinting,
            tinting_color_r,
            tinting_color_g,
            tinting_color_b,
            black_point,
            white_point,
            look_up_table_element_count,
            look_up_table: slice_to_vec(look_up_table),
        }
    }

    pub fn get_weight(&self) -> (weight: u32)
        ensures
            weight == self.weight,
    {
        self.weight
    }

    pub fn get_enable_tinting(&self) -> (enable_tinting: u8)
        ensures
            enable_tinting == self.enable_tinting,
    {
        self.enable_tinting
    }

    pub fn get_tinting_color_r(&self) -> (tinting_color_r: u8)
        ensures
            tinting_color_r == self.tinting_color_r,
    {
        self.tinting_color_r
    }

    pub fn get_tinting_color_g(&self) -> (tinting_color_g: u8)
        ensures
            tinting_color_g == self.tinting_color_g,
    {
        self.tinting_color_g
    }

    pub fn get_tinting_color_b(&self) -> (tinting_color_b: u8)
        ensures
            tinting_color_b == self.tinting_color_b,
    {
        self.tinting_color_b
    }

    pub fn get_black_point(&self) -> (black_point: u32)
        ensures
            black_point == self.black_point,
    {
        self.black_point
    }

    pub fn get_white_point(&self) -> (white_point: u32)
        ensures
            white_point == self.white_point,
    {
        self.white_point
    }

    pub fn get_look_up_table_element_count(&self) -> (look_up_table_element_count: i32)
        ensures
            look_up_table_element_count == self.look_up_table_element_count,
    {
        self.look_up_table_element_count
    }

    pub fn get_look_up_table(&self) -> (look_up_table: Vec<u8>)
        ensures
            look_up_table@ == self.look_up_table@,
    {
        self.look_up_table.clone()
    }

    pub fn set_weight(&mut self, weight: u32)
        ensures
            *final(self) == (CompositionChannelInfo { weight, ..*old(self) }),
    {
        self.weight = weight;
    }

    pub fn set_enable_tinting(&mut self, enable_tinting: u8)
        ensures
            *final(self) == (CompositionChannelInfo { enable_tinting, ..*old(self) }),
    {
        self.enable_tinting = enable_tinting;
    }

    pub fn set_tinting_color_r(&mut self, tinting_color_r: u8)
        ensures
            *final(self) == (CompositionChannelInfo { tinting_color_r, ..*old(self) }),
    {
        self.tinting_color_r = tinting_color_r;
    }

    pub fn set_tinting_color_g(&mut self, tinting_color_g: u8)
        ensures
            *final(self) == (CompositionChannelInfo { tinting_color_g, ..*old(self) }),
    {
        self.tinting_color_g = tinting_color_g;
    }

    pub fn set_tinting_color_b(&mut self, tinting_color_b: u8)
        ensures
            *final(self) == (CompositionChannelInfo { tinting_color_b, ..*old(self) }),
    {
        self.tinting_color_b = tinting_color_b;
    }

    pub fn set_black_point(&mut self, black_point: u32)
        ensures
            *final(self) == (CompositionChannelInfo { black_point, ..*old(self) }),
    {
        self.black_point = black_point;
    }

    pub fn set_white_point(&mut self, white_point: u32)
        ensures
            *final(self) == (CompositionChannelInfo { white_point, ..*old(self) }),
    {
        self.white_point = white_point;
    }

    pub fn set_look_up_table_element_count(&mut self, look_up_table_element_count: i32)
        ensures
            *final(self) == (CompositionChannelInfo { look_up_table_element_count, ..*old(self) }),
    {
        self.look_up_table_element_count = look_up_table_element_count;
    }

    /// Takes a copy of the bytes and sets `look_up_table_element_count` to their number.
    pub fn set_look_up_table(&mut self, look_up_table: &[u8])
        requires
            look_up_table@.len() <= i32::MAX,
        ensures
            final(self).look_up_table@ == look_up_table@,
            final(self).look_up_table_element_count == look_up_table@.len(),
            *final(self) == (CompositionChannelInfo {
                look_up_table: final(self).look_up_table,
                look_up_table_element_count: final(self).look_up_table_element_count,
                ..*old(self)
            }),
    {
        self.look_up_table_element_count = look_up_table.len() as i32;
        self.look_up_table = slice_to_vec(look_up_table);
    }
}

/// How one channel of a document is to be shown. The weight and the black
/// and white points are kept as the 32 bits of an IEEE 754 float.
#[derive(Clone, Copy, Debug, PartialEq, Eq, Structural)]
pub struct ChannelDisplaySettings {
    /// The number of the channel.
    pub channel_id: i32,
    /// Whether the channel is shown at all.
    pub is_enabled: bool,
    pub weight: u32,
    /// Whether the channel is tinted.
    pub enable_tinting: bool,
    pub tinting_color_r: u8,
    pub tinting_color_g: u8,
    pub tinting_color_b: u8,
    pub black_point: u32,
    pub white_point: u32,
}

/// How the channels of a document are to be shown.
#[derive(Debug)]
pub struct DisplaySettings {
    pub channels: Vec<ChannelDisplaySettings>,
}

/// Whether `place` is the place of the first channel with the given number.
pub open spec fn is_channel_place(
    channels: Seq<ChannelDisplaySettings>,
    channel_id: i32,
    place: int,
) -> bool {
    &&& 0 <= place < channels.len()
    &&& channels[place].channel_id == channel_id
    &&& forall|j: int| 0 <= j < place ==> channels[j].channel_id != channel_id
}

impl Clone for DisplaySettings {
    fn clone(&self) -> (copy: Self)
        ensures
            copy.channels@ == self.channels@,
    {
        DisplaySettings { channels: self.channels.clone() }
    }
}

impl DisplaySettings {
    /// The settings of the first channel with the given number. Fails with
    /// `InvalidArgument` if and only if no channel has the number.
    pub fn get_channel_display_settings(&self, channel_id: i32) -> (settings: Result<
        ChannelDisplaySettings,
        LibCZIApiError,
    >)
        ensures
            match settings {
                Ok(found) => exists|i: int|
                    is_channel_place(self.channels@, channel_id, i) && found == self.channels@[i],
                Err(e) => e == LibCZIApiError::InvalidArgument && forall|i: int|
                    0 <= i < self.channels@.len() ==> self.channels@[i].channel_id != channel_id,
            },
    {
        let mut i: usize = 0;
        while i < self.channels.len()
            invariant
                i <= self.channels@.len(),
                forall|j: int| 0 <= j < i ==> self.channels@[j].channel_id != channel_id,
            decreases self.channels@.len() - i,
        {
            if self.channels[i].channel_id == channel_id {
                assert(is_channel_place(self.channels@, channel_id, i as int));
                return Ok(self.channels[i]);
            }
            i = i + 1;
        }
        Err(LibCZIApiError::InvalidArgument)
    }

    /// Gives the settings up. The call always succeeds.
    pub fn release(self) -> (done: Result<(), LibCZIApiError>)
        ensures
            done is Ok,
    {
        Ok(())
    }
}

impl ChannelDisplaySettings {
    /// Gives the settings up. The call always succeeds.
    pub fn release(self) -> (done: Result<(), LibCZIApiError>)
        ensures
            done is Ok,
    {
        Ok(())
    }
}

} // verus!
