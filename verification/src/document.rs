//! What a document says of itself: its name, its title, its author and the
//! like, drawn from the XML text of its metadata and told as a JSON text.

use crate::accessor::{ChannelDisplaySettings, DisplaySettings};
use crate::dimension::Dimension;
use crate::error::LibCZIApiError;
use crate::text::{append_decimal, decimal_chars, str_of_utf8};
use crate::writer::hex_value;
use crate::xml::{
    element_text, find_element_text, path_steps, step_to, step_to_marked, Step, StepView,
};
use vstd::prelude::*;
use vstd::string::StringSliceAdditionalSpecFns;
use vstd::utf8::{encode_utf8, valid_utf8};

verus! {

/// How many things a document can say of itself.
pub const INFO_COUNT: usize = 8;

/// The keys under which the JSON text tells what the document says of
/// itself, in the order in which they are told.
pub open spec fn info_key(place: int) -> Seq<u8> {
    if place == 0 {
        "name".spec_bytes()
    } else if place == 1 {
        "title".spec_bytes()
    } else if place == 2 {
        "user_name".spec_bytes()
    } else if place == 3 {
        "description".spec_bytes()
    } else if place == 4 {
        "comment".spec_bytes()
    } else if place == 5 {
        "keywords".spec_bytes()
    } else if place == 6 {
        "rating".spec_bytes()
    } else {
        "creation_date".spec_bytes()
    }
}

/// The names of the elements that hold what the document says of itself,
/// in the order of the keys.
pub open spec fn info_element(place: int) -> &'static str {
    if place == 0 {
        "Name"
    } else if place == 1 {
        "Title"
    } else if place == 2 {
        "UserName"
    } else if place == 3 {
        "Description"
    } else if place == 4 {
        "Comment"
    } else if place == 5 {
        "Keywords"
    } else if place == 6 {
        "Rating"
    } else {
        "CreationDate"
    }
}

/// The names on the way to an element that holds what the document says
/// of itself.
pub open spec fn info_path(place: int) -> Seq<StepView> {
    seq![
        step_to("ImageDocument".spec_bytes()),
        step_to("Metadata".spec_bytes()),
        step_to("Information".spec_bytes()),
        step_to("Document".spec_bytes()),
        step_to(info_element(place).spec_bytes()),
    ]
}

/// The digit for a number below 16, in the base of 16.
pub open spec fn hex_digit(number: u8) -> u8 {
    if number < 10 {
        (48 + number) as u8
    } else {
        (87 + number) as u8
    }
}

/// How a byte stands in a JSON text in quotes: with a `\` in front of a
/// quote and of a `\`, as `\u00` and two digits where it is a control
/// character, and as it is else.
pub open spec fn escaped_byte(byte: u8) -> Seq<u8> {
    if byte == 34 || byte == 92 {
        seq![92u8, byte]
    } else if byte < 32 {
        seq![92u8, 117u8, 48u8, 48u8, hex_digit(byte / 16), hex_digit(byte % 16)]
    } else {
        seq![byte]
    }
}

/// How the first `count` bytes of a text stand in a JSON text in quotes.
pub open spec fn escaped(text: Seq<u8>, count: nat) -> Seq<u8>
    decreases count,
{
    if count == 0 {
        Seq::empty()
    } else {
        escaped(text, (count - 1) as nat) + escaped_byte(text[count - 1])
    }
}

/// A text as a JSON text in quotes.
pub open spec fn quoted(text: Seq<u8>) -> Seq<u8> {
    seq![34u8] + escaped(text, text.len()) + seq![34u8]
}

/// Whether the text is a whole number as JSON writes it, of 9 digits at
/// most: digits only, and no zero in front of another digit.
pub open spec fn is_plain_number(text: Seq<u8>) -> bool {
    &&& 1 <= text.len() <= 9
    &&& forall|i: int| 0 <= i < text.len() ==> 48 <= #[trigger] text[i] <= 57
    &&& text.len() == 1 || text[0] != 48
}

/// The value that the JSON text gives for what an element holds: the text
/// in quotes, or, for the rating, the number. A rating that is no plain
/// number has no value.
pub open spec fn info_value(place: int, content: Seq<u8>) -> Option<Seq<u8>> {
    if place != 6 {
        Some(quoted(content))
    } else if is_plain_number(content) {
        Some(content)
    } else {
        None
    }
}

/// The members of a JSON object with one more member: the member for the
/// key at `place`, behind a comma where it is not the first, if the XML
/// text has the element for it and its value can be told. The error of
/// an element that cannot be looked for.
pub open spec fn with_member(before: Seq<u8>, xml: Seq<u8>, place: int) -> Result<
    Seq<u8>,
    LibCZIApiError,
> {
    match element_text(xml, info_path(place)) {
        Err(e) => Err(e),
        Ok(None) => Ok(before),
        Ok(Some(content)) => match info_value(place, content) {
            None => Ok(before),
            Some(value) => Ok(
                before + (if before.len() > 0 {
                    seq![44u8]
                } else {
                    Seq::empty()
                }) + quoted(info_key(place)) + seq![58u8] + value,
            ),
        },
    }
}

/// The members of the JSON object for the first `count` keys, with commas
/// between them: one for each key whose element the XML text has and
/// whose value can be told. The error of the first element that cannot be
/// looked for.
pub open spec fn info_members(xml: Seq<u8>, count: nat) -> Result<Seq<u8>, LibCZIApiError>
    decreases count,
{
    if count == 0 {
        Ok(Seq::empty())
    } else {
        match info_members(xml, (count - 1) as nat) {
            Err(e) => Err(e),
            Ok(before) => with_member(before, xml, count - 1),
        }
    }
}

/// What a document says of itself, as the bytes of a JSON text: an object
/// with the members `name`, `title`, `user_name`, `description`,
/// `comment`, `keywords`, `rating` and `creation_date`, as far as the XML
/// text has the elements for them under
/// `ImageDocument/Metadata/Information/Document`. The rating is a number,
/// the others are texts.
///
/// `CorruptData` for an XML text that cannot be read, and for one that
/// gives a JSON text that is no valid UTF-8.
pub open spec fn general_document_info_spec(xml: Seq<u8>) -> Result<Seq<u8>, LibCZIApiError> {
    match info_members(xml, INFO_COUNT as nat) {
        Err(e) => Err(e),
        Ok(members) => if valid_utf8(seq![123u8] + members + seq![125u8]) {
            Ok(seq![123u8] + members + seq![125u8])
        } else {
            Err(LibCZIApiError::CorruptData)
        },
    }
}

/// The way to an element by five names.
fn way_to<'a>(first: &'a str, second: &'a str, third: &'a str, fourth: &'a str, fifth: &'a str) -> (path:
    [Step<'a>; 5])
    ensures
        path_steps(path@) == seq![
            step_to(first.spec_bytes()),
            step_to(second.spec_bytes()),
            step_to(third.spec_bytes()),
            step_to(fourth.spec_bytes()),
            step_to(fifth.spec_bytes()),
        ],
{
    let path: [Step; 5] = [
        Step::to(first),
        Step::to(second),
        Step::to(third),
        Step::to(fourth),
        Step::to(fifth),
    ];
    assert(path_steps(path@) =~= seq![
        step_to(first.spec_bytes()),
        step_to(second.spec_bytes()),
        step_to(third.spec_bytes()),
        step_to(fourth.spec_bytes()),
        step_to(fifth.spec_bytes()),
    ]);
    path
}

/// The key at a place.
fn key_at(place: usize) -> (key: &'static str)
    ensures
        key.spec_bytes() == info_key(place as int),
{
    if place == 0 {
        "name"
    } else if place == 1 {
        "title"
    } else if place == 2 {
        "user_name"
    } else if place == 3 {
        "description"
    } else if place == 4 {
        "comment"
    } else if place == 5 {
        "keywords"
    } else if place == 6 {
        "rating"
    } else {
        "creation_date"
    }
}

/// The name of the element at a place.
fn element_at(place: usize) -> (name: &'static str)
    ensures
        name == info_element(place as int),
{
    if place == 0 {
        "Name"
    } else if place == 1 {
        "Title"
    } else if place == 2 {
        "UserName"
    } else if place == 3 {
        "Description"
    } else if place == 4 {
        "Comment"
    } else if place == 5 {
        "Keywords"
    } else if place == 6 {
        "Rating"
    } else {
        "CreationDate"
    }
}

/// The digit for a number below 16, in the base of 16.
fn hex_digit_of(number: u8) -> (digit: u8)
    requires
        number < 16,
    ensures
        digit == hex_digit(number),
{
    if number < 10 {
        48 + number
    } else {
        87 + number
    }
}

/// Appends a text as a JSON text in quotes.
pub fn append_quoted(out: &mut Vec<u8>, text: &[u8])
    ensures
        final(out)@ == old(out)@ + quoted(text@),
{
    out.push(34);
    let ghost head = out@;
    let mut place: usize = 0;
    assert(out@ =~= head + escaped(text@, 0));
    while place < text.len()
        invariant
            place <= text@.len(),
            out@ == head + escaped(text@, place as nat),
        decreases text@.len() - place,
    {
        let byte: u8 = text[place];
        let ghost before = out@;
        if byte == 34 || byte == 92 {
            out.push(92);
            out.push(byte);
        } else if byte < 32 {
            out.push(92);
            out.push(117);
            out.push(48);
            out.push(48);
            out.push(hex_digit_of(byte / 16));
            out.push(hex_digit_of(byte % 16));
        } else {
            out.push(byte);
        }
        assert(out@ =~= before + escaped_byte(byte));
        assert(out@ =~= head + escaped(text@, (place + 1) as nat));
        place = place + 1;
    }
    out.push(34);
    assert(out@ =~= old(out)@ + quoted(text@));
}

/// Whether the text is a whole number as JSON writes it, of 9 digits at
/// most.
pub fn is_plain_number_text(text: &[u8]) -> (plain: bool)
    ensures
        plain == is_plain_number(text@),
{
    if text.len() < 1 || text.len() > 9 {
        return false;
    }
    if text.len() > 1 && text[0] == 48 {
        return false;
    }
    let mut place: usize = 0;
    while place < text.len()
        invariant
            place <= text@.len(),
            forall|i: int| 0 <= i < place ==> 48 <= #[trigger] text@[i] <= 57,
        decreases text@.len() - place,
    {
        if text[place] < 48 || text[place] > 57 {
            return false;
        }
        place = place + 1;
    }
    true
}

/// Appends the member for the key at `place`, if there is one.
fn append_member(members: &mut Vec<u8>, xml: &[u8], place: usize) -> (done: Result<
    (),
    LibCZIApiError,
>)
    requires
        place < INFO_COUNT,
    ensures
        match done {
            Ok(()) => with_member(old(members)@, xml@, place as int) == Ok::<
                Seq<u8>,
                LibCZIApiError,
            >(final(members)@),
            Err(e) => with_member(old(members)@, xml@, place as int) == Err::<
                Seq<u8>,
                LibCZIApiError,
            >(e),
        },
{
    let path = way_to("ImageDocument", "Metadata", "Information", "Document", element_at(place));
    let content = match find_element_text(xml, path.as_slice()) {
        Err(e) => {
            return Err(e);
        },
        Ok(None) => {
            return Ok(());
        },
        Ok(Some(found)) => found,
    };
    if place == 6 && !is_plain_number_text(content.as_slice()) {
        return Ok(());
    }
    if members.len() > 0 {
        members.push(44);
    }
    append_quoted(members, key_at(place).as_bytes());
    members.push(58);
    if place != 6 {
        append_quoted(members, content.as_slice());
    } else {
        members.extend_from_slice(content.as_slice());
    }
    assert(members@ =~= old(members)@ + (if old(members)@.len() > 0 {
        seq![44u8]
    } else {
        Seq::empty()
    }) + quoted(info_key(place as int)) + seq![58u8] + info_value(place as int, content@)->0);
    Ok(())
}

/// What a document says of itself, as a JSON text; see
/// `general_document_info_spec`.
pub fn general_document_info(xml: &[u8]) -> (json: Result<String, LibCZIApiError>)
    ensures
        match json {
            Ok(text) => general_document_info_spec(xml@) == Ok::<Seq<u8>, LibCZIApiError>(
                encode_utf8(text@),
            ),
            Err(e) => general_document_info_spec(xml@) == Err::<Seq<u8>, LibCZIApiError>(e),
        },
{
    let mut members: Vec<u8> = Vec::new();
    let mut place: usize = 0;
    while place < INFO_COUNT
        invariant
            place <= INFO_COUNT,
            info_members(xml@, place as nat) == Ok::<Seq<u8>, LibCZIApiError>(members@),
        decreases INFO_COUNT - place,
    {
        match append_member(&mut members, xml, place) {
            Ok(()) => {},
            Err(e) => {
                assert(info_members(xml@, (place + 1) as nat) == Err::<Seq<u8>, LibCZIApiError>(e));
                proof {
                    lemma_members_fail(xml@, (place + 1) as nat, INFO_COUNT as nat);
                }
                return Err(e);
            },
        }
        place = place + 1;
    }
    let mut out: Vec<u8> = Vec::new();
    out.push(123);
    out.extend_from_slice(members.as_slice());
    out.push(125);
    assert(out@ =~= seq![123u8] + members@ + seq![125u8]);
    match str_of_utf8(out.as_slice()) {
        Some(text) => Ok(text.to_owned()),
        None => Err(LibCZIApiError::CorruptData),
    }
}

/// Where the members for the first keys cannot be told, neither can the
/// members for more keys, and the error is the same.
proof fn lemma_members_fail(xml: Seq<u8>, count: nat, more: nat)
    requires
        count <= more,
        info_members(xml, count) is Err,
    ensures
        info_members(xml, more) == info_members(xml, count),
    decreases more - count,
{
    if count < more {
        lemma_members_fail(xml, count, (more - 1) as nat);
    }
}

/// The axes along which a document says how large a pixel is.
#[derive(Clone, Copy, Debug)]
pub enum Axis {
    X,
    Y,
    Z,
}

impl Axis {
    /// The name by which the XML text marks what it says of the axis.
    pub open spec fn name_spec(self) -> &'static str {
        match self {
            Axis::X => "X",
            Axis::Y => "Y",
            Axis::Z => "Z",
        }
    }

    /// The name by which the XML text marks what it says of the axis.
    pub fn name(&self) -> (name: &'static str)
        ensures
            name == self.name_spec(),
    {
        match self {
            Axis::X => "X",
            Axis::Y => "Y",
            Axis::Z => "Z",
        }
    }
}

/// The way to the element that says how large a pixel is along an axis:
/// the element `Value` in the element `Distance` whose attribute `Id` names
/// the axis, under `ImageDocument/Metadata/Scaling/Items`.
pub open spec fn scaling_path(axis: Axis) -> Seq<StepView> {
    seq![
        step_to("ImageDocument".spec_bytes()),
        step_to("Metadata".spec_bytes()),
        step_to("Scaling".spec_bytes()),
        step_to("Items".spec_bytes()),
        step_to_marked(
            "Distance".spec_bytes(),
            "Id".spec_bytes(),
            axis.name_spec().spec_bytes(),
        ),
        step_to("Value".spec_bytes()),
    ]
}

/// The text in which the document says how large a pixel is along an
/// axis, in metres, or `None` where it does not say so. `CorruptData` for
/// an XML text that cannot be read.
pub fn scaling_text(xml: &[u8], axis: Axis) -> (text: Result<Option<Vec<u8>>, LibCZIApiError>)
    ensures
        match text {
            Ok(Some(content)) => element_text(xml@, scaling_path(axis)) == Ok::<
                Option<Seq<u8>>,
                LibCZIApiError,
            >(Some(content@)),
            Ok(None) => element_text(xml@, scaling_path(axis)) == Ok::<
                Option<Seq<u8>>,
                LibCZIApiError,
            >(None),
            Err(e) => element_text(xml@, scaling_path(axis)) == Err::<
                Option<Seq<u8>>,
                LibCZIApiError,
            >(e),
        },
{
    let path: [Step; 6] = [
        Step::to("ImageDocument"),
        Step::to("Metadata"),
        Step::to("Scaling"),
        Step::to("Items"),
        Step::to_marked("Distance", "Id", axis.name()),
        Step::to("Value"),
    ];
    assert(path_steps(path@) =~= scaling_path(axis));
    find_element_text(xml, path.as_slice())
}

/// The letter of a dimension.
pub open spec fn dimension_letter(dimension: Dimension) -> &'static str {
    match dimension {
        Dimension::Z => "Z",
        Dimension::C => "C",
        Dimension::T => "T",
        Dimension::R => "R",
        Dimension::S => "S",
        Dimension::I => "I",
        Dimension::H => "H",
        Dimension::V => "V",
        Dimension::B => "B",
    }
}

/// The name of the element in which a document says how many places a
/// dimension has.
pub open spec fn size_element(dimension: Dimension) -> &'static str {
    match dimension {
        Dimension::Z => "SizeZ",
        Dimension::C => "SizeC",
        Dimension::T => "SizeT",
        Dimension::R => "SizeR",
        Dimension::S => "SizeS",
        Dimension::I => "SizeI",
        Dimension::H => "SizeH",
        Dimension::V => "SizeV",
        Dimension::B => "SizeB",
    }
}

/// The way to the element in which a document says how many places a
/// dimension has, under `ImageDocument/Metadata/Information/Image`.
pub open spec fn size_path(dimension: Dimension) -> Seq<StepView> {
    seq![
        step_to("ImageDocument".spec_bytes()),
        step_to("Metadata".spec_bytes()),
        step_to("Information".spec_bytes()),
        step_to("Image".spec_bytes()),
        step_to(size_element(dimension).spec_bytes()),
    ]
}

/// What the JSON text tells of the size of a dimension: the member `size`
/// with the number, behind a comma, where the document states a plain
/// number, and nothing else.
pub open spec fn size_member(stated: Option<Seq<u8>>) -> Seq<u8> {
    match stated {
        Some(content) => if is_plain_number(content) {
            ",\"size\":".spec_bytes() + content
        } else {
            Seq::empty()
        },
        None => Seq::empty(),
    }
}

/// The JSON object that tells of a dimension for which the document states
/// the given size, or none.
pub open spec fn dimension_json(dimension: Dimension, stated: Option<Seq<u8>>) -> Seq<u8> {
    "{\"dimension\":".spec_bytes() + quoted(dimension_letter(dimension).spec_bytes())
        + size_member(stated) + "}".spec_bytes()
}

/// What a document says of a dimension, as the bytes of a JSON text: an
/// object with the member `dimension`, the letter of the dimension, and
/// the member `size`, the number of places that the document states for
/// the dimension, where it states one.
///
/// `InvalidArgument` for a number that stands for no dimension;
/// `CorruptData` for an XML text that cannot be read.
pub open spec fn dimension_info_spec(xml: Seq<u8>, dimension_index: u32) -> Result<
    Seq<u8>,
    LibCZIApiError,
> {
    match Dimension::of_index(dimension_index as int) {
        None => Err(LibCZIApiError::InvalidArgument),
        Some(dimension) => match element_text(xml, size_path(dimension)) {
            Err(e) => Err(e),
            Ok(stated) => if valid_utf8(dimension_json(dimension, stated)) {
                Ok(dimension_json(dimension, stated))
            } else {
                Err(LibCZIApiError::CorruptData)
            },
        },
    }
}

/// The dimension with the given number.
fn dimension_of(dimension_index: u32) -> (dimension: Option<Dimension>)
    ensures
        dimension == Dimension::of_index(dimension_index as int),
{
    if dimension_index == 1 {
        Some(Dimension::Z)
    } else if dimension_index == 2 {
        Some(Dimension::C)
    } else if dimension_index == 3 {
        Some(Dimension::T)
    } else if dimension_index == 4 {
        Some(Dimension::R)
    } else if dimension_index == 5 {
        Some(Dimension::S)
    } else if dimension_index == 6 {
        Some(Dimension::I)
    } else if dimension_index == 7 {
        Some(Dimension::H)
    } else if dimension_index == 8 {
        Some(Dimension::V)
    } else if dimension_index == 9 {
        Some(Dimension::B)
    } else {
        None
    }
}

/// The letter of a dimension and the name of the element with its size.
fn names_of(dimension: Dimension) -> (names: (&'static str, &'static str))
    ensures
        names.0 == dimension_letter(dimension),
        names.1 == size_element(dimension),
{
    match dimension {
        Dimension::Z => ("Z", "SizeZ"),
        Dimension::C => ("C", "SizeC"),
        Dimension::T => ("T", "SizeT"),
        Dimension::R => ("R", "SizeR"),
        Dimension::S => ("S", "SizeS"),
        Dimension::I => ("I", "SizeI"),
        Dimension::H => ("H", "SizeH"),
        Dimension::V => ("V", "SizeV"),
        Dimension::B => ("B", "SizeB"),
    }
}

/// The JSON object that tells of a dimension.
fn write_dimension(dimension: Dimension, letter: &str, stated: Option<&[u8]>) -> (out: Vec<u8>)
    requires
        letter == dimension_letter(dimension),
    ensures
        out@ == dimension_json(
            dimension,
            match stated {
                Some(content) => Some(content@),
                None => None,
            },
        ),
{
    let mut out: Vec<u8> = Vec::new();
    out.extend_from_slice("{\"dimension\":".as_bytes());
    append_quoted(&mut out, letter.as_bytes());
    let ghost head = out@;
    match stated {
        Some(content) => {
            if is_plain_number_text(content) {
                out.extend_from_slice(",\"size\":".as_bytes());
                out.extend_from_slice(content);
            }
            assert(out@ =~= head + size_member(Some(content@)));
        },
        None => {
            assert(out@ =~= head + size_member(None));
        },
    }
    out.extend_from_slice("}".as_bytes());
    out
}

/// What a document says of a dimension, as a JSON text; see
/// `dimension_info_spec`.
pub fn dimension_info(xml: &[u8], dimension_index: u32) -> (json: Result<String, LibCZIApiError>)
    ensures
        match json {
            Ok(text) => dimension_info_spec(xml@, dimension_index) == Ok::<
                Seq<u8>,
                LibCZIApiError,
            >(encode_utf8(text@)),
            Err(e) => dimension_info_spec(xml@, dimension_index) == Err::<Seq<u8>, LibCZIApiError>(
                e,
            ),
        },
{
    let dimension = match dimension_of(dimension_index) {
        Some(found) => found,
        None => {
            return Err(LibCZIApiError::InvalidArgument);
        },
    };
    let (letter, element) = names_of(dimension);
    let path = way_to("ImageDocument", "Metadata", "Information", "Image", element);
    let stated = match find_element_text(xml, path.as_slice()) {
        Ok(found) => found,
        Err(e) => {
            return Err(e);
        },
    };
    let out = match stated {
        Some(content) => write_dimension(dimension, letter, Some(content.as_slice())),
        None => write_dimension(dimension, letter, None),
    };
    match str_of_utf8(out.as_slice()) {
        Some(text) => Ok(text.to_owned()),
        None => Err(LibCZIApiError::CorruptData),
    }
}

/// What a document says of how one of its channels is shown, as far as it
/// is no floating-point number, and the texts of what is one.
#[derive(Debug)]
pub struct ChannelDescription {
    /// Whether the channel is shown at all.
    pub is_enabled: bool,
    /// The colour with which the channel is tinted, if it has one: red,
    /// green and blue.
    pub tinting: Option<(u8, u8, u8)>,
    /// The text of the black point, if the document states one.
    pub low: Option<Vec<u8>>,
    /// The text of the white point, if the document states one.
    pub high: Option<Vec<u8>>,
}

/// What a document says of how one of its channels is shown.
pub struct ChannelDescriptionView {
    pub is_enabled: bool,
    pub tinting: Option<(u8, u8, u8)>,
    pub low: Option<Seq<u8>>,
    pub high: Option<Seq<u8>>,
}

impl View for ChannelDescription {
    type V = ChannelDescriptionView;

    open spec fn view(&self) -> ChannelDescriptionView {
        ChannelDescriptionView {
            is_enabled: self.is_enabled,
            tinting: self.tinting,
            low: match self.low {
                Some(text) => Some(text@),
                None => None,
            },
            high: match self.high {
                Some(text) => Some(text@),
                None => None,
            },
        }
    }
}

/// The value that the attribute `Id` of the element of a channel has: the
/// word `Channel:` and the number of the channel.
pub open spec fn channel_mark(channel: u32) -> Seq<u8> {
    encode_utf8("Channel:"@ + decimal_chars(channel as nat))
}

/// The way to the element of a channel, under
/// `ImageDocument/Metadata/DisplaySetting/Channels`.
pub open spec fn channel_path(channel: u32) -> Seq<StepView> {
    seq![
        step_to("ImageDocument".spec_bytes()),
        step_to("Metadata".spec_bytes()),
        step_to("DisplaySetting".spec_bytes()),
        step_to("Channels".spec_bytes()),
        step_to_marked("Channel".spec_bytes(), "Id".spec_bytes(), channel_mark(channel)),
    ]
}

/// The way to an element in the element of a channel.
pub open spec fn channel_part_path(channel: u32, part: &str) -> Seq<StepView> {
    channel_path(channel).push(step_to(part.spec_bytes()))
}

/// The value of two hexadecimal digits, if they are such digits.
pub open spec fn hex_pair(high: u8, low: u8) -> Option<u8> {
    match (hex_value(high), hex_value(low)) {
        (Some(sixteens), Some(ones)) => Some((16 * sixteens + ones) as u8),
        _ => None,
    }
}

/// The colour that a text stands for: red, green and blue. The text is a
/// `#` and six hexadecimal digits, two for each part, or a `#` and eight
/// digits, of which the first two say how opaque the colour is and are
/// passed over. `None` for any other text.
pub open spec fn colour_of(text: Seq<u8>) -> Option<(u8, u8, u8)> {
    if (text.len() == 7 || text.len() == 9) && text[0] == 35 {
        let from = text.len() - 6;
        match (
            hex_pair(text[from], text[from + 1]),
            hex_pair(text[from + 2], text[from + 3]),
            hex_pair(text[from + 4], text[from + 5]),
        ) {
            (Some(red), Some(green), Some(blue)) => Some((red, green, blue)),
            _ => None,
        }
    } else {
        None
    }
}

/// What the document says of how a channel is shown, given what the
/// elements of the channel hold: the channel is shown unless `IsSelected`
/// holds the word `false`; it is tinted with the colour that `Color`
/// holds, if that is a colour; `Low` and `High` hold the black point and
/// the white point.
pub open spec fn described(
    selected: Option<Seq<u8>>,
    colour: Option<Seq<u8>>,
    low: Option<Seq<u8>>,
    high: Option<Seq<u8>>,
) -> ChannelDescriptionView {
    ChannelDescriptionView {
        is_enabled: selected != Some("false".spec_bytes()),
        tinting: match colour {
            Some(text) => colour_of(text),
            None => None,
        },
        low,
        high,
    }
}

/// What the document says of how the channel with the given number is
/// shown, or `None` where it has no element for the channel.
/// `CorruptData` for an XML text that cannot be read.
pub open spec fn channel_description_spec(xml: Seq<u8>, channel: u32) -> Result<
    Option<ChannelDescriptionView>,
    LibCZIApiError,
> {
    match element_text(xml, channel_path(channel)) {
        Err(e) => Err(e),
        Ok(None) => Ok(None),
        Ok(Some(_)) => match (
            element_text(xml, channel_part_path(channel, "IsSelected")),
            element_text(xml, channel_part_path(channel, "Color")),
            element_text(xml, channel_part_path(channel, "Low")),
            element_text(xml, channel_part_path(channel, "High")),
        ) {
            (Ok(selected), Ok(colour), Ok(low), Ok(high)) => Ok(
                Some(described(selected, colour, low, high)),
            ),
            (Err(e), _, _, _) => Err(e),
            (_, Err(e), _, _) => Err(e),
            (_, _, Err(e), _) => Err(e),
            (_, _, _, Err(e)) => Err(e),
        },
    }
}

/// The value of two hexadecimal digits.
fn hex_pair_of(high: u8, low: u8) -> (value: Option<u8>)
    ensures
        value == hex_pair(high, low),
{
    match (crate::writer::hex_digit(high), crate::writer::hex_digit(low)) {
        (Some(sixteens), Some(ones)) => Some(16 * sixteens + ones),
        _ => None,
    }
}

/// The colour that a text stands for.
pub fn read_colour(text: &[u8]) -> (colour: Option<(u8, u8, u8)>)
    ensures
        colour == colour_of(text@),
{
    if !((text.len() == 7 || text.len() == 9) && text[0] == 35) {
        return None;
    }
    let from: usize = text.len() - 6;
    match (
        hex_pair_of(text[from], text[from + 1]),
        hex_pair_of(text[from + 2], text[from + 3]),
        hex_pair_of(text[from + 4], text[from + 5]),
    ) {
        (Some(red), Some(green), Some(blue)) => Some((red, green, blue)),
        _ => None,
    }
}

/// What an element in the element of a channel holds.
fn channel_part(xml: &[u8], mark: &str, part: &str, Ghost(channel): Ghost<u32>) -> (found: Result<
    Option<Vec<u8>>,
    LibCZIApiError,
>)
    requires
        mark.spec_bytes() == channel_mark(channel),
    ensures
        match found {
            Ok(Some(content)) => element_text(xml@, channel_part_path(channel, part)) == Ok::<
                Option<Seq<u8>>,
                LibCZIApiError,
            >(Some(content@)),
            Ok(None) => element_text(xml@, channel_part_path(channel, part)) == Ok::<
                Option<Seq<u8>>,
                LibCZIApiError,
            >(None),
            Err(e) => element_text(xml@, channel_part_path(channel, part)) == Err::<
                Option<Seq<u8>>,
                LibCZIApiError,
            >(e),
        },
{
    let path: [Step; 6] = [
        Step::to("ImageDocument"),
        Step::to("Metadata"),
        Step::to("DisplaySetting"),
        Step::to("Channels"),
        Step::to_marked("Channel", "Id", mark),
        Step::to(part),
    ];
    assert(path_steps(path@) =~= channel_part_path(channel, part));
    find_element_text(xml, path.as_slice())
}

/// What the document says of how the channel with the given number is
/// shown; see `channel_description_spec`.
pub fn channel_description(xml: &[u8], channel: u32) -> (description: Result<
    Option<ChannelDescription>,
    LibCZIApiError,
>)
    ensures
        match description {
            Ok(Some(found)) => channel_description_spec(xml@, channel) == Ok::<
                Option<ChannelDescriptionView>,
                LibCZIApiError,
            >(Some(found@)),
            Ok(None) => channel_description_spec(xml@, channel) == Ok::<
                Option<ChannelDescriptionView>,
                LibCZIApiError,
            >(None),
            Err(e) => channel_description_spec(xml@, channel) == Err::<
                Option<ChannelDescriptionView>,
                LibCZIApiError,
            >(e),
        },
{
    let mut mark = String::new();
    mark.append("Channel:");
    append_decimal(&mut mark, channel as u64);
    assert(mark@ =~= "Channel:"@ + decimal_chars(channel as nat));
    let path: [Step; 5] = [
        Step::to("ImageDocument"),
        Step::to("Metadata"),
        Step::to("DisplaySetting"),
        Step::to("Channels"),
        Step::to_marked("Channel", "Id", mark.as_str()),
    ];
    assert(path_steps(path@) =~= channel_path(channel));
    match find_element_text(xml, path.as_slice()) {
        Err(e) => {
            return Err(e);
        },
        Ok(None) => {
            return Ok(None);
        },
        Ok(Some(_)) => {},
    }
    let selected = match channel_part(xml, mark.as_str(), "IsSelected", Ghost(channel)) {
        Ok(found) => found,
        Err(e) => {
            return Err(e);
        },
    };
    let colour = match channel_part(xml, mark.as_str(), "Color", Ghost(channel)) {
        Ok(found) => found,
        Err(e) => {
            return Err(e);
        },
    };
    let low = match channel_part(xml, mark.as_str(), "Low", Ghost(channel)) {
        Ok(found) => found,
        Err(e) => {
            return Err(e);
        },
    };
    let high = match channel_part(xml, mark.as_str(), "High", Ghost(channel)) {
        Ok(found) => found,
        Err(e) => {
            return Err(e);
        },
    };
    let is_enabled: bool = match &selected {
        Some(text) => !same_text(text.as_slice(), "false".as_bytes()),
        None => true,
    };
    let tinting = match &colour {
        Some(text) => read_colour(text.as_slice()),
        None => None,
    };
    Ok(Some(ChannelDescription { is_enabled, tinting, low, high }))
}

/// Whether two texts are the same.
fn same_text(first: &[u8], second: &[u8]) -> (same: bool)
    ensures
        same == (first@ == second@),
{
    if first.len() != second.len() {
        return false;
    }
    let same = crate::wire::has_bytes_at(first, 0, second);
    assert(first@.subrange(0, first@.len() as int) =~= first@);
    same
}

/// The largest number that a channel can have.
pub const MAX_CHANNEL: u32 = 0x7fff_ffff;

/// The views of descriptions.
pub open spec fn description_views(channels: Seq<ChannelDescription>) -> Seq<
    ChannelDescriptionView,
> {
    Seq::new(channels.len(), |i: int| channels[i]@)
}

/// What the document says of how its channels are shown, of the channels
/// with numbers below `upto`: the descriptions of the channels with the
/// numbers from 0 on, up to the first number of which the document says
/// nothing. The error of the first channel whose description cannot be
/// read.
pub open spec fn described_channels(xml: Seq<u8>, upto: nat) -> Result<
    Seq<ChannelDescriptionView>,
    LibCZIApiError,
>
    decreases upto,
{
    if upto == 0 {
        Ok(Seq::empty())
    } else {
        match described_channels(xml, (upto - 1) as nat) {
            Err(e) => Err(e),
            Ok(before) => if before.len() < upto - 1 {
                Ok(before)
            } else {
                match channel_description_spec(xml, (upto - 1) as u32) {
                    Err(e) => Err(e),
                    Ok(None) => Ok(before),
                    Ok(Some(description)) => Ok(before.push(description)),
                }
            },
        }
    }
}

/// Once the descriptions have come to an end or to an error, larger
/// numbers add nothing.
pub proof fn lemma_described_channels_end(xml: Seq<u8>, upto: nat, more: nat)
    requires
        upto <= more,
        match described_channels(xml, upto) {
            Ok(found) => found.len() < upto,
            Err(_) => true,
        },
    ensures
        described_channels(xml, more) == described_channels(xml, upto),
    decreases more - upto,
{
    if upto < more {
        lemma_described_channels_end(xml, upto, (more - 1) as nat);
    }
}

/// What the document says of how its channels are shown: of the channels
/// with the numbers from 0 on, up to the first number of which it says
/// nothing; see `described_channels`.
pub fn channel_descriptions(xml: &[u8]) -> (channels: Result<
    Vec<ChannelDescription>,
    LibCZIApiError,
>)
    ensures
        match channels {
            Ok(found) => described_channels(xml@, MAX_CHANNEL as nat) == Ok::<
                Seq<ChannelDescriptionView>,
                LibCZIApiError,
            >(description_views(found@)),
            Err(e) => described_channels(xml@, MAX_CHANNEL as nat) == Err::<
                Seq<ChannelDescriptionView>,
                LibCZIApiError,
            >(e),
        },
{
    let mut found: Vec<ChannelDescription> = Vec::new();
    let mut number: u32 = 0;
    assert(description_views(found@) =~= Seq::<ChannelDescriptionView>::empty());
    while number < MAX_CHANNEL
        invariant
            number <= MAX_CHANNEL,
            found@.len() == number,
            described_channels(xml@, number as nat) == Ok::<
                Seq<ChannelDescriptionView>,
                LibCZIApiError,
            >(description_views(found@)),
        decreases MAX_CHANNEL - number,
    {
        let ghost before = description_views(found@);
        match channel_description(xml, number) {
            Err(e) => {
                proof {
                    lemma_described_channels_end(xml@, (number + 1) as nat, MAX_CHANNEL as nat);
                }
                return Err(e);
            },
            Ok(None) => {
                proof {
                    lemma_described_channels_end(xml@, (number + 1) as nat, MAX_CHANNEL as nat);
                }
                return Ok(found);
            },
            Ok(Some(description)) => {
                let ghost view = description@;
                found.push(description);
                assert(description_views(found@) =~= before.push(view));
            },
        }
        number = number + 1;
    }
    Ok(found)
}

/// The bits of the float 1.
pub const ONE: u32 = 0x3f80_0000;

/// How a channel is shown that the document describes, with the black
/// point and the white point that were read from the texts of the
/// description: with the weight 1, tinted if the description has a
/// colour, with the black point 0 and the white point 1 where none was
/// read.
pub open spec fn shown_as(
    number: int,
    description: ChannelDescriptionView,
    points: (Option<u32>, Option<u32>),
) -> ChannelDisplaySettings {
    ChannelDisplaySettings {
        channel_id: number as i32,
        is_enabled: description.is_enabled,
        weight: ONE,
        enable_tinting: description.tinting is Some,
        tinting_color_r: match description.tinting {
            Some(colour) => colour.0,
            None => 0u8,
        },
        tinting_color_g: match description.tinting {
            Some(colour) => colour.1,
            None => 0u8,
        },
        tinting_color_b: match description.tinting {
            Some(colour) => colour.2,
            None => 0u8,
        },
        black_point: match points.0 {
            Some(bits) => bits,
            None => 0u32,
        },
        white_point: match points.1 {
            Some(bits) => bits,
            None => ONE,
        },
    }
}

/// How the channels are shown that are described as `channels` says, with
/// the given black points and white points. `InvalidArgument` where there
/// are not as many pairs of points as channels, or more channels than can
/// be numbered.
pub open spec fn settings_of(
    channels: Seq<ChannelDescriptionView>,
    points: Seq<(Option<u32>, Option<u32>)>,
) -> Result<Seq<ChannelDisplaySettings>, LibCZIApiError> {
    if channels.len() != points.len() || channels.len() > MAX_CHANNEL {
        Err(LibCZIApiError::InvalidArgument)
    } else {
        Ok(Seq::new(channels.len(), |i: int| shown_as(i, channels[i], points[i])))
    }
}

/// How the channels of a document are shown, with the given black points
/// and white points: the error of the descriptions, where they have one,
/// and else what `settings_of` makes of them.
pub open spec fn display_settings_spec(xml: Seq<u8>, points: Seq<(Option<u32>, Option<u32>)>) -> Result<
    Seq<ChannelDisplaySettings>,
    LibCZIApiError,
> {
    match described_channels(xml, MAX_CHANNEL as nat) {
        Err(e) => Err(e),
        Ok(channels) => settings_of(channels, points),
    }
}

impl DisplaySettings {
    /// How the channels are shown that a document describes. The black
    /// points and the white points are handed over as the bits of the
    /// floats that the texts of the descriptions stand for, `None` where a
    /// text stands for none. Fails with `InvalidArgument` if and only if
    /// there are not as many pairs of points as descriptions, or more than
    /// a channel can be numbered with.
    pub fn from_descriptions(
        descriptions: &Vec<ChannelDescription>,
        points: &Vec<(Option<u32>, Option<u32>)>,
    ) -> (settings: Result<DisplaySettings, LibCZIApiError>)
        ensures
            match settings {
                Ok(made) => settings_of(description_views(descriptions@), points@) == Ok::<
                    Seq<ChannelDisplaySettings>,
                    LibCZIApiError,
                >(made.channels@),
                Err(e) => settings_of(description_views(descriptions@), points@) == Err::<
                    Seq<ChannelDisplaySettings>,
                    LibCZIApiError,
                >(e),
            },
    {
        if descriptions.len() != points.len() || descriptions.len() > MAX_CHANNEL as usize {
            return Err(LibCZIApiError::InvalidArgument);
        }
        let mut channels: Vec<ChannelDisplaySettings> = Vec::new();
        let mut place: usize = 0;
        while place < descriptions.len()
            invariant
                place <= descriptions@.len(),
                descriptions@.len() == points@.len(),
                descriptions@.len() <= MAX_CHANNEL,
                channels@.len() == place,
                forall|i: int|
                    0 <= i < place ==> #[trigger] channels@[i] == shown_as(
                        i,
                        descriptions@[i]@,
                        points@[i],
                    ),
            decreases descriptions@.len() - place,
        {
            let description = &descriptions[place];
            let (red, green, blue): (u8, u8, u8) = match description.tinting {
                Some(colour) => colour,
                None => (0, 0, 0),
            };
            let channel = ChannelDisplaySettings {
                channel_id: place as i32,
                is_enabled: description.is_enabled,
                weight: ONE,
                enable_tinting: description.tinting.is_some(),
                tinting_color_r: red,
                tinting_color_g: green,
                tinting_color_b: blue,
                black_point: match points[place].0 {
                    Some(bits) => bits,
                    None => 0,
                },
                white_point: match points[place].1 {
                    Some(bits) => bits,
                    None => ONE,
                },
            };
            assert(channel == shown_as(place as int, descriptions@[place as int]@, points@[place as int]));
            channels.push(channel);
            place = place + 1;
        }
        assert(channels@ =~= Seq::new(
            descriptions@.len(),
            |i: int| shown_as(i, description_views(descriptions@)[i], points@[i]),
        ));
        Ok(DisplaySettings { channels })
    }
}

} // verus!
