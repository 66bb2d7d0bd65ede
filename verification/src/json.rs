//! Options as JSON texts: one object whose members are truth values, whole
//! numbers or plain texts.
//!
//! The texts that are read here are of the form
//! `{"key": true, "other": 12, "third": "text"}`. Spaces, tabs and line
//! breaks may stand between the parts. A text in quotes holds no quote, no
//! backslash and no control character. A number is a row of digits, with a
//! minus sign before it where it is below zero, and is a 64-bit number.

use crate::error::LibCZIApiError;
use vstd::prelude::*;
use vstd::slice::{slice_subrange, slice_to_vec};

verus! {

/// The value of a member.
pub enum JsonValueView {
    Bool(bool),
    Number(int),
    Text(Seq<u8>),
}

/// A member of an object: its key and its value.
pub struct JsonMemberView {
    pub key: Seq<u8>,
    pub value: JsonValueView,
}

/// The value of a member.
#[derive(Debug)]
pub enum JsonValue {
    Bool(bool),
    Number(i64),
    Text(Vec<u8>),
}

/// A member of an object: its key and its value.
#[derive(Debug)]
pub struct JsonMember {
    pub key: Vec<u8>,
    pub value: JsonValue,
}

impl View for JsonValue {
    type V = JsonValueView;

    open spec fn view(&self) -> JsonValueView {
        match self {
            JsonValue::Bool(b) => JsonValueView::Bool(*b),
            JsonValue::Number(n) => JsonValueView::Number(*n as int),
            JsonValue::Text(t) => JsonValueView::Text(t@),
        }
    }
}

impl View for JsonMember {
    type V = JsonMemberView;

    open spec fn view(&self) -> JsonMemberView {
        JsonMemberView { key: self.key@, value: self.value@ }
    }
}

/// The views of the members.
pub open spec fn member_views(members: Seq<JsonMember>) -> Seq<JsonMemberView> {
    Seq::new(members.len(), |i: int| members[i]@)
}

/// Whether a byte is a space, a tab or a line break.
pub open spec fn is_space(byte: u8) -> bool {
    byte == 32 || byte == 9 || byte == 10 || byte == 13
}

/// Whether a byte may stand in a text in quotes.
pub open spec fn is_plain(byte: u8) -> bool {
    byte >= 32 && byte != 34 && byte != 92
}

/// Whether a byte is a digit.
pub open spec fn is_digit(byte: u8) -> bool {
    48 <= byte <= 57
}

/// The first place at or behind `pos` that holds no space.
pub open spec fn skip_spaces(text: Seq<u8>, pos: int) -> int
    decreases text.len() - pos,
{
    if 0 <= pos < text.len() && is_space(text[pos]) {
        skip_spaces(text, pos + 1)
    } else {
        pos
    }
}

/// The first place at or behind `pos` that holds no byte of a text in
/// quotes.
pub open spec fn plain_end(text: Seq<u8>, pos: int) -> int
    decreases text.len() - pos,
{
    if 0 <= pos < text.len() && is_plain(text[pos]) {
        plain_end(text, pos + 1)
    } else {
        pos
    }
}

/// The first place at or behind `pos` that holds no digit.
pub open spec fn digits_end(text: Seq<u8>, pos: int) -> int
    decreases text.len() - pos,
{
    if 0 <= pos < text.len() && is_digit(text[pos]) {
        digits_end(text, pos + 1)
    } else {
        pos
    }
}

/// The number that the digits from `from` up to `to` stand for.
pub open spec fn digits_value(text: Seq<u8>, from: int, to: int) -> int
    decreases to - from,
{
    if to <= from {
        0
    } else {
        digits_value(text, from, to - 1) * 10 + (text[to - 1] - 48)
    }
}

/// The text in quotes that starts at `pos`, and the place behind it.
pub open spec fn text_at(text: Seq<u8>, pos: int) -> Option<(Seq<u8>, int)> {
    if 0 <= pos < text.len() && text[pos] == 34 && plain_end(text, pos + 1) < text.len()
        && text[plain_end(text, pos + 1)] == 34 {
        Some((text.subrange(pos + 1, plain_end(text, pos + 1)), plain_end(text, pos + 1) + 1))
    } else {
        None
    }
}

/// The number that starts at `pos`, and the place behind it.
pub open spec fn number_at(text: Seq<u8>, pos: int) -> Option<(int, int)> {
    if 0 <= pos < text.len() {
        let start = if text[pos] == 45 {
            pos + 1
        } else {
            pos
        };
        let end = digits_end(text, start);
        let value = if text[pos] == 45 {
            -digits_value(text, start, end)
        } else {
            digits_value(text, start, end)
        };
        if end > start && i64::MIN <= value <= i64::MAX {
            Some((value, end))
        } else {
            None
        }
    } else {
        None
    }
}

/// The bytes of the word `true`.
pub open spec fn word_true() -> Seq<u8> {
    seq![116u8, 114u8, 117u8, 101u8]
}

/// The bytes of the word `false`.
pub open spec fn word_false() -> Seq<u8> {
    seq![102u8, 97u8, 108u8, 115u8, 101u8]
}

/// The value that starts at `pos`, and the place behind it.
pub open spec fn value_at(text: Seq<u8>, pos: int) -> Option<(JsonValueView, int)> {
    if !(0 <= pos < text.len()) {
        None
    } else if text[pos] == 34 {
        match text_at(text, pos) {
            Some((found, end)) => Some((JsonValueView::Text(found), end)),
            None => None,
        }
    } else if text[pos] == 116 {
        if pos + 4 <= text.len() && text.subrange(pos, pos + 4) == word_true() {
            Some((JsonValueView::Bool(true), pos + 4))
        } else {
            None
        }
    } else if text[pos] == 102 {
        if pos + 5 <= text.len() && text.subrange(pos, pos + 5) == word_false() {
            Some((JsonValueView::Bool(false), pos + 5))
        } else {
            None
        }
    } else {
        match number_at(text, pos) {
            Some((found, end)) => Some((JsonValueView::Number(found), end)),
            None => None,
        }
    }
}

/// The member that starts at `pos`, and the place behind it.
pub open spec fn member_at(text: Seq<u8>, pos: int) -> Option<(JsonMemberView, int)> {
    match text_at(text, pos) {
        None => None,
        Some((key, behind_key)) => {
            let colon = skip_spaces(text, behind_key);
            if colon < text.len() && text[colon] == 58 {
                match value_at(text, skip_spaces(text, colon + 1)) {
                    None => None,
                    Some((value, end)) => Some((JsonMemberView { key, value }, end)),
                }
            } else {
                None
            }
        },
    }
}

/// The members from `pos` up to the closing brace, and the place behind
/// the brace.
pub open spec fn members_at(text: Seq<u8>, pos: int) -> Option<(Seq<JsonMemberView>, int)>
    decreases text.len() - pos,
{
    match member_at(text, pos) {
        None => None,
        Some((member, end)) => {
            let next = skip_spaces(text, end);
            if 0 <= next < text.len() && text[next] == 44 && pos < skip_spaces(text, next + 1)
                <= text.len() {
                match members_at(text, skip_spaces(text, next + 1)) {
                    None => None,
                    Some((rest, behind)) => Some((seq![member] + rest, behind)),
                }
            } else if 0 <= next < text.len() && text[next] == 125 {
                Some((seq![member], next + 1))
            } else {
                None
            }
        },
    }
}

/// The members of the object that a text holds, or `None` where the text
/// is no object of the form that is read here.
pub open spec fn object_of(text: Seq<u8>) -> Option<Seq<JsonMemberView>> {
    let open = skip_spaces(text, 0);
    if open < text.len() && text[open] == 123 {
        let first = skip_spaces(text, open + 1);
        if first < text.len() && text[first] == 125 {
            if skip_spaces(text, first + 1) == text.len() {
                Some(Seq::empty())
            } else {
                None
            }
        } else {
            match members_at(text, first) {
                Some((members, end)) => if skip_spaces(text, end) == text.len() {
                    Some(members)
                } else {
                    None
                },
                None => None,
            }
        }
    } else {
        None
    }
}

/// The value of the first of the first `count` members with the given key.
pub open spec fn value_of(members: Seq<JsonMemberView>, key: Seq<u8>, count: nat) -> Option<
    JsonValueView,
>
    decreases count,
{
    if count == 0 {
        None
    } else {
        match value_of(members, key, (count - 1) as nat) {
            Some(found) => Some(found),
            None => if members[count - 1].key == key {
                Some(members[count - 1].value)
            } else {
                None
            },
        }
    }
}

/// The places that the three scans give lie between `pos` and the end of
/// the text.
pub proof fn lemma_scan_bounds(text: Seq<u8>, pos: int)
    requires
        0 <= pos <= text.len(),
    ensures
        pos <= skip_spaces(text, pos) <= text.len(),
        pos <= plain_end(text, pos) <= text.len(),
        pos <= digits_end(text, pos) <= text.len(),
    decreases text.len() - pos,
{
    if pos < text.len() {
        lemma_scan_bounds(text, pos + 1);
    }
}

/// The first place at or behind `pos` that holds no space.
fn after_spaces(text: &[u8], pos: usize) -> (next: usize)
    requires
        pos <= text@.len(),
    ensures
        next == skip_spaces(text@, pos as int),
        pos <= next <= text@.len(),
{
    let mut next: usize = pos;
    while next < text.len() && (text[next] == 32 || text[next] == 9 || text[next] == 10
        || text[next] == 13)
        invariant
            pos <= next <= text@.len(),
            skip_spaces(text@, pos as int) == skip_spaces(text@, next as int),
        decreases text@.len() - next,
    {
        next = next + 1;
    }
    next
}

/// The text in quotes that starts at `pos`, and the place behind it.
fn read_text(text: &[u8], pos: usize) -> (found: Option<(Vec<u8>, usize)>)
    requires
        pos <= text@.len(),
    ensures
        match found {
            Some((bytes, end)) => text_at(text@, pos as int) == Some((bytes@, end as int)) && pos
                < end <= text@.len(),
            None => text_at(text@, pos as int) is None,
        },
{
    if pos >= text.len() || text[pos] != 34 {
        return None;
    }
    let mut end: usize = pos + 1;
    while end < text.len() && text[end] >= 32 && text[end] != 34 && text[end] != 92
        invariant
            pos < end <= text@.len(),
            plain_end(text@, pos + 1) == plain_end(text@, end as int),
        decreases text@.len() - end,
    {
        end = end + 1;
    }
    if end >= text.len() || text[end] != 34 {
        return None;
    }
    Some((slice_to_vec(slice_subrange(text, pos + 1, end)), end + 1))
}

/// The number that starts at `pos`, and the place behind it.
fn read_number(text: &[u8], pos: usize) -> (found: Option<(i64, usize)>)
    requires
        pos <= text@.len(),
    ensures
        match found {
            Some((value, end)) => number_at(text@, pos as int) == Some((value as int, end as int))
                && pos < end <= text@.len(),
            None => number_at(text@, pos as int) is None,
        },
{
    if pos >= text.len() {
        return None;
    }
    let negative: bool = text[pos] == 45;
    let start: usize = if negative {
        pos + 1
    } else {
        pos
    };
    let limit: u128 = 0x8000_0000_0000_0000;
    let mut value: u128 = 0;
    let mut over: bool = false;
    let mut end: usize = start;
    while end < text.len() && text[end] >= 48 && text[end] <= 57
        invariant
            start <= end <= text@.len(),
            limit == 0x8000_0000_0000_0000,
            digits_end(text@, start as int) == digits_end(text@, end as int),
            !over ==> value == digits_value(text@, start as int, end as int) && value <= limit,
            over ==> digits_value(text@, start as int, end as int) > limit,
            digits_value(text@, start as int, end as int) >= 0,
        decreases text@.len() - end,
    {
        let digit: u128 = (text[end] - 48) as u128;
        proof {
            let before = digits_value(text@, start as int, end as int);
            assert(digits_value(text@, start as int, end + 1) == before * 10 + digit);
            if over {
                assert(before * 10 + digit > limit) by (nonlinear_arith)
                    requires
                        before > limit,
                        digit >= 0,
                        limit >= 0,
                ;
            }
        }
        if !over {
            value = value * 10 + digit;
            if value > limit {
                over = true;
            }
        }
        end = end + 1;
    }
    if end == start || over {
        return None;
    }
    if negative {
        if value == limit {
            Some((i64::MIN, end))
        } else {
            Some((-(value as i64), end))
        }
    } else if value == limit {
        None
    } else {
        Some((value as i64, end))
    }
}

/// Whether the bytes from `pos` on start with the given word.
fn starts_with(text: &[u8], pos: usize, word: &[u8]) -> (same: bool)
    requires
        pos <= text@.len(),
    ensures
        same == (pos + word@.len() <= text@.len() && text@.subrange(
            pos as int,
            pos + word@.len(),
        ) == word@),
{
    let size: usize = text.len();
    if word.len() > size - pos {
        return false;
    }
    crate::wire::has_bytes_at(text, pos, word)
}

/// The value that starts at `pos`, and the place behind it.
fn read_value(text: &[u8], pos: usize) -> (found: Option<(JsonValue, usize)>)
    requires
        pos <= text@.len(),
    ensures
        match found {
            Some((value, end)) => value_at(text@, pos as int) == Some((value@, end as int)) && pos
                < end <= text@.len(),
            None => value_at(text@, pos as int) is None,
        },
{
    if pos >= text.len() {
        return None;
    }
    let first: u8 = text[pos];
    if first == 34 {
        match read_text(text, pos) {
            Some((bytes, end)) => Some((JsonValue::Text(bytes), end)),
            None => None,
        }
    } else if first == 116 {
        let word: [u8; 4] = [116, 114, 117, 101];
        assert(word@ =~= word_true());
        if starts_with(text, pos, word.as_slice()) {
            Some((JsonValue::Bool(true), pos + 4))
        } else {
            None
        }
    } else if first == 102 {
        let word: [u8; 5] = [102, 97, 108, 115, 101];
        assert(word@ =~= word_false());
        if starts_with(text, pos, word.as_slice()) {
            Some((JsonValue::Bool(false), pos + 5))
        } else {
            None
        }
    } else {
        match read_number(text, pos) {
            Some((value, end)) => Some((JsonValue::Number(value), end)),
            None => None,
        }
    }
}

/// The member that starts at `pos`, and the place behind it.
fn read_member(text: &[u8], pos: usize) -> (found: Option<(JsonMember, usize)>)
    requires
        pos <= text@.len(),
    ensures
        match found {
            Some((member, end)) => member_at(text@, pos as int) == Some((member@, end as int))
                && pos < end <= text@.len(),
            None => member_at(text@, pos as int) is None,
        },
{
    let (key, behind_key) = match read_text(text, pos) {
        Some(found) => found,
        None => {
            return None;
        },
    };
    let colon: usize = after_spaces(text, behind_key);
    if colon >= text.len() || text[colon] != 58 {
        return None;
    }
    let start: usize = after_spaces(text, colon + 1);
    match read_value(text, start) {
        Some((value, end)) => Some((JsonMember { key, value }, end)),
        None => None,
    }
}

/// What reading the members from `pos` on gives, where the members read so
/// far are put before them.
spec fn continued(text: Seq<u8>, pos: int, so_far: Seq<JsonMemberView>) -> Option<
    (Seq<JsonMemberView>, int),
> {
    match members_at(text, pos) {
        None => None,
        Some((rest, behind)) => Some((so_far + rest, behind)),
    }
}

/// The members from `pos` up to the closing brace, and the place behind
/// the brace.
fn read_members(text: &[u8], pos: usize) -> (found: Option<(Vec<JsonMember>, usize)>)
    requires
        pos <= text@.len(),
    ensures
        match found {
            Some((members, end)) => members_at(text@, pos as int) == Some(
                (member_views(members@), end as int),
            ) && end <= text@.len(),
            None => members_at(text@, pos as int) is None,
        },
{
    let mut members: Vec<JsonMember> = Vec::new();
    let mut at: usize = pos;
    assert(member_views(members@) =~= Seq::<JsonMemberView>::empty());
    assert(continued(text@, pos as int, Seq::<JsonMemberView>::empty()) == members_at(
        text@,
        pos as int,
    )) by {
        match members_at(text@, pos as int) {
            None => {},
            Some((rest, behind)) => {
                assert(Seq::<JsonMemberView>::empty() + rest =~= rest);
            },
        }
    }
    loop
        invariant
            pos <= at <= text@.len(),
            members_at(text@, pos as int) == continued(text@, at as int, member_views(members@)),
        decreases text@.len() - at,
    {
        let ghost so_far = member_views(members@);
        let (member, end) = match read_member(text, at) {
            Some(found) => found,
            None => {
                return None;
            },
        };
        let ghost view = member@;
        let next: usize = after_spaces(text, end);
        members.push(member);
        assert(member_views(members@) =~= so_far.push(view));
        if next < text.len() && text[next] == 44 {
            let following: usize = after_spaces(text, next + 1);
            proof {
                match members_at(text@, following as int) {
                    None => {},
                    Some((rest, behind)) => {
                        assert(so_far + (seq![view] + rest) =~= so_far.push(view) + rest);
                    },
                }
            }
            at = following;
        } else if next < text.len() && text[next] == 125 {
            proof {
                assert(so_far + seq![view] =~= so_far.push(view));
            }
            return Some((members, next + 1));
        } else {
            return None;
        }
    }
}

/// The members of the object that a text holds. Fails with
/// `InvalidArgument` if and only if the text is no object of the form that
/// is read here.
pub fn read_object(text: &[u8]) -> (members: Result<Vec<JsonMember>, LibCZIApiError>)
    ensures
        match members {
            Ok(found) => object_of(text@) == Some(member_views(found@)),
            Err(e) => e == LibCZIApiError::InvalidArgument && object_of(text@) is None,
        },
{
    let open: usize = after_spaces(text, 0);
    if open >= text.len() || text[open] != 123 {
        return Err(LibCZIApiError::InvalidArgument);
    }
    let first: usize = after_spaces(text, open + 1);
    if first < text.len() && text[first] == 125 {
        if after_spaces(text, first + 1) == text.len() {
            let members: Vec<JsonMember> = Vec::new();
            assert(member_views(members@) =~= Seq::<JsonMemberView>::empty());
            return Ok(members);
        }
        return Err(LibCZIApiError::InvalidArgument);
    }
    match read_members(text, first) {
        Some((members, end)) => if after_spaces(text, end) == text.len() {
            Ok(members)
        } else {
            Err(LibCZIApiError::InvalidArgument)
        },
        None => Err(LibCZIApiError::InvalidArgument),
    }
}

/// Whether two rows of bytes are the same.
fn same_bytes(first: &[u8], second: &[u8]) -> (same: bool)
    ensures
        same == (first@ == second@),
{
    if first.len() != second.len() {
        return false;
    }
    let same = crate::wire::has_bytes_at(first, 0, second);
    assert(first@.subrange(0, second@.len() as int) =~= first@);
    same
}

/// The place of the first member with the given key.
pub fn find_member(members: &Vec<JsonMember>, key: &[u8]) -> (place: Option<usize>)
    ensures
        match place {
            Some(found) => found < members@.len() && value_of(
                member_views(members@),
                key@,
                members@.len(),
            ) == Some(members@[found as int].value@),
            None => value_of(member_views(members@), key@, members@.len()) is None,
        },
{
    let ghost views = member_views(members@);
    let mut place: usize = 0;
    while place < members.len()
        invariant
            place <= members@.len(),
            views == member_views(members@),
            value_of(views, key@, place as nat) is None,
        decreases members@.len() - place,
    {
        assert(views[place as int] == members@[place as int]@);
        if same_bytes(members[place].key.as_slice(), key) {
            proof {
                lemma_value_found(views, key@, (place + 1) as nat, members@.len());
            }
            return Some(place);
        }
        place = place + 1;
    }
    None
}

/// A value that is found among the first members is the value that is found
/// among more of them.
proof fn lemma_value_found(members: Seq<JsonMemberView>, key: Seq<u8>, count: nat, more: nat)
    requires
        count <= more,
        value_of(members, key, count) is Some,
    ensures
        value_of(members, key, more) == value_of(members, key, count),
    decreases more - count,
{
    if count < more {
        lemma_value_found(members, key, count, (more - 1) as nat);
    }
}

} // verus!
