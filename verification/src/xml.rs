//! A reader of XML texts: it finds an element by the names of the elements
//! on the way to it, and gives the text that the element holds.
//!
//! A text is read as a row of pieces: tags that open or close an element,
//! tags of elements that are empty, runs of text, literal sections, and
//! what is passed over (comments, instructions and declarations). The
//! reader counts how deep it is in the elements; it does not hold the name
//! of a closing tag against the name of the tag that it closes.

use crate::error::LibCZIApiError;
use vstd::prelude::*;
use vstd::string::StringSliceAdditionalSpecFns;

verus! {

/// The kinds of pieces that an XML text is made of.
#[derive(Clone, Copy, Debug)]
pub enum PieceKind {
    /// A tag that opens an element.
    Open,
    /// A tag that closes an element.
    Close,
    /// The tag of an element that holds nothing.
    Empty,
    /// Text between tags, in which references stand for characters.
    Text,
    /// A literal section, which is taken as it stands.
    Literal,
    /// What is passed over: a comment, an instruction or a declaration.
    Other,
}

/// A piece of an XML text: its kind, where its name or its text stands,
/// and where the piece behind it starts.
pub struct PieceView {
    pub kind: PieceKind,
    pub start: int,
    pub end: int,
    pub next: int,
}

/// A piece of an XML text.
#[derive(Clone, Copy, Debug)]
pub struct Piece {
    pub kind: PieceKind,
    pub start: usize,
    pub end: usize,
    pub next: usize,
}

impl View for Piece {
    type V = PieceView;

    open spec fn view(&self) -> PieceView {
        PieceView {
            kind: self.kind,
            start: self.start as int,
            end: self.end as int,
            next: self.next as int,
        }
    }
}

/// Whether the byte is a space, a tab or the end of a line.
pub open spec fn is_blank(byte: u8) -> bool {
    byte == 32 || byte == 9 || byte == 10 || byte == 13
}

/// Whether the byte can stand in the name of an element.
pub open spec fn is_name_byte(byte: u8) -> bool {
    !is_blank(byte) && byte != 47 && byte != 60 && byte != 61 && byte != 62 && byte != 34 && byte
        != 39
}

/// The bytes `<?`, with which an instruction starts.
pub open spec fn instruction_start() -> Seq<u8> {
    seq![60u8, 63u8]
}

/// The bytes `?>`, with which an instruction ends.
pub open spec fn instruction_end() -> Seq<u8> {
    seq![63u8, 62u8]
}

/// The bytes `<!--`, with which a comment starts.
pub open spec fn comment_start() -> Seq<u8> {
    seq![60u8, 33u8, 45u8, 45u8]
}

/// The bytes `-->`, with which a comment ends.
pub open spec fn comment_end() -> Seq<u8> {
    seq![45u8, 45u8, 62u8]
}

/// The bytes `<![CDATA[`, with which a literal section starts.
pub open spec fn literal_start() -> Seq<u8> {
    seq![60u8, 33u8, 91u8, 67u8, 68u8, 65u8, 84u8, 65u8, 91u8]
}

/// The bytes `]]>`, with which a literal section ends.
pub open spec fn literal_end() -> Seq<u8> {
    seq![93u8, 93u8, 62u8]
}

/// The bytes `<!`, with which a declaration starts.
pub open spec fn declaration_start() -> Seq<u8> {
    seq![60u8, 33u8]
}

/// The byte `>`, with which a tag ends.
pub open spec fn tag_close() -> Seq<u8> {
    seq![62u8]
}

/// The bytes `</`, with which a closing tag starts.
pub open spec fn closing_start() -> Seq<u8> {
    seq![60u8, 47u8]
}

/// Whether the bytes of `word` stand at `pos`.
pub open spec fn stands_at(text: Seq<u8>, pos: int, word: Seq<u8>) -> bool {
    0 <= pos && pos + word.len() <= text.len() && text.subrange(pos, pos + word.len()) == word
}

/// The first place at or behind `pos` at which `word` stands.
pub open spec fn find(text: Seq<u8>, pos: int, word: Seq<u8>) -> Option<int>
    decreases text.len() - pos,
{
    if pos < 0 || pos >= text.len() || pos + word.len() > text.len() {
        None
    } else if stands_at(text, pos, word) {
        Some(pos)
    } else {
        find(text, pos + 1, word)
    }
}

/// The first place at or behind `pos` that holds no blank.
pub open spec fn blanks_end(text: Seq<u8>, pos: int) -> int
    decreases text.len() - pos,
{
    if 0 <= pos < text.len() && is_blank(text[pos]) {
        blanks_end(text, pos + 1)
    } else {
        pos
    }
}

/// The first place at or behind `pos` that holds no byte of a name.
pub open spec fn name_end(text: Seq<u8>, pos: int) -> int
    decreases text.len() - pos,
{
    if 0 <= pos < text.len() && is_name_byte(text[pos]) {
        name_end(text, pos + 1)
    } else {
        pos
    }
}

/// The first place at or behind `pos` at which a tag starts, or the end of
/// the text.
pub open spec fn text_end(text: Seq<u8>, pos: int) -> int
    decreases text.len() - pos,
{
    if 0 <= pos < text.len() && text[pos] != 60 {
        text_end(text, pos + 1)
    } else {
        pos
    }
}

/// Where the tag ends whose name ends at `pos`, and whether it is the tag
/// of an empty element: the place behind the first `>` that stands in no
/// value in quotes. `None` where there is no such place.
pub open spec fn tag_end(text: Seq<u8>, pos: int) -> Option<(int, bool)>
    decreases text.len() - pos,
{
    if pos < 0 || pos >= text.len() {
        None
    } else if text[pos] == 62 {
        Some((pos + 1, false))
    } else if text[pos] == 47 && pos + 1 < text.len() && text[pos + 1] == 62 {
        Some((pos + 2, true))
    } else if text[pos] == 34 || text[pos] == 39 {
        match find(text, pos + 1, seq![text[pos]]) {
            Some(close) => if pos < close < text.len() {
                tag_end(text, close + 1)
            } else {
                None
            },
            None => None,
        }
    } else {
        tag_end(text, pos + 1)
    }
}

/// The piece that starts at `pos`, or `None` where what stands there is no
/// piece.
pub open spec fn piece_at(text: Seq<u8>, pos: int) -> Option<PieceView> {
    if text[pos] != 60 {
        Some(
            PieceView {
                kind: PieceKind::Text,
                start: pos,
                end: text_end(text, pos),
                next: text_end(text, pos),
            },
        )
    } else if stands_at(text, pos, instruction_start()) {
        match find(text, pos + 2, instruction_end()) {
            Some(close) => Some(
                PieceView { kind: PieceKind::Other, start: pos, end: pos, next: close + 2 },
            ),
            None => None,
        }
    } else if stands_at(text, pos, comment_start()) {
        match find(text, pos + 4, comment_end()) {
            Some(close) => Some(
                PieceView { kind: PieceKind::Other, start: pos, end: pos, next: close + 3 },
            ),
            None => None,
        }
    } else if stands_at(text, pos, literal_start()) {
        match find(text, pos + 9, literal_end()) {
            Some(close) => Some(
                PieceView { kind: PieceKind::Literal, start: pos + 9, end: close, next: close + 3 },
            ),
            None => None,
        }
    } else if stands_at(text, pos, declaration_start()) {
        match find(text, pos + 2, tag_close()) {
            Some(close) => Some(
                PieceView { kind: PieceKind::Other, start: pos, end: pos, next: close + 1 },
            ),
            None => None,
        }
    } else if stands_at(text, pos, closing_start()) {
        let end = name_end(text, pos + 2);
        let close = blanks_end(text, end);
        if end > pos + 2 && close < text.len() && text[close] == 62 {
            Some(PieceView { kind: PieceKind::Close, start: pos + 2, end, next: close + 1 })
        } else {
            None
        }
    } else {
        let end = name_end(text, pos + 1);
        if end > pos + 1 {
            match tag_end(text, end) {
                Some((next, empty)) => Some(
                    PieceView {
                        kind: if empty {
                            PieceKind::Empty
                        } else {
                            PieceKind::Open
                        },
                        start: pos + 1,
                        end,
                        next,
                    },
                ),
                None => None,
            }
        } else {
            None
        }
    }
}

/// Where a word is found, it stands, at or behind the place from which it
/// was looked for.
pub proof fn lemma_find(text: Seq<u8>, pos: int, word: Seq<u8>)
    ensures
        find(text, pos, word) matches Some(place) ==> pos <= place && stands_at(text, place, word),
    decreases text.len() - pos,
{
    if !(pos < 0 || pos >= text.len() || pos + word.len() > text.len()) && !stands_at(
        text,
        pos,
        word,
    ) {
        lemma_find(text, pos + 1, word);
    }
}

/// The runs of blanks, of names and of text end at or behind the place at
/// which they start, and within the text.
pub proof fn lemma_run_ends(text: Seq<u8>, pos: int)
    requires
        0 <= pos <= text.len(),
    ensures
        pos <= blanks_end(text, pos) <= text.len(),
        pos <= name_end(text, pos) <= text.len(),
        pos <= text_end(text, pos) <= text.len(),
    decreases text.len() - pos,
{
    if pos < text.len() {
        lemma_run_ends(text, pos + 1);
    }
}

/// A tag ends behind the place from which its end was looked for.
pub proof fn lemma_tag_end(text: Seq<u8>, pos: int)
    ensures
        tag_end(text, pos) matches Some((next, empty)) ==> pos < next <= text.len(),
    decreases text.len() - pos,
{
    if 0 <= pos < text.len() {
        if text[pos] == 62 {
        } else if text[pos] == 47 && pos + 1 < text.len() && text[pos + 1] == 62 {
        } else if text[pos] == 34 || text[pos] == 39 {
            lemma_find(text, pos + 1, seq![text[pos]]);
            match find(text, pos + 1, seq![text[pos]]) {
                Some(close) => {
                    lemma_tag_end(text, close + 1);
                },
                None => {},
            }
        } else {
            lemma_tag_end(text, pos + 1);
        }
    }
}

/// A piece is not empty, and it lies within the text, with its name or its
/// text.
pub proof fn lemma_piece_bounds(text: Seq<u8>, pos: int)
    requires
        0 <= pos < text.len(),
    ensures
        piece_at(text, pos) matches Some(piece) ==> pos < piece.next <= text.len() && pos
            <= piece.start <= piece.end <= piece.next,
{
    lemma_run_ends(text, pos);
    lemma_run_ends(text, pos + 1);
    if pos + 2 <= text.len() {
        lemma_run_ends(text, pos + 2);
        lemma_run_ends(text, name_end(text, pos + 2));
    }
    lemma_find(text, pos + 2, instruction_end());
    lemma_find(text, pos + 4, comment_end());
    lemma_find(text, pos + 9, literal_end());
    lemma_find(text, pos + 2, tag_close());
    lemma_tag_end(text, name_end(text, pos + 1));
    if text[pos] != 60 {
        assert(text_end(text, pos) == text_end(text, pos + 1));
    }
}

/// Whether the bytes of `word` stand at `pos`.
fn word_stands_at(text: &[u8], pos: usize, word: &[u8]) -> (stands: bool)
    ensures
        stands == stands_at(text@, pos as int, word@),
{
    if word.len() > text.len() || pos > text.len() - word.len() {
        return false;
    }
    crate::wire::has_bytes_at(text, pos, word)
}

/// The first place at or behind `pos` at which `word` stands.
fn find_word(text: &[u8], pos: usize, word: &[u8]) -> (found: Option<usize>)
    ensures
        match found {
            Some(place) => find(text@, pos as int, word@) == Some(place as int),
            None => find(text@, pos as int, word@) is None,
        },
{
    let mut place: usize = pos;
    while place < text.len() && word.len() <= text.len() - place
        invariant
            pos <= place,
            find(text@, place as int, word@) == find(text@, pos as int, word@),
        decreases text@.len() - place,
    {
        if word_stands_at(text, place, word) {
            return Some(place);
        }
        place = place + 1;
    }
    None
}

/// The first place at or behind `pos` that holds no blank.
fn after_blanks(text: &[u8], pos: usize) -> (end: usize)
    requires
        pos <= text@.len(),
    ensures
        end == blanks_end(text@, pos as int),
        pos <= end <= text@.len(),
{
    let mut end: usize = pos;
    while end < text.len() && (text[end] == 32 || text[end] == 9 || text[end] == 10 || text[end]
        == 13)
        invariant
            pos <= end <= text@.len(),
            blanks_end(text@, end as int) == blanks_end(text@, pos as int),
        decreases text@.len() - end,
    {
        end = end + 1;
    }
    end
}

/// Whether the byte can stand in the name of an element.
fn can_stand_in_name(byte: u8) -> (can: bool)
    ensures
        can == is_name_byte(byte),
{
    !(byte == 32 || byte == 9 || byte == 10 || byte == 13) && byte != 47 && byte != 60 && byte
        != 61 && byte != 62 && byte != 34 && byte != 39
}

/// The first place at or behind `pos` that holds no byte of a name.
fn after_name(text: &[u8], pos: usize) -> (end: usize)
    requires
        pos <= text@.len(),
    ensures
        end == name_end(text@, pos as int),
        pos <= end <= text@.len(),
{
    let mut end: usize = pos;
    while end < text.len() && can_stand_in_name(text[end])
        invariant
            pos <= end <= text@.len(),
            name_end(text@, end as int) == name_end(text@, pos as int),
        decreases text@.len() - end,
    {
        end = end + 1;
    }
    end
}

/// The first place at or behind `pos` at which a tag starts, or the end of
/// the text.
fn after_text(text: &[u8], pos: usize) -> (end: usize)
    requires
        pos <= text@.len(),
    ensures
        end == text_end(text@, pos as int),
        pos <= end <= text@.len(),
{
    let mut end: usize = pos;
    while end < text.len() && text[end] != 60
        invariant
            pos <= end <= text@.len(),
            text_end(text@, end as int) == text_end(text@, pos as int),
        decreases text@.len() - end,
    {
        end = end + 1;
    }
    end
}

/// Where the tag ends whose name ends at `pos`, and whether it is the tag
/// of an empty element.
fn after_tag(text: &[u8], pos: usize) -> (found: Option<(usize, bool)>)
    requires
        pos <= text@.len(),
    ensures
        match found {
            Some((next, empty)) => tag_end(text@, pos as int) == Some((next as int, empty)),
            None => tag_end(text@, pos as int) is None,
        },
{
    let mut place: usize = pos;
    while place < text.len()
        invariant
            pos <= place <= text@.len(),
            tag_end(text@, place as int) == tag_end(text@, pos as int),
        decreases text@.len() - place,
    {
        let byte: u8 = text[place];
        if byte == 62 {
            return Some((place + 1, false));
        } else if byte == 47 && place + 1 < text.len() && text[place + 1] == 62 {
            return Some((place + 2, true));
        } else if byte == 34 || byte == 39 {
            let quote: [u8; 1] = [byte];
            assert(quote@ =~= seq![text@[place as int]]);
            proof {
                lemma_find(text@, place + 1, quote@);
            }
            match find_word(text, place + 1, quote.as_slice()) {
                Some(close) => {
                    place = close + 1;
                },
                None => {
                    return None;
                },
            }
        } else {
            place = place + 1;
        }
    }
    None
}

/// The piece that starts at `pos`.
pub fn read_piece(text: &[u8], pos: usize) -> (found: Option<Piece>)
    requires
        pos < text@.len(),
    ensures
        match found {
            Some(piece) => piece_at(text@, pos as int) == Some(piece@),
            None => piece_at(text@, pos as int) is None,
        },
        found matches Some(piece) ==> pos < piece.next <= text@.len() && pos <= piece.start
            <= piece.end <= piece.next,
{
    proof {
        lemma_piece_bounds(text@, pos as int);
    }
    let instruction_start: [u8; 2] = [60, 63];
    let instruction_end: [u8; 2] = [63, 62];
    let comment_start: [u8; 4] = [60, 33, 45, 45];
    let comment_end: [u8; 3] = [45, 45, 62];
    let literal_start: [u8; 9] = [60, 33, 91, 67, 68, 65, 84, 65, 91];
    let literal_end: [u8; 3] = [93, 93, 62];
    let declaration_start: [u8; 2] = [60, 33];
    let tag_close: [u8; 1] = [62];
    let closing_start: [u8; 2] = [60, 47];
    assert(instruction_start@ =~= crate::xml::instruction_start());
    assert(instruction_end@ =~= crate::xml::instruction_end());
    assert(comment_start@ =~= crate::xml::comment_start());
    assert(comment_end@ =~= crate::xml::comment_end());
    assert(literal_start@ =~= crate::xml::literal_start());
    assert(literal_end@ =~= crate::xml::literal_end());
    assert(declaration_start@ =~= crate::xml::declaration_start());
    assert(tag_close@ =~= crate::xml::tag_close());
    assert(closing_start@ =~= crate::xml::closing_start());
    if text[pos] != 60 {
        let end = after_text(text, pos);
        Some(Piece { kind: PieceKind::Text, start: pos, end, next: end })
    } else if word_stands_at(text, pos, instruction_start.as_slice()) {
        proof {
            lemma_find(text@, pos + 2, instruction_end@);
        }
        match find_word(text, pos + 2, instruction_end.as_slice()) {
            Some(close) => Some(
                Piece { kind: PieceKind::Other, start: pos, end: pos, next: close + 2 },
            ),
            None => None,
        }
    } else if word_stands_at(text, pos, comment_start.as_slice()) {
        proof {
            lemma_find(text@, pos + 4, comment_end@);
        }
        match find_word(text, pos + 4, comment_end.as_slice()) {
            Some(close) => Some(
                Piece { kind: PieceKind::Other, start: pos, end: pos, next: close + 3 },
            ),
            None => None,
        }
    } else if word_stands_at(text, pos, literal_start.as_slice()) {
        proof {
            lemma_find(text@, pos + 9, literal_end@);
        }
        match find_word(text, pos + 9, literal_end.as_slice()) {
            Some(close) => Some(
                Piece { kind: PieceKind::Literal, start: pos + 9, end: close, next: close + 3 },
            ),
            None => None,
        }
    } else if word_stands_at(text, pos, declaration_start.as_slice()) {
        proof {
            lemma_find(text@, pos + 2, tag_close@);
        }
        match find_word(text, pos + 2, tag_close.as_slice()) {
            Some(close) => Some(
                Piece { kind: PieceKind::Other, start: pos, end: pos, next: close + 1 },
            ),
            None => None,
        }
    } else if word_stands_at(text, pos, closing_start.as_slice()) {
        let end = after_name(text, pos + 2);
        let close = after_blanks(text, end);
        if end > pos + 2 && close < text.len() && text[close] == 62 {
            Some(Piece { kind: PieceKind::Close, start: pos + 2, end, next: close + 1 })
        } else {
            None
        }
    } else {
        let end = after_name(text, pos + 1);
        if end > pos + 1 {
            proof {
                lemma_tag_end(text@, end as int);
            }
            match after_tag(text, end) {
                Some((next, empty)) => Some(
                    Piece {
                        kind: if empty {
                            PieceKind::Empty
                        } else {
                            PieceKind::Open
                        },
                        start: pos + 1,
                        end,
                        next,
                    },
                ),
                None => None,
            }
        } else {
            None
        }
    }
}

/// The bytes `&lt;`, which stand for `<`.
pub open spec fn less_than_reference() -> Seq<u8> {
    seq![38u8, 108u8, 116u8, 59u8]
}

/// The bytes `&gt;`, which stand for `>`.
pub open spec fn greater_than_reference() -> Seq<u8> {
    seq![38u8, 103u8, 116u8, 59u8]
}

/// The bytes `&amp;`, which stand for `&`.
pub open spec fn ampersand_reference() -> Seq<u8> {
    seq![38u8, 97u8, 109u8, 112u8, 59u8]
}

/// The bytes `&quot;`, which stand for `"`.
pub open spec fn quote_reference() -> Seq<u8> {
    seq![38u8, 113u8, 117u8, 111u8, 116u8, 59u8]
}

/// The bytes `&apos;`, which stand for `'`.
pub open spec fn apostrophe_reference() -> Seq<u8> {
    seq![38u8, 97u8, 112u8, 111u8, 115u8, 59u8]
}

/// The reference that stands at `pos` and ends at `end` at the latest: the
/// byte that it stands for, and how many bytes it takes.
pub open spec fn reference_at(text: Seq<u8>, pos: int, end: int) -> Option<(u8, int)> {
    if pos + 4 <= end && stands_at(text, pos, less_than_reference()) {
        Some((60u8, 4int))
    } else if pos + 4 <= end && stands_at(text, pos, greater_than_reference()) {
        Some((62u8, 4int))
    } else if pos + 5 <= end && stands_at(text, pos, ampersand_reference()) {
        Some((38u8, 5int))
    } else if pos + 6 <= end && stands_at(text, pos, quote_reference()) {
        Some((34u8, 6int))
    } else if pos + 6 <= end && stands_at(text, pos, apostrophe_reference()) {
        Some((39u8, 6int))
    } else {
        None
    }
}

/// The bytes from `pos` to `end` with the characters in place of the
/// references that stand for them. The five references that XML names are
/// known; what else starts with `&` is left as it stands.
pub open spec fn decoded(text: Seq<u8>, pos: int, end: int) -> Seq<u8>
    decreases end - pos,
{
    if pos < 0 || pos >= end || end > text.len() {
        Seq::empty()
    } else {
        match reference_at(text, pos, end) {
            Some((byte, size)) => seq![byte] + decoded(text, pos + size, end),
            None => seq![text[pos]] + decoded(text, pos + 1, end),
        }
    }
}

/// Where a word stands, its first byte stands.
proof fn lemma_word_starts(text: Seq<u8>, pos: int, word: Seq<u8>)
    requires
        word.len() > 0,
    ensures
        stands_at(text, pos, word) ==> text[pos] == word[0],
{
    if stands_at(text, pos, word) {
        assert(text.subrange(pos, pos + word.len())[0] == word[0]);
    }
}

/// Appends the bytes from `pos` to `end`, with the characters in place of
/// the references that stand for them.
fn append_decoded(out: &mut Vec<u8>, text: &[u8], pos: usize, end: usize)
    requires
        pos <= end <= text@.len(),
    ensures
        final(out)@ == old(out)@ + decoded(text@, pos as int, end as int),
{
    let less_than: [u8; 4] = [38, 108, 116, 59];
    let greater_than: [u8; 4] = [38, 103, 116, 59];
    let ampersand: [u8; 5] = [38, 97, 109, 112, 59];
    let quote: [u8; 6] = [38, 113, 117, 111, 116, 59];
    let apostrophe: [u8; 6] = [38, 97, 112, 111, 115, 59];
    assert(less_than@ =~= less_than_reference());
    assert(greater_than@ =~= greater_than_reference());
    assert(ampersand@ =~= ampersand_reference());
    assert(quote@ =~= quote_reference());
    assert(apostrophe@ =~= apostrophe_reference());
    let mut place: usize = pos;
    assert(out@ + decoded(text@, pos as int, end as int) =~= old(out)@ + decoded(
        text@,
        pos as int,
        end as int,
    ));
    while place < end
        invariant
            pos <= place <= end <= text@.len(),
            less_than@ == less_than_reference(),
            greater_than@ == greater_than_reference(),
            ampersand@ == ampersand_reference(),
            quote@ == quote_reference(),
            apostrophe@ == apostrophe_reference(),
            out@ + decoded(text@, place as int, end as int) == old(out)@ + decoded(
                text@,
                pos as int,
                end as int,
            ),
        decreases end - place,
    {
        let ghost before = out@;
        let ghost rest = decoded(text@, place as int, end as int);
        let rest_size: usize = end - place;
        let (byte, size): (u8, usize) = if text[place] != 38 {
            proof {
                lemma_word_starts(text@, place as int, less_than_reference());
                lemma_word_starts(text@, place as int, greater_than_reference());
                lemma_word_starts(text@, place as int, ampersand_reference());
                lemma_word_starts(text@, place as int, quote_reference());
                lemma_word_starts(text@, place as int, apostrophe_reference());
            }
            (text[place], 1)
        } else if rest_size >= 4 && word_stands_at(text, place, less_than.as_slice()) {
            (60, 4)
        } else if rest_size >= 4 && word_stands_at(text, place, greater_than.as_slice()) {
            (62, 4)
        } else if rest_size >= 5 && word_stands_at(text, place, ampersand.as_slice()) {
            (38, 5)
        } else if rest_size >= 6 && word_stands_at(text, place, quote.as_slice()) {
            (34, 6)
        } else if rest_size >= 6 && word_stands_at(text, place, apostrophe.as_slice()) {
            (39, 6)
        } else {
            (text[place], 1)
        };
        assert(rest == seq![byte] + decoded(text@, place + size, end as int));
        out.push(byte);
        place = place + size;
        assert(out@ + decoded(text@, place as int, end as int) =~= before + rest);
    }
    assert(decoded(text@, end as int, end as int) =~= Seq::<u8>::empty());
    assert(out@ =~= out@ + Seq::<u8>::empty());
}

/// One step on the way to an element: the name of an element and,
/// where the attribute is not the empty text, the value that the element
/// must give to the attribute.
pub struct StepView {
    pub name: Seq<u8>,
    pub attribute: Seq<u8>,
    pub value: Seq<u8>,
}

/// One step on the way to an element.
#[derive(Clone, Copy, Debug)]
pub struct Step<'a> {
    pub name: &'a str,
    /// The name of an attribute, or the empty text where any element of
    /// the name will do.
    pub attribute: &'a str,
    /// The value that the attribute must have.
    pub value: &'a str,
}

impl<'a> View for Step<'a> {
    type V = StepView;

    open spec fn view(&self) -> StepView {
        StepView {
            name: self.name.spec_bytes(),
            attribute: self.attribute.spec_bytes(),
            value: self.value.spec_bytes(),
        }
    }
}

/// The step to any element of the given name.
pub open spec fn step_to(name: Seq<u8>) -> StepView {
    StepView { name, attribute: Seq::empty(), value: Seq::empty() }
}

/// The step to the element of the given name that gives the value to the
/// attribute.
pub open spec fn step_to_marked(name: Seq<u8>, attribute: Seq<u8>, value: Seq<u8>) -> StepView {
    StepView { name, attribute, value }
}

impl<'a> Step<'a> {
    /// The step to any element of the given name.
    pub fn to(name: &'a str) -> (step: Self)
        ensures
            step@ == step_to(name.spec_bytes()),
    {
        let step = Step { name, attribute: "", value: "" };
        proof {
            reveal_strlit("");
            assert(""@ =~= Seq::<char>::empty());
            assert(vstd::utf8::encode_utf8(Seq::<char>::empty()) =~= Seq::<u8>::empty());
        }
        step
    }

    /// The step to the element of the given name that gives the value to
    /// the attribute.
    pub fn to_marked(name: &'a str, attribute: &'a str, value: &'a str) -> (step: Self)
        ensures
            step@ == step_to_marked(name.spec_bytes(), attribute.spec_bytes(), value.spec_bytes()),
    {
        Step { name, attribute, value }
    }
}

/// The views of the steps of a path.
pub open spec fn path_steps(path: Seq<Step>) -> Seq<StepView> {
    Seq::new(path.len(), |i: int| path[i]@)
}

/// An attribute in a tag: where its name and its value stand, and where
/// what follows it starts.
pub struct AttributeView {
    pub name_start: int,
    pub name_end: int,
    pub value_start: int,
    pub value_end: int,
    pub next: int,
}

/// The attribute that stands at or behind `pos` and ends before `end`: a
/// name, the sign `=`, and a value in quotes of either kind, with blanks
/// between them or without. `None` where no attribute stands there.
pub open spec fn attribute_at(text: Seq<u8>, pos: int, end: int) -> Option<AttributeView> {
    let name_start = blanks_end(text, pos);
    let name_stop = name_end(text, name_start);
    let sign = blanks_end(text, name_stop);
    let quote = blanks_end(text, sign + 1);
    if 0 <= pos && name_start < name_stop && sign < end && end <= text.len() && text[sign] == 61
        && quote < end && (text[quote] == 34 || text[quote] == 39) {
        match find(text, quote + 1, seq![text[quote]]) {
            Some(close) => if quote < close < end {
                Some(
                    AttributeView {
                        name_start,
                        name_end: name_stop,
                        value_start: quote + 1,
                        value_end: close,
                        next: close + 1,
                    },
                )
            } else {
                None
            },
            None => None,
        }
    } else {
        None
    }
}

/// The value that the tag gives to the attribute of the given name, with
/// the characters in place of the references that stand for them: that of
/// the first attribute of the name among the attributes that stand, one
/// behind the other, from `pos` on. `None` where there is none.
pub open spec fn attribute_value(text: Seq<u8>, pos: int, end: int, name: Seq<u8>) -> Option<
    Seq<u8>,
>
    decreases end - pos,
{
    match attribute_at(text, pos, end) {
        None => None,
        Some(attribute) => if !(pos < attribute.next <= end) {
            None
        } else if text.subrange(attribute.name_start, attribute.name_end) == name {
            Some(decoded(text, attribute.value_start, attribute.value_end))
        } else {
            attribute_value(text, attribute.next, end, name)
        },
    }
}

/// Whether the tag of the piece is one that the step leads to: it has the
/// name of the step and, where the step asks for it, the attribute with
/// the value.
pub open spec fn step_leads_to(text: Seq<u8>, piece: PieceView, step: StepView) -> bool {
    &&& text.subrange(piece.start, piece.end) == step.name
    &&& step.attribute.len() == 0 || attribute_value(text, piece.end, piece.next, step.attribute)
        == Some(step.value)
}

/// What the search for an element gives from a place on.
///
/// `depth` says in how many elements the place lies, and `matched` how
/// many of them are, from the outermost on, the elements that the steps of
/// the path lead to. Once
/// the element is found, `content` holds what was gathered of its text.
/// The element that is looked for is the first one, in the order of the
/// text, that is reached by the steps of the path, each element lying
/// directly in the one before. Its text is what it holds of text and
/// literal sections, without what the elements in it hold.
///
/// `CorruptData` for what is no piece, for a closing tag that closes
/// nothing, and for a text that ends within an element.
pub open spec fn element_text_from(
    text: Seq<u8>,
    path: Seq<StepView>,
    pos: int,
    depth: nat,
    matched: nat,
    content: Option<Seq<u8>>,
) -> Result<Option<Seq<u8>>, LibCZIApiError>
    decreases text.len() - pos,
{
    if pos < 0 {
        Err(LibCZIApiError::CorruptData)
    } else if pos >= text.len() {
        if depth > 0 {
            Err(LibCZIApiError::CorruptData)
        } else {
            Ok(None)
        }
    } else {
        match piece_at(text, pos) {
            None => Err(LibCZIApiError::CorruptData),
            Some(piece) => if !(pos < piece.next <= text.len()) {
                Err(LibCZIApiError::CorruptData)
            } else {
                let name = text.subrange(piece.start, piece.end);
                match content {
                    Some(gathered) => match piece.kind {
                        PieceKind::Open => element_text_from(
                            text,
                            path,
                            piece.next,
                            depth + 1,
                            matched,
                            content,
                        ),
                        PieceKind::Close => if depth <= path.len() {
                            Ok(content)
                        } else {
                            element_text_from(
                                text,
                                path,
                                piece.next,
                                (depth - 1) as nat,
                                matched,
                                content,
                            )
                        },
                        PieceKind::Text => element_text_from(
                            text,
                            path,
                            piece.next,
                            depth,
                            matched,
                            if depth == path.len() {
                                Some(gathered + decoded(text, piece.start, piece.end))
                            } else {
                                content
                            },
                        ),
                        PieceKind::Literal => element_text_from(
                            text,
                            path,
                            piece.next,
                            depth,
                            matched,
                            if depth == path.len() {
                                Some(gathered + name)
                            } else {
                                content
                            },
                        ),
                        _ => element_text_from(text, path, piece.next, depth, matched, content),
                    },
                    None => match piece.kind {
                        PieceKind::Open => if depth == matched && matched < path.len()
                            && step_leads_to(text, piece, path[matched as int]) {
                            element_text_from(
                                text,
                                path,
                                piece.next,
                                depth + 1,
                                matched + 1,
                                if matched + 1 == path.len() {
                                    Some(Seq::empty())
                                } else {
                                    None
                                },
                            )
                        } else {
                            element_text_from(text, path, piece.next, depth + 1, matched, None)
                        },
                        PieceKind::Empty => if depth == matched && matched + 1 == path.len()
                            && step_leads_to(text, piece, path[matched as int]) {
                            Ok(Some(Seq::empty()))
                        } else {
                            element_text_from(text, path, piece.next, depth, matched, None)
                        },
                        PieceKind::Close => if depth == 0 {
                            Err(LibCZIApiError::CorruptData)
                        } else {
                            element_text_from(
                                text,
                                path,
                                piece.next,
                                (depth - 1) as nat,
                                if matched > depth - 1 {
                                    (depth - 1) as nat
                                } else {
                                    matched
                                },
                                None,
                            )
                        },
                        _ => element_text_from(text, path, piece.next, depth, matched, None),
                    },
                }
            },
        }
    }
}

/// The text of the first element that is reached by the steps of the path,
/// or `None` where the text has no such element.
pub open spec fn element_text(text: Seq<u8>, path: Seq<StepView>) -> Result<
    Option<Seq<u8>>,
    LibCZIApiError,
> {
    element_text_from(text, path, 0, 0, 0, None)
}

/// Whether the bytes from `start` to `end` are those of the word.
fn is_word(text: &[u8], start: usize, end: usize, word: &[u8]) -> (same: bool)
    requires
        start <= end <= text@.len(),
    ensures
        same == (text@.subrange(start as int, end as int) == word@),
{
    if word.len() != end - start {
        return false;
    }
    crate::wire::has_bytes_at(text, start, word)
}

/// The attribute that stands at or behind `pos` and ends before `end`.
fn read_attribute(text: &[u8], pos: usize, end: usize) -> (found: Option<
    (usize, usize, usize, usize, usize),
>)
    requires
        pos <= end <= text@.len(),
    ensures
        match found {
            Some(places) => attribute_at(text@, pos as int, end as int) == Some(
                AttributeView {
                    name_start: places.0 as int,
                    name_end: places.1 as int,
                    value_start: places.2 as int,
                    value_end: places.3 as int,
                    next: places.4 as int,
                },
            ) && pos <= places.0 <= places.1 <= places.2 <= places.3 < places.4 <= end,
            None => attribute_at(text@, pos as int, end as int) is None,
        },
{
    let name_start = after_blanks(text, pos);
    let name_stop = after_name(text, name_start);
    let sign = after_blanks(text, name_stop);
    if !(name_start < name_stop && sign < end && text[sign] == 61) {
        return None;
    }
    let quote = after_blanks(text, sign + 1);
    if !(quote < end && (text[quote] == 34 || text[quote] == 39)) {
        return None;
    }
    let mark: [u8; 1] = [text[quote]];
    assert(mark@ =~= seq![text@[quote as int]]);
    proof {
        lemma_find(text@, quote + 1, mark@);
    }
    match find_word(text, quote + 1, mark.as_slice()) {
        Some(close) => if close < end {
            Some((name_start, name_stop, quote + 1, close, close + 1))
        } else {
            None
        },
        None => None,
    }
}

/// The value that the tag gives to the attribute of the given name.
fn read_attribute_value(text: &[u8], pos: usize, end: usize, name: &[u8]) -> (found: Option<
    Vec<u8>,
>)
    requires
        pos <= end <= text@.len(),
    ensures
        match found {
            Some(value) => attribute_value(text@, pos as int, end as int, name@) == Some(value@),
            None => attribute_value(text@, pos as int, end as int, name@) is None,
        },
{
    let mut place: usize = pos;
    loop
        invariant
            pos <= place <= end <= text@.len(),
            attribute_value(text@, place as int, end as int, name@) == attribute_value(
                text@,
                pos as int,
                end as int,
                name@,
            ),
        decreases end - place,
    {
        match read_attribute(text, place, end) {
            None => {
                return None;
            },
            Some(places) => {
                if is_word(text, places.0, places.1, name) {
                    let mut value: Vec<u8> = Vec::new();
                    append_decoded(&mut value, text, places.2, places.3);
                    assert(value@ =~= decoded(text@, places.2 as int, places.3 as int));
                    return Some(value);
                }
                place = places.4;
            },
        }
    }
}

/// Whether the tag of the piece is one that the step leads to.
fn leads_to(text: &[u8], piece: &Piece, step: &Step) -> (leads: bool)
    requires
        piece.start <= piece.end <= piece.next <= text@.len(),
    ensures
        leads == step_leads_to(text@, piece@, step@),
{
    if !is_word(text, piece.start, piece.end, step.name.as_bytes()) {
        return false;
    }
    if step.attribute.as_bytes().len() == 0 {
        return true;
    }
    match read_attribute_value(text, piece.end, piece.next, step.attribute.as_bytes()) {
        None => false,
        Some(value) => {
            assert(value@.subrange(0, value@.len() as int) =~= value@);
            is_word(value.as_slice(), 0, value.len(), step.value.as_bytes())
        },
    }
}

/// The text of the first element that is reached by the steps of the path.
pub fn find_element_text(text: &[u8], path: &[Step]) -> (found: Result<
    Option<Vec<u8>>,
    LibCZIApiError,
>)
    ensures
        match found {
            Ok(Some(content)) => element_text(text@, path_steps(path@)) == Ok::<
                Option<Seq<u8>>,
                LibCZIApiError,
            >(Some(content@)),
            Ok(None) => element_text(text@, path_steps(path@)) == Ok::<
                Option<Seq<u8>>,
                LibCZIApiError,
            >(None),
            Err(e) => element_text(text@, path_steps(path@)) == Err::<
                Option<Seq<u8>>,
                LibCZIApiError,
            >(e),
        },
{
    let ghost names = path_steps(path@);
    let mut pos: usize = 0;
    let mut depth: usize = 0;
    let mut matched: usize = 0;
    let mut inside: bool = false;
    let mut gathered: Vec<u8> = Vec::new();
    while pos < text.len()
        invariant
            names == path_steps(path@),
            depth <= pos,
            matched <= depth,
            matched <= path@.len(),
            names.len() == path@.len(),
            !inside ==> gathered@.len() == 0,
            inside ==> depth >= path@.len(),
            element_text_from(
                text@,
                names,
                pos as int,
                depth as nat,
                matched as nat,
                if inside {
                    Some(gathered@)
                } else {
                    None
                },
            ) == element_text(text@, names),
        decreases text@.len() - pos,
    {
        let piece = match read_piece(text, pos) {
            Some(found) => found,
            None => {
                return Err(LibCZIApiError::CorruptData);
            },
        };
        proof {
            if matched < path@.len() {
                assert(names[matched as int] == path@[matched as int]@);
            }
        }
        if inside {
            match piece.kind {
                PieceKind::Open => {
                    depth = depth + 1;
                },
                PieceKind::Close => {
                    if depth <= path.len() {
                        return Ok(Some(gathered));
                    }
                    depth = depth - 1;
                },
                PieceKind::Text => {
                    if depth == path.len() {
                        append_decoded(&mut gathered, text, piece.start, piece.end);
                    }
                },
                PieceKind::Literal => {
                    if depth == path.len() {
                        let ghost before = gathered@;
                        let part = vstd::slice::slice_subrange(text, piece.start, piece.end);
                        gathered.extend_from_slice(part);
                        assert(gathered@ =~= before + text@.subrange(
                            piece.start as int,
                            piece.end as int,
                        ));
                    }
                },
                _ => {},
            }
        } else {
            match piece.kind {
                PieceKind::Open => {
                    if depth == matched && matched < path.len() && leads_to(
                        text,
                        &piece,
                        &path[matched],
                    ) {
                        matched = matched + 1;
                        if matched == path.len() {
                            inside = true;
                            assert(gathered@ =~= Seq::<u8>::empty());
                        }
                    }
                    depth = depth + 1;
                },
                PieceKind::Empty => {
                    if depth == matched && matched + 1 == path.len() && leads_to(
                        text,
                        &piece,
                        &path[matched],
                    ) {
                        assert(gathered@ =~= Seq::<u8>::empty());
                        return Ok(Some(gathered));
                    }
                },
                PieceKind::Close => {
                    if depth == 0 {
                        return Err(LibCZIApiError::CorruptData);
                    }
                    depth = depth - 1;
                    if matched > depth {
                        matched = depth;
                    }
                },
                _ => {},
            }
        }
        pos = piece.next;
    }
    if depth > 0 {
        Err(LibCZIApiError::CorruptData)
    } else {
        Ok(None)
    }
}

} // verus!
