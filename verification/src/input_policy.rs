//! Text input: when a touch asks for the keyboard, and what a deletion takes.
use std::ops::Range;
use unicode_segmentation::UnicodeSegmentation;
use vstd::prelude::*;
use vstd::utf8::encode_utf8;

verus! {

#[derive(Clone, Copy, Debug, PartialEq, Eq, Structural)]
pub enum DeleteDirection {
    Backward,
    Forward,
}

/// Where the keyboard focus of the page goes after a touch.
#[derive(Clone, Copy, Debug, PartialEq, Eq, Structural)]
pub enum FocusTarget {
    /// The text input, which opens the soft keyboard.
    Input,
    /// The canvas with this tab index, which dismisses the soft keyboard and
    /// still receives hardware keys.
    Canvas { tab_index: i32 },
}

/// Whether a tap asks for the keyboard.
pub open spec fn keyboard_requested(down: Option<bool>, up: Option<bool>) -> bool {
    match up {
        Some(requested) => requested,
        None => down == Some(true),
    }
}

/// Where the focus goes after a tap.
pub open spec fn focus_target(down: Option<bool>, up: Option<bool>) -> FocusTarget {
    if keyboard_requested(down, up) {
        FocusTarget::Input
    } else {
        FocusTarget::Canvas { tab_index: -1i32 as i32 }
    }
}

/// The release decides about the keyboard if it asks for anything, whatever the
/// press asked for; a release that does not leaves it to the press. A tap that
/// asks for nothing opens no keyboard. The focus goes to the input exactly if the
/// keyboard is asked for, and to a canvas that keys do not tab to otherwise.
pub proof fn law_taps_and_keyboard(down: Option<bool>, up: Option<bool>, requested: bool)
    ensures
        keyboard_requested(down, Some(requested)) == requested,
        keyboard_requested(Some(requested), None) == requested,
        !keyboard_requested(None, None),
        focus_target(down, up) is Input <==> keyboard_requested(down, up),
        focus_target(down, up) matches FocusTarget::Canvas { tab_index } ==> tab_index < 0,
{
}

/// Whether a completed touch tap requested an editable focus target. What the
/// release requested overrides the press.
pub fn touch_requests_keyboard(down: Option<bool>, up: Option<bool>) -> (r: bool)
    ensures
        r == keyboard_requested(down, up),
        r == match (up, down) {
            (Some(requested), _) => requested,
            (None, Some(requested)) => requested,
            (None, None) => false,
        },
{
    match up {
        Some(requested) => requested,
        None => match down {
            Some(requested) => requested,
            None => false,
        },
    }
}

/// Where to put the focus after a touch tap.
pub fn focus_after_touch(down: Option<bool>, up: Option<bool>) -> (r: FocusTarget)
    ensures
        r == focus_target(down, up),
        r == if up == Some(true) || (up is None && down == Some(true)) {
            FocusTarget::Input
        } else {
            FocusTarget::Canvas { tab_index: -1i32 as i32 }
        },
{
    if touch_requests_keyboard(down, up) {
        FocusTarget::Input
    } else {
        FocusTarget::Canvas { tab_index: -1 }
    }
}

/// The number of UTF-16 code units of a character.
pub open spec fn utf16_width(c: char) -> nat {
    if (c as u32) < 0x1_0000 {
        1
    } else {
        2
    }
}

/// The number of UTF-16 code units of a text.
pub open spec fn utf16_length(chars: Seq<char>) -> nat
    decreases chars.len(),
{
    if chars.len() == 0 {
        0
    } else {
        utf16_length(chars.drop_last()) + utf16_width(chars.last())
    }
}

/// The number of bytes of a text.
pub open spec fn byte_length(chars: Seq<char>) -> nat {
    encode_utf8(chars).len()
}

proof fn lemma_encode_concat(a: Seq<char>, b: Seq<char>)
    ensures
        encode_utf8(a + b) == encode_utf8(a) + encode_utf8(b),
    decreases a.len(),
{
    if a.len() == 0 {
        assert(a + b =~= b);
        assert(encode_utf8(a) + encode_utf8(b) =~= encode_utf8(b));
    } else {
        assert((a + b).drop_first() =~= a.drop_first() + b);
        lemma_encode_concat(a.drop_first(), b);
        let head = vstd::utf8::encode_scalar(a[0] as u32);
        assert(head + (encode_utf8(a.drop_first()) + encode_utf8(b)) =~= (head + encode_utf8(
            a.drop_first(),
        )) + encode_utf8(b));
    }
}

/// The number of bytes of a character.
pub open spec fn byte_width(c: char) -> nat {
    if (c as u32) < 0x80 {
        1
    } else if (c as u32) < 0x800 {
        2
    } else if (c as u32) < 0x1_0000 {
        3
    } else {
        4
    }
}

/// A text grows by one character.
proof fn lemma_push(chars: Seq<char>, c: char)
    ensures
        byte_length(chars.push(c)) == byte_length(chars) + byte_width(c),
        utf16_length(chars.push(c)) == utf16_length(chars) + utf16_width(c),
{
    assert(chars.push(c).drop_last() =~= chars);
    assert(chars.push(c) =~= chars + seq![c]);
    lemma_encode_concat(chars, seq![c]);
    vstd::utf8::char_is_scalar(c);
    assert(seq![c].drop_first() =~= Seq::<char>::empty());
    assert(encode_utf8(seq![c].drop_first()) =~= Seq::<u8>::empty());
    assert(encode_utf8(seq![c]) =~= vstd::utf8::encode_scalar(c as u32) + Seq::<u8>::empty());
}

proof fn lemma_utf16_concat(a: Seq<char>, b: Seq<char>)
    ensures
        utf16_length(a + b) == utf16_length(a) + utf16_length(b),
    decreases b.len(),
{
    if b.len() == 0 {
        assert(a + b =~= a);
    } else {
        assert((a + b).drop_last() =~= a + b.drop_last());
        lemma_utf16_concat(a, b.drop_last());
    }
}

/// No text has more UTF-16 units than bytes, and one that is not empty has
/// some.
proof fn lemma_utf16_at_most_bytes(chars: Seq<char>)
    ensures
        utf16_length(chars) <= byte_length(chars),
        chars.len() <= utf16_length(chars),
    decreases chars.len(),
{
    if chars.len() > 0 {
        lemma_utf16_at_most_bytes(chars.drop_last());
        lemma_push(chars.drop_last(), chars.last());
        assert(chars.drop_last().push(chars.last()) =~= chars);
    }
}

/// Both lengths grow with every character.
proof fn lemma_prefix_grows(chars: Seq<char>, i: int, j: int)
    requires
        0 <= i < j <= chars.len(),
    ensures
        utf16_length(chars.take(i)) < utf16_length(chars.take(j)),
        byte_length(chars.take(i)) < byte_length(chars.take(j)),
{
    let more = chars.subrange(i, j);
    assert(chars.take(j) =~= chars.take(i) + more);
    lemma_encode_concat(chars.take(i), more);
    lemma_utf16_concat(chars.take(i), more);
    lemma_utf16_at_most_bytes(more);
}

/// The number of UTF-16 code units of a text.
pub fn utf16_len(text: &str) -> (r: usize)
    ensures
        r == utf16_length(text@),
{
    let limit: usize = text.as_bytes().len();
    let mut units: usize = 0;
    for c in it: text.chars()
        invariant
            it.seq() == text@,
            units == utf16_length(text@.take(it.index() as int)),
            limit == byte_length(text@),
    {
        proof {
            let i = it.index() as int;
            lemma_push(text@.take(i), text@[i]);
            assert(text@.take(i + 1) =~= text@.take(i).push(text@[i]));
            lemma_utf16_at_most_bytes(text@);
            if i + 1 < text@.len() {
                lemma_prefix_grows(text@, i + 1, text@.len() as int);
            }
            assert(text@.take(text@.len() as int) =~= text@);
        }
        if (c as u32) < 0x1_0000 {
            units = units + 1;
        } else {
            units = units + 2;
        }
    }
    assert(text@.take(text@.len() as int) =~= text@);
    units
}

/// Whether the first `i` characters of a text take `target` UTF-16 units.
pub open spec fn at_utf16(chars: Seq<char>, i: int, target: nat) -> bool {
    0 <= i <= chars.len() && utf16_length(chars.take(i)) == target
}

/// The byte offset of the character that begins `target` UTF-16 units into the
/// text, or of the end of the text. There is none inside of a character.
pub fn byte_offset_from_utf16(text: &str, target: usize) -> (r: Option<usize>)
    ensures
        match r {
            Some(offset) => exists|i: int|
                at_utf16(text@, i, target as nat) && offset == byte_length(text@.take(i)),
            None => forall|i: int| !at_utf16(text@, i, target as nat),
        },
{
    let limit: usize = text.as_bytes().len();
    let mut units: usize = 0;
    let mut offset: usize = 0;
    for c in it: text.chars()
        invariant
            it.seq() == text@,
            units == utf16_length(text@.take(it.index() as int)),
            offset == byte_length(text@.take(it.index() as int)),
            limit == byte_length(text@),
            units <= target,
    {
        let ghost i = it.index() as int;
        if units == target {
            assert(at_utf16(text@, i, target as nat));
            return Some(offset);
        }
        proof {
            lemma_push(text@.take(i), text@[i]);
            assert(text@.take(i + 1) =~= text@.take(i).push(text@[i]));
            lemma_utf16_at_most_bytes(text@);
            if i + 1 < text@.len() {
                lemma_prefix_grows(text@, i + 1, text@.len() as int);
            }
            assert(text@.take(text@.len() as int) =~= text@);
        }
        let code: u32 = c as u32;
        if code < 0x80 {
            offset = offset + 1;
        } else if code < 0x800 {
            offset = offset + 2;
        } else if code < 0x1_0000 {
            offset = offset + 3;
        } else {
            offset = offset + 4;
        }
        if code < 0x1_0000 {
            units = units + 1;
        } else {
            units = units + 2;
        }
        if units > target {
            proof {
                assert forall|j: int| !at_utf16(text@, j, target as nat) by {
                    if 0 <= j < i {
                        lemma_prefix_grows(text@, j, i);
                    }
                    if i + 1 < j <= text@.len() {
                        lemma_prefix_grows(text@, i + 1, j);
                    }
                }
            }
            return None;
        }
    }
    let ghost n = text@.len() as int;
    assert(text@.take(n) =~= text@);
    if units == target {
        assert(at_utf16(text@, n, target as nat));
        Some(offset)
    } else {
        proof {
            assert forall|j: int| !at_utf16(text@, j, target as nat) by {
                if 0 <= j < n {
                    lemma_prefix_grows(text@, j, n);
                }
            }
        }
        None
    }
}

/// The grapheme clusters of a text, each with the offset of its first byte.
pub uninterp spec fn grapheme_indices(text: Seq<char>) -> Seq<(usize, Seq<char>)>;

/// The first `n` pieces put together.
pub open spec fn joined(pieces: Seq<(usize, Seq<char>)>, n: int) -> Seq<char>
    decreases n,
{
    if n <= 0 {
        Seq::empty()
    } else {
        joined(pieces, n - 1) + pieces[n - 1].1
    }
}

/// Whether the pieces are the text cut into parts that are not empty, each with
/// the number of bytes before it.
pub open spec fn cuts(pieces: Seq<(usize, Seq<char>)>, text: Seq<char>) -> bool {
    &&& joined(pieces, pieces.len() as int) == text
    &&& forall|i: int|
        0 <= i < pieces.len() ==> {
            &&& (#[trigger] pieces[i]).1.len() > 0
            &&& pieces[i].0 == byte_length(joined(pieces, i))
        }
}

/// Pieces of a text by their contents.
pub open spec fn piece_views(pieces: Seq<(usize, &str)>) -> Seq<(usize, Seq<char>)> {
    Seq::new(pieces.len(), |i: int| (pieces[i].0, pieces[i].1@))
}

/// The grapheme clusters of a text, from
/// `unicode_segmentation::UnicodeSegmentation::grapheme_indices` with extended
/// clusters. Which clusters these are is left to that crate; what is claimed
/// is that they depend on the text alone, that in order they make up the whole
/// text, that none is empty, and that the offsets count the bytes before each.
#[verifier::external_body]
fn collect_grapheme_indices(text: &str) -> (r: Vec<(usize, &str)>)
    ensures
        piece_views(r@) == grapheme_indices(text@),
        cuts(piece_views(r@), text@),
{
    text.grapheme_indices(true).collect()
}

/// The UTF-16 offset at which piece `i` begins; that of the end of the text for
/// the number of pieces.
pub open spec fn piece_start(pieces: Seq<(usize, Seq<char>)>, i: int) -> nat {
    utf16_length(joined(pieces, i))
}

/// What a deletion takes from a document whose UTF-16 range `range` is `text`,
/// cut into `pieces` that a deletion must not split.
///
/// A selection that is not empty goes as it is. Otherwise the caret has to be
/// within the range and at a boundary between pieces, and the piece before or
/// behind it goes.
pub open spec fn deleted(
    selection: Range<usize>,
    direction: DeleteDirection,
    text: Seq<char>,
    range: Range<usize>,
    pieces: Seq<(usize, Seq<char>)>,
) -> Option<(int, int)> {
    let caret = selection.start - range.start;
    if selection.start < selection.end {
        Some((selection.start as int, selection.end as int))
    } else if caret < 0 || caret > range.end - range.start || utf16_length(text) != range.end
        - range.start {
        None
    } else {
        match direction {
            DeleteDirection::Backward => if exists|i: int|
                0 < i <= pieces.len() && #[trigger] piece_start(pieces, i) == caret {
                let i = choose|i: int|
                    0 < i <= pieces.len() && #[trigger] piece_start(pieces, i) == caret;
                Some((range.start + piece_start(pieces, i - 1), selection.start as int))
            } else {
                None
            },
            DeleteDirection::Forward => if exists|i: int|
                0 <= i < pieces.len() && #[trigger] piece_start(pieces, i) == caret {
                let i = choose|i: int|
                    0 <= i < pieces.len() && #[trigger] piece_start(pieces, i) == caret;
                Some((selection.start as int, range.start + piece_start(pieces, i + 1)))
            } else {
                None
            },
        }
    }
}

/// The ends of a range that may be missing.
pub open spec fn range_view(r: Option<Range<usize>>) -> Option<(int, int)> {
    match r {
        Some(range) => Some((range.start as int, range.end as int)),
        None => None,
    }
}

/// Pieces of a text are its beginnings, one character or more apart.
proof fn lemma_joined_is_prefix(pieces: Seq<(usize, Seq<char>)>, text: Seq<char>, i: int)
    requires
        cuts(pieces, text),
        0 <= i <= pieces.len(),
    ensures
        joined(pieces, i).len() <= text.len(),
        joined(pieces, i) == text.take(joined(pieces, i).len() as int),
    decreases pieces.len() - i,
{
    if i == pieces.len() {
        assert(text.take(text.len() as int) =~= text);
    } else {
        lemma_joined_is_prefix(pieces, text, i + 1);
        let here = joined(pieces, i);
        let next = joined(pieces, i + 1);
        assert(next == here + pieces[i].1);
        assert(here =~= next.take(here.len() as int));
        assert(text.take(next.len() as int).take(here.len() as int) =~= text.take(
            here.len() as int,
        ));
    }
}

proof fn lemma_joined_grows(pieces: Seq<(usize, Seq<char>)>, text: Seq<char>, i: int, j: int)
    requires
        cuts(pieces, text),
        0 <= i < j <= pieces.len(),
    ensures
        joined(pieces, i).len() < joined(pieces, j).len(),
        piece_start(pieces, i) < piece_start(pieces, j),
        byte_length(joined(pieces, i)) < byte_length(joined(pieces, j)),
    decreases j - i,
{
    assert(pieces[j - 1].1.len() > 0);
    if i < j - 1 {
        lemma_joined_grows(pieces, text, i, j - 1);
    }
    lemma_joined_is_prefix(pieces, text, i);
    lemma_joined_is_prefix(pieces, text, j);
    lemma_prefix_grows(text, joined(pieces, i).len() as int, joined(pieces, j).len() as int);
}

/// A piece begins at a byte offset exactly where it begins at the UTF-16 offset
/// of the same character.
proof fn lemma_same_boundary(
    pieces: Seq<(usize, Seq<char>)>,
    text: Seq<char>,
    i: int,
    k: int,
)
    requires
        cuts(pieces, text),
        0 <= i <= pieces.len(),
        0 <= k <= text.len(),
    ensures
        (byte_length(joined(pieces, i)) == byte_length(text.take(k))) == (piece_start(pieces, i)
            == utf16_length(text.take(k))),
        (byte_length(joined(pieces, i)) < byte_length(text.take(k))) == (piece_start(pieces, i)
            < utf16_length(text.take(k))),
{
    lemma_joined_is_prefix(pieces, text, i);
    let b = joined(pieces, i).len() as int;
    if b < k {
        lemma_prefix_grows(text, b, k);
    } else if k < b {
        lemma_prefix_grows(text, k, b);
    }
}

/// A boundary between pieces: its number, and the UTF-16 offsets of the one
/// before and the one behind it, where there are such.
struct Boundary {
    index: usize,
    before: usize,
    behind: usize,
}

impl Boundary {
    spec fn is_at(self, pieces: Seq<(usize, Seq<char>)>, units: nat) -> bool {
        &&& self.index <= pieces.len()
        &&& piece_start(pieces, self.index as int) == units
        &&& self.index > 0 ==> self.before == piece_start(pieces, self.index - 1)
        &&& self.index < pieces.len() ==> self.behind == piece_start(pieces, self.index + 1)
    }
}

/// Finds the boundary between pieces at a byte offset, which is that of
/// character `k`.
fn find_boundary(
    pieces: &Vec<(usize, &str)>,
    text: &str,
    offset: usize,
    Ghost(k): Ghost<int>,
) -> (r: Option<Boundary>)
    requires
        cuts(piece_views(pieces@), text@),
        0 <= k <= text@.len(),
        offset == byte_length(text@.take(k)),
    ensures
        match r {
            Some(boundary) => boundary.is_at(
                piece_views(pieces@),
                utf16_length(text@.take(k)),
            ),
            None => forall|i: int|
                0 <= i <= pieces.len() ==> #[trigger] piece_start(piece_views(pieces@), i)
                    != utf16_length(text@.take(k)),
        },
{
    let ghost views = piece_views(pieces@);
    let ghost target = utf16_length(text@.take(k));
    let limit: usize = text.as_bytes().len();
    let mut units: usize = 0;
    let mut before: usize = 0;
    for i in 0..pieces.len()
        invariant
            views == piece_views(pieces@),
            cuts(views, text@),
            0 <= k <= text@.len(),
            offset == byte_length(text@.take(k)),
            target == utf16_length(text@.take(k)),
            limit == byte_length(text@),
            units == piece_start(views, i as int),
            i > 0 ==> before == piece_start(views, i - 1),
            forall|j: int| 0 <= j < i ==> #[trigger] piece_start(views, j) != target,
    {
        let piece_units: usize = utf16_len(pieces[i].1);
        proof {
            assert(views[i as int] == (pieces@[i as int].0, pieces@[i as int].1@));
            lemma_same_boundary(views, text@, i as int, k);
            lemma_utf16_concat(joined(views, i as int), views[i as int].1);
            if i + 1 < views.len() {
                lemma_joined_grows(views, text@, i + 1, views.len() as int);
            }
            lemma_utf16_at_most_bytes(text@);
        }
        if pieces[i].0 == offset {
            return Some(Boundary { index: i, before, behind: units + piece_units });
        }
        before = units;
        units = units + piece_units;
    }
    proof {
        lemma_same_boundary(views, text@, views.len() as int, k);
    }
    if limit == offset {
        Some(Boundary { index: pieces.len(), before, behind: 0 })
    } else {
        None
    }
}

/// What a deletion takes, for a text that is already cut into the pieces that
/// must not be split.
pub fn deletion_range_in(
    selection: &Range<usize>,
    direction: DeleteDirection,
    text: &str,
    text_range_utf16: Range<usize>,
    pieces: &Vec<(usize, &str)>,
) -> (r: Option<Range<usize>>)
    requires
        cuts(piece_views(pieces@), text@),
    ensures
        range_view(r) == deleted(
            *selection,
            direction,
            text@,
            text_range_utf16,
            piece_views(pieces@),
        ),
        selection.start < selection.end ==> range_view(r) == Some(
            (selection.start as int, selection.end as int),
        ),
{
    if selection.start < selection.end {
        return Some(Range { start: selection.start, end: selection.end });
    }
    let caret: usize = selection.start;
    if caret < text_range_utf16.start || text_range_utf16.end < text_range_utf16.start {
        return None;
    }
    let relative_caret: usize = caret - text_range_utf16.start;
    let text_range_length: usize = text_range_utf16.end - text_range_utf16.start;
    let ghost views = piece_views(pieces@);
    let ghost count = views.len() as int;
    if relative_caret > text_range_length || utf16_len(text) != text_range_length {
        return None;
    }
    let caret_byte: usize = match byte_offset_from_utf16(text, relative_caret) {
        Some(offset) => offset,
        None => {
            proof {
                assert forall|i: int| 0 <= i <= count implies #[trigger] piece_start(views, i)
                    != relative_caret by {
                    lemma_joined_is_prefix(views, text@, i);
                    assert(!at_utf16(text@, joined(views, i).len() as int, relative_caret as nat));
                }
            }
            return None;
        },
    };
    let ghost k = choose|k: int|
        at_utf16(text@, k, relative_caret as nat) && caret_byte == byte_length(text@.take(k));
    match find_boundary(pieces, text, caret_byte, Ghost(k)) {
        Some(boundary) => {
            proof {
                lemma_boundary_unique(views, text@, boundary.index as int);
            }
            match direction {
                DeleteDirection::Backward => if boundary.index > 0 {
                    proof {
                        lemma_joined_grows(
                            views,
                            text@,
                            boundary.index - 1,
                            boundary.index as int,
                        );
                    }
                    Some(Range { start: text_range_utf16.start + boundary.before, end: caret })
                } else {
                    None
                },
                DeleteDirection::Forward => if boundary.index < pieces.len() {
                    proof {
                        if boundary.index + 1 < count {
                            lemma_joined_grows(views, text@, boundary.index + 1, count);
                        }
                    }
                    Some(Range { start: caret, end: text_range_utf16.start + boundary.behind })
                } else {
                    None
                },
            }
        },
        None => None,
    }
}

proof fn lemma_boundary_unique(pieces: Seq<(usize, Seq<char>)>, text: Seq<char>, i: int)
    requires
        cuts(pieces, text),
        0 <= i <= pieces.len(),
    ensures
        forall|j: int|
            0 <= j <= pieces.len() && #[trigger] piece_start(pieces, j) == piece_start(pieces, i)
                ==> j == i,
{
    assert forall|j: int|
        0 <= j <= pieces.len() && #[trigger] piece_start(pieces, j) == piece_start(
            pieces,
            i,
        ) implies j == i by {
        if j < i {
            lemma_joined_grows(pieces, text, j, i);
        } else if i < j {
            lemma_joined_grows(pieces, text, i, j);
        }
    }
}

/// Computes a deletion range without splitting a Unicode grapheme cluster.
///
/// `text_range_utf16` describes the UTF-16 document range represented by
/// `text`. A collapsed selection is only changed when its caret is a valid
/// grapheme boundary in that range. Non-collapsed selections are returned
/// unchanged because the editor already owns their exact semantics.
pub fn deletion_range(
    selection: &Range<usize>,
    direction: DeleteDirection,
    text: &str,
    text_range_utf16: Range<usize>,
) -> (r: Option<Range<usize>>)
    ensures
        cuts(grapheme_indices(text@), text@),
        range_view(r) == deleted(
            *selection,
            direction,
            text@,
            text_range_utf16,
            grapheme_indices(text@),
        ),
        selection.start < selection.end ==> range_view(r) == Some(
            (selection.start as int, selection.end as int),
        ),
        selection.start >= selection.end ==> match r {
            Some(range) => {
                &&& text_range_utf16.start <= range.start < range.end <= text_range_utf16.end
                &&& direction is Backward ==> range.end == selection.start
                &&& direction is Forward ==> range.start == selection.start
            },
            None => true,
        },
        selection.start >= selection.end && !on_character(
            selection.start,
            text@,
            text_range_utf16,
        ) ==> r is None,
{
    let pieces = collect_grapheme_indices(text);
    proof {
        let views = piece_views(pieces@);
        if selection.start >= selection.end {
            law_deletion_on_character(*selection, direction, text@, text_range_utf16, views);
            if deleted(*selection, direction, text@, text_range_utf16, views) is Some {
                law_deletion_in_range(*selection, direction, text@, text_range_utf16, views);
            }
        }
    }
    deletion_range_in(selection, direction, text, text_range_utf16, &pieces)
}

/// Whether a caret is where a character of the text begins, or at its end: not
/// inside of a surrogate pair, nor outside of the text.
pub open spec fn on_character(caret: usize, text: Seq<char>, range: Range<usize>) -> bool {
    exists|i: int|
        #![trigger text.take(i)]
        0 <= i <= text.len() && range.start + utf16_length(text.take(i)) == caret
}

/// A deletion at a caret needs one that is not inside of a character.
pub proof fn law_deletion_on_character(
    caret: Range<usize>,
    direction: DeleteDirection,
    text: Seq<char>,
    range: Range<usize>,
    pieces: Seq<(usize, Seq<char>)>,
)
    requires
        cuts(pieces, text),
        caret.start >= caret.end,
    ensures
        deleted(caret, direction, text, range, pieces) is Some ==> on_character(
            caret.start,
            text,
            range,
        ),
{
    let offset = caret.start - range.start;
    if deleted(caret, direction, text, range, pieces) is Some {
        let i = choose|i: int|
            0 <= i <= pieces.len() && #[trigger] piece_start(pieces, i) == offset;
        lemma_joined_is_prefix(pieces, text, i);
        let k = joined(pieces, i).len() as int;
        assert(utf16_length(text.take(k)) == offset);
    }
}

/// A deletion at a caret takes something, on the proper side of the caret and
/// within the document range of the text.
pub proof fn law_deletion_in_range(
    caret: Range<usize>,
    direction: DeleteDirection,
    text: Seq<char>,
    range: Range<usize>,
    pieces: Seq<(usize, Seq<char>)>,
)
    requires
        cuts(pieces, text),
        caret.start >= caret.end,
        deleted(caret, direction, text, range, pieces) is Some,
    ensures
        ({
            let (start, end) = deleted(caret, direction, text, range, pieces)->0;
            &&& range.start <= start < end <= range.end
            &&& direction is Backward ==> end == caret.start
            &&& direction is Forward ==> start == caret.start
        }),
{
    let offset = caret.start - range.start;
    let n = pieces.len() as int;
    match direction {
        DeleteDirection::Backward => {
            let i = choose|i: int|
                0 < i <= pieces.len() && #[trigger] piece_start(pieces, i) == offset;
            lemma_joined_grows(pieces, text, i - 1, i);
            if i < n {
                lemma_joined_grows(pieces, text, i, n);
            }
        },
        DeleteDirection::Forward => {
            let i = choose|i: int|
                0 <= i < pieces.len() && #[trigger] piece_start(pieces, i) == offset;
            lemma_joined_grows(pieces, text, i, i + 1);
            if i + 1 < n {
                lemma_joined_grows(pieces, text, i + 1, n);
            }
        },
    }
}

/// A deletion at a caret never splits a piece: it starts where a piece starts
/// and ends where the same piece ends.
pub proof fn law_deletion_takes_one_piece(
    caret: Range<usize>,
    direction: DeleteDirection,
    text: Seq<char>,
    range: Range<usize>,
    pieces: Seq<(usize, Seq<char>)>,
)
    requires
        cuts(pieces, text),
        caret.start >= caret.end,
        deleted(caret, direction, text, range, pieces) is Some,
    ensures
        ({
            let (start, end) = deleted(caret, direction, text, range, pieces)->0;
            exists|i: int|
                0 <= i < pieces.len() && start == range.start + #[trigger] piece_start(pieces, i)
                    && end == range.start + piece_start(pieces, i + 1)
        }),
{
    let offset = caret.start - range.start;
    let (start, end) = deleted(caret, direction, text, range, pieces)->0;
    match direction {
        DeleteDirection::Backward => {
            let i = choose|i: int|
                0 < i <= pieces.len() && #[trigger] piece_start(pieces, i) == offset;
            assert(start == range.start + piece_start(pieces, i - 1));
        },
        DeleteDirection::Forward => {
            let i = choose|i: int|
                0 <= i < pieces.len() && #[trigger] piece_start(pieces, i) == offset;
            assert(end == range.start + piece_start(pieces, i + 1));
        },
    }
}

/// Deleting forward from one end of a piece and backward from its other end
/// takes the same range.
pub proof fn law_deletion_directions_agree(
    start: usize,
    end: usize,
    text: Seq<char>,
    range: Range<usize>,
    pieces: Seq<(usize, Seq<char>)>,
)
    requires
        cuts(pieces, text),
    ensures
        (deleted(
            Range { start, end: start },
            DeleteDirection::Forward,
            text,
            range,
            pieces,
        ) == Some((start as int, end as int))) == (deleted(
            Range { start: end, end },
            DeleteDirection::Backward,
            text,
            range,
            pieces,
        ) == Some((start as int, end as int))),
{
    let a = start - range.start;
    let b = end - range.start;
    let forward = deleted(
        Range { start, end: start },
        DeleteDirection::Forward,
        text,
        range,
        pieces,
    );
    let backward = deleted(
        Range { start: end, end },
        DeleteDirection::Backward,
        text,
        range,
        pieces,
    );
    if forward == Some((start as int, end as int)) {
        law_deletion_in_range(
            Range { start, end: start },
            DeleteDirection::Forward,
            text,
            range,
            pieces,
        );
        let i = choose|i: int| 0 <= i < pieces.len() && #[trigger] piece_start(pieces, i) == a;
        assert(piece_start(pieces, i + 1) == b);
        lemma_boundary_unique(pieces, text, i + 1);
    }
    if backward == Some((start as int, end as int)) {
        law_deletion_in_range(
            Range { start: end, end },
            DeleteDirection::Backward,
            text,
            range,
            pieces,
        );
        let i = choose|i: int| 0 < i <= pieces.len() && #[trigger] piece_start(pieces, i) == b;
        assert(piece_start(pieces, i - 1) == a);
        lemma_boundary_unique(pieces, text, i - 1);
    }
}

/// A selection that is not empty is deleted as it is, in either direction, in
/// any text and range.
pub proof fn law_selection_is_deleted_whole(
    selection: Range<usize>,
    direction: DeleteDirection,
    text: Seq<char>,
    range: Range<usize>,
    pieces: Seq<(usize, Seq<char>)>,
)
    requires
        selection.start < selection.end,
    ensures
        deleted(selection, direction, text, range, pieces) == Some(
            (selection.start as int, selection.end as int),
        ),
{
}

/// At either end of every piece there is something to delete: the piece itself,
/// forward from where it begins and backward from where it ends.
pub proof fn law_every_piece_can_be_deleted(
    text: Seq<char>,
    range: Range<usize>,
    pieces: Seq<(usize, Seq<char>)>,
    i: int,
    start: usize,
    end: usize,
)
    requires
        cuts(pieces, text),
        range.start <= range.end,
        utf16_length(text) == range.end - range.start,
        0 <= i < pieces.len(),
        start == range.start + utf16_length(joined(pieces, i)),
        end == start + utf16_length(pieces[i].1),
    ensures
        start < end,
        deleted(Range { start, end: start }, DeleteDirection::Forward, text, range, pieces)
            == Some((start as int, end as int)),
        deleted(Range { start: end, end }, DeleteDirection::Backward, text, range, pieces)
            == Some((start as int, end as int)),
{
    let n = pieces.len() as int;
    lemma_utf16_concat(joined(pieces, i), pieces[i].1);
    lemma_joined_grows(pieces, text, i, i + 1);
    if i + 1 < n {
        lemma_joined_grows(pieces, text, i + 1, n);
    }
    assert(piece_start(pieces, i) == start - range.start);
    assert(piece_start(pieces, i + 1) == end - range.start);
    lemma_boundary_unique(pieces, text, i);
    lemma_boundary_unique(pieces, text, i + 1);
}

/// Nothing is deleted at a caret if the text is not as long as its range, if the
/// caret is outside of the range, if it is not between two pieces, or if there is
/// no piece on its side.
pub proof fn law_deletion_needs_a_piece(
    caret: Range<usize>,
    direction: DeleteDirection,
    text: Seq<char>,
    range: Range<usize>,
    pieces: Seq<(usize, Seq<char>)>,
)
    requires
        cuts(pieces, text),
        caret.start >= caret.end,
        ({
            ||| utf16_length(text) != range.end - range.start
            ||| caret.start < range.start
            ||| caret.start > range.end
            ||| direction is Backward && caret.start == range.start
            ||| direction is Forward && caret.start == range.end
            ||| forall|i: int|
                0 <= i <= pieces.len() ==> caret.start != range.start + utf16_length(
                    #[trigger] joined(pieces, i),
                )
        }),
    ensures
        deleted(caret, direction, text, range, pieces) is None,
{
    let offset = caret.start - range.start;
    let n = pieces.len() as int;
    assert forall|i: int| 0 < i <= n implies #[trigger] piece_start(pieces, i) > 0 by {
        lemma_joined_grows(pieces, text, 0, i);
    }
    assert forall|i: int| 0 <= i < n implies #[trigger] piece_start(pieces, i) < utf16_length(
        text,
    ) by {
        lemma_joined_grows(pieces, text, i, n);
    }
    if exists|i: int| 0 <= i <= n && #[trigger] piece_start(pieces, i) == offset {
        let i = choose|i: int| 0 <= i <= n && #[trigger] piece_start(pieces, i) == offset;
        assert(range.start + utf16_length(joined(pieces, i)) == caret.start);
    }
}

/// The length of a text in UTF-16 is that of its parts together. A character
/// counts twice just if it is beyond the first 65536.
pub proof fn law_utf16_length(a: Seq<char>, b: Seq<char>, c: char)
    ensures
        utf16_length(a + b) == utf16_length(a) + utf16_length(b),
        utf16_length(seq![c]) == if c as u32 >= 0x1_0000 {
            2nat
        } else {
            1nat
        },
        utf16_length(Seq::<char>::empty()) == 0,
{
    lemma_utf16_concat(a, b);
    lemma_push(Seq::empty(), c);
    assert(Seq::<char>::empty().push(c) =~= seq![c]);
}

} // verus!
