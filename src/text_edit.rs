//! Caret editing of a text buffer whose cursor is a byte index.
use vstd::prelude::*;
use vstd::utf8::*;
use crate::text_index::{
    byte_len, char_width, lemma_encode_concat, lemma_encode_single, lemma_prefix_len_step,
    lemma_prefix_len_zero, lemma_char_width_bounds, lemma_boundary_iff_prefix, lemma_prefix_len_full, lemma_prefix_len_mono, lemma_prefix_len_injective,
    lemma_prefix_len_strict, on_boundary, prefix_len,
};

verus! {

/// Backspace as delivered by character input.
pub const BACKSPACE: char = '\u{8}';

/// Delete-forward as delivered by character input.
pub const DELETE: char = '\u{7f}';

/// Return as delivered by character input.
pub const RETURN: char = '\r';

/// Characters of the Unicode general category `Cc`.
pub open spec fn is_control_spec(c: char) -> bool {
    (c as u32) <= 0x1f || (0x7f <= (c as u32) && (c as u32) <= 0x9f)
}

/// The buffer after putting `c` before the `k`-th character.
pub open spec fn inserted(s: Seq<char>, k: int, c: char) -> Seq<char> {
    s.take(k).push(c) + s.skip(k)
}

/// The buffer without its `k`-th character.
pub open spec fn removed(s: Seq<char>, k: int) -> Seq<char> {
    s.take(k) + s.skip(k + 1)
}

/// Relies on `String::insert`: `c` is spliced in at byte position `idx`,
/// which must lie on a character boundary.
#[verifier::external_body]
fn string_insert(s: &mut String, idx: usize, c: char)
    requires
        on_boundary(old(s)@, idx as int),
        byte_len(old(s)@) + 4 <= isize::MAX,
    ensures
        forall|k: int|
            0 <= k <= old(s)@.len() && #[trigger] prefix_len(old(s)@, k) == idx ==> final(s)@ == inserted(
                old(s)@,
                k,
                c,
            ),
{
    s.insert(idx, c)
}

/// Relies on `String::remove`: the character that starts at byte position
/// `idx` is taken out and returned.
#[verifier::external_body]
fn string_remove(s: &mut String, idx: usize) -> (r: char)
    requires
        on_boundary(old(s)@, idx as int),
        idx < byte_len(old(s)@),
    ensures
        forall|k: int|
            0 <= k < old(s)@.len() && #[trigger] prefix_len(old(s)@, k) == idx ==> final(s)@ == removed(
                old(s)@,
                k,
            ) && r == old(s)@[k],
{
    s.remove(idx)
}

/// Whether `c` is a control character.
pub fn is_control(c: char) -> (r: bool)
    ensures
        r == is_control_spec(c),
{
    let v = c as u32;
    v <= 0x1f || (0x7f <= v && v <= 0x9f)
}

/// Number of bytes in the UTF-8 encoding of `c`.
pub fn utf8_width(c: char) -> (r: usize)
    ensures
        r == char_width(c),
        1 <= r <= 4,
{
    proof {
        char_is_scalar(c);
    }
    let v = c as u32;
    if v <= 0x7f {
        1
    } else if v <= 0x7ff {
        2
    } else if v <= 0xffff {
        3
    } else {
        4
    }
}

/// Length of the buffer in bytes.
pub fn text_len(s: &String) -> (r: usize)
    ensures
        r == byte_len(s@),
{
    s.as_str().as_bytes().len()
}

/// Moves the cursor one character to the left; at the start it stays.
pub fn move_left(string: &String, index: &mut usize)
    ensures
        *old(index) == 0 ==> *final(index) == 0,
        *old(index) > 0 ==> {
            &&& *final(index) < *old(index)
            &&& on_boundary(string@, *final(index) as int)
            &&& forall|j: int| *final(index) < j < *old(index) ==> !on_boundary(string@, j)
        },
        forall|k: int|
            0 < k <= string@.len() && #[trigger] prefix_len(string@, k) == *old(index) ==> *final(index)
                == prefix_len(string@, k - 1),
{
    let ghost start = *index;
    proof {
        encode_utf8_valid_utf8(string@);
        is_char_boundary_start_end_of_seq(encode_utf8(string@));
    }
    loop
        invariant_except_break
            forall|j: int| *index <= j < start ==> !on_boundary(string@, j),
        invariant
            *index <= start,
            start == *old(index),
            on_boundary(string@, 0),
        ensures
            start == 0 ==> *index == 0,
            start > 0 ==> *index < start && on_boundary(string@, *index as int),
            forall|j: int| *index < j < start ==> !on_boundary(string@, j),
        decreases *index,
    {
        if *index == 0 {
            break;
        }
        *index -= 1;
        if string.as_str().is_char_boundary(*index) {
            break;
        }
    }
    proof {
        assert forall|k: int|
            0 < k <= string@.len() && #[trigger] prefix_len(string@, k) == start implies *index
            == prefix_len(string@, k - 1) by {
            let r = *index as int;
            lemma_prefix_len_strict(string@, k - 1, k);
            lemma_boundary_iff_prefix(string@, prefix_len(string@, k - 1) as int);
            lemma_boundary_iff_prefix(string@, r);
            let m = choose|m: int| 0 <= m <= string@.len() && #[trigger] prefix_len(string@, m) == r;
            if m >= k {
                lemma_prefix_len_mono(string@, k, m);
            }
            lemma_prefix_len_mono(string@, m, k - 1);
        }
    }
}

/// Moves the cursor one character to the right; at the end it stays.
pub fn move_right(string: &String, index: &mut usize)
    requires
        *old(index) <= byte_len(string@),
    ensures
        *old(index) == byte_len(string@) ==> *final(index) == *old(index),
        *old(index) < byte_len(string@) ==> {
            &&& *old(index) < *final(index) <= byte_len(string@)
            &&& on_boundary(string@, *final(index) as int)
            &&& forall|j: int| *old(index) < j < *final(index) ==> !on_boundary(string@, j)
        },
        forall|k: int|
            0 <= k < string@.len() && #[trigger] prefix_len(string@, k) == *old(index) ==> *final(index)
                == prefix_len(string@, k + 1),
{
    let ghost start = *index;
    let len = text_len(string);
    proof {
        encode_utf8_valid_utf8(string@);
        is_char_boundary_start_end_of_seq(encode_utf8(string@));
    }
    loop
        invariant_except_break
            forall|j: int| start < j <= *index ==> !on_boundary(string@, j),
        invariant
            start <= *index <= len,
            len == byte_len(string@),
            start == *old(index),
            on_boundary(string@, len as int),
        ensures
            start == len ==> *index == start,
            start < len ==> start < *index && on_boundary(string@, *index as int),
            forall|j: int| start < j < *index ==> !on_boundary(string@, j),
            *index <= len,
        decreases len - *index,
    {
        if *index == len {
            break;
        }
        *index += 1;
        if string.as_str().is_char_boundary(*index) {
            break;
        }
    }
    proof {
        assert forall|k: int|
            0 <= k < string@.len() && #[trigger] prefix_len(string@, k) == start implies *index
            == prefix_len(string@, k + 1) by {
            let r = *index as int;
            lemma_prefix_len_strict(string@, k, k + 1);
            lemma_prefix_len_mono(string@, k + 1, string@.len() as int);
            lemma_prefix_len_full(string@);
            lemma_boundary_iff_prefix(string@, prefix_len(string@, k + 1) as int);
            lemma_boundary_iff_prefix(string@, r);
            let m = choose|m: int| 0 <= m <= string@.len() && #[trigger] prefix_len(string@, m) == r;
            if m <= k {
                lemma_prefix_len_mono(string@, m, k);
            }
            lemma_prefix_len_mono(string@, k + 1, m);
        }
    }
}

/// Byte lengths of the pieces that an insertion and a removal produce.
pub proof fn lemma_edit_lengths(s: Seq<char>, k: int, c: char)
    requires
        0 <= k <= s.len(),
    ensures
        byte_len(inserted(s, k, c)) == byte_len(s) + char_width(c),
        prefix_len(inserted(s, k, c), k) == prefix_len(s, k),
        prefix_len(inserted(s, k, c), k + 1) == prefix_len(s, k) + char_width(c),
        k < s.len() ==> byte_len(removed(s, k)) + char_width(s[k]) == byte_len(s),
        k < s.len() ==> prefix_len(removed(s, k), k) == prefix_len(s, k),
{
    let t = inserted(s, k, c);
    assert(s =~= s.take(k) + s.skip(k));
    assert(t =~= (s.take(k) + seq![c]) + s.skip(k));
    lemma_encode_concat(s.take(k), s.skip(k));
    lemma_encode_concat(s.take(k) + seq![c], s.skip(k));
    lemma_encode_concat(s.take(k), seq![c]);
    lemma_encode_single(c);
    assert(t.take(k) =~= s.take(k));
    assert(t.take(k + 1) =~= s.take(k) + seq![c]);
    if k < s.len() {
        let r = removed(s, k);
        assert(s.skip(k) =~= seq![s[k]] + s.skip(k + 1));
        lemma_encode_concat(seq![s[k]], s.skip(k + 1));
        lemma_encode_single(s[k]);
        lemma_encode_concat(s.take(k), s.skip(k + 1));
        assert(r.take(k) =~= s.take(k));
    }
}

/// Inserting a character and then erasing the character before the cursor
/// gives back the buffer and the cursor position that were there before.
pub proof fn lemma_insert_then_backspace(s: Seq<char>, k: int, c: char)
    requires
        0 <= k <= s.len(),
    ensures
        removed(inserted(s, k, c), k) == s,
        prefix_len(inserted(s, k, c), k) == prefix_len(s, k),
        prefix_len(inserted(s, k, c), k + 1) == prefix_len(s, k) + char_width(c),
{
    assert(removed(inserted(s, k, c), k) =~= s);
    lemma_edit_lengths(s, k, c);
}

/// Puts `c` at the cursor and moves the cursor past it.
pub fn insert_char(string: &mut String, index: &mut usize, c: char)
    requires
        on_boundary(old(string)@, *old(index) as int),
        byte_len(old(string)@) + 4 <= isize::MAX,
    ensures
        on_boundary(final(string)@, *final(index) as int),
        byte_len(final(string)@) == byte_len(old(string)@) + char_width(c),
        forall|k: int|
            0 <= k <= old(string)@.len() && #[trigger] prefix_len(old(string)@, k) == *old(index)
                ==> final(string)@ == inserted(old(string)@, k, c) && *final(index) == prefix_len(
                final(string)@,
                k + 1,
            ),
{
    let ghost s = string@;
    proof {
        lemma_boundary_iff_prefix(s, *index as int);
    }
    let ghost k = choose|k: int| 0 <= k <= s.len() && #[trigger] prefix_len(s, k) == *index;
    proof {
        lemma_edit_lengths(s, k, c);
        lemma_prefix_len_mono(s, k, s.len() as int);
        lemma_prefix_len_full(s);
    }
    string_insert(string, *index, c);
    let w = utf8_width(c);
    *index = *index + w;
    proof {
        assert forall|j: int|
            0 <= j <= s.len() && #[trigger] prefix_len(s, j) == *old(index) implies j == k by {
            lemma_prefix_len_injective(s, j, k);
        }
        lemma_boundary_iff_prefix(string@, *index as int);
        assert(prefix_len(string@, k + 1) == *index);
    }
}

/// Removes the character at the cursor, if there is one; the cursor stays.
pub fn remove_char(string: &mut String, index: &mut usize)
    requires
        on_boundary(old(string)@, *old(index) as int),
    ensures
        *final(index) == *old(index),
        on_boundary(final(string)@, *final(index) as int),
        *old(index) >= byte_len(old(string)@) ==> final(string)@ == old(string)@,
        forall|k: int|
            0 <= k < old(string)@.len() && #[trigger] prefix_len(old(string)@, k) == *old(index)
                ==> final(string)@ == removed(old(string)@, k),
{
    let ghost s = string@;
    proof {
        lemma_boundary_iff_prefix(s, *index as int);
    }
    let ghost k = choose|k: int| 0 <= k <= s.len() && #[trigger] prefix_len(s, k) == *index;
    if *index < text_len(string) {
        proof {
            lemma_prefix_len_full(s);
            assert(k != s.len());
            lemma_edit_lengths(s, k, ' ');
        }
        string_remove(string, *index);
        proof {
            assert forall|j: int|
                0 <= j < s.len() && #[trigger] prefix_len(s, j) == *old(index) implies j == k by {
                lemma_prefix_len_injective(s, j, k);
            }
            assert(string@.len() == s.len() - 1);
            lemma_boundary_iff_prefix(string@, *index as int);
        }
    } else {
        proof {
            lemma_prefix_len_full(s);
            assert forall|j: int| 0 <= j < s.len() implies #[trigger] prefix_len(s, j)
                != *old(index) by {
                lemma_prefix_len_strict(s, j, s.len() as int);
            }
        }
    }
}

/// Erases the character before the cursor and moves the cursor onto its place.
pub fn backspace(string: &mut String, index: &mut usize)
    requires
        on_boundary(old(string)@, *old(index) as int),
    ensures
        *old(index) == 0 ==> final(string)@ == old(string)@ && *final(index) == 0,
        on_boundary(final(string)@, *final(index) as int),
        forall|k: int|
            0 < k <= old(string)@.len() && #[trigger] prefix_len(old(string)@, k) == *old(index)
                ==> final(string)@ == removed(old(string)@, k - 1) && *final(index) == prefix_len(
                old(string)@,
                k - 1,
            ),
{
    let ghost s = string@;
    if *index == 0 {
        return;
    }
    move_left(string, index);
    proof {
        encode_utf8_valid_utf8(s);
        is_char_boundary_start_end_of_seq(encode_utf8(s));
    }
    remove_char(string, index);
}

/// Buffer and cursor position (counted in characters) after one received character.
pub open spec fn edit_char(text: Seq<char>, pos: int, c: char) -> (Seq<char>, int) {
    if !is_control_spec(c) {
        (inserted(text, pos, c), pos + 1)
    } else if c == BACKSPACE {
        if pos == 0 {
            (text, pos)
        } else {
            (removed(text, pos - 1), pos - 1)
        }
    } else if c == DELETE {
        if pos < text.len() {
            (removed(text, pos), pos)
        } else {
            (text, pos)
        }
    } else {
        (text, pos)
    }
}

/// Buffer and cursor position after the received characters `cs`, in order.
pub open spec fn edit_chars(text: Seq<char>, pos: int, cs: Seq<char>) -> (Seq<char>, int)
    decreases cs.len(),
{
    if cs.len() == 0 {
        (text, pos)
    } else {
        let prev = edit_chars(text, pos, cs.drop_last());
        edit_char(prev.0, prev.1, cs.last())
    }
}

/// The texts submitted while the characters `cs` are received, in order.
pub open spec fn submissions(text: Seq<char>, pos: int, cs: Seq<char>) -> Seq<Seq<char>>
    decreases cs.len(),
{
    if cs.len() == 0 {
        seq![]
    } else {
        let prev = submissions(text, pos, cs.drop_last());
        if cs.last() == RETURN {
            prev.push(edit_chars(text, pos, cs.drop_last()).0)
        } else {
            prev
        }
    }
}

/// Cursor position (in characters) after the arrow keys of one frame.
pub open spec fn arrow_moved(text: Seq<char>, pos: int, left: bool, right: bool) -> int {
    if left {
        if pos == 0 {
            0
        } else {
            pos - 1
        }
    } else if right {
        if pos == text.len() {
            pos
        } else {
            pos + 1
        }
    } else {
        pos
    }
}

proof fn lemma_edit_char_pos(text: Seq<char>, pos: int, c: char)
    requires
        0 <= pos <= text.len(),
    ensures
        0 <= edit_char(text, pos, c).1 <= edit_char(text, pos, c).0.len(),
{
}

/// The texts kept by a list of strings.
pub open spec fn texts_of(v: Seq<String>) -> Seq<Seq<char>> {
    v.map_values(|x: String| x@)
}

/// Applies one received character: printable characters are inserted,
/// backspace and delete erase, return submits the buffer as it stands.
pub fn apply_char(string: &mut String, index: &mut usize, c: char) -> (submitted: Option<String>)
    requires
        on_boundary(old(string)@, *old(index) as int),
        byte_len(old(string)@) + 4 <= isize::MAX,
    ensures
        on_boundary(final(string)@, *final(index) as int),
        byte_len(final(string)@) <= byte_len(old(string)@) + 4,
        forall|k: int|
            0 <= k <= old(string)@.len() && #[trigger] prefix_len(old(string)@, k) == *old(index)
                ==> final(string)@ == edit_char(old(string)@, k, c).0 && *final(index)
                == prefix_len(final(string)@, edit_char(old(string)@, k, c).1),
        submitted.is_some() == (c == RETURN),
        submitted.is_some() ==> submitted.unwrap()@ == old(string)@,
{
    let ghost s = string@;
    proof {
        lemma_boundary_iff_prefix(s, *index as int);
    }
    let ghost k = choose|k: int| 0 <= k <= s.len() && #[trigger] prefix_len(s, k) == *index;
    proof {
        assert forall|j: int|
            0 <= j <= s.len() && #[trigger] prefix_len(s, j) == *old(index) implies j == k by {
            lemma_prefix_len_injective(s, j, k);
        }
        lemma_char_width_bounds(c);
    }
    if !is_control(c) {
        insert_char(string, index, c);
        None
    } else if c == BACKSPACE {
        proof {
            if k > 0 {
                lemma_edit_lengths(s, k - 1, c);
                lemma_char_width_bounds(s[k - 1]);
                assert(removed(s, k - 1).take(k - 1) =~= s.take(k - 1));
            }
        }
        backspace(string, index);
        None
    } else if c == DELETE {
        proof {
            lemma_prefix_len_full(s);
            if k < s.len() {
                lemma_edit_lengths(s, k, c);
                lemma_char_width_bounds(s[k]);
                assert(removed(s, k).take(k) =~= s.take(k));
            }
        }
        remove_char(string, index);
        None
    } else if c == RETURN {
        Some(string.clone())
    } else {
        None
    }
}

/// Handles one frame of keyboard input for a focused input box: the arrow
/// keys move the cursor, then the received characters are applied in order.
/// Returns the texts submitted during the frame.
pub fn edit_text(
    string: &mut String,
    index: &mut usize,
    left: bool,
    right: bool,
    chars: &Vec<char>,
) -> (submitted: Vec<String>)
    requires
        on_boundary(old(string)@, *old(index) as int),
        byte_len(old(string)@) + 4 * chars@.len() <= isize::MAX,
    ensures
        on_boundary(final(string)@, *final(index) as int),
        forall|k: int|
            0 <= k <= old(string)@.len() && #[trigger] prefix_len(old(string)@, k) == *old(index)
                ==> {
                let p = arrow_moved(old(string)@, k, left, right);
                let r = edit_chars(old(string)@, p, chars@);
                &&& final(string)@ == r.0
                &&& *final(index) == prefix_len(r.0, r.1)
                &&& texts_of(submitted@) == submissions(old(string)@, p, chars@)
            },
{
    let ghost s = string@;
    proof {
        lemma_boundary_iff_prefix(s, *index as int);
        lemma_prefix_len_zero(s);
        lemma_prefix_len_full(s);
        encode_utf8_valid_utf8(s);
        is_char_boundary_start_end_of_seq(encode_utf8(s));
    }
    let ghost k = choose|k: int| 0 <= k <= s.len() && #[trigger] prefix_len(s, k) == *index;
    proof {
        assert forall|j: int|
            0 <= j <= s.len() && #[trigger] prefix_len(s, j) == *old(index) implies j == k by {
            lemma_prefix_len_injective(s, j, k);
        }
        lemma_prefix_len_mono(s, k, s.len() as int);
    }
    if left {
        move_left(string, index);
    } else if right {
        move_right(string, index);
    }
    let ghost p = arrow_moved(s, k, left, right);
    proof {
        if left && k > 0 {
        } else if !left && right && k < s.len() {
        }
        lemma_boundary_iff_prefix(s, prefix_len(s, p) as int);
    }
    let ghost mut pos: int = p;
    let mut out: Vec<String> = Vec::new();
    let mut i: usize = 0;
    while i < chars.len()
        invariant
            0 <= i <= chars@.len(),
            0 <= pos <= string@.len(),
            *index == prefix_len(string@, pos),
            on_boundary(string@, *index as int),
            (string@, pos) == edit_chars(s, p, chars@.take(i as int)),
            byte_len(string@) <= byte_len(s) + 4 * i,
            byte_len(s) + 4 * chars@.len() <= isize::MAX,
            texts_of(out@) == submissions(s, p, chars@.take(i as int)),
        decreases chars@.len() - i,
    {
        let c = chars[i];
        let ghost before = string@;
        let ghost before_pos = pos;
        proof {
            assert(chars@.take(i + 1).drop_last() =~= chars@.take(i as int));
            assert(chars@.take(i + 1).last() == c);
            lemma_edit_char_pos(before, before_pos, c);
        }
        let r = apply_char(string, index, c);
        proof {
            pos = edit_char(before, before_pos, c).1;
        }
        match r {
            Some(t) => {
                out.push(t);
            },
            None => {},
        }
        proof {
            assert(texts_of(out@) =~= submissions(s, p, chars@.take(i + 1)));
        }
        i = i + 1;
    }
    proof {
        assert(chars@.take(chars@.len() as int) =~= chars@);
    }
    out
}

/// Stepping right from the start visits, one character at a time, byte
/// positions that all lie on character boundaries, strictly increasing, and
/// ends at the length of the buffer.
pub proof fn lemma_right_walk(s: Seq<char>, k: int)
    requires
        0 <= k <= s.len(),
    ensures
        on_boundary(s, prefix_len(s, k) as int),
        prefix_len(s, 0) == 0,
        prefix_len(s, s.len() as int) == byte_len(s),
        k < s.len() ==> prefix_len(s, k) < prefix_len(s, k + 1) <= byte_len(s),
{
    lemma_boundary_iff_prefix(s, prefix_len(s, k) as int);
    lemma_prefix_len_zero(s);
    lemma_prefix_len_full(s);
    if k < s.len() {
        lemma_prefix_len_strict(s, k, k + 1);
        lemma_prefix_len_mono(s, k + 1, s.len() as int);
    }
}

} // verus!
