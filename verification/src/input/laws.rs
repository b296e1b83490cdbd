//! What holds of every input across its operations.
use std::ops::Range;

use vstd::prelude::*;

use super::state::InputView;
use super::text::{
    byte_len, byte_range, grapheme_starts, is_boundary, lemma_boundary_ends, lemma_floor_boundary, lemma_next_start,
    lemma_prefix_bytes, lemma_range_between_boundaries, normalize_char, replace_bytes, segment_starts, spec_next_start,
};
use super::InputContentType;

verus! {

/// Nothing is kept for undo or redo, and no composition is pending.
pub open spec fn keeps_no_history(v: InputView) -> bool {
    v.undo.len() == 0 && v.redo.len() == 0 && v.composition is None
}

/// `s` holds no line break, tab or line/paragraph separator.
pub open spec fn single_line(s: Seq<char>) -> bool {
    forall|i: int| 0 <= i < s.len() ==> normalize_char(#[trigger] s[i]) == s[i]
}

/// A secret input (masked, password or new password) never keeps its contents
/// for undo or redo, whatever is edited; it ignores undo and redo, and refuses
/// copy and cut.
pub proof fn lemma_secret_input_keeps_no_history(
    v: InputView,
    range: Option<Range<usize>>,
    text: Seq<char>,
    selected: Option<Range<usize>>,
)
    requires
        v.is_secret(),
        keeps_no_history(v),
    ensures
        keeps_no_history(v.replace_text_in_range(range, text)),
        keeps_no_history(v.replace_and_mark_text_in_range(range, text, selected)),
        keeps_no_history(v.backspace()),
        keeps_no_history(v.delete()),
        keeps_no_history(v.cut()),
        keeps_no_history(v.set_value(text)),
        v.undo() == v,
        v.redo() == v,
        v.copy_refused(),
        v.cut() == v,
{
    let d = v.move_to(v.previous_boundary(), true);
    let e = v.move_to(v.next_boundary(), true);
    assert(keeps_no_history(d));
    assert(keeps_no_history(e));
}

/// Making an input secret forgets what it kept for undo and redo.
pub proof fn lemma_becoming_secret_forgets_history(v: InputView, disabled: bool, content_type: InputContentType)
    requires
        content_type != InputContentType::Text,
        v.content_type != content_type,
    ensures
        keeps_no_history(v.configure(disabled, content_type)),
        v.configure(disabled, content_type).is_secret(),
{
}

/// A disabled input takes no edit: typing, composing, deleting, cutting, undo
/// and redo leave it as it is, and Enter is not reported.
pub proof fn lemma_disabled_input_rejects_edits(
    v: InputView,
    range: Option<Range<usize>>,
    text: Seq<char>,
    selected: Option<Range<usize>>,
)
    requires
        v.disabled,
    ensures
        v.replace_text_in_range(range, text) == v,
        v.replace_and_mark_text_in_range(range, text, selected) == v,
        v.backspace() == v,
        v.delete() == v,
        v.cut() == v,
        v.undo() == v,
        v.redo() == v,
        v.enter(false, false) == v,
        v.enter(true, false) == v,
{
}

/// Disabling an input stops its cursor from blinking and ends a selection drag.
pub proof fn lemma_disabling_stops_blinking(v: InputView, content_type: InputContentType)
    requires
        !v.disabled,
    ensures
        !v.configure(true, content_type).blink_task,
        !v.configure(true, content_type).cursor_visible,
        !v.configure(true, content_type).selecting,
        v.configure(true, content_type).disabled,
{
}

/// An edit that changes the value of an enabled, non-secret input outside a
/// composition can be undone, which gives back the value and selection from
/// before it, and redone, which gives back the edited value.
pub proof fn lemma_undo_redo_edit(v: InputView, range: Option<Range<usize>>, text: Seq<char>)
    requires
        !v.disabled,
        !v.is_secret(),
        v.composition is None,
        v.marked is None,
        byte_range(
            v.value,
            v.replacement_range(range).start as int,
            v.replacement_range(range).end as int,
        ) != text.map_values(|c: char| normalize_char(c)),
    ensures
        v.replace_text_in_range(range, text).undo().value == v.value,
        v.replace_text_in_range(range, text).undo().selection == v.selection,
        v.replace_text_in_range(range, text).undo().reversed == v.reversed,
        v.replace_text_in_range(range, text).undo().redo().value == v.replace_text_in_range(range, text).value,
{
    let w = v.replace_text_in_range(range, text);
    let a = v.push_undo(v.snapshot());
    assert(a.undo.last() == v.snapshot());
    assert(w.undo == a.undo);
    assert(w.composition is None);
    assert(w.marked is None);
    let u = w.undo();
    let t = w.finish_composition();
    assert(t.undo == w.undo);
    assert(t.snapshot().value == w.value);
    assert(u.redo.last() == t.snapshot());
    assert(u.composition is None);
}

/// A boundary lies within the text.
proof fn lemma_boundary_within(s: Seq<char>, b: int)
    requires
        is_boundary(s, b),
    ensures
        0 <= b <= byte_len(s),
{
    let k = choose|k: int| 0 <= k <= s.len() && #[trigger] byte_len(s.take(k)) == b;
    lemma_prefix_bytes(s, k, s.len() as int);
}

/// The right arrow collapses the selection and keeps the value. From a cursor
/// before the end it moves forward to the next grapheme boundary: past the
/// cursor, with no grapheme start skipped. A selection collapses at its end (or,
/// when that end falls inside a grapheme, at the boundary before it).
pub proof fn lemma_right_moves_to_next_grapheme(v: InputView)
    requires
        v.wf(),
        segment_starts(v.value, grapheme_starts(v.value)),
        byte_len(v.value) <= usize::MAX,
    ensures
        v.right().value == v.value,
        v.right().selection.start == v.right().selection.end,
        v.selection_empty() && v.cursor() < byte_len(v.value) ==> {
            &&& v.cursor() < v.right().cursor() <= byte_len(v.value)
            &&& forall|k: int|
                0 <= k < grapheme_starts(v.value).len() && #[trigger] grapheme_starts(v.value)[k] > v.cursor()
                    ==> grapheme_starts(v.value)[k] >= v.right().cursor()
        },
        !v.selection_empty() ==> v.right().cursor() <= v.selection.end,
        !v.selection_empty() && (v.selection.end == byte_len(v.value) || exists|k: int|
            0 <= k < grapheme_starts(v.value).len() && grapheme_starts(v.value)[k] == v.selection.end)
            ==> v.right().cursor() == v.selection.end,
{
    let starts = grapheme_starts(v.value);
    let len = byte_len(v.value) as int;
    lemma_boundary_within(v.value, v.selection.end as int);
    if v.selection_empty() {
        let c = v.cursor();
        if c < len {
            lemma_next_start(starts, c, len);
            let n = spec_next_start(starts, c, len);
            lemma_floor_boundary(v.value, n);
        }
    } else {
        lemma_floor_boundary(v.value, v.selection.end as int);
    }
}

/// Delete, on an enabled input with the cursor before the end and nothing
/// selected, removes exactly the grapheme after the cursor (the characters up
/// to the next grapheme boundary) and leaves the cursor where it was.
pub proof fn lemma_delete_removes_next_grapheme(v: InputView)
    requires
        v.wf(),
        segment_starts(v.value, grapheme_starts(v.value)),
        byte_len(v.value) <= usize::MAX,
        !v.disabled,
        v.selection_empty(),
        v.cursor() < byte_len(v.value),
    ensures
        ({
            let c = v.cursor();
            let n = spec_next_start(grapheme_starts(v.value), c, byte_len(v.value) as int);
            &&& c < n <= byte_len(v.value)
            &&& forall|k: int|
                0 <= k < grapheme_starts(v.value).len() && #[trigger] grapheme_starts(v.value)[k] > c
                    ==> grapheme_starts(v.value)[k] >= n
            &&& v.delete().value == replace_bytes(v.value, c, n, Seq::empty())
            &&& v.delete().selection == (Range { start: c as usize, end: c as usize })
        }),
{
    let starts = grapheme_starts(v.value);
    let len = byte_len(v.value) as int;
    let c = v.cursor();
    lemma_next_start(starts, c, len);
    let n = spec_next_start(starts, c, len);
    lemma_floor_boundary(v.value, n);
    lemma_boundary_ends(v.value);
    if n != len {
        let k = choose|k: int| 0 <= k < starts.len() && starts[k] == n;
        assert(is_boundary(v.value, starts[k] as int));
    }
    lemma_range_between_boundaries(v.value, c, n);
    let t = v.move_to(n, true);
    assert(t.selection == (Range { start: c as usize, end: n as usize }));
    assert(t.marked is None);
    assert(t.value == v.value);
    assert(byte_range(v.value, c, n) != Seq::<char>::empty().map_values(|ch: char| normalize_char(ch)));
}

/// A typed or pasted text, a backspace, a delete or a cut that changes the value
/// of an enabled, non-secret input outside a composition is one undo step: undo
/// gives back the value from before it, and redo gives back the edited value.
pub proof fn lemma_undo_redo_each_edit(v: InputView, text: Seq<char>)
    requires
        !v.disabled,
        !v.is_secret(),
        v.composition is None,
        v.marked is None,
    ensures
        v.replace_text_in_range(None, text).value != v.value ==> {
            &&& v.replace_text_in_range(None, text).undo().value == v.value
            &&& v.replace_text_in_range(None, text).undo().redo().value == v.replace_text_in_range(None, text).value
        },
        v.backspace().value != v.value ==> {
            &&& v.backspace().undo().value == v.value
            &&& v.backspace().undo().redo().value == v.backspace().value
        },
        v.delete().value != v.value ==> {
            &&& v.delete().undo().value == v.value
            &&& v.delete().undo().redo().value == v.delete().value
        },
        v.cut().value != v.value ==> {
            &&& v.cut().undo().value == v.value
            &&& v.cut().undo().redo().value == v.cut().value
        },
{
    lemma_edit_of(v, text);
    lemma_edit_of(v, Seq::empty());
    let b = v.move_to(v.previous_boundary(), true);
    lemma_edit_of(b, Seq::empty());
    let d = v.move_to(v.next_boundary(), true);
    lemma_edit_of(d, Seq::empty());
}

/// Replacing the target range of `v` with `text`, when it changes the value, is
/// undone and redone as one step.
proof fn lemma_edit_of(v: InputView, text: Seq<char>)
    requires
        !v.disabled,
        !v.is_secret(),
        v.composition is None,
        v.marked is None,
    ensures
        v.replace_text_in_range(None, text).value != v.value ==> {
            &&& v.replace_text_in_range(None, text).undo().value == v.value
            &&& v.replace_text_in_range(None, text).undo().redo().value == v.replace_text_in_range(None, text).value
        },
{
    if v.replace_text_in_range(None, text).value != v.value {
        lemma_undo_redo_edit(v, None, text);
    }
}

/// The value of an input stays on one line: setting it, typing and composing
/// turn line breaks and tabs into spaces.
pub proof fn lemma_value_stays_single_line(
    v: InputView,
    range: Option<Range<usize>>,
    text: Seq<char>,
    selected: Option<Range<usize>>,
)
    requires
        single_line(v.value),
    ensures
        single_line(v.set_value(text).value),
        single_line(v.replace_text_in_range(range, text).value),
        single_line(v.replace_and_mark_text_in_range(range, text, selected).value),
{
    let t = text.map_values(|c: char| normalize_char(c));
    assert(single_line(t));
    let r = v.replacement_range(range);
    let s = v.value;
    let new_value = replace_bytes(s, r.start as int, r.end as int, t);
    assert(single_line(new_value)) by {
        super::text::lemma_chars_before_byte_push(s, ' ', r.start as int);
        super::text::lemma_chars_before_byte_push(s, ' ', r.end as int);
        let a = s.take(super::text::chars_before_byte(s, r.start as int) as int);
        let b = s.skip(super::text::chars_before_byte(s, r.end as int) as int);
        assert forall|i: int| 0 <= i < a.len() implies normalize_char(#[trigger] a[i]) == a[i] by {
            assert(a[i] == s[i]);
        }
        assert forall|i: int| 0 <= i < b.len() implies normalize_char(#[trigger] b[i]) == b[i] by {
            assert(b[i] == s[i + super::text::chars_before_byte(s, r.end as int)]);
        }
        assert forall|i: int| 0 <= i < new_value.len() implies normalize_char(#[trigger] new_value[i]) == new_value[i] by {
            if i < a.len() {
                assert(new_value[i] == a[i]);
            } else if i < a.len() + t.len() {
                assert(new_value[i] == t[i - a.len()]);
            } else {
                assert(new_value[i] == b[i - a.len() - t.len()]);
            }
        }
    }
}

/// A composition is one undo step: after text is composed and then committed,
/// one undo gives back the value from before the composition began (unless the
/// committed value is that value already).
pub proof fn lemma_composition_is_one_undo_step(
    v: InputView,
    range: Option<Range<usize>>,
    text: Seq<char>,
    selected: Option<Range<usize>>,
    committed: Seq<char>,
)
    requires
        !v.disabled,
        !v.is_secret(),
        v.composition is None,
        text.len() > 0,
        v.replace_and_mark_text_in_range(range, text, selected).replace_text_in_range(None, committed).value
            != v.value,
    ensures
        v.replace_and_mark_text_in_range(range, text, selected).replace_text_in_range(None, committed).undo().value
            == v.value,
{
    let w = v.replace_and_mark_text_in_range(range, text, selected);
    let t = text.map_values(|c: char| normalize_char(c));
    assert(t.len() == text.len());
    assert(w.composition == Some(v.snapshot()));
    assert(w.marked is Some);
    let x = w.replace_text_in_range(None, committed);
    assert(x.undo.last() == v.snapshot());
    assert(x.composition is None);
}

} // verus!
