//! Editing state of a single-line input: value, selection, IME composition and
//! undo history, as a state machine over byte offsets.
use std::collections::VecDeque;
use std::ops::Range;

use vstd::prelude::*;
use vstd::utf8::encode_utf8;

use super::text::{
    byte_len, floor_boundary, is_boundary, lemma_boundary_ends, next_grapheme_start,
    previous_grapheme_start, grapheme_starts, spec_floor_boundary, spec_next_start,
    spec_previous_start, lemma_encode_utf8_len, normalize, normalize_char, spec_from_utf16,
    spec_to_utf16, from_utf16, to_utf16, byte_range, replace_bytes, replace_range,
    byte_range_equals, lemma_from_utf16_boundary, lemma_replace_bytes, chars_before_unit,
    lemma_chars_before_unit_bound, leading_below, segment_containing, word_bound_starts, segment_starts,
};
use super::{InputContentType, InputEvent};

verus! {

/// At most this many snapshots are kept for undo.
pub const UNDO_LIMIT: usize = 100;

/// Byte length of the bullet that stands for each grapheme of a secret value.
pub const BULLET_LEN: usize = 3;

/// A value with its selection, as kept in the edit history.
pub struct EditSnapshot {
    pub value: String,
    pub selection: Range<usize>,
    pub reversed: bool,
}

/// The mathematical content of an [`EditSnapshot`].
pub struct SnapshotView {
    pub value: Seq<char>,
    pub selection: Range<usize>,
    pub reversed: bool,
}

impl View for EditSnapshot {
    type V = SnapshotView;

    open spec fn view(&self) -> SnapshotView {
        SnapshotView { value: self.value@, selection: self.selection, reversed: self.reversed }
    }
}

/// `range` runs forwards between two character boundaries of `s`.
pub open spec fn valid_range(s: Seq<char>, range: Range<usize>) -> bool {
    &&& range.start <= range.end
    &&& is_boundary(s, range.start as int)
    &&& is_boundary(s, range.end as int)
}

impl SnapshotView {
    pub open spec fn wf(self) -> bool {
        valid_range(self.value, self.selection)
    }
}

/// State of a single-line text input.
///
/// Offsets are byte offsets into `value`. `blink_task` tells whether the cursor
/// blink timer runs; `blink_restart` asks the host to (re)start that timer;
/// `layout_valid` is false when the shaped text must be laid out again; `events`
/// holds what the input has emitted and the host has not taken yet.
pub struct InputState {
    pub value: String,
    pub placeholder: String,
    pub selection: Range<usize>,
    pub reversed: bool,
    pub marked: Option<Range<usize>>,
    pub masked: bool,
    pub content_type: InputContentType,
    pub disabled: bool,
    pub selecting: bool,
    pub focused: bool,
    pub cursor_visible: bool,
    pub blink_task: bool,
    pub blink_restart: bool,
    pub undo: VecDeque<EditSnapshot>,
    pub redo: Vec<EditSnapshot>,
    pub composition: Option<EditSnapshot>,
    pub layout_valid: bool,
    pub events: Vec<InputEvent>,
}

/// The mathematical content of an [`InputState`].
pub struct InputView {
    pub value: Seq<char>,
    pub placeholder: Seq<char>,
    pub selection: Range<usize>,
    pub reversed: bool,
    pub marked: Option<Range<usize>>,
    pub masked: bool,
    pub content_type: InputContentType,
    pub disabled: bool,
    pub selecting: bool,
    pub focused: bool,
    pub cursor_visible: bool,
    pub blink_task: bool,
    pub blink_restart: bool,
    pub undo: Seq<SnapshotView>,
    pub redo: Seq<SnapshotView>,
    pub composition: Option<SnapshotView>,
    pub layout_valid: bool,
    pub events: Seq<InputEvent>,
}

pub open spec fn snapshots_view(s: Seq<EditSnapshot>) -> Seq<SnapshotView> {
    s.map_values(|e: EditSnapshot| e@)
}

pub open spec fn opt_snapshot_view(s: Option<EditSnapshot>) -> Option<SnapshotView> {
    match s {
        Some(e) => Some(e@),
        None => None,
    }
}

impl View for InputState {
    type V = InputView;

    open spec fn view(&self) -> InputView {
        InputView {
            value: self.value@,
            placeholder: self.placeholder@,
            selection: self.selection,
            reversed: self.reversed,
            marked: self.marked,
            masked: self.masked,
            content_type: self.content_type,
            disabled: self.disabled,
            selecting: self.selecting,
            focused: self.focused,
            cursor_visible: self.cursor_visible,
            blink_task: self.blink_task,
            blink_restart: self.blink_restart,
            undo: snapshots_view(self.undo@),
            redo: snapshots_view(self.redo@),
            composition: opt_snapshot_view(self.composition),
            layout_valid: self.layout_valid,
            events: self.events@,
        }
    }
}

/// Every snapshot of the history lies on boundaries of its own value, and undo and
/// redo together hold at most `UNDO_LIMIT` snapshots.
#[verifier::opaque]
pub open spec fn history_wf(
    undo: Seq<SnapshotView>,
    redo: Seq<SnapshotView>,
    composition: Option<SnapshotView>,
) -> bool {
    &&& undo.len() + redo.len() <= UNDO_LIMIT
    &&& forall|i: int| 0 <= i < undo.len() ==> (#[trigger] undo[i]).wf()
    &&& forall|i: int| 0 <= i < redo.len() ==> (#[trigger] redo[i]).wf()
    &&& (composition matches Some(c) ==> c.wf())
}

impl InputView {
    /// Offsets lie on character boundaries, of the current value and of every
    /// snapshot's own value; the undo history is bounded.
    pub open spec fn wf(self) -> bool {
        &&& valid_range(self.value, self.selection)
        &&& (self.marked matches Some(m) ==> valid_range(self.value, m))
        &&& history_wf(self.undo, self.redo, self.composition)
    }

    pub open spec fn is_secret(self) -> bool {
        self.masked || self.content_type == InputContentType::Password
            || self.content_type == InputContentType::NewPassword
    }

    pub open spec fn cursor(self) -> int {
        if self.reversed {
            self.selection.start as int
        } else {
            self.selection.end as int
        }
    }

    pub open spec fn snapshot(self) -> SnapshotView {
        SnapshotView { value: self.value, selection: self.selection, reversed: self.reversed }
    }

    pub open spec fn clear_history(self) -> InputView {
        InputView { undo: Seq::empty(), redo: Seq::empty(), composition: None, ..self }
    }

    /// Records `snapshot` for undo (dropping the oldest beyond the limit) and forgets
    /// redo; secret inputs record nothing.
    pub open spec fn push_undo(self, snapshot: SnapshotView) -> InputView {
        if self.is_secret() {
            self
        } else {
            let kept = if self.undo.len() >= UNDO_LIMIT {
                self.undo.drop_first()
            } else {
                self.undo
            };
            InputView { undo: kept.push(snapshot), redo: Seq::empty(), ..self }
        }
    }

    /// Ends an IME composition: the marked range goes, and a composition that
    /// changed the value becomes one undo step.
    pub open spec fn finish_composition(self) -> InputView {
        let unmarked = InputView { marked: None, ..self };
        match self.composition {
            Some(snapshot) => {
                let done = InputView { composition: None, ..unmarked };
                if snapshot.value != self.value {
                    done.push_undo(snapshot)
                } else {
                    done
                }
            },
            None => unmarked,
        }
    }

    /// Shows the cursor and restarts its blink timer while focused and enabled;
    /// otherwise hides it and stops the timer.
    pub open spec fn pause_blink(self) -> InputView {
        let visible = self.focused && !self.disabled;
        InputView { cursor_visible: visible, blink_task: visible, blink_restart: visible, ..self }
    }

    /// The value changed: drop the layout, restart the blink and emit `Change`.
    pub open spec fn changed(self) -> InputView {
        let paused = InputView { layout_valid: false, ..self }.pause_blink();
        InputView { events: paused.events.push(InputEvent::Change), ..paused }
    }
}

impl InputView {
    /// Moves the cursor to the grapheme boundary at or before `offset`; with `select`
    /// the selection extends from its anchor instead of collapsing.
    pub open spec fn move_to(self, offset: int, select: bool) -> InputView {
        let t = self.finish_composition();
        let off = spec_floor_boundary(t.value, offset);
        let anchor = if !select {
            off
        } else if t.reversed {
            t.selection.end as int
        } else {
            t.selection.start as int
        };
        let lo = if anchor <= off { anchor } else { off };
        let hi = if anchor <= off { off } else { anchor };
        InputView {
            selection: Range { start: lo as usize, end: hi as usize },
            reversed: off < anchor,
            ..t
        }.pause_blink()
    }

    pub open spec fn previous_boundary(self) -> int {
        spec_previous_start(grapheme_starts(self.value), self.cursor())
    }

    pub open spec fn next_boundary(self) -> int {
        spec_next_start(grapheme_starts(self.value), self.cursor(), byte_len(self.value) as int)
    }

    pub open spec fn selection_empty(self) -> bool {
        self.selection.start == self.selection.end
    }

    pub open spec fn left(self) -> InputView {
        let offset = if self.selection_empty() {
            self.previous_boundary()
        } else {
            self.selection.start as int
        };
        self.move_to(offset, false)
    }

    pub open spec fn right(self) -> InputView {
        let offset = if self.selection_empty() {
            self.next_boundary()
        } else {
            self.selection.end as int
        };
        self.move_to(offset, false)
    }

    pub open spec fn select_all(self) -> InputView {
        let t = self.move_to(0, false);
        t.move_to(byte_len(t.value) as int, true)
    }
}

impl InputView {
    /// Replaces the value (normalized to one line), puts the cursor at its end and
    /// forgets history; setting the same value changes nothing.
    pub open spec fn set_value(self, value: Seq<char>) -> InputView {
        let v = value.map_values(|c: char| normalize_char(c));
        if v == self.value {
            self
        } else {
            let len = byte_len(v) as usize;
            InputView {
                value: v,
                selection: Range { start: len, end: len },
                reversed: false,
                marked: None,
                ..self
            }.clear_history().changed()
        }
    }

    /// Applies the widget's settings: a change of content type to a secret one
    /// forgets history; disabling stops the cursor and selecting, enabling a focused
    /// input restarts the blink.
    pub open spec fn configure(self, disabled: bool, content_type: InputContentType) -> InputView {
        self.with_content_type(content_type).with_disabled(disabled)
    }

    pub open spec fn with_content_type(self, content_type: InputContentType) -> InputView {
        if self.content_type != content_type {
            let t = InputView { content_type, ..self };
            if t.is_secret() {
                t.clear_history()
            } else {
                t
            }
        } else {
            self
        }
    }

    pub open spec fn with_disabled(self, disabled: bool) -> InputView {
        if self.disabled != disabled {
            let b = InputView { disabled, ..self };
            if disabled {
                InputView {
                    blink_task: false,
                    blink_restart: false,
                    selecting: false,
                    cursor_visible: false,
                    ..b
                }
            } else if b.focused {
                b.pause_blink()
            } else {
                b
            }
        } else {
            self
        }
    }

    pub open spec fn handle_focus(self) -> InputView {
        let t = InputView { focused: true, ..self }.pause_blink();
        InputView { events: t.events.push(InputEvent::Focus), ..t }
    }

    pub open spec fn handle_blur(self) -> InputView {
        let t = InputView {
            focused: false,
            selecting: false,
            blink_task: false,
            blink_restart: false,
            cursor_visible: false,
            ..self
        }.finish_composition();
        InputView { events: t.events.push(InputEvent::Blur), ..t }
    }

    pub open spec fn restore(self, snapshot: SnapshotView) -> InputView {
        InputView {
            value: snapshot.value,
            selection: snapshot.selection,
            reversed: snapshot.reversed,
            ..self
        }.changed()
    }

    /// Steps back through the history; disabled and secret inputs ignore it.
    pub open spec fn undo(self) -> InputView {
        if self.disabled || self.is_secret() {
            self
        } else {
            let t = self.finish_composition();
            if t.undo.len() == 0 {
                t
            } else {
                InputView {
                    undo: t.undo.drop_last(),
                    redo: t.redo.push(t.snapshot()),
                    ..t
                }.restore(t.undo.last())
            }
        }
    }

    /// Steps forward again through what undo took back.
    pub open spec fn redo(self) -> InputView {
        if self.disabled || self.is_secret() {
            self
        } else {
            let t = self.finish_composition();
            if t.redo.len() == 0 {
                t
            } else {
                InputView {
                    redo: t.redo.drop_last(),
                    undo: t.undo.push(t.snapshot()),
                    ..t
                }.restore(t.redo.last())
            }
        }
    }

    /// Enter is reported unless the input is disabled or composing.
    pub open spec fn enter(self, secondary: bool, shift: bool) -> InputView {
        if !self.disabled && self.marked is None {
            InputView {
                events: self.events.push(InputEvent::PressEnter { secondary, shift }),
                ..self
            }
        } else {
            self
        }
    }
}

impl InputView {
    /// A range of UTF-16 offsets as byte offsets into the value (never backwards).
    pub open spec fn range_from_utf16(self, range: Range<usize>) -> Range<usize> {
        let start = spec_from_utf16(self.value, range.start as int);
        let end = spec_from_utf16(self.value, range.end as int);
        Range { start: start as usize, end: (if end >= start { end } else { start }) as usize }
    }

    /// A range of byte offsets as UTF-16 offsets.
    pub open spec fn range_to_utf16(self, range: Range<usize>) -> Range<usize> {
        Range {
            start: spec_to_utf16(self.value, range.start as int) as usize,
            end: spec_to_utf16(self.value, range.end as int) as usize,
        }
    }

    /// The range an edit applies to: the given UTF-16 range, else the composition,
    /// else the selection.
    pub open spec fn replacement_range(self, range: Option<Range<usize>>) -> Range<usize> {
        match range {
            Some(r) => self.range_from_utf16(r),
            None => match self.marked {
                Some(m) => m,
                None => self.selection,
            },
        }
    }

    /// Puts `text` in place of `range`, with the cursor after it.
    pub open spec fn replace(self, range: Range<usize>, text: Seq<char>) -> InputView {
        let end = (range.start + byte_len(text)) as usize;
        InputView {
            value: replace_bytes(self.value, range.start as int, range.end as int, text),
            selection: Range { start: end, end: end },
            reversed: false,
            marked: None,
            ..self
        }
    }

    /// Typing or pasting: replaces the target range with `text` (on one line) as one
    /// undo step, ending any composition; replacing text with itself changes nothing.
    pub open spec fn replace_text_in_range(self, range: Option<Range<usize>>, text: Seq<char>) -> InputView {
        if self.disabled {
            self
        } else {
            let r = self.replacement_range(range);
            let t = text.map_values(|c: char| normalize_char(c));
            if self.marked is None && byte_range(self.value, r.start as int, r.end as int) == t {
                self
            } else {
                let a = if self.composition is None {
                    self.push_undo(self.snapshot())
                } else {
                    self
                };
                a.replace(r, t).finish_composition().changed()
            }
        }
    }

    /// IME composition: replaces the target range with `text`, marks it, and places
    /// the IME's selection relative to it; an empty text ends the composition.
    pub open spec fn replace_and_mark_text_in_range(
        self,
        range: Option<Range<usize>>,
        text: Seq<char>,
        selected: Option<Range<usize>>,
    ) -> InputView {
        if self.disabled {
            self
        } else {
            let r = self.replacement_range(range);
            let t = text.map_values(|c: char| normalize_char(c));
            let d = self.begin_composition().replace(r, t).mark_inserted(r.start as int, t, selected);
            let e = if t.len() == 0 { d.finish_composition() } else { d };
            e.changed()
        }
    }

    /// Keeps the value before a composition starts, so that the whole composition
    /// becomes one undo step (never for secret values).
    pub open spec fn begin_composition(self) -> InputView {
        if self.composition is None && !self.is_secret() {
            InputView { composition: Some(self.snapshot()), ..self }
        } else {
            self
        }
    }

    /// Marks `t`, just inserted at byte `start`, and puts the IME's selection
    /// (UTF-16 offsets into `t`) in place.
    pub open spec fn mark_inserted(self, start: int, t: Seq<char>, selected: Option<Range<usize>>) -> InputView {
        let c = InputView {
            marked: if t.len() > 0 {
                Some(Range { start: start as usize, end: (start + byte_len(t)) as usize })
            } else {
                None
            },
            ..self
        };
        match selected {
            Some(sel) => c.select_inserted(start, t, sel),
            None => c,
        }
    }

    pub open spec fn select_inserted(self, start: int, t: Seq<char>, sel: Range<usize>) -> InputView {
        let st = spec_from_utf16(t, sel.start as int);
        let en = spec_from_utf16(t, sel.end as int);
        InputView {
            selection: Range {
                start: (start + st) as usize,
                end: (start + (if en >= st { en } else { st })) as usize,
            },
            ..self
        }
    }

    /// Deletes the selection, or the grapheme before the cursor.
    pub open spec fn backspace(self) -> InputView {
        if self.disabled {
            self
        } else {
            let t = if self.selection_empty() {
                self.move_to(self.previous_boundary(), true)
            } else {
                self
            };
            t.replace_text_in_range(None, Seq::empty())
        }
    }

    /// Deletes the selection, or the grapheme after the cursor.
    pub open spec fn delete(self) -> InputView {
        if self.disabled {
            self
        } else {
            let t = if self.selection_empty() {
                self.move_to(self.next_boundary(), true)
            } else {
                self
            };
            t.replace_text_in_range(None, Seq::empty())
        }
    }

    /// Whether copy and cut are refused: secret, disabled, or nothing selected.
    pub open spec fn copy_refused(self) -> bool {
        self.is_secret() || self.disabled || self.selection_empty()
    }

    pub open spec fn selected_text(self) -> Seq<char> {
        byte_range(self.value, self.selection.start as int, self.selection.end as int)
    }

    pub open spec fn cut(self) -> InputView {
        if self.copy_refused() {
            self
        } else {
            self.replace_text_in_range(None, Seq::empty())
        }
    }

    pub open spec fn set_selected_text_range(self, range: Range<usize>) -> InputView {
        if self.disabled {
            self
        } else {
            InputView { selection: self.range_from_utf16(range), reversed: false, ..self }.pause_blink()
        }
    }
}

/// An offset into text `t` just put in place of `start..end` of `before`, shifted by
/// `start`, is a boundary of the new value.
proof fn lemma_inserted_offset(before: Seq<char>, start: usize, end: usize, t: Seq<char>, units: int)
    requires
        valid_range(before, Range { start, end }),
    ensures
        is_boundary(replace_bytes(before, start as int, end as int, t), start + spec_from_utf16(t, units)),
        start + spec_from_utf16(t, units) <= byte_len(replace_bytes(before, start as int, end as int, t)),
{
    let k = chars_before_unit(t, units);
    lemma_chars_before_unit_bound(t, units);
    lemma_replace_bytes(before, start as int, end as int, t, k as int);
}

/// The end of text `t` just put in place of `start..end` of `before` is a boundary
/// of the new value, and so is its start.
proof fn lemma_inserted_end(before: Seq<char>, start: usize, end: usize, t: Seq<char>)
    requires
        valid_range(before, Range { start, end }),
    ensures
        is_boundary(replace_bytes(before, start as int, end as int, t), start + byte_len(t)),
        is_boundary(replace_bytes(before, start as int, end as int, t), start as int),
        start + byte_len(t) <= byte_len(replace_bytes(before, start as int, end as int, t)),
        (byte_len(t) == 0) == (t.len() == 0),
        encode_utf8(t).len() == byte_len(t),
{
    lemma_replace_bytes(before, start as int, end as int, t, t.len() as int);
    lemma_replace_bytes(before, start as int, end as int, t, 0);
    assert(t.take(t.len() as int) =~= t);
    assert(t.take(0) =~= Seq::<char>::empty());
    lemma_encode_utf8_len(t);
    if t.len() > 0 {
        assert(byte_len(t) == byte_len(t.drop_last()) + crate::input::text::utf8_len(t.last()));
    } else {
        assert(t =~= Seq::<char>::empty());
    }
}

impl InputView {
    /// Where the bytes before `offset` end up in the displayed text: unchanged, or for
    /// a secret value one bullet per grapheme.
    pub open spec fn display_offset(self, offset: int) -> int {
        if !self.is_secret() {
            offset
        } else {
            leading_below(grapheme_starts(self.value), offset) * BULLET_LEN
        }
    }

    /// The value offset for an offset into the displayed text.
    pub open spec fn value_offset(self, offset: int) -> int {
        if !self.is_secret() {
            spec_floor_boundary(self.value, offset)
        } else {
            let n = offset / (BULLET_LEN as int);
            if n < grapheme_starts(self.value).len() {
                grapheme_starts(self.value)[n] as int
            } else {
                byte_len(self.value) as int
            }
        }
    }

    /// The value offset under the pointer, given the offset that text layout
    /// reports for it (none before the text has been laid out).
    pub open spec fn index_for_display(self, display: Option<usize>) -> int {
        match display {
            Some(d) => self.value_offset(d as int),
            None => 0,
        }
    }

    /// A press of the primary button: selects all on a triple click (or a double
    /// click on a secret value), the word under the pointer on a double click, and
    /// otherwise moves there (extending the selection with shift).
    pub open spec fn mouse_down(self, display: Option<usize>, click_count: usize, shift: bool) -> InputView {
        if self.disabled {
            self
        } else {
            let t = InputView { selecting: true, ..self };
            let offset = t.index_for_display(display);
            if click_count >= 3 || (click_count == 2 && t.is_secret()) {
                t.select_all()
            } else if click_count == 2 {
                match segment_containing(word_bound_starts(t.value), byte_len(t.value) as int, offset, 0) {
                    Some((a, b)) => t.move_to(a as int, false).move_to(b as int, true),
                    None => t,
                }
            } else {
                t.move_to(offset, shift)
            }
        }
    }

    pub open spec fn mouse_move(self, display: Option<usize>) -> InputView {
        if self.selecting && !self.disabled {
            self.move_to(self.index_for_display(display), true)
        } else {
            self
        }
    }

    /// The text shown: the placeholder while empty, bullets for a secret value.
    pub open spec fn display_text(self) -> Seq<char> {
        if self.value.len() == 0 {
            self.placeholder
        } else if self.is_secret() {
            Seq::new(grapheme_starts(self.value).len(), |i: int| '\u{2022}')
        } else {
            self.value
        }
    }
}

proof fn lemma_mark_inserted_wf(
    v: InputView,
    before: Seq<char>,
    start: usize,
    end: usize,
    t: Seq<char>,
    selected: Option<Range<usize>>,
)
    requires
        v.wf(),
        valid_range(before, Range { start, end }),
        v.value == replace_bytes(before, start as int, end as int, t),
        byte_len(v.value) <= usize::MAX,
    ensures
        v.mark_inserted(start as int, t, selected).wf(),
{
    lemma_inserted_end(before, start, end, t);
    let c = InputView {
        marked: if t.len() > 0 {
            Some(Range { start: start as usize, end: (start + byte_len(t)) as usize })
        } else {
            None
        },
        ..v
    };
    assert(c.wf());
    if let Some(sel) = selected {
        lemma_select_inserted_wf(c, before, start, end, t, sel);
    }
}

proof fn lemma_select_inserted_wf(
    v: InputView,
    before: Seq<char>,
    start: usize,
    end: usize,
    t: Seq<char>,
    sel: Range<usize>,
)
    requires
        v.wf(),
        valid_range(before, Range { start, end }),
        v.value == replace_bytes(before, start as int, end as int, t),
        byte_len(v.value) <= usize::MAX,
    ensures
        v.select_inserted(start as int, t, sel).wf(),
{
    lemma_inserted_offset(before, start, end, t, sel.start as int);
    lemma_inserted_offset(before, start, end, t, sel.end as int);
}

impl EditSnapshot {
    fn clone_snapshot(&self) -> (r: EditSnapshot)
        ensures
            r@ == self@,
    {
        EditSnapshot {
            value: self.value.clone(),
            selection: self.selection.start..self.selection.end,
            reversed: self.reversed,
        }
    }
}

impl InputState {
    /// An empty, enabled, unfocused text input.
    pub fn new() -> (r: InputState)
        ensures
            r@.wf(),
            r@.value == Seq::<char>::empty(),
            r@.placeholder == Seq::<char>::empty(),
            r@.selection == (0usize..0usize),
            !r@.reversed,
            r@.marked is None,
            !r@.masked,
            r@.content_type == InputContentType::Text,
            !r@.disabled && !r@.selecting && !r@.focused,
            !r@.cursor_visible && !r@.blink_task && !r@.blink_restart,
            r@.undo.len() == 0 && r@.redo.len() == 0,
            r@.composition is None,
            !r@.layout_valid,
            r@.events.len() == 0,
    {
        proof {
            reveal(history_wf);
        }
        let r = InputState {
            value: String::new(),
            placeholder: String::new(),
            selection: 0..0,
            reversed: false,
            marked: None,
            masked: false,
            content_type: InputContentType::Text,
            disabled: false,
            selecting: false,
            focused: false,
            cursor_visible: false,
            blink_task: false,
            blink_restart: false,
            undo: VecDeque::new(),
            redo: Vec::new(),
            composition: None,
            layout_valid: false,
            events: Vec::new(),
        };
        proof {
            lemma_boundary_ends(r.value@);
            assert(r@.undo =~= Seq::<SnapshotView>::empty());
            assert(r@.redo =~= Seq::<SnapshotView>::empty());
        }
        r
    }

    /// Sets the text shown while the value is empty.
    pub fn placeholder(self, placeholder: &str) -> (r: InputState)
        requires
            self@.wf(),
        ensures
            r@ == (InputView { placeholder: placeholder@, ..self@ }),
            r@.wf(),
    {
        let mut r = self;
        r.placeholder = placeholder.to_owned();
        r
    }

    /// Masks the value; masking forgets the edit history.
    pub fn masked(self, masked: bool) -> (r: InputState)
        requires
            self@.wf(),
        ensures
            r@ == if masked {
                InputView { masked: true, ..self@ }.clear_history()
            } else {
                InputView { masked: false, ..self@ }
            },
            r@.wf(),
    {
        let mut r = self;
        r.masked = masked;
        if masked {
            r.clear_history();
        }
        r
    }

    /// The current value.
    pub fn value(&self) -> (r: String)
        ensures
            r@ == self@.value,
    {
        self.value.clone()
    }

    /// Whether the host may focus the input: only an enabled input takes focus.
    pub fn focus(&self) -> (r: bool)
        ensures
            r == !self@.disabled,
    {
        !self.disabled
    }

    /// Whether the value is secret: masked, or a password.
    pub fn is_secret(&self) -> (r: bool)
        ensures
            r == self@.is_secret(),
    {
        self.masked || matches!(self.content_type, InputContentType::Password | InputContentType::NewPassword)
    }

    fn clear_history(&mut self)
        requires
            old(self)@.wf(),
        ensures
            final(self)@ == old(self)@.clear_history(),
            final(self)@.wf(),
    {
        proof {
            reveal(history_wf);
        }
        self.undo.clear();
        self.redo.clear();
        self.composition = None;
        proof {
            assert(self@.undo =~= Seq::<SnapshotView>::empty());
            assert(self@.redo =~= Seq::<SnapshotView>::empty());
        }
    }

    fn snapshot(&self) -> (r: EditSnapshot)
        ensures
            r@ == self@.snapshot(),
    {
        EditSnapshot {
            value: self.value.clone(),
            selection: self.selection.start..self.selection.end,
            reversed: self.reversed,
        }
    }

    fn push_undo(&mut self, snapshot: EditSnapshot)
        requires
            old(self)@.wf(),
            snapshot@.wf(),
        ensures
            final(self)@ == old(self)@.push_undo(snapshot@),
            final(self)@.wf(),
    {
        proof {
            reveal(history_wf);
        }
        // Passwords must not linger in edit history after the visible value is cleared.
        if self.is_secret() {
            return;
        }
        let ghost u0 = snapshots_view(self.undo@);
        if self.undo.len() >= UNDO_LIMIT {
            self.undo.pop_front();
            proof {
                assert(snapshots_view(self.undo@) =~= u0.drop_first());
            }
        }
        let ghost u1 = snapshots_view(self.undo@);
        self.undo.push_back(snapshot);
        self.redo.clear();
        proof {
            assert(snapshots_view(self.undo@) =~= u1.push(snapshot@));
            assert(self@.redo =~= Seq::<SnapshotView>::empty());
        }
    }

    pub(crate) fn finish_composition(&mut self)
        requires
            old(self)@.wf(),
        ensures
            final(self)@ == old(self)@.finish_composition(),
            final(self)@.wf(),
    {
        proof {
            reveal(history_wf);
        }
        self.marked = None;
        if let Some(snapshot) = self.composition.take() {
            if snapshot.value != self.value {
                self.push_undo(snapshot);
            }
        }
    }

    pub(crate) fn pause_blink(&mut self)
        ensures
            final(self)@ == old(self)@.pause_blink(),
    {
        self.cursor_visible = self.focused && !self.disabled;
        self.blink_task = self.cursor_visible;
        self.blink_restart = self.cursor_visible;
    }

    fn changed(&mut self)
        ensures
            final(self)@ == old(self)@.changed(),
    {
        self.layout_valid = false;
        self.pause_blink();
        self.events.push(InputEvent::Change);
    }

    /// The offset of the cursor: the moving end of the selection.
    pub fn cursor(&self) -> (r: usize)
        ensures
            r == self@.cursor(),
    {
        if self.reversed {
            self.selection.start
        } else {
            self.selection.end
        }
    }

    pub(crate) fn move_to_offset(&mut self, offset: usize, select: bool)
        requires
            old(self)@.wf(),
        ensures
            final(self)@ == old(self)@.move_to(offset as int, select),
            final(self)@.wf(),
            0 <= spec_floor_boundary(old(self)@.value, offset as int) <= offset,
            offset as int >= byte_len(old(self)@.value) ==> spec_floor_boundary(old(self)@.value, offset as int)
                == byte_len(old(self)@.value),
    {
        self.finish_composition();
        let offset = floor_boundary(self.value.as_str(), offset);
        let anchor = if !select {
            offset
        } else if self.reversed {
            self.selection.end
        } else {
            self.selection.start
        };
        let lo = if anchor <= offset { anchor } else { offset };
        let hi = if anchor <= offset { offset } else { anchor };
        self.selection = lo..hi;
        self.reversed = offset < anchor;
        self.pause_blink();
    }

    fn previous_boundary(&self) -> (r: usize)
        requires
            self@.wf(),
        ensures
            r == self@.previous_boundary(),
    {
        previous_grapheme_start(self.value.as_str(), self.cursor())
    }

    fn next_boundary(&self) -> (r: usize)
        requires
            self@.wf(),
        ensures
            r == self@.next_boundary(),
            segment_starts(self@.value, grapheme_starts(self@.value)),
            byte_len(self@.value) <= usize::MAX,
    {
        next_grapheme_start(self.value.as_str(), self.cursor())
    }

    /// Moves left by one grapheme, or collapses a selection to its start.
    pub fn left(&mut self)
        requires
            old(self)@.wf(),
        ensures
            final(self)@ == old(self)@.left(),
            final(self)@.wf(),
    {
        let offset = if self.selection.start == self.selection.end {
            self.previous_boundary()
        } else {
            self.selection.start
        };
        self.move_to_offset(offset, false);
    }

    /// Moves right by one grapheme, or collapses a selection to its end.
    pub fn right(&mut self)
        requires
            old(self)@.wf(),
        ensures
            final(self)@ == old(self)@.right(),
            final(self)@.wf(),
            old(self)@.selection_empty() && old(self)@.cursor() < byte_len(old(self)@.value) ==> {
                &&& old(self)@.cursor() < final(self)@.cursor() <= byte_len(old(self)@.value)
                &&& final(self)@.selection_empty()
                &&& forall|k: int|
                    0 <= k < grapheme_starts(old(self)@.value).len() && #[trigger] grapheme_starts(old(self)@.value)[k]
                        > old(self)@.cursor() ==> grapheme_starts(old(self)@.value)[k] >= final(self)@.cursor()
            },
    {
        let offset = if self.selection.start == self.selection.end {
            let n = self.next_boundary();
            proof {
                super::laws::lemma_right_moves_to_next_grapheme(old(self)@);
            }
            n
        } else {
            self.selection.end
        };
        self.move_to_offset(offset, false);
    }

    /// Extends the selection left by one grapheme.
    pub fn select_left(&mut self)
        requires
            old(self)@.wf(),
        ensures
            final(self)@ == old(self)@.move_to(old(self)@.previous_boundary(), true),
            final(self)@.wf(),
    {
        let offset = self.previous_boundary();
        self.move_to_offset(offset, true);
    }

    /// Extends the selection right by one grapheme.
    pub fn select_right(&mut self)
        requires
            old(self)@.wf(),
        ensures
            final(self)@ == old(self)@.move_to(old(self)@.next_boundary(), true),
            final(self)@.wf(),
            segment_starts(old(self)@.value, grapheme_starts(old(self)@.value)),
            byte_len(old(self)@.value) <= usize::MAX,
    {
        let offset = self.next_boundary();
        self.move_to_offset(offset, true);
    }

    /// Moves to the start of the value.
    pub fn home(&mut self)
        requires
            old(self)@.wf(),
        ensures
            final(self)@ == old(self)@.move_to(0, false),
            final(self)@.wf(),
    {
        self.move_to_offset(0, false);
    }

    /// Moves to the end of the value.
    pub fn end(&mut self)
        requires
            old(self)@.wf(),
        ensures
            final(self)@ == old(self)@.move_to(byte_len(old(self)@.value) as int, false),
            final(self)@.wf(),
    {
        let len = self.value_len();
        self.move_to_offset(len, false);
    }

    /// Extends the selection to the start of the value.
    pub fn select_home(&mut self)
        requires
            old(self)@.wf(),
        ensures
            final(self)@ == old(self)@.move_to(0, true),
            final(self)@.wf(),
    {
        self.move_to_offset(0, true);
    }

    /// Extends the selection to the end of the value.
    pub fn select_end(&mut self)
        requires
            old(self)@.wf(),
        ensures
            final(self)@ == old(self)@.move_to(byte_len(old(self)@.value) as int, true),
            final(self)@.wf(),
    {
        let len = self.value_len();
        self.move_to_offset(len, true);
    }

    /// Selects the whole value.
    pub fn select_all(&mut self)
        requires
            old(self)@.wf(),
        ensures
            final(self)@ == old(self)@.select_all(),
            final(self)@.wf(),
            final(self)@.value == old(self)@.value,
            final(self)@.selection == (Range { start: 0usize, end: byte_len(old(self)@.value) as usize }),
            !final(self)@.reversed,
    {
        self.move_to_offset(0, false);
        let len = self.value_len();
        self.move_to_offset(len, true);
    }

    /// Length of the value in bytes.
    pub fn value_len(&self) -> (r: usize)
        ensures
            r == byte_len(self@.value),
    {
        proof {
            lemma_encode_utf8_len(self.value@);
        }
        self.value.as_str().as_bytes().len()
    }

    /// Replaces the value with `value`, normalized to a single line.
    pub fn set_value(&mut self, value: &str)
        requires
            old(self)@.wf(),
        ensures
            final(self)@ == old(self)@.set_value(value@),
            final(self)@.wf(),
    {
        let value = normalize(value);
        if self.value == value {
            return;
        }
        self.value = value;
        let len = self.value_len();
        self.selection = len..len;
        self.reversed = false;
        self.marked = None;
        proof {
            lemma_boundary_ends(self.value@);
        }
        self.clear_history();
        self.changed();
    }

    /// Applies the widget's `disabled` flag and content type. Returns whether the
    /// host must take focus away: the input was just disabled while its focus handle
    /// (`handle_focused`) held focus.
    pub fn configure(&mut self, disabled: bool, content_type: InputContentType, handle_focused: bool) -> (blur: bool)
        requires
            old(self)@.wf(),
        ensures
            final(self)@ == old(self)@.configure(disabled, content_type),
            final(self)@.wf(),
            blur == (disabled && !old(self)@.disabled && handle_focused),
    {
        self.set_content_type(content_type);
        self.set_disabled(disabled, handle_focused)
    }

    fn set_content_type(&mut self, content_type: InputContentType)
        requires
            old(self)@.wf(),
        ensures
            final(self)@ == old(self)@.with_content_type(content_type),
            final(self)@.wf(),
    {
        if self.content_type != content_type {
            self.content_type = content_type;
            if self.is_secret() {
                self.clear_history();
            }
        }
    }

    fn set_disabled(&mut self, disabled: bool, handle_focused: bool) -> (blur: bool)
        requires
            old(self)@.wf(),
        ensures
            final(self)@ == old(self)@.with_disabled(disabled),
            final(self)@.wf(),
            blur == (disabled && !old(self)@.disabled && handle_focused),
    {
        if self.disabled == disabled {
            return false;
        }
        self.disabled = disabled;
        if disabled {
            self.blink_task = false;
            self.blink_restart = false;
            self.selecting = false;
            self.cursor_visible = false;
            handle_focused
        } else {
            if self.focused {
                self.pause_blink();
            }
            false
        }
    }

    /// The input's focus handle received focus.
    pub fn handle_focus(&mut self)
        requires
            old(self)@.wf(),
        ensures
            final(self)@ == old(self)@.handle_focus(),
            final(self)@.wf(),
    {
        self.focused = true;
        self.pause_blink();
        self.events.push(InputEvent::Focus);
    }

    /// The input's focus handle lost focus: stop the cursor, end any composition.
    pub fn handle_blur(&mut self)
        requires
            old(self)@.wf(),
        ensures
            final(self)@ == old(self)@.handle_blur(),
            final(self)@.wf(),
    {
        self.focused = false;
        self.selecting = false;
        self.blink_task = false;
        self.blink_restart = false;
        self.cursor_visible = false;
        self.finish_composition();
        self.events.push(InputEvent::Blur);
    }

    fn restore(&mut self, snapshot: EditSnapshot)
        requires
            old(self)@.wf(),
            snapshot@.wf(),
            old(self)@.marked is None,
        ensures
            final(self)@ == old(self)@.restore(snapshot@),
            final(self)@.wf(),
    {
        self.value = snapshot.value;
        self.selection = snapshot.selection;
        self.reversed = snapshot.reversed;
        self.changed();
    }

    /// Takes back the last edit.
    pub fn undo(&mut self)
        requires
            old(self)@.wf(),
        ensures
            final(self)@ == old(self)@.undo(),
            final(self)@.wf(),
    {
        proof {
            reveal(history_wf);
        }
        if self.disabled || self.is_secret() {
            return;
        }
        self.finish_composition();
        let ghost t = self@;
        if let Some(snapshot) = self.undo.pop_back() {
            let current = self.snapshot();
            self.redo.push(current);
            proof {
                assert(snapshots_view(self.undo@) =~= t.undo.drop_last());
                assert(snapshots_view(self.redo@) =~= t.redo.push(t.snapshot()));
                assert(t.undo.last() == snapshot@);
                assert(t.undo[t.undo.len() - 1].wf());
            }
            self.restore(snapshot);
        }
    }

    /// Reapplies the last edit that undo took back.
    pub fn redo(&mut self)
        requires
            old(self)@.wf(),
        ensures
            final(self)@ == old(self)@.redo(),
            final(self)@.wf(),
    {
        proof {
            reveal(history_wf);
        }
        if self.disabled || self.is_secret() {
            return;
        }
        self.finish_composition();
        let ghost t = self@;
        if let Some(snapshot) = self.redo.pop() {
            let current = self.snapshot();
            self.undo.push_back(current);
            proof {
                assert(snapshots_view(self.redo@) =~= t.redo.drop_last());
                assert(snapshots_view(self.undo@) =~= t.undo.push(t.snapshot()));
                assert(t.redo.last() == snapshot@);
                assert(t.redo[t.redo.len() - 1].wf());
            }
            self.restore(snapshot);
        }
    }

    /// Enter was pressed (`secondary` with the platform modifier, or with shift).
    pub fn enter(&mut self, secondary: bool, shift: bool)
        requires
            old(self)@.wf(),
        ensures
            final(self)@ == old(self)@.enter(secondary, shift),
            final(self)@.wf(),
    {
        if !self.disabled && self.marked.is_none() {
            self.events.push(InputEvent::PressEnter { secondary, shift });
        }
    }

    /// One tick of the blink timer: the cursor shows or hides.
    pub fn toggle_cursor(&mut self)
        ensures
            final(self)@ == (InputView { cursor_visible: !old(self)@.cursor_visible, ..old(self)@ }),
    {
        self.cursor_visible = !self.cursor_visible;
    }

    /// Hands over the events emitted since the last call.
    pub fn take_events(&mut self) -> (r: Vec<InputEvent>)
        ensures
            r@ == old(self)@.events,
            final(self)@ == (InputView { events: Seq::empty(), ..old(self)@ }),
    {
        let mut events = Vec::new();
        std::mem::swap(&mut events, &mut self.events);
        events
    }

    /// Whether the blink timer must be (re)started; the request is then cleared.
    pub fn take_blink_restart(&mut self) -> (r: bool)
        ensures
            r == old(self)@.blink_restart,
            final(self)@ == (InputView { blink_restart: false, ..old(self)@ }),
    {
        let r = self.blink_restart;
        self.blink_restart = false;
        r
    }

    /// A range of UTF-16 offsets as byte offsets into the value.
    pub fn range_from_utf16(&self, range: &Range<usize>) -> (r: Range<usize>)
        requires
            self@.wf(),
        ensures
            r == self@.range_from_utf16(*range),
            valid_range(self@.value, r),
    {
        let start = from_utf16(self.value.as_str(), range.start);
        let end = from_utf16(self.value.as_str(), range.end);
        proof {
            lemma_from_utf16_boundary(self.value@, range.start as int);
            lemma_from_utf16_boundary(self.value@, range.end as int);
        }
        start..(if end >= start { end } else { start })
    }

    /// A range of byte offsets as UTF-16 offsets.
    pub fn range_to_utf16(&self, range: &Range<usize>) -> (r: Range<usize>)
        ensures
            r == self@.range_to_utf16(*range),
    {
        to_utf16(self.value.as_str(), range.start)..to_utf16(self.value.as_str(), range.end)
    }

    fn replacement_range(&self, range: Option<Range<usize>>) -> (r: Range<usize>)
        requires
            self@.wf(),
        ensures
            r == self@.replacement_range(range),
            valid_range(self@.value, r),
    {
        match range {
            Some(range) => self.range_from_utf16(&range),
            None => match &self.marked {
                Some(m) => m.start..m.end,
                None => self.selection.start..self.selection.end,
            },
        }
    }

    fn replace(&mut self, range: Range<usize>, text: &str)
        requires
            old(self)@.wf(),
            valid_range(old(self)@.value, range),
        ensures
            final(self)@ == old(self)@.replace(range, text@),
            final(self)@.wf(),
    {
        let ghost s = self.value@;
        proof {
            lemma_replace_bytes(s, range.start as int, range.end as int, text@, text@.len() as int);
            assert(text@.take(text@.len() as int) =~= text@);
            lemma_encode_utf8_len(text@);
        }
        let value = replace_range(self.value.as_str(), range.start, range.end, text);
        self.value = value;
        let new_len = self.value_len();
        let text_len = text.as_bytes().len();
        let end = range.start + text_len;
        self.selection = end..end;
        self.reversed = false;
        self.marked = None;
    }

    /// Replaces the target range (a UTF-16 range, else the composition, else the
    /// selection) with `text` as one undo step.
    pub fn replace_text_in_range(&mut self, range: Option<Range<usize>>, text: &str)
        requires
            old(self)@.wf(),
        ensures
            final(self)@ == old(self)@.replace_text_in_range(range, text@),
            final(self)@.wf(),
    {
        if self.disabled {
            return;
        }
        let range = self.replacement_range(range);
        let text = normalize(text);
        if self.marked.is_none() && byte_range_equals(self.value.as_str(), range.start, range.end, text.as_str()) {
            return;
        }
        if self.composition.is_none() {
            let snapshot = self.snapshot();
            self.push_undo(snapshot);
        }
        self.replace(range, text.as_str());
        self.finish_composition();
        self.changed();
    }

    /// IME composition: replaces the target range with `text`, marks it, and puts
    /// the IME's `selected` range (UTF-16 offsets into `text`) in place.
    pub fn replace_and_mark_text_in_range(
        &mut self,
        range: Option<Range<usize>>,
        text: &str,
        selected: Option<Range<usize>>,
    )
        requires
            old(self)@.wf(),
        ensures
            final(self)@ == old(self)@.replace_and_mark_text_in_range(range, text@, selected),
            final(self)@.wf(),
    {
        if self.disabled {
            return;
        }
        let range = self.replacement_range(range);
        let text = normalize(text);
        self.begin_composition();
        let ghost s = self.value@;
        self.replace(range.start..range.end, text.as_str());
        let empty = text.as_str().as_bytes().len() == 0;
        proof {
            lemma_encode_utf8_len(text@);
            if text@.len() > 0 {
                assert(byte_len(text@) == byte_len(text@.drop_last()) + crate::input::text::utf8_len(text@.last()));
            }
        }
        let len = self.value_len();
        proof {
            lemma_mark_inserted_wf(self@, s, range.start, range.end, text@, selected);
        }
        self.mark_inserted(range.start, text.as_str(), selected, Ghost(s), Ghost(range.end));
        if empty {
            self.finish_composition();
        }
        self.changed();
    }

    fn begin_composition(&mut self)
        requires
            old(self)@.wf(),
        ensures
            final(self)@ == old(self)@.begin_composition(),
            final(self)@.wf(),
    {
        proof {
            reveal(history_wf);
        }
        if self.composition.is_none() && !self.is_secret() {
            self.composition = Some(self.snapshot());
        }
    }

    fn mark_inserted(
        &mut self,
        start: usize,
        text: &str,
        selected: Option<Range<usize>>,
        Ghost(before): Ghost<Seq<char>>,
        Ghost(end): Ghost<usize>,
    )
        requires
            old(self)@.wf(),
            valid_range(before, Range { start, end }),
            old(self)@.value == replace_bytes(before, start as int, end as int, text@),
        ensures
            final(self)@ == old(self)@.mark_inserted(start as int, text@, selected),
    {
        let len = self.value_len();
        let text_len = text.as_bytes().len();
        proof {
            lemma_inserted_end(before, start, end, text@);
        }
        let marked = if text_len > 0 {
            Some(start..start + text_len)
        } else {
            None
        };
        self.marked = marked;
        if let Some(sel) = selected {
            self.select_inserted(start, text, sel, Ghost(before), Ghost(end));
        }
    }

    fn select_inserted(
        &mut self,
        start: usize,
        text: &str,
        sel: Range<usize>,
        Ghost(before): Ghost<Seq<char>>,
        Ghost(end): Ghost<usize>,
    )
        requires
            old(self)@.wf(),
            valid_range(before, Range { start, end }),
            old(self)@.value == replace_bytes(before, start as int, end as int, text@),
        ensures
            final(self)@ == old(self)@.select_inserted(start as int, text@, sel),
    {
        let st = from_utf16(text, sel.start);
        let en = from_utf16(text, sel.end);
        let hi = if en >= st { en } else { st };
        let len = self.value_len();
        proof {
            lemma_inserted_offset(before, start, end, text@, sel.start as int);
            lemma_inserted_offset(before, start, end, text@, sel.end as int);
        }
        self.selection = start + st..start + hi;
    }
}

} // verus!
