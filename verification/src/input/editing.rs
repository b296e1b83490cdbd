//! Editing commands, pointer handling and platform text-input queries of
//! [`InputState`].
use std::ops::Range;

use vstd::prelude::*;

use super::state::{InputState, InputView, BULLET_LEN, valid_range};
use super::text::{
    byte_len, floor_boundary, grapheme_count, grapheme_count_below, grapheme_starts,
    is_boundary, lemma_boundary_ends, nth_grapheme_start, push_char, substring, to_utf16,
    word_range_at, replace_bytes, spec_next_start,
};

verus! {

impl InputState {
    /// Deletes the selection, or the grapheme before the cursor.
    pub fn backspace(&mut self)
        requires
            old(self)@.wf(),
        ensures
            final(self)@ == old(self)@.backspace(),
            final(self)@.wf(),
    {
        if self.disabled {
            return;
        }
        if self.selection.start == self.selection.end {
            self.select_left();
        }
        proof {
            reveal_strlit("");
            assert(""@ =~= Seq::<char>::empty());
        }
        self.replace_text_in_range(None, "");
    }

    /// Deletes the selection, or the grapheme after the cursor.
    pub fn delete(&mut self)
        requires
            old(self)@.wf(),
        ensures
            final(self)@ == old(self)@.delete(),
            final(self)@.wf(),
            !old(self)@.disabled && old(self)@.selection_empty() && old(self)@.cursor() < byte_len(old(self)@.value)
                ==> {
                let c = old(self)@.cursor();
                let n = spec_next_start(grapheme_starts(old(self)@.value), c, byte_len(old(self)@.value) as int);
                &&& c < n <= byte_len(old(self)@.value)
                &&& forall|k: int|
                    0 <= k < grapheme_starts(old(self)@.value).len() && #[trigger] grapheme_starts(old(self)@.value)[k]
                        > c ==> grapheme_starts(old(self)@.value)[k] >= n
                &&& final(self)@.value == replace_bytes(old(self)@.value, c, n, Seq::empty())
                &&& final(self)@.selection == (Range { start: c as usize, end: c as usize })
            },
    {
        if self.disabled {
            return;
        }
        if self.selection.start == self.selection.end {
            self.select_right();
            proof {
                if old(self)@.cursor() < byte_len(old(self)@.value) {
                    super::laws::lemma_delete_removes_next_grapheme(old(self)@);
                }
            }
        }
        proof {
            reveal_strlit("");
            assert(""@ =~= Seq::<char>::empty());
        }
        self.replace_text_in_range(None, "");
    }

    /// The text to put on the clipboard: the selection, unless the value is secret,
    /// the input disabled or nothing selected.
    pub fn copy(&self) -> (r: Option<String>)
        requires
            self@.wf(),
        ensures
            r matches Some(t) ==> !self@.copy_refused() && t@ == self@.selected_text(),
            r is None ==> self@.copy_refused(),
    {
        if self.is_secret() || self.disabled || self.selection.start == self.selection.end {
            return None;
        }
        Some(substring(self.value.as_str(), self.selection.start, self.selection.end))
    }

    /// Copies the selection and deletes it; returns the text for the clipboard.
    pub fn cut(&mut self) -> (r: Option<String>)
        requires
            old(self)@.wf(),
        ensures
            final(self)@ == old(self)@.cut(),
            final(self)@.wf(),
            r matches Some(t) ==> !old(self)@.copy_refused() && t@ == old(self)@.selected_text(),
            r is None ==> old(self)@.copy_refused(),
    {
        if self.is_secret() || self.disabled || self.selection.start == self.selection.end {
            return None;
        }
        let text = self.copy();
        proof {
            reveal_strlit("");
            assert(""@ =~= Seq::<char>::empty());
        }
        self.replace_text_in_range(None, "");
        text
    }

    /// Inserts clipboard text in place of the selection.
    pub fn paste(&mut self, text: &str)
        requires
            old(self)@.wf(),
        ensures
            final(self)@ == old(self)@.replace_text_in_range(None, text@),
            final(self)@.wf(),
    {
        self.replace_text_in_range(None, text);
    }

    /// Where byte `offset` of the value lies in the displayed text.
    pub fn display_offset(&self, offset: usize) -> (r: usize)
        requires
            byte_len(self@.value) <= usize::MAX / BULLET_LEN,
        ensures
            r == self@.display_offset(offset as int),
    {
        if !self.is_secret() {
            return offset;
        }
        let count = grapheme_count_below(self.value.as_str(), offset);
        count * BULLET_LEN
    }

    /// The value offset for an offset into the displayed text.
    pub fn value_offset(&self, offset: usize) -> (r: usize)
        ensures
            r == self@.value_offset(offset as int),
            is_boundary(self@.value, r as int),
    {
        if !self.is_secret() {
            return floor_boundary(self.value.as_str(), offset);
        }
        nth_grapheme_start(self.value.as_str(), offset / BULLET_LEN)
    }

    /// The value offset under the pointer, from the offset that text layout reports
    /// for it (`None` before the text has been laid out).
    pub fn index_for_display(&self, display: Option<usize>) -> (r: usize)
        ensures
            r == self@.index_for_display(display),
            is_boundary(self@.value, r as int),
    {
        proof {
            lemma_boundary_ends(self@.value);
        }
        match display {
            Some(d) => self.value_offset(d),
            None => 0,
        }
    }

    /// A press of the primary button over the text. Returns whether it was handled:
    /// the host then focuses the input and stops propagation.
    pub fn mouse_down(&mut self, display: Option<usize>, click_count: usize, shift: bool) -> (handled: bool)
        requires
            old(self)@.wf(),
        ensures
            final(self)@ == old(self)@.mouse_down(display, click_count, shift),
            final(self)@.wf(),
            handled == !old(self)@.disabled,
    {
        if self.disabled {
            return false;
        }
        self.selecting = true;
        let offset = self.index_for_display(display);
        if click_count >= 3 || (click_count == 2 && self.is_secret()) {
            self.select_all();
        } else if click_count == 2 {
            match word_range_at(self.value.as_str(), offset) {
                Some((a, b)) => {
                    self.move_to_offset(a, false);
                    self.move_to_offset(b, true);
                },
                None => {},
            }
        } else {
            self.move_to_offset(offset, shift);
        }
        true
    }

    /// The primary button was released.
    pub fn mouse_up(&mut self)
        ensures
            final(self)@ == (InputView { selecting: false, ..old(self)@ }),
    {
        self.selecting = false;
    }

    /// The pointer moved: while selecting, the selection follows it.
    pub fn mouse_move(&mut self, display: Option<usize>)
        requires
            old(self)@.wf(),
        ensures
            final(self)@ == old(self)@.mouse_move(display),
            final(self)@.wf(),
    {
        if self.selecting && !self.disabled {
            let offset = self.index_for_display(display);
            self.move_to_offset(offset, true);
        }
    }

    /// The text the platform asks for (a UTF-16 range), with the UTF-16 range it
    /// actually covers.
    pub fn text_for_range(&self, range: Range<usize>) -> (r: (Option<String>, Range<usize>))
        requires
            self@.wf(),
        ensures
            r.1 == self@.range_to_utf16(self@.range_from_utf16(range)),
            r.0 matches Some(t) && t@ == crate::input::text::byte_range(
                self@.value,
                self@.range_from_utf16(range).start as int,
                self@.range_from_utf16(range).end as int,
            ),
    {
        let r = self.range_from_utf16(&range);
        let actual = self.range_to_utf16(&r);
        (Some(substring(self.value.as_str(), r.start, r.end)), actual)
    }

    /// The selection as a UTF-16 range with its direction, unless the input is
    /// disabled and `ignore_disabled` is not set.
    pub fn selected_text_range(&self, ignore_disabled: bool) -> (r: Option<(Range<usize>, bool)>)
        ensures
            r == if ignore_disabled || !self@.disabled {
                Some((self@.range_to_utf16(self@.selection), self@.reversed))
            } else {
                None
            },
    {
        if ignore_disabled || !self.disabled {
            Some((self.range_to_utf16(&self.selection), self.reversed))
        } else {
            None
        }
    }

    /// The composition as a UTF-16 range.
    pub fn marked_text_range(&self) -> (r: Option<Range<usize>>)
        ensures
            r == match self@.marked {
                Some(m) => Some(self@.range_to_utf16(m)),
                None => None,
            },
    {
        match &self.marked {
            Some(m) => Some(self.range_to_utf16(m)),
            None => None,
        }
    }

    /// The platform ends the composition.
    pub fn unmark_text(&mut self)
        requires
            old(self)@.wf(),
        ensures
            final(self)@ == old(self)@.finish_composition(),
            final(self)@.wf(),
    {
        self.finish_composition();
    }

    /// The UTF-16 offset under the pointer, when it is inside the input's bounds.
    pub fn character_index_for_point(&self, inside: bool, display: Option<usize>) -> (r: Option<usize>)
        ensures
            r == if inside {
                Some(crate::input::text::spec_to_utf16(self@.value, self@.index_for_display(display)) as usize)
            } else {
                None
            },
    {
        if !inside {
            return None;
        }
        let index = self.index_for_display(display);
        Some(to_utf16(self.value.as_str(), index))
    }

    /// Whether the input takes text from the platform.
    pub fn accepts_text_input(&self) -> (r: bool)
        ensures
            r == !self@.disabled,
    {
        !self.disabled
    }

    /// Length of the value in UTF-16 code units.
    pub fn text_length_utf16(&self) -> (r: Option<usize>)
        ensures
            r == Some(crate::input::text::utf16_units(self@.value) as usize),
    {
        let len = self.value_len();
        let units = to_utf16(self.value.as_str(), len);
        proof {
            let s = self@.value;
            crate::input::text::lemma_chars_before_byte_push(s, 'a', len as int);
            if s.len() > 0 {
                crate::input::text::lemma_chars_before_byte_push(s.drop_last(), s.last(), len as int);
                assert(s.drop_last().push(s.last()) =~= s);
                crate::input::text::lemma_byte_len_push(s.drop_last(), s.last());
            }
            assert(s.take(s.len() as int) =~= s);
        }
        Some(units)
    }

    /// The platform selects a UTF-16 range.
    pub fn set_selected_text_range(&mut self, range: Range<usize>)
        requires
            old(self)@.wf(),
        ensures
            final(self)@ == old(self)@.set_selected_text_range(range),
            final(self)@.wf(),
    {
        if self.disabled {
            return;
        }
        self.selection = self.range_from_utf16(&range);
        self.reversed = false;
        self.pause_blink();
    }

    /// The text to show: the placeholder while the value is empty, one bullet per
    /// grapheme for a secret value, else the value.
    pub fn display_text(&self) -> (r: String)
        ensures
            r@ == self@.display_text(),
    {
        if self.value.as_str().as_bytes().len() == 0 {
            proof {
                crate::input::text::lemma_encode_utf8_len(self@.value);
                if self@.value.len() > 0 {
                    assert(byte_len(self@.value) == byte_len(self@.value.drop_last())
                        + crate::input::text::utf8_len(self@.value.last()));
                }
            }
            return self.placeholder.clone();
        }
        proof {
            crate::input::text::lemma_encode_utf8_len(self@.value);
            if self@.value.len() == 0 {
                assert(self@.value =~= Seq::<char>::empty());
            }
        }
        if !self.is_secret() {
            return self.value.clone();
        }
        let count = grapheme_count(self.value.as_str());
        let mut out = String::new();
        let mut i: usize = 0;
        while i < count
            invariant
                i <= count,
                count == grapheme_starts(self@.value).len(),
                out@ == Seq::new(i as nat, |j: int| '\u{2022}'),
            decreases count - i,
        {
            push_char(&mut out, '\u{2022}');
            i = i + 1;
            proof {
                assert(out@ =~= Seq::new(i as nat, |j: int| '\u{2022}'));
            }
        }
        out
    }
}

/// The runs in which displayed text of `len` bytes is drawn, as `(length,
/// underlined)`: the composition is underlined, and empty runs are left out.
pub open spec fn text_runs_spec(v: InputView, len: int) -> Seq<(usize, bool)> {
    match v.marked {
        None => seq![(len as usize, false)],
        Some(m) => {
            let a = v.display_offset(m.start as int);
            let b = v.display_offset(m.end as int);
            let mid = if b >= a { b - a } else { 0 };
            let tail = if len >= b { len - b } else { 0 };
            let s1 = if a > 0 { seq![(a as usize, false)] } else { Seq::empty() };
            let s2 = if mid > 0 { s1.push((mid as usize, true)) } else { s1 };
            if tail > 0 { s2.push((tail as usize, false)) } else { s2 }
        },
    }
}

impl InputState {
    /// The runs in which the displayed text (`display_len` bytes) is drawn.
    pub fn text_runs(&self, display_len: usize) -> (r: Vec<(usize, bool)>)
        requires
            byte_len(self@.value) <= usize::MAX / BULLET_LEN,
        ensures
            r@ == text_runs_spec(self@, display_len as int),
    {
        let mut runs: Vec<(usize, bool)> = Vec::new();
        match &self.marked {
            None => {
                runs.push((display_len, false));
                proof {
                    assert(runs@ =~= seq![(display_len, false)]);
                }
            },
            Some(m) => {
                let a = self.display_offset(m.start);
                let b = self.display_offset(m.end);
                let mid = if b >= a { b - a } else { 0 };
                let tail = if display_len >= b { display_len - b } else { 0 };
                if a > 0 {
                    runs.push((a, false));
                }
                if mid > 0 {
                    runs.push((mid, true));
                }
                if tail > 0 {
                    runs.push((tail, false));
                }
                proof {
                    let s1 = if a > 0 { seq![(a, false)] } else { Seq::<(usize, bool)>::empty() };
                    let s2 = if mid > 0 { s1.push((mid, true)) } else { s1 };
                    let s3 = if tail > 0 { s2.push((tail, false)) } else { s2 };
                    assert(runs@ =~= s3);
                }
            },
        }
        runs
    }

    /// Whether the cursor is drawn: the input has focus in its window, is
    /// enabled, the cursor is in its visible phase and nothing is selected.
    pub fn draws_cursor(&self, window_focused: bool) -> (r: bool)
        ensures
            r == (window_focused && !self@.disabled && self@.cursor_visible && self@.selection.start
                == self@.selection.end),
    {
        window_focused && !self.disabled && self.cursor_visible && self.selection.start == self.selection.end
    }

    /// Whether the selection is drawn: the input has focus in its window, is
    /// enabled, and something is selected.
    pub fn draws_selection(&self, window_focused: bool) -> (r: bool)
        ensures
            r == (window_focused && !self@.disabled && self@.selection.start != self@.selection.end),
    {
        window_focused && !self.disabled && self.selection.start != self.selection.end
    }
}

} // verus!
