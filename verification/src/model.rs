//! The abstract state of a one-time-code input, and what every operation
//! does to it: the next state and the effects that the host carries out.

use vstd::prelude::*;
use core::ops::Range;
use crate::text::{
    all_digits, char_span, clean, digits, is_digit, lemma_digits_concat, lemma_digits_of_digits,
    lemma_digits_of_none, no_digits, utf16_len, utf8_len,
};

verus! {

/// The character shown in a box while the code is masked.
pub const MASK_CHAR: char = '\u{2022}';

/// A semantic notification from a one-time-code state.
#[derive(Clone, Copy, PartialEq, Eq, Debug, Structural)]
pub enum OtpEvent {
    /// A text edit committed a value.
    Change,
    /// A text edit filled the code.
    Complete,
    Focus,
    Blur,
}

/// What the host does with the blinking cursor.
#[derive(Clone, Copy, PartialEq, Eq, Debug, Structural)]
pub enum CursorBlink {
    Unchanged,
    Pause,
    Start,
    Stop,
}

/// The effects of one operation, as values.
pub struct EffectsView {
    /// Move keyboard focus to the input.
    pub focus: bool,
    pub cursor: CursorBlink,
    /// Events to emit, in order.
    pub events: Seq<OtpEvent>,
    /// Redraw the input.
    pub notify: bool,
}

impl EffectsView {
    /// No effect at all.
    pub open spec fn none() -> EffectsView {
        EffectsView { focus: false, cursor: CursorBlink::Unchanged, events: Seq::empty(), notify: false }
    }

    /// Only a redraw.
    pub open spec fn redraw() -> EffectsView {
        EffectsView { focus: false, cursor: CursorBlink::Unchanged, events: Seq::empty(), notify: true }
    }

    /// What selecting a box does: focus, pause the cursor, redraw.
    pub open spec fn refocus() -> EffectsView {
        EffectsView { focus: true, cursor: CursorBlink::Pause, events: Seq::empty(), notify: true }
    }

    /// These effects followed by `next`.
    pub open spec fn followed_by(self, next: EffectsView) -> EffectsView {
        EffectsView {
            focus: self.focus || next.focus,
            cursor: if next.cursor == CursorBlink::Unchanged { self.cursor } else { next.cursor },
            events: self.events + next.events,
            notify: self.notify || next.notify,
        }
    }
}

/// An IME composition in progress, as values.
pub struct CompositionView {
    /// The text being composed.
    pub text: Seq<char>,
    /// The marked range, in UTF-16 code units of `text`.
    pub marked: Range<usize>,
    /// The selected range, in UTF-16 code units of `text`.
    pub selected: Range<usize>,
}

/// The state of a one-time-code input, as values.
pub struct OtpView {
    /// The code entered so far.
    pub value: Seq<char>,
    pub masked: bool,
    /// The number of boxes.
    pub length: usize,
    /// The box selected for editing.
    pub active: usize,
    pub disabled: bool,
    pub composition: Option<CompositionView>,
}

/// `a + b`, or `usize::MAX` where that overflows.
pub open spec fn saturating_add(a: usize, b: int) -> usize {
    if a + b > usize::MAX { usize::MAX } else { (a + b) as usize }
}

/// `a - 1`, or 0.
pub open spec fn saturating_dec(a: usize) -> usize {
    if a == 0 { 0 } else { (a - 1) as usize }
}

/// `a <= b ? a : b` over integers.
pub open spec fn least(a: int, b: int) -> int {
    if a <= b { a } else { b }
}

/// `value` with the digits `code` written over it from box `at` on, as far
/// as the `length` boxes reach; boxes that were empty close up.
pub open spec fn overwrite(value: Seq<char>, at: int, code: Seq<char>, length: int) -> Seq<char> {
    let k = least(code.len() as int, length - at);
    value.take(least(at, value.len() as int)) + code.take(k) + value.skip(
        least(at + k, value.len() as int),
    )
}

/// Box `p` of `value` padded with spaces to every box.
pub open spec fn padded_at(value: Seq<char>, p: int) -> char {
    if p < value.len() { value[p] } else { ' ' }
}

/// Writing `code` over the boxes of `value` padded with blanks, then keeping
/// the digits, gives `overwrite`.
pub proof fn lemma_overlay_digits(value: Seq<char>, at: int, code: Seq<char>, length: int, boxes: Seq<char>)
    requires
        all_digits(value),
        all_digits(code),
        value.len() <= length,
        0 <= at < length,
        boxes.len() == length,
        forall|p: int|
            0 <= p < length ==> #[trigger] boxes[p] == if at <= p < at + least(code.len() as int, length - at) {
                code[p - at]
            } else {
                padded_at(value, p)
            },
    ensures
        digits(boxes) == overwrite(value, at, code, length),
{
    let k = least(code.len() as int, length - at);
    let m = least(at, value.len() as int);
    let m2 = least(at + k, value.len() as int);
    let hi = if at + k < value.len() { value.len() as int } else { at + k };
    let p1 = boxes.subrange(0, m);
    let p2 = boxes.subrange(m, at);
    let p3 = boxes.subrange(at, at + k);
    let p4 = boxes.subrange(at + k, hi);
    let p5 = boxes.subrange(hi, length);
    assert(boxes =~= p1 + p2 + p3 + p4 + p5);
    assert(p1 =~= value.take(m));
    assert(no_digits(p2));
    assert(p3 =~= code.take(k));
    assert(p4 =~= value.skip(m2));
    assert(no_digits(p5));
    assert(all_digits(p1));
    assert(all_digits(p3));
    assert(all_digits(p4));
    lemma_digits_of_digits(p1);
    lemma_digits_of_digits(p3);
    lemma_digits_of_digits(p4);
    lemma_digits_of_none(p2);
    lemma_digits_of_none(p5);
    lemma_digits_concat(p1 + p2 + p3 + p4, p5);
    lemma_digits_concat(p1 + p2 + p3, p4);
    lemma_digits_concat(p1 + p2, p3);
    lemma_digits_concat(p1, p2);
    assert(digits(boxes) =~= p1 + p3 + p4);
}

/// The events of a committed edit: always `Change`, then `Complete` when the
/// new value fills every box.
pub open spec fn commit_events(length: usize, value: Seq<char>) -> Seq<OtpEvent> {
    if length > 0 && value.len() == length {
        seq![OtpEvent::Change, OtpEvent::Complete]
    } else {
        seq![OtpEvent::Change]
    }
}

impl OtpView {
    /// A fresh state with `length` boxes.
    pub open spec fn fresh(length: usize) -> OtpView {
        OtpView {
            value: Seq::empty(),
            masked: false,
            length,
            active: 0,
            disabled: false,
            composition: None,
        }
    }

    /// The value holds only digits, never more than there are boxes, and the
    /// selected box exists (box 0 when there are none).
    pub open spec fn wf(self) -> bool {
        &&& all_digits(self.value)
        &&& self.value.len() <= self.length
        &&& if self.length == 0 { self.active == 0 } else { self.active < self.length }
    }

    /// Text input is taken only while enabled, with boxes, and focused.
    pub open spec fn accepts(self, focused: bool) -> bool {
        !self.disabled && self.length > 0 && focused
    }

    pub open spec fn without_composition(self) -> OtpView {
        OtpView { composition: None, ..self }
    }

    pub open spec fn with_value(self, value: Seq<char>) -> OtpView {
        OtpView { value, ..self }
    }

    /// Selects box `index` (clamped to the last box) and focuses the input.
    pub open spec fn select(self, index: usize) -> (OtpView, EffectsView) {
        if self.disabled || self.length == 0 {
            (self, EffectsView::none())
        } else {
            let active = if index < self.length { index } else { (self.length - 1) as usize };
            (OtpView { active, composition: None, ..self }, EffectsView::refocus())
        }
    }

    /// Stores an edited value and reports it.
    pub open spec fn commit(self, value: Seq<char>) -> (OtpView, EffectsView) {
        (
            self.with_value(value),
            EffectsView {
                focus: false,
                cursor: CursorBlink::Pause,
                events: commit_events(self.length, value),
                notify: true,
            },
        )
    }

    /// Types the digits of `text` into the boxes from the selected one on, then
    /// selects the box after the last one written.
    pub open spec fn write(self, text: Seq<char>, focused: bool) -> (OtpView, EffectsView) {
        let code = clean(text, self.length as nat);
        if code.len() == 0 || !self.accepts(focused) {
            (self, EffectsView::none())
        } else {
            let value = overwrite(self.value, self.active as int, code, self.length as int);
            let (s1, e1) = self.select(saturating_add(self.active, code.len() as int));
            let (s2, e2) = s1.commit(value);
            (s2, e1.followed_by(e2))
        }
    }

    /// Removes the digit in the selected box, if there is one.
    pub open spec fn delete(self, focused: bool) -> (OtpView, EffectsView) {
        if !self.accepts(focused) {
            (self, EffectsView::none())
        } else {
            let value = if self.active < self.value.len() {
                self.value.remove(self.active as int)
            } else {
                self.value
            };
            self.without_composition().commit(value)
        }
    }

    /// Deletes the digit in the selected box, or, past the end of the value,
    /// the one before it. Selecting the box focuses the input, so the
    /// deletion sees the input focused when the selection asked for focus.
    pub open spec fn backspace(self, focused: bool) -> (OtpView, EffectsView) {
        let index = if self.active < self.value.len() {
            self.active
        } else {
            saturating_dec(self.active)
        };
        let (s1, e1) = self.select(index);
        let (s2, e2) = s1.delete(focused || e1.focus);
        (s2, e1.followed_by(e2))
    }

    pub open spec fn move_left(self) -> (OtpView, EffectsView) {
        self.select(saturating_dec(self.active))
    }

    pub open spec fn move_right(self) -> (OtpView, EffectsView) {
        self.select(saturating_add(self.active, 1))
    }

    /// Ends any composition and types `text`.
    pub open spec fn paste(self, text: Seq<char>, focused: bool) -> (OtpView, EffectsView) {
        self.without_composition().write(text, focused)
    }

    pub open spec fn gain_focus(self) -> (OtpView, EffectsView) {
        (
            self,
            EffectsView {
                focus: false,
                cursor: CursorBlink::Start,
                events: seq![OtpEvent::Focus],
                notify: false,
            },
        )
    }

    pub open spec fn lose_focus(self) -> (OtpView, EffectsView) {
        (
            self.without_composition(),
            EffectsView {
                focus: false,
                cursor: CursorBlink::Stop,
                events: seq![OtpEvent::Blur],
                notify: false,
            },
        )
    }

    /// The text that native input sees: the composition, else the digit in
    /// the selected box, else nothing.
    pub open spec fn input_text(self) -> Seq<char> {
        match self.composition {
            Some(c) => c.text,
            None => if self.active < self.value.len() {
                seq![self.value[self.active as int]]
            } else {
                Seq::empty()
            },
        }
    }

    /// The selection that native input sees, in UTF-16 code units.
    pub open spec fn input_selection(self) -> Range<usize> {
        match self.composition {
            Some(c) => c.selected,
            None => Range { start: 0, end: if self.active < self.value.len() { 1 } else { 0 } },
        }
    }

    /// The range an edit replaces: the one given, else the marked range,
    /// else the selection.
    pub open spec fn replacement_range(self, range: Option<Range<usize>>) -> Range<usize> {
        match range {
            Some(r) => r,
            None => match self.composition {
                Some(c) => c.marked,
                None => self.input_selection(),
            },
        }
    }

    /// The text in the UTF-16 range `range` of the input text, widened to
    /// whole characters, and that widened range.
    pub open spec fn text_for_range(self, range: Range<usize>) -> (Seq<char>, Range<usize>) {
        let t = self.input_text();
        let (j, k) = char_span(t, range.start as nat, range.end as nat);
        (
            t.subrange(j as int, k as int),
            Range {
                start: utf16_len(t.take(j as int)) as usize,
                end: utf16_len(t.take(k as int)) as usize,
            },
        )
    }

    pub open spec fn selected_range(self, ignore_disabled_input: bool, focused: bool) -> Option<
        Range<usize>,
    > {
        if ignore_disabled_input || self.accepts(focused) {
            Some(self.input_selection())
        } else {
            None
        }
    }

    pub open spec fn marked_range(self) -> Option<Range<usize>> {
        match self.composition {
            Some(c) => Some(c.marked),
            None => None,
        }
    }

    /// Commits a composition in progress as typed text.
    pub open spec fn unmark(self, focused: bool) -> (OtpView, EffectsView) {
        match self.composition {
            Some(c) => {
                let (s, e) = self.without_composition().write(c.text, focused);
                (s, e.followed_by(EffectsView::redraw()))
            },
            None => (self, EffectsView::none()),
        }
    }

    /// Replaces a range of the input text with `text` and types the result;
    /// an edit that leaves nothing outside a composition deletes instead.
    pub open spec fn replace(self, range: Option<Range<usize>>, text: Seq<char>, focused: bool) -> (
        OtpView,
        EffectsView,
    ) {
        if !self.accepts(focused) {
            (self, EffectsView::none())
        } else {
            let current = self.input_text();
            let r = self.replacement_range(range);
            let (j, k) = char_span(current, r.start as nat, r.end as nat);
            let replaced = current.take(j as int) + text + current.skip(k as int);
            let composing = self.composition is Some;
            let s1 = self.without_composition();
            let (s2, e2) = if replaced.len() == 0 && !composing {
                s1.delete(focused)
            } else {
                s1.write(replaced, focused)
            };
            (s2, if composing { e2.followed_by(EffectsView::redraw()) } else { e2 })
        }
    }

    /// Replaces a range of the input text with `text` and keeps the result as
    /// a composition, marking the inserted text.
    pub open spec fn replace_and_mark(
        self,
        range: Option<Range<usize>>,
        text: Seq<char>,
        selected: Option<Range<usize>>,
        focused: bool,
    ) -> (OtpView, EffectsView) {
        if !self.accepts(focused) {
            (self, EffectsView::none())
        } else {
            let current = self.input_text();
            let r = self.replacement_range(range);
            let (j, k) = char_span(current, r.start as nat, r.end as nat);
            let start = utf16_len(current.take(j as int)) as int;
            let len = utf16_len(text) as int;
            let end = start + len;
            let sel = match selected {
                None => Range { start: end as usize, end: end as usize },
                Some(s) => Range {
                    start: (start + least(s.start as int, len)) as usize,
                    end: (start + least(if s.end < s.start { s.start as int } else { s.end as int }, len)) as usize,
                },
            };
            (
                OtpView {
                    composition: Some(
                        CompositionView {
                            text: current.take(j as int) + text + current.skip(k as int),
                            marked: Range { start: start as usize, end: end as usize },
                            selected: sel,
                        },
                    ),
                    ..self
                },
                EffectsView::redraw(),
            )
        }
    }

    /// Sets the value from code: its first digits, ending any composition;
    /// redraws when something changed.
    pub open spec fn set_value(self, text: Seq<char>) -> (OtpView, EffectsView) {
        let value = clean(text, self.length as nat);
        let composing = self.composition is Some;
        if self.value != value || composing {
            (self.without_composition().with_value(value), EffectsView::redraw())
        } else {
            (self.without_composition(), EffectsView::none())
        }
    }

    pub open spec fn set_masked(self, masked: bool) -> (OtpView, EffectsView) {
        (OtpView { masked, ..self }, EffectsView::redraw())
    }

    /// Takes the input's disabled flag; disabling ends any composition.
    pub open spec fn sync_disabled(self, disabled: bool) -> OtpView {
        OtpView {
            disabled,
            composition: if disabled { None } else { self.composition },
            ..self
        }
    }

    /// The visible character for box `index`, masked or not; none past the value.
    pub open spec fn display_char(self, index: usize) -> Option<char> {
        if index < self.value.len() {
            Some(if self.masked { MASK_CHAR } else { self.value[index as int] })
        } else {
            None
        }
    }

    /// A press on box `index` of an input that may be disabled.
    pub open spec fn press_cell(self, index: usize, input_disabled: bool) -> (OtpView, EffectsView) {
        if input_disabled {
            (self, EffectsView::none())
        } else {
            self.select(index)
        }
    }

    /// Whether the input takes keyboard focus and edit actions.
    pub open spec fn takes_focus(self, input_disabled: bool) -> bool {
        !input_disabled && self.length > 0
    }

    /// Whether native text input goes to the input (for `cell`, to that box).
    pub open spec fn handles_input(self, input_disabled: bool, cell: Option<usize>, focused: bool) -> bool {
        !(input_disabled || self.length == 0 || (cell matches Some(i) && i != self.active) || !focused)
    }
}

} // verus!
