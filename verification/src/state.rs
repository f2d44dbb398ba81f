//! The one-time-code state: its value, selected box, mask, and any IME
//! composition, with every edit and the effects it asks the host for.

use vstd::prelude::*;
use core::ops::Range;
use crate::model::{
    lemma_overlay_digits, least, padded_at, CompositionView, CursorBlink, EffectsView, OtpEvent,
    OtpView, MASK_CHAR,
};
use crate::text::{
    all_digits, byte_len, chars_of, clean, clean_chars, filter_digits, lemma_clean_shape,
    lemma_digits_shape, lemma_prefix_len, lemma_utf16_le_utf8, locate, splice,
    string_from, sub_chars, utf16_count, utf16_len, utf8_len, utf8_width,
};

verus! {

/// The effects of one operation, for the host to carry out.
pub struct Effects {
    /// Move keyboard focus to the input.
    pub focus: bool,
    pub cursor: CursorBlink,
    /// Events to emit, in order.
    pub events: Vec<OtpEvent>,
    /// Redraw the input.
    pub notify: bool,
}

impl View for Effects {
    type V = EffectsView;

    open spec fn view(&self) -> EffectsView {
        EffectsView {
            focus: self.focus,
            cursor: self.cursor,
            events: self.events@,
            notify: self.notify,
        }
    }
}

impl Effects {
    pub fn none() -> (e: Effects)
        ensures
            e@ == EffectsView::none(),
    {
        Effects { focus: false, cursor: CursorBlink::Unchanged, events: Vec::new(), notify: false }
    }

    pub fn redraw() -> (e: Effects)
        ensures
            e@ == EffectsView::redraw(),
    {
        Effects { focus: false, cursor: CursorBlink::Unchanged, events: Vec::new(), notify: true }
    }

    fn refocus() -> (e: Effects)
        ensures
            e@ == EffectsView::refocus(),
    {
        Effects { focus: true, cursor: CursorBlink::Pause, events: Vec::new(), notify: true }
    }

    /// These effects followed by `next`.
    pub fn followed_by(self, next: Effects) -> (e: Effects)
        ensures
            e@ == self@.followed_by(next@),
    {
        let mut events = self.events;
        let mut more = next.events;
        events.append(&mut more);
        Effects {
            focus: self.focus || next.focus,
            cursor: match next.cursor {
                CursorBlink::Unchanged => self.cursor,
                other => other,
            },
            events,
            notify: self.notify || next.notify,
        }
    }
}

/// An IME composition in progress.
struct Composition {
    text: String,
    marked: Range<usize>,
    selected: Range<usize>,
}

impl Composition {
    spec fn model(&self) -> CompositionView {
        CompositionView { text: self.text@, marked: self.marked, selected: self.selected }
    }
}

/// Stateful input and focus behavior for a fixed-length numeric one-time code.
pub struct OtpState {
    value: String,
    masked: bool,
    length: usize,
    active_index: usize,
    disabled: bool,
    composition: Option<Composition>,
}

impl View for OtpState {
    type V = OtpView;

    closed spec fn view(&self) -> OtpView {
        OtpView {
            value: self.value@,
            masked: self.masked,
            length: self.length,
            active: self.active_index,
            disabled: self.disabled,
            composition: match self.composition {
                Some(c) => Some(c.model()),
                None => None,
            },
        }
    }
}

impl OtpState {
    #[verifier::type_invariant]
    spec fn well_formed(self) -> bool {
        self@.wf()
    }

    /// Makes the state's invariant known to a caller's proof: the value holds
    /// only ASCII digits, at most one per box, and the selected box exists.
    /// Does nothing at run time.
    pub fn assure_well_formed(&self)
        ensures
            self@.wf(),
    {
        proof {
            use_type_invariant(self);
        }
    }

    /// A state with `length` boxes, empty, unmasked and enabled.
    pub fn new(length: usize) -> (s: Self)
        ensures
            s@ == OtpView::fresh(length),
            s@.wf(),
    {
        OtpState {
            value: String::new(),
            masked: false,
            length,
            active_index: 0,
            disabled: false,
            composition: None,
        }
    }

    /// Starts from the first digits of `value`.
    pub fn default_value(self, value: &str) -> (s: Self)
        ensures
            s@ == self@.with_value(clean(value@, self@.length as nat)),
            s@.wf(),
    {
        proof {
            use_type_invariant(&self);
            lemma_clean_shape(value@, self.length as nat);
        }
        let code = self.clean(value);
        OtpState { value: string_from(&code), ..self }
    }

    /// Sets the value from code, ending any composition.
    pub fn set_value(&mut self, value: &str) -> (e: Effects)
        ensures
            final(self)@ == old(self)@.set_value(value@).0,
            e@ == old(self)@.set_value(value@).1,
    {
        proof {
            use_type_invariant(&*self);
            lemma_clean_shape(value@, self.length as nat);
        }
        let code = self.clean(value);
        let composing = self.composition.is_some();
        self.composition = None;
        let next = string_from(&code);
        if !(self.value == next) || composing {
            self.value = next;
            Effects::redraw()
        } else {
            Effects::none()
        }
    }

    pub fn value(&self) -> (v: &str)
        ensures
            v@ == self@.value,
    {
        self.value.as_str()
    }

    /// The number of boxes.
    pub fn len(&self) -> (n: usize)
        ensures
            n == self@.length,
    {
        self.length
    }

    /// The box selected for editing, kept when the value changes by code.
    pub fn active_index(&self) -> (i: usize)
        ensures
            i == self@.active,
    {
        self.active_index
    }

    /// The visible character for a box, including masking.
    pub fn display_char(&self, index: usize) -> (c: Option<char>)
        ensures
            c == self@.display_char(index),
    {
        let chars = chars_of(self.value.as_str());
        if index < chars.len() {
            Some(if self.masked { MASK_CHAR } else { chars[index] })
        } else {
            None
        }
    }

    pub fn is_empty(&self) -> (b: bool)
        ensures
            b == (self@.value.len() == 0),
    {
        self.value.as_str().is_empty()
    }

    pub fn is_masked(&self) -> (b: bool)
        ensures
            b == self@.masked,
    {
        self.masked
    }

    pub fn masked(self, masked: bool) -> (s: Self)
        ensures
            s@ == (OtpView { masked, ..self@ }),
            s@.wf(),
    {
        proof {
            use_type_invariant(&self);
        }
        OtpState { masked, ..self }
    }

    pub fn set_masked(&mut self, masked: bool) -> (e: Effects)
        ensures
            final(self)@ == old(self)@.set_masked(masked).0,
            e@ == old(self)@.set_masked(masked).1,
    {
        proof {
            use_type_invariant(&*self);
        }
        self.masked = masked;
        Effects::redraw()
    }

    /// The first digits of `text`, one per box.
    fn clean(&self, text: &str) -> (code: Vec<char>)
        ensures
            code@ == clean(text@, self@.length as nat),
    {
        clean_chars(&chars_of(text), self.length)
    }

    /// Whether native text input is taken, given whether the input has focus.
    pub fn accepts_text_input(&self, focused: bool) -> (b: bool)
        ensures
            b == self@.accepts(focused),
    {
        !self.disabled && self.length > 0 && focused
    }

    /// Selects box `index` (clamped to the last box) and focuses the input.
    pub fn select_box(&mut self, index: usize) -> (e: Effects)
        ensures
            final(self)@ == old(self)@.select(index).0,
            e@ == old(self)@.select(index).1,
    {
        proof {
            use_type_invariant(&*self);
        }
        if self.disabled || self.length == 0 {
            return Effects::none();
        }
        self.active_index = if index < self.length { index } else { self.length - 1 };
        self.composition = None;
        Effects::refocus()
    }

    fn commit(&mut self, value: Vec<char>) -> (e: Effects)
        requires
            all_digits(value@),
            value@.len() <= old(self)@.length,
        ensures
            final(self)@ == old(self)@.commit(value@).0,
            e@ == old(self)@.commit(value@).1,
    {
        proof {
            use_type_invariant(&*self);
        }
        let filled = self.length > 0 && value.len() == self.length;
        self.value = string_from(&value);
        let mut events: Vec<OtpEvent> = Vec::new();
        events.push(OtpEvent::Change);
        if filled {
            events.push(OtpEvent::Complete);
        }
        proof {
            if filled {
                assert(events@ =~= seq![OtpEvent::Change, OtpEvent::Complete]);
            } else {
                assert(events@ =~= seq![OtpEvent::Change]);
            }
        }
        Effects { focus: false, cursor: CursorBlink::Pause, events, notify: true }
    }

    fn write_from(&mut self, text: &Vec<char>, focused: bool) -> (e: Effects)
        ensures
            final(self)@ == old(self)@.write(text@, focused).0,
            e@ == old(self)@.write(text@, focused).1,
    {
        proof {
            use_type_invariant(&*self);
            lemma_clean_shape(text@, self.length as nat);
        }
        let code = self.clean_vec(text);
        if code.len() == 0 || !self.accepts_text_input(focused) {
            return Effects::none();
        }
        let length = self.length;
        let at = self.active_index;
        let mut boxes = chars_of(self.value.as_str());
        let ghost value = boxes@;
        boxes.resize(length, ' ');
        assert forall|p: int| 0 <= p < length implies #[trigger] boxes@[p] == padded_at(value, p) by {
            if p < value.len() {
                assert(boxes@[p] == boxes@.subrange(0, value.len() as int)[p]);
            }
        }
        let mut i: usize = 0;
        while i < code.len() && at + i < length
            invariant
                boxes@.len() == length,
                at < length,
                i <= code@.len(),
                at + i <= length,
                forall|p: int|
                    0 <= p < length ==> #[trigger] boxes@[p] == if at <= p < at + i {
                        code@[p - at]
                    } else {
                        padded_at(value, p)
                    },
            decreases code.len() - i,
        {
            boxes.set(at + i, code[i]);
            i = i + 1;
        }
        let next_value = filter_digits(&boxes);
        proof {
            assert(i == least(code@.len() as int, length - at));
            lemma_overlay_digits(value, at as int, code@, length as int, boxes@);
            lemma_digits_shape(boxes@);
        }
        let e1 = self.select_box(at.saturating_add(code.len()));
        let e2 = self.commit(next_value);
        e1.followed_by(e2)
    }

    /// The value, one character per filled box.
    fn value_chars(&self) -> (chars: Vec<char>)
        ensures
            chars@ == self@.value,
    {
        chars_of(self.value.as_str())
    }

    /// Removes the digit in the selected box, if there is one.
    pub fn delete(&mut self, focused: bool) -> (e: Effects)
        ensures
            final(self)@ == old(self)@.delete(focused).0,
            e@ == old(self)@.delete(focused).1,
    {
        proof {
            use_type_invariant(&*self);
        }
        if !self.accepts_text_input(focused) {
            return Effects::none();
        }
        self.composition = None;
        let mut chars = self.value_chars();
        if self.active_index < chars.len() {
            chars.remove(self.active_index);
        }
        assert(all_digits(chars@));
        self.commit(chars)
    }

    /// Deletes the digit in the selected box, or the one before it when the
    /// selected box is past the end of the value.
    pub fn backspace(&mut self, focused: bool) -> (e: Effects)
        ensures
            final(self)@ == old(self)@.backspace(focused).0,
            e@ == old(self)@.backspace(focused).1,
    {
        let filled = self.value_chars().len();
        let index = if self.active_index < filled {
            self.active_index
        } else {
            self.active_index.saturating_sub(1)
        };
        let e1 = self.select_box(index);
        let e2 = self.delete(focused || e1.focus);
        e1.followed_by(e2)
    }

    pub fn move_left(&mut self) -> (e: Effects)
        ensures
            final(self)@ == old(self)@.move_left().0,
            e@ == old(self)@.move_left().1,
    {
        self.select_box(self.active_index.saturating_sub(1))
    }

    pub fn move_right(&mut self) -> (e: Effects)
        ensures
            final(self)@ == old(self)@.move_right().0,
            e@ == old(self)@.move_right().1,
    {
        self.select_box(self.active_index.saturating_add(1))
    }

    /// Ends any composition and types the pasted `text`.
    pub fn paste(&mut self, text: &str, focused: bool) -> (e: Effects)
        ensures
            final(self)@ == old(self)@.paste(text@, focused).0,
            e@ == old(self)@.paste(text@, focused).1,
    {
        proof {
            use_type_invariant(&*self);
        }
        self.composition = None;
        let chars = chars_of(text);
        self.write_from(&chars, focused)
    }

    pub fn on_focus(&self) -> (e: Effects)
        ensures
            e@ == self@.gain_focus().1,
    {
        let mut events: Vec<OtpEvent> = Vec::new();
        events.push(OtpEvent::Focus);
        assert(events@ =~= seq![OtpEvent::Focus]);
        Effects { focus: false, cursor: CursorBlink::Start, events, notify: false }
    }

    pub fn on_blur(&mut self) -> (e: Effects)
        ensures
            final(self)@ == old(self)@.lose_focus().0,
            e@ == old(self)@.lose_focus().1,
    {
        proof {
            use_type_invariant(&*self);
        }
        self.composition = None;
        let mut events: Vec<OtpEvent> = Vec::new();
        events.push(OtpEvent::Blur);
        assert(events@ =~= seq![OtpEvent::Blur]);
        Effects { focus: false, cursor: CursorBlink::Stop, events, notify: false }
    }

    /// The text that native input sees: the composition, else the digit in
    /// the selected box, else nothing.
    pub fn input_text(&self) -> (t: String)
        ensures
            t@ == self@.input_text(),
    {
        string_from(&self.input_chars())
    }

    fn input_chars(&self) -> (t: Vec<char>)
        ensures
            t@ == self@.input_text(),
            utf8_len(t@) <= usize::MAX,
    {
        proof {
            use_type_invariant(self);
        }
        match &self.composition {
            Some(c) => {
                let _ = byte_len(c.text.as_str());
                chars_of(c.text.as_str())
            },
            None => {
                let chars = self.value_chars();
                let mut t: Vec<char> = Vec::new();
                if self.active_index < chars.len() {
                    t.push(chars[self.active_index]);
                    assert(t@ =~= seq![chars@[self.active_index as int]]);
                    assert(t@.drop_last() =~= Seq::<char>::empty());
                    assert(utf8_len(t@) == utf8_len(t@.drop_last()) + utf8_width(t@.last()));
                } else {
                    assert(utf8_len(t@) == 0);
                }
                t
            },
        }
    }

    fn input_selection(&self) -> (r: Range<usize>)
        ensures
            r == self@.input_selection(),
    {
        match &self.composition {
            Some(c) => c.selected.start..c.selected.end,
            None => 0..(if self.active_index < self.value_chars().len() { 1 } else { 0 }),
        }
    }

    fn replacement_range(&self, range: Option<Range<usize>>) -> (r: Range<usize>)
        ensures
            r == self@.replacement_range(range),
    {
        match range {
            Some(r) => r,
            None => match &self.composition {
                Some(c) => c.marked.start..c.marked.end,
                None => self.input_selection(),
            },
        }
    }

    /// The input text in the UTF-16 range `range`, widened to whole
    /// characters; `adjusted` receives the widened range.
    pub fn text_for_range(&self, range: Range<usize>, adjusted: &mut Option<Range<usize>>) -> (t:
        Option<String>)
        ensures
            t is Some,
            t.unwrap()@ == self@.text_for_range(range).0,
            *final(adjusted) == Some(self@.text_for_range(range).1),
    {
        let text = self.input_chars();
        let sp = locate(&text, range.start, range.end);
        *adjusted = Some(sp.start_utf16..sp.end_utf16);
        Some(string_from(&sub_chars(&text, sp.start_char, sp.end_char)))
    }

    /// The selection, when input is taken or `ignore_disabled_input` is set.
    pub fn selected_text_range(&self, ignore_disabled_input: bool, focused: bool) -> (r: Option<
        Range<usize>,
    >)
        ensures
            r == self@.selected_range(ignore_disabled_input, focused),
    {
        if ignore_disabled_input || self.accepts_text_input(focused) {
            Some(self.input_selection())
        } else {
            None
        }
    }

    pub fn marked_text_range(&self) -> (r: Option<Range<usize>>)
        ensures
            r == self@.marked_range(),
    {
        match &self.composition {
            Some(c) => Some(c.marked.start..c.marked.end),
            None => None,
        }
    }

    /// Commits a composition in progress as typed text.
    pub fn unmark_text(&mut self, focused: bool) -> (e: Effects)
        ensures
            final(self)@ == old(self)@.unmark(focused).0,
            e@ == old(self)@.unmark(focused).1,
    {
        proof {
            use_type_invariant(&*self);
        }
        let composed = match &self.composition {
            Some(c) => Some(chars_of(c.text.as_str())),
            None => None,
        };
        match composed {
            Some(text) => {
                self.composition = None;
                let e = self.write_from(&text, focused);
                e.followed_by(Effects::redraw())
            },
            None => Effects::none(),
        }
    }

    /// Replaces a range of the input text with `text` and types the result.
    pub fn replace_text_in_range(&mut self, range: Option<Range<usize>>, text: &str, focused: bool) -> (e:
        Effects)
        ensures
            final(self)@ == old(self)@.replace(range, text@, focused).0,
            e@ == old(self)@.replace(range, text@, focused).1,
    {
        proof {
            use_type_invariant(&*self);
        }
        if !self.accepts_text_input(focused) {
            return Effects::none();
        }
        let current = self.input_chars();
        let r = self.replacement_range(range);
        let sp = locate(&current, r.start, r.end);
        let replaced = splice(&current, sp.start_char, sp.end_char, &chars_of(text));
        let composing = self.composition.is_some();
        self.composition = None;
        let e = if replaced.len() == 0 && !composing {
            self.delete(focused)
        } else {
            self.write_from(&replaced, focused)
        };
        if composing {
            e.followed_by(Effects::redraw())
        } else {
            e
        }
    }

    /// Replaces a range of the input text with `text` and keeps the result as
    /// a composition with the inserted text marked.
    pub fn replace_and_mark_text_in_range(
        &mut self,
        range: Option<Range<usize>>,
        text: &str,
        selected: Option<Range<usize>>,
        focused: bool,
    ) -> (e: Effects)
        requires
            utf8_len(old(self)@.input_text()) + utf8_len(text@) <= usize::MAX,
        ensures
            final(self)@ == old(self)@.replace_and_mark(range, text@, selected, focused).0,
            e@ == old(self)@.replace_and_mark(range, text@, selected, focused).1,
    {
        proof {
            use_type_invariant(&*self);
        }
        if !self.accepts_text_input(focused) {
            return Effects::none();
        }
        let current = self.input_chars();
        let r = self.replacement_range(range);
        let sp = locate(&current, r.start, r.end);
        let inserted = chars_of(text);
        proof {
            lemma_prefix_len(current@, sp.start_char as int);
            lemma_utf16_le_utf8(current@.take(sp.start_char as int));
            lemma_utf16_le_utf8(text@);
        }
        let start = sp.start_utf16;
        let len = utf16_count(&inserted);
        let end = start + len;
        let composed = splice(&current, sp.start_char, sp.end_char, &inserted);
        let sel = match selected {
            None => end..end,
            Some(s) => {
                let hi = if s.end < s.start { s.start } else { s.end };
                (start + if s.start < len { s.start } else { len })..(start + if hi < len { hi } else { len })
            },
        };
        self.composition = Some(Composition { text: string_from(&composed), marked: start..end, selected: sel });
        Effects::redraw()
    }

    /// The length of the input text in UTF-16 code units.
    pub fn text_length_utf16(&self) -> (n: Option<usize>)
        ensures
            n == Some(utf16_len(self@.input_text()) as usize),
    {
        Some(utf16_count(&self.input_chars()))
    }

    /// Takes the input's disabled flag; disabling ends any composition.
    pub fn sync_disabled(&mut self, disabled: bool)
        ensures
            final(self)@ == old(self)@.sync_disabled(disabled),
    {
        proof {
            use_type_invariant(&*self);
        }
        self.disabled = disabled;
        if disabled {
            self.composition = None;
        }
    }

    /// Whether native text input goes to the input, or, for `cell`, to that box.
    pub fn handles_input(&self, input_disabled: bool, cell: Option<usize>, focused: bool) -> (b: bool)
        ensures
            b == self@.handles_input(input_disabled, cell, focused),
    {
        let other_cell = match cell {
            Some(i) => i != self.active_index,
            None => false,
        };
        !(input_disabled || self.length == 0 || other_cell || !focused)
    }

    /// A press on box `index` of an input that may be disabled.
    pub fn press_cell(&mut self, index: usize, input_disabled: bool) -> (e: Effects)
        ensures
            final(self)@ == old(self)@.press_cell(index, input_disabled).0,
            e@ == old(self)@.press_cell(index, input_disabled).1,
    {
        if input_disabled {
            Effects::none()
        } else {
            self.select_box(index)
        }
    }

    /// Whether the input takes keyboard focus and edit actions.
    pub fn takes_focus(&self, input_disabled: bool) -> (b: bool)
        ensures
            b == self@.takes_focus(input_disabled),
    {
        !input_disabled && self.length > 0
    }

    fn clean_vec(&self, text: &Vec<char>) -> (code: Vec<char>)
        ensures
            code@ == clean(text@, self@.length as nat),
    {
        clean_chars(text, self.length)
    }
}

} // verus!
