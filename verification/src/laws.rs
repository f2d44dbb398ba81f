//! Properties of the one-time-code state that hold across its operations.

use vstd::prelude::*;
use core::ops::Range;
use crate::model::{
    commit_events, least, overwrite, saturating_dec, EffectsView, OtpEvent, OtpView,
    MASK_CHAR,
};
use crate::text::{
    all_digits, char_span, clean, is_digit, is_subsequence, lemma_digit_positions,
    lemma_digits_of_digits, lemma_digits_of_none, lemma_utf16_le_utf8, lemma_utf8_len_concat,
    no_digits, digits, picks, lemma_clean_shape, lemma_prefix_len,
    lemma_span_end, lemma_span_start, span_end, span_start, utf16_len, utf8_len,
};

verus! {

proof fn lemma_overwrite_shape(value: Seq<char>, at: int, code: Seq<char>, length: int)
    requires
        all_digits(value),
        all_digits(code),
        value.len() <= length,
        0 <= at < length,
    ensures
        all_digits(overwrite(value, at, code, length)),
        overwrite(value, at, code, length).len() <= length,
{
    let r = overwrite(value, at, code, length);
    let k = least(code.len() as int, length - at);
    let m = least(at, value.len() as int);
    let m2 = least(at + k, value.len() as int);
    assert(r =~= value.take(m) + code.take(k) + value.skip(m2));
    assert forall|i: int| 0 <= i < r.len() implies is_digit(#[trigger] r[i]) by {
        if i < m {
            assert(r[i] == value[i]);
        } else if i < m + k {
            assert(r[i] == code[i - m]);
        } else {
            assert(r[i] == value[m2 + (i - m - k)]);
        }
    }
}

proof fn lemma_write_wf(v: OtpView, text: Seq<char>, focused: bool)
    requires
        v.wf(),
    ensures
        v.write(text, focused).0.wf(),
{
    let code = clean(text, v.length as nat);
    lemma_clean_shape(text, v.length as nat);
    if code.len() > 0 && v.accepts(focused) {
        lemma_overwrite_shape(v.value, v.active as int, code, v.length as int);
    }
}

proof fn lemma_delete_wf(v: OtpView, focused: bool)
    requires
        v.wf(),
    ensures
        v.delete(focused).0.wf(),
{
    if v.accepts(focused) && v.active < v.value.len() {
        let r = v.value.remove(v.active as int);
        assert forall|i: int| 0 <= i < r.len() implies is_digit(#[trigger] r[i]) by {
            if i < v.active {
                assert(r[i] == v.value[i]);
            } else {
                assert(r[i] == v.value[i + 1]);
            }
        }
    }
}

proof fn lemma_replace_wf(
    v: OtpView,
    range: Option<Range<usize>>,
    text: Seq<char>,
    selected: Option<Range<usize>>,
    focused: bool,
)
    requires
        v.wf(),
    ensures
        v.replace(range, text, focused).0.wf(),
        v.replace_and_mark(range, text, selected, focused).0.wf(),
{
    if v.accepts(focused) {
        let current = v.input_text();
        let r = v.replacement_range(range);
        let (j, k) = char_span(current, r.start as nat, r.end as nat);
        let replaced = current.take(j as int) + text + current.skip(k as int);
        lemma_write_wf(v.without_composition(), replaced, focused);
        lemma_delete_wf(v.without_composition(), focused);
    }
}

proof fn lemma_backspace_unmark_wf(v: OtpView, focused: bool)
    requires
        v.wf(),
    ensures
        v.backspace(focused).0.wf(),
        v.unmark(focused).0.wf(),
{
    let index = if v.active < v.value.len() { v.active } else { saturating_dec(v.active) };
    lemma_delete_wf(v.select(index).0, focused);
    match v.composition {
        Some(c) => lemma_write_wf(v.without_composition(), c.text, focused),
        None => {},
    }
}

/// Whatever is done to it, the code holds only ASCII digits, never more
/// than there are boxes, and its selected box exists.
pub proof fn law_edits_keep_the_code_well_formed(
    v: OtpView,
    text: Seq<char>,
    range: Option<Range<usize>>,
    selected: Option<Range<usize>>,
    index: usize,
    flag: bool,
    focused: bool,
)
    requires
        v.wf(),
    ensures
        OtpView::fresh(index).wf(),
        v.with_value(clean(text, v.length as nat)).wf(),
        v.set_value(text).0.wf(),
        v.select(index).0.wf(),
        v.press_cell(index, flag).0.wf(),
        v.move_left().0.wf(),
        v.move_right().0.wf(),
        v.write(text, focused).0.wf(),
        v.paste(text, focused).0.wf(),
        v.delete(focused).0.wf(),
        v.backspace(focused).0.wf(),
        v.unmark(focused).0.wf(),
        v.replace(range, text, focused).0.wf(),
        v.replace_and_mark(range, text, selected, focused).0.wf(),
        v.lose_focus().0.wf(),
        v.set_masked(flag).0.wf(),
        v.sync_disabled(flag).wf(),
{
    lemma_clean_shape(text, v.length as nat);
    lemma_write_wf(v, text, focused);
    lemma_write_wf(v.without_composition(), text, focused);
    lemma_delete_wf(v, focused);
    lemma_backspace_unmark_wf(v, focused);
    lemma_replace_wf(v, range, text, selected, focused);
}

/// Setting the value from code keeps the selected box, takes the first
/// digits of the text, and ends any composition, so that a later unmark
/// commits nothing; starting from a default value also keeps the box.
pub proof fn law_value_set_by_code(v: OtpView, text: Seq<char>, focused: bool)
    ensures
        v.set_value(text).0.active == v.active,
        v.set_value(text).0.value == clean(text, v.length as nat),
        v.set_value(text).0.composition is None,
        v.set_value(text).0.unmark(focused) == (v.set_value(text).0, EffectsView::none()),
        v.with_value(clean(text, v.length as nat)).active == v.active,
{
}

/// Setting the same value twice changes nothing the second time and asks
/// for no redraw.
pub proof fn law_set_value_is_idempotent(v: OtpView, text: Seq<char>)
    ensures
        v.set_value(text).0.set_value(text) == (v.set_value(text).0, EffectsView::none()),
{
}

/// A text edit reports `Change` exactly when it takes effect, and
/// `Complete` exactly when it leaves every box filled.
pub proof fn law_complete_exactly_when_filled(v: OtpView, text: Seq<char>, focused: bool)
    requires
        v.wf(),
    ensures
        ({
            let (s, e) = v.write(text, focused);
            let took = v.accepts(focused) && clean(text, v.length as nat).len() > 0;
            &&& e.events.contains(OtpEvent::Change) <==> took
            &&& e.events.contains(OtpEvent::Complete) <==> took && s.value.len() == s.length
            &&& !took ==> s == v && e == EffectsView::none()
        }),
{
    let (s, e) = v.write(text, focused);
    let took = v.accepts(focused) && clean(text, v.length as nat).len() > 0;
    if took {
        assert(e.events == commit_events(v.length, s.value));
        if s.value.len() == s.length {
            assert(e.events[1] == OtpEvent::Complete);
        } else {
            assert(e.events =~= seq![OtpEvent::Change]);
            assert(e.events[0] == OtpEvent::Change);
        }
        assert(e.events[0] == OtpEvent::Change);
    } else {
        assert(e.events =~= Seq::<OtpEvent>::empty());
    }
}

/// Deleting removes exactly the digit in the selected box, if any, and
/// never completes the code.
pub proof fn law_delete_removes_the_selected_digit(v: OtpView, focused: bool)
    requires
        v.wf(),
        v.accepts(focused),
    ensures
        v.delete(focused).0.value == if v.active < v.value.len() {
            v.value.remove(v.active as int)
        } else {
            v.value
        },
        v.delete(focused).0.active == v.active,
        v.delete(focused).1.events == seq![OtpEvent::Change],
{
}

/// Backspace in the box just past the last digit removes that digit and
/// selects its box.
pub proof fn law_backspace_at_end_removes_the_last_digit(v: OtpView, focused: bool)
    requires
        v.wf(),
        v.accepts(focused),
        v.value.len() > 0,
        v.active == v.value.len(),
    ensures
        v.backspace(focused).0.value == v.value.drop_last(),
        v.backspace(focused).0.active == v.active - 1,
{
    assert(v.value.remove(v.value.len() - 1) =~= v.value.drop_last());
}

/// Selecting a box clamps to the last box; moving right then left, or left
/// then right, comes back to the same box away from the edges.
pub proof fn law_moves_stay_in_the_boxes(v: OtpView, index: usize)
    requires
        v.wf(),
        !v.disabled,
        v.length > 0,
    ensures
        v.select(index).0.active == if index < v.length { index } else { (v.length - 1) as usize },
        v.move_right().0.active < v.length,
        v.active + 1 == v.length ==> v.move_right().0.active == v.active,
        v.active == 0 ==> v.move_left().0.active == 0,
        v.active + 1 < v.length ==> v.move_right().0.move_left().0.active == v.active,
        v.active > 0 ==> v.move_left().0.move_right().0.active == v.active,
{
}

/// Without boxes, while disabled, or without focus, text input changes
/// nothing and asks for nothing.
pub proof fn law_no_text_input_unless_accepted(
    v: OtpView,
    text: Seq<char>,
    range: Option<Range<usize>>,
    selected: Option<Range<usize>>,
    focused: bool,
)
    requires
        v.length == 0 || v.disabled || !focused,
    ensures
        v.write(text, focused) == (v, EffectsView::none()),
        v.delete(focused) == (v, EffectsView::none()),
        v.replace(range, text, focused) == (v, EffectsView::none()),
        v.replace_and_mark(range, text, selected, focused) == (v, EffectsView::none()),
        v.length == 0 || v.disabled ==> v.select(0) == (v, EffectsView::none()),
{
}

/// Typing a whole code into an empty input fills every box, selects the
/// last one and completes the code.
pub proof fn law_full_code_completes(v: OtpView, text: Seq<char>, focused: bool)
    requires
        v.wf(),
        v.accepts(focused),
        v.value.len() == 0,
        v.active == 0,
        clean(text, v.length as nat).len() == v.length,
    ensures
        v.paste(text, focused).0.value == clean(text, v.length as nat),
        v.paste(text, focused).0.active == v.length - 1,
        v.paste(text, focused).1.events == seq![OtpEvent::Change, OtpEvent::Complete],
{
    let code = clean(text, v.length as nat);
    assert(overwrite(v.value, 0, code, v.length as int) =~= code);
}

/// A masked box shows the mask, an unmasked one its digit, and a box past
/// the value shows nothing.
pub proof fn law_display_masks_digits(v: OtpView, index: usize)
    requires
        v.wf(),
    ensures
        v.display_char(index) is Some <==> index < v.value.len(),
        v.masked && index < v.value.len() ==> v.display_char(index) == Some(MASK_CHAR),
        !v.masked && index < v.value.len() ==> is_digit(v.display_char(index).unwrap()),
{
}

/// A UTF-16 range selects whole characters: the selected span starts at
/// or before the range's start, ends at or past its end (or at the end of
/// the text), and its byte offsets lie within the text.
pub proof fn law_spans_keep_whole_characters(s: Seq<char>, start: nat, end: nat)
    ensures
        ({
            let (j, k) = char_span(s, start, end);
            &&& j <= k <= s.len()
            &&& utf16_len(s.take(j as int)) <= start
            &&& k < s.len() ==> utf16_len(s.take(k as int)) >= end
            &&& k < s.len() ==> utf16_len(s.take(k as int)) >= start
            &&& utf8_len(s.take(j as int)) <= utf8_len(s.take(k as int)) <= utf8_len(s)
        }),
{
    let target = if end < start { start } else { end };
    lemma_span_end(s, target, 0);
    let k = span_end(s, target, 0);
    lemma_span_start(s, start, k);
    let j = span_start(s, start, k);
    lemma_prefix_len(s, k as int);
    lemma_prefix_len(s.take(k as int), j as int);
    assert(s.take(k as int).take(j as int) =~= s.take(j as int));
}

/// Cleaning keeps digits of the text in their order (a subsequence of it),
/// at most one per box, and cleaning again changes nothing.
pub proof fn law_clean_keeps_digits_in_order(text: Seq<char>, n: nat)
    ensures
        all_digits(clean(text, n)),
        clean(text, n).len() <= n,
        is_subsequence(clean(text, n), text),
        clean(clean(text, n), n) == clean(text, n),
{
    lemma_clean_shape(text, n);
    let c = clean(text, n);
    let idx = lemma_digit_positions(text);
    let picked = idx.take(c.len() as int);
    assert(picks(c, text, picked));
    lemma_digits_of_digits(c);
}

/// Marking a non-empty edit as a composition and then unmarking it leaves
/// the same state, and reports the same events, as making the edit directly.
pub proof fn law_mark_then_unmark_is_replace(
    v: OtpView,
    range: Option<Range<usize>>,
    text: Seq<char>,
    selected: Option<Range<usize>>,
    focused: bool,
)
    requires
        v.accepts(focused),
        text.len() > 0,
    ensures
        v.replace_and_mark(range, text, selected, focused).0.unmark(focused).0 == v.replace(
            range,
            text,
            focused,
        ).0,
        v.replace_and_mark(range, text, selected, focused).0.unmark(focused).1.events == v.replace(
            range,
            text,
            focused,
        ).1.events,
{
    let m = v.replace_and_mark(range, text, selected, focused).0;
    assert(m.without_composition() == v.without_composition());
    let current = v.input_text();
    let r = v.replacement_range(range);
    let (j, k) = char_span(current, r.start as nat, r.end as nat);
    let replaced = current.take(j as int) + text + current.skip(k as int);
    assert(replaced.len() > 0);
    let (s, e) = v.without_composition().write(replaced, focused);
    assert(e.followed_by(EffectsView::redraw()).events =~= e.events);
}

/// Every ASCII digit `0` to `9` is a code digit and nothing else is: a text
/// made only of `'0'..='9'` that fits in the boxes is kept whole, by the
/// cleaning and by setting the value from code, and a text with none of them
/// cleans to nothing.
pub proof fn law_ascii_digits_are_the_code_digits(v: OtpView, s: Seq<char>, n: nat)
    ensures
        (forall|i: int| 0 <= i < s.len() ==> '0' <= #[trigger] s[i] && s[i] <= '9') && s.len() <= n
            ==> clean(s, n) == s,
        (forall|i: int| 0 <= i < s.len() ==> '0' <= #[trigger] s[i] && s[i] <= '9') && s.len()
            <= v.length ==> v.set_value(s).0.value == s && v.with_value(clean(s, v.length as nat)).value
            == s,
        (forall|i: int| 0 <= i < s.len() ==> !('0' <= #[trigger] s[i] && s[i] <= '9')) ==> clean(s, n)
            == Seq::<char>::empty(),
{
    if forall|i: int| 0 <= i < s.len() ==> '0' <= #[trigger] s[i] && s[i] <= '9' {
        assert(all_digits(s));
        lemma_digits_of_digits(s);
    }
    if forall|i: int| 0 <= i < s.len() ==> !('0' <= #[trigger] s[i] && s[i] <= '9') {
        assert(no_digits(s));
        lemma_digits_of_none(s);
    }
}

proof fn lemma_bmp_prefix_units(s: Seq<char>, k: int)
    requires
        0 <= k <= s.len(),
        forall|i: int| 0 <= i < s.len() ==> (#[trigger] s[i] as u32) < 0x10000,
    ensures
        utf16_len(s.take(k)) == k,
    decreases k,
{
    if k > 0 {
        lemma_bmp_prefix_units(s, k - 1);
        assert(s.take(k).drop_last() =~= s.take(k - 1));
        assert(s.take(k).last() == s[k - 1]);
    } else {
        assert(s.take(0) =~= Seq::<char>::empty());
    }
}

proof fn lemma_bmp_span_end(s: Seq<char>, t: nat, k: nat)
    requires
        k <= t <= s.len(),
        forall|i: int| 0 <= i < s.len() ==> (#[trigger] s[i] as u32) < 0x10000,
    ensures
        span_end(s, t, k) == t,
    decreases t - k,
{
    lemma_bmp_prefix_units(s, k as int);
    if k < t {
        lemma_bmp_span_end(s, t, k + 1);
    }
}

proof fn lemma_astral_units(s: Seq<char>)
    requires
        forall|i: int| 0 <= i < s.len() ==> (#[trigger] s[i] as u32) >= 0x10000,
    ensures
        utf16_len(s) == 2 * s.len(),
    decreases s.len(),
{
    if s.len() > 0 {
        lemma_astral_units(s.drop_last());
        assert(s.last() == s[s.len() - 1]);
    }
}

/// A character below U+10000 takes one UTF-16 code unit and one at or above
/// it takes two; so in a text of characters below U+10000 the UTF-16 range
/// `i..i+1` selects exactly character `i`, and `byte_range` gives that
/// character's bytes.
pub proof fn law_utf16_units(s: Seq<char>, i: nat)
    ensures
        (forall|p: int| 0 <= p < s.len() ==> (#[trigger] s[p] as u32) < 0x10000) ==> utf16_len(s)
            == s.len(),
        (forall|p: int| 0 <= p < s.len() ==> (#[trigger] s[p] as u32) >= 0x10000) ==> utf16_len(s)
            == 2 * s.len(),
        (forall|p: int| 0 <= p < s.len() ==> (#[trigger] s[p] as u32) < 0x10000) && i < s.len()
            ==> char_span(s, i, i + 1) == (i, i + 1),
{
    if forall|p: int| 0 <= p < s.len() ==> (#[trigger] s[p] as u32) < 0x10000 {
        lemma_bmp_prefix_units(s, s.len() as int);
        assert(s.take(s.len() as int) =~= s);
        if i < s.len() {
            lemma_bmp_span_end(s, i + 1, 0);
            lemma_bmp_prefix_units(s, (i + 1) as int);
            lemma_bmp_prefix_units(s, i as int);
            assert(span_start(s, i, i + 1) == span_start(s, i, i));
        }
    }
    if forall|p: int| 0 <= p < s.len() ==> (#[trigger] s[p] as u32) >= 0x10000 {
        lemma_astral_units(s);
    }
}

/// Backspace on a box that holds a digit removes that box's digit and keeps
/// that box selected.
pub proof fn law_backspace_on_a_digit_removes_it(v: OtpView, focused: bool)
    requires
        v.wf(),
        v.accepts(focused),
        v.active < v.value.len(),
    ensures
        v.backspace(focused).0.value == v.value.remove(v.active as int),
        v.backspace(focused).0.active == v.active,
        v.backspace(focused).0.value.len() + 1 == v.value.len(),
{
}

proof fn lemma_units_positive(s: Seq<char>, k: int)
    requires
        0 <= k <= s.len(),
    ensures
        k <= utf16_len(s.take(k)),
        k < s.len() ==> utf16_len(s.take(k)) < utf16_len(s),
{
    lemma_utf16_le_utf8(s.take(k));
    lemma_utf16_le_utf8(s.skip(k));
    lemma_utf8_len_concat(s.take(k), s.skip(k));
    assert(s.take(k) + s.skip(k) =~= s);
}

proof fn lemma_whole_span_end(s: Seq<char>, t: nat, k: nat)
    requires
        k <= s.len(),
        utf16_len(s) <= t,
    ensures
        span_end(s, t, k) == s.len(),
    decreases s.len() - k,
{
    lemma_units_positive(s, k as int);
    if k < s.len() {
        lemma_whole_span_end(s, t, k + 1);
    }
}

proof fn lemma_whole_span_start(s: Seq<char>, k: nat)
    requires
        k <= s.len(),
    ensures
        span_start(s, 0, k) == 0,
    decreases k,
{
    lemma_units_positive(s, k as int);
    if k > 0 {
        lemma_whole_span_start(s, (k - 1) as nat);
    }
}

/// A range from 0 past the end of a text selects the whole text.
proof fn lemma_whole_span(s: Seq<char>, end: nat)
    requires
        utf16_len(s) <= end,
    ensures
        char_span(s, 0, end) == (0nat, s.len()),
{
    lemma_whole_span_end(s, end, 0);
    lemma_whole_span_start(s, s.len());
}

/// Replacing the whole of an IME composition with nothing ends the
/// composition and changes no digit of the code: no `Change` is reported.
pub proof fn law_emptying_a_composition_keeps_the_code(
    v: OtpView,
    range: Option<Range<usize>>,
    focused: bool,
)
    requires
        v.wf(),
        v.accepts(focused),
        v.composition is Some,
        match range {
            Some(r) => r.start == 0 && r.end >= utf16_len(v.composition->0.text),
            None => v.composition->0.marked.start == 0 && v.composition->0.marked.end >= utf16_len(
                v.composition->0.text,
            ),
        },
    ensures
        v.replace(range, Seq::empty(), focused).0.value == v.value,
        v.replace(range, Seq::empty(), focused).0.active == v.active,
        v.replace(range, Seq::empty(), focused).0.composition is None,
        !v.replace(range, Seq::empty(), focused).1.events.contains(OtpEvent::Change),
{
    let c = v.composition->0;
    let r = v.replacement_range(range);
    lemma_whole_span(c.text, r.end as nat);
    let e = v.replace(range, Seq::empty(), focused).1;
    assert(c.text.take(0) + Seq::<char>::empty() + c.text.skip(c.text.len() as int) =~= Seq::<
        char,
    >::empty());
    assert(digits(Seq::<char>::empty()) =~= Seq::<char>::empty());
    assert(e.events =~= Seq::<OtpEvent>::empty());
}

/// A composition typed into an empty box keeps the IME's selection: the
/// selected range given, relative to the inserted text, becomes the input's
/// selection, and the inserted text is the whole composition, marked from 0.
pub proof fn law_composition_keeps_the_selection(
    v: OtpView,
    text: Seq<char>,
    a: usize,
    b: usize,
)
    requires
        v.wf(),
        v.accepts(true),
        v.composition is None,
        v.active >= v.value.len(),
        a <= b <= utf16_len(text),
    ensures
        v.replace_and_mark(None, text, Some(Range { start: a, end: b }), true).0.input_selection()
            == (Range { start: a, end: b }),
        v.replace_and_mark(None, text, Some(Range { start: a, end: b }), true).0.input_text()
            == text,
        v.replace_and_mark(None, text, Some(Range { start: a, end: b }), true).0.marked_range()->0.start
            == 0,
        v.replace_and_mark(None, text, Some(Range { start: a, end: b }), true).0.value == v.value,
{
    let e: Seq<char> = Seq::empty();
    assert(v.input_text() =~= e);
    assert(span_end(e, 0, 0) == 0);
    assert(span_start(e, 0, 0) == 0);
    assert(e.take(0) =~= e);
    assert(e.take(0) + text + e.skip(0) =~= text);
}

/// Typing into a full code writes the typed digits over the boxes from the
/// selected one on, as far as the boxes reach, leaves every other box as it
/// was, and selects the box after the last one written (the last box at most).
pub proof fn law_typing_overwrites_from_the_selected_box(v: OtpView, text: Seq<char>, focused: bool)
    requires
        v.wf(),
        v.accepts(focused),
        v.value.len() == v.length,
        clean(text, v.length as nat).len() > 0,
    ensures
        ({
            let code = clean(text, v.length as nat);
            let s = v.write(text, focused).0;
            &&& s.value.len() == v.value.len()
            &&& forall|i: int|
                0 <= i < v.value.len() ==> #[trigger] s.value[i] == if v.active <= i < v.active
                    + code.len() {
                    code[i - v.active]
                } else {
                    v.value[i]
                }
            &&& s.active == if v.active + code.len() < v.length {
                v.active + code.len()
            } else {
                v.length - 1
            }
        }),
{
    let code = clean(text, v.length as nat);
    lemma_clean_shape(text, v.length as nat);
    let a = v.active as int;
    let len = v.length as int;
    let k = least(code.len() as int, len - a);
    let r = overwrite(v.value, a, code, len);
    assert(r =~= v.value.take(a) + code.take(k) + v.value.skip(a + k));
    assert forall|i: int| 0 <= i < v.value.len() implies #[trigger] r[i] == if a <= i < a + code.len() {
        code[i - a]
    } else {
        v.value[i]
    } by {
        if i < a {
        } else if i < a + k {
        } else {
            assert(r[i] == v.value.skip(a + k)[i - a - k]);
        }
    }
}

/// Without a composition, replacing the selected digit's text with some
/// text is typing that text, and replacing it with nothing is deleting it.
pub proof fn law_replacing_the_selected_digit(v: OtpView, text: Seq<char>, focused: bool)
    requires
        v.wf(),
        v.accepts(focused),
        v.composition is None,
        v.active < v.value.len(),
    ensures
        text.len() > 0 ==> v.replace(None, text, focused) == v.paste(text, focused),
        text.len() == 0 ==> v.replace(None, text, focused) == v.delete(focused),
{
    let cur = v.input_text();
    assert(cur =~= seq![v.value[v.active as int]]);
    assert(utf16_len(cur.take(0)) == 0) by {
        assert(cur.take(0) =~= Seq::<char>::empty());
    }
    assert(cur.take(1) =~= cur);
    assert(cur.drop_last() =~= Seq::<char>::empty());
    assert(utf16_len(cur) >= 1);
    assert(span_end(cur, 1, 0) == span_end(cur, 1, 1));
    assert(span_end(cur, 1, 1) == 1);
    assert(span_start(cur, 0, 1) == span_start(cur, 0, 0));
    assert(cur.take(0) + text + cur.skip(1) =~= text);
    assert(v.without_composition() == v);
}

} // verus!
