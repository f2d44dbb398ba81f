//! Character-level helpers: digit filtering and the UTF-8 and UTF-16
//! widths that native text input speaks in.

use vstd::prelude::*;
use core::ops::Range;
use vstd::utf8::{char_is_scalar, encode_scalar, encode_utf8};

verus! {

/// Trusted: std's `String::push` appends `ch` at the end of the string's
/// characters (its documented behaviour: "Appends the given `char` to the end
/// of this `String`").
pub assume_specification[ String::push ](s: &mut String, ch: char)
    ensures
        final(s)@ == old(s)@.push(ch),
;

/// The characters that count as code digits: ASCII `0` to `9`.
pub open spec fn is_digit(c: char) -> bool {
    '0' <= c && c <= '9'
}

/// The digits of `s`, in order, everything else dropped.
pub open spec fn digits(s: Seq<char>) -> Seq<char>
    decreases s.len(),
{
    if s.len() == 0 {
        Seq::empty()
    } else if is_digit(s.last()) {
        digits(s.drop_last()).push(s.last())
    } else {
        digits(s.drop_last())
    }
}

/// The first `n` digits of `s` (all of them when there are fewer).
pub open spec fn clean(s: Seq<char>, n: nat) -> Seq<char> {
    let d = digits(s);
    if d.len() <= n {
        d
    } else {
        d.take(n as int)
    }
}

/// Copies the characters of a string slice into a vector.
pub fn chars_of(s: &str) -> (v: Vec<char>)
    ensures
        v@ == s@,
{
    let mut v: Vec<char> = Vec::new();
    for c in it: s.chars()
        invariant
            v@ == it.seq().take(it.index() as int),
            it.seq() == s@,
    {
        v.push(c);
    }
    v
}


/// Builds a string from a sequence of characters.
pub fn string_from(chars: &Vec<char>) -> (s: String)
    ensures
        s@ == chars@,
{
    let mut s = String::new();
    let mut i: usize = 0;
    while i < chars.len()
        invariant
            i <= chars.len(),
            s@ == chars@.take(i as int),
        decreases chars.len() - i,
    {
        s.push(chars[i]);
        i = i + 1;
        assert(chars@.take(i as int) == chars@.take(i - 1).push(chars@[i - 1]));
    }
    assert(chars@.take(i as int) == chars@);
    s
}

/// Exec test for `is_digit`.
pub fn char_is_digit(c: char) -> (b: bool)
    ensures
        b == is_digit(c),
{
    '0' <= c && c <= '9'
}

/// Every character of `s` is a digit.
pub open spec fn all_digits(s: Seq<char>) -> bool {
    forall|i: int| 0 <= i < s.len() ==> is_digit(#[trigger] s[i])
}

/// No character of `s` is a digit.
pub open spec fn no_digits(s: Seq<char>) -> bool {
    forall|i: int| 0 <= i < s.len() ==> !is_digit(#[trigger] s[i])
}

pub proof fn lemma_digits_concat(a: Seq<char>, b: Seq<char>)
    ensures
        digits(a + b) == digits(a) + digits(b),
    decreases b.len(),
{
    if b.len() == 0 {
        assert(a + b =~= a);
        assert(digits(a) + digits(b) =~= digits(a));
    } else {
        lemma_digits_concat(a, b.drop_last());
        assert((a + b).drop_last() =~= a + b.drop_last());
        assert((a + b).last() == b.last());
        if is_digit(b.last()) {
            assert(digits(a) + digits(b) =~= (digits(a) + digits(b.drop_last())).push(b.last()));
        }
    }
}

pub proof fn lemma_digits_shape(s: Seq<char>)
    ensures
        all_digits(digits(s)),
        digits(s).len() <= s.len(),
    decreases s.len(),
{
    if s.len() > 0 {
        lemma_digits_shape(s.drop_last());
    }
}

pub proof fn lemma_digits_of_digits(s: Seq<char>)
    requires
        all_digits(s),
    ensures
        digits(s) == s,
    decreases s.len(),
{
    if s.len() > 0 {
        lemma_digits_of_digits(s.drop_last());
        assert(is_digit(s[s.len() - 1]));
        assert(s.drop_last().push(s.last()) =~= s);
    }
}

pub proof fn lemma_digits_of_none(s: Seq<char>)
    requires
        no_digits(s),
    ensures
        digits(s) == Seq::<char>::empty(),
    decreases s.len(),
{
    if s.len() > 0 {
        lemma_digits_of_none(s.drop_last());
        assert(!is_digit(s[s.len() - 1]));
    }
}

/// `idx` picks out `a` from `b`: strictly increasing positions of `b` that
/// hold the characters of `a` in order.
pub open spec fn picks(a: Seq<char>, b: Seq<char>, idx: Seq<int>) -> bool {
    &&& idx.len() == a.len()
    &&& forall|i: int, j: int| 0 <= i < j < idx.len() ==> idx[i] < idx[j]
    &&& forall|i: int| 0 <= i < idx.len() ==> 0 <= #[trigger] idx[i] < b.len() && b[idx[i]] == a[i]
}

/// `a` is a subsequence of `b`.
pub open spec fn is_subsequence(a: Seq<char>, b: Seq<char>) -> bool {
    exists|idx: Seq<int>| picks(a, b, idx)
}

/// The positions of `s` that hold its digits.
pub proof fn lemma_digit_positions(s: Seq<char>) -> (idx: Seq<int>)
    ensures
        picks(digits(s), s, idx),
    decreases s.len(),
{
    if s.len() == 0 {
        Seq::empty()
    } else {
        let prev = lemma_digit_positions(s.drop_last());
        if is_digit(s.last()) {
            let idx = prev.push(s.len() - 1);
            assert forall|i: int| 0 <= i < idx.len() implies 0 <= #[trigger] idx[i] < s.len() && s[idx[i]]
                == digits(s)[i] by {
                if i < prev.len() {
                    assert(s[prev[i]] == s.drop_last()[prev[i]]);
                }
            }
            idx
        } else {
            assert forall|i: int| 0 <= i < prev.len() implies 0 <= #[trigger] prev[i] < s.len() && s[prev[i]]
                == digits(s)[i] by {
                assert(s[prev[i]] == s.drop_last()[prev[i]]);
            }
            prev
        }
    }
}

pub proof fn lemma_clean_shape(s: Seq<char>, n: nat)
    ensures
        all_digits(clean(s, n)),
        clean(s, n).len() <= n,
{
    lemma_digits_shape(s);
}

/// The first `n` ASCII digits of `chars`, everything else dropped.
pub fn clean_chars(chars: &Vec<char>, n: usize) -> (out: Vec<char>)
    ensures
        out@ == clean(chars@, n as nat),
{
    let mut out: Vec<char> = Vec::new();
    let mut i: usize = 0;
    while i < chars.len()
        invariant
            i <= chars.len(),
            out@ == clean(chars@.take(i as int), n as nat),
        decreases chars.len() - i,
    {
        let c = chars[i];
        assert(chars@.take(i + 1).drop_last() == chars@.take(i as int));
        if out.len() < n && char_is_digit(c) {
            out.push(c);
        }
        i = i + 1;
    }
    assert(chars@.take(i as int) == chars@);
    out
}

/// The digits of `chars`, in order.
pub fn filter_digits(chars: &Vec<char>) -> (out: Vec<char>)
    ensures
        out@ == digits(chars@),
{
    let mut out: Vec<char> = Vec::new();
    let mut i: usize = 0;
    while i < chars.len()
        invariant
            i <= chars.len(),
            out@ == digits(chars@.take(i as int)),
        decreases chars.len() - i,
    {
        let c = chars[i];
        assert(chars@.take(i + 1).drop_last() == chars@.take(i as int));
        if char_is_digit(c) {
            out.push(c);
        }
        i = i + 1;
    }
    assert(chars@.take(i as int) == chars@);
    out
}

/// The characters `from..to` of `chars`.
pub fn sub_chars(chars: &Vec<char>, from: usize, to: usize) -> (out: Vec<char>)
    requires
        from <= to <= chars@.len(),
    ensures
        out@ == chars@.subrange(from as int, to as int),
{
    let mut out: Vec<char> = Vec::new();
    let mut i: usize = from;
    while i < to
        invariant
            from <= i <= to <= chars@.len(),
            out@ == chars@.subrange(from as int, i as int),
        decreases to - i,
    {
        out.push(chars[i]);
        i = i + 1;
        assert(out@ =~= chars@.subrange(from as int, i as int));
    }
    out
}

/// `chars` with its characters `from..to` replaced by `insert`.
pub fn splice(chars: &Vec<char>, from: usize, to: usize, insert: &Vec<char>) -> (out: Vec<char>)
    requires
        from <= to <= chars@.len(),
    ensures
        out@ == chars@.take(from as int) + insert@ + chars@.skip(to as int),
{
    let mut out = sub_chars(chars, 0, from);
    let mut middle = sub_chars(insert, 0, insert.len());
    let mut tail = sub_chars(chars, to, chars.len());
    out.append(&mut middle);
    out.append(&mut tail);
    assert(insert@.subrange(0, insert@.len() as int) =~= insert@);
    out
}

/// Number of bytes that `c` takes in UTF-8.
pub open spec fn utf8_width(c: char) -> nat {
    let v = c as u32;
    if v < 0x80 {
        1
    } else if v < 0x800 {
        2
    } else if v < 0x10000 {
        3
    } else {
        4
    }
}

/// Number of 16-bit code units that `c` takes in UTF-16.
pub open spec fn utf16_width(c: char) -> nat {
    if (c as u32) < 0x10000 {
        1
    } else {
        2
    }
}

/// Byte length of `s` in UTF-8.
pub open spec fn utf8_len(s: Seq<char>) -> nat
    decreases s.len(),
{
    if s.len() == 0 {
        0
    } else {
        utf8_len(s.drop_last()) + utf8_width(s.last())
    }
}

/// Length of `s` in UTF-16 code units.
pub open spec fn utf16_len(s: Seq<char>) -> nat
    decreases s.len(),
{
    if s.len() == 0 {
        0
    } else {
        utf16_len(s.drop_last()) + utf16_width(s.last())
    }
}

/// The first character boundary, counting from `k`, whose UTF-16 offset
/// reaches `target` (the end of `s` when none does).
pub open spec fn span_end(s: Seq<char>, target: nat, k: nat) -> nat
    decreases s.len() - k,
{
    if k >= s.len() || utf16_len(s.take(k as int)) >= target {
        k
    } else {
        span_end(s, target, k + 1)
    }
}

/// The last character boundary at or before `k` whose UTF-16 offset does not
/// pass `target` (boundary 0 at the latest).
pub open spec fn span_start(s: Seq<char>, target: nat, k: nat) -> nat
    decreases k,
{
    if k == 0 || utf16_len(s.take(k as int)) <= target {
        k
    } else {
        span_start(s, target, (k - 1) as nat)
    }
}

/// The character boundaries that a UTF-16 range `start..end` selects in `s`:
/// the end is the first boundary at or past `max(start, end)`, the start the
/// last boundary before it that does not pass `start`.
pub open spec fn char_span(s: Seq<char>, start: nat, end: nat) -> (nat, nat) {
    let e = span_end(s, if end < start { start } else { end }, 0);
    (span_start(s, start, e), e)
}

pub proof fn lemma_utf8_len_concat(a: Seq<char>, b: Seq<char>)
    ensures
        utf8_len(a + b) == utf8_len(a) + utf8_len(b),
        utf16_len(a + b) == utf16_len(a) + utf16_len(b),
    decreases b.len(),
{
    if b.len() > 0 {
        lemma_utf8_len_concat(a, b.drop_last());
        assert((a + b).drop_last() =~= a + b.drop_last());
    } else {
        assert(a + b =~= a);
    }
}

pub proof fn lemma_utf16_le_utf8(s: Seq<char>)
    ensures
        utf16_len(s) <= utf8_len(s),
        s.len() <= utf16_len(s),
    decreases s.len(),
{
    if s.len() > 0 {
        lemma_utf16_le_utf8(s.drop_last());
    }
}

pub proof fn lemma_prefix_len(s: Seq<char>, i: int)
    requires
        0 <= i <= s.len(),
    ensures
        utf8_len(s.take(i)) <= utf8_len(s),
        utf16_len(s.take(i)) <= utf16_len(s),
{
    lemma_utf8_len_concat(s.take(i), s.skip(i));
    assert(s.take(i) + s.skip(i) =~= s);
}

pub proof fn lemma_span_end(s: Seq<char>, target: nat, k: nat)
    requires
        k <= s.len(),
    ensures
        k <= span_end(s, target, k) <= s.len(),
        span_end(s, target, k) < s.len() ==> utf16_len(s.take(span_end(s, target, k) as int))
            >= target,
    decreases s.len() - k,
{
    if !(k >= s.len() || utf16_len(s.take(k as int)) >= target) {
        lemma_span_end(s, target, k + 1);
    }
}

pub proof fn lemma_span_start(s: Seq<char>, target: nat, k: nat)
    ensures
        span_start(s, target, k) <= k,
        utf16_len(s.take(span_start(s, target, k) as int)) <= target,
    decreases k,
{
    if k == 0 {
        assert(s.take(0) =~= Seq::<char>::empty());
    } else if utf16_len(s.take(k as int)) > target {
        lemma_span_start(s, target, (k - 1) as nat);
    }
}

/// `utf8_len` is the length of the UTF-8 encoding.
pub proof fn lemma_utf8_len_is_encoded_len(s: Seq<char>)
    ensures
        utf8_len(s) == encode_utf8(s).len(),
    decreases s.len(),
{
    if s.len() > 0 {
        let c = s[0];
        lemma_utf8_len_is_encoded_len(s.drop_first());
        lemma_utf8_len_concat(seq![c], s.drop_first());
        assert(seq![c] + s.drop_first() =~= s);
        assert(seq![c].drop_last() =~= Seq::<char>::empty());
        char_is_scalar(c);
        assert(encode_scalar(c as u32).len() == utf8_width(c));
        assert(utf8_len(Seq::<char>::empty()) == 0);
        assert(seq![c].last() == c);
        assert(utf8_len(seq![c]) == utf8_width(c));
    }
}

/// The byte length of `s`.
pub fn byte_len(s: &str) -> (n: usize)
    ensures
        n == utf8_len(s@),
{
    let bytes = s.as_bytes();
    let n = bytes.len();
    proof {
        lemma_utf8_len_is_encoded_len(s@);
    }
    n
}

/// Character, byte and UTF-16 offsets of a span of text.
pub struct Span {
    pub start_char: usize,
    pub end_char: usize,
    pub start_byte: usize,
    pub end_byte: usize,
    pub start_utf16: usize,
    pub end_utf16: usize,
}

pub fn utf8_width_of(c: char) -> (w: usize)
    ensures
        w == utf8_width(c),
{
    let v = c as u32;
    if v < 0x80 {
        1
    } else if v < 0x800 {
        2
    } else if v < 0x10000 {
        3
    } else {
        4
    }
}

pub fn utf16_width_of(c: char) -> (w: usize)
    ensures
        w == utf16_width(c),
{
    if (c as u32) < 0x10000 {
        1
    } else {
        2
    }
}

/// Length of `chars` in UTF-16 code units.
pub fn utf16_count(chars: &Vec<char>) -> (n: usize)
    requires
        utf8_len(chars@) <= usize::MAX,
    ensures
        n == utf16_len(chars@),
{
    let mut n: usize = 0;
    let mut i: usize = 0;
    while i < chars.len()
        invariant
            i <= chars.len(),
            utf8_len(chars@) <= usize::MAX,
            n == utf16_len(chars@.take(i as int)),
        decreases chars.len() - i,
    {
        proof {
            assert(chars@.take(i + 1).drop_last() =~= chars@.take(i as int));
            lemma_prefix_len(chars@, i + 1);
            lemma_utf16_le_utf8(chars@.take(i + 1));
        }
        n = n + utf16_width_of(chars[i]);
        i = i + 1;
    }
    assert(chars@.take(i as int) == chars@);
    n
}

/// Finds the span that the UTF-16 range `start..end` selects in `chars`.
pub fn locate(chars: &Vec<char>, start: usize, end: usize) -> (sp: Span)
    requires
        utf8_len(chars@) <= usize::MAX,
    ensures
        (sp.start_char as nat, sp.end_char as nat) == char_span(chars@, start as nat, end as nat),
        sp.start_char <= sp.end_char <= chars@.len(),
        sp.start_byte == utf8_len(chars@.take(sp.start_char as int)),
        sp.end_byte == utf8_len(chars@.take(sp.end_char as int)),
        sp.start_utf16 == utf16_len(chars@.take(sp.start_char as int)),
        sp.end_utf16 == utf16_len(chars@.take(sp.end_char as int)),
{
    let n = chars.len();
    let target = if end < start { start } else { end };
    let mut k: usize = 0;
    let mut k8: usize = 0;
    let mut k16: usize = 0;
    let mut j: usize = 0;
    let mut j8: usize = 0;
    let mut j16: usize = 0;
    assert(chars@.take(0) =~= Seq::<char>::empty());
    while k < n && k16 < target
        invariant
            n == chars@.len(),
            k <= n,
            j <= k,
            utf8_len(chars@) <= usize::MAX,
            k8 == utf8_len(chars@.take(k as int)),
            k16 == utf16_len(chars@.take(k as int)),
            j8 == utf8_len(chars@.take(j as int)),
            j16 == utf16_len(chars@.take(j as int)),
            j == span_start(chars@, start as nat, k as nat),
            span_end(chars@, target as nat, 0) == span_end(chars@, target as nat, k as nat),
        decreases n - k,
    {
        let c = chars[k];
        proof {
            assert(chars@.take(k + 1).drop_last() =~= chars@.take(k as int));
            lemma_prefix_len(chars@, k + 1);
            lemma_utf16_le_utf8(chars@.take(k + 1));
        }
        k8 = k8 + utf8_width_of(c);
        k16 = k16 + utf16_width_of(c);
        k = k + 1;
        if k16 <= start {
            j = k;
            j8 = k8;
            j16 = k16;
        }
    }
    Span { start_char: j, end_char: k, start_byte: j8, end_byte: k8, start_utf16: j16, end_utf16: k16 }
}

/// The byte range of `text` that the UTF-16 range `range` selects, widened
/// to whole characters: it ends at the first character boundary at or past
/// the range's end (or start, if later), and starts at the last boundary
/// before that which does not pass the range's start.
pub fn byte_range(text: &str, range: Range<usize>) -> (r: Range<usize>)
    ensures
        ({
            let (j, k) = char_span(text@, range.start as nat, range.end as nat);
            &&& r.start == utf8_len(text@.take(j as int))
            &&& r.end == utf8_len(text@.take(k as int))
        }),
{
    let _ = byte_len(text);
    let chars = chars_of(text);
    let sp = locate(&chars, range.start, range.end);
    sp.start_byte..sp.end_byte
}

} // verus!
