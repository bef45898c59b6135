//! Taking text apart: characters, lines, fields and numbers.
//!
//! A text is handled as its sequence of characters. A part of it is named
//! by a span, the positions where it starts and ends; what a span stands for
//! is the characters between them.

use vstd::prelude::*;

verus! {

/// The characters of a text, one by one.
pub fn chars_of(text: &str) -> (chars: Vec<char>)
    ensures
        chars@ == text@,
{
    let mut chars: Vec<char> = Vec::new();
    for c in rest: text.chars()
        invariant
            rest.seq() == text@,
            chars@ == rest.history(),
    {
        chars.push(c);
    }
    chars
}

/// Position of the first `c` in `s`, or the length of `s` if there is none.
pub open spec fn first_at(s: Seq<char>, c: char) -> int
    decreases s.len(),
{
    if s.len() == 0 {
        0
    } else if s.first() == c {
        0
    } else {
        1 + first_at(s.drop_first(), c)
    }
}

/// What [`first_at`] finds: the first `c` and none before it.
pub proof fn lemma_first_at(s: Seq<char>, c: char)
    ensures
        0 <= first_at(s, c) <= s.len(),
        first_at(s, c) < s.len() ==> s[first_at(s, c)] == c,
        forall|j: int| 0 <= j < first_at(s, c) ==> s[j] != c,
    decreases s.len(),
{
    if s.len() > 0 && s.first() != c {
        let rest = s.drop_first();
        lemma_first_at(rest, c);
        assert forall|j: int| 0 <= j < first_at(s, c) implies s[j] != c by {
            if j > 0 {
                assert(s[j] == rest[j - 1]);
            }
        }
    }
}

/// The position [`first_at`] finds is the only one with its properties.
pub proof fn lemma_first_at_is(s: Seq<char>, c: char, at: int)
    requires
        0 <= at <= s.len(),
        at < s.len() ==> s[at] == c,
        forall|j: int| 0 <= j < at ==> s[j] != c,
    ensures
        first_at(s, c) == at,
{
    lemma_first_at(s, c);
}

/// The fields of `s`: what stands between one `separator` and the next, and
/// before the first and after the last. There is always at least one.
pub open spec fn split(s: Seq<char>, separator: char) -> Seq<Seq<char>>
    decreases s.len(),
{
    let at = first_at(s, separator);
    if 0 <= at < s.len() {
        seq![s.take(at)] + split(s.skip(at + 1), separator)
    } else {
        seq![s]
    }
}

/// A line without the carriage return that ended it, if one did.
pub open spec fn without_return(line: Seq<char>) -> Seq<char> {
    if line.len() > 0 && line.last() == '\r' {
        line.drop_last()
    } else {
        line
    }
}

/// The lines of `s`. A line ends with a line feed, or with a carriage
/// return and a line feed, neither of which belongs to it; the last line
/// may end with the text instead.
pub open spec fn lines(s: Seq<char>) -> Seq<Seq<char>>
    decreases s.len(),
{
    let at = first_at(s, '\n');
    if s.len() == 0 {
        Seq::empty()
    } else if 0 <= at < s.len() {
        seq![without_return(s.take(at))] + lines(s.skip(at + 1))
    } else {
        seq![s]
    }
}

/// What the spans stand for in `s`.
pub open spec fn span_texts(s: Seq<char>, spans: Seq<(usize, usize)>) -> Seq<Seq<char>> {
    Seq::new(spans.len(), |k: int| s.subrange(spans[k].0 as int, spans[k].1 as int))
}

/// The spans follow one on another, with `gap` characters between the end
/// of one and the start of the next.
pub open spec fn spans_apart(spans: Seq<(usize, usize)>, gap: int) -> bool {
    forall|k: int|
        0 <= k < spans.len() - 1 ==> (#[trigger] spans[k + 1]).0 == spans[k].1 + gap
}

/// Each span but the first starts right behind the first line feed at or
/// behind the start of the one before it.
pub open spec fn starts_behind_breaks(s: Seq<char>, spans: Seq<(usize, usize)>) -> bool {
    forall|k: int|
        0 <= k < spans.len() - 1 ==> (#[trigger] spans[k + 1]).0 == spans[k].0 + first_at(
            s.skip(spans[k].0 as int),
            '\n',
        ) + 1
}

/// Every span lies within `from..to`.
pub open spec fn spans_within(spans: Seq<(usize, usize)>, from: int, to: int) -> bool {
    forall|k: int|
        0 <= k < spans.len() ==> from <= (#[trigger] spans[k]).0 <= spans[k].1 <= to
}

/// The spans of the fields of `chars[from..to]`.
pub fn fields_of(chars: &Vec<char>, from: usize, to: usize, separator: char) -> (spans: Vec<
    (usize, usize),
>)
    requires
        from <= to <= chars.len(),
    ensures
        span_texts(chars@, spans@) == split(chars@.subrange(from as int, to as int), separator),
        spans_within(spans@, from as int, to as int),
        spans.len() > 0,
        spans[0].0 == from,
        spans_apart(spans@, 1),
{
    let mut spans: Vec<(usize, usize)> = Vec::new();
    let mut start = from;
    let mut i = from;
    let ghost whole = chars@.subrange(from as int, to as int);
    proof {
        assert(span_texts(chars@, spans@) =~= Seq::empty());
        assert(Seq::<Seq<char>>::empty() + split(whole, separator) =~= split(whole, separator));
    }
    while i < to
        invariant
            from <= start <= i <= to <= chars.len(),
            whole == chars@.subrange(from as int, to as int),
            spans_within(spans@, from as int, to as int),
            spans_apart(spans@, 1),
            spans.len() == 0 ==> start == from,
            spans.len() > 0 ==> spans[0].0 == from && start == spans[spans.len() - 1].1 + 1,
            split(whole, separator) == span_texts(chars@, spans@) + split(
                chars@.subrange(start as int, to as int),
                separator,
            ),
            forall|j: int| start <= j < i ==> chars@[j] != separator,
        decreases to - i,
    {
        if chars[i] == separator {
            let ghost rest = chars@.subrange(start as int, to as int);
            let ghost done = span_texts(chars@, spans@);
            proof {
                lemma_first_at_is(rest, separator, i - start);
                assert(rest.take(i - start) =~= chars@.subrange(start as int, i as int));
                assert(rest.skip(i - start + 1) =~= chars@.subrange(i as int + 1, to as int));
            }
            spans.push((start, i));
            proof {
                assert(span_texts(chars@, spans@) =~= done + seq![
                    chars@.subrange(start as int, i as int),
                ]);
                assert(split(whole, separator) =~= span_texts(chars@, spans@) + split(
                    chars@.subrange(i as int + 1, to as int),
                    separator,
                ));
            }
            start = i + 1;
        }
        i += 1;
    }
    let ghost rest = chars@.subrange(start as int, to as int);
    let ghost done = span_texts(chars@, spans@);
    proof {
        lemma_first_at_is(rest, separator, to - start);
    }
    spans.push((start, to));
    proof {
        assert(span_texts(chars@, spans@) =~= done + seq![rest]);
    }
    spans
}

/// The spans of the lines of `chars`.
pub fn lines_of(chars: &Vec<char>) -> (spans: Vec<(usize, usize)>)
    ensures
        span_texts(chars@, spans@) == lines(chars@),
        spans_within(spans@, 0, chars.len() as int),
        spans.len() > 0 ==> spans[0].0 == 0,
        starts_behind_breaks(chars@, spans@),
{
    let mut spans: Vec<(usize, usize)> = Vec::new();
    let mut start: usize = 0;
    let mut i: usize = 0;
    let to = chars.len();
    proof {
        assert(span_texts(chars@, spans@) =~= Seq::empty());
        assert(chars@.subrange(0, to as int) =~= chars@);
        assert(Seq::<Seq<char>>::empty() + lines(chars@) =~= lines(chars@));
    }
    while i < to
        invariant
            start <= i <= to == chars.len(),
            spans_within(spans@, 0, to as int),
            starts_behind_breaks(chars@, spans@),
            spans.len() == 0 ==> start == 0,
            spans.len() > 0 ==> spans[0].0 == 0 && start == spans[spans.len() - 1].0 + first_at(
                chars@.skip(spans[spans.len() - 1].0 as int),
                '\n',
            ) + 1,
            lines(chars@) == span_texts(chars@, spans@) + lines(
                chars@.subrange(start as int, to as int),
            ),
            forall|j: int| start <= j < i ==> chars@[j] != '\n',
        decreases to - i,
    {
        if chars[i] == '\n' {
            let ghost rest = chars@.subrange(start as int, to as int);
            let ghost done = span_texts(chars@, spans@);
            proof {
                lemma_first_at_is(rest, '\n', i - start);
                assert(rest.take(i - start) =~= chars@.subrange(start as int, i as int));
                assert(rest.skip(i - start + 1) =~= chars@.subrange(i as int + 1, to as int));
            }
            proof {
                assert(rest =~= chars@.skip(start as int));
            }
            let end = if i > start && chars[i - 1] == '\r' {
                i - 1
            } else {
                i
            };
            proof {
                let line = chars@.subrange(start as int, i as int);
                if i > start {
                    assert(line.last() == chars@[i - 1]);
                }
                assert(without_return(line) =~= chars@.subrange(start as int, end as int));
            }
            spans.push((start, end));
            proof {
                assert(span_texts(chars@, spans@) =~= done + seq![
                    chars@.subrange(start as int, end as int),
                ]);
                assert(lines(chars@) =~= span_texts(chars@, spans@) + lines(
                    chars@.subrange(i as int + 1, to as int),
                ));
            }
            start = i + 1;
        }
        i += 1;
    }
    if start < to {
        let ghost rest = chars@.subrange(start as int, to as int);
        let ghost done = span_texts(chars@, spans@);
        proof {
            lemma_first_at_is(rest, '\n', to - start);
        }
        spans.push((start, to));
        proof {
            assert(span_texts(chars@, spans@) =~= done + seq![rest]);
        }
    } else {
        proof {
            assert(chars@.subrange(start as int, to as int).len() == 0);
            assert(span_texts(chars@, spans@) + Seq::<Seq<char>>::empty() =~= span_texts(
                chars@,
                spans@,
            ));
        }
    }
    spans
}

/// Whether `c` is a decimal digit.
pub open spec fn is_digit(c: char) -> bool {
    '0' <= c <= '9'
}

/// Every character is a decimal digit.
pub open spec fn all_digits(s: Seq<char>) -> bool {
    forall|i: int| 0 <= i < s.len() ==> is_digit(#[trigger] s[i])
}

/// The number that the digits write in base ten; zero for no digits.
pub open spec fn decimal(digits: Seq<char>) -> int
    decreases digits.len(),
{
    if digits.len() == 0 {
        0
    } else {
        10 * decimal(digits.drop_last()) + (digits.last() as int - '0' as int)
    }
}

/// The integer that `s` writes: digits, at least one, with or without one
/// sign in front, and nothing else.
pub open spec fn integer(s: Seq<char>) -> Option<int> {
    let signed = s.len() > 0 && (s[0] == '-' || s[0] == '+');
    let digits = if signed {
        s.skip(1)
    } else {
        s
    };
    if digits.len() == 0 || !all_digits(digits) {
        None
    } else if s[0] == '-' {
        Some(-decimal(digits))
    } else {
        Some(decimal(digits))
    }
}

/// The integer that `s` writes, if it writes one that 32 bits with sign hold.
pub open spec fn integer_i32(s: Seq<char>) -> Option<i32> {
    match integer(s) {
        Some(value) => if i32::MIN <= value <= i32::MAX {
            Some(value as i32)
        } else {
            None
        },
        None => None,
    }
}

/// Digits write a number that is not negative, and more digits do not
/// write a smaller one.
pub proof fn lemma_decimal_grows(digits: Seq<char>, shorter: int)
    requires
        all_digits(digits),
        0 <= shorter <= digits.len(),
    ensures
        0 <= decimal(digits.take(shorter)) <= decimal(digits),
    decreases digits.len() - shorter,
{
    if shorter == 0 {
        assert(digits.take(0) =~= Seq::empty());
        lemma_decimal_bounds(digits);
    } else if shorter == digits.len() {
        assert(digits.take(shorter) =~= digits);
        lemma_decimal_bounds(digits);
    } else {
        lemma_decimal_grows(digits, shorter + 1);
        let longer = digits.take(shorter + 1);
        assert(longer.drop_last() =~= digits.take(shorter));
        assert(is_digit(digits[shorter]));
        assert(longer.last() == digits[shorter]);
        assert(all_digits(digits.take(shorter))) by {
            assert forall|i: int| 0 <= i < shorter implies is_digit(
                #[trigger] digits.take(shorter)[i],
            ) by {
                assert(is_digit(digits[i]));
            }
        }
        lemma_decimal_bounds(digits.take(shorter));
    }
}

/// Digits write a number that is not negative.
pub proof fn lemma_decimal_bounds(digits: Seq<char>)
    requires
        all_digits(digits),
    ensures
        0 <= decimal(digits),
    decreases digits.len(),
{
    if digits.len() > 0 {
        let shorter = digits.drop_last();
        assert(all_digits(shorter)) by {
            assert forall|i: int| 0 <= i < shorter.len() implies is_digit(#[trigger] shorter[i]) by {
                assert(is_digit(digits[i]));
            }
        }
        lemma_decimal_bounds(shorter);
        assert(is_digit(digits[digits.len() - 1]));
    }
}

/// Reads `chars[from..to]` as an integer of 32 bits.
#[verifier::loop_isolation(false)]
pub fn parse_i32(chars: &Vec<char>, from: usize, to: usize) -> (number: Option<i32>)
    requires
        from <= to <= chars.len(),
    ensures
        number == integer_i32(chars@.subrange(from as int, to as int)),
{
    let ghost written = chars@.subrange(from as int, to as int);
    if from == to {
        return None;
    }
    let negative = chars[from] == '-';
    let signed = negative || chars[from] == '+';
    let start = if signed {
        from + 1
    } else {
        from
    };
    let ghost digits = chars@.subrange(start as int, to as int);
    proof {
        assert(written[0] == chars@[from as int]);
        if signed {
            assert(written.skip(1) =~= digits);
        } else {
            assert(written =~= digits);
        }
    }
    if start == to {
        return None;
    }
    let mut value: i64 = 0;
    let mut i = start;
    while i < to
        invariant
            start <= i <= to <= chars.len(),
            digits == chars@.subrange(start as int, to as int),
            all_digits(digits.take(i - start)),
            value == decimal(digits.take(i - start)),
            0 <= value <= 0x8000_0000,
        decreases to - i,
    {
        let c = chars[i];
        if !(c >= '0' && c <= '9') {
            proof {
                assert(digits[i - start] == c);
            }
            return None;
        }
        let ghost read = digits.take(i - start + 1);
        proof {
            assert(read.drop_last() =~= digits.take(i - start));
            assert(read.last() == c);
            assert forall|k: int| 0 <= k < read.len() implies is_digit(#[trigger] read[k]) by {
                if k < i - start {
                    assert(is_digit(digits.take(i - start)[k]));
                }
            }
        }
        value = value * 10 + (c as u32 - '0' as u32) as i64;
        i += 1;
        if value > 0x8000_0000 {
            let mut j = i;
            while j < to
                invariant
                    start <= i <= j <= to <= chars.len(),
                    digits == chars@.subrange(start as int, to as int),
                    all_digits(digits.take(j - start)),
                decreases to - j,
            {
                let c = chars[j];
                if !(c >= '0' && c <= '9') {
                    proof {
                        assert(digits[j - start] == c);
                    }
                    return None;
                }
                proof {
                    let read = digits.take(j - start + 1);
                    assert forall|k: int| 0 <= k < read.len() implies is_digit(
                        #[trigger] read[k],
                    ) by {
                        if k < j - start {
                            assert(is_digit(digits.take(j - start)[k]));
                        }
                    }
                }
                j += 1;
            }
            proof {
                assert(digits.take(j - start) =~= digits);
                lemma_decimal_grows(digits, i - start);
            }
            return None;
        }
    }
    proof {
        assert(digits.take(i - start) =~= digits);
    }
    if negative {
        Some((-value) as i32)
    } else if value == 0x8000_0000 {
        None
    } else {
        Some(value as i32)
    }
}

/// Whether `c` is white space: a blank, a tab, a line break, or one of
/// Unicode's other spaces.
pub open spec fn is_space(c: char) -> bool {
    let code = c as u32;
    ||| 0x09 <= code <= 0x0d
    ||| code == 0x20
    ||| code == 0x85
    ||| code == 0xa0
    ||| code == 0x1680
    ||| 0x2000 <= code <= 0x200a
    ||| code == 0x2028
    ||| code == 0x2029
    ||| code == 0x202f
    ||| code == 0x205f
    ||| code == 0x3000
}

/// Tells whether `c` is white space.
pub fn is_whitespace(c: char) -> (space: bool)
    ensures
        space == is_space(c),
{
    let code = c as u32;
    (0x09 <= code && code <= 0x0d) || code == 0x20 || code == 0x85 || code == 0xa0 || code
        == 0x1680 || (0x2000 <= code && code <= 0x200a) || code == 0x2028 || code == 0x2029
        || code == 0x202f || code == 0x205f || code == 0x3000
}

/// How many characters of white space `s` begins with.
pub open spec fn leading_spaces(s: Seq<char>) -> nat
    decreases s.len(),
{
    if s.len() > 0 && is_space(s.first()) {
        1 + leading_spaces(s.drop_first())
    } else {
        0
    }
}

/// How many characters of white space `s` ends with.
pub open spec fn trailing_spaces(s: Seq<char>) -> nat
    decreases s.len(),
{
    if s.len() > 0 && is_space(s.last()) {
        1 + trailing_spaces(s.drop_last())
    } else {
        0
    }
}

/// How many characters that are not white space `s` begins with.
pub open spec fn word_len(s: Seq<char>) -> nat
    decreases s.len(),
{
    if s.len() > 0 && !is_space(s.first()) {
        1 + word_len(s.drop_first())
    } else {
        0
    }
}

/// `s` without the white space at its ends.
pub open spec fn trim(s: Seq<char>) -> Seq<char> {
    if leading_spaces(s) >= s.len() {
        Seq::empty()
    } else {
        s.subrange(leading_spaces(s) as int, s.len() - trailing_spaces(s))
    }
}

/// A word is no longer than the text it begins.
pub proof fn lemma_word_len_bound(s: Seq<char>)
    ensures
        word_len(s) <= s.len(),
    decreases s.len(),
{
    if s.len() > 0 && !is_space(s.first()) {
        lemma_word_len_bound(s.drop_first());
    }
}

#[via_fn]
proof fn words_end(s: Seq<char>) {
    lemma_word_len_bound(s);
}

/// The words of `s`: the stretches without white space, as long as they go.
pub open spec fn words(s: Seq<char>) -> Seq<Seq<char>>
    decreases s.len(),
    via words_end
{
    if s.len() == 0 {
        Seq::empty()
    } else if is_space(s.first()) {
        words(s.drop_first())
    } else {
        seq![s.take(word_len(s) as int)] + words(s.skip(word_len(s) as int))
    }
}

/// The count [`leading_spaces`] gives is the only one with its properties.
pub proof fn lemma_leading_spaces_is(s: Seq<char>, count: int)
    requires
        0 <= count <= s.len(),
        forall|j: int| 0 <= j < count ==> is_space(#[trigger] s[j]),
        count < s.len() ==> !is_space(s[count]),
    ensures
        leading_spaces(s) == count,
    decreases s.len(),
{
    if count > 0 {
        let rest = s.drop_first();
        assert(is_space(s[0]));
        assert forall|j: int| 0 <= j < count - 1 implies is_space(#[trigger] rest[j]) by {
            assert(is_space(s[j + 1]));
        }
        lemma_leading_spaces_is(rest, count - 1);
    }
}

/// The count [`trailing_spaces`] gives is the only one with its properties.
pub proof fn lemma_trailing_spaces_is(s: Seq<char>, count: int)
    requires
        0 <= count <= s.len(),
        forall|j: int| s.len() - count <= j < s.len() ==> is_space(#[trigger] s[j]),
        count < s.len() ==> !is_space(s[s.len() - count - 1]),
    ensures
        trailing_spaces(s) == count,
    decreases s.len(),
{
    if count > 0 {
        let rest = s.drop_last();
        assert(is_space(s[s.len() - 1]));
        assert forall|j: int| rest.len() - (count - 1) <= j < rest.len() implies is_space(
            #[trigger] rest[j],
        ) by {
            assert(is_space(s[j]));
        }
        lemma_trailing_spaces_is(rest, count - 1);
    }
}

/// The count [`word_len`] gives is the only one with its properties.
pub proof fn lemma_word_len_is(s: Seq<char>, count: int)
    requires
        0 <= count <= s.len(),
        forall|j: int| 0 <= j < count ==> !is_space(#[trigger] s[j]),
        count < s.len() ==> is_space(s[count]),
    ensures
        word_len(s) == count,
    decreases s.len(),
{
    if count > 0 {
        let rest = s.drop_first();
        assert(!is_space(s[0]));
        assert forall|j: int| 0 <= j < count - 1 implies !is_space(#[trigger] rest[j]) by {
            assert(!is_space(s[j + 1]));
        }
        lemma_word_len_is(rest, count - 1);
    }
}

/// White space in front of a text adds no word.
pub proof fn lemma_words_skip_spaces(s: Seq<char>, count: int)
    requires
        0 <= count <= s.len(),
        forall|j: int| 0 <= j < count ==> is_space(#[trigger] s[j]),
    ensures
        words(s) == words(s.skip(count)),
    decreases count,
{
    if count == 0 {
        assert(s.skip(0) =~= s);
    } else {
        let rest = s.drop_first();
        assert(is_space(s[0]));
        assert forall|j: int| 0 <= j < count - 1 implies is_space(#[trigger] rest[j]) by {
            assert(is_space(s[j + 1]));
        }
        lemma_words_skip_spaces(rest, count - 1);
        assert(rest.skip(count - 1) =~= s.skip(count));
    }
}

/// The span of `chars[from..to]` without the white space at its ends;
/// `from..from` if it is all white space.
pub fn trim_span(chars: &Vec<char>, from: usize, to: usize) -> (span: (usize, usize))
    requires
        from <= to <= chars.len(),
    ensures
        from <= span.0 <= span.1 <= to,
        chars@.subrange(span.0 as int, span.1 as int) == trim(
            chars@.subrange(from as int, to as int),
        ),
        span.0 < span.1 ==> !is_space(chars@[span.0 as int]) && !is_space(
            chars@[span.1 as int - 1],
        ),
        span == if leading_spaces(chars@.subrange(from as int, to as int)) >= to - from {
            (from, from)
        } else {
            (
                (from + leading_spaces(chars@.subrange(from as int, to as int))) as usize,
                (to - trailing_spaces(chars@.subrange(from as int, to as int))) as usize,
            )
        },
{
    let ghost whole = chars@.subrange(from as int, to as int);
    let mut start = from;
    while start < to && is_whitespace(chars[start])
        invariant
            from <= start <= to <= chars.len(),
            forall|j: int| from <= j < start ==> is_space(#[trigger] chars@[j]),
        decreases to - start,
    {
        start += 1;
    }
    proof {
        assert forall|j: int| 0 <= j < start - from implies is_space(#[trigger] whole[j]) by {
            assert(is_space(chars@[j + from]));
        }
        lemma_leading_spaces_is(whole, start - from);
    }
    if start == to {
        proof {
            assert(chars@.subrange(from as int, from as int) =~= Seq::empty());
        }
        return (from, from);
    }
    let mut end = to;
    while end > start && is_whitespace(chars[end - 1])
        invariant
            from <= start < end <= to <= chars.len(),
            !is_space(chars@[start as int]),
            forall|j: int| end <= j < to ==> is_space(#[trigger] chars@[j]),
        decreases end - start,
    {
        end -= 1;
        if end == start {
            proof {
                assert(false);
            }
        }
    }
    proof {
        assert forall|j: int| whole.len() - (to - end) <= j < whole.len() implies is_space(
            #[trigger] whole[j],
        ) by {
            assert(is_space(chars@[j + from]));
        }
        assert(whole[whole.len() - (to - end) - 1] == chars@[end - 1]);
        lemma_trailing_spaces_is(whole, to - end);
        assert(whole.subrange(start - from, whole.len() - (to - end)) =~= chars@.subrange(
            start as int,
            end as int,
        ));
    }
    (start, end)
}

/// Whether `chars[from..to]` reads as `word`.
pub fn span_is(chars: &Vec<char>, from: usize, to: usize, word: &Vec<char>) -> (same: bool)
    requires
        from <= to <= chars.len(),
    ensures
        same == (chars@.subrange(from as int, to as int) == word@),
{
    if to - from != word.len() {
        return false;
    }
    let mut i: usize = 0;
    while i < word.len()
        invariant
            i <= word.len() == to - from,
            from <= to <= chars.len(),
            forall|j: int| 0 <= j < i ==> chars@[from + j] == word@[j],
        decreases word.len() - i,
    {
        if chars[from + i] != word[i] {
            proof {
                assert(chars@.subrange(from as int, to as int)[i as int] != word@[i as int]);
            }
            return false;
        }
        i += 1;
    }
    proof {
        assert(chars@.subrange(from as int, to as int) =~= word@);
    }
    true
}

/// Whether `chars[from..to]` begins with `word`.
pub fn span_starts_with(chars: &Vec<char>, from: usize, to: usize, word: &Vec<char>) -> (begins:
    bool)
    requires
        from <= to <= chars.len(),
    ensures
        begins == word@.is_prefix_of(chars@.subrange(from as int, to as int)),
{
    if to - from < word.len() {
        return false;
    }
    let same = span_is(chars, from, from + word.len(), word);
    proof {
        assert(chars@.subrange(from as int, to as int).subrange(0, word.len() as int)
            =~= chars@.subrange(from as int, from + word.len()));
    }
    same
}

} // verus!
