//! Reading what the system's network tools print.
//!
//! Two listings are read. The network helper's terse listing of wireless
//! networks has one network to the line, its fields set apart by colons:
//! whether it is the active one, its name, its signal, the device. The
//! address tool's listing of a device names each IPv4 address on a line that
//! begins, after indentation, with the word `inet`.

use vstd::prelude::*;
use vstd::string::StrSliceExecFns;
use crate::text::{
    chars_of, fields_of, integer_i32, is_space, is_whitespace, lemma_word_len_is,
    lemma_words_skip_spaces, lines, lines_of, parse_i32, span_is, span_starts_with, span_texts,
    spans_within, split, trim, trim_span, words,
};

verus! {

/// The network that the listing marks as active.
#[derive(Debug, Clone, PartialEq, Eq)]
pub struct ActiveNetwork {
    pub ssid: String,
    /// Signal in percent; zero if the listing's figure is not a number.
    pub signal: i32,
    /// Name of the device that is on the network.
    pub device: String,
}

/// The mathematical content of an [`ActiveNetwork`].
pub struct ActiveNetworkView {
    pub ssid: Seq<char>,
    pub signal: i32,
    pub device: Seq<char>,
}

impl View for ActiveNetwork {
    type V = ActiveNetworkView;

    open spec fn view(&self) -> ActiveNetworkView {
        ActiveNetworkView { ssid: self.ssid@, signal: self.signal, device: self.device@ }
    }
}

/// The number a field writes; zero if it writes none.
pub open spec fn signal_of(field: Seq<char>) -> i32 {
    match integer_i32(field) {
        Some(number) => number,
        None => 0,
    }
}

/// The active network that a line of the listing tells of: the line has at
/// least four fields and the first is `yes`.
pub open spec fn active_in_line(line: Seq<char>) -> Option<ActiveNetworkView> {
    let fields = split(line, ':');
    if fields.len() >= 4 && fields[0] == "yes"@ {
        Some(ActiveNetworkView { ssid: fields[1], signal: signal_of(fields[2]), device: fields[3] })
    } else {
        None
    }
}

/// The active network of the first line that tells of one.
pub open spec fn first_active_line(lines: Seq<Seq<char>>) -> Option<ActiveNetworkView>
    decreases lines.len(),
{
    if lines.len() == 0 {
        None
    } else {
        match active_in_line(lines.first()) {
            Some(found) => Some(found),
            None => first_active_line(lines.drop_first()),
        }
    }
}

/// The active network that the listing tells of.
pub open spec fn active_network(listing: Seq<char>) -> Option<ActiveNetworkView> {
    first_active_line(lines(listing))
}

/// The text that a span of `listing` stands for.
fn span_text(listing: &str, span: (usize, usize)) -> (text: String)
    requires
        span.0 <= span.1 <= listing@.len(),
    ensures
        text@ == listing@.subrange(span.0 as int, span.1 as int),
{
    listing.substring_char(span.0, span.1).to_owned()
}

/// Finds the active network in the terse listing of wireless networks.
pub fn parse_active_network(listing: &str) -> (found: Option<ActiveNetwork>)
    ensures
        match found {
            Some(network) => active_network(listing@) == Some(network@),
            None => active_network(listing@) is None,
        },
{
    let chars = chars_of(listing);
    let yes = chars_of("yes");
    let rows = lines_of(&chars);
    let ghost all = lines(listing@);
    let mut k: usize = 0;
    proof {
        assert(all.skip(0) =~= all);
    }
    while k < rows.len()
        invariant
            k <= rows.len(),
            chars@ == listing@,
            yes@ == "yes"@,
            all == lines(listing@),
            span_texts(chars@, rows@) == all,
            spans_within(rows@, 0, chars.len() as int),
            first_active_line(all) == first_active_line(all.skip(k as int)),
        decreases rows.len() - k,
    {
        let row = rows[k];
        let ghost line = chars@.subrange(row.0 as int, row.1 as int);
        proof {
            assert(all.skip(k as int).first() == all[k as int]);
            assert(all[k as int] == line);
            assert(all.skip(k as int).drop_first() =~= all.skip(k as int + 1));
        }
        let fields = fields_of(&chars, row.0, row.1, ':');
        if fields.len() >= 4 {
            let ghost parts = split(line, ':');
            proof {
                assert(parts[0] == chars@.subrange(fields[0].0 as int, fields[0].1 as int));
                assert(parts[1] == chars@.subrange(fields[1].0 as int, fields[1].1 as int));
                assert(parts[2] == chars@.subrange(fields[2].0 as int, fields[2].1 as int));
                assert(parts[3] == chars@.subrange(fields[3].0 as int, fields[3].1 as int));
            }
            if span_is(&chars, fields[0].0, fields[0].1, &yes) {
                let signal = match parse_i32(&chars, fields[2].0, fields[2].1) {
                    Some(number) => number,
                    None => 0,
                };
                return Some(
                    ActiveNetwork {
                        ssid: span_text(listing, fields[1]),
                        signal,
                        device: span_text(listing, fields[3]),
                    },
                );
            }
        }
        k += 1;
    }
    None
}

/// The address that a line of the listing names: the line, leaving white
/// space at its ends aside, begins with `inet` and a blank, and the address
/// is its second word.
pub open spec fn inet_in_line(line: Seq<char>) -> Option<Seq<char>> {
    let told = trim(line);
    if "inet "@.is_prefix_of(told) && words(told).len() >= 2 {
        Some(words(told)[1])
    } else {
        None
    }
}

/// The address of the last line that names one.
pub open spec fn last_inet_line(lines: Seq<Seq<char>>) -> Option<Seq<char>>
    decreases lines.len(),
{
    if lines.len() == 0 {
        None
    } else {
        match inet_in_line(lines.last()) {
            Some(address) => Some(address),
            None => last_inet_line(lines.drop_last()),
        }
    }
}

/// The IPv4 address that the listing names; the last, if it names several.
pub open spec fn inet_address(listing: Seq<char>) -> Option<Seq<char>> {
    last_inet_line(lines(listing))
}

/// The span of the address that the line `chars[from..to]` names.
fn inet_span(chars: &Vec<char>, from: usize, to: usize, inet: &Vec<char>) -> (found: Option<
    (usize, usize),
>)
    requires
        from <= to <= chars.len(),
        inet@ == "inet "@,
    ensures
        match found {
            Some(span) => from <= span.0 <= span.1 <= to && inet_in_line(
                chars@.subrange(from as int, to as int),
            ) == Some(chars@.subrange(span.0 as int, span.1 as int)),
            None => inet_in_line(chars@.subrange(from as int, to as int)) is None,
        },
{
    let (start, end) = trim_span(chars, from, to);
    if !span_starts_with(chars, start, end, inet) {
        return None;
    }
    let ghost told = chars@.subrange(start as int, end as int);
    proof {
        reveal_strlit("inet ");
        assert(told.subrange(0, 5) == "inet "@);
        assert(told[0] == "inet "@[0] && told[1] == "inet "@[1] && told[2] == "inet "@[2]
            && told[3] == "inet "@[3] && told[4] == "inet "@[4]);
        assert(told[4] == chars@[start + 4]);
        assert(is_space(' '));
        assert(!is_space('i') && !is_space('n') && !is_space('e') && !is_space('t'));
        lemma_word_len_is(told, 4);
    }
    let mut first = start + 4;
    while first < end && is_whitespace(chars[first])
        invariant
            start + 4 <= first <= end <= to <= chars.len(),
            start + 4 < end,
            !is_space(chars@[end - 1]),
            forall|j: int| start + 4 <= j < first ==> is_space(#[trigger] chars@[j]),
        decreases end - first,
    {
        first += 1;
    }
    let mut last = first;
    while last < end && !is_whitespace(chars[last])
        invariant
            first <= last <= end <= to <= chars.len(),
            forall|j: int| first <= j < last ==> !is_space(#[trigger] chars@[j]),
        decreases end - last,
    {
        last += 1;
    }
    proof {
        let after = told.skip(4);
        let rest = chars@.subrange(first as int, end as int);
        assert forall|j: int| 0 <= j < first - start - 4 implies is_space(#[trigger] after[j]) by {
            assert(is_space(chars@[j + start + 4]));
        }
        lemma_words_skip_spaces(after, first - start - 4);
        assert(after.skip(first - start - 4) =~= rest);
        assert forall|j: int| 0 <= j < last - first implies !is_space(#[trigger] rest[j]) by {
            assert(!is_space(chars@[j + first]));
        }
        if last < end {
            assert(rest[last - first] == chars@[last as int]);
        }
        lemma_word_len_is(rest, last - first);
        assert(rest.first() == chars@[first as int]);
        assert(rest.take(last - first) =~= chars@.subrange(first as int, last as int));
        assert(words(told) == seq![told.take(4)] + words(after));
        assert(words(rest) == seq![rest.take(last - first)] + words(rest.skip(last - first)));
        assert(words(told)[1] == chars@.subrange(first as int, last as int));
    }
    Some((first, last))
}

/// Finds the IPv4 address in the address tool's listing of a device.
pub fn parse_inet_address(listing: &str) -> (found: Option<String>)
    ensures
        match found {
            Some(address) => inet_address(listing@) == Some(address@),
            None => inet_address(listing@) is None,
        },
{
    let chars = chars_of(listing);
    let inet = chars_of("inet ");
    let rows = lines_of(&chars);
    let ghost all = lines(listing@);
    let mut found: Option<(usize, usize)> = None;
    let mut k: usize = 0;
    proof {
        assert(all.take(0) =~= Seq::empty());
    }
    while k < rows.len()
        invariant
            k <= rows.len(),
            chars@ == listing@,
            inet@ == "inet "@,
            all == lines(listing@),
            span_texts(chars@, rows@) == all,
            spans_within(rows@, 0, chars.len() as int),
            match found {
                Some(span) => span.0 <= span.1 <= chars.len() && last_inet_line(
                    all.take(k as int),
                ) == Some(chars@.subrange(span.0 as int, span.1 as int)),
                None => last_inet_line(all.take(k as int)) is None,
            },
        decreases rows.len() - k,
    {
        let row = rows[k];
        proof {
            let read = all.take(k as int + 1);
            assert(read.last() == all[k as int]);
            assert(all[k as int] == chars@.subrange(row.0 as int, row.1 as int));
            assert(read.drop_last() =~= all.take(k as int));
        }
        match inet_span(&chars, row.0, row.1, &inet) {
            Some(span) => {
                found = Some(span);
            },
            None => {},
        }
        k += 1;
    }
    proof {
        assert(all.take(k as int) =~= all);
    }
    match found {
        Some(span) => Some(span_text(listing, span)),
        None => None,
    }
}

} // verus!
