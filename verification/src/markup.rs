//! Locating and replacing the value of an attribute in SVG markup.
//!
//! The renderer writes a page's markup with `width` and `height` attributes
//! for scale 1. To resize a page, the caller reads the value of each of the
//! two attributes, multiplies the number, and writes the new value in its
//! place. This module finds and replaces the text; it never interprets it.

use vstd::prelude::*;
use vstd::string::StringExecFns;
use crate::text::{chars_of, push_chars};

verus! {

/// Whether `needle` stands in `hay` at position `at`.
pub open spec fn occurs_at(hay: Seq<char>, needle: Seq<char>, at: int) -> bool {
    &&& 0 <= at
    &&& at + needle.len() <= hay.len()
    &&& hay.subrange(at, at + needle.len()) == needle
}

/// Position of the first occurrence of `needle` in `hay` that starts at
/// `from` or later.
pub open spec fn first_occurrence(hay: Seq<char>, needle: Seq<char>, from: int) -> Option<int>
    decreases hay.len() - from + 1,
{
    if from < 0 || from + needle.len() > hay.len() {
        None
    } else if occurs_at(hay, needle, from) {
        Some(from)
    } else {
        first_occurrence(hay, needle, from + 1)
    }
}

/// What introduces the value of the attribute `name`: the name, an equals
/// sign and the opening quote.
pub open spec fn value_opener(name: Seq<char>) -> Seq<char> {
    name + seq!['=', '"']
}

/// Where the value of the first `name="..."` in `markup` begins and ends
/// (the end is the position of the closing quote). `None` where the markup
/// holds no `name="`, or no quote after it.
pub open spec fn value_span(markup: Seq<char>, name: Seq<char>) -> Option<(int, int)> {
    match first_occurrence(markup, value_opener(name), 0) {
        None => None,
        Some(at) => {
            let start = at + value_opener(name).len();
            match first_occurrence(markup, seq!['"'], start) {
                None => None,
                Some(end) => Some((start, end)),
            }
        },
    }
}

/// The text of the value of the first `name="..."` in `markup`.
pub open spec fn value_text(markup: Seq<char>, name: Seq<char>) -> Option<Seq<char>> {
    match value_span(markup, name) {
        None => None,
        Some((start, end)) => Some(markup.subrange(start, end)),
    }
}

/// `markup` with what stands from `start` up to `end` replaced by `value`.
pub open spec fn spliced(markup: Seq<char>, start: int, end: int, value: Seq<char>) -> Seq<char> {
    markup.subrange(0, start) + value + markup.subrange(end, markup.len() as int)
}

/// `markup` with the value of the first `name="..."` replaced by `value`;
/// `markup` itself where it holds no such attribute.
pub open spec fn value_replaced(markup: Seq<char>, name: Seq<char>, value: Seq<char>) -> Seq<char> {
    match value_span(markup, name) {
        None => markup,
        Some((start, end)) => spliced(markup, start, end, value),
    }
}

/// Whether `text` holds a character that `chars` holds too.
pub open spec fn shares_char(text: Seq<char>, chars: Seq<char>) -> bool {
    exists|i: int, j: int|
        #![trigger text[i], chars[j]]
        0 <= i < text.len() && 0 <= j < chars.len() && text[i] == chars[j]
}

/// The first occurrence is an occurrence, none starts between `from` and it,
/// and where there is none, `needle` occurs nowhere from `from` on.
pub proof fn lemma_first_occurrence(hay: Seq<char>, needle: Seq<char>, from: int)
    requires
        0 <= from,
    ensures
        match first_occurrence(hay, needle, from) {
            Some(at) => {
                &&& from <= at
                &&& occurs_at(hay, needle, at)
                &&& forall|q: int| from <= q < at ==> !occurs_at(hay, needle, q)
            },
            None => forall|q: int| from <= q ==> !occurs_at(hay, needle, q),
        },
    decreases hay.len() - from + 1,
{
    if from + needle.len() > hay.len() {
    } else if occurs_at(hay, needle, from) {
    } else {
        lemma_first_occurrence(hay, needle, from + 1);
    }
}

/// An occurrence before which none starts, from `from` on, is the first.
pub proof fn lemma_first_occurrence_is(hay: Seq<char>, needle: Seq<char>, from: int, at: int)
    requires
        0 <= from <= at,
        occurs_at(hay, needle, at),
        forall|q: int| from <= q < at ==> !occurs_at(hay, needle, q),
    ensures
        first_occurrence(hay, needle, from) == Some(at),
    decreases at - from,
{
    if from < at {
        lemma_first_occurrence_is(hay, needle, from + 1, at);
    }
}

/// Whether `text` holds a double quote.
pub open spec fn has_quote(text: Seq<char>) -> bool {
    exists|i: int| 0 <= i < text.len() && #[trigger] text[i] == '"'
}

/// A value that was written is the value that is read: after the value of
/// an attribute has been replaced by a text without a quote, that text is
/// the attribute's value.
pub proof fn lemma_value_read_back(markup: Seq<char>, name: Seq<char>, value: Seq<char>)
    requires
        value_span(markup, name) is Some,
        !has_quote(value),
    ensures
        value_text(value_replaced(markup, name, value), name) == Some(value),
{
    let key = value_opener(name);
    let quote = seq!['"'];
    lemma_first_occurrence(markup, key, 0);
    let at = first_occurrence(markup, key, 0)->0;
    let start = at + key.len();
    lemma_first_occurrence(markup, quote, start);
    let end = first_occurrence(markup, quote, start)->0;
    let changed = value_replaced(markup, name, value);
    let tail = markup.subrange(end, markup.len() as int);
    assert(changed == markup.subrange(0, start) + value + tail);
    assert(changed.len() == start + value.len() + (markup.len() - end));
    assert forall|i: int| 0 <= i < start implies changed[i] == markup[i] by {}
    assert forall|i: int| 0 <= i < value.len() implies changed[start + i] == value[i] by {}
    assert(occurs_at(changed, key, at)) by {
        assert(changed.subrange(at, at + key.len()) =~= markup.subrange(at, at + key.len()));
    }
    assert forall|q: int| 0 <= q < at implies !occurs_at(changed, key, q) by {
        if q + key.len() <= changed.len() {
            assert(changed.subrange(q, q + key.len()) =~= markup.subrange(q, q + key.len()));
            assert(!occurs_at(markup, key, q));
        }
    }
    lemma_first_occurrence_is(changed, key, 0, at);
    let close = start + value.len();
    assert(occurs_at(markup, quote, end));
    assert(markup[end] == '"') by {
        assert(markup.subrange(end, end + 1)[0] == quote[0]);
    }
    assert(changed[close] == markup[end]);
    assert(occurs_at(changed, quote, close)) by {
        assert(changed.subrange(close, close + 1) =~= quote);
    }
    assert forall|q: int| start <= q < close implies !occurs_at(changed, quote, q) by {
        assert(changed[q] == value[q - start]);
        assert(value[q - start] != '"');
        if occurs_at(changed, quote, q) {
            assert(changed.subrange(q, q + 1)[0] == quote[0]);
        }
    }
    lemma_first_occurrence_is(changed, quote, start, close);
    assert(value_span(changed, name) == Some((start, close)));
    assert(changed.subrange(start, close) =~= value);
}

proof fn lemma_occurs_before(
    markup: Seq<char>,
    start: int,
    end: int,
    value: Seq<char>,
    needle: Seq<char>,
    q: int,
)
    requires
        0 <= start <= end <= markup.len(),
        0 <= q,
        q + needle.len() <= start,
    ensures
        occurs_at(markup, needle, q) <==> occurs_at(spliced(markup, start, end, value), needle, q),
{
    let changed = spliced(markup, start, end, value);
    assert(changed.subrange(q, q + needle.len()) =~= markup.subrange(q, q + needle.len()));
}

proof fn lemma_occurs_after(
    markup: Seq<char>,
    start: int,
    end: int,
    value: Seq<char>,
    needle: Seq<char>,
    q: int,
)
    requires
        0 <= start <= end <= markup.len(),
        end <= q,
    ensures
        occurs_at(markup, needle, q) <==> occurs_at(
            spliced(markup, start, end, value),
            needle,
            q + value.len() - (end - start),
        ),
{
    let changed = spliced(markup, start, end, value);
    let shift = value.len() - (end - start);
    assert(changed.len() == markup.len() + shift);
    if q + needle.len() <= markup.len() {
        assert(changed.subrange(q + shift, q + shift + needle.len()) =~= markup.subrange(
            q,
            q + needle.len(),
        ));
    }
}

/// An opener whose name holds no quote cannot reach into a value that is
/// set between two quotes and shares no character with it.
proof fn lemma_opener_clear_of_value(
    text: Seq<char>,
    start: int,
    end: int,
    other: Seq<char>,
    q: int,
)
    requires
        1 <= start <= end < text.len(),
        text[start - 1] == '"',
        text[end] == '"',
        !has_quote(other),
        !shares_char(text.subrange(start, end), value_opener(other)),
        occurs_at(text, value_opener(other), q),
    ensures
        q + value_opener(other).len() <= start || end <= q,
{
    let opener = value_opener(other);
    let length = opener.len() as int;
    let window = text.subrange(q, q + length);
    if q < end && start < q + length {
        if start < end {
            let i = if q >= start {
                q
            } else {
                start
            };
            assert(window[i - q] == text[i]);
            assert(text.subrange(start, end)[i - start] == opener[i - q]);
        } else {
            assert(window[start - 1 - q] == text[start - 1]);
            assert(window[start - q] == text[start]);
            let k = start - 1 - q;
            assert(opener[k] == '"' && opener[k + 1] == '"');
            if k < other.len() {
                assert(other[k] == '"');
            }
        }
    }
}

/// Rewriting the value of one attribute leaves the value of another as it
/// was. The two must not be the same value, the other attribute's name must
/// hold no quote, and neither the value that goes nor the value that comes
/// may hold a character of the other attribute's opener.
pub proof fn lemma_other_value_kept(
    markup: Seq<char>,
    name: Seq<char>,
    other: Seq<char>,
    value: Seq<char>,
)
    requires
        value_span(markup, name) is Some,
        value_span(markup, name) != value_span(markup, other),
        !has_quote(other),
        !shares_char(value_text(markup, name)->0, value_opener(other)),
        !shares_char(value, value_opener(other)),
    ensures
        value_text(value_replaced(markup, name, value), other) == value_text(markup, other),
{
    let mine = value_opener(name);
    let theirs = value_opener(other);
    let quote = seq!['"'];
    lemma_first_occurrence(markup, mine, 0);
    let at = first_occurrence(markup, mine, 0)->0;
    let start = at + mine.len();
    lemma_first_occurrence(markup, quote, start);
    let end = first_occurrence(markup, quote, start)->0;
    let changed = spliced(markup, start, end, value);
    let shift = value.len() - (end - start);
    let close = start + value.len();
    assert(value_replaced(markup, name, value) == changed);
    assert(markup[start - 1] == '"') by {
        assert(markup.subrange(at, start)[mine.len() - 1] == mine[mine.len() - 1]);
    }
    assert(markup[end] == '"') by {
        assert(markup.subrange(end, end + 1)[0] == quote[0]);
    }
    assert(changed.len() == markup.len() + shift);
    assert(changed[start - 1] == markup[start - 1]);
    assert(changed[close] == markup[end]);
    assert(changed.subrange(start, close) =~= value);
    assert(occurs_at(markup, quote, start - 1)) by {
        assert(markup.subrange(start - 1, start) =~= quote);
    }
    lemma_first_occurrence(markup, theirs, 0);
    match first_occurrence(markup, theirs, 0) {
        None => {
            assert forall|q: int| 0 <= q implies !occurs_at(changed, theirs, q) by {
                if occurs_at(changed, theirs, q) {
                    lemma_opener_clear_of_value(changed, start, close, other, q);
                    if q + theirs.len() <= start {
                        lemma_occurs_before(markup, start, end, value, theirs, q);
                    } else {
                        lemma_occurs_after(markup, start, end, value, theirs, q - shift);
                    }
                }
            }
            lemma_first_occurrence(changed, theirs, 0);
        },
        Some(found) => {
            lemma_opener_clear_of_value(markup, start, end, other, found);
            let begin = found + theirs.len();
            lemma_first_occurrence(markup, quote, begin);
            if begin <= start {
                lemma_occurs_before(markup, start, end, value, theirs, found);
                assert forall|q: int| 0 <= q < found implies !occurs_at(changed, theirs, q) by {
                    lemma_occurs_before(markup, start, end, value, theirs, q);
                }
                lemma_first_occurrence_is(changed, theirs, 0, found);
                assert(begin < start);
                let stop = first_occurrence(markup, quote, begin)->0;
                assert(stop <= start - 1);
                lemma_occurs_before(markup, start, end, value, quote, stop);
                assert forall|q: int| begin <= q < stop implies !occurs_at(changed, quote, q) by {
                    lemma_occurs_before(markup, start, end, value, quote, q);
                }
                lemma_first_occurrence_is(changed, quote, begin, stop);
                assert(changed.subrange(begin, stop) =~= markup.subrange(begin, stop));
            } else {
                lemma_occurs_after(markup, start, end, value, theirs, found);
                assert forall|q: int| 0 <= q < found + shift implies !occurs_at(
                    changed,
                    theirs,
                    q,
                ) by {
                    if occurs_at(changed, theirs, q) {
                        lemma_opener_clear_of_value(changed, start, close, other, q);
                        if q + theirs.len() <= start {
                            lemma_occurs_before(markup, start, end, value, theirs, q);
                        } else {
                            lemma_occurs_after(markup, start, end, value, theirs, q - shift);
                        }
                    }
                }
                lemma_first_occurrence_is(changed, theirs, 0, found + shift);
                match first_occurrence(markup, quote, begin) {
                    None => {
                        assert forall|q: int| begin + shift <= q implies !occurs_at(
                            changed,
                            quote,
                            q,
                        ) by {
                            lemma_occurs_after(markup, start, end, value, quote, q - shift);
                        }
                        lemma_first_occurrence(changed, quote, begin + shift);
                    },
                    Some(stop) => {
                        lemma_occurs_after(markup, start, end, value, quote, stop);
                        assert forall|q: int| begin + shift <= q < stop + shift implies !occurs_at(
                            changed,
                            quote,
                            q,
                        ) by {
                            lemma_occurs_after(markup, start, end, value, quote, q - shift);
                        }
                        lemma_first_occurrence_is(changed, quote, begin + shift, stop + shift);
                        assert(changed.subrange(begin + shift, stop + shift) =~= markup.subrange(
                            begin,
                            stop,
                        ));
                    },
                }
            }
        },
    }
}

/// Writing back the value that was read changes nothing.
pub proof fn lemma_value_written_back(markup: Seq<char>, name: Seq<char>)
    ensures
        match value_text(markup, name) {
            Some(value) => value_replaced(markup, name, value) == markup,
            None => forall|value: Seq<char>| value_replaced(markup, name, value) == markup,
        },
{
    match value_span(markup, name) {
        None => {},
        Some((start, end)) => {
            let key = value_opener(name);
            lemma_first_occurrence(markup, key, 0);
            lemma_first_occurrence(markup, seq!['"'], start);
            let value = markup.subrange(start, end);
            assert(markup.subrange(0, start) + value + markup.subrange(end, markup.len() as int)
                =~= markup);
        },
    }
}

fn matches_at(hay: &Vec<char>, needle: &Vec<char>, at: usize) -> (found: bool)
    ensures
        found == occurs_at(hay@, needle@, at as int),
{
    if needle.len() > hay.len() || at > hay.len() - needle.len() {
        return false;
    }
    let mut k: usize = 0;
    while k < needle.len()
        invariant
            k <= needle.len(),
            at + needle.len() <= hay.len(),
            forall|j: int| 0 <= j < k ==> hay@[at + j] == needle@[j],
        decreases needle.len() - k,
    {
        if hay[at + k] != needle[k] {
            proof {
                let window = hay@.subrange(at as int, at + needle.len());
                assert(window[k as int] != needle@[k as int]);
            }
            return false;
        }
        k = k + 1;
    }
    proof {
        assert(hay@.subrange(at as int, at + needle.len()) =~= needle@);
    }
    true
}

fn find_from(hay: &Vec<char>, needle: &Vec<char>, from: usize) -> (found: Option<usize>)
    ensures
        match found {
            Some(at) => first_occurrence(hay@, needle@, from as int) == Some(at as int),
            None => first_occurrence(hay@, needle@, from as int) is None,
        },
{
    if needle.len() > hay.len() || from > hay.len() - needle.len() {
        return None;
    }
    let last: usize = hay.len() - needle.len();
    let mut at: usize = from;
    loop
        invariant
            from <= at <= last,
            last == hay.len() - needle.len(),
            first_occurrence(hay@, needle@, from as int) == first_occurrence(
                hay@,
                needle@,
                at as int,
            ),
        decreases last - at,
    {
        if matches_at(hay, needle, at) {
            return Some(at);
        }
        if at == last {
            assert(first_occurrence(hay@, needle@, at + 1) is None);
            return None;
        }
        at = at + 1;
    }
}

fn find_value_span(markup: &Vec<char>, name: &Vec<char>) -> (span: Option<(usize, usize)>)
    ensures
        match span {
            Some((start, end)) => {
                &&& value_span(markup@, name@) == Some((start as int, end as int))
                &&& start <= end < markup.len()
            },
            None => value_span(markup@, name@) is None,
        },
{
    let mut opener: Vec<char> = Vec::new();
    let mut i: usize = 0;
    while i < name.len()
        invariant
            i <= name.len(),
            opener@ == name@.take(i as int),
        decreases name.len() - i,
    {
        opener.push(name[i]);
        proof {
            assert(name@.take(i + 1) == name@.take(i as int).push(name@[i as int]));
        }
        i = i + 1;
    }
    opener.push('=');
    opener.push('"');
    let mut quote: Vec<char> = Vec::new();
    quote.push('"');
    proof {
        assert(name@.take(name.len() as int) == name@);
        assert(opener@ == value_opener(name@));
        assert(quote@ == seq!['"']);
    }
    match find_from(markup, &opener, 0) {
        None => None,
        Some(at) => {
            proof {
                lemma_first_occurrence(markup@, opener@, 0);
            }
            let length: usize = markup.len();
            assert(at + opener.len() <= length);
            let start: usize = at + opener.len();
            match find_from(markup, &quote, start) {
                None => None,
                Some(end) => {
                    proof {
                        lemma_first_occurrence(markup@, quote@, start as int);
                    }
                    Some((start, end))
                },
            }
        },
    }
}

/// Reads the value of the first `name="..."` in `markup`.
pub fn attribute_value(markup: &str, name: &str) -> (value: Option<String>)
    ensures
        match value {
            Some(text) => value_text(markup@, name@) == Some(text@),
            None => value_text(markup@, name@) is None,
        },
{
    let chars = chars_of(markup);
    let key = chars_of(name);
    match find_value_span(&chars, &key) {
        None => None,
        Some((start, end)) => {
            let mut text = String::new();
            push_chars(&mut text, &chars, start, end);
            Some(text)
        },
    }
}

/// Writes `value` in place of the value of the first `name="..."` in
/// `markup`, and hands back `markup` unchanged where there is none.
pub fn with_attribute_value(markup: &str, name: &str, value: &str) -> (changed: String)
    ensures
        changed@ == value_replaced(markup@, name@, value@),
{
    let chars = chars_of(markup);
    let key = chars_of(name);
    match find_value_span(&chars, &key) {
        None => {
            let mut same = String::new();
            push_chars(&mut same, &chars, 0, chars.len());
            proof {
                assert(chars@.subrange(0, chars.len() as int) == chars@);
            }
            same
        },
        Some((start, end)) => {
            let mut changed = String::new();
            push_chars(&mut changed, &chars, 0, start);
            changed.append(value);
            push_chars(&mut changed, &chars, end, chars.len());
            changed
        },
    }
}

} // verus!
